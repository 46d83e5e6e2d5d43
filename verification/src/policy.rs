//! The policy engine: evaluates every tool call request against the device
//! state and the tool's risk class and returns a decision.
//!
//! Principle: deny-by-default. No action is allowed unless a rule permits it.

use vstd::prelude::*;
use crate::text::{seq_starts_with, str_eq, str_starts_with};

verus! {

/// The possible decisions the policy engine can make.
#[derive(Debug, Clone, Copy, PartialEq, Eq, Structural)]
pub enum Decision {
    Allow,
    AllowWithLog,
    RequireConfirmation,
    Deny,
    Quarantine,
}

/// Network connectivity of the device.
#[derive(Debug, Clone, Copy, PartialEq, Eq, Structural)]
pub enum NetworkState {
    Wifi,
    Cellular,
    Roaming,
    Offline,
}

/// Who asked for the tool call.
#[derive(Debug, Clone, Copy, PartialEq, Eq, Structural)]
pub enum RequestOrigin {
    User,
    Agent,
    Plugin,
    System,
}

/// State of the device at the time of the request.
#[derive(Debug, Clone)]
pub struct DeviceState {
    pub locked: bool,
    pub network: NetworkState,
    pub battery_level: u8,
}

/// Context provided with each policy evaluation request.
#[derive(Debug, Clone)]
pub struct PolicyContext {
    pub tool_id: String,
    pub risk_class: String,
    pub capabilities: Vec<String>,
    pub side_effects: Vec<String>,
    pub device_state: DeviceState,
    pub user_role: String,
    pub origin: RequestOrigin,
}

/// Result of a policy evaluation.
#[derive(Debug, Clone)]
pub struct PolicyResult {
    pub decision: Decision,
    pub consent_required: Option<String>,
    pub reason: String,
    pub matched_rule: Option<String>,
}

/// A policy result seen as mathematical values.
pub struct Verdict {
    pub decision: Decision,
    pub consent_required: Option<Seq<char>>,
    pub reason: Seq<char>,
    pub matched_rule: Option<Seq<char>>,
}

/// The characters of an optional string.
pub open spec fn opt_view(o: Option<String>) -> Option<Seq<char>> {
    match o {
        Some(s) => Some(s@),
        None => None,
    }
}

impl PolicyResult {
    pub open spec fn verdict(self) -> Verdict {
        Verdict {
            decision: self.decision,
            consent_required: opt_view(self.consent_required),
            reason: self.reason@,
            matched_rule: opt_view(self.matched_rule),
        }
    }
}

/// Some capability label lies in the `network.` domain.
pub open spec fn has_network_capability(capabilities: Seq<String>) -> bool {
    exists|i: int|
        0 <= i < capabilities.len() && seq_starts_with(#[trigger] capabilities[i]@, "network."@)
}

pub open spec fn verdict_of(
    decision: Decision,
    consent: Option<Seq<char>>,
    reason: Seq<char>,
    rule: Option<Seq<char>>,
) -> Verdict {
    Verdict { decision, consent_required: consent, reason, matched_rule: rule }
}

/// The risk classes that the policy knows.
pub open spec fn is_known_risk_class(risk: Seq<char>) -> bool {
    risk == "low"@ || risk == "medium"@ || risk == "high"@ || risk == "critical"@
}

/// What the policy answers to a request, rule by rule in order: a locked
/// device allows only low-risk actions; while roaming no capability of the
/// `network.` domain is allowed; then the risk class decides, and an unknown
/// risk class is denied by default.
pub open spec fn policy_verdict(ctx: PolicyContext) -> Verdict {
    let risk = ctx.risk_class@;
    if ctx.device_state.locked && risk != "low"@ {
        verdict_of(
            Decision::Deny,
            None,
            "Device is locked — only low-risk actions allowed"@,
            Some("locked-device-restrictions"@),
        )
    } else if ctx.device_state.network == NetworkState::Roaming && has_network_capability(
        ctx.capabilities@,
    ) {
        verdict_of(
            Decision::Deny,
            None,
            "Network actions blocked while roaming"@,
            Some("roaming-restrictions"@),
        )
    } else if risk == "low"@ {
        if ctx.side_effects@.len() == 0 {
            verdict_of(
                Decision::Allow,
                None,
                "Low-risk, no side effects"@,
                Some("allow-low-risk-local"@),
            )
        } else {
            verdict_of(
                Decision::AllowWithLog,
                None,
                "Low-risk with side effects"@,
                Some("allow-low-risk-with-effects"@),
            )
        }
    } else if risk == "medium"@ {
        verdict_of(
            Decision::RequireConfirmation,
            Some("once"@),
            "Medium-risk action requires confirmation"@,
            Some("confirm-medium-risk"@),
        )
    } else if risk == "high"@ {
        verdict_of(
            Decision::RequireConfirmation,
            Some("strong"@),
            "High-risk action requires strong confirmation"@,
            Some("confirm-high-risk"@),
        )
    } else if risk == "critical"@ {
        verdict_of(
            Decision::RequireConfirmation,
            Some("biometric"@),
            "Critical action requires biometric confirmation"@,
            Some("confirm-critical"@),
        )
    } else {
        verdict_of(Decision::Deny, None, "Unknown risk class — denied by default"@, None)
    }
}

/// The policy engine evaluates tool call requests against its rules.
pub struct PolicyEngine {
    default_decision: Decision,
}

impl PolicyEngine {
    /// Requests that no rule permits get this decision: always `Deny`.
    #[verifier::type_invariant]
    spec fn denies_by_default(self) -> bool {
        self.default_decision == Decision::Deny
    }

    /// The decision given to requests that no rule permits.
    pub closed spec fn fallback(self) -> Decision {
        self.default_decision
    }

    pub fn new() -> (engine: Self)
        ensures
            engine.fallback() == Decision::Deny,
    {
        PolicyEngine { default_decision: Decision::Deny }
    }

    /// Evaluate a tool call request against the policy.
    pub fn evaluate(&self, context: &PolicyContext) -> (result: PolicyResult)
        ensures
            result.verdict() == policy_verdict(*context),
    {
        proof {
            use_type_invariant(self);
        }
        if context.device_state.locked {
            if !str_eq(context.risk_class.as_str(), "low") {
                return PolicyResult {
                    decision: Decision::Deny,
                    consent_required: None,
                    reason: String::from_str("Device is locked — only low-risk actions allowed"),
                    matched_rule: Some(String::from_str("locked-device-restrictions")),
                };
            }
        }
        if context.device_state.network == NetworkState::Roaming {
            if any_network_capability(&context.capabilities) {
                return PolicyResult {
                    decision: Decision::Deny,
                    consent_required: None,
                    reason: String::from_str("Network actions blocked while roaming"),
                    matched_rule: Some(String::from_str("roaming-restrictions")),
                };
            }
        }
        let risk = context.risk_class.as_str();
        if str_eq(risk, "low") {
            if context.side_effects.len() == 0 {
                PolicyResult {
                    decision: Decision::Allow,
                    consent_required: None,
                    reason: String::from_str("Low-risk, no side effects"),
                    matched_rule: Some(String::from_str("allow-low-risk-local")),
                }
            } else {
                PolicyResult {
                    decision: Decision::AllowWithLog,
                    consent_required: None,
                    reason: String::from_str("Low-risk with side effects"),
                    matched_rule: Some(String::from_str("allow-low-risk-with-effects")),
                }
            }
        } else if str_eq(risk, "medium") {
            PolicyResult {
                decision: Decision::RequireConfirmation,
                consent_required: Some(String::from_str("once")),
                reason: String::from_str("Medium-risk action requires confirmation"),
                matched_rule: Some(String::from_str("confirm-medium-risk")),
            }
        } else if str_eq(risk, "high") {
            PolicyResult {
                decision: Decision::RequireConfirmation,
                consent_required: Some(String::from_str("strong")),
                reason: String::from_str("High-risk action requires strong confirmation"),
                matched_rule: Some(String::from_str("confirm-high-risk")),
            }
        } else if str_eq(risk, "critical") {
            PolicyResult {
                decision: Decision::RequireConfirmation,
                consent_required: Some(String::from_str("biometric")),
                reason: String::from_str("Critical action requires biometric confirmation"),
                matched_rule: Some(String::from_str("confirm-critical")),
            }
        } else {
            PolicyResult {
                decision: self.default_decision,
                consent_required: None,
                reason: String::from_str("Unknown risk class — denied by default"),
                matched_rule: None,
            }
        }
    }
}

impl Default for PolicyEngine {
    fn default() -> (engine: Self)
        ensures
            engine.fallback() == Decision::Deny,
    {
        Self::new()
    }
}

/// Deny by default: a request whose risk class is none of `low`, `medium`,
/// `high` and `critical` is denied.
pub proof fn law_unknown_risk_class_denied(ctx: PolicyContext)
    requires
        !is_known_risk_class(ctx.risk_class@),
    ensures
        policy_verdict(ctx).decision == Decision::Deny,
{
}

/// On a locked device every action that is not low-risk is denied.
pub proof fn law_locked_device_allows_only_low_risk(ctx: PolicyContext)
    requires
        ctx.device_state.locked,
        ctx.risk_class@ != "low"@,
    ensures
        policy_verdict(ctx).decision == Decision::Deny,
{
}

/// While roaming, a request for a capability of the `network.` domain is denied.
pub proof fn law_roaming_blocks_network(ctx: PolicyContext)
    requires
        ctx.device_state.network == NetworkState::Roaming,
        has_network_capability(ctx.capabilities@),
    ensures
        policy_verdict(ctx).decision == Decision::Deny,
{
}

/// While roaming, a request is denied as soon as any one of its capability
/// labels, at whatever position, begins with `network.`.
pub proof fn law_roaming_denies_any_network_capability(ctx: PolicyContext, i: int)
    requires
        ctx.device_state.network == NetworkState::Roaming,
        0 <= i < ctx.capabilities@.len(),
        "network."@.len() <= ctx.capabilities@[i]@.len(),
        ctx.capabilities@[i]@.subrange(0, "network."@.len() as int) == "network."@,
    ensures
        policy_verdict(ctx).decision == Decision::Deny,
{
    assert(seq_starts_with(ctx.capabilities@[i]@, "network."@));
    assert(has_network_capability(ctx.capabilities@));
}

/// An action is allowed (with or without logging) only if it is low-risk and
/// no restriction applies; it is allowed silently only if it also declares no
/// side effects.
pub proof fn law_allow_only_low_risk(ctx: PolicyContext)
    ensures
        ({
            let d = policy_verdict(ctx).decision;
            (d == Decision::Allow || d == Decision::AllowWithLog) ==> {
                &&& ctx.risk_class@ == "low"@
                &&& !(ctx.device_state.network == NetworkState::Roaming && has_network_capability(
                    ctx.capabilities@,
                ))
            }
        }),
        policy_verdict(ctx).decision == Decision::Allow ==> ctx.side_effects@.len() == 0,
{
}

/// A confirmation is asked for exactly when a consent level is named, and the
/// consent level is the default one of the risk class: `once` for medium,
/// `strong` for high and `biometric` for critical risk.
pub proof fn law_confirmation_names_consent(ctx: PolicyContext)
    ensures
        (policy_verdict(ctx).decision == Decision::RequireConfirmation)
            <==> policy_verdict(ctx).consent_required is Some,
        policy_verdict(ctx).decision == Decision::RequireConfirmation ==> {
            let c = policy_verdict(ctx).consent_required->0;
            &&& ctx.risk_class@ == "medium"@ ==> c == "once"@
            &&& ctx.risk_class@ == "high"@ ==> c == "strong"@
            &&& ctx.risk_class@ == "critical"@ ==> c == "biometric"@
        },
{
    reveal_strlit("low");
    reveal_strlit("medium");
    reveal_strlit("high");
    reveal_strlit("critical");
    assert("low"@.len() == 3 && "medium"@.len() == 6 && "high"@.len() == 4 && "critical"@.len()
        == 8);
}

/// A medium-, high- or critical-risk action that no restriction denies always
/// needs the user's confirmation.
pub proof fn law_elevated_risk_needs_confirmation(ctx: PolicyContext)
    requires
        ctx.risk_class@ == "medium"@ || ctx.risk_class@ == "high"@ || ctx.risk_class@
            == "critical"@,
        !ctx.device_state.locked,
        !(ctx.device_state.network == NetworkState::Roaming && has_network_capability(
            ctx.capabilities@,
        )),
    ensures
        policy_verdict(ctx).decision == Decision::RequireConfirmation,
{
    reveal_strlit("low");
    reveal_strlit("medium");
    reveal_strlit("high");
    reveal_strlit("critical");
    assert("low"@.len() == 3 && "medium"@.len() == 6 && "high"@.len() == 4 && "critical"@.len()
        == 8);
}

/// The engine never quarantines, and every decision but the default denial
/// names the rule that made it.
pub proof fn law_decisions_name_their_rule(ctx: PolicyContext)
    ensures
        policy_verdict(ctx).decision != Decision::Quarantine,
        policy_verdict(ctx).matched_rule is None ==> policy_verdict(ctx).decision
            == Decision::Deny && !is_known_risk_class(ctx.risk_class@),
{
}

/// Whether some capability label starts with `network.`.
fn any_network_capability(capabilities: &Vec<String>) -> (r: bool)
    ensures
        r == has_network_capability(capabilities@),
{
    let mut i: usize = 0;
    while i < capabilities.len()
        invariant
            i <= capabilities.len(),
            forall|j: int|
                0 <= j < i ==> !seq_starts_with(#[trigger] capabilities@[j]@, "network."@),
        decreases capabilities.len() - i,
    {
        if str_starts_with(capabilities[i].as_str(), "network.") {
            return true;
        }
        i = i + 1;
    }
    false
}

} // verus!
