use aios::policy::{
    Decision, DeviceState, NetworkState, PolicyContext, PolicyEngine, RequestOrigin,
};

fn make_context(risk_class: &str, side_effects: Vec<String>) -> PolicyContext {
    PolicyContext {
        tool_id: "test.tool".to_string(),
        risk_class: risk_class.to_string(),
        capabilities: vec![],
        side_effects,
        device_state: DeviceState {
            locked: false,
            network: NetworkState::Wifi,
            battery_level: 80,
        },
        user_role: "owner".to_string(),
        origin: RequestOrigin::User,
    }
}

#[test]
fn test_low_risk_no_side_effects_allowed() {
    let engine = PolicyEngine::new();
    let ctx = make_context("low", vec![]);
    let result = engine.evaluate(&ctx);
    assert_eq!(result.decision, Decision::Allow);
}

#[test]
fn test_low_risk_with_side_effects_logged() {
    let engine = PolicyEngine::new();
    let ctx = make_context("low", vec!["modifies_settings".to_string()]);
    let result = engine.evaluate(&ctx);
    assert_eq!(result.decision, Decision::AllowWithLog);
}

#[test]
fn test_high_risk_requires_confirmation() {
    let engine = PolicyEngine::new();
    let ctx = make_context("high", vec![]);
    let result = engine.evaluate(&ctx);
    assert_eq!(result.decision, Decision::RequireConfirmation);
    assert_eq!(result.consent_required, Some("strong".to_string()));
}

#[test]
fn test_locked_device_denies_non_low_risk() {
    let engine = PolicyEngine::new();
    let mut ctx = make_context("medium", vec![]);
    ctx.device_state.locked = true;
    let result = engine.evaluate(&ctx);
    assert_eq!(result.decision, Decision::Deny);
}

#[test]
fn test_unknown_risk_class_denied() {
    let engine = PolicyEngine::new();
    let ctx = make_context("unknown", vec![]);
    let result = engine.evaluate(&ctx);
    assert_eq!(result.decision, Decision::Deny);
}

#[test]
fn low_risk_result_names_rule_and_reason() {
    let result = PolicyEngine::new().evaluate(&make_context("low", vec![]));
    assert_eq!(result.consent_required, None);
    assert_eq!(result.reason, "Low-risk, no side effects");
    assert_eq!(result.matched_rule, Some("allow-low-risk-local".to_string()));
}

#[test]
fn medium_risk_asks_once() {
    let result = PolicyEngine::default().evaluate(&make_context("medium", vec![]));
    assert_eq!(result.decision, Decision::RequireConfirmation);
    assert_eq!(result.consent_required, Some("once".to_string()));
    assert_eq!(result.reason, "Medium-risk action requires confirmation");
    assert_eq!(result.matched_rule, Some("confirm-medium-risk".to_string()));
}

#[test]
fn critical_risk_asks_biometric() {
    let result = PolicyEngine::new().evaluate(&make_context("critical", vec![]));
    assert_eq!(result.decision, Decision::RequireConfirmation);
    assert_eq!(result.consent_required, Some("biometric".to_string()));
    assert_eq!(result.matched_rule, Some("confirm-critical".to_string()));
}

#[test]
fn locked_device_reason_and_rule() {
    let mut ctx = make_context("critical", vec![]);
    ctx.device_state.locked = true;
    let result = PolicyEngine::new().evaluate(&ctx);
    assert_eq!(result.decision, Decision::Deny);
    assert_eq!(result.reason, "Device is locked — only low-risk actions allowed");
    assert_eq!(result.matched_rule, Some("locked-device-restrictions".to_string()));
}

#[test]
fn locked_device_still_allows_low_risk() {
    let mut ctx = make_context("low", vec![]);
    ctx.device_state.locked = true;
    assert_eq!(PolicyEngine::new().evaluate(&ctx).decision, Decision::Allow);
}

#[test]
fn roaming_blocks_network_capabilities() {
    let mut ctx = make_context("low", vec![]);
    ctx.device_state.network = NetworkState::Roaming;
    ctx.capabilities = vec!["files.read".to_string(), "network.http.get".to_string()];
    let result = PolicyEngine::new().evaluate(&ctx);
    assert_eq!(result.decision, Decision::Deny);
    assert_eq!(result.reason, "Network actions blocked while roaming");
    assert_eq!(result.matched_rule, Some("roaming-restrictions".to_string()));
}

#[test]
fn roaming_allows_capabilities_outside_network_domain() {
    let mut ctx = make_context("low", vec![]);
    ctx.device_state.network = NetworkState::Roaming;
    ctx.capabilities = vec!["settings.network.modify".to_string()];
    assert_eq!(PolicyEngine::new().evaluate(&ctx).decision, Decision::Allow);
}

#[test]
fn wifi_does_not_block_network_capabilities() {
    let mut ctx = make_context("medium", vec![]);
    ctx.capabilities = vec!["network.http.get".to_string()];
    assert_eq!(
        PolicyEngine::new().evaluate(&ctx).decision,
        Decision::RequireConfirmation
    );
}

#[test]
fn unknown_risk_class_has_no_rule() {
    let result = PolicyEngine::new().evaluate(&make_context("LOW", vec![]));
    assert_eq!(result.decision, Decision::Deny);
    assert_eq!(result.reason, "Unknown risk class — denied by default");
    assert_eq!(result.matched_rule, None);
    assert_eq!(result.consent_required, None);
}
