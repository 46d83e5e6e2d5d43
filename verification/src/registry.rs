//! The tool registry: the catalog of available system tools. Each tool is
//! described by a definition that states its interface, the capabilities it
//! needs, its risk class and its audit requirements.

use vstd::prelude::*;
use crate::json::JsonValue;
use crate::search::{first_index_of, lemma_first_index_of, lemma_first_index_of_distinct, lemma_first_index_of_push};
use crate::text::str_eq;

verus! {

/// Risk classification of a tool.
#[derive(Debug, Clone, Copy, PartialEq, Eq, Structural)]
pub enum RiskClass {
    Low,
    Medium,
    High,
    Critical,
}

/// Whether and how a tool's action can be undone.
#[derive(Debug, Clone)]
pub struct RollbackInfo {
    pub supported: bool,
    pub method: String,
}

/// Logging requirements of a tool.
#[derive(Debug, Clone, Copy, PartialEq, Eq, Structural)]
pub struct AuditConfig {
    pub log_input: bool,
    pub log_output: bool,
    pub retention_days: u32,
}

/// The consent a tool needs by default.
#[derive(Debug, Clone, Copy, PartialEq, Eq, Structural)]
pub enum ConsentLevel {
    /// No user interaction is needed (written `none` in tool schemas).
    NoConsent,
    Once,
    Persistent,
    Strong,
    Biometric,
}

/// The declarative description of a tool.
#[derive(Debug, Clone)]
pub struct ToolDefinition {
    pub id: String,
    pub name: String,
    pub description: String,
    pub version: String,
    pub category: String,
    pub input: JsonValue,
    pub output: JsonValue,
    pub capabilities: Vec<String>,
    pub risk_class: RiskClass,
    pub side_effects: Vec<String>,
    pub rollback: RollbackInfo,
    pub audit: AuditConfig,
    pub consent_level: ConsentLevel,
}

/// The identifiers of a list of tool definitions, in order.
pub open spec fn tool_ids(tools: Seq<ToolDefinition>) -> Seq<Seq<char>> {
    tools.map_values(|t: ToolDefinition| t.id@)
}

/// The catalog of registered tools, keyed by tool identifier.
pub struct ToolRegistry {
    tools: Vec<ToolDefinition>,
}

impl View for ToolRegistry {
    type V = Map<Seq<char>, ToolDefinition>;

    /// Each registered identifier mapped to its definition.
    closed spec fn view(&self) -> Map<Seq<char>, ToolDefinition> {
        let ids = tool_ids(self.tools@);
        Map::new(|k: Seq<char>| ids.contains(k), |k: Seq<char>| self.tools@[first_index_of(ids, k)])
    }
}

impl ToolRegistry {
    /// No identifier is registered twice.
    #[verifier::type_invariant]
    spec fn ids_distinct(self) -> bool {
        tool_ids(self.tools@).no_duplicates()
    }

    pub fn new() -> (registry: Self)
        ensures
            registry@ == Map::<Seq<char>, ToolDefinition>::empty(),
    {
        let registry = ToolRegistry { tools: Vec::new() };
        assert(registry@ =~= Map::<Seq<char>, ToolDefinition>::empty());
        registry
    }

    /// The position of the definition registered as `tool_id`, if any.
    fn position(&self, tool_id: &str) -> (r: Option<usize>)
        ensures
            match r {
                Some(i) => i < self.tools@.len() && first_index_of(tool_ids(self.tools@), tool_id@)
                    == i,
                None => !tool_ids(self.tools@).contains(tool_id@),
            },
    {
        let ghost ids = tool_ids(self.tools@);
        let mut i: usize = 0;
        while i < self.tools.len()
            invariant
                ids == tool_ids(self.tools@),
                i <= self.tools@.len(),
                forall|j: int| 0 <= j < i ==> ids[j] != tool_id@,
            decreases self.tools@.len() - i,
        {
            if str_eq(self.tools[i].id.as_str(), tool_id) {
                proof {
                    lemma_first_index_of(ids, tool_id@);
                    assert(ids[i as int] == tool_id@);
                    let fi = first_index_of(ids, tool_id@);
                    if fi < i {
                        assert(ids[fi] != tool_id@);
                    }
                    if fi > i {
                        assert(ids[i as int] != tool_id@);
                    }
                }
                return Some(i);
            }
            i = i + 1;
        }
        proof {
            if ids.contains(tool_id@) {
                let j = choose|j: int| 0 <= j < ids.len() && ids[j] == tool_id@;
                assert(false);
            }
        }
        None
    }

    /// Register a tool, replacing any definition with the same identifier.
    pub fn register(&mut self, tool: ToolDefinition)
        ensures
            final(self)@ == old(self)@.insert(tool.id@, tool),
    {
        proof {
            use_type_invariant(&*self);
        }
        let ghost old_tools = self.tools@;
        let ghost old_ids = tool_ids(old_tools);
        let pos = self.position(tool.id.as_str());
        let mut tools: Vec<ToolDefinition> = Vec::new();
        std::mem::swap(&mut tools, &mut self.tools);
        match pos {
            Some(i) => {
                tools.set(i, tool);
                proof {
                    lemma_first_index_of(old_ids, tool.id@);
                    assert(tool_ids(tools@) =~= old_ids);
                }
            },
            None => {
                tools.push(tool);
                proof {
                    assert(tool_ids(tools@) =~= old_ids.push(tool.id@));
                    assert forall|a: int, b: int|
                        0 <= a < b < tool_ids(tools@).len() implies tool_ids(tools@)[a]
                        != tool_ids(tools@)[b] by {
                        if b == old_ids.len() {
                            assert(old_ids[a] == tool_ids(tools@)[a]);
                        }
                    }
                }
            },
        }
        let ghost new_ids = tool_ids(tools@);
        self.tools = tools;
        proof {
            let ghost m = old(self)@.insert(tool.id@, tool);
            assert forall|k: Seq<char>| #[trigger] self@.contains_key(k) == m.contains_key(k) by {
                if pos is None {
                    lemma_first_index_of_push(old_ids, tool.id@, k);
                    lemma_first_index_of(new_ids, k);
                    lemma_first_index_of(old_ids, k);
                }
            }
            assert forall|k: Seq<char>| self@.contains_key(k) implies #[trigger] self@[k] == m[k] by {
                lemma_first_index_of(old_ids, k);
                lemma_first_index_of(new_ids, k);
                if pos is None {
                    lemma_first_index_of_push(old_ids, tool.id@, k);
                } else {
                    let i = pos->0;
                    if k != tool.id@ {
                        assert(first_index_of(new_ids, k) != i);
                    }
                }
            }
            assert(self@ =~= m);
        }
    }

    /// The definition registered as `tool_id`.
    pub fn get(&self, tool_id: &str) -> (r: Option<&ToolDefinition>)
        ensures
            match r {
                Some(t) => self@.contains_key(tool_id@) && self@[tool_id@] == *t && t.id@ == tool_id@,
                None => !self@.contains_key(tool_id@),
            },
    {
        match self.position(tool_id) {
            Some(i) => {
                proof {
                    lemma_first_index_of(tool_ids(self.tools@), tool_id@);
                }
                Some(&self.tools[i])
            },
            None => None,
        }
    }

    /// The number of registered tools.
    pub fn tool_count(&self) -> (n: usize)
        ensures
            self@.dom().finite(),
            n == self@.dom().len(),
    {
        proof {
            use_type_invariant(self);
            let ids = tool_ids(self.tools@);
            assert(self@.dom() =~= ids.to_set());
            ids.unique_seq_to_set();
        }
        self.tools.len()
    }

    /// Every registered definition, each once.
    pub fn list_tools(&self) -> (r: Vec<&ToolDefinition>)
        ensures
            r@.len() == self@.dom().len(),
            forall|i: int|
                0 <= i < r@.len() ==> self@.contains_key((#[trigger] r@[i]).id@) && self@[r@[i].id@]
                    == *r@[i],
            forall|k: Seq<char>|
                #[trigger] self@.contains_key(k) ==> exists|i: int| 0 <= i < r@.len() && *r@[i] == self@[k],
            forall|i: int, j: int|
                0 <= i < j < r@.len() ==> (#[trigger] r@[i]).id@ != (#[trigger] r@[j]).id@,
            forall|k: Seq<char>| #[trigger] self@.contains_key(k) ==> self@[k].id@ == k,
    {
        proof {
            use_type_invariant(self);
        }
        let ghost ids = tool_ids(self.tools@);
        let mut r: Vec<&ToolDefinition> = Vec::new();
        let mut i: usize = 0;
        while i < self.tools.len()
            invariant
                ids == tool_ids(self.tools@),
                ids.no_duplicates(),
                i <= self.tools@.len(),
                r@.len() == i,
                forall|j: int| 0 <= j < i ==> *r@[j] == self.tools@[j],
            decreases self.tools@.len() - i,
        {
            r.push(&self.tools[i]);
            i = i + 1;
        }
        proof {
            assert(self@.dom() =~= ids.to_set());
            ids.unique_seq_to_set();
            assert forall|j: int| 0 <= j < r@.len() implies self@.contains_key(
                (#[trigger] r@[j]).id@,
            ) && self@[r@[j].id@] == *r@[j] by {
                assert(ids[j] == r@[j].id@);
                assert(ids.contains(ids[j]));
                lemma_first_index_of_distinct(ids, j);
            }
            assert forall|k: Seq<char>| #[trigger] self@.contains_key(k) implies exists|j: int|
                0 <= j < r@.len() && *r@[j] == self@[k] by {
                lemma_first_index_of(ids, k);
                let j = first_index_of(ids, k);
                assert(*r@[j] == self@[k]);
            }
            assert forall|a: int, b: int| 0 <= a < b < r@.len() implies (#[trigger] r@[a]).id@
                != (#[trigger] r@[b]).id@ by {
                assert(ids[a] == r@[a].id@);
                assert(ids[b] == r@[b].id@);
            }
            assert forall|k: Seq<char>| #[trigger] self@.contains_key(k) implies self@[k].id@
                == k by {
                lemma_first_index_of(ids, k);
                let j = first_index_of(ids, k);
                assert(ids[j] == self.tools@[j].id@);
            }
        }
        r
    }
}

} // verus!

verus! {

/// What a lookup gives back of a registration: after a tool is registered,
/// looking up its identifier gives that tool, and every other identifier still
/// gives what it gave before.
pub proof fn law_get_after_register(
    m: Map<Seq<char>, ToolDefinition>,
    tool: ToolDefinition,
    other: Seq<char>,
)
    ensures
        m.insert(tool.id@, tool).contains_key(tool.id@),
        m.insert(tool.id@, tool)[tool.id@] == tool,
        other != tool.id@ ==> (m.insert(tool.id@, tool).contains_key(other) == m.contains_key(
            other,
        ) && (m.contains_key(other) ==> m.insert(tool.id@, tool)[other] == m[other])),
{
}

/// Registering a new identifier adds one tool to the count; registering a
/// known identifier again replaces its definition and keeps the count.
pub proof fn law_register_count(m: Map<Seq<char>, ToolDefinition>, tool: ToolDefinition)
    requires
        m.dom().finite(),
    ensures
        m.insert(tool.id@, tool).dom().len() == if m.contains_key(tool.id@) {
            m.dom().len()
        } else {
            m.dom().len() + 1
        },
{
    assert(m.insert(tool.id@, tool).dom() =~= m.dom().insert(tool.id@));
    if m.contains_key(tool.id@) {
        assert(m.dom().insert(tool.id@) =~= m.dom());
    }
}

} // verus!
