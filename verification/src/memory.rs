//! The memory layer: controlled, scoped memory for AI agents. Memory is kept
//! in distinct scopes with different lifecycles and protection.

use vstd::prelude::*;
use crate::clock::Timestamp;
use crate::json::JsonValue;
use crate::text::str_eq;

verus! {

/// Memory scopes with different lifecycles and access rules.
#[derive(Debug, Clone)]
pub enum MemoryScope {
    /// Short-lived, cleared after the conversation ends.
    Session,
    /// Persists across sessions, deletable by the user.
    Personal,
    /// Tied to a specific app or workspace.
    AppWorkspace { app_id: String },
    /// Encrypted, biometric-protected.
    SecureVault,
}

/// A single memory entry.
#[derive(Debug, Clone)]
pub struct MemoryEntry {
    pub id: String,
    pub scope: MemoryScope,
    pub key: String,
    pub value: JsonValue,
    pub source: String,
    pub created_at: Timestamp,
    pub expires_at: Option<Timestamp>,
}

/// Two scopes are the same scope: the same kind, and for app workspaces the
/// same app.
pub open spec fn scopes_match(a: MemoryScope, b: MemoryScope) -> bool {
    match (a, b) {
        (MemoryScope::Session, MemoryScope::Session) => true,
        (MemoryScope::Personal, MemoryScope::Personal) => true,
        (MemoryScope::SecureVault, MemoryScope::SecureVault) => true,
        (MemoryScope::AppWorkspace { app_id: x }, MemoryScope::AppWorkspace { app_id: y }) => x@
            == y@,
        _ => false,
    }
}

/// The entry is stored under `key` in `scope`.
pub open spec fn entry_matches(e: MemoryEntry, scope: MemoryScope, key: Seq<char>) -> bool {
    e.key@ == key && scopes_match(e.scope, scope)
}

/// The index of the last entry stored under `key` in `scope`, or -1.
pub open spec fn last_match(s: Seq<MemoryEntry>, scope: MemoryScope, key: Seq<char>) -> int
    decreases s.len(),
{
    if s.len() == 0 {
        -1
    } else if entry_matches(s.last(), scope, key) {
        s.len() - 1
    } else {
        last_match(s.drop_last(), scope, key)
    }
}

/// The entry that a recall of `key` in `scope` finds: the latest one stored.
pub open spec fn recalled(s: Seq<MemoryEntry>, scope: MemoryScope, key: Seq<char>) -> Option<
    MemoryEntry,
> {
    let i = last_match(s, scope, key);
    if i >= 0 {
        Some(s[i])
    } else {
        None
    }
}

/// The entries that remain after forgetting `id`.
pub open spec fn without_id(s: Seq<MemoryEntry>, id: Seq<char>) -> Seq<MemoryEntry> {
    s.filter(|e: MemoryEntry| e.id@ != id)
}

/// The entries that remain after clearing `scope`.
pub open spec fn without_scope(s: Seq<MemoryEntry>, scope: MemoryScope) -> Seq<MemoryEntry> {
    s.filter(|e: MemoryEntry| !scopes_match(e.scope, scope))
}

/// The memory layer manages agent memory across scopes.
pub struct MemoryLayer {
    entries: Vec<MemoryEntry>,
}

impl View for MemoryLayer {
    type V = Seq<MemoryEntry>;

    /// The stored entries, oldest first.
    closed spec fn view(&self) -> Seq<MemoryEntry> {
        self.entries@
    }
}

impl MemoryLayer {
    pub fn new() -> (layer: Self)
        ensures
            layer@ == Seq::<MemoryEntry>::empty(),
    {
        MemoryLayer { entries: Vec::new() }
    }

    /// Store an entry; it becomes the latest one.
    pub fn store(&mut self, entry: MemoryEntry)
        ensures
            final(self)@ == old(self)@.push(entry),
    {
        self.entries.push(entry);
    }

    /// The latest entry stored under `key` in `scope`.
    pub fn recall(&self, scope: &MemoryScope, key: &str) -> (r: Option<&MemoryEntry>)
        ensures
            match r {
                Some(e) => recalled(self@, *scope, key@) == Some(*e),
                None => recalled(self@, *scope, key@) is None,
            },
    {
        let mut i = self.entries.len();
        assert(self.entries@.subrange(0, i as int) =~= self.entries@);
        while i > 0
            invariant
                i <= self.entries@.len(),
                last_match(self.entries@, *scope, key@) == last_match(
                    self.entries@.subrange(0, i as int),
                    *scope,
                    key@,
                ),
            decreases i,
        {
            let e = &self.entries[i - 1];
            let ghost prefix = self.entries@.subrange(0, i as int);
            assert(prefix.drop_last() =~= self.entries@.subrange(0, i - 1));
            if str_eq(e.key.as_str(), key) && Self::scope_matches(&e.scope, scope) {
                return Some(e);
            }
            i = i - 1;
        }
        None
    }

    /// Forget every entry with the identifier `id`; tells whether any was
    /// stored.
    pub fn forget(&mut self, id: &str) -> (removed: bool)
        ensures
            final(self)@ == without_id(old(self)@, id@),
            removed == (final(self)@.len() < old(self)@.len()),
            removed == (exists|i: int| 0 <= i < old(self)@.len() && (#[trigger] old(self)@[i]).id@
                == id@),
    {
        let len_before = self.entries.len();
        let mut old_entries: Vec<MemoryEntry> = Vec::new();
        std::mem::swap(&mut old_entries, &mut self.entries);
        let ghost all = old_entries@;
        let mut kept: Vec<MemoryEntry> = Vec::new();
        let mut found = false;
        for e in it: old_entries
            invariant
                all == it.seq(),
                kept@ == without_id(all.take(it.index() as int), id@),
                found == exists|j: int| 0 <= j < it.index() && (#[trigger] all[j]).id@ == id@,
        {
            let ghost idx = it.index();
            proof {
                reveal_with_fuel(Seq::<MemoryEntry>::filter, 1);
                assert(all.take(idx + 1).drop_last() =~= all.take(idx as int));
                assert(all.take(idx + 1).last() == all[idx as int]);
                assert(e == all[idx as int]);
            }
            if str_eq(e.id.as_str(), id) {
                found = true;
            } else {
                kept.push(e);
            }
        }
        assert(all.take(all.len() as int) =~= all);
        self.entries = kept;
        proof {
            lemma_filter_shrinks_iff(all, |e: MemoryEntry| e.id@ != id@);
        }
        self.entries.len() < len_before
    }

    /// Forget every entry of `scope`.
    pub fn clear_scope(&mut self, scope: &MemoryScope)
        ensures
            final(self)@ == without_scope(old(self)@, *scope),
    {
        let mut old_entries: Vec<MemoryEntry> = Vec::new();
        std::mem::swap(&mut old_entries, &mut self.entries);
        let ghost all = old_entries@;
        let mut kept: Vec<MemoryEntry> = Vec::new();
        for e in it: old_entries
            invariant
                all == it.seq(),
                kept@ == without_scope(all.take(it.index() as int), *scope),
        {
            let ghost idx = it.index();
            proof {
                reveal_with_fuel(Seq::<MemoryEntry>::filter, 1);
                assert(all.take(idx + 1).drop_last() =~= all.take(idx as int));
                assert(all.take(idx + 1).last() == all[idx as int]);
                assert(e == all[idx as int]);
            }
            if !Self::scope_matches(&e.scope, scope) {
                kept.push(e);
            }
        }
        assert(all.take(all.len() as int) =~= all);
        self.entries = kept;
    }

    /// Whether two scopes are the same scope.
    pub fn scope_matches(a: &MemoryScope, b: &MemoryScope) -> (r: bool)
        ensures
            r == scopes_match(*a, *b),
    {
        match (a, b) {
            (MemoryScope::Session, MemoryScope::Session) => true,
            (MemoryScope::Personal, MemoryScope::Personal) => true,
            (MemoryScope::SecureVault, MemoryScope::SecureVault) => true,
            (
                MemoryScope::AppWorkspace { app_id: a_id },
                MemoryScope::AppWorkspace { app_id: b_id },
            ) => str_eq(a_id.as_str(), b_id.as_str()),
            _ => false,
        }
    }
}

impl Default for MemoryLayer {
    fn default() -> (layer: Self)
        ensures
            layer@ == Seq::<MemoryEntry>::empty(),
    {
        Self::new()
    }
}

/// Filtering drops something exactly when some element fails the predicate.
proof fn lemma_filter_shrinks_iff(s: Seq<MemoryEntry>, p: spec_fn(MemoryEntry) -> bool)
    ensures
        (s.filter(p).len() < s.len()) == (exists|i: int| 0 <= i < s.len() && !p(#[trigger] s[i])),
    decreases s.len(),
{
    reveal_with_fuel(Seq::<MemoryEntry>::filter, 1);
    if s.len() > 0 {
        lemma_filter_shrinks_iff(s.drop_last(), p);
        s.drop_last().lemma_filter_len(p);
        if exists|i: int| 0 <= i < s.drop_last().len() && !p(#[trigger] s.drop_last()[i]) {
            let i = choose|i: int| 0 <= i < s.drop_last().len() && !p(#[trigger] s.drop_last()[i]);
            assert(!p(s[i]));
        }
        if exists|i: int| 0 <= i < s.len() && !p(#[trigger] s[i]) {
            let i = choose|i: int| 0 <= i < s.len() && !p(#[trigger] s[i]);
            if i < s.len() - 1 {
                assert(!p(s.drop_last()[i]));
            }
        }
    }
}

} // verus!

verus! {

proof fn lemma_last_match_bounds(s: Seq<MemoryEntry>, scope: MemoryScope, key: Seq<char>)
    ensures
        -1 <= last_match(s, scope, key) < s.len(),
    decreases s.len(),
{
    if s.len() > 0 {
        lemma_last_match_bounds(s.drop_last(), scope, key);
    }
}

/// A recall looks at the latest entry first, then at the ones before it.
proof fn lemma_recalled_step(s: Seq<MemoryEntry>, scope: MemoryScope, key: Seq<char>)
    requires
        s.len() > 0,
    ensures
        recalled(s, scope, key) == if entry_matches(s.last(), scope, key) {
            Some(s.last())
        } else {
            recalled(s.drop_last(), scope, key)
        },
{
    lemma_last_match_bounds(s.drop_last(), scope, key);
    let i = last_match(s.drop_last(), scope, key);
    if i >= 0 {
        assert(s.drop_last()[i] == s[i]);
    }
}

/// Scope matching, as `MemoryLayer::scope_matches` computes it, is an
/// equivalence: every scope is its own scope, and matching is symmetric and
/// transitive.
pub proof fn law_scope_matching_is_equivalence(a: MemoryScope, b: MemoryScope, c: MemoryScope)
    ensures
        scopes_match(a, a),
        scopes_match(a, b) == scopes_match(b, a),
        scopes_match(a, b) && scopes_match(b, c) ==> scopes_match(a, c),
{
}

/// What a recall gives back of a store: right after an entry is stored, a
/// recall of its key in its scope finds that very entry.
pub proof fn law_recall_after_store(s: Seq<MemoryEntry>, e: MemoryEntry)
    ensures
        recalled(s.push(e), e.scope, e.key@) == Some(e),
{
    assert(entry_matches(e, e.scope, e.key@));
}

/// Storing an entry does not change what a recall of another key or scope
/// finds.
pub proof fn law_store_leaves_other_recalls(
    s: Seq<MemoryEntry>,
    e: MemoryEntry,
    scope: MemoryScope,
    key: Seq<char>,
)
    requires
        !entry_matches(e, scope, key),
    ensures
        recalled(s.push(e), scope, key) == recalled(s, scope, key),
{
    assert(s.push(e).drop_last() =~= s);
    lemma_recalled_step(s.push(e), scope, key);
}

/// After forgetting `id` no entry with that identifier is left, and every
/// other entry is kept.
pub proof fn law_forget_removes_only_id(s: Seq<MemoryEntry>, id: Seq<char>)
    ensures
        forall|i: int| 0 <= i < without_id(s, id).len() ==> (#[trigger] without_id(s, id)[i]).id@ != id,
        forall|i: int| 0 <= i < s.len() && (#[trigger] s[i]).id@ != id ==> without_id(s, id).contains(s[i]),
{
    broadcast use vstd::seq_lib::group_filter_ensures;
}

/// After a scope is cleared, nothing can be recalled from it (nor from a
/// scope that matches it).
pub proof fn law_clear_scope_forgets_scope(
    s: Seq<MemoryEntry>,
    scope: MemoryScope,
    other: MemoryScope,
    key: Seq<char>,
)
    requires
        scopes_match(other, scope),
    ensures
        recalled(without_scope(s, scope), other, key) is None,
    decreases s.len(),
{
    reveal_with_fuel(Seq::<MemoryEntry>::filter, 1);
    if s.len() > 0 {
        law_clear_scope_forgets_scope(s.drop_last(), scope, other, key);
        let e = s.last();
        if !scopes_match(e.scope, scope) {
            assert(!scopes_match(e.scope, other));
            assert(without_scope(s, scope).drop_last() =~= without_scope(s.drop_last(), scope));
        }
    }
}

/// Clearing a scope does not change what a recall in another scope finds.
pub proof fn law_clear_scope_keeps_other_scopes(
    s: Seq<MemoryEntry>,
    scope: MemoryScope,
    other: MemoryScope,
    key: Seq<char>,
)
    requires
        !scopes_match(other, scope),
    ensures
        recalled(without_scope(s, scope), other, key) == recalled(s, other, key),
    decreases s.len(),
{
    reveal_with_fuel(Seq::<MemoryEntry>::filter, 1);
    if s.len() > 0 {
        law_clear_scope_keeps_other_scopes(s.drop_last(), scope, other, key);
        let e = s.last();
        lemma_recalled_step(s, other, key);
        if !scopes_match(e.scope, scope) {
            let f = without_scope(s, scope);
            assert(f == without_scope(s.drop_last(), scope).push(e));
            assert(f.drop_last() =~= without_scope(s.drop_last(), scope));
            lemma_recalled_step(f, other, key);
        } else {
            assert(!scopes_match(e.scope, other));
        }
    }
}

} // verus!

verus! {

/// A recall finds only an entry stored under exactly the requested key in a
/// matching scope, and it finds the latest such entry: one is found whenever
/// any is stored, and no entry stored after it has that key in that scope.
pub proof fn law_recall_finds_latest_exact_key(
    s: Seq<MemoryEntry>,
    scope: MemoryScope,
    key: Seq<char>,
)
    ensures
        recalled(s, scope, key) matches Some(e) ==> {
            &&& e.key@ == key
            &&& scopes_match(e.scope, scope)
            &&& exists|i: int|
                0 <= i < s.len() && s[i] == e && forall|j: int|
                    i < j < s.len() ==> !((#[trigger] s[j]).key@ == key && scopes_match(
                        s[j].scope,
                        scope,
                    ))
        },
        (exists|i: int|
            0 <= i < s.len() && (#[trigger] s[i]).key@ == key && scopes_match(s[i].scope, scope))
            ==> recalled(s, scope, key) is Some,
    decreases s.len(),
{
    if s.len() > 0 {
        let d = s.drop_last();
        law_recall_finds_latest_exact_key(d, scope, key);
        lemma_recalled_step(s, scope, key);
        let last = s.last();
        if entry_matches(last, scope, key) {
            assert(s[s.len() - 1] == last);
        } else {
            if let Some(e) = recalled(d, scope, key) {
                let i = choose|i: int|
                    0 <= i < d.len() && d[i] == e && forall|j: int|
                        i < j < d.len() ==> !((#[trigger] d[j]).key@ == key && scopes_match(
                            d[j].scope,
                            scope,
                        ));
                assert(s[i] == e);
                assert forall|j: int| i < j < s.len() implies !((#[trigger] s[j]).key@ == key
                    && scopes_match(s[j].scope, scope)) by {
                    if j < d.len() {
                        assert(d[j] == s[j]);
                    }
                }
            }
            if exists|i: int|
                0 <= i < s.len() && (#[trigger] s[i]).key@ == key && scopes_match(s[i].scope, scope) {
                let i = choose|i: int|
                    0 <= i < s.len() && (#[trigger] s[i]).key@ == key && scopes_match(
                        s[i].scope,
                        scope,
                    );
                assert(i < d.len());
                assert(d[i] == s[i]);
            }
        }
    }
}

/// Storing an entry under another key leaves every recall of `key`, in every
/// scope, as it was.
pub proof fn law_store_under_other_key_keeps_recall(
    s: Seq<MemoryEntry>,
    e: MemoryEntry,
    scope: MemoryScope,
    key: Seq<char>,
)
    requires
        e.key@ != key,
    ensures
        recalled(s.push(e), scope, key) == recalled(s, scope, key),
{
    law_store_leaves_other_recalls(s, e, scope, key);
}

} // verus!
