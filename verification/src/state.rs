use vstd::prelude::*;
use crate::bytes::clone_bytes;

verus! {

broadcast use crate::bytes::lemma_bytes_deep_view;

/// How a state entry may be shared among concurrent handlers.
#[derive(Clone, Copy, PartialEq, Eq, Structural, Debug)]
pub enum AccessMode {
    /// Read-only; any number of handlers may read at once.
    SharedImmutable,
    /// Mutable behind mutual exclusion; at most one handler at a time.
    SharedExclusive,
}

/// The payload of a state entry.
pub enum StateValue {
    Text(Vec<u8>),
    Counter(u64),
}

/// The mathematical model of a `StateValue`.
#[verifier::ext_equal]
pub enum StateValueModel {
    Text(Seq<u8>),
    Counter(u64),
}

impl View for StateValue {
    type V = StateValueModel;

    open spec fn view(&self) -> StateValueModel {
        match self {
            StateValue::Text(b) => StateValueModel::Text(b@),
            StateValue::Counter(c) => StateValueModel::Counter(*c),
        }
    }
}

impl DeepView for StateValue {
    type V = StateValueModel;

    open spec fn deep_view(&self) -> StateValueModel {
        self.view()
    }
}

/// A value registered by one scope, keyed by its declared shape, shared by
/// every request matched within that scope or a descendant.
pub struct StateEntry {
    pub scope: usize,
    pub key: u64,
    pub mode: AccessMode,
    pub value: StateValue,
}

/// The mathematical model of a `StateEntry`.
#[verifier::ext_equal]
pub struct StateEntryModel {
    pub scope: usize,
    pub key: u64,
    pub mode: AccessMode,
    pub value: StateValueModel,
}

impl View for StateEntry {
    type V = StateEntryModel;

    open spec fn view(&self) -> StateEntryModel {
        StateEntryModel { scope: self.scope, key: self.key, mode: self.mode, value: self.value@ }
    }
}

impl DeepView for StateEntry {
    type V = StateEntryModel;

    open spec fn deep_view(&self) -> StateEntryModel {
        self.view()
    }
}

/// The index of the entry that scope `s` contributes for `key`: the last
/// registration wins within one scope.
pub open spec fn find_in_scope(entries: Seq<StateEntryModel>, s: int, key: u64) -> Option<int>
    decreases entries.len(),
{
    if entries.len() == 0 {
        None::<int>
    } else if entries.last().scope == s && entries.last().key == key {
        Some(entries.len() - 1)
    } else {
        find_in_scope(entries.drop_last(), s, key)
    }
}

/// The entry a dispatch resolves for `key` along a scope chain: the chain is
/// walked from the most specific scope to the root, and the first scope that
/// registered the key wins.
pub open spec fn resolve_spec(entries: Seq<StateEntryModel>, chain: Seq<int>, key: u64) -> Option<
    int,
>
    decreases chain.len(),
{
    if chain.len() == 0 {
        None::<int>
    } else {
        match find_in_scope(entries, chain.last(), key) {
            Some(i) => Some(i),
            None => resolve_spec(entries, chain.drop_last(), key),
        }
    }
}

/// A found per-scope entry lies in the store and carries its scope and key.
pub proof fn lemma_find_in_scope_range(entries: Seq<StateEntryModel>, s: int, key: u64)
    ensures
        find_in_scope(entries, s, key) matches Some(i) ==> 0 <= i < entries.len() && entries[
            i
        ].scope == s && entries[i].key == key,
    decreases entries.len(),
{
    if entries.len() > 0 && !(entries.last().scope == s && entries.last().key == key) {
        lemma_find_in_scope_range(entries.drop_last(), s, key);
        match find_in_scope(entries.drop_last(), s, key) {
            Some(i) => {
                assert(entries.drop_last()[i] == entries[i]);
            },
            None => {},
        }
    }
}

/// A resolved entry lies in the store and carries the key looked up.
pub proof fn lemma_resolve_range(entries: Seq<StateEntryModel>, chain: Seq<int>, key: u64)
    ensures
        resolve_spec(entries, chain, key) matches Some(i) ==> 0 <= i < entries.len() && entries[
            i
        ].key == key,
    decreases chain.len(),
{
    if chain.len() > 0 {
        lemma_find_in_scope_range(entries, chain.last(), key);
        lemma_resolve_range(entries, chain.drop_last(), key);
    }
}

/// Replacing an entry's payload, with its scope and key kept, does not move
/// which entry a scope contributes.
pub proof fn lemma_find_in_scope_update(
    entries: Seq<StateEntryModel>,
    s: int,
    key: u64,
    idx: int,
    e2: StateEntryModel,
)
    requires
        0 <= idx < entries.len(),
        e2.scope == entries[idx].scope,
        e2.key == entries[idx].key,
    ensures
        find_in_scope(entries.update(idx, e2), s, key) == find_in_scope(entries, s, key),
    decreases entries.len(),
{
    let up = entries.update(idx, e2);
    assert(up.last().scope == entries.last().scope && up.last().key == entries.last().key);
    if !(entries.last().scope == s && entries.last().key == key) {
        if idx < entries.len() - 1 {
            assert(up.drop_last() =~= entries.drop_last().update(idx, e2));
            lemma_find_in_scope_update(entries.drop_last(), s, key, idx, e2);
        } else {
            assert(up.drop_last() =~= entries.drop_last());
        }
    }
}

/// Replacing an entry's payload, with its scope and key kept, does not move
/// what a chain resolves.
pub proof fn lemma_resolve_update(
    entries: Seq<StateEntryModel>,
    chain: Seq<int>,
    key: u64,
    idx: int,
    e2: StateEntryModel,
)
    requires
        0 <= idx < entries.len(),
        e2.scope == entries[idx].scope,
        e2.key == entries[idx].key,
    ensures
        resolve_spec(entries.update(idx, e2), chain, key) == resolve_spec(entries, chain, key),
    decreases chain.len(),
{
    if chain.len() > 0 {
        lemma_find_in_scope_update(entries, chain.last(), key, idx, e2);
        lemma_resolve_update(entries, chain.drop_last(), key, idx, e2);
    }
}

/// The named shared state of the whole application: registered per scope at
/// assembly, resolved per request at dispatch.
pub struct StateStore {
    pub entries: Vec<StateEntry>,
}

impl StateStore {
    /// A store with no entries.
    pub fn new() -> (r: StateStore)
        ensures
            r.entries@.len() == 0,
    {
        StateStore { entries: Vec::new() }
    }

    /// Registers `value` under `key` for `scope`.
    pub fn register(&mut self, scope: usize, key: u64, mode: AccessMode, value: StateValue)
        ensures
            final(self).entries.deep_view() == old(self).entries.deep_view().push(
                StateEntryModel { scope, key, mode, value: value@ },
            ),
    {
        let ghost dv = self.entries.deep_view();
        self.entries.push(StateEntry { scope, key, mode, value });
        proof {
            assert(self.entries.deep_view() =~= dv.push(self.entries@.last()@));
        }
    }

    /// Resolves `key` along `chain` (root first, most specific last):
    /// exactly the entry `resolve_spec` names.
    pub fn resolve(&self, chain: &Vec<usize>, key: u64) -> (r: Option<usize>)
        ensures
            match resolve_spec(
                self.entries.deep_view(),
                chain@.map_values(|x: usize| x as int),
                key,
            ) {
                None => r is None,
                Some(i) => r == Some(i as usize),
            },
    {
        let ghost ch = chain@.map_values(|x: usize| x as int);
        let mut c: usize = chain.len();
        proof {
            assert(ch.take(c as int) =~= ch);
        }
        while c > 0
            invariant
                c <= chain@.len(),
                ch == chain@.map_values(|x: usize| x as int),
                resolve_spec(self.entries.deep_view(), ch, key) == resolve_spec(
                    self.entries.deep_view(),
                    ch.take(c as int),
                    key,
                ),
            decreases c,
        {
            proof {
                assert(ch.take(c as int).last() == ch[c - 1]);
                assert(ch.take(c as int).drop_last() =~= ch.take(c - 1));
            }
            match self.find_in_scope(chain[c - 1], key) {
                Some(i) => {
                    return Some(i);
                },
                None => {},
            }
            c -= 1;
        }
        proof {
            assert(ch.take(0) =~= Seq::<int>::empty());
        }
        None
    }

    /// The entry of scope `s` for `key`, last registration first.
    fn find_in_scope(&self, s: usize, key: u64) -> (r: Option<usize>)
        ensures
            match find_in_scope(self.entries.deep_view(), s as int, key) {
                None => r is None,
                Some(i) => r == Some(i as usize),
            },
    {
        let ghost dv = self.entries.deep_view();
        let mut j: usize = self.entries.len();
        proof {
            assert(dv.take(j as int) =~= dv);
        }
        while j > 0
            invariant
                j <= self.entries@.len(),
                dv == self.entries.deep_view(),
                find_in_scope(dv, s as int, key) == find_in_scope(dv.take(j as int), s as int, key),
            decreases j,
        {
            proof {
                assert(dv.take(j as int).last() == dv[j - 1]);
                assert(dv.take(j as int).drop_last() =~= dv.take(j - 1));
            }
            if self.entries[j - 1].scope == s && self.entries[j - 1].key == key {
                return Some(j - 1);
            }
            j -= 1;
        }
        None
    }

    /// The counter held by entry `i`.
    pub fn counter_value(&self, i: usize) -> (r: u64)
        requires
            i < self.entries@.len(),
            self.entries@[i as int]@.value is Counter,
        ensures
            self.entries@[i as int]@.value == StateValueModel::Counter(r),
    {
        match &self.entries[i].value {
            StateValue::Counter(c) => *c,
            StateValue::Text(_) => 0,
        }
    }

    /// The text held by entry `i`.
    pub fn text_value(&self, i: usize) -> (r: Vec<u8>)
        requires
            i < self.entries@.len(),
            self.entries@[i as int]@.value is Text,
        ensures
            self.entries@[i as int]@.value == StateValueModel::Text(r@),
    {
        match &self.entries[i].value {
            StateValue::Text(b) => clone_bytes(b),
            StateValue::Counter(_) => Vec::new(),
        }
    }

    /// Adds one to the counter of entry `i` and returns the new value. Only
    /// an exclusive-access entry may be mutated; every other entry is left
    /// exactly as it was.
    pub fn counter_increment(&mut self, i: usize) -> (r: u64)
        requires
            i < old(self).entries@.len(),
            old(self).entries@[i as int]@.mode == AccessMode::SharedExclusive,
            old(self).entries@[i as int]@.value matches StateValueModel::Counter(c) && c
                < u64::MAX,
        ensures
            old(self).entries@[i as int]@.value matches StateValueModel::Counter(c) && r == c + 1
                && final(self).entries.deep_view() == old(self).entries.deep_view().update(
                i as int,
                StateEntryModel {
                    scope: old(self).entries@[i as int]@.scope,
                    key: old(self).entries@[i as int]@.key,
                    mode: old(self).entries@[i as int]@.mode,
                    value: StateValueModel::Counter((c + 1) as u64),
                },
            ),
    {
        let cur = self.counter_value(i);
        let e = &mut self.entries[i];
        e.value = StateValue::Counter(cur + 1);
        proof {
            assert(self.entries.deep_view() =~= old(self).entries.deep_view().update(
                i as int,
                StateEntryModel {
                    scope: old(self).entries@[i as int]@.scope,
                    key: old(self).entries@[i as int]@.key,
                    mode: old(self).entries@[i as int]@.mode,
                    value: StateValueModel::Counter((cur + 1) as u64),
                },
            ));
        }
        cur + 1
    }
}

} // verus!
