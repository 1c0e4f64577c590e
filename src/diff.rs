//! State diffs and their canonical (normalized) layout.

use indexmap::IndexMap;
use vstd::prelude::*;

verus! {

/// Every key of the entry list appears once.
pub open spec fn keys_unique<V>(s: Seq<(u64, V)>) -> bool {
    forall|i: int, j: int| 0 <= i < j < s.len() ==> s[i].0 != s[j].0
}

/// The keys of the entry list are strictly ascending.
pub open spec fn keys_ascending<V>(s: Seq<(u64, V)>) -> bool {
    forall|i: int, j: int| 0 <= i < j < s.len() ==> s[i].0 < s[j].0
}

/// Two entry lists hold the same key/value pairs, in whatever order.
pub open spec fn same_entries<V>(s: Seq<(u64, V)>, t: Seq<(u64, V)>) -> bool {
    forall|p: (u64, V)| s.contains(p) <==> t.contains(p)
}

/// Relies on indexmap's `IndexMap::sort_unstable_keys`: the map's entries end up
/// ordered by key. Collecting into the map and back keeps each entry, given
/// unique keys.
#[verifier::external_body]
fn sort_entries<V>(entries: Vec<(u64, V)>) -> (r: Vec<(u64, V)>)
    requires
        keys_unique(entries@),
    ensures
        r@.to_multiset() == entries@.to_multiset(),
        keys_ascending(r@),
{
    let mut map: IndexMap<u64, V> = entries.into_iter().collect();
    map.sort_unstable_keys();
    map.into_iter().collect()
}

proof fn lemma_permutation_same_entries<V>(s: Seq<(u64, V)>, t: Seq<(u64, V)>)
    requires
        s.to_multiset() == t.to_multiset(),
    ensures
        same_entries(s, t),
        s.len() == t.len(),
{
    broadcast use vstd::seq_lib::group_to_multiset_ensures;

    assert(s.len() == s.to_multiset().len());
    assert(t.len() == t.to_multiset().len());
    assert forall|p: (u64, V)| s.contains(p) <==> t.contains(p) by {
        assert(s.contains(p) <==> s.to_multiset().count(p) > 0);
        assert(t.contains(p) <==> t.to_multiset().count(p) > 0);
    }
}

/// Two lists with strictly ascending keys that hold the same entries are equal.
pub proof fn lemma_ascending_unique<V>(s: Seq<(u64, V)>, t: Seq<(u64, V)>)
    requires
        keys_ascending(s),
        keys_ascending(t),
        same_entries(s, t),
    ensures
        s == t,
    decreases s.len(),
{
    if s.len() == 0 {
        if t.len() > 0 {
            assert(t.contains(t[0]));
        }
        assert(s =~= t);
    } else if t.len() == 0 {
        assert(s.contains(s[0]));
    } else {
        assert(s.contains(s[0]));
        assert(t.contains(t[0]));
        let j = choose|j: int| 0 <= j < t.len() && t[j] == s[0];
        let i = choose|i: int| 0 <= i < s.len() && s[i] == t[0];
        assert(j == 0) by {
            if j != 0 {
                assert(t[0].0 < t[j].0);
                if i != 0 {
                    assert(s[0].0 < s[i].0);
                }
            }
        }
        let s1 = s.drop_first();
        let t1 = t.drop_first();
        assert forall|p: (u64, V)| s1.contains(p) <==> t1.contains(p) by {
            if s1.contains(p) {
                let k = choose|k: int| 0 <= k < s1.len() && s1[k] == p;
                assert(s[k + 1] == p);
                assert(s.contains(p));
                let m = choose|m: int| 0 <= m < t.len() && t[m] == p;
                assert(m != 0);
                assert(t1[m - 1] == p);
            }
            if t1.contains(p) {
                let k = choose|k: int| 0 <= k < t1.len() && t1[k] == p;
                assert(t[k + 1] == p);
                assert(t.contains(p));
                let m = choose|m: int| 0 <= m < s.len() && s[m] == p;
                assert(m != 0);
                assert(s1[m - 1] == p);
            }
        }
        lemma_ascending_unique(s1, t1);
        assert(s =~= seq![s[0]] + s1);
        assert(t =~= seq![t[0]] + t1);
    }
}

/// Whether every key of the entry list appears once.
pub fn has_unique_keys<V>(entries: &Vec<(u64, V)>) -> (r: bool)
    ensures
        r == keys_unique(entries@),
{
    let n = entries.len();
    let mut i: usize = 0;
    while i < n
        invariant
            n == entries@.len(),
            i <= n,
            forall|a: int, b: int| 0 <= a < b < n && a < i ==> entries@[a].0 != entries@[b].0,
        decreases n - i,
    {
        let mut j: usize = i + 1;
        while j < n
            invariant
                n == entries@.len(),
                i < n,
                i < j <= n,
                forall|a: int, b: int| 0 <= a < b < n && a < i ==> entries@[a].0 != entries@[b].0,
                forall|b: int| i < b < j ==> entries@[i as int].0 != entries@[b].0,
            decreases n - j,
        {
            if entries[i].0 == entries[j].0 {
                return false;
            }
            j = j + 1;
        }
        i = i + 1;
    }
    true
}

/// The key/value pairs of one contract's storage writes, as a set.
pub open spec fn entry_set(s: Seq<(u64, u64)>) -> Set<(u64, u64)> {
    Set::new(|p: (u64, u64)| s.contains(p))
}

/// Storage writes with each contract's entries seen as a set: their logical content.
pub open spec fn storage_sets(s: Seq<(u64, Vec<(u64, u64)>)>) -> Seq<(u64, Set<(u64, u64)>)> {
    s.map_values(|e: (u64, Vec<(u64, u64)>)| (e.0, entry_set(e.1@)))
}

/// Storage writes with each contract's entries in their stored order.
pub open spec fn storage_view(s: Seq<(u64, Vec<(u64, u64)>)>) -> Seq<(u64, Seq<(u64, u64)>)> {
    s.map_values(|e: (u64, Vec<(u64, u64)>)| (e.0, e.1@))
}

pub open spec fn inner_keys_unique(s: Seq<(u64, Vec<(u64, u64)>)>) -> bool {
    forall|i: int| 0 <= i < s.len() ==> #[trigger] keys_unique(s[i].1@)
}

pub open spec fn inner_keys_ascending(s: Seq<(u64, Vec<(u64, u64)>)>) -> bool {
    forall|i: int| 0 <= i < s.len() ==> #[trigger] keys_ascending(s[i].1@)
}

/// The changes one block makes to the chain state. Each mapping is a list of
/// entries whose keys are unique; the order of the entries carries no meaning
/// until the diff is normalized.
#[derive(Clone, Debug, PartialEq, Eq)]
pub struct StateDiff {
    /// Contract address to class hash.
    pub deployed_contracts: Vec<(u64, u64)>,
    /// Contract address to its storage writes (storage key to value).
    pub storage_diffs: Vec<(u64, Vec<(u64, u64)>)>,
    /// Class hash to compiled class hash and class definition.
    pub declared_classes: Vec<(u64, (u64, Vec<u8>))>,
    /// Class hash to deprecated class definition.
    pub deprecated_declared_classes: Vec<(u64, Vec<u8>)>,
    /// Contract address to nonce.
    pub nonces: Vec<(u64, u64)>,
    /// Contract address to its new class hash.
    pub replaced_classes: Vec<(u64, u64)>,
}

/// The layout in which a diff is persisted: every mapping in its entry order.
pub type DiffLayout = (
    Seq<(u64, u64)>,
    Seq<(u64, Seq<(u64, u64)>)>,
    Seq<(u64, (u64, Vec<u8>))>,
    Seq<(u64, Vec<u8>)>,
    Seq<(u64, u64)>,
    Seq<(u64, u64)>,
);

impl StateDiff {
    /// Keys are unique within each mapping.
    pub open spec fn wf(&self) -> bool {
        &&& keys_unique(self.deployed_contracts@)
        &&& keys_unique(self.storage_diffs@)
        &&& inner_keys_unique(self.storage_diffs@)
        &&& keys_unique(self.declared_classes@)
        &&& keys_unique(self.deprecated_declared_classes@)
        &&& keys_unique(self.nonces@)
        &&& keys_unique(self.replaced_classes@)
    }

    /// Every mapping, nested ones included, is ordered by ascending key.
    pub open spec fn is_normal(&self) -> bool {
        &&& keys_ascending(self.deployed_contracts@)
        &&& keys_ascending(self.storage_diffs@)
        &&& inner_keys_ascending(self.storage_diffs@)
        &&& keys_ascending(self.declared_classes@)
        &&& keys_ascending(self.deprecated_declared_classes@)
        &&& keys_ascending(self.nonces@)
        &&& keys_ascending(self.replaced_classes@)
    }

    /// The two diffs hold the same key/value pairs in every mapping.
    pub open spec fn same_content(&self, other: &StateDiff) -> bool {
        &&& same_entries(self.deployed_contracts@, other.deployed_contracts@)
        &&& same_entries(storage_sets(self.storage_diffs@), storage_sets(other.storage_diffs@))
        &&& same_entries(self.declared_classes@, other.declared_classes@)
        &&& same_entries(self.deprecated_declared_classes@, other.deprecated_declared_classes@)
        &&& same_entries(self.nonces@, other.nonces@)
        &&& same_entries(self.replaced_classes@, other.replaced_classes@)
    }

    pub open spec fn layout(&self) -> DiffLayout {
        (
            self.deployed_contracts@,
            storage_view(self.storage_diffs@),
            self.declared_classes@,
            self.deprecated_declared_classes@,
            self.nonces@,
            self.replaced_classes@,
        )
    }

    /// Whether keys are unique within each mapping.
    pub fn is_well_formed(&self) -> (r: bool)
        ensures
            r == self.wf(),
    {
        if !has_unique_keys(&self.deployed_contracts) || !has_unique_keys(&self.storage_diffs)
            || !has_unique_keys(&self.declared_classes) || !has_unique_keys(
            &self.deprecated_declared_classes,
        ) || !has_unique_keys(&self.nonces) || !has_unique_keys(&self.replaced_classes) {
            return false;
        }
        let n = self.storage_diffs.len();
        let mut i: usize = 0;
        while i < n
            invariant
                n == self.storage_diffs@.len(),
                i <= n,
                forall|k: int| 0 <= k < i ==> #[trigger] keys_unique(self.storage_diffs@[k].1@),
            decreases n - i,
        {
            if !has_unique_keys(&self.storage_diffs[i].1) {
                return false;
            }
            i = i + 1;
        }
        true
    }

    /// A diff with every mapping empty.
    pub fn empty() -> (r: StateDiff)
        ensures
            r.wf(),
            r.is_normal(),
            r.deployed_contracts@.len() == 0,
            r.storage_diffs@.len() == 0,
            r.declared_classes@.len() == 0,
            r.deprecated_declared_classes@.len() == 0,
            r.nonces@.len() == 0,
            r.replaced_classes@.len() == 0,
    {
        StateDiff {
            deployed_contracts: Vec::new(),
            storage_diffs: Vec::new(),
            declared_classes: Vec::new(),
            deprecated_declared_classes: Vec::new(),
            nonces: Vec::new(),
            replaced_classes: Vec::new(),
        }
    }
}

proof fn lemma_normal_is_wf(d: StateDiff)
    requires
        d.is_normal(),
    ensures
        d.wf(),
{
    assert forall|i: int| 0 <= i < d.storage_diffs@.len() implies #[trigger] keys_unique(
        d.storage_diffs@[i].1@,
    ) by {
        assert(keys_ascending(d.storage_diffs@[i].1@));
    }
}

/// `r` is `d` normalized: the same content, every mapping ordered by key.
pub open spec fn normalized_from(d: StateDiff, r: StateDiff) -> bool {
    r.is_normal() && r.same_content(&d)
}

/// Orders the storage writes by contract address, and each contract's entries
/// by storage key.
fn sort_storage_diffs(v: Vec<(u64, Vec<(u64, u64)>)>) -> (r: Vec<(u64, Vec<(u64, u64)>)>)
    requires
        keys_unique(v@),
        inner_keys_unique(v@),
    ensures
        keys_ascending(r@),
        inner_keys_ascending(r@),
        same_entries(storage_sets(r@), storage_sets(v@)),
{
    let ghost n = v@.len();
    let mut rest = v;
    let mut done: Vec<(u64, Vec<(u64, u64)>)> = Vec::new();
    while rest.len() > 0
        invariant
            done@.len() + rest@.len() == n,
            n == v@.len(),
            keys_unique(v@),
            inner_keys_unique(v@),
            rest@ == v@.subrange(0, rest@.len() as int),
            forall|i: int|
                0 <= i < done@.len() ==> {
                    &&& #[trigger] done@[i].0 == v@[n - 1 - i].0
                    &&& keys_ascending(done@[i].1@)
                    &&& entry_set(done@[i].1@) == entry_set(v@[n - 1 - i].1@)
                },
        decreases rest@.len(),
    {
        let ghost before = rest@;
        let (address, entries) = rest.pop().unwrap();
        proof {
            assert(before[before.len() - 1] == v@[n - 1 - done@.len()]);
            assert(keys_unique(v@[n - 1 - done@.len()].1@));
        }
        let sorted = sort_entries(entries);
        proof {
            lemma_permutation_same_entries(sorted@, v@[n - 1 - done@.len()].1@);
            assert(entry_set(sorted@) =~= entry_set(v@[n - 1 - done@.len()].1@));
        }
        done.push((address, sorted));
        proof {
            assert(rest@ =~= v@.subrange(0, rest@.len() as int));
        }
    }
    proof {
        assert forall|i: int, j: int| 0 <= i < j < done@.len() implies done@[i].0 != done@[j].0 by {
            assert(done@[i].0 == v@[n - 1 - i].0);
            assert(done@[j].0 == v@[n - 1 - j].0);
        }
    }
    let r = sort_entries(done);
    proof {
        lemma_permutation_same_entries(r@, done@);
        assert forall|i: int| 0 <= i < r@.len() implies #[trigger] keys_ascending(r@[i].1@) by {
            assert(r@.contains(r@[i]));
            assert(done@.contains(r@[i]));
        }
        assert forall|p: (u64, Set<(u64, u64)>)|
            storage_sets(r@).contains(p) <==> storage_sets(v@).contains(p) by {
            if storage_sets(r@).contains(p) {
                let i = choose|i: int| 0 <= i < r@.len() && storage_sets(r@)[i] == p;
                assert(r@.contains(r@[i]));
                assert(done@.contains(r@[i]));
                let j = choose|j: int| 0 <= j < done@.len() && done@[j] == r@[i];
                assert(storage_sets(v@)[n - 1 - j] == p);
            }
            if storage_sets(v@).contains(p) {
                let k = choose|k: int| 0 <= k < v@.len() && storage_sets(v@)[k] == p;
                let j = n - 1 - k;
                assert(done@[j].0 == v@[n - 1 - j].0);
                assert(done@.contains(done@[j]));
                assert(r@.contains(done@[j]));
                let i = choose|i: int| 0 <= i < r@.len() && r@[i] == done@[j];
                assert(storage_sets(r@)[i] == p);
            }
        }
    }
    r
}

/// Puts every mapping of the diff, and each contract's storage writes, in
/// ascending key order, so that diffs with the same content have the same layout.
pub fn normalize(diff: StateDiff) -> (r: StateDiff)
    requires
        diff.wf(),
    ensures
        normalized_from(diff, r),
        r.wf(),
{
    let StateDiff {
        deployed_contracts,
        storage_diffs,
        declared_classes,
        deprecated_declared_classes,
        nonces,
        replaced_classes,
    } = diff;
    let deployed_contracts = sort_entries(deployed_contracts);
    let storage_diffs = sort_storage_diffs(storage_diffs);
    let declared_classes = sort_entries(declared_classes);
    let deprecated_declared_classes = sort_entries(deprecated_declared_classes);
    let nonces = sort_entries(nonces);
    let replaced_classes = sort_entries(replaced_classes);
    proof {
        lemma_permutation_same_entries(deployed_contracts@, diff.deployed_contracts@);
        lemma_permutation_same_entries(declared_classes@, diff.declared_classes@);
        lemma_permutation_same_entries(
            deprecated_declared_classes@,
            diff.deprecated_declared_classes@,
        );
        lemma_permutation_same_entries(nonces@, diff.nonces@);
        lemma_permutation_same_entries(replaced_classes@, diff.replaced_classes@);
    }
    let r = StateDiff {
        deployed_contracts,
        storage_diffs,
        declared_classes,
        deprecated_declared_classes,
        nonces,
        replaced_classes,
    };
    proof {
        lemma_normal_is_wf(r);
    }
    r
}

/// Normalizes the diff in place.
pub fn sort_state_diff(diff: &mut StateDiff)
    requires
        old(diff).wf(),
    ensures
        normalized_from(*old(diff), *final(diff)),
        final(diff).wf(),
{
    let mut taken = StateDiff::empty();
    std::mem::swap(diff, &mut taken);
    *diff = normalize(taken);
}

/// Two normalized diffs with the same content have the same layout: diffs that
/// are equal as mappings are persisted identically, whatever order their
/// entries arrived in.
pub proof fn lemma_normal_layout_unique(a: StateDiff, b: StateDiff)
    requires
        a.is_normal(),
        b.is_normal(),
        a.same_content(&b),
    ensures
        a.layout() == b.layout(),
{
    lemma_ascending_unique(a.deployed_contracts@, b.deployed_contracts@);
    lemma_ascending_unique(a.declared_classes@, b.declared_classes@);
    lemma_ascending_unique(a.deprecated_declared_classes@, b.deprecated_declared_classes@);
    lemma_ascending_unique(a.nonces@, b.nonces@);
    lemma_ascending_unique(a.replaced_classes@, b.replaced_classes@);
    let sa = storage_sets(a.storage_diffs@);
    let sb = storage_sets(b.storage_diffs@);
    assert(keys_ascending(sa)) by {
        assert forall|i: int, j: int| 0 <= i < j < sa.len() implies sa[i].0 < sa[j].0 by {
            assert(sa[i].0 == a.storage_diffs@[i].0);
            assert(sa[j].0 == a.storage_diffs@[j].0);
        }
    }
    assert(keys_ascending(sb)) by {
        assert forall|i: int, j: int| 0 <= i < j < sb.len() implies sb[i].0 < sb[j].0 by {
            assert(sb[i].0 == b.storage_diffs@[i].0);
            assert(sb[j].0 == b.storage_diffs@[j].0);
        }
    }
    lemma_ascending_unique(sa, sb);
    let va = storage_view(a.storage_diffs@);
    let vb = storage_view(b.storage_diffs@);
    assert forall|i: int| 0 <= i < va.len() implies va[i] == vb[i] by {
        assert(sa[i] == sb[i]);
        let x = a.storage_diffs@[i].1@;
        let y = b.storage_diffs@[i].1@;
        assert forall|p: (u64, u64)| x.contains(p) <==> y.contains(p) by {
            assert(entry_set(x).contains(p) == x.contains(p));
            assert(entry_set(y).contains(p) == y.contains(p));
        }
        assert(keys_ascending(x));
        assert(keys_ascending(y));
        lemma_ascending_unique(x, y);
    }
    assert(va =~= vb);
}

/// Normalizing is idempotent: normalizing a normalized diff gives the same
/// layout again, and normalizing keeps the diff's content.
pub proof fn lemma_normalize_idempotent(d: StateDiff, once: StateDiff, twice: StateDiff)
    requires
        d.wf(),
        normalized_from(d, once),
        normalized_from(once, twice),
    ensures
        twice.layout() == once.layout(),
        once.same_content(&d),
{
    lemma_normal_layout_unique(twice, once);
}

} // verus!
