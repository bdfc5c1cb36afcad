//! Sets of content keys, and the subset filter over them.
use vstd::prelude::*;
use crate::content_key::{in_subset, lemma_empty_subset_holds_all, starts_with_subset};

verus! {

broadcast use vstd::seq_lib::lemma_seq_contains_after_push;

/// The views of a sequence of strings.
pub open spec fn views_of(v: Seq<String>) -> Seq<Seq<char>> {
    v.map_values(|s: String| s@)
}

/// The elements of `s` that satisfy `keep`, in their order in `s`.
pub open spec fn retain<A>(s: Seq<A>, keep: spec_fn(A) -> bool) -> Seq<A>
    decreases s.len(),
{
    if s.len() == 0 {
        Seq::empty()
    } else {
        let rest = retain(s.drop_last(), keep);
        if keep(s.last()) {
            rest.push(s.last())
        } else {
            rest
        }
    }
}

/// The keys of `keys` that lie inside `subset`, in their order.
pub open spec fn keys_in_subset(keys: Seq<Seq<char>>, subset: Seq<char>) -> Seq<Seq<char>> {
    retain(keys, |k: Seq<char>| in_subset(k, subset))
}

/// The set of keys of `keys` that lie inside `subset`.
pub open spec fn subset_of(keys: Set<Seq<char>>, subset: Seq<char>) -> Set<Seq<char>> {
    keys.filter(|k: Seq<char>| in_subset(k, subset))
}

proof fn lemma_contains_drop_last<A>(s: Seq<A>, x: A)
    requires
        s.len() > 0,
    ensures
        s.contains(x) <==> (s.drop_last().contains(x) || s.last() == x),
{
    assert(s =~= s.drop_last().push(s.last()));
}

/// `retain` keeps exactly the elements that satisfy the predicate.
pub proof fn lemma_retain_contains<A>(s: Seq<A>, keep: spec_fn(A) -> bool, x: A)
    ensures
        retain(s, keep).contains(x) <==> (s.contains(x) && keep(x)),
    decreases s.len(),
{
    if s.len() > 0 {
        lemma_retain_contains(s.drop_last(), keep, x);
        lemma_contains_drop_last(s, x);
    }
}

/// `retain` of a sequence without duplicates has none.
pub proof fn lemma_retain_no_duplicates<A>(s: Seq<A>, keep: spec_fn(A) -> bool)
    requires
        s.no_duplicates(),
    ensures
        retain(s, keep).no_duplicates(),
    decreases s.len(),
{
    if s.len() > 0 {
        let d = s.drop_last();
        assert(d.no_duplicates()) by {
            assert forall|i: int, j: int|
                0 <= i < d.len() && 0 <= j < d.len() && i != j implies d[i] != d[j] by {
                assert(d[i] == s[i] && d[j] == s[j]);
            }
        }
        lemma_retain_no_duplicates(d, keep);
        let r = retain(d, keep);
        if keep(s.last()) {
            lemma_retain_contains(d, keep, s.last());
            assert(!d.contains(s.last())) by {
                if d.contains(s.last()) {
                    let i = choose|i: int| 0 <= i < d.len() && d[i] == s.last();
                    assert(s[i] == s[s.len() - 1]);
                }
            }
            let rp = r.push(s.last());
            assert forall|i: int, j: int|
                0 <= i < rp.len() && 0 <= j < rp.len() && i != j implies rp[i] != rp[j] by {
                if i < r.len() && j < r.len() {
                    assert(rp[i] == r[i] && rp[j] == r[j]);
                } else if i < r.len() {
                    assert(r.contains(rp[i]));
                } else {
                    assert(r.contains(rp[j]));
                }
            }
        }
    }
}

/// The set of what `retain` keeps is the filtered set.
pub proof fn lemma_retain_to_set<A>(s: Seq<A>, keep: spec_fn(A) -> bool)
    ensures
        retain(s, keep).to_set() == s.to_set().filter(keep),
{
    assert forall|x: A| retain(s, keep).to_set().contains(x) <==> s.to_set().filter(
        keep,
    ).contains(x) by {
        lemma_retain_contains(s, keep, x);
    }
    assert(retain(s, keep).to_set() =~= s.to_set().filter(keep));
}

/// Filtering by the empty subset keeps every key.
pub proof fn lemma_subset_identity(keys: Set<Seq<char>>)
    ensures
        subset_of(keys, Seq::<char>::empty()) == keys,
{
    assert forall|k: Seq<char>| #[trigger] keys.contains(k) implies in_subset(
        k,
        Seq::<char>::empty(),
    ) by {
        lemma_empty_subset_holds_all(k);
    }
    assert(subset_of(keys, Seq::<char>::empty()) =~= keys);
}

/// Filtering twice by the same subset is filtering once.
pub proof fn lemma_subset_idempotent(keys: Set<Seq<char>>, subset: Seq<char>)
    ensures
        subset_of(subset_of(keys, subset), subset) == subset_of(keys, subset),
{
    assert(subset_of(subset_of(keys, subset), subset) =~= subset_of(keys, subset));
}

/// A set of content keys, without duplicates, in the order of insertion.
pub struct KeySet {
    keys: Vec<String>,
}

impl View for KeySet {
    type V = Set<Seq<char>>;

    open spec fn view(&self) -> Set<Seq<char>> {
        self.key_seq().to_set()
    }
}

impl KeySet {
    /// The keys in the order of insertion.
    pub closed spec fn key_seq(&self) -> Seq<Seq<char>> {
        views_of(self.keys@)
    }

    /// No key is held twice.
    pub open spec fn wf(&self) -> bool {
        self.key_seq().no_duplicates()
    }

    /// The empty key set.
    pub fn new() -> (r: KeySet)
        ensures
            r.wf(),
            r.key_seq() == Seq::<Seq<char>>::empty(),
            r@ == Set::<Seq<char>>::empty(),
    {
        let r = KeySet { keys: Vec::new() };
        assert(r.key_seq() =~= Seq::<Seq<char>>::empty());
        assert(r@ =~= Set::<Seq<char>>::empty());
        r
    }

    /// The number of keys.
    pub fn len(&self) -> (r: usize)
        ensures
            r == self.key_seq().len(),
    {
        self.keys.len()
    }

    /// Whether `key` is in the set.
    pub fn contains(&self, key: &String) -> (r: bool)
        ensures
            r == self@.contains(key@),
            r == self.key_seq().contains(key@),
    {
        let mut i: usize = 0;
        while i < self.keys.len()
            invariant
                i <= self.keys@.len(),
                forall|j: int| 0 <= j < i ==> self.key_seq()[j] != key@,
            decreases self.keys@.len() - i,
        {
            if self.keys[i] == *key {
                assert(self.key_seq()[i as int] == key@);
                return true;
            }
            i = i + 1;
        }
        false
    }

    /// Adds `key`; a key already held is not added again.
    pub fn insert(&mut self, key: String)
        requires
            old(self).wf(),
        ensures
            final(self).wf(),
            final(self).key_seq() == if old(self)@.contains(key@) {
                old(self).key_seq()
            } else {
                old(self).key_seq().push(key@)
            },
            final(self)@ == old(self)@.insert(key@),
    {
        if !self.contains(&key) {
            let ghost before = self.key_seq();
            self.keys.push(key);
            assert(self.key_seq() =~= before.push(key@));
            assert forall|i: int, j: int|
                0 <= i < self.key_seq().len() && 0 <= j < self.key_seq().len() && i != j
                implies self.key_seq()[i] != self.key_seq()[j] by {
                if i < before.len() && j < before.len() {
                    assert(self.key_seq()[i] == before[i]);
                    assert(self.key_seq()[j] == before[j]);
                } else if i < before.len() {
                    assert(before.contains(self.key_seq()[i]));
                } else {
                    assert(before.contains(self.key_seq()[j]));
                }
            }
        }
        assert(self@ =~= old(self)@.insert(key@));
    }

    /// The keys, in the order of insertion.
    pub fn to_vec(&self) -> (r: Vec<String>)
        ensures
            views_of(r@) == self.key_seq(),
    {
        self.keys.clone()
    }
}

/// The keys of `keys` whose path starts with `subset_str`; the empty subset
/// keeps every key.
pub fn subset_keys(keys: &KeySet, subset_str: &str) -> (r: KeySet)
    requires
        keys.wf(),
    ensures
        r.wf(),
        r.key_seq() == keys_in_subset(keys.key_seq(), subset_str@),
        r@ == subset_of(keys@, subset_str@),
{
    let mut filtered_keys = KeySet::new();
    let ghost all = keys.key_seq();
    let mut i: usize = 0;
    while i < keys.keys.len()
        invariant
            i <= keys.keys@.len(),
            all == keys.key_seq(),
            filtered_keys.key_seq() == keys_in_subset(all.subrange(0, i as int), subset_str@),
        decreases keys.keys@.len() - i,
    {
        let key = &keys.keys[i];
        assert(all.subrange(0, i + 1).drop_last() =~= all.subrange(0, i as int));
        if starts_with_subset(key.as_str(), subset_str) {
            let ghost before = filtered_keys.key_seq();
            filtered_keys.keys.push(key.clone());
            assert(filtered_keys.key_seq() =~= before.push(key@));
        }
        i = i + 1;
    }
    assert(all.subrange(0, i as int) =~= all);
    proof {
        lemma_retain_no_duplicates(all, |k: Seq<char>| in_subset(k, subset_str@));
        lemma_retain_to_set(all, |k: Seq<char>| in_subset(k, subset_str@));
    }
    filtered_keys
}

} // verus!
