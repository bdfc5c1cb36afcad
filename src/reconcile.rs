//! The reconciler: which local pairs to upload and which remote keys to
//! delete, within a subset of paths.
use vstd::prelude::*;
use crate::content_key::{in_subset, starts_with_subset, strip_hash};
use crate::key_set::{
    KeySet, retain, subset_of, subset_keys, views_of, lemma_retain_contains,
    lemma_retain_to_set,
};

verus! {

broadcast use vstd::seq_lib::lemma_seq_contains_after_push;

/// One local asset: its content key, its value, and the options it is
/// written with.
#[derive(Clone, Debug)]
pub struct KeyValuePair {
    pub key: String,
    pub value: String,
    pub expiration: Option<i64>,
    pub expiration_ttl: Option<i64>,
    pub base64: Option<bool>,
}

fn copy_pair(p: &KeyValuePair) -> (r: KeyValuePair)
    ensures
        r == *p,
{
    KeyValuePair {
        key: p.key.clone(),
        value: p.value.clone(),
        expiration: p.expiration,
        expiration_ttl: p.expiration_ttl,
        base64: p.base64,
    }
}

/// A local pair is uploaded when it lies inside the subset and the remote
/// does not already hold its key.
pub open spec fn should_upload(
    p: KeyValuePair,
    remote_subset: Set<Seq<char>>,
    subset: Seq<char>,
) -> bool {
    in_subset(p.key@, subset) && !remote_subset.contains(p.key@)
}

/// The pairs to upload, in the order of `pairs`.
pub open spec fn uploads(
    pairs: Seq<KeyValuePair>,
    remote_subset: Set<Seq<char>>,
    subset: Seq<char>,
) -> Seq<KeyValuePair> {
    retain(pairs, |p: KeyValuePair| should_upload(p, remote_subset, subset))
}

/// The keys of `pairs`, in their order.
pub open spec fn pair_keys(pairs: Seq<KeyValuePair>) -> Seq<Seq<char>> {
    pairs.map_values(|p: KeyValuePair| p.key@)
}

/// The keys of the local pairs that lie inside the subset.
pub open spec fn local_subset(pairs: Seq<KeyValuePair>, subset: Seq<char>) -> Set<Seq<char>> {
    subset_of(pair_keys(pairs).to_set(), subset)
}

/// The remote keys that the local side no longer has, in the remote order.
pub open spec fn stale_keys(remote_subset: Seq<Seq<char>>, local: Set<Seq<char>>) -> Seq<
    Seq<char>,
> {
    retain(remote_subset, |k: Seq<char>| !local.contains(k))
}

/// The plan of one sync: the pairs to upload and the keys to delete.
pub open spec fn reconcile_plan(
    pairs: Seq<KeyValuePair>,
    remote_subset: Seq<Seq<char>>,
    subset: Seq<char>,
) -> (Seq<KeyValuePair>, Seq<Seq<char>>) {
    (
        uploads(pairs, remote_subset.to_set(), subset),
        stale_keys(remote_subset, local_subset(pairs, subset)),
    )
}

/// The pairs of `pairs` inside `subset_str` whose key `already_uploaded`
/// does not hold, in their order.
pub fn filter_files(
    pairs: Vec<KeyValuePair>,
    already_uploaded: &KeySet,
    subset_str: &str,
) -> (r: Vec<KeyValuePair>)
    ensures
        r@ == uploads(pairs@, already_uploaded@, subset_str@),
{
    let mut filtered_pairs: Vec<KeyValuePair> = Vec::new();
    let mut i: usize = 0;
    while i < pairs.len()
        invariant
            i <= pairs@.len(),
            filtered_pairs@ == uploads(pairs@.subrange(0, i as int), already_uploaded@, subset_str@),
        decreases pairs@.len() - i,
    {
        let pair = &pairs[i];
        assert(pairs@.subrange(0, i + 1).drop_last() =~= pairs@.subrange(0, i as int));
        if starts_with_subset(pair.key.as_str(), subset_str) && !already_uploaded.contains(
            &pair.key,
        ) {
            filtered_pairs.push(copy_pair(pair));
        }
        i = i + 1;
    }
    assert(pairs@.subrange(0, i as int) =~= pairs@);
    filtered_pairs
}

/// The set of the keys of `pairs`.
pub fn local_keys(pairs: &Vec<KeyValuePair>) -> (r: KeySet)
    ensures
        r.wf(),
        r@ == pair_keys(pairs@).to_set(),
{
    let mut keys = KeySet::new();
    let mut i: usize = 0;
    while i < pairs.len()
        invariant
            i <= pairs@.len(),
            keys.wf(),
            keys@ == pair_keys(pairs@.subrange(0, i as int)).to_set(),
        decreases pairs@.len() - i,
    {
        let ghost before = keys@;
        keys.insert(pairs[i].key.clone());
        assert(pair_keys(pairs@.subrange(0, i + 1)) =~= pair_keys(
            pairs@.subrange(0, i as int),
        ).push(pairs@[i as int].key@));
        assert(keys@ =~= pair_keys(pairs@.subrange(0, i + 1)).to_set());
        i = i + 1;
    }
    assert(pairs@.subrange(0, i as int) =~= pairs@);
    keys
}

/// The keys of `remote_subset` that `local_subset` does not hold, in the
/// order of `remote_subset`.
pub fn keys_to_delete(remote_subset: &KeySet, local_subset: &KeySet) -> (r: Vec<String>)
    ensures
        views_of(r@) == stale_keys(remote_subset.key_seq(), local_subset@),
        views_of(r@).to_set() == remote_subset@.difference(local_subset@),
{
    let remote = remote_subset.to_vec();
    let ghost all = views_of(remote@);
    let mut to_delete: Vec<String> = Vec::new();
    let mut i: usize = 0;
    while i < remote.len()
        invariant
            i <= remote@.len(),
            all == views_of(remote@),
            views_of(to_delete@) == stale_keys(all.subrange(0, i as int), local_subset@),
        decreases remote@.len() - i,
    {
        assert(all.subrange(0, i + 1).drop_last() =~= all.subrange(0, i as int));
        if !local_subset.contains(&remote[i]) {
            let ghost before = to_delete@;
            to_delete.push(remote[i].clone());
            assert(views_of(to_delete@) =~= views_of(before).push(remote@[i as int]@));
        }
        i = i + 1;
    }
    assert(all.subrange(0, i as int) =~= all);
    proof {
        lemma_delete_is_difference(all, local_subset@);
    }
    to_delete
}

/// Computes the plan of one sync from the local pairs, the remote keys inside
/// the subset, and the subset: the pairs to upload and the keys to delete.
pub fn reconcile(local_pairs: Vec<KeyValuePair>, remote_subset: &KeySet, subset_str: &str) -> (r: (
    Vec<KeyValuePair>,
    Vec<String>,
))
    requires
        remote_subset.wf(),
    ensures
        (r.0@, views_of(r.1@)) == reconcile_plan(local_pairs@, remote_subset.key_seq(), subset_str@),
        views_of(r.1@).to_set() == remote_subset@.difference(local_subset(local_pairs@, subset_str@)),
{
    let local = local_keys(&local_pairs);
    let local_in_subset = subset_keys(&local, subset_str);
    let to_delete = keys_to_delete(remote_subset, &local_in_subset);
    let to_upload = filter_files(local_pairs, remote_subset, subset_str);
    (to_upload, to_delete)
}

/// A pair is uploaded exactly when it lies inside the subset and its key is
/// not among the remote keys; nothing but local pairs is uploaded.
pub proof fn lemma_upload_inclusion(
    pairs: Seq<KeyValuePair>,
    remote_subset: Set<Seq<char>>,
    subset: Seq<char>,
    p: KeyValuePair,
)
    ensures
        uploads(pairs, remote_subset, subset).contains(p) ==> pairs.contains(p),
        pairs.contains(p) ==> (uploads(pairs, remote_subset, subset).contains(p) <==> (in_subset(
            p.key@,
            subset,
        ) && !remote_subset.contains(p.key@))),
{
    lemma_retain_contains(pairs, |q: KeyValuePair| should_upload(q, remote_subset, subset), p);
}

/// The keys to delete are, as a set, the remote keys minus the local ones.
pub proof fn lemma_delete_is_difference(remote_subset: Seq<Seq<char>>, local: Set<Seq<char>>)
    ensures
        stale_keys(remote_subset, local).to_set() == remote_subset.to_set().difference(local),
{
    lemma_retain_to_set(remote_subset, |k: Seq<char>| !local.contains(k));
    assert(remote_subset.to_set().filter(|k: Seq<char>| !local.contains(k))
        =~= remote_subset.to_set().difference(local));
}

/// A pair whose key the remote already holds is never uploaded, whatever its
/// value.
pub proof fn lemma_unchanged_content_skipped(
    pairs: Seq<KeyValuePair>,
    remote_subset: Set<Seq<char>>,
    subset: Seq<char>,
    p: KeyValuePair,
)
    requires
        remote_subset.contains(p.key@),
    ensures
        !uploads(pairs, remote_subset, subset).contains(p),
{
    lemma_retain_contains(pairs, |q: KeyValuePair| should_upload(q, remote_subset, subset), p);
}

/// When a file's content changes inside the subset, its new key is uploaded
/// and its old key is deleted in the same plan.
pub proof fn lemma_update_is_add_and_remove(
    pairs: Seq<KeyValuePair>,
    remote_subset: Seq<Seq<char>>,
    subset: Seq<char>,
    old_key: Seq<char>,
    new_pair: KeyValuePair,
)
    requires
        strip_hash(old_key) is Some,
        strip_hash(old_key) == strip_hash(new_pair.key@),
        old_key != new_pair.key@,
        remote_subset.contains(old_key),
        !remote_subset.contains(new_pair.key@),
        pairs.contains(new_pair),
        !pair_keys(pairs).contains(old_key),
        in_subset(old_key, subset),
        in_subset(new_pair.key@, subset),
    ensures
        reconcile_plan(pairs, remote_subset, subset).0.contains(new_pair),
        reconcile_plan(pairs, remote_subset, subset).1.contains(old_key),
{
    lemma_upload_inclusion(pairs, remote_subset.to_set(), subset, new_pair);
    let local = local_subset(pairs, subset);
    assert(!local.contains(old_key));
    lemma_retain_contains(remote_subset, |k: Seq<char>| !local.contains(k), old_key);
}

/// The plan is a function of its inputs: two runs on the same inputs give
/// the same uploads and the same deletions.
pub proof fn lemma_reconcile_idempotent(
    pairs: Seq<KeyValuePair>,
    remote_subset: Seq<Seq<char>>,
    subset: Seq<char>,
    first: (Seq<KeyValuePair>, Seq<Seq<char>>),
    second: (Seq<KeyValuePair>, Seq<Seq<char>>),
)
    requires
        first == reconcile_plan(pairs, remote_subset, subset),
        second == reconcile_plan(pairs, remote_subset, subset),
    ensures
        first == second,
{
}

} // verus!
