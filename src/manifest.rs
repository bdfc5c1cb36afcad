//! The asset manifest, from logical asset paths to their live content keys,
//! and its repair after a subset sync.
use vstd::prelude::*;
use crate::content_key::{in_subset, remove_hash_from_path, starts_with_subset, strip_hash};
use crate::key_set::KeySet;

verus! {

/// The views of a sequence of (path, key) entries.
pub open spec fn entry_views(v: Seq<(String, String)>) -> Seq<(Seq<char>, Seq<char>)> {
    v.map_values(|e: (String, String)| (e.0@, e.1@))
}

/// The first key of `remote` from index `i` on whose logical path is `path`.
pub open spec fn first_match_from(remote: Seq<Seq<char>>, path: Seq<char>, i: int) -> Option<
    Seq<char>,
>
    decreases remote.len() - i,
{
    if i < 0 || i >= remote.len() {
        None
    } else if strip_hash(remote[i]) == Some(path) {
        Some(remote[i])
    } else {
        first_match_from(remote, path, i + 1)
    }
}

/// The first key of `remote` whose logical path is `path`.
pub open spec fn first_match(remote: Seq<Seq<char>>, path: Seq<char>) -> Option<Seq<char>> {
    first_match_from(remote, path, 0)
}

/// The key that the manifest holds for `path` after a repair: entries inside
/// the subset keep their key; one outside takes the first remote key with the
/// same logical path, where there is one.
pub open spec fn patched_value(
    path: Seq<char>,
    value: Seq<char>,
    remote: Seq<Seq<char>>,
    subset: Seq<char>,
) -> Seq<char> {
    if in_subset(path, subset) {
        value
    } else {
        match first_match(remote, path) {
            Some(k) => k,
            None => value,
        }
    }
}

/// The manifest after a repair, entry by entry.
pub open spec fn patched(
    entries: Seq<(Seq<char>, Seq<char>)>,
    remote: Seq<Seq<char>>,
    subset: Seq<char>,
) -> Seq<(Seq<char>, Seq<char>)> {
    entries.map_values(
        |e: (Seq<char>, Seq<char>)| (e.0, patched_value(e.0, e.1, remote, subset)),
    )
}

/// Logical asset paths mapped to the content keys that serve them; each path
/// appears once.
pub struct AssetManifest {
    entries: Vec<(String, String)>,
}

impl View for AssetManifest {
    type V = Seq<(Seq<char>, Seq<char>)>;

    closed spec fn view(&self) -> Seq<(Seq<char>, Seq<char>)> {
        entry_views(self.entries@)
    }
}

impl AssetManifest {
    /// No path appears twice.
    pub open spec fn wf(&self) -> bool {
        forall|i: int, j: int|
            0 <= i < self@.len() && 0 <= j < self@.len() && i != j ==> self@[i].0 != self@[j].0
    }

    /// The empty manifest.
    pub fn new() -> (r: AssetManifest)
        ensures
            r.wf(),
            r@ == Seq::<(Seq<char>, Seq<char>)>::empty(),
    {
        let r = AssetManifest { entries: Vec::new() };
        assert(r@ =~= Seq::<(Seq<char>, Seq<char>)>::empty());
        r
    }

    /// The number of entries.
    pub fn len(&self) -> (r: usize)
        ensures
            r == self@.len(),
    {
        self.entries.len()
    }

    fn position(&self, path: &String) -> (r: Option<usize>)
        ensures
            match r {
                Some(i) => i < self@.len() && self@[i as int].0 == path@,
                None => forall|j: int| 0 <= j < self@.len() ==> self@[j].0 != path@,
            },
    {
        let mut i: usize = 0;
        while i < self.entries.len()
            invariant
                i <= self@.len(),
                self@.len() == self.entries@.len(),
                forall|j: int| 0 <= j < i ==> self@[j].0 != path@,
            decreases self.entries@.len() - i,
        {
            if self.entries[i].0 == *path {
                return Some(i);
            }
            i = i + 1;
        }
        None
    }

    /// The key recorded for `path`, if any.
    pub fn get(&self, path: &String) -> (r: Option<String>)
        ensures
            match r {
                Some(k) => exists|i: int|
                    0 <= i < self@.len() && self@[i] == (path@, k@),
                None => forall|j: int| 0 <= j < self@.len() ==> self@[j].0 != path@,
            },
    {
        match self.position(path) {
            Some(i) => Some(self.entries[i].1.clone()),
            None => None,
        }
    }

    /// Records `key` for `path`, replacing the key it had.
    pub fn insert(&mut self, path: String, key: String)
        requires
            old(self).wf(),
        ensures
            final(self).wf(),
            match old(self).find(path@) {
                Some(i) => final(self)@ == old(self)@.update(i, (path@, key@)),
                None => final(self)@ == old(self)@.push((path@, key@)),
            },
    {
        match self.position(&path) {
            Some(i) => {
                proof {
                    self.lemma_find_unique(path@, i as int);
                }
                self.entries.set(i, (path, key));
                assert(self@ =~= old(self)@.update(i as int, (path@, key@)));
            },
            None => {
                self.entries.push((path, key));
                assert(self@ =~= old(self)@.push((path@, key@)));
            },
        }
    }

    /// The index at which `path` appears, if it does.
    pub open spec fn find(&self, path: Seq<char>) -> Option<int> {
        if exists|i: int| 0 <= i < self@.len() && self@[i].0 == path {
            Some(choose|i: int| 0 <= i < self@.len() && self@[i].0 == path)
        } else {
            None
        }
    }

    proof fn lemma_find_unique(&self, path: Seq<char>, i: int)
        requires
            self.wf(),
            0 <= i < self@.len(),
            self@[i].0 == path,
        ensures
            self.find(path) == Some(i),
    {
    }

    /// The entries, in their order.
    pub fn to_vec(&self) -> (r: Vec<(String, String)>)
        ensures
            entry_views(r@) == self@,
    {
        let mut r: Vec<(String, String)> = Vec::new();
        let mut i: usize = 0;
        while i < self.entries.len()
            invariant
                i <= self.entries@.len(),
                entry_views(r@) == self@.subrange(0, i as int),
            decreases self.entries@.len() - i,
        {
            let ghost before = r@;
            r.push((self.entries[i].0.clone(), self.entries[i].1.clone()));
            assert(entry_views(r@) =~= entry_views(before).push(self@[i as int]));
            assert(self@.subrange(0, i + 1) =~= self@.subrange(0, i as int).push(self@[i as int]));
            i = i + 1;
        }
        assert(self@.subrange(0, i as int) =~= self@);
        r
    }
}

fn find_remote_key(remote: &Vec<String>, path: &String) -> (r: Option<String>)
    ensures
        match r {
            Some(k) => first_match(remote@.map_values(|s: String| s@), path@) == Some(k@),
            None => first_match(remote@.map_values(|s: String| s@), path@) is None,
        },
{
    let ghost all = remote@.map_values(|s: String| s@);
    let mut i: usize = 0;
    while i < remote.len()
        invariant
            i <= remote@.len(),
            all == remote@.map_values(|s: String| s@),
            first_match(all, path@) == first_match_from(all, path@, i as int),
        decreases remote@.len() - i,
    {
        let found = match remote_hash_stripped(&remote[i]) {
            Some(p) => p == *path,
            None => false,
        };
        assert(all[i as int] == remote@[i as int]@);
        if found {
            return Some(remote[i].clone());
        }
        i = i + 1;
    }
    None
}

fn remote_hash_stripped(key: &String) -> (r: Option<String>)
    ensures
        match r {
            Some(p) => strip_hash(key@) == Some(p@),
            None => strip_hash(key@) is None,
        },
{
    remove_hash_from_path(key.as_str())
}

/// Repairs the entries outside the subset: each takes the first remote key
/// whose logical path is the entry's path, where there is one. Entries inside
/// the subset are left for the caller to update once its uploads land.
pub fn patch_manifest(manifest: &mut AssetManifest, remote_keys: &KeySet, subset_str: &str)
    ensures
        final(manifest)@ == patched(old(manifest)@, remote_keys.key_seq(), subset_str@),
        final(manifest)@.len() == old(manifest)@.len(),
        forall|i: int|
            0 <= i < old(manifest)@.len() && in_subset(#[trigger] old(manifest)@[i].0, subset_str@)
                ==> final(manifest)@[i] == old(manifest)@[i],
        forall|i: int|
            0 <= i < old(manifest)@.len() && #[trigger] final(manifest)@[i] != old(manifest)@[i]
                ==> final(manifest)@[i].0 == old(manifest)@[i].0 && first_match(
                remote_keys.key_seq(),
                old(manifest)@[i].0,
            ) == Some(final(manifest)@[i].1),
        old(manifest).wf() ==> final(manifest).wf(),
{
    let remote = remote_keys.to_vec();
    assert(remote@.map_values(|s: String| s@) =~= remote_keys.key_seq());
    let ghost start = manifest@;
    let mut i: usize = 0;
    while i < manifest.entries.len()
        invariant
            i <= manifest@.len(),
            manifest@.len() == start.len() == manifest.entries@.len(),
            remote@.map_values(|s: String| s@) == remote_keys.key_seq(),
            forall|j: int|
                0 <= j < i ==> manifest@[j] == (
                    start[j].0,
                    patched_value(start[j].0, start[j].1, remote_keys.key_seq(), subset_str@),
                ),
            forall|j: int| i <= j < start.len() ==> manifest@[j] == start[j],
        decreases start.len() - i,
    {
        let path = manifest.entries[i].0.clone();
        assert(manifest@[i as int].0 == path@);
        if !starts_with_subset(path.as_str(), subset_str) {
            if let Some(original) = find_remote_key(&remote, &path) {
                let ghost before = manifest@;
                let val = manifest.entries[i].1.clone();
                if val != original {
                    manifest.entries.set(i, (path, original));
                    assert(manifest@ =~= before.update(i as int, (before[i as int].0, original@)));
                }
            }
        }
        i = i + 1;
    }
    assert(manifest@ =~= patched(start, remote_keys.key_seq(), subset_str@));
}

} // verus!
