//! Content keys: a logical asset path with a content hash spliced into its
//! file name (`dir/name.HASH.ext`, or `dir/name.HASH` without an extension).
use vstd::prelude::*;
use vstd::string::*;
use crate::key_set::{retain, views_of};

verus! {

/// The pieces of `s` between its `/` separators, empty pieces included:
/// `"a//b/"` has the pieces `a`, ``, `b`, ``. There is always at least one.
pub open spec fn segments(s: Seq<char>) -> Seq<Seq<char>>
    decreases s.len(),
{
    if s.len() == 0 {
        seq![Seq::empty()]
    } else {
        let r = segments(s.drop_last());
        if s.last() == '/' {
            r.push(Seq::empty())
        } else {
            r.update(r.len() - 1, r.last().push(s.last()))
        }
    }
}

/// A piece after the first names a component unless it is empty or `.`.
pub open spec fn plain_component(seg: Seq<char>) -> bool {
    seg.len() > 0 && seg != seq!['.']
}

/// The components of a path given by its pieces. A leading empty piece (the
/// path starts with `/`) is the root, written `/`; a leading `.` stays; later
/// empty and `.` pieces are dropped.
pub open spec fn normalize(segs: Seq<Seq<char>>) -> Seq<Seq<char>> {
    let first = if segs[0].len() > 0 {
        seq![segs[0]]
    } else if segs.len() > 1 {
        seq![seq!['/']]
    } else {
        Seq::empty()
    };
    first + retain(segs.drop_first(), |seg: Seq<char>| plain_component(seg))
}

/// The components of the path `s`: `"a//b/./c/"` has `a`, `b`, `c`.
pub open spec fn path_components(s: Seq<char>) -> Seq<Seq<char>> {
    normalize(segments(s))
}

/// A key lies inside a subset sync when the subset's path components are the
/// first components of the key's path: `public/a` lies in `public`,
/// `publicity/a` does not. The empty subset holds every key.
pub open spec fn in_subset(key: Seq<char>, subset: Seq<char>) -> bool {
    path_components(subset).is_prefix_of(path_components(key))
}

proof fn lemma_segments_nonempty(s: Seq<char>)
    ensures
        segments(s).len() >= 1,
    decreases s.len(),
{
    if s.len() > 0 {
        lemma_segments_nonempty(s.drop_last());
    }
}

/// The empty path has no components, so every key lies in the empty subset.
pub proof fn lemma_empty_subset_holds_all(key: Seq<char>)
    ensures
        path_components(Seq::<char>::empty()) == Seq::<Seq<char>>::empty(),
        in_subset(key, Seq::<char>::empty()),
{
    let segs = segments(Seq::<char>::empty());
    assert(segs.drop_first() =~= Seq::<Seq<char>>::empty());
    assert(path_components(Seq::<char>::empty()) =~= Seq::<Seq<char>>::empty());
    assert(Seq::<Seq<char>>::empty() =~= path_components(key).subrange(0, 0));
}

/// The largest index below `end` at which `s` holds `c`, or -1.
pub open spec fn last_index_of(s: Seq<char>, c: char, end: int) -> int
    decreases end,
{
    if end <= 0 {
        -1
    } else if s[end - 1] == c {
        end - 1
    } else {
        last_index_of(s, c, end - 1)
    }
}

/// The logical path of a content key: the key with its hash segment removed.
/// The hash is the last dot-separated segment of the file name before the
/// extension; a file name with a single dot has no extension and the hash
/// follows that dot. A file name without a dot carries no hash.
pub open spec fn strip_hash(key: Seq<char>) -> Option<Seq<char>> {
    let slash = last_index_of(key, '/', key.len() as int);
    let ext_dot = last_index_of(key, '.', key.len() as int);
    if ext_dot <= slash {
        None
    } else {
        let hash_dot = last_index_of(key, '.', ext_dot);
        if hash_dot <= slash {
            Some(key.subrange(0, ext_dot))
        } else {
            Some(key.subrange(0, hash_dot) + key.subrange(ext_dot, key.len() as int))
        }
    }
}

proof fn lemma_last_index_bounds(s: Seq<char>, c: char, end: int)
    requires
        0 <= end <= s.len(),
    ensures
        -1 <= last_index_of(s, c, end) < end,
        last_index_of(s, c, end) >= 0 ==> s[last_index_of(s, c, end)] == c,
    decreases end,
{
    if end > 0 && s[end - 1] != c {
        lemma_last_index_bounds(s, c, end - 1);
    }
}

/// The pieces of `s` between its `/` separators.
fn split_segments(s: &str) -> (r: Vec<String>)
    ensures
        views_of(r@) == segments(s@),
{
    let n = s.unicode_len();
    let mut done: Vec<String> = Vec::new();
    let mut start: usize = 0;
    let mut i: usize = 0;
    assert(views_of(done@) =~= Seq::<Seq<char>>::empty());
    assert(s@.subrange(0, 0) =~= Seq::<char>::empty());
    assert(views_of(done@).push(s@.subrange(0, 0)) =~= segments(s@.subrange(0, 0)));
    while i < n
        invariant
            n == s@.len(),
            start <= i <= n,
            views_of(done@).push(s@.subrange(start as int, i as int)) == segments(
                s@.subrange(0, i as int),
            ),
        decreases n - i,
    {
        let ghost prefix = s@.subrange(0, i + 1);
        assert(prefix.drop_last() =~= s@.subrange(0, i as int));
        let c = s.get_char(i);
        assert(prefix.last() == c);
        proof {
            lemma_segments_nonempty(s@.subrange(0, i as int));
        }
        if c == '/' {
            let ghost before = views_of(done@);
            done.push(s.substring_char(start, i).to_owned());
            assert(views_of(done@) =~= before.push(s@.subrange(start as int, i as int)));
            start = i + 1;
            assert(s@.subrange(start as int, i + 1) =~= Seq::<char>::empty());
            assert(views_of(done@).push(s@.subrange(start as int, i + 1)) =~= segments(prefix));
        } else {
            assert(s@.subrange(start as int, i + 1) =~= s@.subrange(start as int, i as int).push(
                c,
            ));
            assert(views_of(done@).push(s@.subrange(start as int, i + 1)) =~= segments(prefix));
        }
        i = i + 1;
    }
    let ghost before = views_of(done@);
    done.push(s.substring_char(start, n).to_owned());
    assert(views_of(done@) =~= before.push(s@.subrange(start as int, n as int)));
    assert(s@.subrange(0, n as int) =~= s@);
    done
}

fn is_plain_component(seg: &String) -> (r: bool)
    ensures
        r == plain_component(seg@),
{
    let len = seg.as_str().unicode_len();
    if len == 0 {
        return false;
    }
    let dot = len == 1 && seg.as_str().get_char(0) == '.';
    if !dot && len == 1 {
        assert(seg@ != seq!['.']) by {
            assert(seq!['.'][0] == '.');
        }
    }
    if dot {
        assert(seg@ =~= seq!['.']);
    }
    !dot
}

/// The components of the path `s`.
pub fn components(s: &str) -> (r: Vec<String>)
    ensures
        views_of(r@) == path_components(s@),
{
    let segs = split_segments(s);
    let ghost sv = views_of(segs@);
    proof {
        lemma_segments_nonempty(s@);
    }
    let mut r: Vec<String> = Vec::new();
    assert(sv[0] == segs@[0]@);
    if segs[0].as_str().unicode_len() > 0 {
        r.push(segs[0].clone());
        assert(views_of(r@) =~= seq![sv[0]]);
    } else if segs.len() > 1 {
        proof {
            reveal_strlit("/");
        }
        let root = "/".to_owned();
        assert(root@ =~= seq!['/']);
        r.push(root);
        assert(views_of(r@) =~= seq![seq!['/']]);
    } else {
        assert(views_of(r@) =~= Seq::<Seq<char>>::empty());
    }
    let ghost first = views_of(r@);
    assert(views_of(r@) =~= first + retain(sv.subrange(1, 1), |seg: Seq<char>| plain_component(seg)));
    let mut k: usize = 1;
    while k < segs.len()
        invariant
            1 <= k <= segs@.len(),
            sv == views_of(segs@),
            views_of(r@) == first + retain(
                sv.subrange(1, k as int),
                |seg: Seq<char>| plain_component(seg),
            ),
        decreases segs@.len() - k,
    {
        assert(sv.subrange(1, k + 1).drop_last() =~= sv.subrange(1, k as int));
        if is_plain_component(&segs[k]) {
            let ghost before = views_of(r@);
            r.push(segs[k].clone());
            assert(views_of(r@) =~= before.push(sv[k as int]));
            assert(views_of(r@) =~= first + retain(
                sv.subrange(1, k + 1),
                |seg: Seq<char>| plain_component(seg),
            ));
        }
        k = k + 1;
    }
    assert(sv.subrange(1, k as int) =~= sv.drop_first());
    assert(views_of(r@) =~= normalize(sv));
    r
}

/// Whether `key` falls inside the subset `subset`: the subset's path
/// components are the first components of the key's path.
pub fn starts_with_subset(key: &str, subset: &str) -> (r: bool)
    ensures
        r == in_subset(key@, subset@),
{
    let kc = components(key);
    let sc = components(subset);
    let ghost kv = views_of(kc@);
    let ghost sv = views_of(sc@);
    if sc.len() > kc.len() {
        return false;
    }
    let mut i: usize = 0;
    while i < sc.len()
        invariant
            sc@.len() <= kc@.len(),
            i <= sc@.len(),
            kv == views_of(kc@),
            sv == views_of(sc@),
            kv == path_components(key@),
            sv == path_components(subset@),
            forall|j: int| 0 <= j < i ==> kv[j] == sv[j],
        decreases sc@.len() - i,
    {
        assert(kv[i as int] == kc@[i as int]@ && sv[i as int] == sc@[i as int]@);
        if !(sc[i] == kc[i]) {
            assert(kv.subrange(0, sv.len() as int)[i as int] != sv[i as int]);
            return false;
        }
        i = i + 1;
    }
    assert(sv =~= kv.subrange(0, sv.len() as int));
    true
}

fn find_last(s: &str, c: char, end: usize) -> (r: Option<usize>)
    requires
        end <= s@.len(),
    ensures
        match r {
            Some(i) => i as int == last_index_of(s@, c, end as int),
            None => last_index_of(s@, c, end as int) == -1,
        },
{
    let mut j: usize = end;
    while j > 0
        invariant
            j <= end <= s@.len(),
            last_index_of(s@, c, end as int) == last_index_of(s@, c, j as int),
        decreases j,
    {
        if s.get_char(j - 1) == c {
            return Some(j - 1);
        }
        j = j - 1;
    }
    None
}

/// The logical path of `key`, or `None` where its file name carries no hash.
pub fn remove_hash_from_path(key: &str) -> (r: Option<String>)
    ensures
        match r {
            Some(p) => strip_hash(key@) == Some(p@),
            None => strip_hash(key@) is None,
        },
{
    let len = key.unicode_len();
    let k = Ghost(key@);
    proof {
        lemma_last_index_bounds(k@, '/', len as int);
        lemma_last_index_bounds(k@, '.', len as int);
    }
    let slash = find_last(key, '/', len);
    let ext_dot = match find_last(key, '.', len) {
        Some(d) => d,
        None => return None,
    };
    if let Some(s) = slash {
        if ext_dot <= s {
            return None;
        }
    }
    proof {
        lemma_last_index_bounds(k@, '.', ext_dot as int);
    }
    let hash_dot = find_last(key, '.', ext_dot);
    let below_name = match (hash_dot, slash) {
        (None, _) => true,
        (Some(h), Some(s)) => h <= s,
        (Some(_), None) => false,
    };
    if below_name {
        Some(key.substring_char(0, ext_dot).to_owned())
    } else {
        let h = hash_dot.unwrap();
        let head = key.substring_char(0, h).to_owned();
        let tail = key.substring_char(ext_dot, len);
        let r = head.concat(tail);
        assert(r@ =~= key@.subrange(0, h as int) + key@.subrange(ext_dot as int, len as int));
        Some(r)
    }
}

} // verus!
