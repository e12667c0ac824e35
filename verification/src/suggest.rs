//! Which files to offer while a path is being written.

use vstd::prelude::*;
use crate::strings::{chars_of, string_of};

verus! {

/// How many files are offered at most.
pub const NUM_SUGGESTIONS: usize = 16;

/// Whether `k` is the place of the last slash in `path`.
pub open spec fn is_last_slash(path: Seq<char>, k: int) -> bool {
    &&& 0 <= k < path.len()
    &&& path[k] == '/'
    &&& forall|j: int| k < j < path.len() ==> path[j] != '/'
}

/// The directory that a path written so far asks to look in, where its last
/// slash stands at `k`: what stands in front of that slash, and the root
/// where nothing does.
pub open spec fn query_dir(path: Seq<char>, k: int) -> Seq<char> {
    if k == 0 {
        seq!['/']
    } else {
        path.subrange(0, k)
    }
}

/// Where to look and what for, for a path written so far. Only an absolute
/// path asks for anything: it asks for the files in the directory in front of
/// its last slash whose names begin with what stands behind it.
pub fn split_query(path: &str) -> (r: Option<(String, String)>)
    ensures
        r.is_some() == (path@.len() > 0 && path@[0] == '/'),
        r matches Some((dir, file)) ==> exists|k: int|
            is_last_slash(path@, k) && dir@ == query_dir(path@, k) && file@ == path@.subrange(
                k + 1,
                path@.len() as int,
            ),
{
    let chars = chars_of(path);
    if chars.len() == 0 || chars[0] != '/' {
        return None;
    }
    let mut k: usize = chars.len() - 1;
    while chars[k] != '/'
        invariant
            k < chars.len(),
            chars@[0] == '/',
            forall|j: int| k < j < chars.len() ==> chars@[j] != '/',
        decreases k,
    {
        k -= 1;
    }
    assert(is_last_slash(path@, k as int));
    let dir = if k == 0 {
        let mut root: Vec<char> = Vec::new();
        root.push('/');
        assert(root@.subrange(0, 1) =~= seq!['/']);
        string_of(&root, 0, 1)
    } else {
        string_of(&chars, 0, k)
    };
    let file = string_of(&chars, k + 1, chars.len());
    Some((dir, file))
}

/// Whether `name` begins with `prefix`.
pub fn has_prefix(name: &str, prefix: &str) -> (r: bool)
    ensures
        r == prefix@.is_prefix_of(name@),
{
    let whole = chars_of(name);
    let start = chars_of(prefix);
    if start.len() > whole.len() {
        return false;
    }
    let mut i: usize = 0;
    while i < start.len()
        invariant
            i <= start.len() <= whole.len(),
            start@ == prefix@,
            whole@ == name@,
            forall|j: int| 0 <= j < i ==> start@[j] == whole@[j],
        decreases start.len() - i,
    {
        if start[i] != whole[i] {
            assert(whole@.subrange(0, start@.len() as int)[i as int] == whole@[i as int]);
            assert(!(start@ =~= whole@.subrange(0, start@.len() as int)));
            return false;
        }
        i += 1;
    }
    assert(start@ =~= whole@.subrange(0, start@.len() as int));
    true
}

/// The places, among the first `k` names, of those that begin with `prefix`.
pub open spec fn matching(names: Seq<String>, prefix: Seq<char>, k: int) -> Seq<int>
    decreases k,
{
    if k <= 0 {
        Seq::empty()
    } else if prefix.is_prefix_of(names[k - 1]@) {
        matching(names, prefix, k - 1).push(k - 1)
    } else {
        matching(names, prefix, k - 1)
    }
}

/// The first `n` of a sequence, or all of it where it has no more.
pub open spec fn first_n(s: Seq<int>, n: int) -> Seq<int> {
    if s.len() <= n {
        s
    } else {
        s.take(n)
    }
}

/// The names to offer: the places of the first `NUM_SUGGESTIONS` names that
/// begin with `prefix`, in the order of the names.
pub fn pick_suggestions(names: &Vec<String>, prefix: &str) -> (r: Vec<usize>)
    ensures
        r@.len() <= NUM_SUGGESTIONS,
        r@.map_values(|i: usize| i as int) == first_n(
            matching(names@, prefix@, names@.len() as int),
            NUM_SUGGESTIONS as int,
        ),
{
    let mut picked: Vec<usize> = Vec::new();
    let mut k: usize = 0;
    assert(picked@.map_values(|i: usize| i as int) =~= Seq::<int>::empty());
    while k < names.len()
        invariant
            k <= names.len(),
            picked@.len() <= NUM_SUGGESTIONS,
            picked@.map_values(|i: usize| i as int) == first_n(
                matching(names@, prefix@, k as int),
                NUM_SUGGESTIONS as int,
            ),
        decreases names.len() - k,
    {
        let ghost so_far = matching(names@, prefix@, k as int);
        let ghost before = picked@;
        assert(before.len() == before.map_values(|i: usize| i as int).len());
        if has_prefix(names[k].as_str(), prefix) {
            if picked.len() < NUM_SUGGESTIONS {
                picked.push(k);
                assert(picked@.map_values(|i: usize| i as int) =~= before.map_values(
                    |i: usize| i as int,
                ).push(k as int));
            } else {
                assert(so_far.push(k as int).take(NUM_SUGGESTIONS as int) =~= first_n(
                    so_far,
                    NUM_SUGGESTIONS as int,
                ));
            }
        }
        k += 1;
    }
    picked
}

} // verus!
