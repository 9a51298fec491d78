//! Paths of a Unix file system, as byte strings.

use vstd::prelude::*;
use vstd::slice::{slice_subrange, slice_to_vec};

verus! {

/// The byte that separates the names in a path.
pub const SLASH: u8 = 47;

/// The byte that, as a name of its own, stands for the directory before it.
pub const DOT: u8 = 46;

/// The path `part`, taken from `base`: `part` itself if it is absolute.
pub open spec fn joined(base: Seq<u8>, part: Seq<u8>) -> Seq<u8> {
    if part.len() > 0 && part[0] == SLASH {
        part
    } else if base.len() == 0 || base.last() == SLASH {
        base + part
    } else {
        base.push(SLASH) + part
    }
}

/// The length of what a path starts with before its first name: the root, or the current
/// directory written out.
pub open spec fn start_len(path: Seq<u8>) -> int {
    if path.len() > 0 && path[0] == SLASH {
        1
    } else if path.len() > 0 && path[0] == DOT && (path.len() == 1 || path[1] == SLASH) {
        1
    } else {
        0
    }
}

/// The position of the last slash from `from` on and before `to`, or -1.
pub open spec fn last_slash(path: Seq<u8>, from: int, to: int) -> int
    decreases to - from,
{
    if to <= from {
        -1
    } else if path[to - 1] == SLASH {
        to - 1
    } else {
        last_slash(path, from, to - 1)
    }
}

/// The name that a path ends with: what follows its last slash. It may be empty.
pub open spec fn last_name(path: Seq<u8>) -> Seq<u8> {
    let slash = last_slash(path, start_len(path), path.len() as int);
    if slash < 0 {
        path.skip(start_len(path))
    } else {
        path.skip(slash + 1)
    }
}

/// A path without its last name and the slash before it.
pub open spec fn without_name(path: Seq<u8>) -> Seq<u8> {
    let slash = last_slash(path, start_len(path), path.len() as int);
    if slash < 0 {
        path.take(start_len(path))
    } else {
        path.take(slash)
    }
}

/// A path without the names at its end that name nothing: the empty one and the dot.
pub open spec fn tidied(path: Seq<u8>) -> Seq<u8>
    decreases path.len(),
{
    if path.len() > start_len(path) && (last_name(path).len() == 0 || last_name(path) == seq![DOT]) {
        proof {
            lemma_without_name(path);
        }
        tidied(without_name(path))
    } else {
        path
    }
}

/// The directory that a path lies in. The root and the empty path lie in none.
pub open spec fn parent(path: Seq<u8>) -> Option<Seq<u8>> {
    let tidy = tidied(path);
    if tidy.len() > start_len(tidy) {
        Some(tidied(without_name(tidy)))
    } else if tidy.len() > 0 && tidy[0] != SLASH {
        Some(seq![])
    } else {
        None
    }
}

/// The last slash is one, and none follows it.
pub proof fn lemma_last_slash(path: Seq<u8>, from: int, to: int)
    requires
        0 <= from <= to <= path.len(),
    ensures
        ({
            let slash = last_slash(path, from, to);
            if slash < 0 {
                forall|i: int| from <= i < to ==> #[trigger] path[i] != SLASH
            } else {
                &&& from <= slash < to
                &&& path[slash] == SLASH
                &&& forall|i: int| slash < i < to ==> #[trigger] path[i] != SLASH
            }
        }),
    decreases to - from,
{
    if from < to && path[to - 1] != SLASH {
        lemma_last_slash(path, from, to - 1);
    }
}

/// A path is longer than what is left without its last name.
pub proof fn lemma_without_name(path: Seq<u8>)
    requires
        path.len() > start_len(path),
    ensures
        without_name(path).len() < path.len(),
{
    lemma_last_slash(path, start_len(path), path.len() as int);
}

/// Takes the path `part` from `base`.
pub fn join(base: &[u8], part: &[u8]) -> (path: Vec<u8>)
    ensures
        path@ == joined(base@, part@),
{
    if part.len() > 0 && part[0] == SLASH {
        return slice_to_vec(part);
    }
    let mut path = slice_to_vec(base);
    if base.len() > 0 && base[base.len() - 1] != SLASH {
        path.push(SLASH);
    }
    path.extend_from_slice(part);
    path
}

/// The length of what a path starts with before its first name.
fn count_start(path: &[u8]) -> (n: usize)
    ensures
        n == start_len(path@),
{
    if path.len() > 0 && path[0] == SLASH {
        1
    } else if path.len() > 0 && path[0] == DOT && (path.len() == 1 || path[1] == SLASH) {
        1
    } else {
        0
    }
}

/// Splits off the last name of a path.
fn split_name(path: &[u8]) -> (split: (&[u8], &[u8]))
    ensures
        split.0@ == without_name(path@),
        split.1@ == last_name(path@),
{
    let start: usize = count_start(path);
    let mut i: usize = path.len();
    while i > start
        invariant
            start == start_len(path@),
            start <= i <= path@.len(),
            last_slash(path@, start as int, path@.len() as int) == last_slash(
                path@,
                start as int,
                i as int,
            ),
        decreases i,
    {
        if path[i - 1] == SLASH {
            proof {
                assert(path@.subrange(0, i - 1) =~= path@.take(i - 1));
                assert(path@.subrange(i as int, path@.len() as int) =~= path@.skip(i as int));
            }
            return (slice_subrange(path, 0, i - 1), slice_subrange(path, i, path.len()));
        }
        i = i - 1;
    }
    proof {
        assert(path@.subrange(0, start as int) =~= path@.take(start as int));
        assert(path@.subrange(start as int, path@.len() as int) =~= path@.skip(start as int));
    }
    (slice_subrange(path, 0, start), slice_subrange(path, start, path.len()))
}

/// Takes the names that name nothing off the end of a path.
fn tidy(path: &[u8]) -> (tidy: &[u8])
    ensures
        tidy@ == tidied(path@),
{
    let mut rest = path;
    loop
        invariant
            tidied(rest@) == tidied(path@),
        decreases rest@.len(),
    {
        if rest.len() <= count_start(rest) {
            return rest;
        }
        let (before, name) = split_name(rest);
        if name.len() == 0 || (name.len() == 1 && name[0] == DOT) {
            proof {
                lemma_without_name(rest@);
                if name@.len() == 1 {
                    assert(name@ =~= seq![DOT]);
                }
            }
            rest = before;
        } else {
            return rest;
        }
    }
}

/// The directory that a path lies in.
pub fn parent_of(path: &[u8]) -> (dir: Option<Vec<u8>>)
    ensures
        match dir {
            Some(d) => parent(path@) == Some(d@),
            None => parent(path@) is None,
        },
{
    let tidy_path = tidy(path);
    if tidy_path.len() > count_start(tidy_path) {
        let (before, _) = split_name(tidy_path);
        Some(slice_to_vec(tidy(before)))
    } else if tidy_path.len() > 0 && tidy_path[0] != SLASH {
        Some(Vec::new())
    } else {
        None
    }
}

/// Whether `part` is one step of a path: a single name, or two dots for the step up.
pub open spec fn is_step(part: Seq<u8>) -> bool {
    &&& part.len() > 0
    &&& part != seq![DOT]
    &&& forall|i: int| 0 <= i < part.len() ==> #[trigger] part[i] != SLASH
}

/// Whether `part` is a single name.
pub open spec fn is_name(part: Seq<u8>) -> bool {
    is_step(part) && part != seq![DOT, DOT]
}

/// A step that is joined to a directory is the last one of the path, and the directory is what
/// the path goes through before it.
pub proof fn parent_of_joined(dir: Seq<u8>, name: Seq<u8>)
    requires
        is_step(name),
    ensures
        parent(joined(dir, name)) == Some(tidied(dir)),
        tidied(joined(dir, name)) == joined(dir, name),
        last_name(joined(dir, name)) == name,
{
    let path = joined(dir, name);
    assert(name[0] != SLASH);
    let start = start_len(path);
    let slash = last_slash(path, start, path.len() as int);
    lemma_last_slash(path, start, path.len() as int);
    let n = path.len() - name.len();
    assert forall|i: int| n <= i < path.len() implies #[trigger] path[i] != SLASH by {
        assert(path[i] == name[i - n]);
    }
    assert(path.skip(n) =~= name);
    if dir.len() == 0 {
        assert(path =~= name);
        if start == 1 {
            assert(name =~= seq![DOT]);
        }
        assert(path.take(0) =~= dir);
    } else if dir.last() == SLASH {
        assert(path[n - 1] == SLASH);
        if dir.len() == 1 {
            assert(path.take(1) =~= dir);
        } else {
            assert(start_len(dir) == start);
            assert(slash == n - 1);
            lemma_last_slash(dir, start, dir.len() as int);
            let cut = last_slash(dir, start, dir.len() as int);
            assert(cut == n - 1) by {
                assert(dir[n - 1] == SLASH);
            }
            assert(last_name(dir).len() == 0);
            assert(path.take(slash) =~= dir.take(cut));
        }
    } else {
        assert(path[n - 1] == SLASH);
        assert(slash == n - 1);
        assert(path.take(slash) =~= dir);
    }
    assert(last_name(path) == name);
    assert(tidied(path) == path);
    assert(path.len() > start);
}

/// An absolute path stays as it is when it is joined to another; any other follows on that with one
/// slash between them, which is added where there is none and something comes before it.
pub proof fn joined_with_one_slash(base: Seq<u8>, part: Seq<u8>)
    ensures
        part.len() > 0 && part[0] == 47 ==> joined(base, part) == part,
        !(part.len() > 0 && part[0] == 47) && base.len() == 0 ==> joined(base, part) == part,
        !(part.len() > 0 && part[0] == 47) && base.len() > 0 && base.last() == 47 ==> joined(
            base,
            part,
        ) == base + part,
        !(part.len() > 0 && part[0] == 47) && base.len() > 0 && base.last() != 47 ==> joined(
            base,
            part,
        ) == base + seq![47u8] + part,
{
    assert(base.len() == 0 ==> base + part =~= part);
    assert(base.push(SLASH) + part =~= base + seq![47u8] + part);
}

/// A slash at the end of a path names nothing.
pub proof fn last_slash_is_nothing(path: Seq<u8>)
    requires
        path.len() > 0,
    ensures
        tidied(path.push(47)) == tidied(path),
        parent(path.push(47)) == parent(path),
{
    let longer = path.push(47);
    lemma_last_slash(longer, start_len(longer), longer.len() as int);
    assert(longer.take(path.len() as int) =~= path);
    assert(longer[path.len() as int] == SLASH);
    assert(last_slash(longer, start_len(longer), longer.len() as int) == path.len());
    assert(last_name(longer).len() == 0);
    assert(without_name(longer) == path);
}

/// A dot as the last name of a path names what comes before it.
pub proof fn last_dot_is_nothing(path: Seq<u8>)
    requires
        path.len() > 0,
    ensures
        tidied(path + seq![47u8, 46u8]) == tidied(path),
        parent(path + seq![47u8, 46u8]) == parent(path),
{
    let longer = path + seq![47u8, 46u8];
    let start = start_len(longer);
    let n = path.len() as int;
    lemma_last_slash(longer, start, longer.len() as int);
    assert(longer[n] == SLASH && longer[n + 1] == DOT);
    assert(last_slash(longer, start, longer.len() as int) == n);
    assert(longer.take(n) =~= path);
    assert(last_name(longer) =~= seq![DOT]);
    assert(without_name(longer) == path);
}

/// The root and the empty path lie nowhere.
pub proof fn nothing_is_above_the_root()
    ensures
        parent(seq![47u8]) is None,
        parent(Seq::<u8>::empty()) is None,
{
    assert(tidied(seq![47u8]) == seq![47u8]);
}

} // verus!
