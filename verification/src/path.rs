//! File paths as bytes, taken apart as Unix does: components stand between
//! slashes, repeated slashes and `.` components do not count, except for a `.`
//! at the very beginning.

use vstd::prelude::*;

verus! {

/// The byte between components.
pub const SLASH: u8 = 0x2f;

/// The byte that stands for the current directory.
pub const DOT: u8 = 0x2e;

/// Where the components begin: behind the root slash of an absolute path, and
/// behind the leading `.` of one that starts at the current directory.
pub open spec fn body_start(p: Seq<u8>) -> nat {
    if p.len() > 0 && p[0] == SLASH {
        1
    } else if p.len() > 0 && p[0] == DOT && (p.len() == 1 || p[1] == SLASH) {
        1
    } else {
        0
    }
}

/// Where the last component of `p` begins: behind its last slash, and not before
/// `from`.
pub open spec fn last_start(p: Seq<u8>, from: nat) -> nat
    decreases p.len(),
{
    if p.len() <= from {
        from
    } else if p.last() == SLASH {
        p.len()
    } else {
        last_start(p.drop_last(), from)
    }
}

/// The length of `p` without its last component and the slash before it.
pub open spec fn cut_len(p: Seq<u8>, from: nat) -> nat {
    let start = last_start(p, from);
    if start > from {
        (start - 1) as nat
    } else {
        from
    }
}

/// The last component of `p`.
pub open spec fn last_part(p: Seq<u8>, from: nat) -> Seq<u8> {
    p.skip(last_start(p, from) as int)
}

/// Whether a component does not count: it is empty, or `.`.
pub open spec fn no_part(c: Seq<u8>) -> bool {
    c.len() == 0 || c == seq![DOT]
}

/// The last component begins within the body.
pub proof fn lemma_last_start(p: Seq<u8>, from: nat)
    ensures
        from <= last_start(p, from),
        from <= p.len() ==> last_start(p, from) <= p.len(),
        from < p.len() ==> cut_len(p, from) < p.len(),
        last_start(p, from) > from ==> p[last_start(p, from) - 1] == SLASH,
    decreases p.len(),
{
    if p.len() > from && p.last() != SLASH {
        lemma_last_start(p.drop_last(), from);
    }
}

/// `p` without the components at its end that do not count.
pub open spec fn strip_end(p: Seq<u8>, from: nat) -> Seq<u8>
    decreases p.len(),
{
    if p.len() > from && no_part(last_part(p, from)) {
        proof {
            lemma_last_start(p, from);
        }
        strip_end(p.take(cut_len(p, from) as int), from)
    } else {
        p
    }
}

/// The last component of `p`, where it names a file: a path that ends in the
/// root, in the current directory or in `..` names none.
pub open spec fn file_name_of(p: Seq<u8>) -> Option<Seq<u8>> {
    let from = body_start(p);
    let q = strip_end(p, from);
    if q.len() > from && last_part(q, from) != seq![DOT, DOT] {
        Some(last_part(q, from))
    } else {
        None
    }
}

/// `p` without its last component; none for the root and for the empty path.
pub open spec fn parent_of(p: Seq<u8>) -> Option<Seq<u8>> {
    let from = body_start(p);
    let q = strip_end(p, from);
    if q.len() > from {
        Some(strip_end(q.take(cut_len(q, from) as int), from))
    } else if from == 1 && p[0] == DOT {
        Some(seq![])
    } else {
        None
    }
}

/// `dir` with a slash at its end, unless it is empty.
pub open spec fn with_slash(dir: Seq<u8>) -> Seq<u8> {
    if dir.len() > 0 && dir.last() != SLASH {
        dir.push(SLASH)
    } else {
        dir
    }
}

/// The directory that a path's file stands in: the path itself, where it names no
/// file.
pub open spec fn directory_of(p: Seq<u8>) -> Seq<u8> {
    if file_name_of(p) is Some {
        parent_of(p)->0
    } else {
        p
    }
}

/// The path of the file `name` in the directory of `p`.
pub open spec fn sibling(p: Seq<u8>, name: Seq<u8>) -> Seq<u8> {
    with_slash(directory_of(p)) + name
}

/// Where the components of `p` begin.
fn body_from(p: &[u8]) -> (from: usize)
    ensures
        from == body_start(p@),
        from <= p@.len(),
{
    if p.len() > 0 && p[0] == SLASH {
        1
    } else if p.len() > 0 && p[0] == DOT && (p.len() == 1 || p[1] == SLASH) {
        1
    } else {
        0
    }
}

/// Where the last component of `p[..len]` begins.
fn last_from(p: &[u8], len: usize, from: usize) -> (start: usize)
    requires
        from <= len <= p@.len(),
    ensures
        start == last_start(p@.take(len as int), from as nat),
        from <= start <= len,
{
    let mut i: usize = len;
    while i > from && p[i - 1] != SLASH
        invariant
            from <= i <= len <= p@.len(),
            last_start(p@.take(len as int), from as nat) == last_start(
                p@.take(i as int),
                from as nat,
            ),
        decreases i,
    {
        proof {
            assert(p@.take(i as int).drop_last() =~= p@.take(i - 1));
            assert(p@.take(i as int).last() == p@[i - 1]);
        }
        i = i - 1;
    }
    i
}

/// The length of `p[..len]` without the components at its end that do not count.
fn stripped_len(p: &[u8], len: usize, from: usize) -> (r: usize)
    requires
        from <= len <= p@.len(),
    ensures
        from <= r <= len,
        p@.take(r as int) == strip_end(p@.take(len as int), from as nat),
{
    let mut i: usize = len;
    while i > from
        invariant
            from <= i <= len <= p@.len(),
            strip_end(p@.take(len as int), from as nat) == strip_end(
                p@.take(i as int),
                from as nat,
            ),
        decreases i,
    {
        let start: usize = last_from(p, i, from);
        let ghost q = p@.take(i as int);
        let ghost part = last_part(q, from as nat);
        proof {
            lemma_last_start(q, from as nat);
            assert(part.len() == i - start);
            assert(part.len() == 1 ==> part[0] == p@[start as int]);
        }
        let counts: bool = !(i == start || (i - start == 1 && p[start] == DOT));
        proof {
            if i - start == 1 && p@[start as int] == DOT {
                assert(part =~= seq![DOT]);
            }
            assert(counts == !no_part(part));
        }
        if counts {
            return i;
        }
        let next: usize = if start > from {
            start - 1
        } else {
            from
        };
        proof {
            assert(q.take(next as int) =~= p@.take(next as int));
        }
        i = next;
    }
    i
}

/// A copy of `p[start..end]`.
fn copy_range(p: &[u8], start: usize, end: usize) -> (r: Vec<u8>)
    requires
        start <= end <= p@.len(),
    ensures
        r@ == p@.subrange(start as int, end as int),
{
    vstd::slice::slice_to_vec(vstd::slice::slice_subrange(p, start, end))
}

/// The last component of `path`, where it names a file.
pub fn file_name(path: &[u8]) -> (r: Option<Vec<u8>>)
    ensures
        match r {
            Some(name) => file_name_of(path@) == Some(name@),
            None => file_name_of(path@) is None,
        },
{
    let from: usize = body_from(path);
    let len: usize = stripped_len(path, path.len(), from);
    proof {
        assert(path@.take(path@.len() as int) =~= path@);
    }
    if len <= from {
        return None;
    }
    let start: usize = last_from(path, len, from);
    let ghost q = path@.take(len as int);
    let name = copy_range(path, start, len);
    proof {
        assert(last_part(q, from as nat) =~= name@);
    }
    if name.len() == 2 && name[0] == DOT && name[1] == DOT {
        proof {
            assert(name@ =~= seq![DOT, DOT]);
        }
        return None;
    }
    Some(name)
}

/// `path` without its last component; none for the root and for the empty path.
pub fn parent(path: &[u8]) -> (r: Option<Vec<u8>>)
    ensures
        match r {
            Some(dir) => parent_of(path@) == Some(dir@),
            None => parent_of(path@) is None,
        },
{
    let from: usize = body_from(path);
    let len: usize = stripped_len(path, path.len(), from);
    proof {
        assert(path@.take(path@.len() as int) =~= path@);
    }
    if len <= from {
        if from == 1 && path[0] == DOT {
            return Some(Vec::new());
        }
        return None;
    }
    let start: usize = last_from(path, len, from);
    let cut: usize = if start > from {
        start - 1
    } else {
        from
    };
    let ghost q = path@.take(len as int);
    let end: usize = stripped_len(path, cut, from);
    let dir = copy_range(path, 0, end);
    proof {
        assert(q.take(cut as int) =~= path@.take(cut as int));
        assert(dir@ =~= path@.take(end as int));
    }
    Some(dir)
}

/// The path of the file `name` in the directory of `path`.
pub fn with_file_name(path: &[u8], name: &[u8]) -> (r: Vec<u8>)
    ensures
        r@ == sibling(path@, name@),
{
    let mut out: Vec<u8> = match file_name(path) {
        Some(_) => match parent(path) {
            Some(dir) => dir,
            None => Vec::new(),
        },
        None => vstd::slice::slice_to_vec(path),
    };
    proof {
        assert(out@ == directory_of(path@));
    }
    if out.len() > 0 && out[out.len() - 1] != SLASH {
        out.push(SLASH);
    }
    out.extend_from_slice(name);
    proof {
        assert(out@ =~= sibling(path@, name@));
    }
    out
}

/// What is left of a path is its beginning, and has nothing more to strip.
proof fn lemma_strip_end(p: Seq<u8>, from: nat)
    requires
        from <= p.len(),
    ensures
        from <= strip_end(p, from).len() <= p.len(),
        strip_end(p, from) == p.take(strip_end(p, from).len() as int),
        strip_end(strip_end(p, from), from) == strip_end(p, from),
    decreases p.len(),
{
    if p.len() > from && no_part(last_part(p, from)) {
        lemma_last_start(p, from);
        let q = p.take(cut_len(p, from) as int);
        lemma_strip_end(q, from);
        let n = strip_end(q, from).len() as int;
        assert(q.take(n) =~= p.take(n));
    } else {
        assert(p.take(p.len() as int) =~= p);
    }
}

/// Bytes without a slash lengthen the last component.
proof fn lemma_last_start_extend(a: Seq<u8>, name: Seq<u8>, from: nat)
    requires
        from <= a.len(),
        !name.contains(SLASH),
    ensures
        last_start(a + name, from) == last_start(a, from),
    decreases name.len(),
{
    if name.len() == 0 {
        assert(a + name =~= a);
    } else {
        let rest = name.drop_last();
        assert(name[name.len() - 1] == name.last());
        assert(name.contains(name.last()));
        assert(!rest.contains(SLASH)) by {
            if rest.contains(SLASH) {
                let k = choose|k: int| 0 <= k < rest.len() && rest[k] == SLASH;
                assert(name[k] == SLASH);
            }
        }
        lemma_last_start_extend(a, rest, from);
        assert((a + name).drop_last() =~= a + rest);
        assert((a + name).last() == name.last());
    }
}

/// Whether `name` can be the name of a file.
pub open spec fn is_file_name(name: Seq<u8>) -> bool {
    &&& name.len() > 0
    &&& !name.contains(SLASH)
    &&& name != seq![DOT]
    &&& name != seq![DOT, DOT]
}

/// There is no slash in the last component.
proof fn lemma_last_part_has_no_slash(p: Seq<u8>, from: nat)
    requires
        from <= p.len(),
    ensures
        !last_part(p, from).contains(SLASH),
    decreases p.len(),
{
    lemma_last_start(p, from);
    if p.len() > from && p.last() != SLASH {
        let q = p.drop_last();
        lemma_last_start(q, from);
        lemma_last_part_has_no_slash(q, from);
        assert(last_part(p, from) =~= last_part(q, from).push(p.last()));
        assert forall|i: int| 0 <= i < last_part(p, from).len() implies last_part(p, from)[i]
            != SLASH by {
            if i < last_part(q, from).len() {
                assert(last_part(q, from).contains(last_part(q, from)[i]));
            }
        }
    }
}

/// The name of a path's file can stand by itself as the name of a file.
pub proof fn law_file_name_is_file_name(p: Seq<u8>)
    ensures
        file_name_of(p) matches Some(name) ==> is_file_name(name),
{
    let from = body_start(p);
    let q = strip_end(p, from);
    lemma_strip_end(p, from);
    lemma_last_part_has_no_slash(q, from);
    if q.len() > from && no_part(last_part(q, from)) {
        lemma_last_start(q, from);
        lemma_strip_end(q.take(cut_len(q, from) as int), from);
    }
}

/// In `dir/name` the last component is `name`.
proof fn lemma_join(dir: Seq<u8>, name: Seq<u8>)
    requires
        is_file_name(name),
    ensures
        ({
            let d = with_slash(dir);
            let r = d + name;
            let from = body_start(r);
            &&& from <= d.len()
            &&& last_start(r, from) == d.len()
            &&& last_part(r, from) == name
            &&& strip_end(r, from) == r
        }),
{
    let d = with_slash(dir);
    let r = d + name;
    let from = body_start(r);
    assert(name[0] != SLASH) by {
        if name[0] == SLASH {
            assert(name.contains(SLASH));
        }
    }
    if d.len() == 0 {
        assert(r =~= name);
        if name.len() == 1 {
            assert(name[0] == DOT ==> name =~= seq![DOT]);
        } else if name[1] == SLASH {
            assert(name.contains(SLASH));
        }
        assert(from == 0);
    } else {
        assert(d.last() == SLASH);
    }
    lemma_last_start_extend(d, name, from);
    assert(last_start(d, from) == d.len());
    assert(last_part(r, from) =~= name);
}

/// The file that was put beside another has the name it was given.
pub proof fn law_sibling_has_name(p: Seq<u8>, name: Seq<u8>)
    requires
        is_file_name(name),
    ensures
        file_name_of(sibling(p, name)) == Some(name),
{
    lemma_join(directory_of(p), name);
}

/// A file that was put beside another stands in the same directory.
pub proof fn law_sibling_shares_directory(p: Seq<u8>, name: Seq<u8>)
    requires
        is_file_name(name),
        file_name_of(p) is Some,
    ensures
        parent_of(sibling(p, name)) == parent_of(p),
{
    let f = body_start(p);
    let q = strip_end(p, f);
    lemma_strip_end(p, f);
    lemma_last_start(q, f);
    let x = q.take(cut_len(q, f) as int);
    lemma_strip_end(x, f);
    let dir = strip_end(x, f);
    let n = dir.len() as int;
    assert(dir =~= p.take(n)) by {
        assert(x.take(n) =~= p.take(n));
    }
    let d = with_slash(dir);
    let r = sibling(p, name);
    let from = body_start(r);
    lemma_join(dir, name);
    if n == 0 {
        assert(r.take(0) =~= dir);
    } else if dir.last() == SLASH {
        lemma_last_start(dir, f);
        if n > f {
            assert(last_part(dir, f).len() == 0);
            lemma_strip_end(dir.take(cut_len(dir, f) as int), f);
            assert(false);
        }
        assert(r[0] == dir[0]);
        assert(r.take(1) =~= dir);
    } else {
        assert(r[0] == p[0]);
        if n == 1 {
            assert(r[1] == SLASH);
            if p[0] == DOT && f == 0 {
                assert(dir =~= seq![DOT]);
                reveal_with_fuel(last_start, 2);
                reveal_with_fuel(strip_end, 2);
                assert(dir.drop_last().len() == 0);
                assert(last_part(dir, 0) =~= seq![DOT]);
                assert(dir.take(0).len() == 0);
                assert(strip_end(dir, 0).len() == 0);
                assert(false);
            }
        } else {
            assert(r[1] == p[1]);
        }
        assert(from == f);
        assert(r.take(n) =~= dir);
    }
}

/// The name of the file in `dir/name` is `name`, and that of a bare name the name
/// itself.
pub proof fn law_name_of_joined_path(dir: Seq<u8>, name: Seq<u8>)
    requires
        is_file_name(name),
    ensures
        file_name_of(dir + seq![SLASH] + name) == Some(name),
        file_name_of(name) == Some(name),
{
    let none: Seq<u8> = seq![];
    lemma_join(dir + seq![SLASH], name);
    lemma_join(none, name);
    assert(none + name =~= name);
}

/// Slashes at the end, and the current directory at the end, make no difference.
pub proof fn law_path_end_does_not_count(p: Seq<u8>)
    ensures
        file_name_of(p + seq![SLASH]) == file_name_of(p),
        file_name_of(p + seq![SLASH, DOT]) == file_name_of(p),
        parent_of(p + seq![SLASH]) == parent_of(p),
        parent_of(p + seq![SLASH, DOT]) == parent_of(p),
{
    let a = p + seq![SLASH];
    let b = p + seq![SLASH, DOT];
    if p.len() == 0 {
        reveal_with_fuel(strip_end, 2);
        reveal_with_fuel(last_start, 2);
        assert(last_part(b, 1) =~= seq![DOT]);
        assert(strip_end(b, 1).len() == 1);
        assert(strip_end(a, 1).len() == 1);
    } else {
        let from = body_start(p);
        assert(body_start(a) == from);
        assert(body_start(b) == from);
        assert(last_part(a, from).len() == 0);
        assert(a.take(p.len() as int) =~= p);
        assert(b.drop_last() =~= a);
        assert(last_part(b, from) =~= seq![DOT]);
        assert(b.take(p.len() as int) =~= p);
    }
}

/// A path that ends in `..` names no file.
pub proof fn law_parent_directory_is_no_file(dir: Seq<u8>)
    ensures
        file_name_of(dir + seq![SLASH, DOT, DOT]) is None,
        file_name_of(seq![DOT, DOT]) is None,
        file_name_of(seq![SLASH]) is None,
        file_name_of(seq![DOT]) is None,
        file_name_of(seq![]) is None,
{
    let p = dir + seq![SLASH, DOT, DOT];
    let from = body_start(p);
    reveal_with_fuel(last_start, 4);
    assert(p.drop_last().drop_last() =~= dir + seq![SLASH]);
    assert(last_part(p, from) =~= seq![DOT, DOT]);
    let q = seq![DOT, DOT];
    assert(q.drop_last().drop_last().len() == 0);
    assert(last_part(q, 0) =~= seq![DOT, DOT]);
}

/// `dir/name` stands in `dir`, whose own last part names a file; a bare name in
/// the empty path, and a file of the root in the root. The root and the empty path
/// stand in nothing. A file that is put beside another stands in the same place
/// under its own name.
pub proof fn law_directory_of_joined_path(
    above: Seq<u8>,
    last: Seq<u8>,
    name: Seq<u8>,
    other: Seq<u8>,
)
    requires
        above.len() == 0 || above.last() == SLASH,
        is_file_name(last),
        is_file_name(name),
    ensures
        parent_of(above + last + seq![SLASH] + name) == Some(above + last),
        parent_of(name) == Some(Seq::<u8>::empty()),
        parent_of(seq![SLASH] + name) == Some(seq![SLASH]),
        parent_of(seq![SLASH]) is None,
        parent_of(seq![]) is None,
        sibling(above + last + seq![SLASH] + name, other) == above + last + seq![SLASH] + other,
        sibling(name, other) == other,
        sibling(seq![SLASH] + name, other) == seq![SLASH] + other,
{
    let none: Seq<u8> = seq![];
    let root = seq![SLASH];
    let dir = above + last;
    let p = dir + root + name;
    let from = body_start(p);
    assert(!last.contains(SLASH));
    lemma_join(above, last);
    lemma_join(dir, name);
    assert(dir.last() == last.last());
    assert(dir.last() != SLASH) by {
        assert(last.contains(last[last.len() - 1]));
    }
    assert(with_slash(dir) =~= dir + root);
    assert(with_slash(above) =~= above);
    assert(body_start(dir) == from) by {
        assert(p[0] == dir[0]);
        if dir.len() == 1 {
            assert(p[1] == SLASH);
            if above.len() == 0 && dir[0] == DOT {
                assert(last =~= seq![DOT]);
            }
        } else {
            assert(p[1] == dir[1]);
        }
    }
    assert(last_start(p, from) == dir.len() + 1);
    assert(p.take(dir.len() as int) =~= dir);
    lemma_join(none, name);
    assert(none + name =~= name);
    assert(name.take(0) =~= none);
    lemma_join(root, name);
    assert((root + name).take(1) =~= root);
    assert(sibling(name, other) =~= other);
}

/// A second slash, or the current directory, in front of a name makes no
/// difference to where the file stands.
pub proof fn law_directory_is_stripped(dir: Seq<u8>, name: Seq<u8>, other: Seq<u8>)
    requires
        is_file_name(name),
    ensures
        parent_of(dir + seq![SLASH, SLASH] + name) == parent_of(dir + seq![SLASH] + name),
        parent_of(dir + seq![SLASH, DOT, SLASH] + name) == parent_of(dir + seq![SLASH] + name),
        sibling(dir + seq![SLASH, SLASH] + name, other) == sibling(
            dir + seq![SLASH] + name,
            other,
        ),
        sibling(dir + seq![SLASH, DOT, SLASH] + name, other) == sibling(
            dir + seq![SLASH] + name,
            other,
        ),
{
    let one = dir + seq![SLASH];
    let two = dir + seq![SLASH, SLASH];
    let dot = dir + seq![SLASH, DOT, SLASH];
    lemma_join(one, name);
    lemma_join(two, name);
    lemma_join(dot, name);
    let from = body_start(one + name);
    assert(body_start(two + name) == from);
    assert(body_start(dot + name) == from);
    let front = dir + seq![SLASH, DOT];
    assert((two + name).take(two.len() - 1) =~= one);
    assert((dot + name).take(dot.len() - 1) =~= front);
    assert(front.drop_last() =~= one);
    assert(last_part(front, from) =~= seq![DOT]);
    if dir.len() == 0 {
        reveal_with_fuel(strip_end, 2);
        assert((one + name).take(1) =~= one);
        assert(front.take(1) =~= one);
    } else {
        assert((one + name).take(one.len() - 1) =~= dir);
        assert(last_part(one, from).len() == 0);
        assert(one.take(dir.len() as int) =~= dir);
        assert(front.take(dir.len() as int) =~= dir);
    }
}

} // verus!
