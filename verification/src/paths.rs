//! Paths of a Unix file system, as the bytes that they are.

use vstd::prelude::*;

verus! {

/// The byte `/`, which parts the names of a path.
pub const SLASH: u8 = 47;

/// The byte `.`.
pub const DOT: u8 = 46;

/// The number of bytes of `p` before its first slash.
pub open spec fn name_len(p: Seq<u8>) -> nat
    decreases p.len(),
{
    if p.len() == 0 || p[0] == SLASH {
        0
    } else {
        1 + name_len(p.drop_first())
    }
}

/// A path that does not start with a slash starts with a name.
pub proof fn lemma_name_len(p: Seq<u8>)
    ensures
        name_len(p) <= p.len(),
        p.len() > 0 && p[0] != SLASH ==> name_len(p) > 0,
    decreases p.len(),
{
    if p.len() > 0 && p[0] != SLASH {
        lemma_name_len(p.drop_first());
    }
}

/// The names on the path `p`: what stands between slashes, without the empty
/// names and without `.`.
pub open spec fn names(p: Seq<u8>) -> Seq<Seq<u8>>
    decreases p.len(),
{
    if p.len() == 0 {
        Seq::empty()
    } else if p[0] == SLASH {
        names(p.drop_first())
    } else {
        let n = name_len(p) as int;
        proof {
            lemma_name_len(p);
        }
        if p.take(n) == seq![DOT] {
            names(p.skip(n))
        } else {
            seq![p.take(n)] + names(p.skip(n))
        }
    }
}

/// Whether `p` starts at the root directory.
pub open spec fn is_rooted(p: Seq<u8>) -> bool {
    p.len() > 0 && p[0] == SLASH
}

/// Whether `p` starts with the name `.`.
pub open spec fn starts_here(p: Seq<u8>) -> bool {
    p.len() > 0 && p[0] == DOT && (p.len() == 1 || p[1] == SLASH)
}

/// Whether `a` and `b` are the same path: they start at the same place and
/// have the same names.
pub open spec fn is_same_path(a: Seq<u8>, b: Seq<u8>) -> bool {
    is_rooted(a) == is_rooted(b) && starts_here(a) == starts_here(b) && names(a) == names(b)
}

/// The last name on the path `p`, if there is one and it is not `..`.
pub open spec fn last_name(p: Seq<u8>) -> Option<Seq<u8>> {
    let n = names(p);
    if n.len() > 0 && n.last() != seq![DOT, DOT] {
        Some(n.last())
    } else {
        None
    }
}

/// The path to the relative path `name` in the directory `base`.
pub open spec fn joined(base: Seq<u8>, name: Seq<u8>) -> Seq<u8> {
    if base.len() == 0 || base.last() == SLASH {
        base + name
    } else {
        base.push(SLASH) + name
    }
}

/// The contents of each name.
pub open spec fn bytes_of(v: Seq<Vec<u8>>) -> Seq<Seq<u8>> {
    v.map_values(|n: Vec<u8>| n@)
}

/// Whether `a` and `b` hold the same bytes.
pub(crate) fn same_bytes(a: &[u8], b: &[u8]) -> (r: bool)
    ensures
        r == (a@ == b@),
{
    if a.len() != b.len() {
        return false;
    }
    let mut i: usize = 0;
    while i < a.len()
        invariant
            i <= a@.len() == b@.len(),
            a@.take(i as int) == b@.take(i as int),
        decreases a@.len() - i,
    {
        if a[i] != b[i] {
            return false;
        }
        i = i + 1;
        assert(a@.take(i as int) =~= a@.take(i - 1).push(a@[i - 1]));
        assert(b@.take(i as int) =~= b@.take(i - 1).push(b@[i - 1]));
    }
    assert(a@.take(i as int) =~= a@);
    assert(b@.take(i as int) =~= b@);
    true
}

/// The bytes of `p` from `from` to before `to`.
fn bytes_between(p: &[u8], from: usize, to: usize) -> (v: Vec<u8>)
    requires
        from <= to <= p@.len(),
    ensures
        v@ == p@.subrange(from as int, to as int),
{
    let mut v: Vec<u8> = Vec::new();
    let mut i: usize = from;
    while i < to
        invariant
            from <= i <= to <= p@.len(),
            v@ == p@.subrange(from as int, i as int),
        decreases to - i,
    {
        v.push(p[i]);
        i = i + 1;
        assert(v@ =~= p@.subrange(from as int, i as int));
    }
    v
}

/// The names on the path `p`.
fn split_names(p: &[u8]) -> (r: Vec<Vec<u8>>)
    ensures
        bytes_of(r@) == names(p@),
{
    let mut r: Vec<Vec<u8>> = Vec::new();
    let mut i: usize = 0;
    proof {
        assert(p@.skip(0) =~= p@);
        assert(bytes_of(r@) + names(p@.skip(0)) =~= names(p@));
    }
    while i < p.len()
        invariant
            i <= p@.len(),
            bytes_of(r@) + names(p@.skip(i as int)) == names(p@),
        decreases p@.len() - i,
    {
        let ghost t = p@.skip(i as int);
        if p[i] == SLASH {
            i = i + 1;
            assert(t.drop_first() =~= p@.skip(i as int));
        } else {
            let start: usize = i;
            proof {
                lemma_name_len(t);
            }
            while i < p.len() && p[i] != SLASH
                invariant
                    start <= i <= p@.len(),
                    name_len(t) == i - start + name_len(p@.skip(i as int)),
                decreases p@.len() - i,
            {
                assert(p@.skip(i as int).drop_first() =~= p@.skip(i + 1));
                i = i + 1;
            }
            assert(t.take(i - start) =~= p@.subrange(start as int, i as int));
            assert(t.skip(i - start) =~= p@.skip(i as int));
            let name = bytes_between(p, start, i);
            if name.len() == 1 && name[0] == DOT {
                assert(name@ =~= seq![DOT]);
            } else {
                let ghost before = bytes_of(r@);
                let ghost piece = name@;
                assert(piece != seq![DOT]) by {
                    if piece == seq![DOT] {
                        assert(piece.len() == 1 && piece[0] == DOT);
                    }
                }
                r.push(name);
                assert(bytes_of(r@) =~= before.push(piece));
                assert(bytes_of(r@) + names(p@.skip(i as int)) =~= before + (seq![piece] + names(
                    p@.skip(i as int),
                )));
            }
        }
    }
    assert(p@.skip(i as int) =~= Seq::empty());
    assert(bytes_of(r@) =~= names(p@));
    r
}

/// Whether `p` starts at the root directory.
fn rooted(p: &[u8]) -> (r: bool)
    ensures
        r == is_rooted(p@),
{
    p.len() > 0 && p[0] == SLASH
}

/// Whether `p` starts with the name `.`.
fn here(p: &[u8]) -> (r: bool)
    ensures
        r == starts_here(p@),
{
    p.len() > 0 && p[0] == DOT && (p.len() == 1 || p[1] == SLASH)
}

/// Whether `a` and `b` are the same path.
pub fn same_path(a: &[u8], b: &[u8]) -> (r: bool)
    ensures
        r == is_same_path(a@, b@),
{
    if rooted(a) != rooted(b) || here(a) != here(b) {
        return false;
    }
    let x = split_names(a);
    let y = split_names(b);
    if x.len() != y.len() {
        assert(names(a@).len() != names(b@).len());
        return false;
    }
    let mut i: usize = 0;
    while i < x.len()
        invariant
            i <= x@.len() == y@.len(),
            bytes_of(x@) == names(a@),
            bytes_of(y@) == names(b@),
            forall|j: int| 0 <= j < i ==> #[trigger] bytes_of(x@)[j] == bytes_of(y@)[j],
        decreases x@.len() - i,
    {
        if !same_bytes(x[i].as_slice(), y[i].as_slice()) {
            assert(bytes_of(x@)[i as int] != bytes_of(y@)[i as int]);
            return false;
        }
        assert(bytes_of(x@)[i as int] == bytes_of(y@)[i as int]);
        i = i + 1;
    }
    assert(bytes_of(x@) =~= bytes_of(y@));
    true
}

/// The last name on the path `p`, if there is one and it is not `..`.
pub fn file_name(p: &[u8]) -> (r: Option<Vec<u8>>)
    ensures
        r is Some <==> last_name(p@) is Some,
        r is Some ==> last_name(p@) == Some(r->0@),
{
    let mut n = split_names(p);
    proof {
        assert(n@.len() > 0 ==> bytes_of(n@).last() == n@.last()@);
    }
    match n.pop() {
        Some(name) => {
            if name.len() == 2 && name[0] == DOT && name[1] == DOT {
                assert(name@ =~= seq![DOT, DOT]);
                None
            } else {
                assert(name@ != seq![DOT, DOT]) by {
                    if name@ == seq![DOT, DOT] {
                        assert(name@.len() == 2 && name@[0] == DOT && name@[1] == DOT);
                    }
                }
                Some(name)
            }
        },
        None => None,
    }
}

/// Whether `a` and `b` end in the same name, or both in none.
pub fn same_file_name(a: &[u8], b: &[u8]) -> (r: bool)
    ensures
        r == (last_name(a@) == last_name(b@)),
{
    match (file_name(a), file_name(b)) {
        (Some(x), Some(y)) => same_bytes(x.as_slice(), y.as_slice()),
        (None, None) => true,
        _ => false,
    }
}

/// The path to the relative path `name` in the directory `base`.
pub(crate) fn join(base: Vec<u8>, name: &[u8]) -> (p: Vec<u8>)
    ensures
        p@ == joined(base@, name@),
{
    let mut p = base;
    if p.len() > 0 && p[p.len() - 1] != SLASH {
        p.push(SLASH);
    }
    let ghost start = p@;
    let mut i: usize = 0;
    while i < name.len()
        invariant
            i <= name@.len(),
            p@ == start + name@.take(i as int),
        decreases name@.len() - i,
    {
        p.push(name[i]);
        i = i + 1;
        assert(p@ =~= start + name@.take(i as int));
    }
    assert(name@.take(i as int) =~= name@);
    p
}

proof fn lemma_name_len_before_slash(p: Seq<u8>, rest: Seq<u8>)
    ensures
        name_len(p.push(SLASH) + rest) == name_len(p),
    decreases p.len(),
{
    let q = p.push(SLASH) + rest;
    if p.len() == 0 {
        assert(q[0] == SLASH);
    } else {
        assert(q[0] == p[0]);
        assert(q.drop_first() =~= p.drop_first().push(SLASH) + rest);
        lemma_name_len_before_slash(p.drop_first(), rest);
    }
}

proof fn lemma_name_len_of_name(name: Seq<u8>)
    requires
        forall|i: int| 0 <= i < name.len() ==> #[trigger] name[i] != SLASH,
    ensures
        name_len(name) == name.len(),
    decreases name.len(),
{
    if name.len() > 0 {
        lemma_name_len_of_name(name.drop_first());
    }
}

/// A slash parts the names before it from the names after it.
pub proof fn law_slash_parts_names(p: Seq<u8>, rest: Seq<u8>)
    ensures
        names(p.push(SLASH) + rest) == names(p) + names(rest),
    decreases p.len(),
{
    let q = p.push(SLASH) + rest;
    if p.len() == 0 {
        assert(q.drop_first() =~= rest);
        assert(names(p) + names(rest) =~= names(rest));
    } else if p[0] == SLASH {
        law_slash_parts_names(p.drop_first(), rest);
        assert(q.drop_first() =~= p.drop_first().push(SLASH) + rest);
    } else {
        let n = name_len(p) as int;
        lemma_name_len(p);
        lemma_name_len_before_slash(p, rest);
        law_slash_parts_names(p.skip(n), rest);
        assert(q.take(n) =~= p.take(n));
        assert(q.skip(n) =~= p.skip(n).push(SLASH) + rest);
        assert(q[0] == p[0]);
        assert((seq![p.take(n)] + names(p.skip(n))) + names(rest) =~= seq![p.take(n)] + (names(
            p.skip(n),
        ) + names(rest)));
    }
}

/// Whether `name` can stand between two slashes as a name.
pub open spec fn is_name(name: Seq<u8>) -> bool {
    &&& name.len() > 0
    &&& name != seq![DOT]
    &&& forall|i: int| 0 <= i < name.len() ==> #[trigger] name[i] != SLASH
}

/// A path without a slash has itself for its only name; nothing and `.` have
/// no name.
pub proof fn law_names_without_slash(name: Seq<u8>)
    requires
        forall|i: int| 0 <= i < name.len() ==> #[trigger] name[i] != SLASH,
    ensures
        is_name(name) ==> names(name) == seq![name],
        !is_name(name) ==> names(name) == Seq::<Seq<u8>>::empty(),
{
    lemma_name_len_of_name(name);
    if name.len() > 0 {
        assert(name.take(name.len() as int) =~= name);
        assert(name.skip(name.len() as int) =~= Seq::empty());
        assert(seq![name] + names(Seq::empty()) =~= seq![name]);
    }
}

proof fn lemma_name_has_no_slash(p: Seq<u8>)
    ensures
        forall|i: int| 0 <= i < name_len(p) && i < p.len() ==> #[trigger] p[i] != SLASH,
    decreases p.len(),
{
    if p.len() > 0 && p[0] != SLASH {
        lemma_name_has_no_slash(p.drop_first());
        assert forall|i: int| 0 <= i < name_len(p) && i < p.len() implies #[trigger] p[i] != SLASH by {
            if i > 0 {
                assert(p[i] == p.drop_first()[i - 1]);
            }
        }
    }
}

/// What stands on a path as a name is a name.
pub proof fn law_names_are_names(p: Seq<u8>, i: int)
    requires
        0 <= i < names(p).len(),
    ensures
        is_name(names(p)[i]),
    decreases p.len(),
{
    if p.len() > 0 && p[0] == SLASH {
        law_names_are_names(p.drop_first(), i);
    } else if p.len() > 0 {
        let n = name_len(p) as int;
        lemma_name_len(p);
        lemma_name_has_no_slash(p);
        if p.take(n) == seq![DOT] {
            law_names_are_names(p.skip(n), i);
        } else if i > 0 {
            law_names_are_names(p.skip(n), i - 1);
        } else {
            assert forall|j: int| 0 <= j < n implies #[trigger] p.take(n)[j] != SLASH by {
                assert(p.take(n)[j] == p[j]);
            }
        }
    }
}

/// The path to `name` in a directory has the names of the directory and then
/// those of `name`; it starts with the path of the directory and ends in
/// `name`, with one slash in between at most.
pub proof fn law_joined_has_the_names_of_both(base: Seq<u8>, name: Seq<u8>)
    ensures
        names(joined(base, name)) == names(base) + names(name),
        joined(base, name).take(base.len() as int) == base,
        joined(base, name).skip(joined(base, name).len() - name.len()) == name,
        joined(base, name).len() <= base.len() + 1 + name.len(),
        base.len() > 0 ==> is_rooted(joined(base, name)) == is_rooted(base),
        base.len() == 0 ==> joined(base, name) == name,
{
    let p = joined(base, name);
    assert(p.take(base.len() as int) =~= base);
    assert(p.skip(p.len() - name.len()) =~= name);
    if base.len() == 0 {
        assert(p =~= name);
        assert(names(base) + names(name) =~= names(name));
    } else {
        assert(p[0] == base[0]);
        if base.last() == SLASH {
            let b = base.drop_last();
            assert(base =~= b.push(SLASH) + Seq::empty());
            assert(p =~= b.push(SLASH) + name);
            law_slash_parts_names(b, name);
            law_slash_parts_names(b, Seq::empty());
            assert(names(b) + names(Seq::empty()) =~= names(b));
        } else {
            law_slash_parts_names(base, name);
        }
    }
}

/// The path to a name in a directory ends in that name, if it is not `..`.
pub proof fn law_joined_ends_in_the_name(base: Seq<u8>, name: Seq<u8>)
    requires
        is_name(name),
    ensures
        name != seq![46u8, 46u8] ==> last_name(joined(base, name)) == Some(name),
        name == seq![46u8, 46u8] ==> last_name(joined(base, name)) is None,
{
    law_joined_has_the_names_of_both(base, name);
    law_names_without_slash(name);
    assert((names(base) + seq![name]).last() == name);
}

/// Paths are the same only if all their names are, the last one too, and if
/// both or neither start at the root directory. For paths that start there,
/// the names are all that counts.
pub proof fn law_same_path_has_the_same_names(a: Seq<u8>, b: Seq<u8>)
    ensures
        is_same_path(a, b) ==> names(a) == names(b),
        is_same_path(a, b) ==> last_name(a) == last_name(b),
        is_same_path(a, b) ==> is_rooted(a) == is_rooted(b),
        a.len() > 0 && b.len() > 0 && a[0] == 47 && b[0] == 47 ==> (is_same_path(a, b) <==> names(a)
            == names(b)),
{
}

/// Every path is the same as itself, and what is the same as the same path is
/// the same.
pub proof fn law_same_path_is_an_equivalence(a: Seq<u8>, b: Seq<u8>, c: Seq<u8>)
    ensures
        is_same_path(a, a),
        is_same_path(a, b) == is_same_path(b, a),
        is_same_path(a, b) && is_same_path(b, c) ==> is_same_path(a, c),
{
}

/// A path that starts at `.` is not the same as the one without the `.`.
pub proof fn law_dot_in_front_counts(p: Seq<u8>)
    requires
        p.len() == 0 || p[0] != 46 || (p.len() > 1 && p[1] != 47),
    ensures
        !is_same_path(seq![46u8, 47u8] + p, p),
{
    let q = seq![46u8, 47u8] + p;
    assert(q[0] == 46 && q[1] == 47);
}

/// A text of ASCII characters without a slash is the text of a name.
pub proof fn lemma_ascii_name(s: Seq<char>)
    requires
        s.len() > 1,
        forall|i: int| 0 <= i < s.len() ==> '\0' <= #[trigger] s[i] <= '\u{7f}' && s[i] != '/',
    ensures
        is_name(vstd::utf8::encode_utf8(s)),
        names(vstd::utf8::encode_utf8(s)) == seq![vstd::utf8::encode_utf8(s)],
{
    let b = vstd::utf8::encode_utf8(s);
    vstd::utf8::is_ascii_chars_encode_utf8(s);
    assert forall|i: int| 0 <= i < b.len() implies #[trigger] b[i] != SLASH by {
        assert(s[i] as u8 == b[i]);
    }
    assert(b.len() != seq![DOT].len());
    law_names_without_slash(b);
}

} // verus!
