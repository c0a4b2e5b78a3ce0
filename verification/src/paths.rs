//! Paths as byte strings with `/` separators: file names, extensions,
//! directory-prefix tests, and the ordering in which bundled files appear.

use vstd::prelude::*;

verus! {

/// The byte that separates path components.
pub const SLASH: u8 = '/' as u8;

/// The byte that separates a file name from its extension.
pub const DOT: u8 = '.' as u8;

/// The file name of a path: its longest suffix with no separator in it.
pub open spec fn file_name_of(p: Seq<u8>) -> Seq<u8>
    decreases p.len(),
{
    if p.len() == 0 {
        Seq::empty()
    } else if p.last() == SLASH {
        Seq::empty()
    } else {
        file_name_of(p.drop_last()).push(p.last())
    }
}

/// The extension of a file name: what follows its last `.`, unless the only
/// `.` is the leading byte of a hidden file, in which case there is none.
pub open spec fn extension_of(name: Seq<u8>) -> Option<Seq<u8>>
    decreases name.len(),
{
    if name.len() <= 1 {
        None
    } else if name.last() == DOT {
        Some(Seq::empty())
    } else {
        match extension_of(name.drop_last()) {
            None => None,
            Some(e) => Some(e.push(name.last())),
        }
    }
}

/// Whether the directory `dir` is an ancestor of the path `p`: the empty
/// directory (the root itself) is an ancestor of everything, and otherwise
/// `p` must continue `dir` with a separator.
pub open spec fn is_ancestor_dir(dir: Seq<u8>, p: Seq<u8>) -> bool {
    dir.len() == 0 || (dir.len() < p.len() && p.subrange(0, dir.len() as int) == dir && p[dir.len()
        as int] == SLASH)
}

/// How many separator bytes a path holds.
pub open spec fn separator_count(p: Seq<u8>) -> nat
    decreases p.len(),
{
    if p.len() == 0 {
        0
    } else {
        separator_count(p.drop_last()) + if p.last() == SLASH {
            1nat
        } else {
            0nat
        }
    }
}

/// The depth of a directory path: its number of components.
pub open spec fn dir_depth(dir: Seq<u8>) -> nat {
    if dir.len() == 0 {
        0
    } else {
        separator_count(dir) + 1
    }
}

/// Separator counts add over concatenation.
proof fn lemma_separator_count_concat(a: Seq<u8>, b: Seq<u8>)
    ensures
        separator_count(a + b) == separator_count(a) + separator_count(b),
    decreases b.len(),
{
    if b.len() == 0 {
        assert(a + b =~= a);
    } else {
        assert((a + b).drop_last() =~= a + b.drop_last());
        assert((a + b).last() == b.last());
        lemma_separator_count_concat(a, b.drop_last());
    }
}

/// A path with a separator at some index holds at least one separator.
proof fn lemma_separator_count_positive(s: Seq<u8>, i: int)
    requires
        0 <= i < s.len(),
        s[i] == SLASH,
    ensures
        separator_count(s) >= 1,
    decreases s.len(),
{
    if i < s.len() - 1 {
        assert(s.drop_last()[i] == s[i]);
        lemma_separator_count_positive(s.drop_last(), i);
    }
}

/// Two ancestor directories of one path with the same depth are the same
/// directory: a longer ancestor would hold at least one more separator.
pub proof fn lemma_ancestor_same_depth_equal(d1: Seq<u8>, d2: Seq<u8>, p: Seq<u8>)
    requires
        is_ancestor_dir(d1, p),
        is_ancestor_dir(d2, p),
        dir_depth(d1) == dir_depth(d2),
    ensures
        d1 == d2,
{
    if d1.len() == 0 || d2.len() == 0 {
        assert(d1.len() == 0 && d2.len() == 0);
        assert(d1 =~= d2);
    } else {
        let a = d1.len() as int;
        let b = d2.len() as int;
        if a < b {
            lemma_ancestor_strictly_deeper(d1, d2, p);
        } else if b < a {
            lemma_ancestor_strictly_deeper(d2, d1, p);
        } else {
            assert(d1 =~= p.subrange(0, a));
            assert(d2 =~= p.subrange(0, b));
        }
    }
}

/// Of two non-empty ancestors of one path, the longer is strictly deeper.
proof fn lemma_ancestor_strictly_deeper(d1: Seq<u8>, d2: Seq<u8>, p: Seq<u8>)
    requires
        is_ancestor_dir(d1, p),
        is_ancestor_dir(d2, p),
        0 < d1.len() < d2.len(),
    ensures
        dir_depth(d1) < dir_depth(d2),
{
    let a = d1.len() as int;
    let b = d2.len() as int;
    let mid = p.subrange(a, b);
    assert(d2 =~= d1 + mid);
    lemma_separator_count_concat(d1, mid);
    assert(mid[0] == p[a]);
    lemma_separator_count_positive(mid, 0);
}

/// The sort key of one path byte: the separator orders below every other
/// byte, so that comparing byte-by-byte agrees with comparing the paths
/// component by component.
pub open spec fn byte_key(b: u8) -> int {
    if b == SLASH {
        -1
    } else {
        b as int
    }
}

/// Lexicographic order on paths, byte by byte over `byte_key`.
pub open spec fn path_le(a: Seq<u8>, b: Seq<u8>) -> bool
    decreases a.len(),
{
    if a.len() == 0 {
        true
    } else if b.len() == 0 {
        false
    } else if byte_key(a.first()) < byte_key(b.first()) {
        true
    } else if byte_key(a.first()) > byte_key(b.first()) {
        false
    } else {
        path_le(a.drop_first(), b.drop_first())
    }
}

/// Equal keys mean equal bytes.
proof fn lemma_byte_key_injective(a: u8, b: u8)
    ensures
        byte_key(a) == byte_key(b) ==> a == b,
{
}

/// `path_le` holds of every path and itself.
pub proof fn lemma_path_le_reflexive(a: Seq<u8>)
    ensures
        path_le(a, a),
    decreases a.len(),
{
    if a.len() > 0 {
        lemma_path_le_reflexive(a.drop_first());
    }
}

/// Two paths below one another are equal.
pub proof fn lemma_path_le_antisymmetric(a: Seq<u8>, b: Seq<u8>)
    requires
        path_le(a, b),
        path_le(b, a),
    ensures
        a == b,
    decreases a.len(),
{
    if a.len() == 0 {
        assert(b.len() == 0);
        assert(a =~= b);
    } else {
        assert(b.len() > 0);
        assert(byte_key(a.first()) == byte_key(b.first()));
        lemma_byte_key_injective(a.first(), b.first());
        lemma_path_le_antisymmetric(a.drop_first(), b.drop_first());
        assert(a.drop_first().len() == b.drop_first().len());
        assert(a.len() == b.len());
        assert forall|j: int| 0 <= j < a.len() implies a[j] == b[j] by {
            if j > 0 {
                assert(a.drop_first()[j - 1] == b.drop_first()[j - 1]);
            }
        }
        assert(a =~= b);
    }
}

/// `path_le` carries over a middle path.
pub proof fn lemma_path_le_transitive(a: Seq<u8>, b: Seq<u8>, c: Seq<u8>)
    requires
        path_le(a, b),
        path_le(b, c),
    ensures
        path_le(a, c),
    decreases a.len(),
{
    if a.len() > 0 && b.len() > 0 && c.len() > 0 {
        if byte_key(a.first()) == byte_key(b.first()) && byte_key(b.first()) == byte_key(
            c.first(),
        ) {
            lemma_path_le_transitive(a.drop_first(), b.drop_first(), c.drop_first());
        }
    }
}

/// Any two paths are ordered one way or the other.
pub proof fn lemma_path_le_total(a: Seq<u8>, b: Seq<u8>)
    ensures
        path_le(a, b) || path_le(b, a),
    decreases a.len(),
{
    if a.len() > 0 && b.len() > 0 && byte_key(a.first()) == byte_key(b.first()) {
        lemma_path_le_total(a.drop_first(), b.drop_first());
    }
}

/// `path_le` as a binary relation value, for use with vstd's sorting lemmas.
pub open spec fn path_order() -> spec_fn(Seq<u8>, Seq<u8>) -> bool {
    |a: Seq<u8>, b: Seq<u8>| path_le(a, b)
}

/// `path_order` is a total ordering in the sense of vstd's relation library.
pub proof fn lemma_path_order_total_ordering()
    ensures
        vstd::relations::total_ordering(path_order()),
{
    let r = path_order();
    assert forall|a: Seq<u8>| #[trigger] r(a, a) by {
        lemma_path_le_reflexive(a);
    }
    assert forall|a: Seq<u8>, b: Seq<u8>| #[trigger] r(a, b) && #[trigger] r(b, a) implies a == b
        by {
        lemma_path_le_antisymmetric(a, b);
    }
    assert forall|a: Seq<u8>, b: Seq<u8>, c: Seq<u8>| #[trigger] r(a, b) && #[trigger] r(b, c)
        implies r(a, c) by {
        lemma_path_le_transitive(a, b, c);
    }
    assert forall|a: Seq<u8>, b: Seq<u8>| !(#[trigger] r(a, b)) implies r(b, a) by {
        lemma_path_le_total(a, b);
    }
}

/// Dropping equal first bytes keeps the order.
proof fn lemma_path_le_skip(a: Seq<u8>, b: Seq<u8>, i: int)
    requires
        0 <= i <= a.len(),
        0 <= i <= b.len(),
        forall|j: int| 0 <= j < i ==> a[j] == b[j],
    ensures
        path_le(a, b) == path_le(a.skip(i), b.skip(i)),
    decreases i,
{
    if i > 0 {
        assert(a.len() > 0 && b.len() > 0);
        assert(a.first() == b.first());
        assert(a.drop_first() =~= a.skip(1));
        assert(b.drop_first() =~= b.skip(1));
        assert(a.skip(1).skip(i - 1) =~= a.skip(i));
        assert(b.skip(1).skip(i - 1) =~= b.skip(i));
        lemma_path_le_skip(a.skip(1), b.skip(1), i - 1);
    } else {
        assert(a.skip(0) =~= a);
        assert(b.skip(0) =~= b);
    }
}

/// A byte-for-byte copy of a byte vector.
pub fn clone_bytes(v: &Vec<u8>) -> (r: Vec<u8>)
    ensures
        r@ == v@,
{
    let r = v.clone();
    proof {
        assert(r@ =~= v@);
    }
    r
}

/// Whether two byte strings hold the same bytes.
pub fn bytes_eq(a: &Vec<u8>, b: &Vec<u8>) -> (r: bool)
    ensures
        r == (a@ == b@),
{
    if a.len() != b.len() {
        return false;
    }
    let mut i: usize = 0;
    while i < a.len()
        invariant
            i <= a.len(),
            a.len() == b.len(),
            forall|j: int| 0 <= j < i ==> a@[j] == b@[j],
        decreases a.len() - i,
    {
        if a[i] != b[i] {
            return false;
        }
        i = i + 1;
    }
    proof {
        assert(a@ =~= b@);
    }
    true
}

/// The bytes of `v` from `from` (inclusive) to `to` (exclusive).
pub fn subvec(v: &Vec<u8>, from: usize, to: usize) -> (r: Vec<u8>)
    requires
        from <= to <= v@.len(),
    ensures
        r@ == v@.subrange(from as int, to as int),
{
    let mut r: Vec<u8> = Vec::new();
    let mut i: usize = from;
    while i < to
        invariant
            from <= i <= to <= v@.len(),
            r@ == v@.subrange(from as int, i as int),
        decreases to - i,
    {
        r.push(v[i]);
        proof {
            assert(r@ =~= v@.subrange(from as int, i as int + 1));
        }
        i = i + 1;
    }
    r
}

/// The index of the last occurrence of `x` in `v`, if any.
pub fn last_index_of(v: &Vec<u8>, x: u8) -> (r: Option<usize>)
    ensures
        match r {
            Some(i) => i < v@.len() && v@[i as int] == x && forall|j: int|
                i < j < v@.len() ==> v@[j] != x,
            None => forall|j: int| 0 <= j < v@.len() ==> v@[j] != x,
        },
{
    let mut i: usize = v.len();
    while i > 0
        invariant
            i <= v@.len(),
            forall|j: int| i <= j < v@.len() ==> v@[j] != x,
        decreases i,
    {
        i = i - 1;
        if v[i] == x {
            return Some(i);
        }
    }
    None
}

/// A suffix that starts just after a separator (or at the start of the path)
/// and holds no separator is the path's file name.
proof fn lemma_file_name_suffix(p: Seq<u8>, k: int)
    requires
        0 <= k <= p.len(),
        k == 0 || p[k - 1] == SLASH,
        forall|j: int| k <= j < p.len() ==> p[j] != SLASH,
    ensures
        file_name_of(p) == p.subrange(k, p.len() as int),
    decreases p.len(),
{
    if k == p.len() {
        if p.len() == 0 {
            assert(file_name_of(p) =~= p.subrange(k, p.len() as int));
        } else {
            assert(p.last() == SLASH);
            assert(file_name_of(p) =~= p.subrange(k, p.len() as int));
        }
    } else {
        assert(p.last() != SLASH);
        lemma_file_name_suffix(p.drop_last(), k);
        assert(p.drop_last().subrange(k, p.drop_last().len() as int) =~= p.subrange(
            k,
            p.len() - 1,
        ));
        assert(file_name_of(p) =~= p.subrange(k, p.len() as int));
    }
}

/// The file name of a byte path.
pub fn file_name_bytes(p: &Vec<u8>) -> (r: Vec<u8>)
    ensures
        r@ == file_name_of(p@),
{
    let n = p.len();
    let start: usize = match last_index_of(p, SLASH) {
        Some(i) => {
            proof {
                assert(i < n);
            }
            i + 1
        },
        None => 0,
    };
    proof {
        lemma_file_name_suffix(p@, start as int);
    }
    subvec(p, start, p.len())
}

/// A suffix after a `.` that stands after the first byte, with no later `.`,
/// is the file name's extension.
proof fn lemma_extension_suffix(name: Seq<u8>, i: int)
    requires
        1 <= i < name.len(),
        name[i] == DOT,
        forall|j: int| i < j < name.len() ==> name[j] != DOT,
    ensures
        extension_of(name) == Some(name.subrange(i + 1, name.len() as int)),
    decreases name.len(),
{
    if i == name.len() - 1 {
        assert(name.last() == DOT);
        assert(name.subrange(i + 1, name.len() as int) =~= Seq::<u8>::empty());
    } else {
        assert(name.last() != DOT);
        lemma_extension_suffix(name.drop_last(), i);
        assert(name.drop_last().subrange(i + 1, name.drop_last().len() as int) =~= name.subrange(
            i + 1,
            name.len() - 1,
        ));
        assert(name.subrange(i + 1, name.len() - 1).push(name.last()) =~= name.subrange(
            i + 1,
            name.len() as int,
        ));
    }
}

/// A file name with no `.` past its first byte has no extension.
proof fn lemma_extension_none(name: Seq<u8>)
    requires
        forall|j: int| 1 <= j < name.len() ==> name[j] != DOT,
    ensures
        extension_of(name) is None,
    decreases name.len(),
{
    if name.len() > 1 {
        assert(name.last() != DOT);
        lemma_extension_none(name.drop_last());
    }
}

/// The extension of a file name, if it has one.
pub fn extension_bytes(name: &Vec<u8>) -> (r: Option<Vec<u8>>)
    ensures
        match r {
            Some(e) => extension_of(name@) == Some(e@),
            None => extension_of(name@) is None,
        },
{
    let n = name.len();
    match last_index_of(name, DOT) {
        Some(i) => {
            proof {
                assert(i < n);
            }
            if i == 0 {
                proof {
                    lemma_extension_none(name@);
                }
                None
            } else {
                proof {
                    lemma_extension_suffix(name@, i as int);
                }
                Some(subvec(name, i + 1, name.len()))
            }
        },
        None => {
            proof {
                lemma_extension_none(name@);
            }
            None
        },
    }
}

/// Decide `path_le` on two byte paths.
pub fn path_le_bytes(a: &Vec<u8>, b: &Vec<u8>) -> (r: bool)
    ensures
        r == path_le(a@, b@),
{
    let mut i: usize = 0;
    while i < a.len() && i < b.len()
        invariant_except_break
            i <= a.len(),
            i <= b.len(),
            forall|j: int| 0 <= j < i ==> a@[j] == b@[j],
        ensures
            i <= a.len(),
            i <= b.len(),
            forall|j: int| 0 <= j < i ==> a@[j] == b@[j],
            i == a.len() || i == b.len() || a@[i as int] != b@[i as int],
        decreases a.len() - i,
    {
        if a[i] != b[i] {
            break ;
        }
        i = i + 1;
    }
    proof {
        lemma_path_le_skip(a@, b@, i as int);
    }
    if i == a.len() {
        proof {
            assert(a@.skip(i as int) =~= Seq::<u8>::empty());
        }
        true
    } else if i == b.len() {
        proof {
            assert(b@.skip(i as int) =~= Seq::<u8>::empty());
            assert(a@.skip(i as int).len() > 0);
        }
        false
    } else {
        let x = a[i];
        let y = b[i];
        proof {
            assert(a@.skip(i as int).first() == a@[i as int]);
            assert(b@.skip(i as int).first() == b@[i as int]);
            lemma_byte_key_injective(x, y);
        }
        if x == SLASH {
            true
        } else if y == SLASH {
            false
        } else {
            x < y
        }
    }
}

} // verus!
