//! The order of byte strings and of sequences of points, by which commitments and
//! ciphertexts are sorted.
use crate::curve::{g1_point, g2_point};
use crate::order_scan::{first_difference, lemma_take_all, length};
use std::cmp::Ordering;
use vstd::prelude::*;

verus! {

/// A place in a sequence, as a number.
pub open spec fn place(i: usize) -> int {
    i as int
}

/// The byte strings `a` and `b` agree before place `i` and differ there.
pub open spec fn differ_at(a: Seq<u8>, b: Seq<u8>, i: usize) -> bool {
    i < a.len() && i < b.len() && a.take(i as int) == b.take(i as int) && a[i as int]
        != b[i as int]
}

/// One of the byte strings `a` and `b` is the start of the other.
pub open spec fn one_starts_other(a: Seq<u8>, b: Seq<u8>) -> bool {
    if a.len() <= b.len() {
        a == b.take(a.len() as int)
    } else {
        b == a.take(b.len() as int)
    }
}

/// The sequences `a` and `b` of logarithms agree before place `i` and differ there.
pub open spec fn points_differ_at(a: Seq<int>, b: Seq<int>, i: usize) -> bool {
    i < a.len() && i < b.len() && a.take(i as int) == b.take(i as int) && a[i as int]
        != b[i as int]
}

/// How the byte strings `a` and `b` compare: the first byte that differs decides, and a
/// string comes before those that it is the start of.
pub open spec fn lexicographic(a: Seq<u8>, b: Seq<u8>) -> Ordering
    decreases a.len(),
{
    if a.len() == 0 {
        if b.len() == 0 {
            Ordering::Equal
        } else {
            Ordering::Less
        }
    } else if b.len() == 0 {
        Ordering::Greater
    } else if a[0] < b[0] {
        Ordering::Less
    } else if a[0] > b[0] {
        Ordering::Greater
    } else {
        lexicographic(a.skip(1), b.skip(1))
    }
}

/// The first comparison, or the second where the first finds no difference.
pub open spec fn and_then(first: Ordering, second: Ordering) -> Ordering {
    match first {
        Ordering::Equal => second,
        _ => first,
    }
}

/// How two sequences of points of `G1`, given by their logarithms, compare where they are of
/// one length: as the encodings of the first two points that differ.
pub open spec fn first_unequal(a: Seq<int>, b: Seq<int>) -> Ordering
    decreases a.len(),
{
    if a.len() == 0 || b.len() == 0 {
        Ordering::Equal
    } else if a[0] != b[0] {
        lexicographic(g1_point(a[0]), g1_point(b[0]))
    } else {
        first_unequal(a.skip(1), b.skip(1))
    }
}

/// How two sequences of points of `G1`, given by their logarithms, compare: the shorter
/// first, and those of one length by the first two points that differ.
pub open spec fn points_order(a: Seq<int>, b: Seq<int>) -> Ordering {
    if a.len() < b.len() {
        Ordering::Less
    } else if a.len() > b.len() {
        Ordering::Greater
    } else {
        first_unequal(a, b)
    }
}

/// Two byte strings that agree up to place `i` compare by what follows.
pub proof fn lemma_lexicographic_prefix(a: Seq<u8>, b: Seq<u8>, i: int)
    requires
        0 <= i <= a.len(),
        i <= b.len(),
        a.take(i) == b.take(i),
    ensures
        lexicographic(a, b) == lexicographic(a.skip(i), b.skip(i)),
    decreases i,
{
    if i > 0 {
        assert(a[0] == a.take(i)[0]);
        assert(b[0] == b.take(i)[0]);
        assert(a.skip(1).take(i - 1) =~= a.take(i).skip(1));
        assert(b.skip(1).take(i - 1) =~= b.take(i).skip(1));
        lemma_lexicographic_prefix(a.skip(1), b.skip(1), i - 1);
        assert(a.skip(1).skip(i - 1) =~= a.skip(i));
        assert(b.skip(1).skip(i - 1) =~= b.skip(i));
    } else {
        assert(a.skip(0) =~= a);
        assert(b.skip(0) =~= b);
    }
}

/// Byte strings compare as equal exactly where they are the same.
pub proof fn lemma_lexicographic_equal(a: Seq<u8>, b: Seq<u8>)
    ensures
        (lexicographic(a, b) == Ordering::Equal) == (a == b),
    decreases a.len(),
{
    if a.len() > 0 && b.len() > 0 {
        lemma_lexicographic_equal(a.skip(1), b.skip(1));
        if a[0] == b[0] && a.skip(1) == b.skip(1) {
            assert(a =~= seq![a[0]] + a.skip(1));
            assert(b =~= seq![b[0]] + b.skip(1));
        }
    } else if a.len() == 0 && b.len() == 0 {
        assert(a =~= b);
    }
}

/// Two byte strings that first differ at place `i` compare as their bytes there do.
pub proof fn lemma_lexicographic_at(a: Seq<u8>, b: Seq<u8>, i: usize)
    requires
        differ_at(a, b, i),
    ensures
        lexicographic(a, b) == if a[place(i)] < b[place(i)] {
            Ordering::Less
        } else {
            Ordering::Greater
        },
{
    lemma_lexicographic_prefix(a, b, place(i));
    assert(a.skip(place(i))[0] == a[place(i)]);
    assert(b.skip(place(i))[0] == b[place(i)]);
}

/// Two byte strings of which one is the start of the other compare as their lengths do.
pub proof fn lemma_lexicographic_start(a: Seq<u8>, b: Seq<u8>)
    requires
        one_starts_other(a, b),
    ensures
        lexicographic(a, b) == if a.len() < b.len() {
            Ordering::Less
        } else if a.len() > b.len() {
            Ordering::Greater
        } else {
            Ordering::Equal
        },
{
    if a.len() <= b.len() {
        lemma_take_all(a);
        lemma_lexicographic_prefix(a, b, length(a));
    } else {
        lemma_take_all(b);
        lemma_lexicographic_prefix(a, b, length(b));
    }
}

/// Two sequences of points that agree up to place `i` compare by what follows.
pub proof fn lemma_first_unequal_prefix(a: Seq<int>, b: Seq<int>, i: int)
    requires
        0 <= i <= a.len(),
        i <= b.len(),
        a.take(i) == b.take(i),
    ensures
        first_unequal(a, b) == first_unequal(a.skip(i), b.skip(i)),
    decreases i,
{
    if i > 0 {
        assert(a[0] == a.take(i)[0]);
        assert(b[0] == b.take(i)[0]);
        assert(a.skip(1).take(i - 1) =~= a.take(i).skip(1));
        assert(b.skip(1).take(i - 1) =~= b.take(i).skip(1));
        lemma_first_unequal_prefix(a.skip(1), b.skip(1), i - 1);
        assert(a.skip(1).skip(i - 1) =~= a.skip(i));
        assert(b.skip(1).skip(i - 1) =~= b.skip(i));
    } else {
        assert(a.skip(0) =~= a);
        assert(b.skip(0) =~= b);
    }
}

/// Two sequences of points that first differ at place `i` compare as the encodings of
/// their points there do.
pub proof fn lemma_first_unequal_at(a: Seq<int>, b: Seq<int>, i: usize)
    requires
        points_differ_at(a, b, i),
    ensures
        first_unequal(a, b) == lexicographic(g1_point(a[place(i)]), g1_point(b[place(i)])),
{
    lemma_first_unequal_prefix(a, b, place(i));
    assert(a.skip(place(i))[0] == a[place(i)]);
    assert(b.skip(place(i))[0] == b[place(i)]);
}

/// The sequences `a` and `b` of logarithms first differ in a place where `a` has `x` and `b`
/// has `y`.
pub open spec fn differing_points(a: Seq<int>, b: Seq<int>, x: int, y: int) -> bool {
    exists|i: usize| points_differ_at(a, b, i) && a[place(i)] == x && b[place(i)] == y
}

/// Two sequences of points that first differ where one has `x` and the other `y` compare as
/// the encodings of `x` and `y`.
pub proof fn lemma_first_unequal_points(a: Seq<int>, b: Seq<int>, x: int, y: int)
    requires
        differing_points(a, b, x, y),
    ensures
        first_unequal(a, b) == lexicographic(g1_point(x), g1_point(y)),
{
    let i = choose|i: usize| points_differ_at(a, b, i) && a[place(i)] == x && b[place(i)] == y;
    lemma_first_unequal_at(a, b, i);
}

/// How two commitments to bivariate polynomials compare, given their degrees and the
/// logarithms of their points: the lower degree first, and those of one degree by the first
/// two points that differ.
pub open spec fn bivar_order(da: int, a: Seq<int>, db: int, b: Seq<int>) -> Ordering {
    if da < db {
        Ordering::Less
    } else if da > db {
        Ordering::Greater
    } else {
        first_unequal(a, b)
    }
}

/// How two ciphertexts compare, given the logarithms of their points and their bytes: by
/// the encoding of the first part, then by the bytes, then by the encoding of the last part.
pub open spec fn cipher_order(
    u0: int,
    v0: Seq<u8>,
    w0: int,
    u1: int,
    v1: Seq<u8>,
    w1: int,
) -> Ordering {
    and_then(
        lexicographic(g1_point(u0), g1_point(u1)),
        and_then(lexicographic(v0, v1), lexicographic(g2_point(w0), g2_point(w1))),
    )
}

/// A sequence of points compares with itself as equal.
pub proof fn lemma_first_unequal_same(a: Seq<int>)
    ensures
        first_unequal(a, a) == Ordering::Equal,
    decreases a.len(),
{
    if a.len() > 0 {
        lemma_first_unequal_same(a.skip(1));
    }
}

/// How the two byte strings compare.
pub fn compare_bytes(a: &[u8], b: &[u8]) -> (r: Ordering)
    ensures
        r == lexicographic(a@, b@),
        (r == Ordering::Equal) == (a@ == b@),
{
    proof {
        lemma_lexicographic_equal(a@, b@);
    }
    match first_difference(a, b) {
        Some(i) => {
            proof {
                lemma_lexicographic_at(a@, b@, i);
            }
            if a[i] < b[i] {
                Ordering::Less
            } else {
                Ordering::Greater
            }
        },
        None => {
            proof {
                lemma_lexicographic_start(a@, b@);
            }
            if a.len() < b.len() {
                Ordering::Less
            } else if a.len() > b.len() {
                Ordering::Greater
            } else {
                Ordering::Equal
            }
        },
    }
}

} // verus!
