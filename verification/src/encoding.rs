//! The byte encoding of a ciphertext: the 48 bytes of its first part, the length of its
//! second part as eight little-endian bytes, the second part, and the 96 bytes of its third
//! part.
use crate::ciphertext::Ciphertext;
use crate::curve::{g1_valid, g2_valid, G1, G2};
use crate::error::Error;
use crate::field::le_value;
use vstd::arithmetic::power::{lemma_pow_increases, pow};
use vstd::prelude::*;
use vstd::slice::{slice_subrange, slice_to_vec};

verus! {

/// The `k` little-endian bytes of `n`.
pub open spec fn le_bytes(n: int, k: nat) -> Seq<u8>
    decreases k,
{
    if k == 0 {
        Seq::empty()
    } else {
        seq![(n % 256) as u8] + le_bytes(n / 256, (k - 1) as nat)
    }
}

/// The encoding of a ciphertext with the given encodings of its points and the given bytes.
pub open spec fn frame(u: Seq<u8>, v: Seq<u8>, w: Seq<u8>) -> Seq<u8> {
    u + le_bytes(v.len() as int, 8) + v + w
}

/// The bytes are the encoding of some ciphertext: they are long enough, the length that
/// they state is that of what lies between the two points, and the points decode.
pub open spec fn well_framed(b: Seq<u8>) -> bool {
    b.len() >= 152 && le_value(b.subrange(48, 56)) == b.len() - 152 && g1_valid(
        b.subrange(0, 48),
    ) && g2_valid(b.subrange(b.len() - 96, b.len() as int))
}

/// The `k` little-endian bytes of a number below `256^k` denote that number.
pub proof fn lemma_le_bytes_value(n: int, k: nat)
    requires
        0 <= n < pow(256, k),
    ensures
        le_bytes(n, k).len() == k,
        le_value(le_bytes(n, k)) == n,
    decreases k,
{
    reveal(pow);
    if k > 0 {
        let rest = le_bytes(n / 256, (k - 1) as nat);
        assert(pow(256, k) == 256 * pow(256, (k - 1) as nat));
        lemma_le_bytes_value(n / 256, (k - 1) as nat);
        assert(le_bytes(n, k).skip(1) =~= rest);
    } else {
        assert(pow(256, 0) == 1);
    }
}

/// The number of bytes is the first power of 256 that a little-endian value stays below.
pub proof fn lemma_le_value_bound(s: Seq<u8>)
    ensures
        0 <= le_value(s) < pow(256, s.len()),
    decreases s.len(),
{
    reveal(pow);
    if s.len() > 0 {
        lemma_le_value_bound(s.skip(1));
        assert(pow(256, s.len()) == 256 * pow(256, (s.len() - 1) as nat));
    } else {
        assert(pow(256, 0) == 1);
    }
}

/// Eight bytes hold the numbers below `2^64`.
pub proof fn lemma_eight_bytes()
    ensures
        pow(256, 8) == 0x1_0000_0000_0000_0000,
{
    reveal_with_fuel(pow, 9);
}

/// The parts of a frame are where they were put, and a frame of points that decode is
/// well framed.
pub proof fn law_frame_round_trip(u: Seq<u8>, v: Seq<u8>, w: Seq<u8>)
    requires
        u.len() == 48,
        w.len() == 96,
        v.len() < 0x1_0000_0000_0000_0000,
    ensures
        frame(u, v, w).len() == 152 + v.len(),
        frame(u, v, w).subrange(0, 48) == u,
        le_value(frame(u, v, w).subrange(48, 56)) == v.len(),
        frame(u, v, w).subrange(56, 56 + v.len() as int) == v,
        frame(u, v, w).subrange(56 + v.len() as int, 152 + v.len() as int) == w,
        g1_valid(u) && g2_valid(w) ==> well_framed(frame(u, v, w)),
{
    let f = frame(u, v, w);
    lemma_eight_bytes();
    lemma_le_bytes_value(v.len() as int, 8);
    assert(f.subrange(0, 48) =~= u);
    assert(f.subrange(48, 56) =~= le_bytes(v.len() as int, 8));
    assert(f.subrange(56, 56 + v.len() as int) =~= v);
    assert(f.subrange(56 + v.len() as int, 152 + v.len() as int) =~= w);
}

/// Appends the bytes to the vector.
fn append(out: &mut Vec<u8>, bytes: &[u8])
    ensures
        final(out)@ == old(out)@ + bytes@,
{
    let n = bytes.len();
    let mut i: usize = 0;
    while i < n
        invariant
            i <= n,
            n == bytes@.len(),
            out@ == old(out)@ + bytes@.take(i as int),
        decreases n - i,
    {
        out.push(bytes[i]);
        assert(bytes@.take(i + 1) =~= bytes@.take(i as int).push(bytes@[i as int]));
        i += 1;
    }
    assert(bytes@.take(n as int) =~= bytes@);
}

/// Appends the eight little-endian bytes of `n` to the vector.
fn append_length(out: &mut Vec<u8>, n: u64)
    ensures
        final(out)@ == old(out)@ + le_bytes(n as int, 8),
{
    let mut rest = n;
    let mut i: usize = 0;
    while i < 8
        invariant
            i <= 8,
            out@ + le_bytes(rest as int, (8 - i) as nat) == old(out)@ + le_bytes(n as int, 8),
        decreases 8 - i,
    {
        let ghost before = out@;
        out.push((rest % 256) as u8);
        proof {
            let tail = le_bytes(rest as int / 256, (8 - i - 1) as nat);
            assert(le_bytes(rest as int, (8 - i) as nat) == seq![(rest as int % 256) as u8]
                + tail);
            assert(out@ + tail =~= before + (seq![(rest as int % 256) as u8] + tail));
        }
        rest = rest / 256;
        i += 1;
    }
    assert(out@ + le_bytes(rest as int, 0) =~= out@);
}

/// The number that the eight bytes from place `start` on denote.
fn read_length(bytes: &[u8], start: usize) -> (r: u64)
    requires
        start + 8 <= bytes@.len(),
    ensures
        r == le_value(bytes@.subrange(start as int, start + 8)),
{
    let len = bytes.len();
    let ghost field = bytes@.subrange(start as int, start + 8);
    let mut value: u64 = 0;
    let mut i: usize = 8;
    proof {
        assert(field.skip(8) =~= Seq::<u8>::empty());
    }
    while i > 0
        invariant
            i <= 8,
            start + 8 <= len,
            len == bytes@.len(),
            field == bytes@.subrange(start as int, start + 8),
            value == le_value(field.skip(i as int)),
        decreases i,
    {
        i -= 1;
        proof {
            let above = field.skip(i + 1);
            lemma_le_value_bound(above);
            assert(field.skip(i as int).skip(1) =~= above);
            assert(field.skip(i as int)[0] == bytes@[start + i]);
            reveal(pow);
            assert(pow(256, (8 - i) as nat) == 256 * pow(256, (7 - i) as nat));
            lemma_pow_increases(256, (8 - i) as nat, 8);
            lemma_eight_bytes();
        }
        value = value * 256 + bytes[start + i] as u64;
    }
    assert(field.skip(0) =~= field);
    value
}

impl Ciphertext {
    /// The encoding of the ciphertext.
    pub fn to_bytes(&self) -> (r: Vec<u8>)
        ensures
            r@ == frame(self.0.encoding(), self.1@, self.2.encoding()),
            well_framed(r@),
    {
        let u = self.0.to_compressed();
        let w = self.2.to_compressed();
        let n = self.1.len();
        proof {
            use_type_invariant(&self.0);
            use_type_invariant(&self.2);
            law_frame_round_trip(u@, self.1@, w@);
        }
        let mut out: Vec<u8> = Vec::new();
        append(&mut out, u.as_slice());
        append_length(&mut out, n as u64);
        append(&mut out, self.1.as_slice());
        append(&mut out, w.as_slice());
        assert(out@ =~= frame(u@, self.1@, w@));
        out
    }

    /// Decodes a ciphertext. Fails where the bytes are not the encoding of one.
    pub fn from_bytes(bytes: &[u8]) -> (r: Result<Ciphertext, Error>)
        ensures
            r.is_ok() == well_framed(bytes@),
            r matches Ok(ct) ==> bytes@ == frame(ct.0.encoding(), ct.1@, ct.2.encoding()),
            r matches Err(e) ==> e == Error::MalformedCiphertext,
    {
        let len = bytes.len();
        if len < 152 {
            return Err(Error::MalformedCiphertext);
        }
        let n = len - 152;
        if read_length(bytes, 48) != n as u64 {
            return Err(Error::MalformedCiphertext);
        }
        let mut first = [0u8; 48];
        let mut i: usize = 0;
        while i < 48
            invariant
                i <= 48,
                len == bytes@.len(),
                len >= 152,
                forall|k: int| 0 <= k < i ==> first@[k] == bytes@[k],
            decreases 48 - i,
        {
            first[i] = bytes[i];
            i += 1;
        }
        let mut last = [0u8; 96];
        let mut i: usize = 0;
        while i < 96
            invariant
                i <= 96,
                len == bytes@.len(),
                len >= 152,
                forall|k: int| 0 <= k < i ==> last@[k] == bytes@[len - 96 + k],
            decreases 96 - i,
        {
            last[i] = bytes[len - 96 + i];
            i += 1;
        }
        assert(first@ =~= bytes@.subrange(0, 48));
        assert(last@ =~= bytes@.subrange(len - 96, len as int));
        let u = match G1::from_compressed(&first) {
            Some(u) => u,
            None => {
                return Err(Error::MalformedCiphertext);
            },
        };
        let w = match G2::from_compressed(&last) {
            Some(w) => w,
            None => {
                return Err(Error::MalformedCiphertext);
            },
        };
        let v = slice_to_vec(slice_subrange(bytes, 56, 56 + n));
        proof {
            let field = bytes@.subrange(48, 56);
            lemma_le_value_bound(field);
            lemma_eight_bytes();
            lemma_le_bytes_value(n as int, 8);
            crate::field::lemma_le_value_injective(field, le_bytes(n as int, 8));
            assert(bytes@ =~= frame(first@, v@, last@));
        }
        Ok(Ciphertext(u, v, w))
    }
}

} // verus!
