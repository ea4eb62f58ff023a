//! BLS signatures and their aggregation.
use crate::algebra::distinct;
use crate::curve::{dot, g1_logs, g2_log, g2_logs, g2_valid, pairing_product_eq, G1, G2};
use crate::error::Error;
use crate::field::{fmul, lemma_fmul_laws, lemma_reduced, modulus};
use crate::pk::PublicKey;
use crate::util::{hash_g2, hash_g2_log};
use vstd::arithmetic::div_mod::{lemma_add_mod_noop, lemma_mod_twice};
use vstd::prelude::*;

verus! {

/// A signature: the message's hash in `G2`, multiplied by the secret key.
#[derive(Clone, Copy, Debug, Hash)]
pub struct Signature(pub G2);

impl View for Signature {
    type V = int;

    /// The discrete logarithm of the signature's point.
    open spec fn view(&self) -> int {
        self.0@
    }
}

/// The logarithms of a sequence of signatures.
pub open spec fn signature_logs(s: Seq<Signature>) -> Seq<int> {
    Seq::new(s.len(), |i: int| s[i]@)
}

/// The logarithms of a sequence of public keys.
pub open spec fn key_logs(s: Seq<PublicKey>) -> Seq<int> {
    Seq::new(s.len(), |i: int| s[i]@)
}

/// The logarithms of the points that a sequence of messages is hashed to.
pub open spec fn message_logs(s: Seq<&[u8]>) -> Seq<int> {
    Seq::new(s.len(), |i: int| hash_g2_log(s[i]@))
}

/// The sum of the first `n` entries.
pub open spec fn sum_of(s: Seq<int>, n: int) -> int
    decreases n,
{
    if n <= 0 {
        0
    } else {
        sum_of(s, n - 1) + s[n - 1]
    }
}

/// What an aggregate signature has to satisfy: the pairings of the keys with their hashes
/// multiply to the pairing of the generator with the signature.
pub open spec fn aggregate_holds(signature: int, hashes: Seq<int>, keys: Seq<int>) -> bool {
    dot(keys, hashes, keys.len() as int) % modulus() == fmul(1, signature)
}

/// The signatures that the keys make of the hashes, each of its own.
pub open spec fn signatures_of(keys: Seq<int>, hashes: Seq<int>) -> Seq<int> {
    Seq::new(keys.len(), |i: int| fmul(hashes[i], keys[i]))
}

/// The sum of the signatures and the sum of the products of keys and hashes agree modulo
/// `q`.
proof fn lemma_sum_is_dot(keys: Seq<int>, hashes: Seq<int>, n: int)
    requires
        0 <= n <= keys.len(),
    ensures
        sum_of(signatures_of(keys, hashes), n) % modulus() == dot(keys, hashes, n) % modulus(),
    decreases n,
{
    let m = modulus();
    if n > 0 {
        lemma_sum_is_dot(keys, hashes, n - 1);
        let sigs = signatures_of(keys, hashes);
        lemma_fmul_laws(hashes[n - 1], keys[n - 1], 0);
        lemma_mod_twice(keys[n - 1] * hashes[n - 1], m);
        assert(hashes[n - 1] * keys[n - 1] == keys[n - 1] * hashes[n - 1]) by (nonlinear_arith);
        lemma_add_mod_noop(sum_of(sigs, n - 1), sigs[n - 1], m);
        lemma_add_mod_noop(dot(keys, hashes, n - 1), keys[n - 1] * hashes[n - 1], m);
    }
}

/// Whatever the keys and the hashes: the sum of the signatures that each key makes of its
/// hash passes the aggregate check against the public keys and the hashes.
pub proof fn law_aggregate_verifies(keys: Seq<int>, hashes: Seq<int>)
    ensures
        aggregate_holds(
            sum_of(signatures_of(keys, hashes), keys.len() as int) % modulus(),
            hashes,
            keys,
        ),
{
    let m = modulus();
    let total = sum_of(signatures_of(keys, hashes), keys.len() as int);
    lemma_sum_is_dot(keys, hashes, keys.len() as int);
    lemma_fmul_laws(1, total, 0);
    assert(1 * total == total);
}

impl Signature {
    /// Whether the signature survives a round trip through its 96-byte encoding: whether the
    /// bytes that it compresses to decode to a point of `G2` again. Every signature held in
    /// this type does.
    pub fn is_valid(&self) -> (r: bool)
        ensures
            r == g2_valid(self.0.encoding()),
            r,
    {
        let bytes = self.0.to_compressed();
        proof {
            use_type_invariant(&self.0);
        }
        G2::from_compressed(&bytes).is_some()
    }

    /// The canonical 96-byte encoding.
    pub fn to_bytes(&self) -> (r: [u8; 96])
        ensures
            r@ == self.0.encoding(),
            g2_valid(r@),
            g2_log(r@) == self@,
    {
        proof {
            use_type_invariant(&self.0);
        }
        self.0.to_compressed()
    }

    /// Decodes a signature; fails where the bytes are not the encoding of a point of `G2`.
    pub fn from_bytes(bytes: &[u8; 96]) -> (r: Result<Signature, Error>)
        ensures
            r.is_ok() == g2_valid(bytes@),
            r matches Ok(s) ==> s.0.encoding() == bytes@ && s@ == g2_log(bytes@),
            r matches Err(e) ==> e == Error::InvalidSignature,
    {
        match G2::from_compressed(bytes) {
            Some(point) => Ok(Signature(point)),
            None => Err(Error::InvalidSignature),
        }
    }
}

impl PartialEq for Signature {
    fn eq(&self, other: &Signature) -> (r: bool) {
        self.0.equals(&other.0)
    }
}

impl Eq for Signature {

}

impl vstd::std_specs::cmp::PartialEqSpecImpl for Signature {
    open spec fn obeys_eq_spec() -> bool {
        true
    }

    open spec fn eq_spec(&self, other: &Signature) -> bool {
        self@ == other@
    }
}

/// Adds the signatures up. Fails where there is none.
pub fn aggregate(sigs: &[Signature]) -> (r: Result<Signature, Error>)
    ensures
        r.is_ok() == (sigs@.len() > 0),
        r matches Ok(s) ==> s@ == sum_of(signature_logs(sigs@), sigs@.len() as int) % modulus(),
        r matches Err(e) ==> e == Error::InvalidSignature,
{
    let n = sigs.len();
    if n == 0 {
        return Err(Error::InvalidSignature);
    }
    let ghost logs = signature_logs(sigs@);
    if !sigs[0].is_valid() {
        return Err(Error::InvalidSignature);
    }
    let mut aggregate = sigs[0].0;
    proof {
        use_type_invariant(&aggregate);
        lemma_reduced(aggregate@);
        assert(sum_of(logs, 0) == 0);
    }
    let mut i: usize = 1;
    while i < n
        invariant
            1 <= i <= n,
            n == sigs@.len(),
            logs == signature_logs(sigs@),
            aggregate@ == sum_of(logs, i as int) % modulus(),
        decreases n - i,
    {
        let next = &sigs[i];
        if !next.is_valid() {
            return Err(Error::InvalidSignature);
        }
        proof {
            lemma_add_mod_noop(sum_of(logs, i as int), logs[i as int], modulus());
            lemma_add_mod_noop(sum_of(logs, i as int) % modulus(), logs[i as int], modulus());
            lemma_mod_twice(sum_of(logs, i as int), modulus());
        }
        aggregate = aggregate.plus(&next.0);
        i += 1;
    }
    Ok(Signature(aggregate))
}

/// Verifies an aggregate signature against the points that the messages were hashed to.
/// Fails where there are no hashes or keys, where their numbers differ, or where two hashes
/// are the same.
pub fn core_aggregate_verify(signature: &Signature, hashes: &[G2], public_keys: &[PublicKey]) -> (r:
    Result<bool, Error>)
    ensures
        r.is_ok() == (hashes@.len() > 0 && hashes@.len() == public_keys@.len() && distinct(
            g2_logs(hashes@),
        )),
        r matches Ok(b) ==> b == aggregate_holds(
            signature@,
            g2_logs(hashes@),
            key_logs(public_keys@),
        ),
        r matches Err(e) ==> e == Error::InvalidSignature,
{
    // Either public_keys or hashes is empty, bail
    if hashes.len() == 0 || public_keys.len() == 0 {
        return Err(Error::InvalidSignature);
    }
    // Bail if public_keys don't line up with hashes
    let num_hashes = hashes.len();
    if num_hashes != public_keys.len() {
        return Err(Error::InvalidSignature);
    }
    let ghost logs = g2_logs(hashes@);
    // Bail if non-unique hashes found!
    let mut i: usize = 0;
    while i < num_hashes
        invariant
            i <= num_hashes,
            num_hashes == hashes@.len(),
            logs == g2_logs(hashes@),
            forall|a: int, b: int| 0 <= a < i && a < b < num_hashes ==> logs[a] != logs[b],
        decreases num_hashes - i,
    {
        let mut j: usize = i + 1;
        while j < num_hashes
            invariant
                i < j <= num_hashes,
                num_hashes == hashes@.len(),
                logs == g2_logs(hashes@),
                forall|a: int, b: int| 0 <= a < i && a < b < num_hashes ==> logs[a] != logs[b],
                forall|b: int| i < b < j ==> logs[i as int] != logs[b],
            decreases num_hashes - j,
        {
            if hashes[i].equals(&hashes[j]) {
                assert(logs[i as int] == logs[j as int]);
                return Err(Error::InvalidSignature);
            }
            j += 1;
        }
        i += 1;
    }
    let mut keys: Vec<G1> = Vec::with_capacity(num_hashes);
    let mut k: usize = 0;
    while k < num_hashes
        invariant
            k <= num_hashes,
            num_hashes == public_keys@.len(),
            keys.len() == k,
            forall|a: int| 0 <= a < k ==> keys[a]@ == public_keys@[a]@,
        decreases num_hashes - k,
    {
        keys.push(public_keys[k].0);
        k += 1;
    }
    assert(g1_logs(keys@) =~= key_logs(public_keys@));
    let generator = G1::generator();
    Ok(pairing_product_eq(keys.as_slice(), hashes, &generator, &signature.0))
}

/// Verifies that the signature is the actual aggregated signature of messages - pubkeys.
/// Calculated by `e(g1, signature) == \prod_{i = 0}^n e(pk_i, hash_i)`.
pub fn verify_messages(signature: &Signature, messages: &[&[u8]], public_keys: &[PublicKey]) -> (r:
    Result<bool, Error>)
    ensures
        r.is_ok() == (messages@.len() > 0 && messages@.len() == public_keys@.len() && distinct(
            message_logs(messages@),
        )),
        r matches Ok(b) ==> b == aggregate_holds(
            signature@,
            message_logs(messages@),
            key_logs(public_keys@),
        ),
        r matches Err(e) ==> e == Error::InvalidSignature,
{
    let n = messages.len();
    let mut hashes: Vec<G2> = Vec::with_capacity(n);
    let mut i: usize = 0;
    while i < n
        invariant
            i <= n,
            n == messages@.len(),
            hashes.len() == i,
            forall|a: int| 0 <= a < i ==> hashes[a]@ == hash_g2_log(messages@[a]@),
        decreases n - i,
    {
        hashes.push(hash_g2(messages[i]));
        i += 1;
    }
    assert(g2_logs(hashes@) =~= message_logs(messages@));
    core_aggregate_verify(signature, hashes.as_slice(), public_keys)
}

} // verus!
