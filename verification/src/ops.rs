//! The operators `+`, `-` and `*` on polynomials and commitments. Each is the method of the
//! same meaning under another name; what the method ensures, the operator ensures.
use crate::algebra::{poly_add, poly_mul, poly_scale, poly_sub, strip};
use crate::commitment::Commitment;
use crate::field::Fr;
use crate::poly::Poly;
use vstd::prelude::*;

verus! {

impl std::ops::Add<Poly> for Poly {
    type Output = Poly;

    /// The sum of the two polynomials.
    fn add(self, rhs: Poly) -> (r: Poly)
        ensures
            r@ == poly_add(self@, rhs@),
    {
        Poly::add(&self, &rhs)
    }
}

impl vstd::std_specs::ops::AddSpecImpl<Poly> for Poly {
    open spec fn obeys_add_spec() -> bool {
        false
    }

    open spec fn add_req(self, rhs: Poly) -> bool {
        true
    }

    open spec fn add_spec(self, rhs: Poly) -> Poly {
        arbitrary()
    }
}

impl std::ops::Sub<Poly> for Poly {
    type Output = Poly;

    /// The difference of the two polynomials.
    fn sub(self, rhs: Poly) -> (r: Poly)
        ensures
            r@ == poly_sub(self@, rhs@),
    {
        Poly::sub(&self, &rhs)
    }
}

impl vstd::std_specs::ops::SubSpecImpl<Poly> for Poly {
    open spec fn obeys_sub_spec() -> bool {
        false
    }

    open spec fn sub_req(self, rhs: Poly) -> bool {
        true
    }

    open spec fn sub_spec(self, rhs: Poly) -> Poly {
        arbitrary()
    }
}

impl std::ops::Mul<Poly> for Poly {
    type Output = Poly;

    /// The product of the two polynomials.
    fn mul(self, rhs: Poly) -> (r: Poly)
        ensures
            r@ == poly_mul(self@, rhs@),
    {
        Poly::mul(&self, &rhs)
    }
}

impl vstd::std_specs::ops::MulSpecImpl<Poly> for Poly {
    open spec fn obeys_mul_spec() -> bool {
        false
    }

    open spec fn mul_req(self, rhs: Poly) -> bool {
        self@.len() + rhs@.len() - 1 <= usize::MAX
    }

    open spec fn mul_spec(self, rhs: Poly) -> Poly {
        arbitrary()
    }
}

impl<'a> std::ops::Add<&'a Poly> for Poly {
    type Output = Poly;

    /// The sum of the two polynomials.
    fn add(self, rhs: &'a Poly) -> (r: Poly)
        ensures
            r@ == poly_add(self@, rhs@),
    {
        Poly::add(&self, rhs)
    }
}

impl<'a> vstd::std_specs::ops::AddSpecImpl<&'a Poly> for Poly {
    open spec fn obeys_add_spec() -> bool {
        false
    }

    open spec fn add_req(self, rhs: &'a Poly) -> bool {
        true
    }

    open spec fn add_spec(self, rhs: &'a Poly) -> Poly {
        arbitrary()
    }
}

impl<'a> std::ops::Sub<&'a Poly> for Poly {
    type Output = Poly;

    /// The difference of the two polynomials.
    fn sub(self, rhs: &'a Poly) -> (r: Poly)
        ensures
            r@ == poly_sub(self@, rhs@),
    {
        Poly::sub(&self, rhs)
    }
}

impl<'a> vstd::std_specs::ops::SubSpecImpl<&'a Poly> for Poly {
    open spec fn obeys_sub_spec() -> bool {
        false
    }

    open spec fn sub_req(self, rhs: &'a Poly) -> bool {
        true
    }

    open spec fn sub_spec(self, rhs: &'a Poly) -> Poly {
        arbitrary()
    }
}

impl<'a> std::ops::Mul<&'a Poly> for Poly {
    type Output = Poly;

    /// The product of the two polynomials.
    fn mul(self, rhs: &'a Poly) -> (r: Poly)
        ensures
            r@ == poly_mul(self@, rhs@),
    {
        Poly::mul(&self, rhs)
    }
}

impl<'a> vstd::std_specs::ops::MulSpecImpl<&'a Poly> for Poly {
    open spec fn obeys_mul_spec() -> bool {
        false
    }

    open spec fn mul_req(self, rhs: &'a Poly) -> bool {
        self@.len() + rhs@.len() - 1 <= usize::MAX
    }

    open spec fn mul_spec(self, rhs: &'a Poly) -> Poly {
        arbitrary()
    }
}

impl<'a> std::ops::Add<&'a Poly> for &'a Poly {
    type Output = Poly;

    /// The sum of the two polynomials.
    fn add(self, rhs: &'a Poly) -> (r: Poly)
        ensures
            r@ == poly_add(self@, rhs@),
    {
        Poly::add(self, rhs)
    }
}

impl<'a> vstd::std_specs::ops::AddSpecImpl<&'a Poly> for &'a Poly {
    open spec fn obeys_add_spec() -> bool {
        false
    }

    open spec fn add_req(self, rhs: &'a Poly) -> bool {
        true
    }

    open spec fn add_spec(self, rhs: &'a Poly) -> Poly {
        arbitrary()
    }
}

impl<'a> std::ops::Sub<&'a Poly> for &'a Poly {
    type Output = Poly;

    /// The difference of the two polynomials.
    fn sub(self, rhs: &'a Poly) -> (r: Poly)
        ensures
            r@ == poly_sub(self@, rhs@),
    {
        Poly::sub(self, rhs)
    }
}

impl<'a> vstd::std_specs::ops::SubSpecImpl<&'a Poly> for &'a Poly {
    open spec fn obeys_sub_spec() -> bool {
        false
    }

    open spec fn sub_req(self, rhs: &'a Poly) -> bool {
        true
    }

    open spec fn sub_spec(self, rhs: &'a Poly) -> Poly {
        arbitrary()
    }
}

impl<'a> std::ops::Mul<&'a Poly> for &'a Poly {
    type Output = Poly;

    /// The product of the two polynomials.
    fn mul(self, rhs: &'a Poly) -> (r: Poly)
        ensures
            r@ == poly_mul(self@, rhs@),
    {
        Poly::mul(self, rhs)
    }
}

impl<'a> vstd::std_specs::ops::MulSpecImpl<&'a Poly> for &'a Poly {
    open spec fn obeys_mul_spec() -> bool {
        false
    }

    open spec fn mul_req(self, rhs: &'a Poly) -> bool {
        self@.len() + rhs@.len() - 1 <= usize::MAX
    }

    open spec fn mul_spec(self, rhs: &'a Poly) -> Poly {
        arbitrary()
    }
}

impl std::ops::Add<Fr> for Poly {
    type Output = Poly;

    /// The polynomial with the scalar added to its constant coefficient.
    fn add(self, rhs: Fr) -> (r: Poly)
        ensures
            r@ == poly_add(self@, strip(seq![rhs@])),
    {
        self.add_scalar(rhs)
    }
}

impl vstd::std_specs::ops::AddSpecImpl<Fr> for Poly {
    open spec fn obeys_add_spec() -> bool {
        false
    }

    open spec fn add_req(self, rhs: Fr) -> bool {
        true
    }

    open spec fn add_spec(self, rhs: Fr) -> Poly {
        arbitrary()
    }
}

impl std::ops::Sub<Fr> for Poly {
    type Output = Poly;

    /// The polynomial with the scalar subtracted from its constant coefficient.
    fn sub(self, rhs: Fr) -> (r: Poly)
        ensures
            r@ == poly_sub(self@, strip(seq![rhs@])),
    {
        self.sub_scalar(rhs)
    }
}

impl vstd::std_specs::ops::SubSpecImpl<Fr> for Poly {
    open spec fn obeys_sub_spec() -> bool {
        false
    }

    open spec fn sub_req(self, rhs: Fr) -> bool {
        true
    }

    open spec fn sub_spec(self, rhs: Fr) -> Poly {
        arbitrary()
    }
}

impl std::ops::Mul<Fr> for Poly {
    type Output = Poly;

    /// The polynomial multiplied by the scalar.
    fn mul(self, rhs: Fr) -> (r: Poly)
        ensures
            r@ == poly_scale(self@, rhs@),
    {
        self.scale(rhs)
    }
}

impl vstd::std_specs::ops::MulSpecImpl<Fr> for Poly {
    open spec fn obeys_mul_spec() -> bool {
        false
    }

    open spec fn mul_req(self, rhs: Fr) -> bool {
        true
    }

    open spec fn mul_spec(self, rhs: Fr) -> Poly {
        arbitrary()
    }
}

impl std::ops::Add<u64> for Poly {
    type Output = Poly;

    /// The polynomial with the scalar added to its constant coefficient.
    fn add(self, rhs: u64) -> (r: Poly)
        ensures
            r@ == poly_add(self@, strip(seq![rhs as int])),
    {
        self.add_scalar(rhs)
    }
}

impl vstd::std_specs::ops::AddSpecImpl<u64> for Poly {
    open spec fn obeys_add_spec() -> bool {
        false
    }

    open spec fn add_req(self, rhs: u64) -> bool {
        true
    }

    open spec fn add_spec(self, rhs: u64) -> Poly {
        arbitrary()
    }
}

impl std::ops::Sub<u64> for Poly {
    type Output = Poly;

    /// The polynomial with the scalar subtracted from its constant coefficient.
    fn sub(self, rhs: u64) -> (r: Poly)
        ensures
            r@ == poly_sub(self@, strip(seq![rhs as int])),
    {
        self.sub_scalar(rhs)
    }
}

impl vstd::std_specs::ops::SubSpecImpl<u64> for Poly {
    open spec fn obeys_sub_spec() -> bool {
        false
    }

    open spec fn sub_req(self, rhs: u64) -> bool {
        true
    }

    open spec fn sub_spec(self, rhs: u64) -> Poly {
        arbitrary()
    }
}

impl std::ops::Mul<u64> for Poly {
    type Output = Poly;

    /// The polynomial multiplied by the scalar.
    fn mul(self, rhs: u64) -> (r: Poly)
        ensures
            r@ == poly_scale(self@, rhs as int),
    {
        self.scale(rhs)
    }
}

impl vstd::std_specs::ops::MulSpecImpl<u64> for Poly {
    open spec fn obeys_mul_spec() -> bool {
        false
    }

    open spec fn mul_req(self, rhs: u64) -> bool {
        true
    }

    open spec fn mul_spec(self, rhs: u64) -> Poly {
        arbitrary()
    }
}

impl std::ops::Add<Commitment> for Commitment {
    type Output = Commitment;

    /// The sum of the two commitments.
    fn add(self, rhs: Commitment) -> (r: Commitment)
        ensures
            r@ == poly_add(self@, rhs@),
    {
        Commitment::add(&self, &rhs)
    }
}

impl vstd::std_specs::ops::AddSpecImpl<Commitment> for Commitment {
    open spec fn obeys_add_spec() -> bool {
        false
    }

    open spec fn add_req(self, rhs: Commitment) -> bool {
        true
    }

    open spec fn add_spec(self, rhs: Commitment) -> Commitment {
        arbitrary()
    }
}

impl<'a> std::ops::Add<&'a Commitment> for Commitment {
    type Output = Commitment;

    /// The sum of the two commitments.
    fn add(self, rhs: &'a Commitment) -> (r: Commitment)
        ensures
            r@ == poly_add(self@, rhs@),
    {
        Commitment::add(&self, rhs)
    }
}

impl<'a> vstd::std_specs::ops::AddSpecImpl<&'a Commitment> for Commitment {
    open spec fn obeys_add_spec() -> bool {
        false
    }

    open spec fn add_req(self, rhs: &'a Commitment) -> bool {
        true
    }

    open spec fn add_spec(self, rhs: &'a Commitment) -> Commitment {
        arbitrary()
    }
}

impl<'a> std::ops::Add<&'a Commitment> for &'a Commitment {
    type Output = Commitment;

    /// The sum of the two commitments.
    fn add(self, rhs: &'a Commitment) -> (r: Commitment)
        ensures
            r@ == poly_add(self@, rhs@),
    {
        Commitment::add(self, rhs)
    }
}

impl<'a> vstd::std_specs::ops::AddSpecImpl<&'a Commitment> for &'a Commitment {
    open spec fn obeys_add_spec() -> bool {
        false
    }

    open spec fn add_req(self, rhs: &'a Commitment) -> bool {
        true
    }

    open spec fn add_spec(self, rhs: &'a Commitment) -> Commitment {
        arbitrary()
    }
}

} // verus!
