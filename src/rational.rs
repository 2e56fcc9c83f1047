//! Exact rationals held as a sign and base-2^32 digit vectors (least
//! significant digit first), with arithmetic delegated to num-rational.
use vstd::prelude::*;
use vstd::arithmetic::power::pow;
use vstd::arithmetic::div_mod::lemma_small_mod;
use num_bigint::{BigInt, BigUint, Sign};
use num_rational::BigRational;
use num_traits::Pow;

verus! {

/// Value of a little-endian sequence of base-2^32 digits.
pub open spec fn digits_val(s: Seq<u32>) -> nat
    decreases s.len(),
{
    if s.len() == 0 {
        0
    } else {
        s[0] as nat + 4294967296 * digits_val(s.subrange(1, s.len() as int))
    }
}

/// No most significant zero digit.
pub open spec fn canonical(s: Seq<u32>) -> bool {
    s.len() == 0 || s[s.len() - 1] != 0
}

/// No common divisor above one.
pub open spec fn coprime(n: nat, d: nat) -> bool {
    forall|k: int| k > 1 ==> !(#[trigger] (n as int % k) == 0 && d as int % k == 0)
}

/// Two fractions (numerator, nonzero denominator) denote the same number.
pub open spec fn q_eq(a: (int, int), b: (int, int)) -> bool {
    a.0 * b.1 == b.0 * a.1
}

pub open spec fn q_add(a: (int, int), b: (int, int)) -> (int, int) {
    (a.0 * b.1 + b.0 * a.1, a.1 * b.1)
}

pub open spec fn q_sub(a: (int, int), b: (int, int)) -> (int, int) {
    (a.0 * b.1 - b.0 * a.1, a.1 * b.1)
}

pub open spec fn q_mul(a: (int, int), b: (int, int)) -> (int, int) {
    (a.0 * b.0, a.1 * b.1)
}

pub open spec fn q_div(a: (int, int), b: (int, int)) -> (int, int) {
    (a.0 * b.1, a.1 * b.0)
}

/// `a` raised to the integer power `e`.
pub open spec fn q_pow(a: (int, int), e: int) -> (int, int) {
    if e >= 0 {
        (pow(a.0, e as nat), pow(a.1, e as nat))
    } else {
        (pow(a.1, (-e) as nat), pow(a.0, (-e) as nat))
    }
}

/// Largest integer not above n/d (d > 0).
pub open spec fn q_floor(a: (int, int)) -> int {
    a.0 / a.1
}

/// Smallest integer not below n/d (d > 0).
pub open spec fn q_ceil(a: (int, int)) -> int {
    -((-a.0) / a.1)
}

/// Nearest integer to n/d (d > 0), halves rounded away from zero.
pub open spec fn q_round(a: (int, int)) -> int {
    if a.0 >= 0 {
        (2 * a.0 + a.1) / (2 * a.1)
    } else {
        -((-2 * a.0 + a.1) / (2 * a.1))
    }
}

#[derive(Clone, Debug)]
pub struct Rational {
    pub negative: bool,
    pub numer: Vec<u32>,
    pub denom: Vec<u32>,
}

impl View for Rational {
    type V = (bool, Seq<u32>, Seq<u32>);

    open spec fn view(&self) -> (bool, Seq<u32>, Seq<u32>) {
        (self.negative, self.numer@, self.denom@)
    }
}

impl Rational {
    pub open spec fn num(&self) -> int {
        if self.negative {
            -(digits_val(self.numer@) as int)
        } else {
            digits_val(self.numer@) as int
        }
    }

    pub open spec fn den(&self) -> int {
        digits_val(self.denom@) as int
    }

    /// The number as a fraction.
    pub open spec fn q(&self) -> (int, int) {
        (self.num(), self.den())
    }

    /// Lowest terms, positive denominator, canonical digits, no negative zero.
    pub open spec fn wf(&self) -> bool {
        &&& canonical(self.numer@)
        &&& canonical(self.denom@)
        &&& digits_val(self.denom@) > 0
        &&& (self.negative ==> self.numer@.len() > 0)
        &&& coprime(digits_val(self.numer@), digits_val(self.denom@))
    }

    pub fn copy(&self) -> (r: Rational)
        ensures
            r@ == self@,
    {
        Rational { negative: self.negative, numer: self.numer.clone(), denom: self.denom.clone() }
    }

    pub fn zero() -> (r: Rational)
        ensures
            r.wf(),
            r.num() == 0,
            r.den() == 1,
    {
        let r = Rational { negative: false, numer: Vec::new(), denom: vec![1u32] };
        proof {
            lemma_digits_one(r.denom@);
            lemma_coprime_with_one(0);
        }
        r
    }

    pub fn one() -> (r: Rational)
        ensures
            r.wf(),
            r.num() == 1,
            r.den() == 1,
    {
        let r = Rational { negative: false, numer: vec![1u32], denom: vec![1u32] };
        proof {
            lemma_digits_one(r.denom@);
            lemma_digits_one(r.numer@);
            lemma_coprime_with_one(1);
        }
        r
    }

    /// The rational with the given sign and digit vectors, put into lowest
    /// terms; `None` when the denominator is zero.
    pub fn from_parts(negative: bool, numer: Vec<u32>, denom: Vec<u32>) -> (r: Option<Rational>)
        ensures
            r is None <==> digits_val(denom@) == 0,
            r matches Some(x) ==> x.wf() && q_eq(
                x.q(),
                (if negative { -(digits_val(numer@) as int) } else { digits_val(numer@) as int },
                digits_val(denom@) as int),
            ),
    {
        if all_zero(&denom) {
            None
        } else {
            Some(reduce(negative, numer, denom))
        }
    }

    pub fn is_zero(&self) -> (r: bool)
        requires
            self.wf(),
        ensures
            r == (self.num() == 0),
    {
        proof {
            lemma_canonical_zero(self.numer@);
        }
        self.numer.len() == 0
    }

    pub fn is_negative(&self) -> (r: bool)
        requires
            self.wf(),
        ensures
            r == (self.num() < 0),
    {
        proof {
            lemma_canonical_zero(self.numer@);
        }
        self.negative
    }

    /// Whether the number is a whole number.
    pub fn is_integer(&self) -> (r: bool)
        requires
            self.wf(),
        ensures
            r == (self.num() % self.den() == 0),
            r == (self.den() == 1),
    {
        proof {
            lemma_digits_one_iff(self.denom@);
            lemma_canonical_zero(self.numer@);
            lemma_integer_iff_unit_denominator(self.negative, digits_val(self.numer@), digits_val(self.denom@));
        }
        self.denom.len() == 1 && self.denom[0] == 1
    }

    pub fn neg(&self) -> (r: Rational)
        requires
            self.wf(),
        ensures
            r.wf(),
            r.num() == -self.num(),
            r.den() == self.den(),
    {
        let r = self.copy();
        if self.numer.len() == 0 {
            r
        } else {
            Rational { negative: !self.negative, numer: r.numer, denom: r.denom }
        }
    }

    pub fn abs(&self) -> (r: Rational)
        requires
            self.wf(),
        ensures
            r.wf(),
            r.num() == (if self.num() < 0 { -self.num() } else { self.num() }),
            r.den() == self.den(),
    {
        let r = self.copy();
        Rational { negative: false, numer: r.numer, denom: r.denom }
    }

    /// Whether the two numbers are equal.
    pub fn equals(&self, other: &Rational) -> (r: bool)
        requires
            self.wf(),
            other.wf(),
        ensures
            r == q_eq(self.q(), other.q()),
    {
        rat_eq(self, other)
    }
}

fn all_zero(s: &Vec<u32>) -> (r: bool)
    ensures
        r == (digits_val(s@) == 0),
{
    let mut i: usize = 0;
    while i < s.len()
        invariant
            i <= s.len(),
            forall|j: int| 0 <= j < i ==> s@[j] == 0,
        decreases s.len() - i,
    {
        if s[i] != 0 {
            proof {
                lemma_nonzero_digit(s@, i as int);
            }
            return false;
        }
        i = i + 1;
    }
    proof {
        lemma_all_zero_digits(s@);
    }
    true
}

proof fn lemma_all_zero_digits(s: Seq<u32>)
    requires
        forall|j: int| 0 <= j < s.len() ==> s[j] == 0,
    ensures
        digits_val(s) == 0,
    decreases s.len(),
{
    if s.len() > 0 {
        lemma_all_zero_digits(s.subrange(1, s.len() as int));
    }
}

proof fn lemma_nonzero_digit(s: Seq<u32>, i: int)
    requires
        0 <= i < s.len(),
        s[i] != 0,
    ensures
        digits_val(s) > 0,
    decreases s.len(),
{
    if i > 0 {
        lemma_nonzero_digit(s.subrange(1, s.len() as int), i - 1);
    }
}

proof fn lemma_canonical_zero(s: Seq<u32>)
    requires
        canonical(s),
    ensures
        (digits_val(s) == 0) == (s.len() == 0),
{
    if s.len() > 0 {
        lemma_nonzero_digit(s, s.len() - 1);
    }
}

proof fn lemma_digits_one(s: Seq<u32>)
    requires
        s.len() == 1,
    ensures
        digits_val(s) == s[0] as nat,
{
    assert(digits_val(s.subrange(1, 1)) == 0);
}

proof fn lemma_digits_one_iff(s: Seq<u32>)
    requires
        canonical(s),
    ensures
        (digits_val(s) == 1) == (s.len() == 1 && s[0] == 1),
{
    if s.len() == 1 {
        lemma_digits_one(s);
    } else if s.len() >= 2 {
        let rest = s.subrange(1, s.len() as int);
        assert(rest[rest.len() - 1] == s[s.len() - 1]);
        lemma_nonzero_digit(rest, rest.len() - 1);
    }
}

proof fn lemma_coprime_with_one(n: nat)
    ensures
        coprime(n, 1),
{
    assert forall|k: int| k > 1 implies !(#[trigger] (n as int % k) == 0 && 1int % k == 0) by {
        lemma_small_mod(1, k as nat);
    }
}

proof fn lemma_integer_iff_unit_denominator(negative: bool, m: nat, d: nat)
    requires
        d > 0,
        coprime(m, d),
        negative ==> m > 0,
    ensures
        ((if negative { -(m as int) } else { m as int }) % (d as int) == 0) == (d == 1),
{
    let n: int = if negative { -(m as int) } else { m as int };
    if d == 1 {
        assert(n % 1 == 0);
    } else if n % (d as int) == 0 {
        if negative {
            vstd::arithmetic::div_mod::lemma_fundamental_div_mod(n, d as int);
            let q = n / (d as int);
            assert(m as int == (d as int) * (-q)) by (nonlinear_arith)
                requires
                    n == (d as int) * q,
                    n == -(m as int),
            ;
            vstd::arithmetic::div_mod::lemma_mod_multiples_basic(-q, d as int);
            assert((-q) * (d as int) == (d as int) * (-q)) by (nonlinear_arith);
        }
        assert((m as int) % (d as int) == 0);
        vstd::arithmetic::div_mod::lemma_mod_self_0(d as int);
        assert(!((m as int % (d as int)) == 0 && d as int % (d as int) == 0));
    }
}

/// Relies on num_rational::Ratio::new: the fraction in lowest terms with a
/// positive denominator.
#[verifier::external_body]
fn reduce(negative: bool, numer: Vec<u32>, denom: Vec<u32>) -> (r: Rational)
    requires
        digits_val(denom@) > 0,
    ensures
        r.wf(),
        q_eq(
            r.q(),
            (if negative { -(digits_val(numer@) as int) } else { digits_val(numer@) as int },
            digits_val(denom@) as int),
        ),
{
    let s = if negative { Sign::Minus } else { Sign::Plus };
    let x = BigRational::new(BigInt::from_biguint(s, BigUint::new(numer)), BigUint::new(denom).into());
    let (s, n) = x.numer().to_u32_digits();
    Rational { negative: s == Sign::Minus, numer: n, denom: x.denom().to_u32_digits().1 }
}

/// Relies on the `+` of num_rational::Ratio, which returns lowest terms.
#[verifier::external_body]
pub(crate) fn rat_add(a: &Rational, b: &Rational) -> (r: Rational)
    requires
        a.wf(),
        b.wf(),
    ensures
        r.wf(),
        q_eq(r.q(), q_add(a.q(), b.q())),
{
    let sa = if a.negative { Sign::Minus } else { Sign::Plus };
    let sb = if b.negative { Sign::Minus } else { Sign::Plus };
    let x = BigRational::new_raw(BigInt::from_biguint(sa, BigUint::new(a.numer.clone())), BigUint::new(a.denom.clone()).into())
        + BigRational::new_raw(BigInt::from_biguint(sb, BigUint::new(b.numer.clone())), BigUint::new(b.denom.clone()).into());
    let (s, n) = x.numer().to_u32_digits();
    Rational { negative: s == Sign::Minus, numer: n, denom: x.denom().to_u32_digits().1 }
}

/// Relies on the `-` of num_rational::Ratio, which returns lowest terms.
#[verifier::external_body]
pub(crate) fn rat_sub(a: &Rational, b: &Rational) -> (r: Rational)
    requires
        a.wf(),
        b.wf(),
    ensures
        r.wf(),
        q_eq(r.q(), q_sub(a.q(), b.q())),
{
    let sa = if a.negative { Sign::Minus } else { Sign::Plus };
    let sb = if b.negative { Sign::Minus } else { Sign::Plus };
    let x = BigRational::new_raw(BigInt::from_biguint(sa, BigUint::new(a.numer.clone())), BigUint::new(a.denom.clone()).into())
        - BigRational::new_raw(BigInt::from_biguint(sb, BigUint::new(b.numer.clone())), BigUint::new(b.denom.clone()).into());
    let (s, n) = x.numer().to_u32_digits();
    Rational { negative: s == Sign::Minus, numer: n, denom: x.denom().to_u32_digits().1 }
}

/// Relies on the `*` of num_rational::Ratio, which returns lowest terms.
#[verifier::external_body]
pub(crate) fn rat_mul(a: &Rational, b: &Rational) -> (r: Rational)
    requires
        a.wf(),
        b.wf(),
    ensures
        r.wf(),
        q_eq(r.q(), q_mul(a.q(), b.q())),
{
    let sa = if a.negative { Sign::Minus } else { Sign::Plus };
    let sb = if b.negative { Sign::Minus } else { Sign::Plus };
    let x = BigRational::new_raw(BigInt::from_biguint(sa, BigUint::new(a.numer.clone())), BigUint::new(a.denom.clone()).into())
        * BigRational::new_raw(BigInt::from_biguint(sb, BigUint::new(b.numer.clone())), BigUint::new(b.denom.clone()).into());
    let (s, n) = x.numer().to_u32_digits();
    Rational { negative: s == Sign::Minus, numer: n, denom: x.denom().to_u32_digits().1 }
}

/// Relies on the `/` of num_rational::Ratio, which returns lowest terms and
/// panics on a zero divisor.
#[verifier::external_body]
pub(crate) fn rat_div(a: &Rational, b: &Rational) -> (r: Rational)
    requires
        a.wf(),
        b.wf(),
        b.num() != 0,
    ensures
        r.wf(),
        q_eq(r.q(), q_div(a.q(), b.q())),
{
    let sa = if a.negative { Sign::Minus } else { Sign::Plus };
    let sb = if b.negative { Sign::Minus } else { Sign::Plus };
    let x = BigRational::new_raw(BigInt::from_biguint(sa, BigUint::new(a.numer.clone())), BigUint::new(a.denom.clone()).into())
        / BigRational::new_raw(BigInt::from_biguint(sb, BigUint::new(b.numer.clone())), BigUint::new(b.denom.clone()).into());
    let (s, n) = x.numer().to_u32_digits();
    Rational { negative: s == Sign::Minus, numer: n, denom: x.denom().to_u32_digits().1 }
}

/// Relies on num_traits::Pow for num_rational::Ratio with a BigInt exponent
/// (the exponent is `e`'s numerator): numerator and denominator raised
/// separately, inverted for a negative exponent, which panics on a zero base.
#[verifier::external_body]
pub(crate) fn rat_pow(a: &Rational, e: &Rational) -> (r: Rational)
    requires
        a.wf(),
        e.wf(),
        e.den() == 1,
        !(a.num() == 0 && e.num() < 0),
    ensures
        r.wf(),
        q_eq(r.q(), q_pow(a.q(), e.num())),
{
    let sa = if a.negative { Sign::Minus } else { Sign::Plus };
    let se = if e.negative { Sign::Minus } else { Sign::Plus };
    let x = BigRational::new_raw(BigInt::from_biguint(sa, BigUint::new(a.numer.clone())), BigUint::new(a.denom.clone()).into());
    let x = Pow::pow(x, BigInt::from_biguint(se, BigUint::new(e.numer.clone())));
    let (s, n) = x.numer().to_u32_digits();
    Rational { negative: s == Sign::Minus, numer: n, denom: x.denom().to_u32_digits().1 }
}

/// Relies on num_rational::Ratio::floor: rounds towards minus infinity.
#[verifier::external_body]
pub(crate) fn rat_floor(a: &Rational) -> (r: Rational)
    requires
        a.wf(),
    ensures
        r.wf(),
        r.den() == 1,
        r.num() == q_floor(a.q()),
{
    let sa = if a.negative { Sign::Minus } else { Sign::Plus };
    let x = BigRational::new_raw(BigInt::from_biguint(sa, BigUint::new(a.numer.clone())), BigUint::new(a.denom.clone()).into());
    let x = x.floor();
    let (s, n) = x.numer().to_u32_digits();
    Rational { negative: s == Sign::Minus, numer: n, denom: x.denom().to_u32_digits().1 }
}

/// Relies on num_rational::Ratio::ceil: rounds towards plus infinity.
#[verifier::external_body]
pub(crate) fn rat_ceil(a: &Rational) -> (r: Rational)
    requires
        a.wf(),
    ensures
        r.wf(),
        r.den() == 1,
        r.num() == q_ceil(a.q()),
{
    let sa = if a.negative { Sign::Minus } else { Sign::Plus };
    let x = BigRational::new_raw(BigInt::from_biguint(sa, BigUint::new(a.numer.clone())), BigUint::new(a.denom.clone()).into());
    let x = x.ceil();
    let (s, n) = x.numer().to_u32_digits();
    Rational { negative: s == Sign::Minus, numer: n, denom: x.denom().to_u32_digits().1 }
}

/// Relies on num_rational::Ratio::round: nearest integer, half-way cases
/// away from zero.
#[verifier::external_body]
pub(crate) fn rat_round(a: &Rational) -> (r: Rational)
    requires
        a.wf(),
    ensures
        r.wf(),
        r.den() == 1,
        r.num() == q_round(a.q()),
{
    let sa = if a.negative { Sign::Minus } else { Sign::Plus };
    let x = BigRational::new_raw(BigInt::from_biguint(sa, BigUint::new(a.numer.clone())), BigUint::new(a.denom.clone()).into());
    let x = x.round();
    let (s, n) = x.numer().to_u32_digits();
    Rational { negative: s == Sign::Minus, numer: n, denom: x.denom().to_u32_digits().1 }
}

/// Relies on the `==` of num_rational::Ratio, which compares the numbers.
#[verifier::external_body]
fn rat_eq(a: &Rational, b: &Rational) -> (r: bool)
    requires
        a.wf(),
        b.wf(),
    ensures
        r == q_eq(a.q(), b.q()),
{
    let sa = if a.negative { Sign::Minus } else { Sign::Plus };
    let sb = if b.negative { Sign::Minus } else { Sign::Plus };
    BigRational::new_raw(BigInt::from_biguint(sa, BigUint::new(a.numer.clone())), BigUint::new(a.denom.clone()).into())
        == BigRational::new_raw(BigInt::from_biguint(sb, BigUint::new(b.numer.clone())), BigUint::new(b.denom.clone()).into())
}

/// Relies on num_bigint::BigUint::sqrt: the truncated square root.
#[verifier::external_body]
pub(crate) fn nat_sqrt(a: &Vec<u32>) -> (r: Vec<u32>)
    ensures
        canonical(r@),
        digits_val(r@) * digits_val(r@) <= digits_val(a@),
        digits_val(a@) < (digits_val(r@) + 1) * (digits_val(r@) + 1),
{
    BigUint::new(a.clone()).sqrt().to_u32_digits()
}

/// Relies on the `*` of num_bigint::BigUint.
#[verifier::external_body]
pub(crate) fn nat_mul(a: &Vec<u32>, b: &Vec<u32>) -> (r: Vec<u32>)
    ensures
        canonical(r@),
        digits_val(r@) == digits_val(a@) * digits_val(b@),
{
    (BigUint::new(a.clone()) * BigUint::new(b.clone())).to_u32_digits()
}

/// Relies on the `==` of num_bigint::BigUint.
#[verifier::external_body]
pub(crate) fn nat_eq(a: &Vec<u32>, b: &Vec<u32>) -> (r: bool)
    ensures
        r == (digits_val(a@) == digits_val(b@)),
{
    BigUint::new(a.clone()) == BigUint::new(b.clone())
}

/// Builds the rational `numer / denom` from non-negative digit vectors, in
/// lowest terms.
pub(crate) fn ratio_of(numer: Vec<u32>, denom: Vec<u32>) -> (r: Rational)
    requires
        digits_val(denom@) > 0,
    ensures
        r.wf(),
        q_eq(r.q(), (digits_val(numer@) as int, digits_val(denom@) as int)),
{
    reduce(false, numer, denom)
}

} // verus!
