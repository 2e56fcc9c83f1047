//! The constant-folding analysis: what a node folds to, how two class data
//! merge, and what a class with a known value asks of the graph.
use vstd::prelude::*;
use vstd::arithmetic::power::pow;
use crate::rational::{
    Rational, q_eq, q_add, q_sub, q_mul, q_div, q_pow, q_floor, q_ceil, q_round,
    rat_add, rat_sub, rat_mul, rat_div, rat_pow, rat_floor, rat_ceil, rat_round,
    nat_sqrt, nat_mul, nat_eq, ratio_of, digits_val,
};

verus! {

/// The operator of a node. Arithmetic operators take a leading
/// rounding-context child: binary ones have three children, unary ones two.
#[derive(Clone, Debug)]
pub enum Op {
    Add,
    Sub,
    Mul,
    Div,
    Pow,
    Neg,
    Sqrt,
    Fabs,
    Ceil,
    Floor,
    Round,
    Constant(Rational),
    Symbol(String),
    Other(String),
}

impl Op {
    pub open spec fn wf(&self) -> bool {
        match self {
            Op::Constant(c) => c.wf(),
            _ => true,
        }
    }
}

/// A known value of a class, with the constants substituted for the
/// children of the node that produced it (the derivation pattern).
#[derive(Clone, Debug)]
pub struct Folded {
    pub value: Rational,
    pub args: Vec<Rational>,
}

/// What a class with a known value asks of the graph: add the constant,
/// union it in, and keep only leaf nodes when `retain_leaves` holds.
pub struct ConstantNode {
    pub value: Rational,
    pub retain_leaves: bool,
}

pub open spec fn is_square(n: int) -> bool {
    exists|s: int| s >= 0 && #[trigger] (s * s) == n
}

/// The values of a sequence of rationals, as fractions.
pub open spec fn values(v: Seq<Rational>) -> Seq<(int, int)> {
    v.map_values(|r: Rational| r.q())
}

pub open spec fn pow_defined(a: (int, int), b: (int, int)) -> bool {
    ||| (b.0 == 0 && a.0 != 0)
    ||| (a.0 == 0 && b.0 != 0)
    ||| (b.0 % b.1 == 0 && !(a.0 == 0 && b.0 <= 0))
}

pub open spec fn pow_value(a: (int, int), b: (int, int)) -> (int, int) {
    if b.0 == 0 && a.0 != 0 {
        (1, 1)
    } else if a.0 == 0 && b.0 != 0 {
        (0, 1)
    } else {
        q_pow(a, b.0 / b.1)
    }
}

/// Whether a node with operator `op` and child values `v` folds.
pub open spec fn fold_defined(op: Op, v: Seq<(int, int)>) -> bool {
    match op {
        Op::Constant(_) => v.len() == 0,
        Op::Add | Op::Sub | Op::Mul => v.len() == 3,
        Op::Div => v.len() == 3 && v[2].0 != 0,
        Op::Pow => v.len() == 3 && pow_defined(v[1], v[2]),
        Op::Neg | Op::Fabs | Op::Floor | Op::Ceil | Op::Round => v.len() == 2,
        Op::Sqrt => v.len() == 2 && v[1].0 > 0 && v[1].1 > 0 && is_square(v[1].0) && is_square(
            v[1].1,
        ),
        Op::Symbol(_) | Op::Other(_) => false,
    }
}

/// Whether `r` is the value that a node with operator `op` and child values
/// `v` folds to.
pub open spec fn fold_result(op: Op, v: Seq<(int, int)>, r: (int, int)) -> bool {
    match op {
        Op::Constant(c) => q_eq(r, c.q()),
        Op::Add => q_eq(r, q_add(v[1], v[2])),
        Op::Sub => q_eq(r, q_sub(v[1], v[2])),
        Op::Mul => q_eq(r, q_mul(v[1], v[2])),
        Op::Div => q_eq(r, q_div(v[1], v[2])),
        Op::Pow => q_eq(r, pow_value(v[1], v[2])),
        Op::Neg => q_eq(r, (-v[1].0, v[1].1)),
        Op::Fabs => q_eq(r, (if v[1].0 < 0 { -v[1].0 } else { v[1].0 }, v[1].1)),
        Op::Floor => q_eq(r, (q_floor(v[1]), 1)),
        Op::Ceil => q_eq(r, (q_ceil(v[1]), 1)),
        Op::Round => q_eq(r, (q_round(v[1]), 1)),
        Op::Sqrt => r.1 > 0 && r.0 >= 0 && r.0 * r.0 * v[1].1 == v[1].0 * (r.1 * r.1),
        Op::Symbol(_) | Op::Other(_) => false,
    }
}

pub open spec fn all_known(args: Seq<Option<Rational>>) -> bool {
    forall|i: int| 0 <= i < args.len() ==> (#[trigger] args[i]) is Some
}

pub open spec fn known_values(args: Seq<Option<Rational>>) -> Seq<Rational> {
    args.map_values(|a: Option<Rational>| a->Some_0)
}

pub open spec fn all_wf(args: Seq<Option<Rational>>) -> bool {
    forall|i: int| 0 <= i < args.len() ==> (#[trigger] args[i] matches Some(x) ==> x.wf())
}

proof fn lemma_isqrt_exact(n: int, s: int)
    requires
        n >= 0,
        s >= 0,
        s * s <= n,
        n < (s + 1) * (s + 1),
    ensures
        is_square(n) == (s * s == n),
{
    if is_square(n) {
        let t = choose|t: int| t >= 0 && #[trigger] (t * t) == n;
        if t > s {
            assert(t * t >= (s + 1) * (s + 1)) by (nonlinear_arith)
                requires
                    t >= s + 1,
                    s >= 0,
            ;
        } else if t < s {
            assert(t * t < s * s) by (nonlinear_arith)
                requires
                    0 <= t < s,
            ;
        }
    }
}

/// The folded value of a square root whose operand is `n/d`, both perfect
/// squares; `None` when either is not.
fn fold_sqrt(a: &Rational) -> (r: Option<Rational>)
    requires
        a.wf(),
        a.num() > 0,
    ensures
        r is Some == (is_square(a.num()) && is_square(a.den())),
        r matches Some(x) ==> x.wf() && x.den() > 0 && x.num() >= 0 && x.num() * x.num() * a.den()
            == a.num() * (x.den() * x.den()),
{
    let s1 = nat_sqrt(&a.numer);
    let s2 = nat_sqrt(&a.denom);
    let ghost n = digits_val(a.numer@) as int;
    let ghost d = digits_val(a.denom@) as int;
    let ghost v1 = digits_val(s1@) as int;
    let ghost v2 = digits_val(s2@) as int;
    proof {
        lemma_isqrt_exact(n, v1);
        lemma_isqrt_exact(d, v2);
    }
    let sq1 = nat_mul(&s1, &s1);
    let sq2 = nat_mul(&s2, &s2);
    if nat_eq(&sq1, &a.numer) && nat_eq(&sq2, &a.denom) {
        proof {
            assert(v2 > 0) by (nonlinear_arith)
                requires
                    v2 * v2 == d,
                    d > 0,
                    v2 >= 0,
            ;
        }
        let x = ratio_of(s1, s2);
        proof {
            let (xn, xd) = (x.num(), x.den());
            assert(xn >= 0) by (nonlinear_arith)
                requires
                    xn * v2 == v1 * xd,
                    v1 >= 0,
                    v2 > 0,
                    xd > 0,
            ;
            assert(xn * xn * d == n * (xd * xd)) by (nonlinear_arith)
                requires
                    xn * v2 == v1 * xd,
                    v1 * v1 == n,
                    v2 * v2 == d,
            ;
        }
        Some(x)
    } else {
        None
    }
}

/// The value that a node with operator `op` and children of values `v`
/// folds to, if any.
pub fn fold_value(op: &Op, v: &Vec<Rational>) -> (r: Option<Rational>)
    requires
        op.wf(),
        forall|i: int| 0 <= i < v.len() ==> (#[trigger] v[i]).wf(),
    ensures
        r is Some == fold_defined(*op, values(v@)),
        r matches Some(x) ==> x.wf() && fold_result(*op, values(v@), x.q()),
{
    let ghost q = values(v@);
    match op {
        Op::Constant(c) => {
            if v.len() == 0 {
                Some(c.copy())
            } else {
                None
            }
        },
        Op::Add | Op::Sub | Op::Mul | Op::Div | Op::Pow => {
            if v.len() != 3 {
                return None;
            }
            let a = &v[1];
            let b = &v[2];
            assert(q[1] == a.q() && q[2] == b.q());
            match op {
                Op::Add => Some(rat_add(a, b)),
                Op::Sub => Some(rat_sub(a, b)),
                Op::Mul => Some(rat_mul(a, b)),
                Op::Div => {
                    if b.is_zero() {
                        None
                    } else {
                        Some(rat_div(a, b))
                    }
                },
                _ => {
                    if b.is_zero() && !a.is_zero() {
                        let x = Rational::one();
                        Some(x)
                    } else if a.is_zero() && !b.is_zero() {
                        let x = Rational::zero();
                        Some(x)
                    } else if b.is_integer() && !(a.is_zero() && (b.is_zero() || b.is_negative())) {
                        proof {
                            vstd::arithmetic::div_mod::lemma_div_basics(b.num());
                        }
                        Some(rat_pow(a, b))
                    } else {
                        None
                    }
                },
            }
        },
        Op::Neg | Op::Sqrt | Op::Fabs | Op::Ceil | Op::Floor | Op::Round => {
            if v.len() != 2 {
                return None;
            }
            let a = &v[1];
            assert(q[1] == a.q());
            match op {
                Op::Neg => Some(a.neg()),
                Op::Fabs => Some(a.abs()),
                Op::Floor => Some(rat_floor(a)),
                Op::Ceil => Some(rat_ceil(a)),
                Op::Round => Some(rat_round(a)),
                _ => {
                    if a.is_zero() || a.is_negative() {
                        None
                    } else {
                        fold_sqrt(a)
                    }
                },
            }
        },
        Op::Symbol(_) | Op::Other(_) => None,
    }
}

/// The analysis settings of a session and its soundness flag, which is set
/// once two merged classes carry different values and is never cleared.
#[derive(Clone, Copy, Debug, PartialEq, Eq, Structural)]
pub struct ConstantFold {
    pub unsound: bool,
    pub constant_fold: bool,
    pub prune: bool,
}

impl Default for ConstantFold {
    fn default() -> (r: ConstantFold)
        ensures
            r == (ConstantFold { unsound: false, constant_fold: true, prune: true }),
    {
        ConstantFold { unsound: false, constant_fold: true, prune: true }
    }
}

impl ConstantFold {
    /// The datum of a node whose children carry the data `args`: unknown
    /// when folding is off, when a child is unknown, or when the node does
    /// not fold.
    pub fn make(&self, op: &Op, args: &Vec<Option<Rational>>) -> (r: Option<Folded>)
        requires
            op.wf(),
            all_wf(args@),
        ensures
            r is Some == (self.constant_fold && all_known(args@) && fold_defined(
                *op,
                values(known_values(args@)),
            )),
            r matches Some(f) ==> f.value.wf() && fold_result(
                *op,
                values(known_values(args@)),
                f.value.q(),
            ) && f.args@.len() == args@.len() && (forall|i: int|
                0 <= i < args@.len() ==> (#[trigger] f.args@[i])@ == args@[i]->Some_0@),
    {
        if !self.constant_fold {
            return None;
        }
        let mut vals: Vec<Rational> = Vec::new();
        let mut i: usize = 0;
        while i < args.len()
            invariant
                i <= args.len(),
                all_wf(args@),
                vals@.len() == i,
                forall|j: int| 0 <= j < i ==> (#[trigger] args@[j]) is Some,
                forall|j: int| 0 <= j < i ==> (#[trigger] vals@[j])@ == args@[j]->Some_0@,
            decreases args.len() - i,
        {
            match &args[i] {
                Some(x) => {
                    vals.push(x.copy());
                },
                None => {
                    return None;
                },
            }
            i = i + 1;
        }
        proof {
            assert(values(vals@) =~= values(known_values(args@)));
            assert forall|j: int| 0 <= j < vals.len() implies (#[trigger] vals@[j]).wf() by {
                assert(args@[j] matches Some(x) ==> x.wf());
            }
        }
        match fold_value(op, &vals) {
            Some(value) => Some(Folded { value, args: vals }),
            None => None,
        }
    }

    /// Merges the datum `from` into `to`; returns whether `to` changed. Two
    /// different known values leave `to` as it was and set the soundness flag.
    pub fn merge(&mut self, to: &mut Option<Folded>, from: Option<Folded>) -> (r: bool)
        requires
            *old(to) matches Some(a) ==> a.value.wf(),
            from matches Some(b) ==> b.value.wf(),
        ensures
            old(self).unsound ==> final(self).unsound,
            final(self).constant_fold == old(self).constant_fold,
            final(self).prune == old(self).prune,
            r == (*old(to) is None && from is Some),
            r ==> *final(to) == from,
            !r ==> *final(to) == *old(to),
            final(self).unsound == (old(self).unsound || (match (*old(to), from) {
                (Some(a), Some(b)) => !q_eq(a.value.q(), b.value.q()),
                _ => false,
            })),
    {
        match to {
            None => {
                match from {
                    None => false,
                    Some(c) => {
                        *to = Some(c);
                        true
                    },
                }
            },
            Some(a) => {
                match from {
                    None => false,
                    Some(b) => {
                        if !a.value.equals(&b.value) {
                            self.unsound = true;
                        }
                        false
                    },
                }
            },
        }
    }

    /// What a class whose datum is `data` asks of the graph.
    pub fn modify(&self, data: &Option<Folded>) -> (r: Option<ConstantNode>)
        ensures
            r is Some == data is Some,
            r matches Some(c) ==> c.value@ == data->Some_0.value@ && c.retain_leaves == self.prune,
    {
        match data {
            Some(f) => Some(ConstantNode { value: f.value.copy(), retain_leaves: self.prune }),
            None => None,
        }
    }
}

/// Dividing `a` by `b` folds exactly when `b` is not zero, and then to a/b.
pub proof fn lemma_divide_folds(ctx: (int, int), a: (int, int), b: (int, int), r: (int, int))
    ensures
        fold_defined(Op::Div, seq![ctx, a, b]) == (b.0 != 0),
        fold_result(Op::Div, seq![ctx, a, b], r) == (r.0 * (a.1 * b.0) == a.0 * b.1 * r.1),
{
    assert(r.0 * (a.1 * b.0) == (a.0 * b.1) * r.1 <==> r.0 * (a.1 * b.0) == a.0 * b.1 * r.1);
}

/// A power whose exponent `b` is an integer folds, away from the undefined
/// zero-to-a-non-positive-power cases, to exactly `a` to the power `b`.
pub proof fn lemma_integer_power_folds(ctx: (int, int), a: (int, int), b: (int, int), r: (int, int))
    requires
        a.1 > 0,
        b.1 > 0,
        b.0 % b.1 == 0,
        !(a.0 == 0 && b.0 <= 0),
    ensures
        fold_defined(Op::Pow, seq![ctx, a, b]),
        fold_result(Op::Pow, seq![ctx, a, b], r) == q_eq(r, q_pow(a, b.0 / b.1)),
{
    let e = b.0 / b.1;
    if b.0 == 0 {
        vstd::arithmetic::div_mod::lemma_div_basics(b.1);
        assert(e == 0);
        vstd::arithmetic::power::lemma_pow0(a.0);
        vstd::arithmetic::power::lemma_pow0(a.1);
        assert(q_pow(a, e) == (1int, 1int));
        assert(pow_value(a, b) == (1int, 1int));
    } else if a.0 == 0 {
        vstd::arithmetic::div_mod::lemma_fundamental_div_mod(b.0, b.1);
        assert(e > 0) by (nonlinear_arith)
            requires
                b.0 == b.1 * e,
                b.0 > 0,
                b.1 > 0,
        ;
        vstd::arithmetic::power::lemma0_pow(e as nat);
        vstd::arithmetic::power::lemma_pow_positive(a.1, e as nat);
        let p = pow(a.1, e as nat);
        assert(q_eq(r, (0, p)) == (r.0 == 0)) by (nonlinear_arith)
            requires
                p > 0,
        ;
        assert(q_pow(a, e) == (0int, p));
        assert(pow_value(a, b) == (0int, 1int));
        assert((r.0 * 1 == 0 * r.1) == (r.0 == 0)) by (nonlinear_arith);
        assert(q_eq(r, (0, 1)) == (r.0 == 0));
    } else {
        assert(pow_value(a, b) == q_pow(a, e));
    }
}

/// A power whose exponent is not an integer never folds when its base is
/// not zero.
pub proof fn lemma_fractional_power_never_folds(ctx: (int, int), a: (int, int), b: (int, int))
    requires
        a.1 > 0,
        b.1 > 0,
        b.0 % b.1 != 0,
        a.0 != 0,
    ensures
        !fold_defined(Op::Pow, seq![ctx, a, b]),
{
    if b.0 == 0 {
        vstd::arithmetic::div_mod::lemma_small_mod(0, b.1 as nat);
    }
}

/// A square root folds exactly when its operand's numerator and denominator
/// are positive perfect squares, and the folded value squared is the operand.
pub proof fn lemma_sqrt_folds(ctx: (int, int), a: (int, int), r: (int, int))
    ensures
        fold_defined(Op::Sqrt, seq![ctx, a]) == (a.0 > 0 && a.1 > 0 && is_square(a.0) && is_square(
            a.1,
        )),
        fold_result(Op::Sqrt, seq![ctx, a], r) ==> q_eq(q_mul(r, r), a) && r.0 >= 0,
{
    if fold_result(Op::Sqrt, seq![ctx, a], r) {
        assert(r.0 * r.0 * a.1 == a.0 * (r.1 * r.1));
    }
}

} // verus!
