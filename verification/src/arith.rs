//! Greatest common divisor, least common multiple, and the facts about them
//! that the hyperperiod computation rests on.

use vstd::prelude::*;
use vstd::arithmetic::div_mod::*;
use vstd::arithmetic::mul::*;

verus! {

/// Euclid's greatest common divisor, with `gcd(a, 0) == a`.
pub open spec fn gcd(a: nat, b: nat) -> nat
    decreases b,
{
    if b == 0 {
        a
    } else {
        gcd(b, a % b)
    }
}

/// Least common multiple of two numbers; zero if either is zero.
pub open spec fn lcm(a: nat, b: nat) -> nat {
    if a == 0 || b == 0 {
        0
    } else {
        (a * b) / gcd(a, b)
    }
}

/// `d * k` is a multiple of `d`.
pub proof fn lemma_multiple_mod(d: int, k: int)
    requires
        d > 0,
    ensures
        (d * k) % d == 0,
        (k * d) % d == 0,
{
    lemma_mod_multiples_basic(k, d);
    lemma_mul_is_commutative(d, k);
}

/// A multiple of `d` is `d` times its quotient.
pub proof fn lemma_mod_zero_split(x: int, d: int)
    requires
        d > 0,
        x % d == 0,
    ensures
        x == d * (x / d),
{
    lemma_fundamental_div_mod(x, d);
}

/// The gcd divides both arguments, and is positive unless both are zero.
pub proof fn lemma_gcd_divides(a: nat, b: nat)
    requires
        a > 0 || b > 0,
    ensures
        gcd(a, b) > 0,
        a % gcd(a, b) == 0,
        b % gcd(a, b) == 0,
    decreases b,
{
    if b == 0 {
        lemma_mod_self_0(a as int);
        lemma_small_mod(0, a);
    } else {
        lemma_mod_bound(a as int, b as int);
        lemma_gcd_divides(b, a % b);
        let g = gcd(b, a % b) as int;
        lemma_mod_zero_split(b as int, g);
        lemma_mod_zero_split((a % b) as int, g);
        lemma_fundamental_div_mod(a as int, b as int);
        let k1 = b as int / g;
        let k2 = (a % b) as int / g;
        let q = a as int / b as int;
        assert(a as int == g * (k1 * q + k2)) by (nonlinear_arith)
            requires
                a as int == b as int * q + (a % b) as int,
                b as int == g * k1,
                (a % b) as int == g * k2,
        ;
        lemma_multiple_mod(g, k1 * q + k2);
    }
}

/// Every common divisor of two numbers divides their gcd.
pub proof fn lemma_common_divisor_divides_gcd(d: nat, a: nat, b: nat)
    requires
        d > 0,
        a % d == 0,
        b % d == 0,
    ensures
        gcd(a, b) % d == 0,
    decreases b,
{
    if b != 0 {
        lemma_mod_bound(a as int, b as int);
        lemma_mod_zero_split(a as int, d as int);
        lemma_mod_zero_split(b as int, d as int);
        lemma_fundamental_div_mod(a as int, b as int);
        let k1 = a as int / d as int;
        let k2 = b as int / d as int;
        let q = a as int / b as int;
        assert((a % b) as int == d as int * (k1 - k2 * q)) by (nonlinear_arith)
            requires
                a as int == b as int * q + (a % b) as int,
                a as int == d as int * k1,
                b as int == d as int * k2,
        ;
        lemma_multiple_mod(d as int, k1 - k2 * q);
        lemma_common_divisor_divides_gcd(d, b, a % b);
    }
}

/// Scaling both arguments scales the gcd.
pub proof fn lemma_gcd_scale(k: nat, a: nat, b: nat)
    requires
        k > 0,
    ensures
        gcd(k * a, k * b) == k * gcd(a, b),
    decreases b,
{
    if b == 0 {
        assert(k * b == 0) by (nonlinear_arith)
            requires
                b == 0,
        ;
    } else {
        assert(k * b > 0) by (nonlinear_arith)
            requires
                k > 0,
                b > 0,
        ;
        lemma_truncate_middle(a as int, k as int, b as int);
        lemma_mod_bound(a as int, b as int);
        assert((k * a) % (k * b) == k * (a % b));
        lemma_gcd_scale(k, b, a % b);
    }
}

/// The lcm of two positive numbers is a positive multiple of both.
pub proof fn lemma_lcm_multiple(a: nat, b: nat)
    requires
        a > 0,
        b > 0,
    ensures
        lcm(a, b) > 0,
        lcm(a, b) % a == 0,
        lcm(a, b) % b == 0,
        lcm(a, b) == (a / gcd(a, b)) * b,
        lcm(a, b) >= a,
        lcm(a, b) >= b,
{
    lemma_gcd_divides(a, b);
    let g = gcd(a, b) as int;
    let q = a as int / g;
    let r = b as int / g;
    lemma_mod_zero_split(a as int, g);
    lemma_mod_zero_split(b as int, g);
    assert(a as int * b as int == g * (q * b as int)) by (nonlinear_arith)
        requires
            a as int == g * q,
    ;
    assert(a as int * b as int == g * (a as int * r)) by (nonlinear_arith)
        requires
            b as int == g * r,
    ;
    lemma_div_multiples_vanish(q * b as int, g);
    lemma_div_multiples_vanish(a as int * r, g);
    lemma_mul_is_commutative(g, q * b as int);
    lemma_mul_is_commutative(g, a as int * r);
    assert(lcm(a, b) as int == q * b as int);
    assert(lcm(a, b) as int == a as int * r);
    lemma_multiple_mod(b as int, q);
    lemma_multiple_mod(a as int, r);
    assert(q >= 1 && r >= 1) by (nonlinear_arith)
        requires
            a as int == g * q,
            b as int == g * r,
            a > 0,
            b > 0,
            g > 0,
    ;
    assert(q * b as int >= b as int && a as int * r >= a as int) by (nonlinear_arith)
        requires
            q >= 1,
            r >= 1,
            a > 0,
            b > 0,
    ;
}

/// Every common multiple of two positive numbers is a multiple of their lcm.
pub proof fn lemma_lcm_least(a: nat, b: nat, m: nat)
    requires
        a > 0,
        b > 0,
        m % a == 0,
        m % b == 0,
    ensures
        m % lcm(a, b) == 0,
        m > 0 ==> lcm(a, b) <= m,
{
    lemma_lcm_multiple(a, b);
    let l = lcm(a, b) as int;
    if m == 0 {
        lemma_small_mod(0, l as nat);
    } else {
        lemma_gcd_divides(a, b);
        let g = gcd(a, b) as int;
        let ab = a * b;
        assert(ab > 0) by (nonlinear_arith)
            requires
                ab == a * b,
                a > 0,
                b > 0,
        ;
        lemma_mod_zero_split(m as int, a as int);
        lemma_mod_zero_split(m as int, b as int);
        let i = m as int / a as int;
        let j = m as int / b as int;
        assert((m * a) as int == ab as int * j) by (nonlinear_arith)
            requires
                m as int == b as int * j,
                ab == a * b,
        ;
        assert((m * b) as int == ab as int * i) by (nonlinear_arith)
            requires
                m as int == a as int * i,
                ab == a * b,
        ;
        lemma_multiple_mod(ab as int, j);
        lemma_multiple_mod(ab as int, i);
        lemma_common_divisor_divides_gcd(ab, m * a, m * b);
        lemma_gcd_scale(m, a, b);
        let mg = m * gcd(a, b);
        assert(mg % ab == 0);
        lemma_mod_zero_split(mg as int, ab as int);
        let t = mg as int / ab as int;
        // l * g == a * b, hence m * g == l * g * t and m == l * t
        let q = a as int / g;
        lemma_mod_zero_split(a as int, g);
        assert(ab as int == l * g) by (nonlinear_arith)
            requires
                ab == a * b,
                a as int == g * q,
                l == q * b as int,
        ;
        assert(m as int == l * t) by (nonlinear_arith)
            requires
                mg as int == ab as int * t,
                mg as int == m as int * g,
                ab as int == l * g,
                g > 0,
        ;
        lemma_multiple_mod(l, t);
        assert(t >= 1 && l <= m as int) by (nonlinear_arith)
            requires
                m as int == l * t,
                m > 0,
                l > 0,
        ;
    }
}

/// Least common multiple of a sequence of numbers; 1 for the empty sequence.
pub open spec fn lcm_all(xs: Seq<nat>) -> nat
    decreases xs.len(),
{
    if xs.len() == 0 {
        1
    } else {
        lcm(lcm_all(xs.drop_last()), xs.last())
    }
}

/// Every member of the sequence is positive.
pub open spec fn all_positive(xs: Seq<nat>) -> bool {
    forall|i: int| 0 <= i < xs.len() ==> #[trigger] xs[i] > 0
}

/// The lcm of positive numbers is positive and a multiple of each of them.
pub proof fn lemma_lcm_all_multiple(xs: Seq<nat>)
    requires
        all_positive(xs),
    ensures
        lcm_all(xs) > 0,
        forall|i: int| 0 <= i < xs.len() ==> lcm_all(xs) % #[trigger] xs[i] == 0,
    decreases xs.len(),
{
    if xs.len() > 0 {
        let front = xs.drop_last();
        lemma_lcm_all_multiple(front);
        let l0 = lcm_all(front);
        let l = lcm_all(xs);
        lemma_lcm_multiple(l0, xs.last());
        lemma_mod_zero_split(l as int, l0 as int);
        let r = l as int / l0 as int;
        assert forall|i: int| 0 <= i < xs.len() implies l % #[trigger] xs[i] == 0 by {
            if i < xs.len() - 1 {
                assert(front[i] == xs[i]);
                let x = xs[i] as int;
                lemma_mod_zero_split(l0 as int, x);
                let k = l0 as int / x;
                assert(l as int == x * (k * r)) by (nonlinear_arith)
                    requires
                        l as int == l0 as int * r,
                        l0 as int == x * k,
                ;
                lemma_multiple_mod(x, k * r);
            }
        }
    }
}

/// Every common multiple of positive numbers is a multiple of their lcm, so
/// the lcm is the least positive common multiple.
pub proof fn lemma_lcm_all_least(xs: Seq<nat>, m: nat)
    requires
        all_positive(xs),
        forall|i: int| 0 <= i < xs.len() ==> m % #[trigger] xs[i] == 0,
    ensures
        m % lcm_all(xs) == 0,
        m > 0 ==> lcm_all(xs) <= m,
    decreases xs.len(),
{
    if xs.len() == 0 {
        lemma_mod_multiples_basic(m as int, 1);
    } else {
        let front = xs.drop_last();
        assert forall|i: int| 0 <= i < front.len() implies m % #[trigger] front[i] == 0 by {
            assert(front[i] == xs[i]);
        }
        lemma_lcm_all_least(front, m);
        lemma_lcm_all_multiple(front);
        assert(m % xs[xs.len() - 1] == 0);
        lemma_lcm_least(lcm_all(front), xs.last(), m);
    }
}

/// The lcm of a prefix is no larger than the lcm of the whole sequence.
pub proof fn lemma_lcm_all_prefix(xs: Seq<nat>, k: int)
    requires
        all_positive(xs),
        0 <= k <= xs.len(),
    ensures
        lcm_all(xs.take(k)) <= lcm_all(xs),
    decreases xs.len(),
{
    if k == xs.len() {
        assert(xs.take(k) =~= xs);
    } else {
        let front = xs.drop_last();
        assert(front.take(k) =~= xs.take(k));
        lemma_lcm_all_prefix(front, k);
        lemma_lcm_all_multiple(front);
        lemma_lcm_multiple(lcm_all(front), xs.last());
    }
}

/// `m` is a multiple of every member of the sequence.
pub open spec fn common_multiple(m: nat, xs: Seq<nat>) -> bool {
    forall|i: int| 0 <= i < xs.len() ==> m % #[trigger] xs[i] == 0
}

/// `l` is the least positive number that is a multiple of every member of
/// the sequence.
pub open spec fn least_common_multiple(l: nat, xs: Seq<nat>) -> bool {
    &&& l > 0
    &&& common_multiple(l, xs)
    &&& forall|m: nat| m > 0 && #[trigger] common_multiple(m, xs) ==> l <= m
}

/// `lcm_all` of positive numbers is their least common multiple.
pub proof fn lemma_lcm_all_is_least(xs: Seq<nat>)
    requires
        all_positive(xs),
    ensures
        least_common_multiple(lcm_all(xs), xs),
{
    lemma_lcm_all_multiple(xs);
    assert forall|m: nat| m > 0 && #[trigger] common_multiple(m, xs) implies lcm_all(xs) <= m by {
        lemma_lcm_all_least(xs, m);
    }
}

/// `g` is the greatest common divisor of `a` and `b`: it divides both, and
/// every common divisor divides it. Of two zeros it is zero.
pub open spec fn greatest_common_divisor(g: nat, a: nat, b: nat) -> bool {
    if a == 0 && b == 0 {
        g == 0
    } else {
        &&& g > 0
        &&& a % g == 0
        &&& b % g == 0
        &&& forall|d: nat| d > 0 && a % d == 0 && b % d == 0 ==> #[trigger] (g % d) == 0
    }
}

/// Euclid's `gcd` is the greatest common divisor.
pub proof fn lemma_gcd_is_greatest(a: nat, b: nat)
    ensures
        greatest_common_divisor(gcd(a, b), a, b),
{
    if a > 0 || b > 0 {
        lemma_gcd_divides(a, b);
        assert forall|d: nat| d > 0 && a % d == 0 && b % d == 0 implies #[trigger] (gcd(a, b) % d)
            == 0 by {
            lemma_common_divisor_divides_gcd(d, a, b);
        }
    }
}

} // verus!
