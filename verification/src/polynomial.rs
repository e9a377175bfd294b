//! Polynomial root finding: linear through quartic equations over
//! fixed-point scalars, and the sorted, deduplicated [`Roots`] set they
//! produce.

use vstd::prelude::*;

use crate::fixed::{abs_fp, abs_i, cbrt_fp, cbrtf, div_fp, div_trunc, divf, lemma_mulf_fits, mul_fp, mulf, sqrt_fp, sqrtf, tdiv};
use crate::trig::{acos_units, cos_units, spec_acos, spec_cos, THIRD_TURN};

verus! {

/// Sorted and unique list of real roots of an equation, at most four.
#[derive(Clone, Copy, Debug, PartialEq, Eq, Structural)]
pub enum Roots {
    /// The equation has no real roots.
    Zero,
    /// One root, or all roots coincide.
    One(i64),
    /// Two distinct roots, ascending.
    Two(i64, i64),
    /// Three distinct roots, ascending.
    Three(i64, i64, i64),
    /// Four distinct roots, ascending.
    Four(i64, i64, i64, i64),
}

/// A sequence that is strictly increasing, hence sorted and free of
/// duplicates.
pub open spec fn sorted_unique(s: Seq<int>) -> bool {
    forall|i: int, j: int| 0 <= i < j < s.len() ==> s[i] < s[j]
}

impl Roots {
    /// The roots as a mathematical sequence, in stored order.
    pub open spec fn vals(self) -> Seq<int> {
        match self {
            Roots::Zero => seq![],
            Roots::One(a) => seq![a as int],
            Roots::Two(a, b) => seq![a as int, b as int],
            Roots::Three(a, b, c) => seq![a as int, b as int, c as int],
            Roots::Four(a, b, c, d) => seq![a as int, b as int, c as int, d as int],
        }
    }

    /// A well-formed root set is strictly ascending.
    pub open spec fn well_formed(self) -> bool {
        sorted_unique(self.vals())
    }

    /// Number of stored roots.
    pub fn len(&self) -> (n: usize)
        ensures
            n == self.vals().len(),
    {
        match self {
            Roots::Zero => 0,
            Roots::One(..) => 1,
            Roots::Two(..) => 2,
            Roots::Three(..) => 3,
            Roots::Four(..) => 4,
        }
    }

    /// The roots as a vector, in ascending order.
    pub fn as_vec(&self) -> (v: Vec<i64>)
        ensures
            v@.len() == self.vals().len(),
            forall|i: int| 0 <= i < v@.len() ==> v@[i] == self.vals()[i],
    {
        match self {
            Roots::Zero => vec![],
            Roots::One(a) => vec![*a],
            Roots::Two(a, b) => vec![*a, *b],
            Roots::Three(a, b, c) => vec![*a, *b, *c],
            Roots::Four(a, b, c, d) => vec![*a, *b, *c, *d],
        }
    }

    /// Rebuild a root set from at most four ascending values.
    fn from_vec(v: &Vec<i64>) -> (r: Roots)
        requires
            v@.len() <= 4,
        ensures
            r.vals().len() == v@.len(),
            forall|i: int| 0 <= i < v@.len() ==> r.vals()[i] == v@[i],
    {
        if v.len() == 0 {
            Roots::Zero
        } else if v.len() == 1 {
            Roots::One(v[0])
        } else if v.len() == 2 {
            Roots::Two(v[0], v[1])
        } else if v.len() == 3 {
            Roots::Three(v[0], v[1], v[2])
        } else {
            Roots::Four(v[0], v[1], v[2], v[3])
        }
    }

    /// Whether `new_root` is already present and, if not, the index at
    /// which it belongs in the ascending order.
    fn check_new_root(&self, new_root: i64) -> (res: (bool, usize))
        requires
            self.well_formed(),
        ensures
            res.0 <==> self.vals().contains(new_root as int),
            !res.0 ==> res.1 <= self.vals().len(),
            !res.0 ==> forall|k: int| 0 <= k < res.1 ==> self.vals()[k] < new_root,
            !res.0 ==> res.1 < self.vals().len() ==> self.vals()[res.1 as int] > new_root,
    {
        let v = self.as_vec();
        let mut exists = false;
        let mut i: usize = 0;
        while i < v.len()
            invariant
                v@.len() == self.vals().len(),
                forall|k: int| 0 <= k < v@.len() ==> v@[k] == self.vals()[k],
                i <= v@.len(),
                exists <==> exists|k: int| 0 <= k < i && self.vals()[k] == new_root,
            decreases v@.len() - i,
        {
            if v[i] == new_root {
                exists = true;
            }
            i = i + 1;
        }
        let mut pos: usize = 0;
        while pos < v.len() && v[pos] < new_root
            invariant
                self.well_formed(),
                v@.len() == self.vals().len(),
                forall|k: int| 0 <= k < v@.len() ==> v@[k] == self.vals()[k],
                pos <= v@.len(),
                forall|k: int| 0 <= k < pos ==> self.vals()[k] < new_root,
            decreases v@.len() - pos,
        {
            pos = pos + 1;
        }
        proof {
            if !exists && pos < v@.len() {
                assert(self.vals()[pos as int] != new_root);
            }
        }
        (exists, pos)
    }

    /// Add one more root, keeping the list ascending and duplicate-free.
    ///
    /// The result is the canonical sorted sequence whose value set is the
    /// old set plus `new_root`; in particular it does not depend on the
    /// order in which roots were added (see
    /// [`lemma_root_set_canonical`]).
    pub fn add_new_root(self, new_root: i64) -> (r: Roots)
        requires
            self.well_formed(),
            self.vals().len() < 4 || self.vals().contains(new_root as int),
        ensures
            r.well_formed(),
            r.vals().to_set() == self.vals().to_set().insert(new_root as int),
            r.vals().len() <= self.vals().len() + 1,
    {
        let (exists, pos) = self.check_new_root(new_root);
        if exists {
            proof {
                assert(self.vals().to_set() =~= self.vals().to_set().insert(new_root as int));
            }
            self
        } else {
            let old_v = self.as_vec();
            let mut v: Vec<i64> = Vec::new();
            let mut i: usize = 0;
            while i < pos
                invariant
                    pos <= old_v@.len(),
                    i <= pos,
                    v@ == old_v@.take(i as int),
                decreases pos - i,
            {
                proof {
                    assert(old_v@.take(i as int + 1) == old_v@.take(i as int).push(old_v@[
                        i as int]));
                }
                v.push(old_v[i]);
                i = i + 1;
            }
            v.push(new_root);
            let mut j: usize = pos;
            while j < old_v.len()
                invariant
                    pos <= j <= old_v@.len(),
                    v@ == old_v@.take(pos as int) + seq![new_root] + old_v@.subrange(
                        pos as int,
                        j as int,
                    ),
                decreases old_v@.len() - j,
            {
                proof {
                    assert(old_v@.subrange(pos as int, j as int + 1) == old_v@.subrange(
                        pos as int,
                        j as int,
                    ).push(old_v@[j as int]));
                }
                v.push(old_v[j]);
                j = j + 1;
            }
            let r = Roots::from_vec(&v);
            proof {
                let s = self.vals();
                let t = r.vals();
                let p = pos as int;
                assert(old_v@.subrange(p, s.len() as int) =~= old_v@.skip(p));
                assert(forall|k: int| 0 <= k < t.len() ==> t[k] == (if k < p {
                    s[k]
                } else if k == p {
                    new_root as int
                } else {
                    s[k - 1]
                }));
                assert forall|a: int, b: int| 0 <= a < b < t.len() implies t[a] < t[b] by {
                    if a < p && b > p {
                        assert(s[a] < new_root);
                        assert(s[b - 1] > new_root || s[b - 1] == s[p]);
                        if b - 1 == p {
                        } else {
                            assert(s[p] < s[b - 1]);
                        }
                    }
                }
                assert(t.to_set() =~= s.to_set().insert(new_root as int)) by {
                    assert forall|e: int| t.to_set().contains(e) implies s.to_set().contains(e)
                        || e == new_root as int by {
                        let w = choose|w: int| 0 <= w < t.len() && t[w] == e;
                        if w < p {
                            assert(s[w] == e);
                        } else if w > p {
                            assert(s[w - 1] == e);
                        }
                    }
                    assert forall|e: int|
                        s.to_set().contains(e) || e == new_root as int implies t.to_set().contains(
                        e) by {
                        if s.contains(e) {
                            let w = choose|w: int| 0 <= w < s.len() && s[w] == e;
                            if w < p {
                                assert(t[w] == e);
                            } else {
                                assert(t[w + 1] == e);
                            }
                        } else {
                            assert(t[p] == e);
                        }
                    }
                }
            }
            r
        }
    }
}

/// When the divisor goes evenly into the scaled constant, the linear
/// solver's root satisfies its equation exactly: `a1 * x / SCALE == -a0`.
/// On other inputs the root is exact only up to truncation, as all
/// fixed-point results here are.
pub proof fn lemma_linear_root_exact(a1: int, a0: int)
    requires
        a1 != 0,
        abs_i(a0 * (crate::fixed::SCALE as int)) % abs_i(a1) == 0,
    ensures
        mulf(a1, divf(-a0, a1)) == -a0,
{
    let s = crate::fixed::SCALE as int;
    let m = abs_i(a0 * s);
    let q = m / abs_i(a1);
    vstd::arithmetic::div_mod::lemma_fundamental_div_mod(m, abs_i(a1));
    assert(abs_i(a1) * q == m);
    vstd::arithmetic::div_mod::lemma_div_pos_is_pos(m, abs_i(a1));
    let x = divf(-a0, a1);
    crate::fixed::lemma_abs_mul(-a0, s);
    crate::fixed::lemma_abs_mul(a0, s);
    assert(abs_i(-a0 * s) == m);
    assert(x == tdiv(-a0 * s, a1));
    assert(a1 * x == -a0 * s) by (nonlinear_arith)
        requires
            abs_i(a1) * q == m,
            q >= 0,
            m == abs_i(-a0 * s),
            abs_i(a1) == (if a1 >= 0 { a1 } else { -a1 }),
            abs_i(-a0 * s) == (if -a0 * s >= 0 { -a0 * s } else { -(-a0 * s) }),
            x == (if ((-a0 * s) >= 0) == (a1 >= 0) { q } else { -q }),
    ;
    assert(mulf(a1, x) == tdiv(-a0 * s, s));
    assert(tdiv(-a0 * s, s) == -a0) by {
        assert(abs_i(-a0 * s) == abs_i(-a0) * s) by {
            crate::fixed::lemma_abs_mul(-a0, s);
        }
        vstd::arithmetic::div_mod::lemma_div_multiples_vanish(abs_i(-a0), s);
        assert(abs_i(-a0) * s / s == abs_i(-a0));
    }
}

/// Largest coefficient magnitude the linear and quadratic solvers accept:
/// every intermediate of the closed-form solution then stays within the
/// fixed-point range.
pub const QUAD_LIM: i64 = 1_000_000_000;

/// Largest magnitude of any root the solvers return.
pub const ROOT_LIM: i64 = 4_000_000_000_000;

/// Roots of `a1*x + a0 == 0` in fixed-point arithmetic.
pub open spec fn spec_linear_roots(a1: int, a0: int) -> Seq<int> {
    if a1 == 0 {
        if a0 == 0 {
            seq![0int]
        } else {
            seq![]
        }
    } else {
        seq![divf(-a0, a1)]
    }
}

/// Roots of `a2*x^2 + a1*x + a0 == 0` in fixed-point arithmetic.
///
/// Follows the cancellation-avoiding form of the quadratic formula: of the
/// two algebraically equal quotients for each root, the one with the
/// larger-magnitude divisor is taken.
pub open spec fn spec_quadratic_roots(a2: int, a1: int, a0: int) -> Seq<int> {
    if a2 == 0 {
        spec_linear_roots(a1, a0)
    } else {
        let disc = mulf(a1, a1) - 4 * mulf(a2, a0);
        if disc < 0 {
            seq![]
        } else {
            let a2x2 = 2 * a2;
            if disc == 0 {
                seq![divf(-a1, a2x2)]
            } else {
                let sq = sqrtf(disc);
                let same_sign = if a1 < 0 {
                    -a1 + sq
                } else {
                    -a1 - sq
                };
                let diff_sign = if a1 < 0 {
                    -a1 - sq
                } else {
                    -a1 + sq
                };
                let x1 = if abs_i(same_sign) > abs_i(a2x2) {
                    divf(2 * a0, same_sign)
                } else {
                    divf(diff_sign, a2x2)
                };
                let x2 = if abs_i(same_sign) > abs_i(a2x2) {
                    if abs_i(diff_sign) > abs_i(a2x2) {
                        divf(2 * a0, diff_sign)
                    } else {
                        divf(same_sign, a2x2)
                    }
                } else {
                    divf(same_sign, a2x2)
                };
                if x1 < x2 {
                    seq![x1, x2]
                } else if x2 < x1 {
                    seq![x2, x1]
                } else {
                    seq![x1]
                }
            }
        }
    }
}

/// Solve the linear equation `a1*x + a0 == 0`.
pub fn find_roots_linear(a1: i64, a0: i64) -> (r: Roots)
    requires
        -QUAD_LIM <= a1 <= QUAD_LIM,
        -QUAD_LIM <= a0 <= QUAD_LIM,
    ensures
        r.vals() == spec_linear_roots(a1 as int, a0 as int),
        r.well_formed(),
        forall|i: int| 0 <= i < r.vals().len() ==> abs_i(r.vals()[i]) <= ROOT_LIM,
{
    if a1 == 0 {
        if a0 == 0 {
            Roots::One(0)
        } else {
            Roots::Zero
        }
    } else {
        Roots::One(div_fp(-a0, a1))
    }
}

/// Solve the quadratic equation `a2*x^2 + a1*x + a0 == 0`.
///
/// A nonpositive fixed-point discriminant yields no roots or one root; a
/// positive one yields the two quotients with the larger-magnitude
/// divisors (one root if truncation makes them coincide).
pub fn find_roots_quadratic(a2: i64, a1: i64, a0: i64) -> (r: Roots)
    requires
        -QUAD_LIM <= a2 <= QUAD_LIM,
        -QUAD_LIM <= a1 <= QUAD_LIM,
        -QUAD_LIM <= a0 <= QUAD_LIM,
    ensures
        r.vals() == spec_quadratic_roots(a2 as int, a1 as int, a0 as int),
        r.well_formed(),
        forall|i: int| 0 <= i < r.vals().len() ==> abs_i(r.vals()[i]) <= ROOT_LIM,
{
    if a2 == 0 {
        return find_roots_linear(a1, a0);
    }
    proof {
        assert(abs_i(a1 as int * a1 as int) <= 1_000_000_000_000_000_000 && abs_i(
            a2 as int * a0 as int) <= 1_000_000_000_000_000_000) by (nonlinear_arith)
            requires
                -1_000_000_000 <= a1 as int <= 1_000_000_000,
                -1_000_000_000 <= a2 as int <= 1_000_000_000,
                -1_000_000_000 <= a0 as int <= 1_000_000_000,
        ;
        vstd::arithmetic::div_mod::lemma_div_is_ordered(
            abs_i(a1 as int * a1 as int),
            1_000_000_000_000_000_000int,
            1000,
        );
        vstd::arithmetic::div_mod::lemma_div_is_ordered(
            abs_i(a2 as int * a0 as int),
            1_000_000_000_000_000_000int,
            1000,
        );
    }
    let disc = mul_fp(a1, a1) - 4 * mul_fp(a2, a0);
    if disc < 0 {
        return Roots::Zero;
    }
    let a2x2 = 2 * a2;
    if disc == 0 {
        return Roots::One(div_fp(-a1, a2x2));
    }
    let sq = sqrt_fp(disc);
    proof {
        crate::fixed::lemma_isqrt_bounds(disc as int * 1000);
        assert(sq >= 31) by (nonlinear_arith)
            requires
                sq as int >= 0,
                (sq as int + 1) * (sq as int + 1) > disc as int * 1000,
                disc as int >= 1,
        ;
    }
    let (same_sign, diff_sign) = if a1 < 0 {
        (-a1 + sq, -a1 - sq)
    } else {
        (-a1 - sq, -a1 + sq)
    };
    let (x1, x2) = if abs_fp(same_sign) > abs_fp(a2x2) {
        let a0x2 = 2 * a0;
        if abs_fp(diff_sign) > abs_fp(a2x2) {
            (div_fp(a0x2, same_sign), div_fp(a0x2, diff_sign))
        } else {
            (div_fp(a0x2, same_sign), div_fp(same_sign, a2x2))
        }
    } else {
        (div_fp(diff_sign, a2x2), div_fp(same_sign, a2x2))
    };
    if x1 < x2 {
        Roots::Two(x1, x2)
    } else if x2 < x1 {
        Roots::Two(x2, x1)
    } else {
        Roots::One(x1)
    }
}

/// Largest coefficient magnitude the normalized cubic solver accepts.
pub const CUBIC_LIM: i64 = 1_200_000;

/// Largest root magnitude the normalized cubic solver returns.
pub const CUBIC_ROOT_LIM: i64 = 6_000_000;

/// A ratio clamped into `[-SCALE, SCALE]`, the domain of `spec_acos`.
pub open spec fn clamped_unit(t: int) -> int {
    if t > 1000 {
        1000
    } else if t < -1000 {
        -1000
    } else {
        t
    }
}

/// The three trigonometric-case roots of the normalized cubic, as a set.
pub open spec fn spec_cubic_trig_roots(q: int, r: int, q3: int, a2_div_3: int) -> Set<int> {
    let ratio = clamped_unit(divf(r, sqrtf(-q3)));
    let phi_3 = spec_acos(ratio) / 3;
    let sqrt_q_2 = 2 * sqrtf(-q);
    Set::empty().insert(mulf(sqrt_q_2, spec_cos(phi_3)) - a2_div_3).insert(
        mulf(sqrt_q_2, spec_cos(phi_3 - (THIRD_TURN as int))) - a2_div_3,
    ).insert(mulf(sqrt_q_2, spec_cos(phi_3 + (THIRD_TURN as int))) - a2_div_3)
}

/// The Cardano-branch roots of the normalized cubic, as a set.
pub open spec fn spec_cubic_cardano_roots(r: int, d: int, a2_div_3: int) -> Set<int> {
    let sqrt_d = sqrtf(d);
    let s = cbrtf(r + sqrt_d);
    let t = cbrtf(r - sqrt_d);
    if s == t {
        if s + t == 0 {
            Set::empty().insert(s + t - a2_div_3)
        } else {
            Set::empty().insert(s + t - a2_div_3).insert(-tdiv(s + t, 2) - a2_div_3)
        }
    } else {
        Set::empty().insert(s + t - a2_div_3)
    }
}

/// The roots of the monic cubic `x^3 + a2*x^2 + a1*x + a0 == 0`, as a set.
pub open spec fn spec_cubic_roots(a2: int, a1: int, a0: int) -> Set<int> {
    let q = tdiv(3 * a1 - mulf(a2, a2), 9);
    let r = tdiv(9 * mulf(a2, a1) - 27 * a0 - 2 * mulf(a2, mulf(a2, a2)), 54);
    let q3 = mulf(q, mulf(q, q));
    let d = q3 + mulf(r, r);
    let a2_div_3 = tdiv(a2, 3);
    if d < 0 {
        spec_cubic_trig_roots(q, r, q3, a2_div_3)
    } else {
        spec_cubic_cardano_roots(r, d, a2_div_3)
    }
}

/// Solve the monic cubic `x^3 + a2*x^2 + a1*x + a0 == 0`.
///
/// A negative fixed-point discriminant takes the trigonometric route and
/// yields up to three roots; otherwise the Cardano route yields one root,
/// or two when the two cube roots coincide without cancelling.  The result
/// is the ascending, deduplicated list over the root set.
#[verifier::rlimit(100)]
pub fn find_roots_cubic_normalized(a2: i64, a1: i64, a0: i64) -> (roots: Roots)
    requires
        -CUBIC_LIM <= a2 <= CUBIC_LIM,
        -CUBIC_LIM <= a1 <= CUBIC_LIM,
        -CUBIC_LIM <= a0 <= CUBIC_LIM,
    ensures
        roots.well_formed(),
        roots.vals().to_set() == spec_cubic_roots(a2 as int, a1 as int, a0 as int),
        1 <= roots.vals().len() <= 3,
        forall|i: int| 0 <= i < roots.vals().len() ==> abs_i(roots.vals()[i]) <= CUBIC_ROOT_LIM,
{
    proof {
        lemma_mulf_fits(a2 as int, a2 as int, CUBIC_LIM as int, CUBIC_LIM as int);
    }
    let a2_sq = mul_fp(a2, a2);
    let q = div_trunc(3 * a1 - a2_sq, 9);
    proof {
        crate::fixed::lemma_tdiv_bound(3 * a1 as int - a2_sq as int, 9, 1_443_600_000int);
        assert(abs_i(q as int) <= 160_400_000);
        lemma_mulf_fits(a2 as int, a1 as int, CUBIC_LIM as int, CUBIC_LIM as int);
        lemma_mulf_fits(a2 as int, a2_sq as int, CUBIC_LIM as int, 1_440_000_000int);
    }
    let a2_cube = mul_fp(a2, mul_fp(a2, a2));
    let a2_a1 = mul_fp(a2, a1);
    let r = div_trunc(9 * a2_a1 - 27 * a0 - 2 * a2_cube, 54);
    proof {
        crate::fixed::lemma_tdiv_bound(
            9 * a2_a1 as int - 27 * a0 as int - 2 * a2_cube as int,
            54,
            3_469_000_000_000int,
        );
        assert(abs_i(r as int) <= 64_240_740_740int);
        lemma_mulf_fits(q as int, q as int, 160_400_000int, 160_400_000int);
        lemma_mulf_fits(
            q as int,
            mulf(q as int, q as int),
            160_400_000int,
            25_728_160_000_000int,
        );
        lemma_mulf_fits(r as int, r as int, 64_240_740_740int, 64_240_740_740int);
    }
    let q3 = mul_fp(q, mul_fp(q, q));
    let d = q3 + mul_fp(r, r);
    let a2_div_3 = div_trunc(a2, 3);
    proof {
        crate::fixed::lemma_tdiv_bound(a2 as int, 3, CUBIC_LIM as int);
    }

    if d < 0 {
        proof {
            crate::fixed::lemma_mul_sign(r as int, r as int);
            vstd::arithmetic::div_mod::lemma_div_pos_is_pos(r as int * r as int, 1000);
        }
        let roots = cubic_trig_roots(q, r, q3, a2_div_3);
        proof {
            assert(roots.vals().to_set() =~= spec_cubic_roots(a2 as int, a1 as int, a0 as int));
        }
        roots
    } else {
        let roots = cubic_cardano_roots(r, d, a2_div_3);
        proof {
            assert(roots.vals().to_set() =~= spec_cubic_roots(a2 as int, a1 as int, a0 as int));
        }
        roots
    }
}

/// The Cardano branch of the cubic: one root from the two cube roots, or
/// two when they coincide without cancelling.
fn cubic_cardano_roots(r: i64, d: i64, a2_div_3: i64) -> (roots: Roots)
    requires
        d >= 0,
        abs_i(r as int) <= 64_240_740_740,
        abs_i(a2_div_3 as int) <= 400_000,
    ensures
        roots.well_formed(),
        roots.vals().to_set() == spec_cubic_cardano_roots(r as int, d as int, a2_div_3 as int),
        1 <= roots.vals().len() <= 2,
        forall|i: int| 0 <= i < roots.vals().len() ==> abs_i(roots.vals()[i]) <= CUBIC_ROOT_LIM,
{
    let sqrt_d = sqrt_fp(d);
    let s = cbrt_fp(r + sqrt_d);
    let t = cbrt_fp(r - sqrt_d);
    if s == t {
        if s + t == 0 {
            let roots = Roots::One(s + t - a2_div_3);
            proof {
                lemma_single_to_set(s as int + t as int - a2_div_3 as int);
                lemma_len_one(roots);
                lemma_sorted_set_bound(roots.vals(), CUBIC_ROOT_LIM as int);
            }
            roots
        } else {
            let other = -div_trunc(s + t, 2) - a2_div_3;
            let roots = Roots::One(s + t - a2_div_3).add_new_root(other);
            proof {
                lemma_single_to_set(s as int + t as int - a2_div_3 as int);
                assert(roots.vals().to_set() =~= spec_cubic_cardano_roots(
                    r as int,
                    d as int,
                    a2_div_3 as int,
                ));
                lemma_len_range(roots, s as int + t as int - a2_div_3 as int, 2);
                lemma_sorted_set_bound(roots.vals(), CUBIC_ROOT_LIM as int);
            }
            roots
        }
    } else {
        let roots = Roots::One(s + t - a2_div_3);
        proof {
            lemma_single_to_set(s as int + t as int - a2_div_3 as int);
            lemma_len_one(roots);
            lemma_sorted_set_bound(roots.vals(), CUBIC_ROOT_LIM as int);
        }
        roots
    }
}

/// A one-element root list has length one.
proof fn lemma_len_one(r: Roots)
    requires
        r is One,
    ensures
        r.vals().len() == 1,
{
}

/// A root list whose set contains `x` is not empty.
proof fn lemma_len_range(r: Roots, x: int, m: int)
    requires
        r.vals().to_set().contains(x),
        r.vals().len() <= m,
    ensures
        1 <= r.vals().len() <= m,
{
    if r.vals().len() == 0 {
        assert(!r.vals().contains(x));
    }
}

/// The trigonometric branch of the cubic
/// The trigonometric branch of the cubic: three roots from a clamped
/// arccosine, folded into a sorted set.
#[verifier::rlimit(60)]
fn cubic_trig_roots(q: i64, r: i64, q3: i64, a2_div_3: i64) -> (roots: Roots)
    requires
        q3 < 0,
        abs_i(q3 as int) <= 4_200_000_000_000_000_000,
        q3 == mulf(q as int, mulf(q as int, q as int)),
        abs_i(q as int) <= 160_400_000,
        abs_i(r as int) <= 64_240_740_740,
        abs_i(a2_div_3 as int) <= 400_000,
    ensures
        roots.well_formed(),
        roots.vals().to_set() == spec_cubic_trig_roots(q as int, r as int, q3 as int, a2_div_3 as int),
        1 <= roots.vals().len() <= 3,
        forall|i: int| 0 <= i < roots.vals().len() ==> abs_i(roots.vals()[i]) <= CUBIC_ROOT_LIM,
    {
        proof {
            // `q3 < 0` forces `q < 0`: squares and products with a
            // nonnegative factor keep their sign under truncation.
            crate::fixed::lemma_mul_sign(q as int, q as int);
            vstd::arithmetic::div_mod::lemma_div_pos_is_pos(q as int * q as int, 1000);
            if q >= 0 {
                crate::fixed::lemma_mul_sign(q as int, mulf(q as int, q as int));
                vstd::arithmetic::div_mod::lemma_div_pos_is_pos(
                    q as int * mulf(q as int, q as int),
                    1000,
                );
                assert(false);
            }
        }
        let sq_negq3 = sqrt_fp(-q3);
        proof {
            crate::fixed::lemma_isqrt_bounds(-q3 as int * 1000);
            assert(sq_negq3 >= 31) by (nonlinear_arith)
                requires
                    sq_negq3 as int >= 0,
                    (sq_negq3 as int + 1) * (sq_negq3 as int + 1) > -q3 as int * 1000,
                    -q3 as int >= 1,
            ;
        }
        let ratio_raw = div_fp(r, sq_negq3);
        let ratio = if ratio_raw > 1000 {
            1000
        } else if ratio_raw < -1000 {
            -1000
        } else {
            ratio_raw
        };
        let phi_3 = acos_units(ratio) / 3;
        let sqrt_q_2 = 2 * sqrt_fp(-q);
        let c0 = cos_units(phi_3);
        let c1 = cos_units(phi_3 - THIRD_TURN);
        let c2 = cos_units(phi_3 + THIRD_TURN);
        proof {
            crate::fixed::lemma_isqrt_bounds(-q as int * 1000);
            assert(sqrtf(-q as int) <= 400_500) by (nonlinear_arith)
                requires
                    sqrtf(-q as int) >= 0,
                    sqrtf(-q as int) * sqrtf(-q as int) <= -q as int * 1000,
                    -q as int <= 160_400_000,
            ;
            lemma_mulf_fits(sqrt_q_2 as int, c0 as int, 801_000int, 1300);
            lemma_mulf_fits(sqrt_q_2 as int, c1 as int, 801_000int, 1300);
            lemma_mulf_fits(sqrt_q_2 as int, c2 as int, 801_000int, 1300);
        }
        let x0 = mul_fp(sqrt_q_2, c0) - a2_div_3;
        let x1 = mul_fp(sqrt_q_2, c1) - a2_div_3;
        let x2 = mul_fp(sqrt_q_2, c2) - a2_div_3;
        let roots = Roots::One(x0).add_new_root(x1).add_new_root(x2);
        proof {
            lemma_single_to_set(x0 as int);
            assert(roots.vals().to_set() =~= spec_cubic_trig_roots(
                q as int,
                r as int,
                q3 as int,
                a2_div_3 as int,
            ));
            lemma_len_range(roots, x0 as int, 3);
            lemma_sorted_set_bound(roots.vals(), CUBIC_ROOT_LIM as int);
        }
        roots
    }

/// Coefficient magnitude limits of the depressed quartic solver: the
/// resolvent cubic's coefficients then stay within [`CUBIC_LIM`].
pub const DEP_A2_LIM: i64 = 8_000;

/// See [`DEP_A2_LIM`].
pub const DEP_A1_LIM: i64 = 60_000;

/// See [`DEP_A2_LIM`].
pub const DEP_A0_LIM: i64 = 60_000;

/// Largest coefficient magnitude the general quartic solver accepts.
pub const QUARTIC_LIM: i64 = 100_000;

/// Largest root magnitude the general quartic solver returns.
pub const QUARTIC_ROOT_LIM: i64 = 3_000_000_000_000_000;

/// The greatest element of a nonempty set of integers with an upper
/// bound: the resolvent root the depressed quartic continues with.
pub open spec fn set_max(s: Set<int>) -> int {
    choose|m: int| s.contains(m) && (forall|e: int| s.contains(e) ==> e <= m)
}

/// The last entry of an ascending sequence is the greatest element of its
/// value set.
proof fn lemma_last_is_max(s: Seq<int>)
    requires
        sorted_unique(s),
        s.len() >= 1,
    ensures
        set_max(s.to_set()) == s[s.len() - 1],
{
    let l = s[s.len() - 1];
    assert(s.contains(l));
    assert(s.to_set().contains(l));
    assert forall|e: int| s.to_set().contains(e) implies e <= l by {
        let w = choose|w: int| 0 <= w < s.len() && s[w] == e;
        if w < s.len() - 1 {
            assert(s[w] < l);
        }
    }
    let m = set_max(s.to_set());
    assert(s.to_set().contains(m) && (forall|e: int| s.to_set().contains(e) ==> e <= m)) by {
        assert(s.to_set().contains(l) && (forall|e: int| s.to_set().contains(e) ==> e <= l));
    }
}

/// The roots of the depressed quartic `x^4 + a2*x^2 + a1*x + a0 == 0`,
/// as a set.  The biquadratic (`a1 == 0`) and root-at-zero (`a0 == 0`)
/// forms are unhandled and yield no roots, a documented limitation.
pub open spec fn spec_quartic_depressed_roots(a2: int, a1: int, a0: int) -> Set<int> {
    if a1 == 0 || a0 == 0 {
        Set::empty()
    } else {
        let a2_pow_2 = mulf(a2, a2);
        let a1_div_2 = tdiv(a1, 2);
        let b2 = tdiv(5 * a2, 2);
        let b1 = 2 * a2_pow_2 - a0;
        let b0 = tdiv(mulf(a2_pow_2, a2) - mulf(a2, a0) - mulf(a1_div_2, a1_div_2), 2);
        let y = set_max(spec_cubic_roots(b2, b1, b0));
        let a2_plus_2y = a2 + 2 * y;
        if a2_plus_2y > 0 {
            let sq = sqrtf(a2_plus_2y);
            let q0a = a2 + y - divf(a1_div_2, sq);
            let q0b = a2 + y + divf(a1_div_2, sq);
            spec_quadratic_roots(1000, sq, q0a).to_set().union(
                spec_quadratic_roots(1000, -sq, q0b).to_set(),
            )
        } else {
            Set::empty()
        }
    }
}

/// Solve the depressed quartic `x^4 + a2*x^2 + a1*x + a0 == 0` by way of
/// a resolvent cubic, merging the roots of the two derived quadratics.
#[verifier::rlimit(100)]
pub fn find_roots_quartic_depressed(a2: i64, a1: i64, a0: i64) -> (roots: Roots)
    requires
        -DEP_A2_LIM <= a2 <= DEP_A2_LIM,
        -DEP_A1_LIM <= a1 <= DEP_A1_LIM,
        -DEP_A0_LIM <= a0 <= DEP_A0_LIM,
    ensures
        roots.well_formed(),
        roots.vals().to_set() == spec_quartic_depressed_roots(a2 as int, a1 as int, a0 as int),
        forall|i: int| 0 <= i < roots.vals().len() ==> abs_i(roots.vals()[i]) <= ROOT_LIM,
{
    if a1 == 0 {
        // Biquadratic form: unhandled, by design.
        return Roots::Zero;
    }
    if a0 == 0 {
        // A zero root with a cubic remainder: unhandled, by design.
        return Roots::Zero;
    }
    proof {
        lemma_mulf_fits(a2 as int, a2 as int, DEP_A2_LIM as int, DEP_A2_LIM as int);
    }
    let a2_pow_2 = mul_fp(a2, a2);
    let a1_div_2 = div_trunc(a1, 2);
    proof {
        crate::fixed::lemma_tdiv_bound(a1 as int, 2, DEP_A1_LIM as int);
    }
    let b2 = div_trunc(5 * a2, 2);
    let b1 = 2 * a2_pow_2 - a0;
    proof {
        lemma_mulf_fits(a2_pow_2 as int, a2 as int, 64_000int, DEP_A2_LIM as int);
        lemma_mulf_fits(a2 as int, a0 as int, DEP_A2_LIM as int, DEP_A0_LIM as int);
        lemma_mulf_fits(a1_div_2 as int, a1_div_2 as int, 30_000int, 30_000int);
        crate::fixed::lemma_tdiv_bound(
            mulf(a2_pow_2 as int, a2 as int) - mulf(a2 as int, a0 as int) - mulf(
                a1_div_2 as int,
                a1_div_2 as int,
            ),
            2,
            1_892_000int,
        );
    }
    let b0 = div_trunc(mul_fp(a2_pow_2, a2) - mul_fp(a2, a0) - mul_fp(a1_div_2, a1_div_2), 2);
    let resolvent = find_roots_cubic_normalized(b2, b1, b0);
    let rv = resolvent.as_vec();
    let y = rv[rv.len() - 1];
    proof {
        lemma_last_is_max(resolvent.vals());
        assert(y as int == set_max(spec_cubic_roots(b2 as int, b1 as int, b0 as int)));
        assert(abs_i(y as int) <= CUBIC_ROOT_LIM) by {
            assert(resolvent.vals()[resolvent.vals().len() - 1] == y as int);
        }
    }
    let a2_plus_2y = a2 + 2 * y;
    if a2_plus_2y > 0 {
        let sqrt_a2_plus_2y = sqrt_fp(a2_plus_2y);
        proof {
            crate::fixed::lemma_isqrt_bounds(a2_plus_2y as int * 1000);
            assert(sqrt_a2_plus_2y >= 31) by (nonlinear_arith)
                requires
                    sqrt_a2_plus_2y as int >= 0,
                    (sqrt_a2_plus_2y as int + 1) * (sqrt_a2_plus_2y as int + 1) > a2_plus_2y as int
                        * 1000,
                    a2_plus_2y as int >= 1,
            ;
            assert(sqrt_a2_plus_2y <= 110_000) by (nonlinear_arith)
                requires
                    sqrt_a2_plus_2y as int >= 0,
                    sqrt_a2_plus_2y as int * sqrt_a2_plus_2y as int <= a2_plus_2y as int * 1000,
                    a2_plus_2y as int <= 12_008_000,
            ;
        }
        let corr = div_fp(a1_div_2, sqrt_a2_plus_2y);
        let q0a = a2 + y - corr;
        let q0b = a2 + y + corr;
        let first = find_roots_quadratic(1000, sqrt_a2_plus_2y, q0a);
        let second = find_roots_quadratic(1000, -sqrt_a2_plus_2y, q0b);
        let sv = second.as_vec();
        let mut roots = first;
        if sv.len() >= 1 {
            roots = roots.add_new_root(sv[0]);
        }
        if sv.len() >= 2 {
            roots = roots.add_new_root(sv[1]);
        }
        proof {
            assert(roots.vals().to_set() =~= spec_quartic_depressed_roots(
                a2 as int,
                a1 as int,
                a0 as int,
            )) by {
                assert(forall|k: int|
                    0 <= k < second.vals().len() ==> second.vals().to_set().contains(
                        #[trigger] second.vals()[k]));
                assert(forall|e: int| second.vals().to_set().contains(e) ==> e == sv@[0]
                    || e == sv@[1]) by {
                    assert forall|e: int| second.vals().to_set().contains(e) implies e == sv@[0]
                        || e == sv@[1] by {
                        let w = choose|w: int|
                            0 <= w < second.vals().len() && second.vals()[w] == e;
                    }
                }
            }
            lemma_sorted_set_bound(roots.vals(), ROOT_LIM as int);
        }
        roots
    } else {
        Roots::Zero
    }
}

/// The roots of the general quartic recovered from its depressed form,
/// shifted back by `a3 / (4*a4)`.  Degenerate fixed-point denominators and
/// depressed coefficients outside the solver's window yield no roots.
pub open spec fn spec_via_depressed_roots(
    a4: int,
    a3: int,
    a2: int,
    a1: int,
    a0: int,
    pp: int,
    rr: int,
    dd: int,
) -> Set<int> {
    let den_p = 8 * mulf(a4, a4);
    let den_q = 8 * mulf(mulf(a4, a4), a4);
    let den_r = 256 * mulf(mulf(a4, a4), mulf(a4, a4));
    if den_p == 0 || den_q == 0 || den_r == 0 {
        Set::empty()
    } else {
        let p = divf(pp, den_p);
        let q = divf(rr, den_q);
        let r = divf(
            dd + 16 * mulf(mulf(a4, a4), 12 * mulf(a0, a4) - 3 * mulf(a1, a3) + mulf(a2, a2)),
            den_r,
        );
        if -DEP_A2_LIM <= p <= DEP_A2_LIM && -DEP_A1_LIM <= q <= DEP_A1_LIM && -DEP_A0_LIM <= r
            <= DEP_A0_LIM {
            let shift = divf(a3, 4 * a4);
            spec_quartic_depressed_roots(p, q, r).map(|y: int| y - shift)
        } else {
            Set::empty()
        }
    }
}

/// Solve the quartic through its depressed form and shift the roots back.
#[verifier::rlimit(100)]
fn find_roots_via_depressed_quartic(
    a4: i64,
    a3: i64,
    a2: i64,
    a1: i64,
    a0: i64,
    pp: i64,
    rr: i64,
    dd: i64,
) -> (roots: Roots)
    requires
        a4 != 0,
        -QUARTIC_LIM <= a4 <= QUARTIC_LIM,
        -QUARTIC_LIM <= a3 <= QUARTIC_LIM,
        -QUARTIC_LIM <= a2 <= QUARTIC_LIM,
        -QUARTIC_LIM <= a1 <= QUARTIC_LIM,
        -QUARTIC_LIM <= a0 <= QUARTIC_LIM,
        abs_i(pp as int) <= 200_000_000,
        abs_i(rr as int) <= 20_000_000_000,
        abs_i(dd as int) <= 12_000_000_000_000,
    ensures
        roots.well_formed(),
        roots.vals().to_set() == spec_via_depressed_roots(
            a4 as int,
            a3 as int,
            a2 as int,
            a1 as int,
            a0 as int,
            pp as int,
            rr as int,
            dd as int,
        ),
        forall|i: int| 0 <= i < roots.vals().len() ==> abs_i(roots.vals()[i])
            <= 4_100_000_000_000,
{
    proof {
        lemma_mulf_fits(a4 as int, a4 as int, QUARTIC_LIM as int, QUARTIC_LIM as int);
    }
    let a4_sq = mul_fp(a4, a4);
    proof {
        lemma_mulf_fits(a4_sq as int, a4 as int, 10_000_000int, QUARTIC_LIM as int);
        lemma_mulf_fits(a4_sq as int, a4_sq as int, 10_000_000int, 10_000_000int);
    }
    let den_p = 8 * a4_sq;
    let den_q = 8 * mul_fp(a4_sq, a4);
    let den_r = 256 * mul_fp(a4_sq, a4_sq);
    if den_p == 0 || den_q == 0 || den_r == 0 {
        return Roots::Zero;
    }
    proof {
        lemma_mulf_fits(a0 as int, a4 as int, QUARTIC_LIM as int, QUARTIC_LIM as int);
        lemma_mulf_fits(a1 as int, a3 as int, QUARTIC_LIM as int, QUARTIC_LIM as int);
        lemma_mulf_fits(a2 as int, a2 as int, QUARTIC_LIM as int, QUARTIC_LIM as int);
    }
    let delta_part = 12 * mul_fp(a0, a4) - 3 * mul_fp(a1, a3) + mul_fp(a2, a2);
    proof {
        lemma_mulf_fits(a4_sq as int, delta_part as int, 10_000_000int, 160_000_000int);
    }
    let p = div_fp(pp, den_p);
    let q = div_fp(rr, den_q);
    let r = div_fp(dd + 16 * mul_fp(a4_sq, delta_part), den_r);
    if !(-DEP_A2_LIM <= p && p <= DEP_A2_LIM && -DEP_A1_LIM <= q && q <= DEP_A1_LIM && -DEP_A0_LIM
        <= r && r <= DEP_A0_LIM) {
        // Outside the depressed solver's fixed-point window: no roots, a
        // documented limitation of this arithmetic.
        return Roots::Zero;
    }
    let shift = div_fp(a3, 4 * a4);
    let dep = find_roots_quartic_depressed(p, q, r);
    let dv = dep.as_vec();
    let mut roots = Roots::Zero;
    if dv.len() >= 1 {
        roots = roots.add_new_root(dv[0] - shift);
    }
    if dv.len() >= 2 {
        roots = roots.add_new_root(dv[1] - shift);
    }
    if dv.len() >= 3 {
        roots = roots.add_new_root(dv[2] - shift);
    }
    if dv.len() >= 4 {
        roots = roots.add_new_root(dv[3] - shift);
    }
    proof {
        let dset = spec_quartic_depressed_roots(p as int, q as int, r as int);
        let shifted = dset.map(|y: int| y - shift as int);
        assert(roots.vals().to_set() =~= shifted) by {
            assert(forall|k: int| 0 <= k < dep.vals().len() ==> dset.contains(
                #[trigger] dep.vals()[k]));
            assert forall|e: int| roots.vals().to_set().contains(e) implies shifted.contains(
                e) by {
                if e == dv@[0] - shift as int && dv@.len() >= 1 {
                    assert(dset.contains(dep.vals()[0]));
                }
                if e == dv@[1] - shift as int && dv@.len() >= 2 {
                    assert(dset.contains(dep.vals()[1]));
                }
                if e == dv@[2] - shift as int && dv@.len() >= 3 {
                    assert(dset.contains(dep.vals()[2]));
                }
                if e == dv@[3] - shift as int && dv@.len() >= 4 {
                    assert(dset.contains(dep.vals()[3]));
                }
            }
            assert forall|e: int| shifted.contains(e) implies roots.vals().to_set().contains(
                e) by {
                let y = choose|y: int| dset.contains(y) && y - shift as int == e;
                let w = choose|w: int| 0 <= w < dep.vals().len() && dep.vals()[w] == y;
            }
        }
        lemma_sorted_set_bound(roots.vals(), 4_100_000_000_000int);
    }
    roots
}

/// The fixed-point discriminant of the quartic, partially factored to
/// keep intermediates small; binary products associate as written and
/// whole-number factors scale exactly.
pub open spec fn spec_quartic_disc(a4: int, a3: int, a2: int, a1: int, a0: int) -> int {
    let a4a0 = mulf(a4, a0);
    let a3a3 = mulf(a3, a3);
    let a2a2 = mulf(a2, a2);
    let term1 = mulf(
        mulf(a4a0, a4),
        256 * mulf(a4a0, a0) + mulf(a1, 144 * mulf(a2, a1) - 192 * mulf(a3, a0)),
    );
    let term2 = mulf(
        mulf(mulf(a4a0, a2), a2),
        16 * a2a2 - 80 * mulf(a3, a1) - 128 * a4a0,
    );
    let term3 = mulf(
        a3a3,
        mulf(a4a0, 144 * mulf(a2, a0) - 6 * mulf(a1, a1)) + mulf(
            a0,
            18 * mulf(mulf(a3, a2), a1) - 27 * mulf(a3a3, a0) - 4 * mulf(a2a2, a2),
        ) + mulf(mulf(a1, a1), a2a2 - 4 * mulf(a3, a1)),
    );
    let term4 = mulf(
        mulf(mulf(a4, a1), a1),
        18 * mulf(mulf(a3, a2), a1) - 27 * mulf(mulf(a4, a1), a1) - 4 * mulf(a2a2, a2),
    );
    term1 + term2 + term3 + term4
}

/// `8*a4*a2 - 3*a3^2`, the depressed quartic's quadratic coefficient
/// before rescaling.
pub open spec fn spec_quartic_pp(a4: int, a3: int, a2: int) -> int {
    8 * mulf(a4, a2) - 3 * mulf(a3, a3)
}

/// `a3^3 + 8*a4^2*a1 - 4*a4*a3*a2`, the depressed quartic's linear
/// coefficient before rescaling.
pub open spec fn spec_quartic_rr(a4: int, a3: int, a2: int, a1: int) -> int {
    mulf(mulf(a3, a3), a3) + 8 * mulf(mulf(a4, a4), a1) - 4 * mulf(mulf(a4, a3), a2)
}

/// The `D` quantity of the quartic's nature-of-roots classification.
pub open spec fn spec_quartic_dd(a4: int, a3: int, a2: int, a1: int, a0: int) -> int {
    64 * mulf(mulf(mulf(a4, a4), a4), a0) - 16 * mulf(mulf(a4, a4), mulf(a2, a2)) + 16 * mulf(
        mulf(mulf(a4, a3), a3),
        a2,
    ) - 16 * mulf(mulf(mulf(a4, a4), a3), a1) - 3 * mulf(mulf(mulf(a3, a3), a3), a3)
}

/// The roots of `a4*x^4 + a3*x^3 + a2*x^2 + a1*x + a0 == 0`, as a set.
///
/// A vanishing leading or constant coefficient, and the biquadratic form,
/// are unhandled and yield no roots, a documented limitation.  The
/// discriminant's sign picks between the multiple-root special cases and
/// the depressed-quartic reduction.
pub open spec fn spec_quartic_roots(a4: int, a3: int, a2: int, a1: int, a0: int) -> Set<int> {
    if a4 == 0 || a0 == 0 || (a1 == 0 && a3 == 0) {
        Set::empty()
    } else {
        let disc = spec_quartic_disc(a4, a3, a2, a1, a0);
        let pp = spec_quartic_pp(a4, a3, a2);
        let rr = spec_quartic_rr(a4, a3, a2, a1);
        let delta0 = mulf(a2, a2) - 3 * mulf(a3, a1) + 12 * mulf(a4, a0);
        let dd = spec_quartic_dd(a4, a3, a2, a1, a0);
        if disc == 0 {
            if delta0 == 0 && dd == 0 {
                // All four roots coincide.
                Set::empty().insert(divf(-a3, 4 * a4))
            } else if delta0 == 0 {
                // At least three roots coincide: the remainder of dividing
                // the quartic by its second derivative gives one of them.
                let den = 9 * (8 * mulf(mulf(a4, a4), a1) - 4 * mulf(mulf(a4, a3), a2) + mulf(
                    mulf(a3, a3),
                    a3,
                ));
                if den == 0 {
                    Set::empty()
                } else {
                    let x0 = divf(
                        -72 * mulf(mulf(a4, a4), a0) + 10 * mulf(a4, mulf(a2, a2)) - 3 * mulf(
                            mulf(a3, a3),
                            a2,
                        ),
                        den,
                    );
                    Set::empty().insert(x0).insert(-(divf(a3, a4) + 3 * x0))
                }
            } else if dd == 0 && pp > 0 && rr == 0 {
                // Two complex-conjugate double roots.
                Set::empty()
            } else {
                spec_via_depressed_roots(a4, a3, a2, a1, a0, pp, rr, dd)
            }
        } else if disc > 0 && (pp > 0 || dd > 0) {
            // Two pairs of complex-conjugate roots.
            Set::empty()
        } else {
            spec_via_depressed_roots(a4, a3, a2, a1, a0, pp, rr, dd)
        }
    }
}

/// The quartic's classification quantities: discriminant, `P`, `R`,
/// `delta0` and `D`, with the magnitude bounds the caller needs.
#[verifier::rlimit(100)]
fn quartic_classifiers(a4: i64, a3: i64, a2: i64, a1: i64, a0: i64) -> (r: (i64, i64, i64, i64, i64))
    requires
        -QUARTIC_LIM <= a4 <= QUARTIC_LIM,
        -QUARTIC_LIM <= a3 <= QUARTIC_LIM,
        -QUARTIC_LIM <= a2 <= QUARTIC_LIM,
        -QUARTIC_LIM <= a1 <= QUARTIC_LIM,
        -QUARTIC_LIM <= a0 <= QUARTIC_LIM,
    ensures
        r.0 == spec_quartic_disc(a4 as int, a3 as int, a2 as int, a1 as int, a0 as int),
        r.1 == spec_quartic_pp(a4 as int, a3 as int, a2 as int),
        r.2 == spec_quartic_rr(a4 as int, a3 as int, a2 as int, a1 as int),
        r.3 == mulf(a2 as int, a2 as int) - 3 * mulf(a3 as int, a1 as int) + 12 * mulf(a4 as int, a0 as int),
        r.4 == spec_quartic_dd(a4 as int, a3 as int, a2 as int, a1 as int, a0 as int),
        abs_i(r.1 as int) <= 200_000_000,
        abs_i(r.2 as int) <= 20_000_000_000,
        abs_i(r.4 as int) <= 12_000_000_000_000,
{
    let l: Ghost<int> = Ghost(QUARTIC_LIM as int);
    proof {
        lemma_mulf_fits(a4 as int, a0 as int, l@, l@);
        lemma_mulf_fits(a3 as int, a3 as int, l@, l@);
        lemma_mulf_fits(a2 as int, a2 as int, l@, l@);
        lemma_mulf_fits(a2 as int, a1 as int, l@, l@);
        lemma_mulf_fits(a3 as int, a0 as int, l@, l@);
        lemma_mulf_fits(a3 as int, a1 as int, l@, l@);
        lemma_mulf_fits(a2 as int, a0 as int, l@, l@);
        lemma_mulf_fits(a1 as int, a1 as int, l@, l@);
        lemma_mulf_fits(a3 as int, a2 as int, l@, l@);
        lemma_mulf_fits(a4 as int, a2 as int, l@, l@);
        lemma_mulf_fits(a4 as int, a4 as int, l@, l@);
        lemma_mulf_fits(a4 as int, a3 as int, l@, l@);
        lemma_mulf_fits(a4 as int, a1 as int, l@, l@);
    }
    let a4a0 = mul_fp(a4, a0);
    let a3a3 = mul_fp(a3, a3);
    let a2a2 = mul_fp(a2, a2);
    proof {
        lemma_mulf_fits(a4a0 as int, a4 as int, 10_000_000int, l@);
        lemma_mulf_fits(a4a0 as int, a0 as int, 10_000_000int, l@);
        lemma_mulf_fits(
            a1 as int,
            144 * mulf(a2 as int, a1 as int) - 192 * mulf(a3 as int, a0 as int),
            l@,
            3_360_000_000int,
        );
        lemma_mulf_fits(
            mulf(a4a0 as int, a4 as int),
            256 * mulf(a4a0 as int, a0 as int) + mulf(
                a1 as int,
                144 * mulf(a2 as int, a1 as int) - 192 * mulf(a3 as int, a0 as int),
            ),
            1_000_000_000int,
            2_896_000_000_000int,
        );
    }
    let term1 = mul_fp(
        mul_fp(a4a0, a4),
        256 * mul_fp(a4a0, a0) + mul_fp(a1, 144 * mul_fp(a2, a1) - 192 * mul_fp(a3, a0)),
    );
    proof {
        lemma_mulf_fits(a4a0 as int, a2 as int, 10_000_000int, l@);
        lemma_mulf_fits(mulf(a4a0 as int, a2 as int), a2 as int, 1_000_000_000int, l@);
        lemma_mulf_fits(
            mulf(mulf(a4a0 as int, a2 as int), a2 as int),
            16 * mulf(a2 as int, a2 as int) - 80 * mulf(a3 as int, a1 as int) - 128 * mulf(
                a4 as int,
                a0 as int,
            ),
            100_000_000_000int,
            2_240_000_000int,
        );
    }
    let term2 = mul_fp(mul_fp(mul_fp(a4a0, a2), a2), 16 * a2a2 - 80 * mul_fp(a3, a1) - 128 * a4a0);
    proof {
        lemma_mulf_fits(
            a4a0 as int,
            144 * mulf(a2 as int, a0 as int) - 6 * mulf(a1 as int, a1 as int),
            10_000_000int,
            1_500_000_000int,
        );
        lemma_mulf_fits(mulf(a3 as int, a2 as int), a1 as int, 10_000_000int, l@);
        lemma_mulf_fits(a3a3 as int, a0 as int, 10_000_000int, l@);
        lemma_mulf_fits(a2a2 as int, a2 as int, 10_000_000int, l@);
        lemma_mulf_fits(
            a0 as int,
            18 * mulf(mulf(a3 as int, a2 as int), a1 as int) - 27 * mulf(a3a3 as int, a0 as int)
                - 4 * mulf(a2a2 as int, a2 as int),
            l@,
            49_000_000_000int,
        );
        lemma_mulf_fits(
            mulf(a1 as int, a1 as int),
            mulf(a2 as int, a2 as int) - 4 * mulf(a3 as int, a1 as int),
            10_000_000int,
            50_000_000int,
        );
        lemma_mulf_fits(
            a3a3 as int,
            mulf(a4a0 as int, 144 * mulf(a2 as int, a0 as int) - 6 * mulf(a1 as int, a1 as int))
                + mulf(
                a0 as int,
                18 * mulf(mulf(a3 as int, a2 as int), a1 as int) - 27 * mulf(a3a3 as int, a0 as int)
                    - 4 * mulf(a2a2 as int, a2 as int),
            ) + mulf(
                mulf(a1 as int, a1 as int),
                mulf(a2 as int, a2 as int) - 4 * mulf(a3 as int, a1 as int),
            ),
            10_000_000int,
            64_500_000_000_000int,
        );
    }
    let term3 = mul_fp(
        a3a3,
        mul_fp(a4a0, 144 * mul_fp(a2, a0) - 6 * mul_fp(a1, a1)) + mul_fp(
            a0,
            18 * mul_fp(mul_fp(a3, a2), a1) - 27 * mul_fp(a3a3, a0) - 4 * mul_fp(a2a2, a2),
        ) + mul_fp(mul_fp(a1, a1), a2a2 - 4 * mul_fp(a3, a1)),
    );
    proof {
        lemma_mulf_fits(mulf(a4 as int, a1 as int), a1 as int, 10_000_000int, l@);
        lemma_mulf_fits(
            mulf(mulf(a4 as int, a1 as int), a1 as int),
            18 * mulf(mulf(a3 as int, a2 as int), a1 as int) - 27 * mulf(
                mulf(a4 as int, a1 as int),
                a1 as int,
            ) - 4 * mulf(a2a2 as int, a2 as int),
            1_000_000_000int,
            49_000_000_000int,
        );
    }
    let term4 = mul_fp(
        mul_fp(mul_fp(a4, a1), a1),
        18 * mul_fp(mul_fp(a3, a2), a1) - 27 * mul_fp(mul_fp(a4, a1), a1) - 4 * mul_fp(a2a2, a2),
    );
    let discriminant = term1 + term2 + term3 + term4;

    let pp = 8 * mul_fp(a4, a2) - 3 * a3a3;
    proof {
        lemma_mulf_fits(a3a3 as int, a3 as int, 10_000_000int, l@);
        lemma_mulf_fits(mulf(a4 as int, a4 as int), a1 as int, 10_000_000int, l@);
        lemma_mulf_fits(mulf(a4 as int, a3 as int), a2 as int, 10_000_000int, l@);
    }
    let rr = mul_fp(a3a3, a3) + 8 * mul_fp(mul_fp(a4, a4), a1) - 4 * mul_fp(mul_fp(a4, a3), a2);
    let delta0 = a2a2 - 3 * mul_fp(a3, a1) + 12 * a4a0;
    proof {
        lemma_mulf_fits(mulf(a4 as int, a4 as int), a4 as int, 10_000_000int, l@);
        lemma_mulf_fits(
            mulf(mulf(a4 as int, a4 as int), a4 as int),
            a0 as int,
            1_000_000_000int,
            l@,
        );
        lemma_mulf_fits(
            mulf(a4 as int, a4 as int),
            mulf(a2 as int, a2 as int),
            10_000_000int,
            10_000_000int,
        );
        lemma_mulf_fits(mulf(a4 as int, a3 as int), a3 as int, 10_000_000int, l@);
        lemma_mulf_fits(mulf(mulf(a4 as int, a3 as int), a3 as int), a2 as int, 1_000_000_000int, l@);
        lemma_mulf_fits(mulf(a4 as int, a4 as int), a3 as int, 10_000_000int, l@);
        lemma_mulf_fits(mulf(mulf(a4 as int, a4 as int), a3 as int), a1 as int, 1_000_000_000int, l@);
        lemma_mulf_fits(mulf(a3 as int, a3 as int), a3 as int, 10_000_000int, l@);
        lemma_mulf_fits(mulf(mulf(a3 as int, a3 as int), a3 as int), a3 as int, 1_000_000_000int, l@);
    }
    let dd = 64 * mul_fp(mul_fp(mul_fp(a4, a4), a4), a0) - 16 * mul_fp(mul_fp(a4, a4), mul_fp(a2, a2))
        + 16 * mul_fp(mul_fp(mul_fp(a4, a3), a3), a2) - 16 * mul_fp(mul_fp(mul_fp(a4, a4), a3), a1)
        - 3 * mul_fp(mul_fp(mul_fp(a3, a3), a3), a3);

    (discriminant, pp, rr, delta0, dd)
}

/// Solve the quartic equation `a4*x^4 + a3*x^3 + a2*x^2 + a1*x + a0 == 0`.
#[verifier::rlimit(100)]
pub fn find_roots_quartic(a4: i64, a3: i64, a2: i64, a1: i64, a0: i64) -> (roots: Roots)
    requires
        -QUARTIC_LIM <= a4 <= QUARTIC_LIM,
        -QUARTIC_LIM <= a3 <= QUARTIC_LIM,
        -QUARTIC_LIM <= a2 <= QUARTIC_LIM,
        -QUARTIC_LIM <= a1 <= QUARTIC_LIM,
        -QUARTIC_LIM <= a0 <= QUARTIC_LIM,
    ensures
        roots.well_formed(),
        roots.vals().to_set() == spec_quartic_roots(
            a4 as int,
            a3 as int,
            a2 as int,
            a1 as int,
            a0 as int,
        ),
        forall|i: int| 0 <= i < roots.vals().len() ==> abs_i(roots.vals()[i])
            <= QUARTIC_ROOT_LIM,
{
    if a4 == 0 {
        // A cubic in disguise: unhandled, by design.
        return Roots::Zero;
    }
    if a0 == 0 {
        // A zero root with a cubic remainder: unhandled, by design.
        return Roots::Zero;
    }
    if a1 == 0 && a3 == 0 {
        // Biquadratic form: unhandled, by design.
        return Roots::Zero;
    }
    let (discriminant, pp, rr, delta0, dd) = quartic_classifiers(a4, a3, a2, a1, a0);
    proof {
        lemma_mulf_fits(a4 as int, a4 as int, QUARTIC_LIM as int, QUARTIC_LIM as int);
        lemma_mulf_fits(a3 as int, a3 as int, QUARTIC_LIM as int, QUARTIC_LIM as int);
        lemma_mulf_fits(a2 as int, a2 as int, QUARTIC_LIM as int, QUARTIC_LIM as int);
        lemma_mulf_fits(mulf(a4 as int, a4 as int), a1 as int, 10_000_000int, QUARTIC_LIM as int);
        lemma_mulf_fits(a4 as int, a3 as int, QUARTIC_LIM as int, QUARTIC_LIM as int);
        lemma_mulf_fits(mulf(a4 as int, a3 as int), a2 as int, 10_000_000int, QUARTIC_LIM as int);
        lemma_mulf_fits(mulf(a3 as int, a3 as int), a3 as int, 10_000_000int, QUARTIC_LIM as int);
        lemma_mulf_fits(mulf(a3 as int, a3 as int), a2 as int, 10_000_000int, QUARTIC_LIM as int);
        lemma_mulf_fits(mulf(a4 as int, a4 as int), a0 as int, 10_000_000int, QUARTIC_LIM as int);
        lemma_mulf_fits(a4 as int, mulf(a2 as int, a2 as int), QUARTIC_LIM as int, 10_000_000int);
    }
    let a3a3 = mul_fp(a3, a3);
    let a2a2 = mul_fp(a2, a2);
    if discriminant == 0 {
        let triple_root = delta0 == 0;
        let quadruple_root = triple_root && dd == 0;
        let no_roots = dd == 0 && pp > 0 && rr == 0;
        if quadruple_root {
            let roots = Roots::One(div_fp(-a3, 4 * a4));
            proof {
                lemma_single_to_set(divf(-a3 as int, 4 * a4 as int));
                lemma_sorted_set_bound(roots.vals(), QUARTIC_ROOT_LIM as int);
            }
            roots
        } else if triple_root {
            let den = 9 * (8 * mul_fp(mul_fp(a4, a4), a1) - 4 * mul_fp(mul_fp(a4, a3), a2)
                + mul_fp(a3a3, a3));
            if den == 0 {
                return Roots::Zero;
            }
            let x0 = div_fp(
                -72 * mul_fp(mul_fp(a4, a4), a0) + 10 * mul_fp(a4, a2a2) - 3 * mul_fp(a3a3, a2),
                den,
            );
            let roots = Roots::One(x0).add_new_root(-(div_fp(a3, a4) + 3 * x0));
            proof {
                lemma_single_to_set(x0 as int);
                assert(roots.vals().to_set() =~= spec_quartic_roots(
                    a4 as int,
                    a3 as int,
                    a2 as int,
                    a1 as int,
                    a0 as int,
                ));
                lemma_sorted_set_bound(roots.vals(), QUARTIC_ROOT_LIM as int);
            }
            roots
        } else if no_roots {
            Roots::Zero
        } else {
            let roots = find_roots_via_depressed_quartic(a4, a3, a2, a1, a0, pp, rr, dd);
            proof {
                lemma_sorted_set_bound(roots.vals(), QUARTIC_ROOT_LIM as int);
            }
            roots
        }
    } else {
        let no_roots = discriminant > 0 && (pp > 0 || dd > 0);
        if no_roots {
            Roots::Zero
        } else {
            let roots = find_roots_via_depressed_quartic(a4, a3, a2, a1, a0, pp, rr, dd);
            proof {
                lemma_sorted_set_bound(roots.vals(), QUARTIC_ROOT_LIM as int);
            }
            roots
        }
    }
}

/// The value set of a one-element sequence.
proof fn lemma_single_to_set(x: int)
    ensures
        seq![x].to_set() == Set::empty().insert(x),
{
    assert(seq![x][0] == x);
    assert(seq![x].contains(x));
    assert forall|e: int| seq![x].to_set().contains(e) implies e == x by {
        let w = choose|w: int| 0 <= w < seq![x].len() && seq![x][w] == e;
    }
    assert(seq![x].to_set() =~= Set::empty().insert(x));
}

/// Every element of a sequence bounded in a set-respecting way: if all
/// members of the value set are within `m`, so is every entry.
proof fn lemma_sorted_set_bound(s: Seq<int>, m: int)
    requires
        forall|e: int| s.to_set().contains(e) ==> abs_i(e) <= m,
    ensures
        forall|i: int| 0 <= i < s.len() ==> abs_i(s[i]) <= m,
{
    assert forall|i: int| 0 <= i < s.len() implies abs_i(s[i]) <= m by {
        assert(s.contains(s[i]));
        assert(s.to_set().contains(s[i]));
    }
}

/// The ascending, duplicate-free listing of a root set: the one list a
/// well-formed [`Roots`] value with that value set can be.
pub open spec fn spec_canonical(s: Set<int>) -> Seq<int> {
    choose|q: Seq<int>| sorted_unique(q) && q.to_set() == s
}

/// A well-formed root list is the canonical listing of its own value
/// set.
pub proof fn lemma_vals_are_canonical(r: Roots)
    requires
        r.well_formed(),
    ensures
        r.vals() == spec_canonical(r.vals().to_set()),
{
    let q = spec_canonical(r.vals().to_set());
    assert(sorted_unique(r.vals()) && r.vals().to_set() == r.vals().to_set());
    assert(sorted_unique(q) && q.to_set() == r.vals().to_set());
    lemma_root_set_canonical(q, r.vals());
}

/// Two strictly ascending sequences over the same value set are the same
/// sequence: the sorted, deduplicated root list is canonical, so any
/// order of `add_new_root` calls over the same values ends in the same
/// list.
pub proof fn lemma_root_set_canonical(s1: Seq<int>, s2: Seq<int>)
    requires
        sorted_unique(s1),
        sorted_unique(s2),
        s1.to_set() == s2.to_set(),
    ensures
        s1 == s2,
    decreases s1.len(),
{
    if s1.len() == 0 {
        if s2.len() > 0 {
            assert(s2.to_set().contains(s2[0]));
            assert(false);
        }
        assert(s1 =~= s2);
    } else {
        assert(s1.to_set().contains(s1[0]));
        assert(s2.len() > 0) by {
            if s2.len() == 0 {
                assert(!s2.to_set().contains(s1[0]));
            }
        }
        // The heads are both the minimum of the shared set.
        assert(s1[0] == s2[0]) by {
            assert(s1.to_set().contains(s1[0]));
            assert(s2.contains(s1[0]));
            let w1 = choose|w: int| 0 <= w < s2.len() && s2[w] == s1[0];
            assert(s2.to_set().contains(s2[0]));
            assert(s1.contains(s2[0]));
            let w2 = choose|w: int| 0 <= w < s1.len() && s1[w] == s2[0];
            if s1[0] < s2[0] {
                assert(s2[0] <= s2[w1]);
            }
            if s2[0] < s1[0] {
                assert(s1[0] <= s1[w2]);
            }
        }
        let t1 = s1.drop_first();
        let t2 = s2.drop_first();
        assert(t1.to_set() =~= t2.to_set()) by {
            assert forall|e: int| t1.to_set().contains(e) implies t2.to_set().contains(e) by {
                let w = choose|w: int| 0 <= w < t1.len() && t1[w] == e;
                assert(s1[w + 1] == e);
                assert(e > s1[0]);
                assert(s1.contains(e));
                assert(s1.to_set().contains(e));
                assert(s2.contains(e));
                let u = choose|u: int| 0 <= u < s2.len() && s2[u] == e;
                assert(u != 0);
                assert(t2[u - 1] == e);
            }
            assert forall|e: int| t2.to_set().contains(e) implies t1.to_set().contains(e) by {
                let w = choose|w: int| 0 <= w < t2.len() && t2[w] == e;
                assert(s2[w + 1] == e);
                assert(e > s2[0]);
                assert(s2.contains(e));
                assert(s2.to_set().contains(e));
                assert(s1.contains(e));
                let u = choose|u: int| 0 <= u < s1.len() && s1[u] == e;
                assert(u != 0);
                assert(t1[u - 1] == e);
            }
        }
        lemma_root_set_canonical(t1, t2);
        assert(t1.len() == s1.len() - 1);
        assert(t2.len() == s2.len() - 1);
        assert(s1.len() == s2.len());
        assert forall|i: int| 0 <= i < s1.len() implies s1[i] == s2[i] by {
            if i > 0 {
                assert(t1[i - 1] == t2[i - 1]);
            }
        }
        assert(s1 =~= s2);
    }
}

} // verus!
