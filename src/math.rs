use vstd::prelude::*;

verus! {

/// Angles are counted in thousandths of a degree; this is one full turn.
pub const FULL_TURN: i64 = 360_000;

/// A sense of rotation.
pub enum Rotation {
    ClockWise,
    AntiClockWise,
}

impl Rotation {
    /// The sign of the rotation: `1` or `-1`.
    pub open spec fn sign(&self) -> int {
        match self {
            Rotation::ClockWise => 1,
            Rotation::AntiClockWise => -1,
        }
    }

    /// The factor by which this rotation multiplies the turning angle.
    pub fn value(&self) -> (r: i64)
        ensures
            r == self.sign(),
    {
        match self {
            Rotation::ClockWise => 1,
            Rotation::AntiClockWise => -1,
        }
    }
}

/// An angle in one full turn, `0 <= a < FULL_TURN`.
pub open spec fn angle_ok(a: int) -> bool {
    0 <= a < FULL_TURN
}

/// `a` turned by `d`, brought back into one full turn.
pub open spec fn turned(a: int, d: int) -> int {
    (a + d) % (FULL_TURN as int)
}

proof fn lemma_turned_reduced(a: int, v: int, delta: int, d: int)
    requires
        v == 1 || v == -1,
        d == delta % (FULL_TURN as int),
    ensures
        turned(a, v * delta) == (a + v * d) % (FULL_TURN as int),
{
    let f = FULL_TURN as int;
    let q = delta / f;
    vstd::arithmetic::div_mod::lemma_fundamental_div_mod(delta, f);
    assert(a + v * delta == f * (v * q) + (a + v * d)) by (nonlinear_arith)
        requires
            delta == f * q + d,
    ;
    vstd::arithmetic::div_mod::lemma_mod_multiples_vanish(v * q, a + v * d, f);
}

/// Turns `angle` by `delta` in the sense of `rotation`, wrapping into one full
/// turn in either direction.
pub fn rotate_angle(angle: i64, rotation: &Rotation, delta: i64) -> (r: i64)
    requires
        angle_ok(angle as int),
    ensures
        angle_ok(r as int),
        r == turned(angle as int, rotation.sign() * delta),
{
    let d = match delta.checked_rem_euclid(FULL_TURN) {
        Some(d) => d,
        None => 0,
    };
    assert(d == (delta as int) % (FULL_TURN as int));
    let a = angle + rotation.value() * d;
    let ghost f = FULL_TURN as int;
    proof {
        lemma_turned_reduced(angle as int, rotation.sign(), delta as int, d as int);
    }
    if a < 0 {
        proof {
            vstd::arithmetic::div_mod::lemma_mod_add_multiples_vanish(a as int, f);
            vstd::arithmetic::div_mod::lemma_small_mod((a + f) as nat, f as nat);
        }
        a + FULL_TURN
    } else if a >= FULL_TURN {
        proof {
            vstd::arithmetic::div_mod::lemma_mod_sub_multiples_vanish(a as int, f);
            vstd::arithmetic::div_mod::lemma_small_mod((a - f) as nat, f as nat);
        }
        a - FULL_TURN
    } else {
        proof {
            vstd::arithmetic::div_mod::lemma_small_mod(a as nat, f as nat);
        }
        a
    }
}

} // verus!
