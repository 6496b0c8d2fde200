//! Pitches and the integer arithmetic used to build a common time grid.

use vstd::arithmetic::div_mod::{
    lemma_fundamental_div_mod, lemma_mod_multiples_basic, lemma_mod_self_0,
};
use vstd::prelude::*;

verus! {

/// Greatest common divisor, by Euclid's algorithm.
pub open spec fn spec_gcd(a: nat, b: nat) -> nat
    decreases b,
{
    if b == 0 {
        a
    } else {
        spec_gcd(b, a % b)
    }
}

/// Least common multiple of two positive integers.
pub open spec fn spec_lcm(a: nat, b: nat) -> nat {
    a * (b / spec_gcd(a, b))
}

/// `d` divides `n` (for positive `d`).
pub open spec fn divides(d: nat, n: nat) -> bool {
    n % d == 0
}

proof fn lemma_multiple_divisible(d: int, k: int)
    requires
        d > 0,
        k >= 0,
    ensures
        (d * k) % d == 0,
{
    lemma_mod_multiples_basic(k, d);
    assert(d * k == k * d) by (nonlinear_arith);
}

/// The gcd of two integers, not both zero, is positive and divides both.
pub proof fn lemma_gcd_divides(a: nat, b: nat)
    requires
        a > 0 || b > 0,
    ensures
        spec_gcd(a, b) > 0,
        divides(spec_gcd(a, b), a),
        divides(spec_gcd(a, b), b),
    decreases b,
{
    if b == 0 {
        lemma_mod_self_0(a as int);
    } else {
        let g = spec_gcd(a, b);
        let r = a % b;
        lemma_gcd_divides(b, r);
        lemma_fundamental_div_mod(a as int, b as int);
        lemma_fundamental_div_mod(b as int, g as int);
        lemma_fundamental_div_mod(r as int, g as int);
        let x = b / g;
        let y = r / g;
        let q = a / b;
        assert(a == g * (x * q + y)) by (nonlinear_arith)
            requires
                a == b * q + r,
                b == g * x,
                r == g * y,
        ;
        assert(x * q + y >= 0) by (nonlinear_arith)
            requires
                x >= 0,
                q >= 0,
                y >= 0,
        ;
        lemma_multiple_divisible(g as int, (x * q + y) as int);
    }
}

/// The lcm of two positive integers is positive and a multiple of both.
pub proof fn lemma_lcm_multiple(a: nat, b: nat)
    requires
        a > 0,
        b > 0,
    ensures
        spec_lcm(a, b) > 0,
        divides(a, spec_lcm(a, b)),
        divides(b, spec_lcm(a, b)),
{
    let g = spec_gcd(a, b);
    lemma_gcd_divides(a, b);
    lemma_fundamental_div_mod(a as int, g as int);
    lemma_fundamental_div_mod(b as int, g as int);
    let x = a / g;
    let y = b / g;
    assert(y > 0) by (nonlinear_arith)
        requires
            b == g * y,
            b > 0,
            g > 0,
    ;
    assert(a * y > 0) by (nonlinear_arith)
        requires
            a > 0,
            y > 0,
    ;
    assert(a * y == b * x) by (nonlinear_arith)
        requires
            a == g * x,
            b == g * y,
    ;
    lemma_multiple_divisible(a as int, y as int);
    lemma_multiple_divisible(b as int, x as int);
}

/// Divisibility is transitive.
pub proof fn lemma_divides_trans(a: nat, b: nat, c: nat)
    requires
        a > 0,
        b > 0,
        divides(a, b),
        divides(b, c),
    ensures
        divides(a, c),
{
    lemma_fundamental_div_mod(b as int, a as int);
    lemma_fundamental_div_mod(c as int, b as int);
    let p = b / a;
    let q = c / b;
    assert(c == a * (p * q)) by (nonlinear_arith)
        requires
            b == a * p,
            c == b * q,
    ;
    assert(p * q >= 0) by (nonlinear_arith)
        requires
            p >= 0,
            q >= 0,
    ;
    lemma_multiple_divisible(a as int, (p * q) as int);
}

/// A positive multiple of `d` is at least `d`.
pub proof fn lemma_divisor_le(d: nat, n: nat)
    requires
        d > 0,
        n > 0,
        divides(d, n),
    ensures
        d <= n,
{
    lemma_fundamental_div_mod(n as int, d as int);
    let k = n / d;
    assert(d <= n) by (nonlinear_arith)
        requires
            n == d * k,
            n > 0,
            d > 0,
    ;
}

/// Greatest common divisor of two integers.
pub fn gcd(a: u32, b: u32) -> (r: u32)
    ensures
        r == spec_gcd(a as nat, b as nat),
{
    let mut x: u32 = a;
    let mut y: u32 = b;
    while y != 0
        invariant
            spec_gcd(x as nat, y as nat) == spec_gcd(a as nat, b as nat),
        decreases y,
    {
        let t = x % y;
        x = y;
        y = t;
    }
    x
}

/// Least common multiple of two positive integers.
pub fn lcm(a: u32, b: u32) -> (r: u32)
    requires
        a > 0,
        b > 0,
        spec_lcm(a as nat, b as nat) <= u32::MAX,
    ensures
        r == spec_lcm(a as nat, b as nat),
{
    let g = gcd(a, b);
    proof {
        lemma_gcd_divides(a as nat, b as nat);
    }
    let q = b / g;
    a * q
}

/// A MIDI note number; valid pitches lie in `0..=127`.
#[derive(Clone, Copy, PartialEq, Eq, Debug)]
pub struct Midi {
    pub number: u8,
}

/// Highest valid MIDI note number.
pub const MAX_MIDI: u8 = 127;

/// The pitch `semitones` away from `m`, when it is a valid MIDI note.
pub open spec fn spec_transposed(m: Midi, semitones: i8) -> Option<Midi> {
    let n = m.number + semitones;
    if 0 <= n <= MAX_MIDI {
        Some(Midi { number: n as u8 })
    } else {
        None
    }
}

impl Midi {
    /// The note with the given number, if it is a valid MIDI note.
    pub fn new(number: u8) -> (r: Option<Midi>)
        ensures
            r == (if number <= MAX_MIDI {
                Some(Midi { number })
            } else {
                None
            }),
    {
        if number <= MAX_MIDI {
            Some(Midi { number })
        } else {
            None
        }
    }

    /// Moves the pitch by `semitones`; `None` when it would leave `0..=127`.
    pub fn transposed(self, semitones: i8) -> (r: Option<Midi>)
        ensures
            r == spec_transposed(self, semitones),
    {
        let n: i16 = self.number as i16 + semitones as i16;
        if 0 <= n && n <= MAX_MIDI as i16 {
            Some(Midi { number: n as u8 })
        } else {
            None
        }
    }
}

} // verus!
