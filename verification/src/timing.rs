//! Conversion of ticks to milliseconds under a tempo, and scaling of
//! milliseconds by a tempo factor.
//!
//! Every conversion is stated over the integers and computed in a type wide
//! enough for the intermediate values. A result that `u32` cannot hold is
//! reported, never wrapped: a conversion of ticks gives `None`, and a
//! scaling gives back what it was to scale, with a flag.

use vstd::prelude::*;
use crate::util::safe_subtract_spec;
use crate::util::safe_subtract;

verus! {

/// `x` as a `u32` where it is one.
pub open spec fn fits_u32(x: int) -> Option<u32> {
    if 0 <= x <= u32::MAX {
        Some(x as u32)
    } else {
        None
    }
}

/// The quotient of `n` by `d` rounded to the nearest integer, a half
/// rounded up.
pub open spec fn round_div_spec(n: int, d: int) -> int {
    (n + d / 2) / d
}

/// Divides and rounds to the nearest integer, a half up. `None` where the
/// result is above the largest `u32`.
pub fn round_div(n: u64, d: u64) -> (r: Option<u32>)
    requires
        d > 0,
    ensures
        r == fits_u32(round_div_spec(n as int, d as int)),
{
    let q: u128 = (n as u128 + (d / 2) as u128) / (d as u128);
    proof {
        vstd::arithmetic::div_mod::lemma_div_pos_is_pos(n + d / 2, d as int);
    }
    if q > u32::MAX as u128 {
        None
    } else {
        Some(q as u32)
    }
}

/// A factor by which playback time is multiplied, in millionths: the value
/// 1_000_000 leaves time as it is, 500_000 halves every time and so doubles
/// the speed.
#[derive(Clone, Copy, Debug, PartialEq, Eq, Structural)]
pub struct TempoFactor {
    pub millionths: u32,
}

/// `u` multiplied by the factor and rounded to the nearest integer, a half
/// rounded up.
pub open spec fn scaled(f: TempoFactor, u: int) -> int {
    (f.millionths * u + 500_000) / 1_000_000
}

/// Whether `u` multiplied by the factor is above the largest `u32`.
pub open spec fn scaling_overflows(f: TempoFactor, u: u32) -> bool {
    scaled(f, u as int) > u32::MAX
}

/// `u` multiplied by the factor, and `u` itself where the product is above
/// the largest `u32`: what cannot be scaled is kept as it is.
pub open spec fn scaled_or_kept(f: TempoFactor, u: u32) -> u32 {
    if scaling_overflows(f, u) {
        u
    } else {
        scaled(f, u as int) as u32
    }
}

/// The product of two `u32` is not negative, and a `u64` holds it.
pub proof fn lemma_product_fits(a: u32, b: u32)
    ensures
        0 <= a * b <= 0xffff_ffff * 0xffff_ffff,
{
    assert(0 <= a * b <= 0xffff_ffff * 0xffff_ffff) by (nonlinear_arith)
        requires
            0 <= a <= 0xffff_ffff,
            0 <= b <= 0xffff_ffff,
    ;
}

/// Multiplies `u` by the factor and rounds. Where the result is above the
/// largest `u32`, `u` comes back as it is, and the flag reports it.
pub fn factor_u32(f: TempoFactor, u: u32) -> (r: (u32, bool))
    ensures
        r.1 == scaling_overflows(f, u),
        r.0 == scaled_or_kept(f, u),
{
    proof {
        lemma_product_fits(f.millionths, u);
    }
    let mult: u64 = f.millionths as u64 * u as u64;
    let round: u64 = (mult + 500_000) / 1_000_000;
    if round > u32::MAX as u64 {
        (u, true)
    } else {
        (round as u32, false)
    }
}

/// Converts a count of ticks to milliseconds at a tempo of
/// `microseconds_per_quarter`, with `k_ticks_per_quarter` a thousand times
/// the ticks in a quarter note. `None` where the result is above the
/// largest `u32`.
fn ticks_at_tempo(ticks: u32, microseconds_per_quarter: u32, k_ticks_per_quarter: u64) -> (r:
    Option<u32>)
    requires
        k_ticks_per_quarter > 0,
    ensures
        r == fits_u32(
            round_div_spec(ticks * microseconds_per_quarter, k_ticks_per_quarter as int),
        ),
{
    proof {
        lemma_product_fits(ticks, microseconds_per_quarter);
    }
    let numer: u64 = ticks as u64 * microseconds_per_quarter as u64;
    round_div(numer, k_ticks_per_quarter)
}

/// The tempo in force and the point from which it is: the length of a
/// quarter note in microseconds, a thousand times the ticks in a quarter
/// note, and a tick with the millisecond it falls on.
#[derive(Clone, Copy, Debug, PartialEq, Eq, Structural)]
pub struct DynamicTiming {
    pub microseconds_per_quarter: u32,
    pub k_ticks_per_quarter: u64,
    pub ticks_ref: u32,
    pub ms_ref: u32,
}

impl DynamicTiming {
    /// The milliseconds that `ticks` ticks take at this tempo.
    pub open spec fn ticks_ms(&self, ticks: int) -> int {
        round_div_spec(ticks * self.microseconds_per_quarter, self.k_ticks_per_quarter as int)
    }

    /// The millisecond on which the tick `abs_ticks` falls: that of the
    /// reference tick and the time that the ticks since take at this tempo.
    /// A tick before the reference tick falls on the reference millisecond.
    pub open spec fn abs_ticks_ms(&self, abs_ticks: u32) -> int {
        self.ms_ref + self.ticks_ms(safe_subtract_spec(abs_ticks, self.ticks_ref) as int)
    }

    /// This timing once the tempo has changed at tick `curr_ticks`: that
    /// tick, converted under the tempo in force until now, is the new
    /// reference, and the new tempo holds from it on.
    pub open spec fn with_tempo(&self, curr_ticks: u32, microseconds_per_quarter: u32)
        -> DynamicTiming {
        DynamicTiming {
            microseconds_per_quarter,
            k_ticks_per_quarter: self.k_ticks_per_quarter,
            ticks_ref: curr_ticks,
            ms_ref: self.abs_ticks_ms(curr_ticks) as u32,
        }
    }

    /// The timing at the start of a file with the given ticks in a quarter
    /// note: half a second to the quarter note, tick 0 on millisecond 0.
    pub fn new(ticks_per_quarter_note: u16) -> (timing: DynamicTiming)
        ensures
            timing == (DynamicTiming {
                microseconds_per_quarter: 500_000,
                k_ticks_per_quarter: (1000 * ticks_per_quarter_note) as u64,
                ticks_ref: 0,
                ms_ref: 0,
            }),
    {
        DynamicTiming {
            microseconds_per_quarter: 500_000,
            k_ticks_per_quarter: 1000 * (ticks_per_quarter_note as u64),
            ticks_ref: 0,
            ms_ref: 0,
        }
    }

    /// Changes the tempo at tick `curr_ticks`. Ticks before it keep the time
    /// they had; ticks behind it are converted under the new tempo.
    pub fn set_microseconds_per_quarter(&mut self, curr_ticks: u32, microseconds_per_quarter: u32)
        requires
            old(self).k_ticks_per_quarter > 0,
            old(self).abs_ticks_ms(curr_ticks) <= u32::MAX,
        ensures
            *final(self) == old(self).with_tempo(curr_ticks, microseconds_per_quarter),
    {
        let anchor: Option<u32> = self.abs_ticks_to_ms(curr_ticks);
        proof {
            lemma_ticks_ms_nonnegative(
                *self,
                safe_subtract_spec(curr_ticks, self.ticks_ref) as int,
            );
        }
        self.ms_ref = anchor.unwrap();
        self.ticks_ref = curr_ticks;
        self.microseconds_per_quarter = microseconds_per_quarter;
    }

    /// Converts a count of ticks to milliseconds at this tempo. `None` where
    /// the result is above the largest `u32`.
    pub fn ticks_to_ms(&self, ticks: u32) -> (r: Option<u32>)
        requires
            self.k_ticks_per_quarter > 0,
        ensures
            r == fits_u32(self.ticks_ms(ticks as int)),
    {
        ticks_at_tempo(ticks, self.microseconds_per_quarter, self.k_ticks_per_quarter)
    }

    /// Converts an absolute tick to the millisecond it falls on. `None`
    /// where that is above the largest `u32`.
    pub fn abs_ticks_to_ms(&self, abs_ticks: u32) -> (r: Option<u32>)
        requires
            self.k_ticks_per_quarter > 0,
        ensures
            r == fits_u32(self.abs_ticks_ms(abs_ticks)),
    {
        proof {
            lemma_ticks_ms_nonnegative(
                *self,
                safe_subtract_spec(abs_ticks, self.ticks_ref) as int,
            );
        }
        match self.ticks_to_ms(safe_subtract(abs_ticks, self.ticks_ref)) {
            None => None,
            Some(add) => self.ms_ref.checked_add(add),
        }
    }
}

/// The rounded quotient of a number that is not negative by a positive one
/// is not negative.
pub proof fn lemma_round_div_nonnegative(n: int, d: int)
    requires
        n >= 0,
        d > 0,
    ensures
        round_div_spec(n, d) >= 0,
{
    vstd::arithmetic::div_mod::lemma_div_pos_is_pos(n + d / 2, d);
}

/// A count of ticks that is not negative takes a time that is not negative.
pub proof fn lemma_ticks_ms_nonnegative(timing: DynamicTiming, ticks: int)
    requires
        ticks >= 0,
        timing.k_ticks_per_quarter > 0,
    ensures
        timing.ticks_ms(ticks) >= 0,
{
    assert(ticks * timing.microseconds_per_quarter >= 0) by (nonlinear_arith)
        requires
            ticks >= 0,
            timing.microseconds_per_quarter >= 0,
    ;
    vstd::arithmetic::div_mod::lemma_div_pos_is_pos(
        ticks * timing.microseconds_per_quarter + timing.k_ticks_per_quarter as int / 2,
        timing.k_ticks_per_quarter as int,
    );
}

/// A tempo change re-anchors the conversion: a tick at or behind the change
/// falls on the millisecond of the change, as the tempo before it gave it,
/// and the time that the ticks since the change take under the new tempo.
/// The tempo before the change has no part in those ticks, and the new
/// tempo none in the ticks before.
pub proof fn lemma_tempo_change_reanchors(
    timing: DynamicTiming,
    change: u32,
    microseconds_per_quarter: u32,
    tick: u32,
)
    requires
        timing.k_ticks_per_quarter > 0,
        timing.abs_ticks_ms(change) <= u32::MAX,
        tick >= change,
    ensures
        timing.with_tempo(change, microseconds_per_quarter).abs_ticks_ms(tick)
            == timing.abs_ticks_ms(change) + round_div_spec(
            (tick - change) * microseconds_per_quarter,
            timing.k_ticks_per_quarter as int,
        ),
        timing.with_tempo(change, microseconds_per_quarter).abs_ticks_ms(change)
            == timing.abs_ticks_ms(change),
{
    lemma_ticks_ms_nonnegative(timing, safe_subtract_spec(change, timing.ticks_ref) as int);
    let after = timing.with_tempo(change, microseconds_per_quarter);
    assert(after.ms_ref == timing.abs_ticks_ms(change));
    assert(after.ticks_ms(0) == 0) by {
        assert(0 * after.microseconds_per_quarter == 0);
        vstd::arithmetic::div_mod::lemma_basic_div(
            after.k_ticks_per_quarter as int / 2,
            after.k_ticks_per_quarter as int,
        );
    }
}

/// Where a count of ticks takes a whole number of milliseconds at a tempo,
/// it takes exactly twice as many at the tempo with twice the microseconds
/// to the quarter note.
pub proof fn lemma_doubled_tempo_doubles_time(ticks: int, microseconds_per_quarter: int, k: int)
    requires
        ticks >= 0,
        microseconds_per_quarter >= 0,
        k > 0,
        (ticks * microseconds_per_quarter) % k == 0,
    ensures
        round_div_spec(ticks * (2 * microseconds_per_quarter), k) == 2 * round_div_spec(
            ticks * microseconds_per_quarter,
            k,
        ),
{
    let x = ticks * microseconds_per_quarter;
    let a = x / k;
    vstd::arithmetic::div_mod::lemma_fundamental_div_mod(x, k);
    assert(x == k * a);
    assert(ticks * (2 * microseconds_per_quarter) == 2 * x) by (nonlinear_arith)
        requires
            x == ticks * microseconds_per_quarter,
    ;
    assert(k * a == a * k) by (nonlinear_arith);
    assert(2 * x == (2 * a) * k) by (nonlinear_arith)
        requires
            x == a * k,
    ;
    vstd::arithmetic::div_mod::lemma_fundamental_div_mod_converse(x + k / 2, k, a, k / 2);
    vstd::arithmetic::div_mod::lemma_fundamental_div_mod_converse(
        2 * x + k / 2,
        k,
        2 * a,
        k / 2,
    );
}

/// A tempo that does not change: the length of a quarter note in
/// microseconds and a thousand times the ticks in a quarter note.
#[derive(Clone, Copy, Debug, PartialEq, Eq, Structural)]
pub struct Timing {
    pub microseconds_per_quarter: u32,
    pub k_ticks_per_quarter: u64,
}

impl Timing {
    /// The milliseconds that `ticks` ticks take at this tempo.
    pub open spec fn ticks_ms(&self, ticks: int) -> int {
        round_div_spec(ticks * self.microseconds_per_quarter, self.k_ticks_per_quarter as int)
    }

    /// Converts a count of ticks to milliseconds at this tempo. `None` where
    /// the result is above the largest `u32`.
    pub fn ticks_to_ms(&self, ticks: u32) -> (r: Option<u32>)
        requires
            self.k_ticks_per_quarter > 0,
        ensures
            r == fits_u32(self.ticks_ms(ticks as int)),
    {
        ticks_at_tempo(ticks, self.microseconds_per_quarter, self.k_ticks_per_quarter)
    }
}

/// Raises `var` to `val` where it is below.
pub fn max_by(var: &mut u32, val: u32)
    ensures
        *final(var) == if *old(var) < val {
            val
        } else {
            *old(var)
        },
{
    if *var < val {
        *var = val;
    }
}

} // verus!
