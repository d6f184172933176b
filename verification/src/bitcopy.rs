//! Bit-replication ("bitcopy") arithmetic: expanding a narrow sample to a
//! wider container by repeating its high bits into the vacated low bits,
//! and the bracketing-interpolation math built on top of it.

use vstd::prelude::*;
use vstd::arithmetic::power2::{
    pow2, lemma_pow2_adds, lemma_pow2_pos, lemma_pow2_strictly_increases, lemma2_to64,
};
use vstd::arithmetic::div_mod::{
    lemma_div_decreases, lemma_fundamental_div_mod, lemma_small_mod,
};
use vstd::bits::{
    low_bits_mask, lemma_usize_low_bits_mask_is_mod, lemma_usize_shl_is_mul,
    lemma_usize_shr_is_div,
};

verus! {

/// Field describing a `bits`-wide sample held in the top bits of a
/// `container`-bit word.  `container` stays below 32 so that every shift
/// is defined on every platform word size.
#[derive(Copy, Clone)]
pub struct BitCopyField {
    pub bits: usize,
    pub container: usize,
    pub shift: usize,
    pub uppermask: usize,
    pub lowermask: usize,
}

/// What the replication loop adds below an initial piece `v`: the sum of
/// `v` divided by ever higher powers of `pow2(bits)` until it reaches zero.
pub open spec fn spec_rep_tail(v: nat, bits: nat) -> nat
    decreases v,
    via spec_rep_tail_decreases
{
    if v == 0 || bits == 0 {
        0
    } else {
        let w = v / pow2(bits);
        w + spec_rep_tail(w, bits)
    }
}

#[via_fn]
proof fn spec_rep_tail_decreases(v: nat, bits: nat) {
    if v != 0 && bits != 0 {
        lemma2_to64();
        lemma_pow2_strictly_increases(0, bits);
        lemma_div_decreases(v as int, pow2(bits) as int);
    }
}

/// The `bits`-wide sample `low` placed at bit offset `shift` with its own
/// bits repeated downward into the low `shift` bits.
pub open spec fn spec_rep(low: nat, bits: nat, shift: nat) -> nat {
    low * pow2(shift) + spec_rep_tail(low * pow2(shift), bits)
}

/// The bitcopy of `value`: its top `bits`-wide sample (of the low
/// `container` bits) replicated downward.  A zero-width sample collapses
/// to zero.
pub open spec fn spec_bitcopy(bits: nat, container: nat, value: nat) -> nat
    recommends
        bits <= container,
{
    if bits == 0 {
        0
    } else {
        spec_rep(
            (value / pow2((container - bits) as nat)) % pow2(bits),
            bits,
            (container - bits) as nat,
        )
    }
}

/// The tail of a replication is small: `spec_rep_tail(v, bits)` times
/// `pow2(bits) - 1` never reaches `v`.
pub proof fn lemma_rep_tail_bound(v: nat, bits: nat)
    requires
        bits >= 1,
    ensures
        spec_rep_tail(v, bits) * (pow2(bits) - 1) <= (if v == 0 {
            0nat
        } else {
            (v - 1) as nat
        }),
    decreases v,
{
    lemma2_to64();
    lemma_pow2_strictly_increases(0, bits);
    if v != 0 {
        let p = pow2(bits);
        let w = v / p;
        lemma_div_decreases(v as int, p as int);
        lemma_rep_tail_bound(w, bits);
        lemma_fundamental_div_mod(v as int, p as int);
        if w == 0 {
            assert(spec_rep_tail(v, bits) == 0 + spec_rep_tail(0, bits));
        } else {
            assert((w + spec_rep_tail(w, bits)) * (p - 1) == w * (p - 1) + spec_rep_tail(w, bits)
                * (p - 1)) by (nonlinear_arith);
            assert(w * (p - 1) + (w - 1) == w * p - 1) by (nonlinear_arith);
            assert(w * p <= v) by (nonlinear_arith)
                requires
                    v == p * w + v % p,
                    v % p >= 0,
            ;
        }
    }
}

/// Bounds of a replication: it starts at `low * pow2(shift)` and stays
/// within one step of it, hence below `pow2(bits + shift)`.
pub proof fn lemma_rep_bounds(low: nat, bits: nat, shift: nat)
    requires
        bits >= 1,
        low < pow2(bits),
    ensures
        low * pow2(shift) <= spec_rep(low, bits, shift),
        spec_rep(low, bits, shift) < low * pow2(shift) + pow2(shift),
        spec_rep(low, bits, shift) < pow2((bits + shift) as nat),
{
    let p = pow2(bits);
    let q = pow2(shift);
    let v0 = low * q;
    lemma_pow2_pos(bits);
    lemma_pow2_pos(shift);
    lemma_pow2_adds(bits, shift);
    lemma_rep_tail_bound(v0, bits);
    if v0 == 0 {
        assert(spec_rep_tail(v0, bits) == 0);
    } else {
        // rep_tail * (p - 1) <= v0 - 1 <= (p - 1) * q - 1, so rep_tail < q
        assert(low * q <= (p - 1) * q) by (nonlinear_arith)
            requires
                low < p,
                q > 0,
        ;
        assert(spec_rep_tail(v0, bits) < q) by (nonlinear_arith)
            requires
                spec_rep_tail(v0, bits) * (p - 1) <= v0 - 1,
                v0 <= (p - 1) * q,
                p >= 2,
                q > 0,
        ;
    }
    assert(low * q + q <= p * q) by (nonlinear_arith)
        requires
            low < p,
            q > 0,
    ;
}

/// Replication keeps the order of samples strictly.
pub proof fn lemma_rep_monotone(l1: nat, l2: nat, bits: nat, shift: nat)
    requires
        bits >= 1,
        l1 < l2,
        l2 < pow2(bits),
    ensures
        spec_rep(l1, bits, shift) < spec_rep(l2, bits, shift),
{
    let q = pow2(shift);
    lemma_rep_bounds(l1, bits, shift);
    lemma_rep_bounds(l2, bits, shift);
    assert(l1 * q + q <= l2 * q) by (nonlinear_arith)
        requires
            l1 < l2,
            q > 0,
    ;
}

/// The top sample of a replication is the sample it was made from.
pub proof fn lemma_rep_top(low: nat, bits: nat, shift: nat)
    requires
        bits >= 1,
        low < pow2(bits),
    ensures
        spec_rep(low, bits, shift) / pow2(shift) == low,
        (spec_rep(low, bits, shift) / pow2(shift)) % pow2(bits) == low,
{
    let q = pow2(shift);
    let r = spec_rep(low, bits, shift);
    lemma_pow2_pos(shift);
    lemma_rep_bounds(low, bits, shift);
    assert(r / q == low) by (nonlinear_arith)
        requires
            q > 0,
            low * q <= r < low * q + q,
    ;
    lemma_small_mod(low, pow2(bits));
}

/// Bitcopy reproduces itself: replicating an already replicated value
/// changes nothing.  Moreover the result never strays further than one
/// step of size `pow2(container - bits)` above the floored input.
pub proof fn lemma_bitcopy_idempotent(bits: nat, container: nat, value: nat)
    requires
        bits <= container,
    ensures
        spec_bitcopy(bits, container, spec_bitcopy(bits, container, value)) == spec_bitcopy(
            bits,
            container,
            value,
        ),
        bits >= 1 ==> {
            let low = (value / pow2((container - bits) as nat)) % pow2(bits);
            let floored = low * pow2((container - bits) as nat);
            floored <= spec_bitcopy(bits, container, value) < floored + pow2(
                (container - bits) as nat,
            )
        },
{
    if bits >= 1 {
        let shift = (container - bits) as nat;
        let low = (value / pow2(shift)) % pow2(bits);
        lemma_pow2_pos(bits);
        vstd::arithmetic::div_mod::lemma_mod_bound(
            (value / pow2(shift)) as int,
            pow2(bits) as int,
        );
        lemma_rep_bounds(low, bits, shift);
        lemma_rep_top(low, bits, shift);
    }
}

impl BitCopyField {
    /// A well-formed field: the widths are consistent and the cached
    /// masks are what they claim to be.
    pub open spec fn wf(&self) -> bool {
        &&& self.bits <= self.container
        &&& self.container < 32
        &&& self.shift == self.container - self.bits
        &&& self.lowermask == (pow2(self.bits as nat) - 1) as usize
        &&& self.uppermask == ((pow2(self.bits as nat) - 1) * pow2(self.shift as nat)) as usize
    }

    /// The bitcopy of `value` under this field, as a mathematical value.
    pub open spec fn spec_bitcopy_of(&self, value: nat) -> nat {
        spec_bitcopy(self.bits as nat, self.container as nat, value)
    }

    /// The top sample of `value`: its low `container` bits shifted down
    /// to the sample scale.
    pub open spec fn spec_low(&self, value: nat) -> nat {
        (value / pow2(self.shift as nat)) % pow2(self.bits as nat)
    }

    /// Builds the field for a `bits`-wide sample in a `container`-bit
    /// word, computing the derived shift and masks.
    pub fn new(bits: usize, container: usize) -> (r: BitCopyField)
        requires
            bits <= container,
            container < 32,
        ensures
            r.wf(),
            r.bits == bits,
            r.container == container,
    {
        let shift = container - bits;
        proof {
            lemma2_to64();
            lemma_pow2_strictly_increases(bits as nat, 32);
            lemma_usize_shl_is_mul(1usize, bits);
        }
        let lowermask = (1usize << bits) - 1;
        proof {
            lemma_pow2_strictly_increases(container as nat, 32);
            lemma_pow2_adds(bits as nat, shift as nat);
            assert((pow2(bits as nat) - 1) * pow2(shift as nat) < pow2(bits as nat) * pow2(
                shift as nat,
            )) by (nonlinear_arith)
                requires
                    pow2(bits as nat) >= 1,
                    pow2(shift as nat) >= 1,
            ;
            lemma_usize_shl_is_mul(lowermask, shift);
        }
        let uppermask = lowermask << shift;
        BitCopyField { bits, container, shift, uppermask, lowermask }
    }

    /// Upper bits mask.
    #[inline]
    pub fn uppermask(&self) -> (r: usize)
        ensures
            r == self.uppermask,
    {
        self.uppermask
    }

    /// Lower bits mask.
    #[inline]
    pub fn lowermask(&self) -> (r: usize)
        ensures
            r == self.lowermask,
    {
        self.lowermask
    }

    /// Shift.
    #[inline]
    pub fn shift(&self) -> (r: usize)
        ensures
            r == self.shift,
    {
        self.shift
    }

    /// Bits.
    #[inline]
    pub fn bits(&self) -> (r: usize)
        ensures
            r == self.bits,
    {
        self.bits
    }

    /// Shifts a container-scale value down to the sample scale.
    #[inline]
    pub fn shiftdown(&self, value: usize) -> (r: usize)
        requires
            self.wf(),
        ensures
            r == value as nat / pow2(self.shift as nat),
    {
        proof {
            lemma_usize_shr_is_div(value, self.shift);
        }
        value >> self.shift
    }

    /// Shifts a sample-scale value up and replicates it across the
    /// container.
    pub fn shiftup(&self, value: usize) -> (r: usize)
        requires
            self.wf(),
            value <= self.lowermask,
        ensures
            self.bits >= 1 ==> r == spec_rep(value as nat, self.bits as nat, self.shift as nat),
            self.bits == 0 ==> r == 0,
            r == self.spec_bitcopy_of((value * pow2(self.shift as nat)) as nat),
    {
        proof {
            lemma_pow2_pos(self.bits as nat);
            lemma_pow2_pos(self.shift as nat);
            lemma_pow2_adds(self.bits as nat, self.shift as nat);
            lemma_pow2_strictly_increases(self.container as nat, 32);
            lemma2_to64();
            assert(value * pow2(self.shift as nat) < pow2(self.bits as nat) * pow2(
                self.shift as nat,
            )) by (nonlinear_arith)
                requires
                    value < pow2(self.bits as nat),
                    pow2(self.shift as nat) > 0,
            ;
            lemma_usize_shl_is_mul(value, self.shift);
            vstd::arithmetic::div_mod::lemma_div_by_multiple(
                value as int,
                pow2(self.shift as nat) as int,
            );
            lemma_small_mod(value as nat, pow2(self.bits as nat));
        }
        self.bitcopy(value << self.shift)
    }

    /// Floors `value` to its top sample and replicates that sample
    /// downward through the container.
    pub fn bitcopy(&self, value: usize) -> (r: usize)
        requires
            self.wf(),
        ensures
            r == self.spec_bitcopy_of(value as nat),
            r < pow2(self.container as nat),
    {
        proof {
            lemma_pow2_pos(self.container as nat);
        }
        if self.bits == 0 {
            return 0;
        }
        proof {
            lemma_usize_shr_is_div(value, self.shift);
            lemma_usize_low_bits_mask_is_mod((value >> self.shift) as usize, self.bits as nat);
            lemma_pow2_strictly_increases(self.bits as nat, 32);
            lemma_pow2_strictly_increases(self.container as nat, 32);
            lemma2_to64();
        }
        let low = (value >> self.shift) & self.lowermask;
        proof {
            lemma_pow2_pos(self.bits as nat);
            vstd::arithmetic::div_mod::lemma_mod_bound(
                (value as nat / pow2(self.shift as nat)) as int,
                pow2(self.bits as nat) as int,
            );
            lemma_pow2_adds(self.bits as nat, self.shift as nat);
            assert(low * pow2(self.shift as nat) < pow2(self.bits as nat) * pow2(
                self.shift as nat,
            )) by (nonlinear_arith)
                requires
                    low < pow2(self.bits as nat),
                    pow2(self.shift as nat) > 0,
            ;
            lemma_usize_shl_is_mul(low, self.shift);
            lemma_rep_bounds(low as nat, self.bits as nat, self.shift as nat);
        }
        let v0 = low << self.shift;
        let mut v = v0;
        let mut copyable = v0;
        while copyable != 0
            invariant
                self.wf(),
                self.bits >= 1,
                v0 < pow2(self.container as nat),
                v + spec_rep_tail(copyable as nat, self.bits as nat) == v0 + spec_rep_tail(
                    v0 as nat,
                    self.bits as nat,
                ),
                v0 + spec_rep_tail(v0 as nat, self.bits as nat) < pow2(self.container as nat),
            decreases copyable,
        {
            proof {
                lemma_usize_shr_is_div(copyable, self.bits);
                lemma2_to64();
                lemma_pow2_strictly_increases(0, self.bits as nat);
                lemma_div_decreases(copyable as int, pow2(self.bits as nat) as int);
            }
            copyable = copyable >> self.bits;
            v = v + copyable;
        }
        proof {
            assert(spec_rep_tail(0, self.bits as nat) == 0);
        }
        v
    }

    /// Steps down to the previous representable value, or nothing at the
    /// zero boundary.
    pub fn prev(&self, value: usize) -> (r: Option<usize>)
        requires
            self.wf(),
            value < pow2(self.container as nat),
        ensures
            match r {
                Some(p) => self.spec_low(value as nat) > 0 && p == spec_rep(
                    (self.spec_low(value as nat) - 1) as nat,
                    self.bits as nat,
                    self.shift as nat,
                ),
                None => self.spec_low(value as nat) == 0,
            },
    {
        proof {
            self.lemma_low_in_range(value as nat);
            lemma2_to64();
            lemma_pow2_strictly_increases(self.bits as nat, 32);
        }
        let low = self.shiftdown(value);
        if low == 0 {
            None
        } else {
            Some(self.shiftup(low - 1))
        }
    }

    /// Steps up to the next representable value, or nothing at the top
    /// (`lowermask`) boundary.
    pub fn next(&self, value: usize) -> (r: Option<usize>)
        requires
            self.wf(),
            value < pow2(self.container as nat),
        ensures
            match r {
                Some(p) => self.spec_low(value as nat) < (pow2(self.bits as nat) - 1) && p
                    == spec_rep(
                    (self.spec_low(value as nat) + 1) as nat,
                    self.bits as nat,
                    self.shift as nat,
                ),
                None => self.spec_low(value as nat) == pow2(self.bits as nat) - 1,
            },
    {
        proof {
            self.lemma_low_in_range(value as nat);
            lemma2_to64();
            lemma_pow2_strictly_increases(self.bits as nat, 32);
        }
        let low = self.shiftdown(value);
        if low == self.lowermask {
            None
        } else {
            Some(self.shiftup(low + 1))
        }
    }

    /// For a value inside the container, shifting down never leaves the
    /// sample range, so the top sample needs no masking.
    pub proof fn lemma_low_in_range(&self, value: nat)
        requires
            self.wf(),
            value < pow2(self.container as nat),
        ensures
            value / pow2(self.shift as nat) < pow2(self.bits as nat),
            self.spec_low(value) == value / pow2(self.shift as nat),
    {
        lemma_pow2_pos(self.shift as nat);
        lemma_pow2_pos(self.bits as nat);
        lemma_pow2_adds(self.bits as nat, self.shift as nat);
        assert(value / pow2(self.shift as nat) < pow2(self.bits as nat)) by (nonlinear_arith)
            requires
                value < pow2(self.bits as nat) * pow2(self.shift as nat),
                pow2(self.shift as nat) > 0,
        ;
        lemma_small_mod(value / pow2(self.shift as nat), pow2(self.bits as nat));
    }
}

/// Interpolation data between two adjacent replicated values: `from` and
/// `to` bracket the original value, and `frac_num / frac_div` is its
/// fractional position between them.
#[derive(Copy, Clone, PartialEq, Eq, Structural, Debug)]
pub struct BitCopyInterpolation {
    /// Source
    pub from: usize,
    /// Target
    pub to: usize,
    /// Numerator side of fraction
    pub frac_num: usize,
    /// Divisor side of fraction
    pub frac_div: usize,
}

/// The approximate linear-light intensity of an 8-bit gamma-encoded
/// sample, in 0.16 fixed point: a monotone power curve (the square of the
/// sample), scaled so that 255 maps to exactly 65536.
pub open spec fn spec_linear_light(v: nat) -> nat {
    (v * v * 65536) / 65025
}

/// The linear-light curve keeps the order of samples, strictly.
pub proof fn lemma_linear_light_monotone(a: nat, b: nat)
    requires
        a <= b,
        b < 256,
    ensures
        spec_linear_light(a) <= spec_linear_light(b),
        a < b ==> spec_linear_light(a) < spec_linear_light(b),
        spec_linear_light(b) <= 65536,
{
    let av = a * a * 65536;
    let bv = b * b * 65536;
    assert(a * a * 65536 <= b * b * 65536) by (nonlinear_arith)
        requires
            a <= b,
    ;
    vstd::arithmetic::div_mod::lemma_div_is_ordered(av as int, bv as int, 65025);
    if a < b {
        assert(b * b * 65536 >= a * a * 65536 + 65536) by (nonlinear_arith)
            requires
                a < b,
        ;
        assert(av / 65025 < bv / 65025) by (nonlinear_arith)
            requires
                bv >= av + 65536,
        ;
    }
    assert(b * b * 65536 <= 255 * 255 * 65536) by (nonlinear_arith)
        requires
            b <= 255,
    ;
    vstd::arithmetic::div_mod::lemma_div_is_ordered(bv as int, (255 * 255 * 65536) as int, 65025);
}

/// Computes the linear-light intensity of an 8-bit sample.
pub fn linear_light(v: usize) -> (r: usize)
    requires
        v < 256,
    ensures
        r == spec_linear_light(v as nat),
        r <= 65536,
{
    proof {
        lemma_linear_light_monotone(v as nat, v as nat);
        assert(v * v * 65536 <= 255 * 255 * 65536) by (nonlinear_arith)
            requires
                v <= 255,
        ;
    }
    (v * v * 65536) / 65025
}

impl BitCopyField {
    /// The bracketing pair for `value`: the nearest replicated value not
    /// above it, the next one up (or the same at the top of the range),
    /// and the fractional position of `value` between the two, measured
    /// directly or along the linear-light curve.
    pub open spec fn spec_interpolation(
        &self,
        value: nat,
        interpolate_in_linear_light: bool,
    ) -> BitCopyInterpolation
        recommends
            self.wf(),
            value < pow2(self.container as nat),
    {
        let bits = self.bits as nat;
        let shift = self.shift as nat;
        let bc = self.spec_bitcopy_of(value);
        let low = self.spec_low(value);
        let here_low = if bc <= value {
            low
        } else {
            (low - 1) as nat
        };
        let here = spec_rep(here_low, bits, shift);
        if here_low == pow2(bits) - 1 {
            BitCopyInterpolation {
                from: here as usize,
                to: here as usize,
                frac_num: 1,
                frac_div: 1,
            }
        } else {
            let to = spec_rep((here_low + 1) as nat, bits, shift);
            if interpolate_in_linear_light {
                let here_intensity = spec_linear_light(here);
                let value_intensity = spec_linear_light(value);
                let next_intensity = spec_linear_light(to);
                let intensity_distance = (next_intensity - here_intensity) as nat;
                let scale = pow2(self.container as nat);
                let position = if intensity_distance == 0 {
                    0nat
                } else {
                    (((value_intensity - here_intensity) as nat) * scale) / intensity_distance
                };
                let position_bounded = if position > scale - 1 {
                    (scale - 1) as nat
                } else {
                    position
                };
                BitCopyInterpolation {
                    from: here as usize,
                    to: to as usize,
                    frac_num: position_bounded as usize,
                    frac_div: scale as usize,
                }
            } else {
                BitCopyInterpolation {
                    from: here as usize,
                    to: to as usize,
                    frac_num: (value - here) as usize,
                    frac_div: (to - here) as usize,
                }
            }
        }
    }

    /// Finds the bracketing interpolation pair for a container-scale
    /// value.  In linear-light mode the fraction follows the perceptual
    /// curve; that mode works on 8-bit containers.
    pub fn interpolation(
        &self,
        value: usize,
        interpolate_in_linear_light: bool,
    ) -> (r: BitCopyInterpolation)
        requires
            self.wf(),
            value < pow2(self.container as nat),
            interpolate_in_linear_light ==> self.container == 8,
        ensures
            r == self.spec_interpolation(value as nat, interpolate_in_linear_light),
            r.from <= value,
            r.to >= value || r.from == r.to,
            r.from < pow2(self.container as nat),
            r.to < pow2(self.container as nat),
            r.frac_num <= r.frac_div,
            1 <= r.frac_div <= pow2(self.container as nat),
    {
        let ghost bits = self.bits as nat;
        let ghost shift = self.shift as nat;
        let ghost low = self.spec_low(value as nat);
        proof {
            self.lemma_low_in_range(value as nat);
            lemma_pow2_pos(bits);
            lemma_pow2_pos(shift);
            lemma_pow2_pos(self.container as nat);
            lemma_pow2_adds(bits, shift);
            lemma2_to64();
            lemma_pow2_strictly_increases(self.bits as nat, 32);
            lemma_fundamental_div_mod(value as int, pow2(shift) as int);
        }
        let bc = self.bitcopy(value);
        let ghost here_low: nat = if bc <= value {
            low
        } else {
            (low - 1) as nat
        };
        // When the replication overshoots the value, a smaller replicated
        // value exists: the overshoot came from a non-zero tail.
        let here = if bc <= value {
            bc
        } else {
            proof {
                if self.bits == 0 || low == 0 {
                    assert(self.spec_bitcopy_of(value as nat) == 0);
                }
                lemma_rep_top(low, bits, shift);
                lemma_rep_bounds((low - 1) as nat, bits, shift);
                assert((low - 1) * pow2(shift) + pow2(shift) == low * pow2(shift))
                    by (nonlinear_arith);
            }
            let bc_low = self.shiftdown(bc);
            self.shiftup(bc_low - 1)
        };
        proof {
            if self.bits == 0 {
                assert(here_low == 0 && low == 0);
                assert(here == 0 && spec_rep(0, 0, shift) == 0);
            } else {
                lemma_rep_bounds(here_low, bits, shift);
                lemma_rep_top(here_low, bits, shift);
                if bc <= value {
                    assert(low * pow2(shift) <= value);
                } else {
                    assert((low - 1) * pow2(shift) + pow2(shift) == low * pow2(shift))
                        by (nonlinear_arith);
                }
            }
            assert(here == spec_rep(here_low, bits, shift));
            assert(here <= value);
            assert(self.spec_low(here as nat) == here_low);
        }
        let next_val = self.next(here);
        match next_val {
            Some(next) => {
                proof {
                    assert(here_low < pow2(bits) - 1);
                    assert(next == spec_rep((here_low + 1) as nat, bits, shift));
                    lemma_rep_bounds((here_low + 1) as nat, bits, shift);
                    lemma_rep_monotone(here_low, (here_low + 1) as nat, bits, shift);
                    // value sits strictly below the next replicated value
                    if bc <= value {
                        assert((low + 1) * pow2(shift) == low * pow2(shift) + pow2(shift))
                            by (nonlinear_arith);
                    }
                    assert(value < next);
                }
                if interpolate_in_linear_light {
                    proof {
                        lemma_linear_light_monotone(here as nat, value as nat);
                        lemma_linear_light_monotone(value as nat, next as nat);
                        lemma_usize_shl_is_mul(1usize, self.container);
                    }
                    let here_intensity = linear_light(here);
                    let value_intensity = linear_light(value);
                    let next_intensity = linear_light(next);
                    let intensity_distance = next_intensity - here_intensity;
                    let scale = 1usize << self.container;
                    let position = if intensity_distance == 0 {
                        0
                    } else {
                        proof {
                            assert((value_intensity - here_intensity) * scale <= 65536 * 256)
                                by (nonlinear_arith)
                                requires
                                    value_intensity - here_intensity <= 65536,
                                    scale == 256,
                            ;
                            vstd::arithmetic::div_mod::lemma_div_nonincreasing(
                                ((value_intensity - here_intensity) * scale) as int,
                                intensity_distance as int,
                            );
                        }
                        ((value_intensity - here_intensity) * scale) / intensity_distance
                    };
                    let limit = scale - 1;
                    let position_bounded = if position > limit {
                        limit
                    } else {
                        position
                    };
                    BitCopyInterpolation {
                        from: here,
                        to: next,
                        frac_num: position_bounded,
                        frac_div: scale,
                    }
                } else {
                    BitCopyInterpolation {
                        from: here,
                        to: next,
                        frac_num: value - here,
                        frac_div: next - here,
                    }
                }
            },
            None => {
                BitCopyInterpolation { from: here, to: here, frac_num: 1, frac_div: 1 }
            },
        }
    }
}

/// The field that `BitCopyField::new` builds for the given widths.
pub open spec fn spec_field(bits: usize, container: usize) -> BitCopyField
    recommends
        bits <= container,
        container < 32,
{
    BitCopyField {
        bits,
        container,
        shift: (container - bits) as usize,
        lowermask: (pow2(bits as nat) - 1) as usize,
        uppermask: ((pow2(bits as nat) - 1) * pow2((container - bits) as nat)) as usize,
    }
}

/// Precomputes the interpolation of every 8-bit value for a target bit
/// depth, so that per-pixel processing needs no bracket search.
pub fn bitcopy_interpolation_table(
    bits: usize,
    interpolate_in_linear_light: bool,
) -> (r: Vec<BitCopyInterpolation>)
    requires
        bits <= 8,
    ensures
        r@.len() == 256,
        forall|v: int|
            0 <= v < 256 ==> r@[v] == spec_field(bits, 8).spec_interpolation(
                v as nat,
                interpolate_in_linear_light,
            ),
        forall|v: int|
            0 <= v < 256 ==> {
                let e = #[trigger] r@[v];
                &&& e.frac_num <= e.frac_div
                &&& 1 <= e.frac_div <= 256
                &&& e.from < 256
                &&& e.to < 256
                &&& e.from <= v
            },
{
    let bcf = BitCopyField::new(bits, 8);
    proof {
        lemma2_to64();
        assert(bcf == spec_field(bits, 8));
    }
    let mut result: Vec<BitCopyInterpolation> = Vec::new();
    let mut i: usize = 0;
    while i < 256
        invariant
            i <= 256,
            bcf.wf(),
            bcf == spec_field(bits, 8),
            bcf.container == 8,
            pow2(8) == 256,
            result@.len() == i,
            forall|v: int|
                0 <= v < i ==> result@[v] == spec_field(bits, 8).spec_interpolation(
                    v as nat,
                    interpolate_in_linear_light,
                ),
            forall|v: int|
                0 <= v < i ==> {
                    let e = #[trigger] result@[v];
                    &&& e.frac_num <= e.frac_div
                    &&& 1 <= e.frac_div <= 256
                    &&& e.from < 256
                    &&& e.to < 256
                    &&& e.from <= v
                },
        decreases 256 - i,
    {
        result.push(bcf.interpolation(i, interpolate_in_linear_light));
        i += 1;
    }
    result
}

} // verus!
