use vstd::arithmetic::power2::{lemma_pow2_adds, lemma_pow2_strictly_increases, lemma2_to64, lemma_pow2_pos, lemma_pow2_unfold, pow2};
use vstd::arithmetic::div_mod::{lemma_mod_breakdown, lemma_mod_multiples_vanish, lemma_mod_sub_multiples_vanish, lemma_small_mod};
use vstd::bits::{
    lemma_u64_low_bits_mask_is_mod, lemma_u64_pow2_no_overflow, lemma_u64_shl_is_mul, lemma_u64_shr_is_div,
    low_bits_mask,
};
use vstd::prelude::*;
use vstd::std_specs::bits::{axiom_u64_leading_zeros, u64_leading_zeros};

verus! {

/// The four condition flags of one addition.
#[derive(Debug, Clone, Copy, PartialEq, Eq)]
pub struct Flags {
    pub negative: bool,
    pub zero: bool,
    pub overflow: bool,
    pub carry: bool,
}

/// The outcome of one operation: the result word and its signed reading.
#[derive(Debug, Clone, Copy, PartialEq, Eq)]
pub struct CalcOutValue {
    pub unsigned: u64,
    pub signed: i64,
}

/// A calculation request: two operands and the word width they live in.
#[derive(Debug, Copy, Clone, PartialEq, Eq)]
pub struct Calc {
    pub left: u64,
    pub right: u64,
    pub width: u8,
}

/// The results of adding and of subtracting the operands of one request.
#[derive(Debug, Clone, Copy, PartialEq, Eq)]
pub struct CalcOut {
    pub adds: CalcOutResult,
    pub subs: CalcOutResult,
}

/// Which operand of a request an error is about.
#[derive(Debug, Clone, Copy, PartialEq, Eq)]
pub enum Operand {
    Left,
    Right,
}

/// Why a request was refused, or why operand text could not be read.
#[derive(Debug, PartialEq, Eq)]
pub enum AppError {
    /// The operand does not fit in a word of the given width.
    OperandTooLarge { operand: Operand, value: u64, width: u8 },
    /// The width lies outside 8 to 64 bits.
    UnsupportedWidth { width: u8 },
    /// The text is no number in the base its prefix chose.
    Parsing { what: String, base: u32 },
}

/// One operation's value together with its flags.
pub type CalcOutResult = (CalcOutValue, Flags);

/// `value` reduced to its low `width` bits.
pub open spec fn wrap(value: int, width: nat) -> int {
    value % (pow2(width) as int)
}

proof fn lemma_mask_is_mod(n: u64, width: u8)
    requires
        width < 64,
    ensures
        n & (((1u64 << width) - 1) as u64) == n % (pow2(width as nat) as u64),
        0 < pow2(width as nat) <= u64::MAX,
        (1u64 << width) == pow2(width as nat),
{
    lemma_u64_pow2_no_overflow(width as nat);
    lemma_u64_shl_is_mul(1u64, width as u64);
    assert((1u64 << width) == (1u64 << (width as u64))) by (bit_vector);
    assert(low_bits_mask(width as nat) == pow2(width as nat) - 1) by {
        reveal(low_bits_mask);
    }
    lemma_u64_low_bits_mask_is_mod(n, width as nat);
}

/// Keeps the low `width` bits of `n` (all of them from 64 bits on).
pub fn to_width(n: u64, width: u8) -> (r: u64)
    ensures
        width >= 64 ==> r == n,
        width < 64 ==> r == wrap(n as int, width as nat),
{
    if width >= 64 {
        n
    } else {
        proof {
            lemma_mask_is_mod(n, width);
        }
        n & ((1u64 << width) - 1)
    }
}


/// The two's-complement reading of a `width`-bit pattern `v`.
pub open spec fn signed_of(v: int, width: nat) -> int {
    if v >= pow2((width - 1) as nat) {
        v - pow2(width)
    } else {
        v
    }
}

proof fn lemma_msb(n: u64, width: u8)
    requires
        1 <= width <= 64,
        n < pow2(width as nat),
    ensures
        ((n & (1u64 << ((width - 1) as u8))) != 0) == (n >= pow2((width - 1) as nat)),
        (1u64 << ((width - 1) as u8)) == pow2((width - 1) as nat),
        pow2(width as nat) == 2 * pow2((width - 1) as nat),
{
    let k: u64 = (width - 1) as u64;
    lemma_u64_pow2_no_overflow(k as nat);
    lemma_u64_shl_is_mul(1u64, k);
    lemma_pow2_unfold(width as nat);
    assert((1u64 << ((width - 1) as u8)) == (1u64 << k)) by (bit_vector)
        requires k == (width - 1) as u64;
    let e: u64 = 1u64 << k;
    assert(k < 64 && e == (1u64 << k) && (n as int) < 2 * (e as int) ==> (((n & e) != 0) == (n >= e)))
        by (bit_vector);
}


proof fn lemma_significant_bits(n: u64, width: u8)
    requires
        1 <= width <= 64,
        pow2((width - 1) as nat) <= n < pow2(width as nat),
    ensures
        u64_leading_zeros(n) == 64 - width,
{
    axiom_u64_leading_zeros(n);
    let lz = u64_leading_zeros(n);
    let k: u64 = (width - 1) as u64;
    lemma_u64_pow2_no_overflow(k as nat);
    lemma_u64_shl_is_mul(1u64, k);
    let e: u64 = 1u64 << k;
    lemma_pow2_unfold(width as nat);
    if lz < 64 - width {
        let top: u64 = (63 - lz) as u64;
        assert(k < 63 && k < top && top < 64 && e == (1u64 << k) && (n as int) < 2 * (e as int)
            ==> (n >> top) & 1u64 == 0u64) by (bit_vector);
    }
    if lz > 64 - width {
        assert(k < 64 && e == (1u64 << k) && n >= e && (n as int) < 2 * (e as int) ==> (n >> k) & 1u64
            != 0u64) by (bit_vector);
        assert((n >> k) & 1u64 == 0u64);
    }
}

/// Reads the `width`-bit pattern `n` as a two's-complement number.
pub fn as_signed(n: u64, width: u8) -> (r: i64)
    requires
        1 <= width <= 64,
        n < pow2(width as nat),
    ensures
        r == signed_of(n as int, width as nat),
{
    proof {
        lemma_msb(n, width);
    }
    let msb_set = n & (1u64 << (width - 1)) != 0;
    let ghost e1: u64 = 1u64 << ((width - 1) as u8);
    assert(e1 == 1u64 << ((width - 1) as u8) && n < e1 ==> n < 0x8000_0000_0000_0000u64) by (bit_vector);
    if msb_set {
        proof {
            lemma_significant_bits(n, width);
        }
        let to_keep: u32 = 64 - n.leading_zeros();
        assert(to_keep == width);
        if to_keep >= 64 {
            assert(n >= 0x8000_0000_0000_0000u64 ==> n as i64 == (n as int) - 0x1_0000_0000_0000_0000int)
                by (bit_vector);
            proof {
                lemma2_to64();
            }
            (#[verifier::truncate] (n as i64))
        } else {
            proof {
                lemma_mask_is_mod(n, to_keep as u8);
            }
            let w: u64 = to_keep as u64;
            let e: u64 = 1u64 << w;
            assert(e == (1u64 << (to_keep as u8))) by (bit_vector)
                requires w == to_keep as u64, to_keep < 64, e == 1u64 << w;
            let set_mask = !(e - 1);
            assert(0 < w < 64 && e == (1u64 << w) && n < e && 2 * (n as int) >= (e as int)
                ==> (n | set_mask) as i64 == (n as int) - (e as int)) by (bit_vector)
                requires set_mask == !((e - 1) as u64);
            (n | set_mask) as i64
        }
    } else {
        n as i64
    }
}


/// Whether bit `i` of `v` is set.
pub open spec fn bit_set(v: int, i: nat) -> bool {
    (v / pow2(i) as int) % 2 == 1
}

/// Whether the sum of the signed readings of `left` and `right` lies outside
/// the signed range of a `width`-bit word.
pub open spec fn signed_overflow(left: int, right: int, width: nat) -> bool {
    let s = signed_of(left, width) + signed_of(right, width);
    let half = pow2((width - 1) as nat) as int;
    s < -half || s >= half
}

/// What adding `left` and `right` in a `width`-bit adder yields: the wrapped
/// sum, its signed reading and the four flags.
pub open spec fn adder_outcome(left: int, right: int, width: nat) -> CalcOutResult {
    let sum = wrap(left + right, width);
    (
        CalcOutValue { unsigned: sum as u64, signed: signed_of(sum, width) as i64 },
        Flags {
            negative: bit_set(sum, (width - 1) as nat),
            zero: sum == 0,
            overflow: signed_overflow(left, right, width),
            carry: left + right >= pow2(width),
        },
    )
}

proof fn lemma_bit_step(x: u64, i: u8)
    requires
        i < 64,
    ensures
        (1u64 << i) == pow2(i as nat),
        ((x & (1u64 << i)) != 0) == bit_set(x as int, i as nat),
        wrap(x as int, (i + 1) as nat) == wrap(x as int, i as nat) + pow2(i as nat) * ((x as int / pow2(i as nat) as int) % 2),
        pow2((i + 1) as nat) == 2 * pow2(i as nat),
{
    let k: u64 = i as u64;
    lemma_u64_pow2_no_overflow(k as nat);
    lemma_u64_shl_is_mul(1u64, k);
    lemma_u64_shr_is_div(x, k);
    lemma_pow2_unfold((i + 1) as nat);
    assert((1u64 << i) == (1u64 << k)) by (bit_vector)
        requires k == i as u64;
    assert(k < 64 ==> (((x & (1u64 << k)) != 0) == (((x >> k) & 1u64) == 1u64))) by (bit_vector);
    let y = x >> k;
    assert((y & 1u64 == 1u64) == (y % 2 == 1)) by (bit_vector);
    lemma_mod_breakdown(x as int, pow2(i as nat) as int, 2);
}

proof fn lemma_split_msb(v: int, q: int)
    requires
        0 < q,
        0 <= v < 2 * q,
    ensures
        v >= q ==> v % q == v - q,
        v < q ==> v % q == v,
{
    if v >= q {
        lemma_mod_sub_multiples_vanish(v, q);
        lemma_small_mod((v - q) as nat, q as nat);
    } else {
        lemma_small_mod(v as nat, q as nat);
    }
}

/// Carry out of the top bit differs from the carry into it exactly when the
/// signed sum leaves the signed range.
proof fn lemma_overflow_rule(left: int, right: int, width: nat, low: int, carry_in: bool, carry_out: bool)
    requires
        1 <= width,
        0 <= left < pow2(width),
        0 <= right < pow2(width),
        0 <= low < pow2((width - 1) as nat),
        low + (if carry_in { pow2((width - 1) as nat) as int } else { 0 }) == wrap(left, (width - 1) as nat)
            + wrap(right, (width - 1) as nat),
        pow2(width) == 2 * pow2((width - 1) as nat),
        carry_out == (left + right >= pow2(width)),
    ensures
        (carry_out != carry_in) == signed_overflow(left, right, width),
{
    let q = pow2((width - 1) as nat) as int;
    lemma_split_msb(left, q);
    lemma_split_msb(right, q);
}

/// Adds two `width`-bit words one bit at a time, as a ripple-carry adder does,
/// and derives the flags from the carries: `overflow` is the carry out of the
/// top bit xor the carry into it.
pub fn alu_add(left: u64, right: u64, width: u8) -> (r: CalcOutResult)
    requires
        1 <= width <= 64,
        left < pow2(width as nat),
        right < pow2(width as nat),
    ensures
        r == adder_outcome(left as int, right as int, width as nat),
        r.0.signed == signed_of(r.0.unsigned as int, width as nat),
{
    let mut previous_carry = false;
    let mut carry = false;
    let mut result: u64 = 0;
    let ghost mut low: int = 0;
    let mut i: u8 = 0;
    proof {
        lemma_pow2_pos(0);
        assert(pow2(0) == 1) by {
            lemma2_to64();
        }
    }
    while i < width
        invariant
            1 <= width <= 64,
            left < pow2(width as nat),
            right < pow2(width as nat),
            0 <= i <= width,
            result < pow2(i as nat),
            result + (if carry { pow2(i as nat) as int } else { 0 }) == wrap(left as int, i as nat)
                + wrap(right as int, i as nat),
            i >= 1 ==> 0 <= low < pow2((i - 1) as nat),
            i >= 1 ==> low + (if previous_carry { pow2((i - 1) as nat) as int } else { 0 }) == wrap(
                left as int,
                (i - 1) as nat,
            ) + wrap(right as int, (i - 1) as nat),
        decreases width - i,
    {
        proof {
            lemma_bit_step(left, i);
            lemma_bit_step(right, i);
            lemma_u64_pow2_no_overflow(i as nat);
        }
        let extractor = 1u64 << i;
        let li = left & extractor != 0;
        let ri = right & extractor != 0;

        let bit_sum: u64 = carry as u64 + li as u64 + ri as u64;
        let result_i = bit_sum % 2 == 1;

        previous_carry = carry;
        proof {
            low = result as int;
        }
        carry = bit_sum / 2 == 1;

        proof {
            let p = pow2(i as nat) as int;
            assert(i < 64 ==> (1u64 << i) <= 0x8000_0000_0000_0000u64) by (bit_vector);
            let lb = (left as int / p) % 2;
            let rb = (right as int / p) % 2;
            assert(lb == if li { 1int } else { 0 });
            assert(rb == if ri { 1int } else { 0 });
            if li {
                assert(p * lb == p) by (nonlinear_arith)
                    requires lb == 1;
            } else {
                assert(p * lb == 0);
            }
            if ri {
                assert(p * rb == p) by (nonlinear_arith)
                    requires rb == 1;
            } else {
                assert(p * rb == 0);
            }
        }
        if result_i {
            result += extractor;
        }
        i += 1;
    }
    let overflow = carry ^ previous_carry;
    proof {
        lemma_msb(result, width);
        lemma_bit_step(result, (width - 1) as u8);
        lemma_small_mod(left as nat, pow2(width as nat));
        lemma_small_mod(right as nat, pow2(width as nat));
        lemma_small_mod(result as nat, pow2(width as nat));
        let c: int = if carry { 1 } else { 0 };
        lemma_mod_multiples_vanish(c, result as int, pow2(width as nat) as int);
        lemma_overflow_rule(left as int, right as int, width as nat, low, previous_carry, carry);
    }
    let negative = result & 1 << (width - 1) != 0;
    let zero = result == 0;

    (
        CalcOutValue { unsigned: result, signed: as_signed(result, width) },
        Flags { negative, zero, carry, overflow },
    )
}


/// The widths a request may have.
pub open spec fn supported_width(width: nat) -> bool {
    8 <= width <= 64
}

/// The two's-complement negation of `right` in a `width`-bit word.
pub open spec fn negated(right: int, width: nat) -> int {
    wrap(pow2(width) - right, width)
}

/// What `try_new` answers for the given operands and width.
pub open spec fn request_outcome(left: u64, right: u64, width: u8) -> Result<Calc, AppError> {
    if left >= pow2(width as nat) {
        Err(AppError::OperandTooLarge { operand: Operand::Left, value: left, width })
    } else if right >= pow2(width as nat) {
        Err(AppError::OperandTooLarge { operand: Operand::Right, value: right, width })
    } else if !supported_width(width as nat) {
        Err(AppError::UnsupportedWidth { width })
    } else {
        Ok(Calc { left, right, width })
    }
}

proof fn lemma_negate(right: u64, width: u8)
    requires
        1 <= width <= 64,
        right < pow2(width as nat),
    ensures
        ({
            let t = (!right).wrapping_add(1u64);
            &&& width >= 64 ==> t == negated(right as int, width as nat)
            &&& width < 64 ==> wrap(t as int, width as nat) == negated(right as int, width as nat)
        }),
        right == 0 ==> negated(right as int, width as nat) == 0,
        right > 0 ==> negated(right as int, width as nat) == pow2(width as nat) - right,
{
    let t = (!right).wrapping_add(1u64);
    let p = pow2(width as nat) as int;
    lemma2_to64();
    lemma_pow2_pos(width as nat);
    assert(!right == 0xffff_ffff_ffff_ffffu64 - right) by (bit_vector);
    if right == 0 {
        assert(t == 0);
        lemma_small_mod(0, p as nat);
        lemma_mod_multiples_vanish(1, 0, p);
    } else {
        assert(t == 0x1_0000_0000_0000_0000int - right);
        lemma_small_mod((p - right) as nat, p as nat);
        if width < 64 {
            let k = pow2((64 - width) as nat) as int;
            lemma_pow2_adds(width as nat, (64 - width) as nat);
            lemma_pow2_pos((64 - width) as nat);
            assert(t == p * (k - 1) + (p - right)) by (nonlinear_arith)
                requires t == p * k - right, k >= 1;
            lemma_mod_multiples_vanish(k - 1, p - right, p);
        }
    }
}

impl Calc {
    /// The request's invariant: a supported width and operands that fit in it.
    pub open spec fn wf(self) -> bool {
        &&& supported_width(self.width as nat)
        &&& self.left < pow2(self.width as nat)
        &&& self.right < pow2(self.width as nat)
    }

    /// Builds a request, refusing an operand that does not fit in `width`
    /// bits (the left one first) and then a width outside 8 to 64.
    pub fn try_new(left: u64, right: u64, width: u8) -> (r: Result<Self, AppError>)
        ensures
            r == request_outcome(left, right, width),
            (r is Ok) <==> (Calc { left, right, width }).wf(),
            (r matches Ok(c) ==> c.wf()),
    {
        if width >= 64 {
            proof {
                lemma2_to64();
                if width > 64 {
                    lemma_pow2_strictly_increases(64, width as nat);
                }
            }
        } else {
            proof {
                lemma_mask_is_mod(0, width);
            }
        }
        let limit: u64 = if width >= 64 { u64::MAX } else { (1u64 << width) - 1 };
        if left > limit {
            return Err(AppError::OperandTooLarge { operand: Operand::Left, value: left, width });
        }
        if right > limit {
            return Err(AppError::OperandTooLarge { operand: Operand::Right, value: right, width });
        }
        if width > 64 || width < 8 {
            return Err(AppError::UnsupportedWidth { width });
        }
        Ok(Self { left, right, width })
    }

    /// The operands of the subtraction: the left one, and the two's-complement
    /// negation of the right one.
    fn as_sub(&self) -> (r: (u64, u64))
        requires
            self.wf(),
        ensures
            r.0 == self.left,
            r.1 == negated(self.right as int, self.width as nat),
            r.1 < pow2(self.width as nat),
    {
        proof {
            lemma_negate(self.right, self.width);
            lemma_pow2_pos(self.width as nat);
        }
        (self.left, to_width((!self.right).wrapping_add(1u64), self.width))
    }

    /// Adds the operands, and subtracts the right one from the left one by
    /// adding its two's-complement negation, both through the bit-serial adder.
    pub fn calc(&self) -> (out: CalcOut)
        requires
            self.wf(),
        ensures
            out.adds == adder_outcome(self.left as int, self.right as int, self.width as nat),
            out.subs == adder_outcome(
                self.left as int,
                negated(self.right as int, self.width as nat),
                self.width as nat,
            ),
            out.adds.0.unsigned == wrap(self.left + self.right, self.width as nat),
            out.subs.0.unsigned == wrap(self.left - self.right, self.width as nat),
            out.adds.1.zero == (out.adds.0.unsigned == 0),
            out.subs.1.zero == (out.subs.0.unsigned == 0),
            out.adds.1.negative == bit_set(out.adds.0.unsigned as int, (self.width - 1) as nat),
            out.subs.1.negative == bit_set(out.subs.0.unsigned as int, (self.width - 1) as nat),
            out.adds.1.carry == (self.left + self.right >= pow2(self.width as nat)),
            out.subs.1.carry == (self.right > 0 && self.left >= self.right),
            out.adds.1.overflow == signed_overflow(self.left as int, self.right as int, self.width as nat),
            out.adds.0.signed == signed_of(out.adds.0.unsigned as int, self.width as nat),
            out.subs.0.signed == signed_of(out.subs.0.unsigned as int, self.width as nat),
    {
        let Self { left, right, width } = *self;
        let (sub_l, sub_r) = self.as_sub();
        proof {
            lemma_negate(right, width);
            let p = pow2(width as nat) as int;
            lemma_pow2_pos(width as nat);
            lemma2_to64();
            if width < 64 {
                lemma_pow2_strictly_increases(width as nat, 64);
            }
            assert(0 <= wrap(left - right, width as nat) < p);
            if right > 0 {
                lemma_mod_multiples_vanish(1, left - right, p);
                assert(p * 1 + (left - right) == left + (p - right));
            }
            assert(wrap(left + negated(right as int, width as nat), width as nat) == wrap(
                left - right,
                width as nat,
            ));
        }
        CalcOut { adds: alu_add(left, right, width), subs: alu_add(sub_l, sub_r, width) }
    }
}


/// Reading a `width`-bit pattern as a signed number and wrapping that number
/// back to `width` bits gives the pattern again.
pub proof fn lemma_signed_round_trip(v: u64, width: u8)
    requires
        1 <= width <= 64,
        v < pow2(width as nat),
    ensures
        wrap(signed_of(v as int, width as nat), width as nat) == v,
{
    let p = pow2(width as nat) as int;
    lemma_pow2_pos(width as nat);
    lemma_small_mod(v as nat, p as nat);
    if v >= pow2((width - 1) as nat) {
        lemma_mod_multiples_vanish(-1, v as int, p);
        assert(p * -1 + v == v - p);
    }
}

/// The largest operand that a width admits is accepted, and the next value
/// is refused as too large; this for every supported width below 64, where
/// that next value still fits in `u64`.
pub proof fn lemma_operand_limit(width: u8, right: u64)
    requires
        8 <= width < 64,
        right < pow2(width as nat),
    ensures
        request_outcome((pow2(width as nat) - 1) as u64, right, width) == Ok::<Calc, AppError>(
            Calc { left: (pow2(width as nat) - 1) as u64, right, width },
        ),
        request_outcome(pow2(width as nat) as u64, right, width) == Err::<Calc, AppError>(
            AppError::OperandTooLarge { operand: Operand::Left, value: pow2(width as nat) as u64, width },
        ),
{
    lemma_u64_pow2_no_overflow(width as nat);
}

/// Widths 7 and 65 are refused and widths 8 and 64 accepted, whatever
/// operands that fit in 7 bits come with them.
pub proof fn lemma_width_limits(left: u64, right: u64)
    requires
        left < 128,
        right < 128,
    ensures
        request_outcome(left, right, 7) == Err::<Calc, AppError>(AppError::UnsupportedWidth { width: 7 }),
        request_outcome(left, right, 65) == Err::<Calc, AppError>(AppError::UnsupportedWidth { width: 65 }),
        request_outcome(left, right, 8) == Ok::<Calc, AppError>(Calc { left, right, width: 8 }),
        request_outcome(left, right, 64) == Ok::<Calc, AppError>(Calc { left, right, width: 64 }),
{
    lemma2_to64();
    lemma_pow2_strictly_increases(64, 65);
}

} // verus!
