//! Bit-level helpers on machine words.
//!
//! Bits are numbered as the PowerPC manuals do: bit 0 is the most significant bit of a word.
//! What each helper computes is stated arithmetically, over powers of two, and for masks and
//! rotations bit by bit as well.

use vstd::prelude::*;
use vstd::arithmetic::div_mod::{lemma_mod_add_multiples_vanish, lemma_mod_bound, lemma_small_mod};
use vstd::arithmetic::power2::{
    lemma2_to64, lemma2_to64_rest, lemma_pow2_adds, lemma_pow2_pos, lemma_pow2_strictly_increases,
    pow2,
};
use vstd::bits::{
    lemma_low_bits_mask_unfold, lemma_u32_low_bits_mask_is_mod, lemma_u32_shl_is_mul,
    lemma_u32_shr_is_div, lemma_u64_shl_is_mul, low_bits_mask,
};

verus! {

/// 2^k for the exponents from 0 to 32, written out so that it computes.
#[verifier::inline]
pub open spec fn exp2(k: int) -> int
    recommends
        0 <= k <= 32,
{
    if k == 0 {
        0x1
    } else if k == 1 {
        0x2
    } else if k == 2 {
        0x4
    } else if k == 3 {
        0x8
    } else if k == 4 {
        0x10
    } else if k == 5 {
        0x20
    } else if k == 6 {
        0x40
    } else if k == 7 {
        0x80
    } else if k == 8 {
        0x100
    } else if k == 9 {
        0x200
    } else if k == 10 {
        0x400
    } else if k == 11 {
        0x800
    } else if k == 12 {
        0x1000
    } else if k == 13 {
        0x2000
    } else if k == 14 {
        0x4000
    } else if k == 15 {
        0x8000
    } else if k == 16 {
        0x1_0000
    } else if k == 17 {
        0x2_0000
    } else if k == 18 {
        0x4_0000
    } else if k == 19 {
        0x8_0000
    } else if k == 20 {
        0x10_0000
    } else if k == 21 {
        0x20_0000
    } else if k == 22 {
        0x40_0000
    } else if k == 23 {
        0x80_0000
    } else if k == 24 {
        0x100_0000
    } else if k == 25 {
        0x200_0000
    } else if k == 26 {
        0x400_0000
    } else if k == 27 {
        0x800_0000
    } else if k == 28 {
        0x1000_0000
    } else if k == 29 {
        0x2000_0000
    } else if k == 30 {
        0x4000_0000
    } else if k == 31 {
        0x8000_0000
    } else {
        0x1_0000_0000
    }
}

/// The field of `len` bits whose most significant bit is bit `start` of a word of `width`
/// bits, as a number: the word is cut off below the field's last bit and above its first.
/// Where the field reaches beyond the word's last bit, the bits that are missing read as zero.
pub open spec fn section(data: int, width: nat, start: nat, len: nat) -> int
    recommends
        start < width <= 32,
        len <= width,
{
    if start + len <= width {
        (data / exp2(width - start - len)) % exp2(len as int)
    } else {
        (data % exp2(width - start)) * exp2(start + len - width)
    }
}

/// A field of a 32-bit word.
pub open spec fn bit_section(data: u32, start: nat, len: nat) -> int
    recommends
        start < 32,
        len <= 32,
{
    section(data as int, 32, start, len)
}

/// A field of a 16-bit word.
pub open spec fn u16_section(data: u16, start: nat, len: nat) -> int
    recommends
        start < 16,
        len <= 16,
{
    section(data as int, 16, start, len)
}

/// Whether bit `position` of a word of `width` bits is set.
pub open spec fn bit_is_set(data: int, width: nat, position: nat) -> bool
    recommends
        position < width <= 32,
{
    (data / exp2(width - 1 - position)) % 2 == 1
}

/// The number that the low `bits` bits of `data` denote in two's complement.
pub open spec fn sign_extended(data: int, bits: nat) -> int
    recommends
        1 <= bits <= 32,
{
    let low = data % exp2(bits as int);
    if low >= exp2(bits - 1) {
        low - exp2(bits as int)
    } else {
        low
    }
}

/// Whether bit `position` lies in the run of bits that starts at `mb` and ends at `me`;
/// a run whose end lies before its start wraps around the end of the word.
pub open spec fn in_rotation_mask(mb: nat, me: nat, position: nat) -> bool {
    if mb <= me {
        mb <= position <= me
    } else {
        position <= me || mb <= position
    }
}

/// The 32-bit mask with ones from bit `mb` through bit `me`: the sum of the weights of those
/// bits. Where the run wraps, it is every bit but those strictly between `me` and `mb`.
pub open spec fn rotation_mask(mb: u32, me: u32) -> u32
    recommends
        mb < 32,
        me < 32,
{
    if mb <= me {
        (exp2(32 - mb) - exp2(31 - me)) as u32
    } else {
        (0xFFFF_FFFF - (exp2(31 - me) - exp2(32 - mb))) as u32
    }
}

/// What the rotation mask from bit `mb` through bit `me` leaves of a word: the bits of that
/// run, each in its place. Where the run wraps, it is the word without the bits that lie
/// strictly between `me` and `mb`.
pub open spec fn masked(data: u32, mb: u32, me: u32) -> u32
    recommends
        mb < 32,
        me < 32,
{
    if mb <= me {
        ((data as int / exp2(31 - me)) % exp2(me - mb + 1) * exp2(31 - me)) as u32
    } else {
        (data - (data as int / exp2(32 - mb)) % exp2(mb - me - 1) * exp2(32 - mb)) as u32
    }
}

/// The bytes that one value of a quantized type takes in memory.
pub open spec fn quantized_size(kind: u8) -> u32 {
    if kind == 4 || kind == 6 {
        10
    } else if kind == 5 || kind == 7 {
        20
    } else {
        4
    }
}

/// The table of powers holds the powers of two.
pub proof fn lemma_exp2_is_pow2(k: nat)
    requires
        k <= 32,
    ensures
        exp2(k as int) == pow2(k),
{
    lemma2_to64();
}

/// A shift of one is a power of two.
proof fn lemma_one_shl(k: nat)
    requires
        k <= 32,
    ensures
        (1u64 << k) == pow2(k),
        exp2(k as int) == pow2(k),
        0 < pow2(k) <= 0x1_0000_0000,
        k < 32 ==> (1u32 << k) == pow2(k),
        k < 32 ==> pow2(k) <= 0x8000_0000,
{
    lemma2_to64();
    lemma2_to64_rest();
    lemma_pow2_pos(k);
    if k < 32 {
        lemma_pow2_strictly_increases(k, 32);
        lemma_u32_shl_is_mul(1u32, k as u32);
    }
    if k < 31 {
        lemma_pow2_strictly_increases(k, 31);
    }
    lemma_u64_shl_is_mul(1u64, k as u64);
}

/// A field is a number below 2^len.
pub proof fn lemma_section_bound(data: int, width: nat, start: nat, len: nat)
    requires
        0 <= data,
        start < width <= 32,
        len <= width,
    ensures
        0 <= section(data, width, start, len) < exp2(len as int),
{
    lemma_one_shl(len);
    if start + len <= width {
        lemma_one_shl((width - start - len) as nat);
        lemma_mod_bound(data / exp2(width - start - len), exp2(len as int));
    } else {
        let kept = (width - start) as nat;
        let shift = (start + len - width) as nat;
        lemma_one_shl(kept);
        lemma_one_shl(shift);
        lemma_mod_bound(data, exp2(kept as int));
        lemma_pow2_adds(kept, shift);
        lemma_product_below(data % exp2(kept as int), exp2(kept as int), exp2(shift as int));
    }
}

/// A number below a bound, times a positive factor, is below the bound times the factor.
proof fn lemma_product_below(a: int, bound: int, factor: int)
    requires
        0 <= a < bound,
        0 < factor,
    ensures
        0 <= a * factor < bound * factor,
        a * factor <= bound * factor - factor,
{
    assert(0 <= a * factor < bound * factor && a * factor <= bound * factor - factor)
        by (nonlinear_arith)
        requires
            0 <= a < bound,
            0 < factor,
    ;
}

/// A field of `len` bits of a 32-bit word is a number below 2^len.
pub proof fn lemma_bit_section_bound(data: u32, start: nat, len: nat)
    requires
        start < 32 || start + len <= 32,
        len <= 32,
    ensures
        0 <= bit_section(data, start, len) < exp2(len as int),
        exp2(len as int) <= 0x1_0000_0000,
{
    if start < 32 {
        lemma_section_bound(data as int, 32, start, len);
    }
}

/// A field of a 16-bit word is a number below 2^len.
pub proof fn lemma_u16_section_bound(data: u16, start: nat, len: nat)
    requires
        start < 16 || start + len <= 16,
        len <= 16,
    ensures
        0 <= u16_section(data, start, len) < exp2(len as int),
        exp2(len as int) <= 0x1_0000,
{
    if start < 16 {
        lemma_section_bound(data as int, 16, start, len);
    }
}

/// A sign-extended number of `bits` bits lies in the two's-complement range of that width.
pub proof fn lemma_sign_extended_range(data: int, bits: nat)
    requires
        1 <= bits <= 32,
    ensures
        -exp2(bits - 1) <= sign_extended(data, bits) < exp2(bits - 1),
        exp2(bits as int) == 2 * exp2(bits - 1),
{
    lemma_mod_bound(data, exp2(bits as int));
}

/// A number that already lies in the two's-complement range of `bits` bits is what its
/// residue modulo 2^bits sign-extends to.
pub proof fn lemma_sign_extended_of_residue(value: int, bits: nat)
    requires
        1 <= bits <= 32,
        -exp2(bits - 1) <= value < exp2(bits - 1),
    ensures
        sign_extended(value % exp2(bits as int), bits) == value,
        sign_extended(value, bits) == value,
{
    let m = exp2(bits as int);
    if value >= 0 {
        lemma_small_mod(value as nat, m as nat);
    } else {
        lemma_small_mod((value + m) as nat, m as nat);
        lemma_mod_add_multiples_vanish(value, m);
    }
    lemma_mod_bound(value, m);
    lemma_small_mod((value % m) as nat, m as nat);
}

/// Extracts the field of `len` bits whose most significant bit is bit `start`, right-justified.
pub fn get_bit_section(data: u32, start: usize, len: usize) -> (r: u32)
    requires
        start < 32,
        1 <= len <= 32,
    ensures
        r == bit_section(data, start as nat, len as nat),
{
    let r: u32 = (data << start) >> (32 - len);
    proof {
        let s: u32 = start as u32;
        let l: u32 = len as u32;
        if start + len <= 32 {
            let low: u32 = (32 - start - len) as u32;
            let mask: u32 = 0xFFFF_FFFFu32 >> ((32 - l) as u32);
            assert({
                &&& ((data << s) >> ((32 - l) as u32)) == (data >> low) & mask
                &&& mask as u64 == ((1u64 << (l as u64)) - 1) as u64
            }) by (bit_vector)
                requires
                    1 <= l,
                    s + l <= 32,
                    low == 32 - s - l,
                    mask == 0xFFFF_FFFFu32 >> ((32 - l) as u32),
            ;
            lemma_u32_shr_is_div(data, low);
            lemma_one_shl(len as nat);
            lemma_one_shl(low as nat);
            lemma_mask_is_mod(data >> low, len as nat);
        } else {
            let kept: u32 = (32 - start) as u32;
            let shift: u32 = (start + len - 32) as u32;
            let mask: u32 = 0xFFFF_FFFFu32 >> s;
            assert({
                &&& ((data << s) >> ((32 - l) as u32)) == (data & mask) << shift
                &&& mask as u64 == ((1u64 << (kept as u64)) - 1) as u64
            }) by (bit_vector)
                requires
                    s < 32,
                    l <= 32,
                    s + l > 32,
                    kept == 32 - s,
                    shift == s + l - 32,
                    mask == 0xFFFF_FFFFu32 >> s,
            ;
            lemma_one_shl(kept as nat);
            lemma_one_shl(shift as nat);
            lemma_mask_is_mod(data, kept as nat);
            lemma_mod_bound(data as int, pow2(kept as nat) as int);
            lemma_pow2_adds(kept as nat, shift as nat);
            lemma_one_shl((kept + shift) as nat);
            lemma_product_below(
                data as int % pow2(kept as nat) as int,
                pow2(kept as nat) as int,
                pow2(shift as nat) as int,
            );
            lemma_u32_shl_is_mul(data & mask, shift);
        }
    }
    r
}

/// Masking with the low `n` ones is the remainder modulo 2^n.
proof fn lemma_mask_is_mod(x: u32, n: nat)
    requires
        1 <= n <= 32,
    ensures
        (x & ((pow2(n) - 1) as u32)) == x as int % (pow2(n) as int),
{
    lemma_one_shl(n);
    if n == 32 {
        assert(x & 0xFFFF_FFFFu32 == x) by (bit_vector);
        lemma2_to64();
        lemma_small_mod(x as nat, pow2(n));
    } else {
        lemma_u32_low_bits_mask_is_mod(x, n);
        lemma_low_bits_mask_unfold(n);
        assert(low_bits_mask(n) == pow2(n) - 1) by {
            reveal(low_bits_mask);
        }
    }
}

/// Whether a bit is set, read off a shift.
proof fn lemma_bit_is_set_by_shift(data: u32, position: nat)
    requires
        position < 32,
    ensures
        bit_is_set(data as int, 32, position) <==> (data >> ((31 - position) as u32)) & 1 == 1,
{
    let shift: u32 = (31 - position) as u32;
    lemma_u32_shr_is_div(data, shift);
    lemma_mask_is_mod(data >> shift, 1);
    lemma2_to64();
}

/// Extracts a field of a 16-bit word: `len` bits, the most significant of them at bit `start`.
pub fn u16_get_section(data: u16, start: usize, len: usize) -> (r: u16)
    requires
        start < 16,
        1 <= len <= 16,
    ensures
        r == u16_section(data, start as nat, len as nat),
{
    proof {
        lemma_u16_section_bound(data, start as nat, len as nat);
        lemma_one_shl((16 - start) as nat);
        if start + len > 16 {
            lemma_one_shl((start + len - 16) as nat);
        }
    }
    if start + len <= 16 {
        get_bit_section(data as u32, 16 + start, len) as u16
    } else {
        let kept: u32 = data as u32 % (1u32 << (16 - start));
        (kept * (1u32 << (start + len - 16))) as u16
    }
}

/// Reads bit `position` of a 32-bit word.
pub fn get_bit_value(data: u32, position: usize) -> (r: bool)
    requires
        position < 32,
    ensures
        r == bit_is_set(data as int, 32, position as nat),
{
    proof {
        lemma_bit_is_set_by_shift(data, position as nat);
    }
    (data >> (31 - position)) & 1 == 1
}

/// Reads bit `position` of a byte.
pub fn u8_get_bit(data: u8, position: usize) -> (r: bool)
    requires
        position < 8,
    ensures
        r == bit_is_set(data as int, 8, position as nat),
{
    get_bit_value(data as u32, 24 + position)
}

/// Sign-extends the number held in the low `position` bits of `data` to 16 bits.
pub fn extend_sign_16(data: u16, position: usize) -> (r: i16)
    requires
        1 <= position <= 16,
    ensures
        r == sign_extended(data as int, position as nat),
{
    proof {
        lemma_one_shl(position as nat);
        lemma_one_shl((position - 1) as nat);
        lemma_sign_extended_range(data as int, position as nat);
        lemma2_to64();
        if position < 16 {
            lemma_pow2_strictly_increases(position as nat, 16);
        }
    }
    let modulus: u32 = 1u32 << position;
    let half: u32 = 1u32 << (position - 1);
    let low: u32 = (data as u32) % modulus;
    if low >= half {
        (low as i32 - modulus as i32) as i16
    } else {
        low as i16
    }
}

/// Sign-extends the number held in the low `position` bits of `data` to 32 bits.
pub fn extend_sign_32(data: u32, position: usize) -> (r: i32)
    requires
        1 <= position <= 32,
    ensures
        r == sign_extended(data as int, position as nat),
{
    proof {
        lemma_one_shl(position as nat);
        lemma_one_shl((position - 1) as nat);
        lemma_sign_extended_range(data as int, position as nat);
    }
    let modulus: u64 = 1u64 << position;
    let half: u64 = 1u64 << (position - 1);
    let low: u64 = (data as u64) % modulus;
    if low >= half {
        (low as i64 - modulus as i64) as i32
    } else {
        low as i32
    }
}

/// The mask as shifts build it.
proof fn lemma_rotation_mask_by_shifts(mb: u32, me: u32)
    requires
        mb < 32,
        me < 32,
    ensures
        rotation_mask(mb, me) == (if me < mb {
            !((0xFFFF_FFFFu32 >> mb) ^ (0x7FFF_FFFFu32 >> me))
        } else {
            (0xFFFF_FFFFu32 >> mb) ^ (0x7FFF_FFFFu32 >> me)
        }),
{
    let built: u32 = if me < mb {
        !((0xFFFF_FFFFu32 >> mb) ^ (0x7FFF_FFFFu32 >> me))
    } else {
        (0xFFFF_FFFFu32 >> mb) ^ (0x7FFF_FFFFu32 >> me)
    };
    let first: u64 = 1u64 << ((32 - mb) as u64);
    let last: u64 = 1u64 << ((31 - me) as u64);
    lemma_one_shl((32 - mb) as nat);
    lemma_one_shl((31 - me) as nat);
    assert({
        &&& last <= 0x8000_0000
        &&& first <= 0x1_0000_0000
        &&& mb <= me ==> last < first && built as u64 == first - last
        &&& me < mb ==> first <= last && built as u64 == 0xFFFF_FFFFu64 - (last - first)
    }) by (bit_vector)
        requires
            mb < 32,
            me < 32,
            first == 1u64 << ((32 - mb) as u64),
            last == 1u64 << ((31 - me) as u64),
            built == (if me < mb {
                !((0xFFFF_FFFFu32 >> mb) ^ (0x7FFF_FFFFu32 >> me))
            } else {
                (0xFFFF_FFFFu32 >> mb) ^ (0x7FFF_FFFFu32 >> me)
            }),
    ;
}

/// The bits of a rotation mask are those of the run it was made for.
pub proof fn lemma_rotation_mask_bits(mb: u32, me: u32, position: nat)
    requires
        mb < 32,
        me < 32,
        position < 32,
    ensures
        bit_is_set(rotation_mask(mb, me) as int, 32, position) <==> in_rotation_mask(
            mb as nat,
            me as nat,
            position,
        ),
{
    let mask = rotation_mask(mb, me);
    let p: u32 = position as u32;
    lemma_rotation_mask_by_shifts(mb, me);
    lemma_bit_is_set_by_shift(mask, position);
    assert(((mask >> ((31 - p) as u32)) & 1 == 1) <==> (if mb <= me {
        mb <= p && p <= me
    } else {
        p <= me || mb <= p
    })) by (bit_vector)
        requires
            mb < 32,
            me < 32,
            p < 32,
            mask == (if me < mb {
                !((0xFFFF_FFFFu32 >> mb) ^ (0x7FFF_FFFFu32 >> me))
            } else {
                (0xFFFF_FFFFu32 >> mb) ^ (0x7FFF_FFFFu32 >> me)
            }),
    ;
}

/// What a rotation mask leaves of a word is the conjunction of the word and the mask.
pub proof fn lemma_masked_is_and(data: u32, mb: u32, me: u32)
    requires
        mb < 32,
        me < 32,
    ensures
        masked(data, mb, me) == data & rotation_mask(mb, me),
{
    let mask = rotation_mask(mb, me);
    lemma_rotation_mask_by_shifts(mb, me);
    if mb <= me {
        let down: u32 = (31 - me) as u32;
        let width: u32 = (me - mb + 1) as u32;
        let ones: u32 = 0xFFFF_FFFFu32 >> ((32 - width) as u32);
        assert({
            &&& data & mask == ((data >> down) & ones) << down
            &&& ones as u64 == ((1u64 << (width as u64)) - 1) as u64
        }) by (bit_vector)
            requires
                mb <= me < 32,
                down == 31 - me,
                width == me - mb + 1,
                ones == 0xFFFF_FFFFu32 >> ((32 - width) as u32),
                mask == (0xFFFF_FFFFu32 >> mb) ^ (0x7FFF_FFFFu32 >> me),
        ;
        lemma_one_shl(down as nat);
        lemma_one_shl(width as nat);
        lemma_u32_shr_is_div(data, down);
        lemma_mask_is_mod(data >> down, width as nat);
        lemma_mod_bound(data as int / exp2(down as int), exp2(width as int));
        lemma_pow2_adds(width as nat, down as nat);
        lemma_one_shl((width + down) as nat);
        lemma_product_below(
            (data as int / exp2(down as int)) % exp2(width as int),
            exp2(width as int),
            exp2(down as int),
        );
        lemma_u32_shl_is_mul((data >> down) & ones, down);
    } else {
        let down: u32 = (32 - mb) as u32;
        let width: u32 = (mb - me - 1) as u32;
        if width == 0 {
            assert(data & mask == data) by (bit_vector)
                requires
                    me < mb < 32,
                    mb - me - 1 == 0,
                    mask == !((0xFFFF_FFFFu32 >> mb) ^ (0x7FFF_FFFFu32 >> me)),
            ;
            assert((data as int / exp2(down as int)) % 1 == 0);
        } else {
            let ones: u32 = 0xFFFF_FFFFu32 >> ((32 - width) as u32);
            let gap: u32 = ((data >> down) & ones) << down;
            assert({
                &&& data & mask == data - gap
                &&& gap <= data
                &&& ones as u64 == ((1u64 << (width as u64)) - 1) as u64
            }) by (bit_vector)
                requires
                    me < mb < 32,
                    down == 32 - mb,
                    width == mb - me - 1,
                    width > 0,
                    ones == 0xFFFF_FFFFu32 >> ((32 - width) as u32),
                    gap == ((data >> down) & ones) << down,
                    mask == !((0xFFFF_FFFFu32 >> mb) ^ (0x7FFF_FFFFu32 >> me)),
            ;
            lemma_one_shl(down as nat);
            lemma_one_shl(width as nat);
            lemma_u32_shr_is_div(data, down);
            lemma_mask_is_mod(data >> down, width as nat);
            lemma_mod_bound(data as int / exp2(down as int), exp2(width as int));
            lemma_pow2_adds(width as nat, down as nat);
            lemma_one_shl((width + down) as nat);
            lemma_product_below(
                (data as int / exp2(down as int)) % exp2(width as int),
                exp2(width as int),
                exp2(down as int),
            );
            lemma_u32_shl_is_mul((data >> down) & ones, down);
        }
    }
}

/// Builds the mask with ones from bit `mb` through bit `me`, wrapping around when `me < mb`.
pub fn make_rotation_mask(mb: u32, me: u32) -> (r: u32)
    requires
        mb < 32,
        me < 32,
    ensures
        r == rotation_mask(mb, me),
        forall|position: nat|
            position < 32 ==> (#[trigger] bit_is_set(r as int, 32, position) <==> in_rotation_mask(
                mb as nat,
                me as nat,
                position,
            )),
{
    let begin: u32 = 0xFFFF_FFFF >> mb;
    let end: u32 = 0x7FFF_FFFF >> me;
    let mask: u32 = begin ^ end;
    let r: u32 = if me < mb {
        !mask
    } else {
        mask
    };
    proof {
        lemma_rotation_mask_by_shifts(mb, me);
        assert forall|position: nat| position < 32 implies (#[trigger] bit_is_set(
            r as int,
            32,
            position,
        ) <==> in_rotation_mask(mb as nat, me as nat, position)) by {
            lemma_rotation_mask_bits(mb, me, position);
        }
    }
    r
}

/// The width in bytes of one value of a quantized type.
pub fn get_size_for_quantized_type(size: u8) -> (r: u32)
    ensures
        r == quantized_size(size),
{
    match size {
        4 | 6 => 10,
        5 | 7 => 20,
        _ => 4,
    }
}

/// A 32-bit word read as a number in two's complement.
pub open spec fn signed32(data: u32) -> int {
    if data >= 0x8000_0000 {
        data - 0x1_0000_0000
    } else {
        data as int
    }
}

/// The residue of a number modulo 2^32, as a word.
pub open spec fn wrap32(value: int) -> u32 {
    (value % 0x1_0000_0000) as u32
}

/// A word of `width` bits with bit `position` made `value` and every other bit kept.
pub open spec fn with_bit(data: int, width: nat, position: nat, value: bool) -> int
    recommends
        position < width <= 32,
{
    let weight = exp2(width - 1 - position);
    data - (if bit_is_set(data, width, position) {
        weight
    } else {
        0
    }) + (if value {
        weight
    } else {
        0
    })
}

/// A 32-bit word rotated left by `shift` bits: the low `32 - shift` bits move up by `shift`,
/// and the bits above them come back at the bottom.
pub open spec fn rotated_left(data: u32, shift: u32) -> u32
    recommends
        shift < 32,
{
    ((data as int % exp2(32 - shift)) * exp2(shift as int) + data as int / exp2(32 - shift)) as u32
}

/// Reads a word as a signed number.
pub fn to_signed(data: u32) -> (r: i64)
    ensures
        r == signed32(data),
{
    if data >= 0x8000_0000 {
        data as i64 - 0x1_0000_0000
    } else {
        data as i64
    }
}

/// Writes `value` to bit `position` of a word.
pub fn set_bit_value(data: u32, position: usize, value: bool) -> (r: u32)
    requires
        position < 32,
    ensures
        r == with_bit(data as int, 32, position as nat, value),
{
    let shift: u32 = 31 - position as u32;
    let weight: u32 = 1u32 << shift;
    let bit: u32 = if value {
        weight
    } else {
        0
    };
    let r: u32 = (data & !weight) | bit;
    proof {
        lemma_bit_is_set_by_shift(data, position as nat);
        lemma_one_shl(shift as nat);
        assert(r == data - (if (data >> shift) & 1 == 1 {
            weight
        } else {
            0u32
        }) + bit) by (bit_vector)
            requires
                shift < 32,
                weight == 1u32 << shift,
                bit == weight || bit == 0,
                r == (data & !weight) | bit,
        ;
    }
    r
}

/// The rotated word as shifts build it.
proof fn lemma_rotated_left_by_shifts(data: u32, shift: u32)
    requires
        shift < 32,
    ensures
        rotated_left(data, shift) == (if shift == 0 {
            data
        } else {
            (data << shift) | (data >> ((32 - shift) as u32))
        }),
{
    let kept = (32 - shift) as nat;
    lemma_one_shl(kept);
    lemma_one_shl(shift as nat);
    lemma2_to64();
    if shift == 0 {
        lemma_small_mod(data as nat, pow2(32));
    } else {
        let mask: u32 = 0xFFFF_FFFFu32 >> shift;
        let down: u32 = (32 - shift) as u32;
        assert({
            &&& ((data << shift) | (data >> down)) == ((data & mask) << shift) + (data >> down)
            &&& mask as u64 == ((1u64 << (down as u64)) - 1) as u64
        }) by (bit_vector)
            requires
                0 < shift < 32,
                down == 32 - shift,
                mask == 0xFFFF_FFFFu32 >> shift,
        ;
        lemma_mask_is_mod(data, kept);
        lemma_mod_bound(data as int, pow2(kept) as int);
        lemma_pow2_adds(kept, shift as nat);
        lemma_product_below(
            data as int % pow2(kept) as int,
            pow2(kept) as int,
            pow2(shift as nat) as int,
        );
        lemma_u32_shl_is_mul(data & mask, shift);
        lemma_u32_shr_is_div(data, down);
    }
}

/// Rotates a word left.
pub fn rotate_left(data: u32, shift: u32) -> (r: u32)
    requires
        shift < 32,
    ensures
        r == rotated_left(data, shift),
{
    proof {
        lemma_rotated_left_by_shifts(data, shift);
    }
    if shift == 0 {
        data
    } else {
        (data << shift) | (data >> (32 - shift))
    }
}

/// Bit `position` of a rotated word is the bit that stood `shift` places to its right,
/// counted around the word.
pub proof fn lemma_rotated_left_bits(data: u32, shift: u32, position: nat)
    requires
        shift < 32,
        position < 32,
    ensures
        bit_is_set(rotated_left(data, shift) as int, 32, position) <==> bit_is_set(
            data as int,
            32,
            ((position + shift) % 32) as nat,
        ),
{
    let r = rotated_left(data, shift);
    let p: u32 = position as u32;
    let q: u32 = ((position + shift) % 32) as u32;
    lemma_rotated_left_by_shifts(data, shift);
    lemma_bit_is_set_by_shift(r, position);
    lemma_bit_is_set_by_shift(data, q as nat);
    assert(((r >> ((31 - p) as u32)) & 1 == 1) <==> ((data >> ((31 - q) as u32)) & 1 == 1))
        by (bit_vector)
        requires
            shift < 32,
            p < 32,
            q == (p + shift) % 32,
            r == (if shift == 0 {
                data
            } else {
                (data << shift) | (data >> ((32 - shift) as u32))
            }),
    ;
}

/// Reading a bit after writing one: the written bit reads as written, the others as before.
pub proof fn lemma_with_bit_reads(data: u32, written: nat, value: bool, position: nat)
    requires
        written < 32,
        position < 32,
    ensures
        0 <= with_bit(data as int, 32, written, value) <= u32::MAX,
        data < 16 && written >= 28 ==> with_bit(data as int, 32, written, value) < 16,
        bit_is_set(with_bit(data as int, 32, written, value), 32, position) == (if position
            == written {
            value
        } else {
            bit_is_set(data as int, 32, position)
        }),
{
    let shift: u32 = (31 - written) as u32;
    let weight: u32 = 1u32 << shift;
    let bit: u32 = if value {
        weight
    } else {
        0
    };
    let r: u32 = (data & !weight) | bit;
    let p: u32 = (31 - position) as u32;
    lemma_bit_is_set_by_shift(data, written);
    lemma_bit_is_set_by_shift(data, position);
    lemma_bit_is_set_by_shift(r, position);
    lemma_one_shl(shift as nat);
    assert({
        &&& r == data - (if (data >> shift) & 1 == 1 {
            weight
        } else {
            0u32
        }) + bit
        &&& data < 16 && shift < 4 ==> r < 16
        &&& ((r >> p) & 1 == 1) <==> (if p == shift {
            bit != 0
        } else {
            (data >> p) & 1 == 1
        })
    }) by (bit_vector)
        requires
            shift < 32,
            p < 32,
            weight == 1u32 << shift,
            bit == weight || bit == 0,
            r == (data & !weight) | bit,
    ;
}

} // verus!
