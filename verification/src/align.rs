//! Powers of two, alignment and page arithmetic.
use vstd::arithmetic::power2::{
    is_pow2, is_pow2_equiv, lemma_pow2, lemma_pow2_adds, lemma_pow2_pos, lemma2_to64, pow2,
};
use vstd::arithmetic::power::lemma_pow_strictly_increases_converse;
use vstd::bits::{
    lemma_u64_low_bits_mask_is_mod, lemma_usize_low_bits_mask_is_mod, low_bits_mask,
};
use vstd::prelude::*;

verus! {

/// The size of a firmware page in bytes.
pub const PAGE_SIZE: u64 = 4096;

/// The largest multiple of `align` that is not above `value`.
pub open spec fn aligned_down(value: int, align: int) -> int {
    value - value % align
}

/// The smallest multiple of `align` that is not below `value`.
pub open spec fn aligned_up(value: int, align: int) -> int {
    aligned_down(value + align - 1, align)
}

/// `PAGE_SIZE` is a power of two.
pub proof fn lemma_page_size()
    ensures
        is_pow2(PAGE_SIZE as int),
{
    lemma_pow2_values();
}

/// The sizes used in this crate that are powers of two.
pub proof fn lemma_pow2_values()
    ensures
        is_pow2(4096),
        is_pow2(16384),
        is_pow2(65536),
{
    assert(is_pow2(4096)) by {
        lemma2_to64();
        lemma_pow2(12);
        is_pow2_equiv(4096);
    }
    assert(is_pow2(16384)) by {
        lemma2_to64();
        lemma_pow2(14);
        is_pow2_equiv(16384);
    }
    assert(is_pow2(65536)) by {
        lemma2_to64();
        lemma_pow2(16);
        is_pow2_equiv(65536);
    }
}

/// `2^64` as a number.
pub proof fn lemma_pow2_64()
    ensures
        pow2(64) == 0x1_0000_0000_0000_0000,
{
    lemma2_to64();
    lemma_pow2_adds(32, 32);
    assert(pow2(32) == 0x1_0000_0000);
}

/// The exponent of a power of two below `pow2(bits)`.
proof fn lemma_exponent(n: int, bits: nat) -> (e: nat)
    requires
        is_pow2(n),
        n < pow2(bits),
    ensures
        n == pow2(e),
        e < bits,
{
    is_pow2_equiv(n);
    let e = choose|e: nat| vstd::arithmetic::power::pow(2, e) == n;
    lemma_pow2(e);
    lemma_pow2(bits);
    lemma_pow_strictly_increases_converse(2, e, bits);
    e
}

/// Masking with a power of two less one takes the remainder; masking with its complement takes the
/// multiple below.
pub proof fn lemma_mask_u64(value: u64, align: u64)
    requires
        is_pow2(align as int),
    ensures
        align > 0,
        value & ((align - 1) as u64) == value % align,
        value & !((align - 1) as u64) == aligned_down(value as int, align as int),
{
    lemma_pow2_64();
    let e = lemma_exponent(align as int, 64);
    lemma_pow2_pos(e);
    lemma_u64_low_bits_mask_is_mod(value, e);
    let mask = (align - 1) as u64;
    assert(low_bits_mask(e) as u64 == mask);
    assert(value & !mask == value - (value & mask)) by (bit_vector);
}

/// The same for `usize`.
pub proof fn lemma_mask_usize(value: usize, align: usize)
    requires
        is_pow2(align as int),
    ensures
        align > 0,
        value & ((align - 1) as usize) == value % align,
        value & !((align - 1) as usize) == aligned_down(value as int, align as int),
{
    lemma2_to64();
    lemma_pow2_64();
    let e = lemma_exponent(align as int, usize::BITS as nat);
    lemma_pow2_pos(e);
    lemma_usize_low_bits_mask_is_mod(value, e);
    let mask = (align - 1) as usize;
    assert(low_bits_mask(e) as usize == mask);
    assert(value & !mask == value - (value & mask)) by (bit_vector);
}

/// A power of two that a `usize` can hold divides the number of `usize` values.
pub proof fn lemma_divides_usize_range(align: usize)
    requires
        is_pow2(align as int),
    ensures
        align > 0,
        (usize::MAX + 1) % align as int == 0,
{
    lemma2_to64();
    lemma_pow2_64();
    let bits = usize::BITS as nat;
    assert(pow2(bits) == usize::MAX + 1);
    let e = lemma_exponent(align as int, bits);
    lemma_pow2_pos(e);
    lemma_pow2_adds(e, (bits - e) as nat);
    let q = pow2((bits - e) as nat) as int;
    vstd::arithmetic::div_mod::lemma_mod_multiples_basic(q, align as int);
    assert(usize::MAX + 1 == q * align as int) by (nonlinear_arith)
        requires
            usize::MAX + 1 == align as int * q,
    ;
}

/// What alignment does: the result is a multiple, and less than one step away.
pub proof fn lemma_aligned(value: int, align: int)
    requires
        0 <= value,
        0 < align,
    ensures
        aligned_down(value, align) % align == 0,
        0 <= aligned_down(value, align) <= value < aligned_down(value, align) + align,
        aligned_up(value, align) % align == 0,
        value <= aligned_up(value, align) < value + align,
{
    vstd::arithmetic::div_mod::lemma_fundamental_div_mod(value, align);
    vstd::arithmetic::div_mod::lemma_fundamental_div_mod(value + align - 1, align);
    vstd::arithmetic::div_mod::lemma_mod_bound(value, align);
    vstd::arithmetic::div_mod::lemma_mod_bound(value + align - 1, align);
    vstd::arithmetic::div_mod::lemma_mod_multiples_basic(value / align, align);
    vstd::arithmetic::div_mod::lemma_mod_multiples_basic((value + align - 1) / align, align);
    assert(aligned_down(value, align) == (value / align) * align) by (nonlinear_arith)
        requires
            value == align * (value / align) + value % align,
            aligned_down(value, align) == value - value % align,
    ;
    let w = value + align - 1;
    assert(aligned_up(value, align) == (w / align) * align) by (nonlinear_arith)
        requires
            w == align * (w / align) + w % align,
            aligned_up(value, align) == w - w % align,
    ;
    assert(0 <= value / align) by (nonlinear_arith)
        requires
            0 <= value,
            0 < align,
    ;
    assert(0 <= aligned_down(value, align)) by (nonlinear_arith)
        requires
            0 <= value / align,
            0 < align,
            aligned_down(value, align) == (value / align) * align,
    ;
}

/// Tells whether `x` is a power of two.
pub fn is_power_of_two(x: u64) -> (r: bool)
    ensures
        r == is_pow2(x as int),
{
    reveal(is_pow2);
    if x == 0 {
        return false;
    }
    let mut y: u64 = x;
    while y % 2 == 0
        invariant
            y > 0,
            is_pow2(x as int) == is_pow2(y as int),
        decreases y,
    {
        reveal(is_pow2);
        y = y / 2;
    }
    y == 1
}

/// The multiple of `align` at or below a number, and the one at or above it, are those that are less
/// than one step away.
pub proof fn law_alignment_is_the_nearest_multiple(value: int, align: int, multiple: int)
    requires
        0 <= value,
        0 < align,
        multiple % align == 0,
    ensures
        multiple <= value < multiple + align <==> aligned_down(value, align) == multiple,
        value <= multiple < value + align <==> aligned_up(value, align) == multiple,
{
    lemma_aligned(value, align);
    lemma_nearest(multiple, aligned_down(value, align), align);
    lemma_nearest(multiple, aligned_up(value, align), align);
}

/// Two multiples less than one step apart are the same.
proof fn lemma_nearest(a: int, b: int, align: int)
    requires
        0 < align,
        a % align == 0,
        b % align == 0,
    ensures
        -align < a - b < align ==> a == b,
{
    vstd::arithmetic::div_mod::lemma_fundamental_div_mod(a, align);
    vstd::arithmetic::div_mod::lemma_fundamental_div_mod(b, align);
    let p = a / align;
    let q = b / align;
    assert(-align < a - b < align ==> a == b) by (nonlinear_arith)
        requires
            a == align * p,
            b == align * q,
            0 < align,
    ;
}

} // verus!
