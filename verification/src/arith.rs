//! Arithmetic modulo the width of a machine word.

use vstd::prelude::*;

verus! {

/// One more than the largest 64-bit value.
pub open spec fn two_to_64() -> int {
    0x1_0000_0000_0000_0000
}

/// The 64-bit signed value that `x` comes to when every operation wraps.
pub open spec fn wrap_i64(x: int) -> i64 {
    let low = x % two_to_64();
    if low > i64::MAX {
        (low - two_to_64()) as i64
    } else {
        low as i64
    }
}

/// The machine word that `x` comes to when every operation wraps.
pub open spec fn wrap_usize(x: int) -> usize {
    (x % (usize::MAX + 1)) as usize
}

/// A value that fits is not changed by wrapping.
pub proof fn lemma_wrap_i64_fits(x: int)
    requires
        i64::MIN <= x <= i64::MAX,
    ensures
        wrap_i64(x) == x,
{
}

/// A value that fits is not changed by wrapping.
pub proof fn lemma_wrap_usize_fits(x: int)
    requires
        0 <= x <= usize::MAX,
    ensures
        wrap_usize(x) == x,
{
    vstd::arithmetic::div_mod::lemma_small_mod(x as nat, (usize::MAX + 1) as nat);
}

/// Wrapping addition of wrapped values wraps their sum.
pub proof fn lemma_wrap_i64_add(x: int, y: int)
    ensures
        wrap_i64(x).wrapping_add(wrap_i64(y)) == wrap_i64(x + y),
{
}

/// Wrapping subtraction of wrapped values wraps their difference.
pub proof fn lemma_wrap_i64_sub(x: int, y: int)
    ensures
        wrap_i64(x).wrapping_sub(wrap_i64(y)) == wrap_i64(x - y),
{
}

/// Wrapping addition of a word to a wrapped value wraps the sum.
pub proof fn lemma_wrap_usize_add(x: int, y: usize)
    ensures
        wrap_usize(x).wrapping_add(y) == wrap_usize(x + y),
{
    let m = usize::MAX + 1;
    vstd::arithmetic::div_mod::lemma_fundamental_div_mod(x, m);
    let r = x % m;
    let q = x / m;
    if r + y > usize::MAX {
        vstd::arithmetic::div_mod::lemma_fundamental_div_mod_converse(x + y, m, q + 1, r + y - m);
    } else {
        vstd::arithmetic::div_mod::lemma_fundamental_div_mod_converse(x + y, m, q, r + y);
    }
}

/// Converting a word to a 64-bit signed value wraps it.
pub proof fn lemma_usize_as_i64(x: usize)
    ensures
        x as i64 == wrap_i64(x as int),
{
    assert(x <= 0x7fff_ffff_ffff_ffff ==> x as i64 == x) by (bit_vector);
    assert(x > 0x7fff_ffff_ffff_ffff ==> x as i64 == x - 0x1_0000_0000_0000_0000) by (bit_vector);
}

/// Converting a 64-bit value that is not negative to a word wraps it.
pub proof fn lemma_i64_as_usize(x: i64)
    requires
        0 <= x,
    ensures
        x as usize == wrap_usize(x as int),
{
    if usize::BITS == 32 {
        assert(usize::MAX == 0xffff_ffff);
        let low = x as u32;
        assert(low as int == x % 0x1_0000_0000) by (bit_vector)
            requires
                0 <= x,
                low == x as u32,
        ;
    } else {
        lemma_wrap_usize_fits(x as int);
    }
}

/// Wrapping changes a value by a multiple of two to the 64 only. With the range of the result, this
/// leaves one value.
pub proof fn law_wrap_i64_is_congruent(x: int)
    ensures
        (x - wrap_i64(x)) % 0x1_0000_0000_0000_0000 == 0,
{
}

/// Wrapping changes a value by a multiple of the number of machine words only. With the range of the
/// result, this leaves one value.
pub proof fn law_wrap_usize_is_congruent(x: int)
    ensures
        (x - wrap_usize(x)) % (usize::MAX + 1) == 0,
{
    let m = usize::MAX + 1;
    vstd::arithmetic::div_mod::lemma_fundamental_div_mod(x, m);
    vstd::arithmetic::div_mod::lemma_fundamental_div_mod_converse(x - x % m, m, x / m, 0);
}

} // verus!
