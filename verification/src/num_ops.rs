//! Alignment and bit-field helpers on machine words.

use vstd::prelude::*;

verus! {

/// The smallest multiple of `align` that is not below `origin`.
pub open spec fn round_up_value(origin: int, align: int) -> int {
    if origin % align == 0 {
        origin
    } else {
        origin + (align - origin % align)
    }
}

/// The largest multiple of `align` that is not above `origin`.
pub open spec fn round_down_value(origin: int, align: int) -> int {
    origin - origin % align
}

/// A word whose `length` lowest bits are set.
pub open spec fn low_mask_u32(length: u32) -> u32 {
    if length >= 32 {
        0xffff_ffffu32
    } else {
        ((1u32 << length) - 1) as u32
    }
}

/// A word whose `length` lowest bits are set.
pub open spec fn low_mask_u64(length: u32) -> u64 {
    if length >= 64 {
        0xffff_ffff_ffff_ffffu64
    } else {
        ((1u64 << length) - 1) as u64
    }
}

/// The `length` bits of `value` that start at bit `start`, moved down to bit 0.
pub open spec fn field_u32(value: u32, start: u32, length: u32) -> u32 {
    (value >> start) & low_mask_u32(length)
}

/// The `length` bits of `value` that start at bit `start`, moved down to bit 0.
pub open spec fn field_u64(value: u64, start: u32, length: u32) -> u64 {
    (value >> start) & low_mask_u64(length)
}

/// `value` with the `length` bits from bit `start` on replaced by the low bits
/// of `fieldval`.
pub open spec fn with_field_u32(value: u32, start: u32, length: u32, fieldval: u32) -> u32 {
    let mask = low_mask_u32(length) << start;
    (value & !mask) | ((fieldval << start) & mask)
}

/// Rounds `origin` up to a multiple of `align`; `None` when that multiple does
/// not fit in 64 bits.
pub fn round_up(origin: u64, align: u64) -> (r: Option<u64>)
    requires
        align > 0,
    ensures
        r == if round_up_value(origin as int, align as int) <= u64::MAX {
            Some(round_up_value(origin as int, align as int) as u64)
        } else {
            None
        },
{
    let diff: u64 = origin % align;
    if diff == 0 {
        Some(origin)
    } else {
        origin.checked_add(align - diff)
    }
}

/// Rounds `origin` down to a multiple of `align`. The result never leaves the
/// range of the type, so it is always present.
pub fn round_down(origin: u64, align: u64) -> (r: Option<u64>)
    requires
        align > 0,
    ensures
        r == Some(round_down_value(origin as int, align as int) as u64),
        0 <= round_down_value(origin as int, align as int) <= origin,
{
    let diff: u64 = origin % align;
    proof {
        lemma_round_brackets(origin as int, align as int);
    }
    if diff == 0 {
        Some(origin)
    } else {
        origin.checked_sub(diff)
    }
}

/// The low (`page` 0) or high (`page` 1) half of `value`; 0 for any other page.
pub fn read_u32(value: u64, page: u32) -> (r: u32)
    ensures
        page == 0 ==> r as int == value as int % 0x1_0000_0000,
        page == 1 ==> r as int == value as int / 0x1_0000_0000,
        page > 1 ==> r == 0,
{
    if page == 0 {
        assert((value & 0xffff_ffff) == value % 0x1_0000_0000) by (bit_vector);
        assert((value & 0xffff_ffff) <= 0xffff_ffff) by (bit_vector);
        (value & 0xffff_ffff) as u32
    } else if page == 1 {
        assert((value >> 32) == value / 0x1_0000_0000) by (bit_vector);
        assert((value >> 32) <= 0xffff_ffff) by (bit_vector);
        (value >> 32) as u32
    } else {
        0
    }
}

/// A 64-bit word that holds `value` in its low (`page` 0) or high (`page` 1)
/// half and zeros elsewhere; 0 for any other page.
pub fn write_u32(value: u32, page: u32) -> (r: u64)
    ensures
        page == 0 ==> r == value,
        page == 1 ==> r as int == value as int * 0x1_0000_0000,
        page > 1 ==> r == 0,
{
    if page == 0 {
        value as u64
    } else if page == 1 {
        let wide: u64 = value as u64;
        assert((wide << 32) == wide * 0x1_0000_0000) by (bit_vector)
            requires
                wide <= 0xffff_ffff,
        ;
        wide << 32
    } else {
        0
    }
}

/// Reads the bit field of `length` bits at bit `start` of a 32-bit word.
/// `None` when the field does not lie inside the word.
pub fn extract_u32(value: u32, start: u32, length: u32) -> (r: Option<u32>)
    ensures
        r == if start + length <= 32 {
            Some(field_u32(value, start, length))
        } else {
            None
        },
{
    if start > 32 || length > 32 - start {
        return None;
    }
    if length == 0 {
        assert(field_u32(value, start, 0) == 0) by (bit_vector);
        return Some(0);
    }
    let mask: u32 = !0u32 >> (32 - length);
    assert(mask == low_mask_u32(length)) by (bit_vector)
        requires
            0 < length <= 32,
            mask == !0u32 >> ((32 - length) as u32),
    ;
    Some((value >> start) & mask)
}

/// Reads the bit field of `length` bits at bit `start` of a 64-bit word.
/// `None` when the field does not lie inside the word.
pub fn extract_u64(value: u64, start: u32, length: u32) -> (r: Option<u64>)
    ensures
        r == if start + length <= 64 {
            Some(field_u64(value, start, length))
        } else {
            None
        },
{
    if start > 64 || length > 64 - start {
        return None;
    }
    if length == 0 {
        assert(field_u64(value, start, 0) == 0) by (bit_vector);
        return Some(0);
    }
    let mask: u64 = !0u64 >> (64 - length);
    assert(mask == low_mask_u64(length)) by (bit_vector)
        requires
            0 < length <= 64,
            mask == !0u64 >> ((64 - length) as u32),
    ;
    Some((value >> start) & mask)
}

/// Writes the low `length` bits of `fieldval` into the bit field at bit `start`
/// of a 32-bit word and leaves the other bits as they are. `None` when the
/// field does not lie inside the word.
pub fn deposit_u32(value: u32, start: u32, length: u32, fieldval: u32) -> (r: Option<u32>)
    ensures
        r == if start + length <= 32 {
            Some(with_field_u32(value, start, length, fieldval))
        } else {
            None
        },
{
    if start > 32 || length > 32 - start {
        return None;
    }
    if length == 0 {
        assert(with_field_u32(value, start, 0, fieldval) == value) by (bit_vector);
        return Some(value);
    }
    let low: u32 = !0u32 >> (32 - length);
    assert(low == low_mask_u32(length)) by (bit_vector)
        requires
            0 < length <= 32,
            low == !0u32 >> ((32 - length) as u32),
    ;
    let mask: u32 = low << start;
    Some((value & !mask) | ((fieldval << start) & mask))
}

/// Rounding brackets the value: the rounded-down value is at most `x`, the
/// rounded-up value at least `x`, both are multiples of `a` less than `a`
/// away from `x`, and either equals `x` exactly when `x` is a multiple of `a`.
pub proof fn lemma_round_brackets(x: int, a: int)
    requires
        0 <= x,
        a > 0,
    ensures
        round_down_value(x, a) <= x <= round_up_value(x, a),
        round_down_value(x, a) == x <==> x % a == 0,
        round_up_value(x, a) == x <==> x % a == 0,
        round_down_value(x, a) % a == 0,
        round_up_value(x, a) % a == 0,
        x - round_down_value(x, a) < a,
        round_up_value(x, a) - x < a,
        0 <= round_down_value(x, a),
{
    assert(0 <= x % a < a && x % a <= x) by (nonlinear_arith)
        requires
            a > 0,
            0 <= x,
    ;
    assert((x - x % a) % a == 0 && (x % a != 0 ==> (x + (a - x % a)) % a == 0))
        by (nonlinear_arith)
        requires
            a > 0,
    ;
}

/// `round_up` has no value only when the rounded value leaves the range of
/// the type, and `round_down` always has one.
pub proof fn lemma_round_absent_only_on_overflow(x: u64, a: u64)
    requires
        a > 0,
    ensures
        round_up_value(x as int, a as int) > u64::MAX <==> x + (a - x % a) > u64::MAX && x % a != 0,
        0 <= round_down_value(x as int, a as int) <= u64::MAX,
{
    lemma_round_brackets(x as int, a as int);
}

/// Putting back what was read changes nothing: depositing the field that
/// `extract_u32` reads from a word at the same place gives the word again.
pub proof fn lemma_deposit_of_extract(v: u32, start: u32, length: u32)
    requires
        start + length <= 32,
    ensures
        with_field_u32(v, start, length, field_u32(v, start, length)) == v,
{
    assert(with_field_u32(v, start, length, field_u32(v, start, length)) == v) by (bit_vector)
        requires
            start + length <= 32,
    ;
}

/// Reading back what was written gives the low `length` bits of the value
/// written, and bits outside the field keep their old value.
pub proof fn lemma_extract_of_deposit(v: u32, start: u32, length: u32, fieldval: u32)
    requires
        start + length <= 32,
    ensures
        field_u32(with_field_u32(v, start, length, fieldval), start, length) == fieldval
            & low_mask_u32(length),
        with_field_u32(v, start, length, fieldval) & !(low_mask_u32(length) << start) == v & !(
        low_mask_u32(length) << start),
{
    assert(field_u32(with_field_u32(v, start, length, fieldval), start, length) == fieldval
        & low_mask_u32(length)) by (bit_vector)
        requires
            start + length <= 32,
    ;
    assert(with_field_u32(v, start, length, fieldval) & !(low_mask_u32(length) << start) == v & !(
    low_mask_u32(length) << start)) by (bit_vector);
}

} // verus!
