//! Bit spans inside a 32-bit block state word.
use vstd::prelude::*;

verus! {

/// The mask of the `bits` lowest bits of a word.
pub open spec fn low_mask(bits: u32) -> u32
    recommends
        bits < 32,
{
    ((1u32 << bits) - 1) as u32
}

/// The value stored in the span `[offset, offset + bits)` of `word`.
pub open spec fn field_of(word: u32, offset: u32, bits: u32) -> u32 {
    (word >> offset) & low_mask(bits)
}

/// Whether the span `[offset, offset + bits)` lies inside a 32-bit word.
pub open spec fn span_fits(offset: u32, bits: u32) -> bool {
    offset < 32 && bits < 32 && offset + bits <= 32
}

/// `word` with the span `[offset, offset + bits)` replaced by `field`.
pub open spec fn splice(word: u32, field: u32, offset: u32, bits: u32) -> u32 {
    (word & !(low_mask(bits) << offset)) | (field << offset)
}

/// Bit `i` of `word`.
pub open spec fn bit_of(word: u32, i: u32) -> bool {
    (word >> i) & 1 == 1
}

/// The number of bits needed to hold `n`, counted from bit `b` upwards.
pub open spec fn width_from(n: u32, b: u32) -> u32
    decreases 32 - b,
{
    if b >= 32 || n >> b == 0 {
        b
    } else {
        width_from(n, (b + 1) as u32)
    }
}

/// The number of bits needed to hold every value up to `n`.
pub open spec fn bit_width(n: u32) -> u32 {
    width_from(n, 0)
}

proof fn lemma_width_from_bound(n: u32, b: u32)
    requires
        b <= 16,
        n <= 0xFFFF,
    ensures
        b <= width_from(n, b) <= 16,
        n >> width_from(n, b) == 0,
    decreases 16 - b,
{
    if n >> b == 0 {
    } else if b == 16 {
        assert(n <= 0xFFFF ==> n >> 16u32 == 0) by (bit_vector);
    } else {
        lemma_width_from_bound(n, (b + 1) as u32);
    }
}

/// A value up to 0xFFFF needs at most 16 bits, and every value up to it fits in them.
pub proof fn lemma_bit_width(n: u32, v: u32)
    requires
        n <= 0xFFFF,
        v <= n,
    ensures
        bit_width(n) <= 16,
        v <= low_mask(bit_width(n)),
        n > 0 ==> bit_width(n) >= 1,
{
    lemma_width_from_bound(n, 0);
    if n > 0 {
        assert(n > 0 ==> n >> 0u32 != 0) by (bit_vector);
        lemma_width_from_bound(n, 1);
    }
    let w = bit_width(n);
    assert(w <= 16 && n >> w == 0 && v <= n ==> v <= ((1u32 << w) - 1) as u32) by (bit_vector);
}

/// Computes the number of bits needed to hold every value up to `n`.
pub fn width_of(n: u32) -> (r: u32)
    requires
        n <= 0xFFFF,
    ensures
        r == bit_width(n),
        r <= 16,
{
    let mut b: u32 = 0;
    while b < 16 && (n >> b) != 0
        invariant
            b <= 16,
            width_from(n, b) == bit_width(n),
        decreases 16 - b,
    {
        b = b + 1;
    }
    proof {
        lemma_width_from_bound(n, 0);
        if b == 16 {
            assert(n <= 0xFFFF ==> n >> 16u32 == 0) by (bit_vector);
        }
    }
    b
}

/// Computes the mask of the `bits` lowest bits.
pub fn mask_of(bits: u32) -> (r: u32)
    requires
        bits < 32,
    ensures
        r == low_mask(bits),
{
    assert(bits < 32 ==> 1u32 << bits >= 1) by (bit_vector);
    (1u32 << bits) - 1
}

/// Replacing a span leaves every bit outside it as it was, and the span then holds the new
/// field.
pub proof fn lemma_splice(word: u32, field: u32, offset: u32, bits: u32, i: u32)
    requires
        span_fits(offset, bits),
        field <= low_mask(bits),
        i < 32,
    ensures
        field_of(splice(word, field, offset, bits), offset, bits) == field,
        (i < offset || offset + bits <= i) ==> bit_of(splice(word, field, offset, bits), i)
            == bit_of(word, i),
        (offset <= i < offset + bits) ==> bit_of(splice(word, field, offset, bits), i)
            == bit_of(field, (i - offset) as u32),
{
    assert(offset < 32 && bits < 32 && offset + bits <= 32 && field <= ((1u32 << bits) - 1) as u32
        ==> (((((word & !((((1u32 << bits) - 1) as u32) << offset)) | (field << offset)) >> offset)
        & (((1u32 << bits) - 1) as u32)) == field)) by (bit_vector);
    assert(offset < 32 && bits < 32 && offset + bits <= 32 && field <= ((1u32 << bits) - 1) as u32
        && i < 32 && (i < offset || offset + bits <= i) ==> (((((word & !((((1u32 << bits) - 1)
        as u32) << offset)) | (field << offset)) >> i) & 1) == ((word >> i) & 1))) by (bit_vector);
    assert(offset < 32 && bits < 32 && offset + bits <= 32 && field <= ((1u32 << bits) - 1) as u32
        && i < 32 && offset <= i && i < offset + bits ==> (((((word & !((((1u32 << bits) - 1)
        as u32) << offset)) | (field << offset)) >> i) & 1) == ((field >> ((i - offset) as u32))
        & 1))) by (bit_vector);
}


/// Setting bits in one span leaves a disjoint span as it was.
pub proof fn lemma_or_elsewhere(m: u32, x: u32, o1: u32, b1: u32, o2: u32, b2: u32)
    requires
        span_fits(o1, b1),
        span_fits(o2, b2),
        x <= low_mask(b1),
        o1 + b1 <= o2 || o2 + b2 <= o1,
    ensures
        field_of(m | (x << o1), o2, b2) == field_of(m, o2, b2),
{
    assert(o1 < 32 && b1 < 32 && o1 + b1 <= 32 && o2 < 32 && b2 < 32 && o2 + b2 <= 32 && x <= ((
    1u32 << b1) - 1) as u32 && (o1 + b1 <= o2 || o2 + b2 <= o1) ==> (((m | (x << o1)) >> o2) & (((
    1u32 << b2) - 1) as u32)) == ((m >> o2) & (((1u32 << b2) - 1) as u32))) by (bit_vector);
}

/// Setting bits in an empty span makes the span hold them.
pub proof fn lemma_or_here(m: u32, x: u32, o: u32, b: u32)
    requires
        span_fits(o, b),
        x <= low_mask(b),
        field_of(m, o, b) == 0,
    ensures
        field_of(m | (x << o), o, b) == x,
        m & (low_mask(b) << o) == 0,
{
    assert(o < 32 && b < 32 && o + b <= 32 && x <= ((1u32 << b) - 1) as u32 && ((m >> o) & (((1u32
    << b) - 1) as u32)) == 0 ==> (((m | (x << o)) >> o) & (((1u32 << b) - 1) as u32)) == x)
        by (bit_vector);
    assert(o < 32 && b < 32 && o + b <= 32 && ((m >> o) & (((1u32 << b) - 1) as u32)) == 0 ==> (m
        & ((((1u32 << b) - 1) as u32) << o)) == 0) by (bit_vector);
}

/// Comparing under a mask made of two disjoint parts compares each part.
pub proof fn lemma_masked_split(w: u32, m: u32, v: u32, sm: u32, sv: u32)
    requires
        m & sm == 0,
        v & !m == 0,
        sv & !sm == 0,
    ensures
        ((w & (m | sm)) == (v | sv)) == ((w & m) == v && (w & sm) == sv),
        (v | sv) & !(m | sm) == 0,
{
    assert(m & sm == 0 && v & !m == 0 && sv & !sm == 0 ==> (((w & (m | sm)) == (v | sv)) == ((w & m)
        == v && (w & sm) == sv))) by (bit_vector);
    assert(v & !m == 0 && sv & !sm == 0 ==> (v | sv) & !(m | sm) == 0) by (bit_vector);
}

/// Comparing a word with a field under the field's span mask compares the field.
pub proof fn lemma_span_compare(w: u32, f: u32, o: u32, b: u32)
    requires
        span_fits(o, b),
        f <= low_mask(b),
    ensures
        ((w & (low_mask(b) << o)) == (f << o)) == (field_of(w, o, b) == f),
        (f << o) & !(low_mask(b) << o) == 0,
        b >= 1 ==> low_mask(b) != 0,
{
    assert(o < 32 && b < 32 && o + b <= 32 && f <= ((1u32 << b) - 1) as u32 ==> (((w & ((((1u32
        << b) - 1) as u32) << o)) == (f << o)) == (((w >> o) & (((1u32 << b) - 1) as u32)) == f)))
        by (bit_vector);
    assert(o < 32 && b < 32 && o + b <= 32 && f <= ((1u32 << b) - 1) as u32 ==> (f << o) & !((((1u32
        << b) - 1) as u32) << o) == 0) by (bit_vector);
    assert(b >= 1 && b < 32 ==> ((1u32 << b) - 1) as u32 != 0) by (bit_vector);
}

/// The zero word holds zero in every span.
pub proof fn lemma_zero_fields(o: u32, b: u32)
    ensures
        field_of(0, o, b) == 0,
        0u32 & !0u32 == 0,
{
    assert((0u32 >> o) & (((1u32 << b) - 1) as u32) == 0) by (bit_vector);
    assert(0u32 & !0u32 == 0) by (bit_vector);
}

} // verus!
