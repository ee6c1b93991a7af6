//! Block state properties, their layout within the state word and the codec between the two.
use vstd::prelude::*;
use vstd::string::StrSliceExecFns;

use crate::bits::{
    bit_width, field_of, lemma_bit_width, lemma_splice, low_mask, mask_of, span_fits, splice,
    width_of,
};
use crate::text::{views, decimal_text, lemma_decimal_text, parse_u32, piece_is, push_decimal, u32_of};
use vstd::string::StringExecFns;

verus! {

/// The three shapes a property can take.
#[derive(Clone, Copy, Debug, PartialEq, Eq, Structural)]
pub enum PropertyType {
    Boolean,
    Integer,
    Enum,
}

/// Describes one kind of block state property: its type, its inclusive range of raw values and,
/// for enums, the snake_case names of its variants in order.
#[derive(Clone, Debug)]
pub struct PropertyId {
    pub ty: PropertyType,
    pub min: u32,
    pub max: u32,
    pub variants: Vec<String>,
}

/// A value outside the range of an integer property.
#[derive(Clone, Copy, Debug, PartialEq, Eq, Structural)]
pub struct OutOfRangeError {
    pub value: u32,
    pub min: u32,
    pub max: u32,
}

/// Why a string is not a valid integer property value.
#[derive(Clone, Copy, Debug, PartialEq, Eq, Structural)]
pub enum ParseIntegerError {
    NotANumber,
    OutOfRange(OutOfRangeError),
}

/// Why a string is not a valid value of a property.
#[derive(Clone, Debug, PartialEq, Eq)]
pub enum PropertyError {
    /// A boolean property takes `true` or `false`.
    NotABoolean,
    Integer(ParseIntegerError),
    /// An enum property takes one of the names of its variants, which follow in order.
    UnknownVariant(Vec<String>),
}

/// The index of the first name in `names`, from `k` on, that spells `s`.
pub open spec fn variant_index_from(names: Seq<String>, s: Seq<char>, k: int) -> Option<u32>
    decreases names.len() - k,
{
    if k >= names.len() || k < 0 {
        None
    } else if names[k]@ == s {
        Some(k as u32)
    } else {
        variant_index_from(names, s, k + 1)
    }
}

/// No two names are the same.
pub open spec fn names_distinct(v: Seq<String>) -> bool {
    forall|i: int, j: int| 0 <= i < j < v.len() ==> (#[trigger] v[i])@ != (#[trigger] v[j])@
}

/// Whether no two names of `v` are the same.
fn all_distinct(v: &Vec<String>) -> (r: bool)
    ensures
        r == names_distinct(v@),
{
    let mut j: usize = 0;
    while j < v.len()
        invariant
            j <= v@.len(),
            forall|a: int, b: int| 0 <= a < b < j ==> (#[trigger] v@[a])@ != (#[trigger] v@[b])@,
        decreases v@.len() - j,
    {
        let mut i: usize = 0;
        while i < j
            invariant
                j < v@.len(),
                i <= j,
                forall|a: int, b: int| 0 <= a < b < j ==> (#[trigger] v@[a])@ != (#[trigger] v@[b])@,
                forall|a: int| 0 <= a < i ==> (#[trigger] v@[a])@ != v@[j as int]@,
            decreases j - i,
        {
            if v[i] == v[j] {
                return false;
            }
            i = i + 1;
        }
        j = j + 1;
    }
    true
}

/// The canonical text of the value with bits `v` of a property of kind `id`.
pub open spec fn text_of(id: PropertyId, v: u32) -> Seq<char> {
    match id.ty {
        PropertyType::Boolean => if v == 1 {
            seq!['t', 'r', 'u', 'e']
        } else {
            seq!['f', 'a', 'l', 's', 'e']
        },
        PropertyType::Integer => decimal_text((v + id.min) as nat),
        PropertyType::Enum => id.variants@[v as int]@,
    }
}

proof fn lemma_variant_index(names: Seq<String>, v: int, k: int)
    requires
        names_distinct(names),
        0 <= k <= v < names.len(),
    ensures
        variant_index_from(names, names[v]@, k) == Some(v as u32),
    decreases v - k,
{
    if k < v {
        lemma_variant_index(names, v, k + 1);
    }
}

proof fn lemma_variant_index_bound(names: Seq<String>, s: Seq<char>, k: int)
    requires
        0 <= k,
    ensures
        variant_index_from(names, s, k) matches Some(i) ==> i < names.len(),
    decreases names.len() - k,
{
    if k < names.len() && names[k]@ != s {
        lemma_variant_index_bound(names, s, k + 1);
    }
}

/// A parsed value always lies in its property's range.
pub proof fn lemma_parsed_in_range(id: PropertyId, s: Seq<char>)
    requires
        id.wf(),
    ensures
        parse_value(id, s) matches Ok(v) ==> v <= id.max - id.min,
{
    lemma_variant_index_bound(id.variants@, s, 0);
}

/// Every value of a well-formed property reads back from its canonical text.
pub proof fn lemma_text_round_trip(id: PropertyId, v: u32)
    requires
        id.wf(),
        v <= id.max - id.min,
    ensures
        parse_value(id, text_of(id, v)) == Ok::<u32, PropertyError>(v),
{
    match id.ty {
        PropertyType::Integer => {
            lemma_decimal_text((v + id.min) as nat);
        },
        PropertyType::Enum => {
            lemma_variant_index(id.variants@, v as int, 0);
        },
        PropertyType::Boolean => {},
    }
}

/// Two errors say the same; variant lists are compared by their names.
pub open spec fn same_error(a: PropertyError, b: PropertyError) -> bool {
    match (a, b) {
        (PropertyError::UnknownVariant(x), PropertyError::UnknownVariant(y)) => views(x@) == views(y@),
        _ => a == b,
    }
}

/// `r` is what `s` states: the same value, or the same error.
pub open spec fn parse_matches(r: Result<u32, PropertyError>, s: Result<u32, PropertyError>) -> bool {
    match (r, s) {
        (Ok(a), Ok(b)) => a == b,
        (Err(a), Err(b)) => same_error(a, b),
        _ => false,
    }
}

/// `r` fails with error `e`.
pub open spec fn fails_with(r: Result<u32, PropertyError>, e: PropertyError) -> bool {
    match r {
        Ok(_) => false,
        Err(x) => same_error(x, e),
    }
}

/// What parsing `s` as a value of `id` gives: the value's bits (its raw value minus the minimum).
pub open spec fn parse_value(id: PropertyId, s: Seq<char>) -> Result<u32, PropertyError> {
    match id.ty {
        PropertyType::Boolean => if s == seq!['t', 'r', 'u', 'e'] {
            Ok(1)
        } else if s == seq!['f', 'a', 'l', 's', 'e'] {
            Ok(0)
        } else {
            Err(PropertyError::NotABoolean)
        },
        PropertyType::Integer => match u32_of(s) {
            Some(n) => if id.min <= n && n <= id.max {
                Ok((n - id.min) as u32)
            } else {
                Err(
                    PropertyError::Integer(
                        ParseIntegerError::OutOfRange(
                            (OutOfRangeError { value: n, min: id.min, max: id.max }),
                        ),
                    ),
                )
            },
            None => Err(PropertyError::Integer(ParseIntegerError::NotANumber)),
        },
        PropertyType::Enum => match variant_index_from(id.variants@, s, 0) {
            Some(i) => Ok(i),
            None => Err(PropertyError::UnknownVariant(id.variants)),
        },
    }
}

impl PropertyId {
    /// A property is well formed when its range is non-empty, spans at most 16 bits, and fits
    /// its type.
    pub open spec fn wf(&self) -> bool {
        &&& self.min < self.max
        &&& self.max - self.min <= 0xFFFF
        &&& match self.ty {
            PropertyType::Boolean => self.min == 0 && self.max == 1,
            PropertyType::Integer => true,
            PropertyType::Enum => self.min == 0 && self.max + 1 == self.variants@.len()
                && names_distinct(self.variants@),
        }
    }

    /// The number of bits the property takes in a state word.
    pub open spec fn spec_bits(&self) -> u32 {
        bit_width((self.max - self.min) as u32)
    }

    /// A boolean property.
    pub fn boolean() -> (r: PropertyId)
        ensures
            r.wf(),
            r.ty == PropertyType::Boolean,
            r.spec_bits() == 1,
    {
        proof {
            assert(1u32 >> 1u32 == 0) by (bit_vector);
            assert(1u32 >> 0u32 != 0) by (bit_vector);
            assert(bit_width(1) == 1) by {
                reveal_with_fuel(crate::bits::width_from, 3);
            }
        }
        PropertyId { ty: PropertyType::Boolean, min: 0, max: 1, variants: Vec::new() }
    }

    /// An integer property with the inclusive range `[min, max]`; `None` when the range is
    /// empty, a single value, or wider than 16 bits.
    pub fn integer(min: u32, max: u32) -> (r: Option<PropertyId>)
        ensures
            r is Some <==> (min < max && max - min <= 0xFFFF),
            r is Some ==> r->Some_0.wf() && r->Some_0.ty == PropertyType::Integer
                && r->Some_0.min == min && r->Some_0.max == max,
    {
        if min < max && max - min <= 0xFFFF {
            Some(PropertyId { ty: PropertyType::Integer, min, max, variants: Vec::new() })
        } else {
            None
        }
    }

    /// An enum property whose variants have the given names, in order; `None` unless there are
    /// between two and 65536 of them, all different.
    pub fn enumeration(variants: Vec<String>) -> (r: Option<PropertyId>)
        ensures
            r is Some <==> (2 <= variants@.len() <= 0x10000 && names_distinct(variants@)),
            r is Some ==> r->Some_0.wf() && r->Some_0.ty == PropertyType::Enum
                && r->Some_0.variants@ == variants@,
    {
        let n = variants.len();
        if 2 <= n && n <= 0x10000 && all_distinct(&variants) {
            Some(PropertyId { ty: PropertyType::Enum, min: 0, max: (n - 1) as u32, variants })
        } else {
            None
        }
    }

    /// Whether the property is well formed.
    pub fn is_wf(&self) -> (r: bool)
        ensures
            r == self.wf(),
    {
        if !(self.min < self.max && self.max - self.min <= 0xFFFF) {
            return false;
        }
        match self.ty {
            PropertyType::Boolean => self.min == 0 && self.max == 1,
            PropertyType::Integer => true,
            PropertyType::Enum => self.min == 0 && (self.max as usize) < self.variants.len()
                && self.max as usize + 1 == self.variants.len() && all_distinct(&self.variants),
        }
    }

    /// Returns the number of bits needed to represent this property.
    pub fn bits(&self) -> (r: u32)
        requires
            self.wf(),
        ensures
            r == self.spec_bits(),
            1 <= r <= 16,
            self.max - self.min <= low_mask(r),
    {
        proof {
            lemma_bit_width((self.max - self.min) as u32, (self.max - self.min) as u32);
        }
        let r = width_of(self.max - self.min);
        r
    }

    /// The canonical text of the value with bits `v`: `true` or `false`, a decimal number, or a
    /// variant name.
    pub fn to_text(&self, v: u32) -> (r: String)
        requires
            self.wf(),
            v <= self.max - self.min,
        ensures
            r@ == text_of(*self, v),
    {
        match self.ty {
            PropertyType::Boolean => {
                proof {
                    reveal_strlit("true");
                    reveal_strlit("false");
                }
                if v == 1 {
                    let r = String::from_str("true");
                    assert(r@ =~= seq!['t', 'r', 'u', 'e']);
                    r
                } else {
                    let r = String::from_str("false");
                    assert(r@ =~= seq!['f', 'a', 'l', 's', 'e']);
                    r
                }
            },
            PropertyType::Integer => {
                let mut r = String::new();
                push_decimal(&mut r, v + self.min);
                assert(r@ =~= decimal_text((v + self.min) as nat));
                r
            },
            PropertyType::Enum => self.variants[v as usize].clone(),
        }
    }

    /// The names of the variants of an enum property, in order.
    pub fn variant_names(&self) -> (r: Vec<String>)
        ensures
            views(r@) == views(self.variants@),
    {
        let mut r: Vec<String> = Vec::new();
        let mut i: usize = 0;
        while i < self.variants.len()
            invariant
                i <= self.variants@.len(),
                views(r@) == views(self.variants@).take(i as int),
            decreases self.variants@.len() - i,
        {
            let ghost before = r@;
            r.push(self.variants[i].clone());
            proof {
                assert(views(r@) =~= views(before).push(self.variants@[i as int]@));
                assert(views(self.variants@).take(i + 1) =~= views(self.variants@).take(i as int).push(
                    self.variants@[i as int]@,
                ));
            }
            i = i + 1;
        }
        assert(views(self.variants@).take(self.variants@.len() as int) =~= views(self.variants@));
        r
    }

    /// Parses the textual form of a value: `true` or `false` for booleans, a decimal number for
    /// integers, a variant name for enums. Returns the value's bits.
    pub fn parse(&self, s: &str) -> (r: Result<u32, PropertyError>)
        requires
            self.wf(),
        ensures
            parse_matches(r, parse_value(*self, s@)),
            r is Ok ==> r->Ok_0 <= self.max - self.min,
            r matches Err(PropertyError::UnknownVariant(names)) ==> views(names@) == views(self.variants@),
            self.ty == PropertyType::Enum && r is Err ==> r->Err_0 is UnknownVariant,
    {
        match self.ty {
            PropertyType::Boolean => {
                proof {
                    reveal_strlit("true");
                    reveal_strlit("false");
                    assert("true"@ =~= seq!['t', 'r', 'u', 'e']);
                    assert("false"@ =~= seq!['f', 'a', 'l', 's', 'e']);
                }
                let n = s.unicode_len();
                if piece_is(s, 0, n, "true") {
                    assert(s@.subrange(0, n as int) =~= s@);
                    Ok(1)
                } else if piece_is(s, 0, n, "false") {
                    assert(s@.subrange(0, n as int) =~= s@);
                    Ok(0)
                } else {
                    assert(s@.subrange(0, n as int) =~= s@);
                    Err(PropertyError::NotABoolean)
                }
            },
            PropertyType::Integer => match parse_u32(s) {
                Some(n) => if self.min <= n && n <= self.max {
                    Ok(n - self.min)
                } else {
                    Err(
                        PropertyError::Integer(
                            ParseIntegerError::OutOfRange(
                                OutOfRangeError { value: n, min: self.min, max: self.max },
                            ),
                        ),
                    )
                },
                None => Err(PropertyError::Integer(ParseIntegerError::NotANumber)),
            },
            PropertyType::Enum => {
                let mut i: usize = 0;
                while i < self.variants.len()
                    invariant
                        self.wf(),
                        self.ty == PropertyType::Enum,
                        i <= self.variants@.len(),
                        variant_index_from(self.variants@, s@, i as int) == variant_index_from(
                            self.variants@,
                            s@,
                            0,
                        ),
                    decreases self.variants@.len() - i,
                {
                    let name = self.variants[i].as_str();
                    let n = s.unicode_len();
                    if piece_is(s, 0, n, name) {
                        assert(s@.subrange(0, n as int) =~= s@);
                        assert(variant_index_from(self.variants@, s@, i as int) == Some(i as u32));
                        return Ok(i as u32);
                    }
                    assert(s@.subrange(0, n as int) =~= s@);
                    i = i + 1;
                }
                Err(PropertyError::UnknownVariant(self.variant_names()))
            },
        }
    }
}

/// An integer in an inclusive range `[min, max]`.
#[derive(Clone, Copy, Debug, PartialEq, Eq, Structural)]
pub struct Integer {
    value: u32,
    min: u32,
    max: u32,
}

impl Integer {
    /// The wrapped number.
    pub closed spec fn value(self) -> u32 {
        self.value
    }

    /// The lower end of the range.
    pub closed spec fn spec_min(self) -> u32 {
        self.min
    }

    /// The upper end of the range.
    pub closed spec fn spec_max(self) -> u32 {
        self.max
    }

    /// Every `Integer` lies in its range, and the range holds more than one value.
    pub closed spec fn wf(self) -> bool {
        self.min < self.max && self.min <= self.value <= self.max
    }

    /// Wraps `n` in an `Integer` with the range `[min, max]`.
    pub fn new(n: u32, min: u32, max: u32) -> (r: Result<Self, OutOfRangeError>)
        requires
            min < max,
        ensures
            r is Ok <==> min <= n <= max,
            r is Ok ==> r->Ok_0.value() == n && r->Ok_0.spec_min() == min && r->Ok_0.spec_max()
                == max && r->Ok_0.wf(),
            r is Err ==> r->Err_0 == (OutOfRangeError { value: n, min, max }),
    {
        if min <= n && n <= max {
            Ok(Integer { value: n, min, max })
        } else {
            Err(OutOfRangeError { value: n, min, max })
        }
    }

    /// Returns the wrapped number.
    pub fn get(&self) -> (r: u32)
        ensures
            r == self.value(),
    {
        self.value
    }

    /// Replaces the wrapped number with `n`, if it lies in the range.
    pub fn set(&mut self, n: u32) -> (r: Result<(), OutOfRangeError>)
        requires
            old(self).wf(),
        ensures
            r is Ok <==> old(self).spec_min() <= n <= old(self).spec_max(),
            r is Ok ==> final(self).value() == n && final(self).spec_min() == old(self).spec_min()
                && final(self).spec_max() == old(self).spec_max(),
            r is Err ==> *final(self) == *old(self) && r->Err_0 == (OutOfRangeError {
                value: n,
                min: old(self).spec_min(),
                max: old(self).spec_max(),
            }),
            final(self).wf(),
    {
        if self.min <= n && n <= self.max {
            self.value = n;
            Ok(())
        } else {
            Err(OutOfRangeError { value: n, min: self.min, max: self.max })
        }
    }
}

} // verus!
