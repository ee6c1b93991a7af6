//! Blocks as packed 32-bit state words, and the per-kind layout that packs them.
use vstd::prelude::*;

use crate::bits::{
    bit_of, field_of, lemma_bit_width, lemma_splice, low_mask, mask_of, span_fits, splice,
};
use crate::state::{fails_with, parse_value, PropertyError, PropertyId};
use crate::text::piece_is;
use vstd::string::StrSliceExecFns;

verus! {

/// The numeric ID of a block kind.
#[derive(Clone, Copy, Debug, PartialEq, Eq, Structural, Hash)]
pub struct BlockId(pub u16);

impl BlockId {
    /// Converts the `BlockId` to a numeric ID.
    pub fn to_numeric(self) -> (r: u16)
        ensures
            r == self.0,
    {
        self.0
    }
}

/// A block: the low 16 bits hold the ID of its kind, the bits above hold its properties.
#[derive(Clone, Copy, Debug, PartialEq, Eq, Structural, Hash, Default)]
pub struct Block(u32);

impl View for Block {
    type V = u32;

    closed spec fn view(&self) -> u32 {
        self.0
    }
}

/// Why a state could not be built.
#[derive(Clone, Debug, PartialEq, Eq)]
pub enum StateError {
    /// The span does not lie inside the 32-bit word.
    SpanOutOfWord,
    /// The field has more bits than its span.
    FieldTooWide,
    /// A list of values does not hold one value per property.
    WrongCount,
    /// The value at this index lies outside its property's range.
    OutOfRange(usize),
    /// No property of the kind has this name.
    UnknownProperty(String),
    /// The text given for the named property is not one of its values.
    InvalidValue(String, PropertyError),
    /// The properties do not fit in the state word.
    TooWide,
    /// The property at this index is not well formed.
    InvalidProperty(usize),
    /// The property at this index has the name of an earlier one.
    DuplicateName(usize),
}

impl Block {
    /// Creates a new block out of a block ID and with default block state.
    pub fn from_id(id: BlockId) -> (r: Block)
        ensures
            r@ == id.0 as u32,
    {
        Block(id.0 as u32)
    }

    /// Returns the ID of the block.
    pub fn id(self) -> (r: BlockId)
        ensures
            r.0 == self@ & 0xFFFF,
    {
        let w = self.0;
        assert(w & 0xFFFF <= 0xFFFF) by (bit_vector);
        BlockId((w & 0xFFFF) as u16)
    }

    /// Returns the underlying integer representing this block.
    pub fn as_u32(self) -> (r: u32)
        ensures
            r == self@,
    {
        self.0
    }

    /// Replaces the span `[offset, offset + bits)` of the state with `field`. Fails, leaving the
    /// block as it was, when the span does not lie in the word or `field` does not fit in it.
    pub fn set_property(&mut self, field: u32, bits: u32, offset: u32) -> (r: Result<(), StateError>)
        ensures
            !span_fits(offset, bits) ==> r == Err::<(), StateError>(StateError::SpanOutOfWord),
            span_fits(offset, bits) && field > low_mask(bits) ==> r == Err::<(), StateError>(
                StateError::FieldTooWide,
            ),
            r is Ok <==> span_fits(offset, bits) && field <= low_mask(bits),
            r is Ok ==> final(self)@ == splice(old(self)@, field, offset, bits),
            r is Err ==> *final(self) == *old(self),
    {
        if !(offset < 32 && bits < 32 && bits <= 32 - offset) {
            return Err(StateError::SpanOutOfWord);
        }
        if field > mask_of(bits) {
            return Err(StateError::FieldTooWide);
        }
        let mask = mask_of(bits) << offset;
        self.0 = (self.0 & !mask) | (field << offset);
        Ok(())
    }
}

/// Setting a property leaves every bit outside its span as it was, and the span then holds the
/// new field.
pub proof fn lemma_set_property_frame(word: u32, field: u32, offset: u32, bits: u32, i: u32)
    requires
        span_fits(offset, bits),
        field <= low_mask(bits),
        i < 32,
    ensures
        field_of(splice(word, field, offset, bits), offset, bits) == field,
        i < offset || offset + bits <= i ==> bit_of(splice(word, field, offset, bits), i)
            == bit_of(word, i),
{
    lemma_splice(word, field, offset, bits, i);
}

/// Defines a state property of a particular block.
#[derive(Debug)]
pub struct PropertyDefinition {
    /// The name of the property.
    pub name: String,
    /// The kind of the property.
    pub id: PropertyId,
    /// The offset within the block state at which the property is stored.
    pub offset: u32,
}

/// Defines the state properties of a particular block, in the order they are packed.
#[derive(Debug)]
pub struct Definition {
    pub properties: Vec<PropertyDefinition>,
}

/// The properties are well formed, the first sits at bit 16, each of the others right after
/// the one before it, and the last ends inside the word.
pub open spec fn layout_ok(ps: Seq<PropertyDefinition>) -> bool {
    &&& forall|i: int| 0 <= i < ps.len() ==> (#[trigger] ps[i]).id.wf()
    &&& forall|i: int|
        0 <= i < ps.len() ==> 16 <= (#[trigger] ps[i]).offset && ps[i].offset + ps[i].id.spec_bits()
            <= 32
    &&& ps.len() > 0 ==> ps[0].offset == 16
    &&& forall|i: int, j: int|
        0 <= i && j == i + 1 && j < ps.len() ==> #[trigger] ps[j].offset == #[trigger] ps[i].offset
            + ps[i].id.spec_bits()
}

/// The first bit above every property of the layout.
pub open spec fn layout_end(ps: Seq<PropertyDefinition>) -> u32 {
    if ps.len() == 0 {
        16
    } else {
        (ps.last().offset + ps.last().id.spec_bits()) as u32
    }
}

/// No bit of `word` above the layout's properties is set.
pub open spec fn high_clear(ps: Seq<PropertyDefinition>, word: u32) -> bool {
    layout_end(ps) < 32 ==> word >> layout_end(ps) == 0
}

/// No two properties share a name.
pub open spec fn names_unique(ps: Seq<PropertyDefinition>) -> bool {
    forall|i: int, j: int| 0 <= i < j < ps.len() ==> (#[trigger] ps[i]).name@ != (#[trigger] ps[j]).name@
}

/// No two of the given properties share a name.
pub open spec fn input_names_unique(props: Seq<(String, PropertyId)>) -> bool {
    forall|i: int, j: int| 0 <= i < j < props.len() ==> (#[trigger] props[i]).0@ != (#[trigger] props[j]).0@
}

/// Whether a property among `ps` is named `name`.
fn name_taken(ps: &Vec<PropertyDefinition>, name: &String) -> (r: bool)
    ensures
        r == exists|i: int| 0 <= i < ps@.len() && (#[trigger] ps@[i]).name@ == name@,
{
    let mut i: usize = 0;
    while i < ps.len()
        invariant
            i <= ps@.len(),
            forall|j: int| 0 <= j < i ==> (#[trigger] ps@[j]).name@ != name@,
        decreases ps@.len() - i,
    {
        if ps[i].name == *name {
            return true;
        }
        i = i + 1;
    }
    false
}

/// Whether no two properties among `ps` share a name.
fn unique_names(ps: &Vec<PropertyDefinition>) -> (r: bool)
    ensures
        r == names_unique(ps@),
{
    let mut j: usize = 0;
    while j < ps.len()
        invariant
            j <= ps@.len(),
            forall|a: int, b: int| 0 <= a < b < j ==> (#[trigger] ps@[a]).name@ != (#[trigger] ps@[b]).name@,
        decreases ps@.len() - j,
    {
        let mut i: usize = 0;
        while i < j
            invariant
                j < ps@.len(),
                i <= j,
                forall|a: int, b: int| 0 <= a < b < j ==> (#[trigger] ps@[a]).name@ != (#[trigger] ps@[b]).name@,
                forall|a: int| 0 <= a < i ==> (#[trigger] ps@[a]).name@ != ps@[j as int].name@,
            decreases j - i,
        {
            if ps[i].name == ps[j].name {
                return false;
            }
            i = i + 1;
        }
        j = j + 1;
    }
    true
}

/// The state field of property `i` in `word`.
pub open spec fn field_at(ps: Seq<PropertyDefinition>, word: u32, i: int) -> u32 {
    field_of(word, ps[i].offset, ps[i].id.spec_bits())
}

/// The state word of kind `id` whose first `n` properties hold the raw values `vals` (each
/// stored as its distance from the property's minimum) and whose other properties are zero.
pub open spec fn packed(ps: Seq<PropertyDefinition>, id: u16, vals: Seq<u32>, n: int) -> u32
    decreases n,
{
    if n <= 0 {
        id as u32
    } else {
        splice(
            packed(ps, id, vals, n - 1),
            (vals[n - 1] - ps[n - 1].id.min) as u32,
            ps[n - 1].offset,
            ps[n - 1].id.spec_bits(),
        )
    }
}

/// `vals` holds one raw value per property, each in its property's range.
pub open spec fn values_valid(ps: Seq<PropertyDefinition>, vals: Seq<u32>) -> bool {
    &&& vals.len() == ps.len()
    &&& forall|i: int|
        0 <= i < ps.len() ==> ps[i].id.min <= #[trigger] vals[i] && vals[i] <= ps[i].id.max
}

/// What decoding `word` gives: the raw value of each property, when each field is in range.
pub open spec fn decoded(ps: Seq<PropertyDefinition>, word: u32) -> Option<Seq<u32>> {
    if forall|i: int|
        0 <= i < ps.len() ==> #[trigger] field_at(ps, word, i) <= ps[i].id.max - ps[i].id.min {
        Some(Seq::new(ps.len(), |i: int| (field_at(ps, word, i) + ps[i].id.min) as u32))
    } else {
        None
    }
}

/// Earlier properties end before later ones start.
pub proof fn lemma_layout_ordered(ps: Seq<PropertyDefinition>, i: int, j: int)
    requires
        layout_ok(ps),
        0 <= i < j < ps.len(),
    ensures
        ps[i].offset + ps[i].id.spec_bits() <= ps[j].offset,
    decreases j - i,
{
    let p = ps[j - 1];
    let q = ps[j];
    assert(q.offset == p.offset + p.id.spec_bits());
    if i < j - 1 {
        lemma_layout_ordered(ps, i, j - 1);
    }
}

/// Splicing one span leaves a disjoint span and the ID bits as they were.
proof fn lemma_splice_elsewhere(w: u32, f: u32, o1: u32, b1: u32, o2: u32, b2: u32)
    requires
        span_fits(o1, b1),
        span_fits(o2, b2),
        16 <= o1,
        f <= low_mask(b1),
        o1 + b1 <= o2 || o2 + b2 <= o1,
    ensures
        field_of(splice(w, f, o1, b1), o2, b2) == field_of(w, o2, b2),
        splice(w, f, o1, b1) & 0xFFFF == w & 0xFFFF,
{
    assert(o1 < 32 && b1 < 32 && o1 + b1 <= 32 && o2 < 32 && b2 < 32 && o2 + b2 <= 32 && f <= ((
    1u32 << b1) - 1) as u32 && (o1 + b1 <= o2 || o2 + b2 <= o1) ==> ((((w & !((((1u32 << b1) - 1)
    as u32) << o1)) | (f << o1)) >> o2) & (((1u32 << b2) - 1) as u32)) == ((w >> o2) & (((1u32
    << b2) - 1) as u32))) by (bit_vector);
    assert(16 <= o1 && o1 < 32 && b1 < 32 && o1 + b1 <= 32 && f <= ((1u32 << b1) - 1) as u32 ==> ((
    w & !((((1u32 << b1) - 1) as u32) << o1)) | (f << o1)) & 0xFFFF == w & 0xFFFF) by (bit_vector);
}

proof fn lemma_fields_of_id(id: u16, o: u32, b: u32)
    requires
        span_fits(o, b),
        16 <= o,
    ensures
        field_of(id as u32, o, b) == 0,
        (id as u32) & 0xFFFF == id as u32,
{
    let w = id as u32;
    assert(w <= 0xFFFF && 16 <= o && o < 32 ==> (w >> o) & (((1u32 << b) - 1) as u32) == 0)
        by (bit_vector);
    assert(w <= 0xFFFF ==> w & 0xFFFF == w) by (bit_vector);
}

pub proof fn lemma_span_facts(ps: Seq<PropertyDefinition>, i: int)
    requires
        layout_ok(ps),
        0 <= i < ps.len(),
    ensures
        span_fits(ps[i].offset, ps[i].id.spec_bits()),
        16 <= ps[i].offset,
        ps[i].id.max - ps[i].id.min <= low_mask(ps[i].id.spec_bits()),
{
    lemma_bit_width(
        (ps[i].id.max - ps[i].id.min) as u32,
        (ps[i].id.max - ps[i].id.min) as u32,
    );
}

/// After packing the first `n` values, those fields hold them, the later fields are zero and
/// the ID bits are untouched.
proof fn lemma_packed_fields(ps: Seq<PropertyDefinition>, id: u16, vals: Seq<u32>, n: int)
    requires
        layout_ok(ps),
        values_valid(ps, vals),
        0 <= n <= ps.len(),
    ensures
        forall|i: int|
            0 <= i < n ==> #[trigger] field_at(ps, packed(ps, id, vals, n), i) == vals[i]
                - ps[i].id.min,
        forall|i: int|
            n <= i < ps.len() ==> #[trigger] field_at(ps, packed(ps, id, vals, n), i) == 0,
        packed(ps, id, vals, n) & 0xFFFF == id as u32,
    decreases n,
{
    if n == 0 {
        assert forall|i: int| 0 <= i < ps.len() implies #[trigger] field_at(
            ps,
            packed(ps, id, vals, 0),
            i,
        ) == 0 by {
            lemma_span_facts(ps, i);
            lemma_fields_of_id(id, ps[i].offset, ps[i].id.spec_bits());
        }
        if ps.len() > 0 {
            lemma_span_facts(ps, 0);
            lemma_fields_of_id(id, ps[0].offset, ps[0].id.spec_bits());
        } else {
            assert((id as u32) <= 0xFFFF ==> (id as u32) & 0xFFFF == id as u32) by (bit_vector);
        }
    } else {
        lemma_packed_fields(ps, id, vals, n - 1);
        let prev = packed(ps, id, vals, n - 1);
        let k = n - 1;
        let f = (vals[k] - ps[k].id.min) as u32;
        lemma_span_facts(ps, k);
        assert forall|i: int| 0 <= i < ps.len() && i != k implies #[trigger] field_at(
            ps,
            packed(ps, id, vals, n),
            i,
        ) == field_at(ps, prev, i) by {
            lemma_span_facts(ps, i);
            if i < k {
                lemma_layout_ordered(ps, i, k);
            } else {
                lemma_layout_ordered(ps, k, i);
            }
            lemma_splice_elsewhere(
                prev,
                f,
                ps[k].offset,
                ps[k].id.spec_bits(),
                ps[i].offset,
                ps[i].id.spec_bits(),
            );
        }
        lemma_splice(prev, f, ps[k].offset, ps[k].id.spec_bits(), 0);
        lemma_splice_elsewhere(
            prev,
            f,
            ps[k].offset,
            ps[k].id.spec_bits(),
            0,
            16,
        );
    }
}

/// Encoding a valid assignment and decoding the result gives the assignment back, and the
/// block keeps its kind's ID.
pub proof fn lemma_round_trip(ps: Seq<PropertyDefinition>, id: u16, vals: Seq<u32>)
    requires
        layout_ok(ps),
        values_valid(ps, vals),
    ensures
        decoded(ps, packed(ps, id, vals, ps.len() as int)) == Some(vals),
        packed(ps, id, vals, ps.len() as int) & 0xFFFF == id as u32,
{
    let w = packed(ps, id, vals, ps.len() as int);
    lemma_packed_fields(ps, id, vals, ps.len() as int);
    assert(Seq::new(ps.len(), |i: int| (field_at(ps, w, i) + ps[i].id.min) as u32) =~= vals);
}

/// A property that no assignment names decodes to its minimum.
pub proof fn lemma_unset_is_min(ps: Seq<PropertyDefinition>, id: u16, i: int)
    requires
        layout_ok(ps),
        0 <= i < ps.len(),
    ensures
        decoded(ps, id as u32) is Some,
        decoded(ps, id as u32)->Some_0[i] == ps[i].id.min,
{
    let vals = Seq::new(ps.len(), |j: int| ps[j].id.min);
    lemma_packed_fields(ps, id, vals, 0);
    assert forall|j: int| 0 <= j < ps.len() implies #[trigger] field_at(ps, id as u32, j) <= ps[j].id.max
        - ps[j].id.min by {
        assert(field_at(ps, packed(ps, id, vals, 0), j) == 0);
    }
}


/// The index of the first property, from `k` on, named `name`.
pub open spec fn name_index_from(ps: Seq<PropertyDefinition>, name: Seq<char>, k: int) -> Option<
    int,
>
    decreases ps.len() - k,
{
    if k < 0 || k >= ps.len() {
        None
    } else if ps[k].name@ == name {
        Some(k)
    } else {
        name_index_from(ps, name, k + 1)
    }
}

pub proof fn lemma_name_index_from(ps: Seq<PropertyDefinition>, name: Seq<char>, k: int)
    requires
        0 <= k,
    ensures
        name_index_from(ps, name, k) is Some ==> k <= name_index_from(ps, name, k)->Some_0 < ps.len()
            && ps[name_index_from(ps, name, k)->Some_0].name@ == name,
    decreases ps.len() - k,
{
    if k < ps.len() && ps[k].name@ != name {
        lemma_name_index_from(ps, name, k + 1);
    }
}

/// Whether every pair names a property of the layout and gives a valid value for it.
pub open spec fn pairs_valid(ps: Seq<PropertyDefinition>, pairs: Seq<(String, String)>) -> bool {
    forall|k: int|
        0 <= k < pairs.len() ==> match name_index_from(ps, (#[trigger] pairs[k]).0@, 0) {
            Some(i) => parse_value(ps[i].id, pairs[k].1@) is Ok,
            None => false,
        }
}

/// The field of property `i` after the first `n` pairs were applied in order: the value of the
/// last of them that names it, or zero.
pub open spec fn assigned(
    ps: Seq<PropertyDefinition>,
    pairs: Seq<(String, String)>,
    n: int,
    i: int,
) -> u32
    decreases n,
{
    if n <= 0 {
        0
    } else if name_index_from(ps, pairs[n - 1].0@, 0) == Some(i) {
        parse_value(ps[i].id, pairs[n - 1].1@)->Ok_0
    } else {
        assigned(ps, pairs, n - 1, i)
    }
}

/// The total width of the first `n` properties.
pub open spec fn sum_bits(props: Seq<(String, PropertyId)>, n: int) -> int
    decreases n,
{
    if n <= 0 {
        0
    } else {
        sum_bits(props, n - 1) + props[n - 1].1.spec_bits()
    }
}

proof fn lemma_sum_bits_grows(props: Seq<(String, PropertyId)>, m: int, n: int)
    requires
        0 <= m <= n,
    ensures
        sum_bits(props, m) <= sum_bits(props, n),
    decreases n - m,
{
    if m < n {
        lemma_sum_bits_grows(props, m, n - 1);
    }
}

impl Definition {
    /// The layout is consistent.
    pub open spec fn wf(&self) -> bool {
        layout_ok(self.properties@) && names_unique(self.properties@)
    }

    /// Whether the layout is consistent.
    pub fn is_wf(&self) -> (r: bool)
        ensures
            r == self.wf(),
    {
        let ps = &self.properties;
        if !unique_names(ps) {
            return false;
        }
        let mut i: usize = 0;
        let mut next: u32 = 16;
        while i < ps.len()
            invariant
                ps@ == self.properties@,
                names_unique(ps@),
                i <= ps@.len(),
                16 <= next <= 32,
                forall|j: int| 0 <= j < i ==> (#[trigger] ps@[j]).id.wf(),
                forall|j: int| 0 <= j < i ==> 16 <= (#[trigger] ps@[j]).offset && ps@[j].offset + ps@[j].id.spec_bits() <= 32,
                i > 0 ==> ps@[0].offset == 16,
                forall|j: int, k: int| 0 <= j && k == j + 1 && k < i ==> #[trigger] ps@[k].offset == #[trigger] ps@[j].offset + ps@[j].id.spec_bits(),
                i == 0 ==> next == 16,
                i > 0 ==> next == ps@[i - 1].offset + ps@[i - 1].id.spec_bits(),
            decreases ps@.len() - i,
        {
            let p = &ps[i];
            if !p.id.is_wf() || p.offset != next {
                proof {
                    let b = ps@[i as int];
                    if i > 0 {
                        let a = ps@[i - 1];
                    }
                }
                return false;
            }
            let bits = p.id.bits();
            if p.offset > 32 || bits > 32 - p.offset {
                proof {
                    let b = ps@[i as int];
                }
                return false;
            }
            next = p.offset + bits;
            i = i + 1;
        }
        true
    }

    /// Lays out the given properties one after the other from bit 16 on. Fails on the first
    /// property that is not well formed, or when they do not fit in the word.
    pub fn new(props: Vec<(String, PropertyId)>) -> (r: Result<Definition, StateError>)
        ensures
            r is Ok <==> (forall|i: int| 0 <= i < props@.len() ==> (#[trigger] props@[i]).1.wf())
                && 16 + sum_bits(props@, props@.len() as int) <= 32 && input_names_unique(props@),
            r is Ok ==> r->Ok_0.wf() && r->Ok_0.properties@.len() == props@.len() && forall|i: int|
                0 <= i < props@.len() ==> (#[trigger] r->Ok_0.properties@[i]).name == props@[i].0
                    && r->Ok_0.properties@[i].id == props@[i].1
                    && r->Ok_0.properties@[i].offset == 16 + sum_bits(props@, i),
            r matches Err(StateError::InvalidProperty(i)) ==> i < props@.len() && !props@[i as int].1.wf(),
            r matches Err(StateError::DuplicateName(i)) ==> i < props@.len() && exists|j: int|
                0 <= j < i && (#[trigger] props@[j]).0@ == props@[i as int].0@,
            r matches Err(e) ==> (e is InvalidProperty || e is TooWide || e is DuplicateName),
    {
        let ghost all = props@;
        let n0 = props.len();
        let mut rest = props;
        let mut out: Vec<PropertyDefinition> = Vec::new();
        let mut offset: u32 = 16;
        let mut k: usize = 0;
        while rest.len() > 0
            invariant
                all == props@,
                all.len() == n0,
                k + rest@.len() == all.len(),
                rest@ == all.subrange(k as int, all.len() as int),
                out@.len() == k,
                offset == 16 + sum_bits(all, k as int),
                offset <= 32,
                forall|i: int| 0 <= i < k ==> (#[trigger] all[i]).1.wf(),
                forall|i: int|
                    0 <= i < k ==> (#[trigger] out@[i]).name == all[i].0 && out@[i].id == all[i].1
                        && out@[i].offset == 16 + sum_bits(all, i),
                layout_ok(out@),
                names_unique(out@),
                forall|i: int, j: int| 0 <= i < j < k ==> (#[trigger] all[i]).0@ != (#[trigger] all[j]).0@,
                k > 0 ==> offset == out@[k - 1].offset + out@[k - 1].id.spec_bits(),
            decreases rest@.len(),
        {
            let (name, id) = rest.remove(0);
            assert(all[k as int] == (name, id));
            if !id.is_wf() {
                return Err(StateError::InvalidProperty(k));
            }
            if name_taken(&out, &name) {
                proof {
                    let j = choose|j: int| 0 <= j < out@.len() && (#[trigger] out@[j]).name@ == name@;
                    assert(all[j].0@ == all[k as int].0@);
                }
                return Err(StateError::DuplicateName(k));
            }
            let bits = id.bits();
            if bits > 32 - offset {
                proof {
                    lemma_sum_bits_grows(all, k + 1, all.len() as int);
                }
                return Err(StateError::TooWide);
            }
            let ghost before = out@;
            out.push(PropertyDefinition { name, id, offset });
            proof {
                assert forall|i: int, j: int|
                    0 <= i && j == i + 1 && j < out@.len() implies #[trigger] out@[j].offset
                    == #[trigger] out@[i].offset + out@[i].id.spec_bits() by {
                    if j < k {
                        assert(before[j] == out@[j] && before[i] == out@[i]);
                    }
                }
                assert(rest@ =~= all.subrange(k + 1, all.len() as int));
                assert forall|i: int, j: int| 0 <= i < j < out@.len() implies (#[trigger] out@[i]).name@ != (#[trigger] out@[j]).name@ by {
                    assert(out@[i] == before[i]);
                    if j < k {
                        assert(out@[j] == before[j]);
                    }
                }
                assert forall|i: int, j: int| 0 <= i < j < k + 1 implies (#[trigger] all[i]).0@ != (#[trigger] all[j]).0@ by {
                    if j == k {
                        assert(out@[i].name == all[i].0);
                    }
                }
            }
            offset = offset + bits;
            k = k + 1;
        }
        proof {
            assert(all.len() == k);
        }
        Ok(Definition { properties: out })
    }

    /// Returns the index of the first property named `name`.
    pub fn index_of(&self, name: &str) -> (r: Option<usize>)
        ensures
            r is Some <==> name_index_from(self.properties@, name@, 0) is Some,
            r is Some ==> r->Some_0 == name_index_from(self.properties@, name@, 0)->Some_0,
    {
        let mut i: usize = 0;
        while i < self.properties.len()
            invariant
                i <= self.properties@.len(),
                name_index_from(self.properties@, name@, i as int) == name_index_from(
                    self.properties@,
                    name@,
                    0,
                ),
            decreases self.properties@.len() - i,
        {
            let n = name.unicode_len();
            let own = self.properties[i].name.as_str();
            let m = own.unicode_len();
            if piece_is(own, 0, m, name) {
                assert(own@.subrange(0, m as int) =~= own@);
                return Some(i);
            }
            assert(own@.subrange(0, m as int) =~= own@);
            i = i + 1;
        }
        None
    }

    /// Returns the names of the properties, in order.
    pub fn property_names(&self) -> (r: Vec<String>)
        ensures
            r@.len() == self.properties@.len(),
            forall|i: int| 0 <= i < r@.len() ==> (#[trigger] r@[i])@ == self.properties@[i].name@,
    {
        let mut r: Vec<String> = Vec::new();
        let mut i: usize = 0;
        while i < self.properties.len()
            invariant
                i <= self.properties@.len(),
                r@.len() == i,
                forall|j: int| 0 <= j < i ==> (#[trigger] r@[j])@ == self.properties@[j].name@,
            decreases self.properties@.len() - i,
        {
            r.push(self.properties[i].name.clone());
            i = i + 1;
        }
        r
    }

    /// Packs one raw value per property into a block of kind `id`.
    pub fn encode(&self, id: BlockId, values: &Vec<u32>) -> (r: Result<Block, StateError>)
        requires
            self.wf(),
        ensures
            values@.len() != self.properties@.len() ==> r == Err::<Block, StateError>(
                StateError::WrongCount,
            ),
            r is Ok <==> values_valid(self.properties@, values@),
            r is Ok ==> r->Ok_0@ == packed(self.properties@, id.0, values@, values@.len() as int),
            r matches Err(StateError::OutOfRange(i)) ==> i < values@.len() && !(
            self.properties@[i as int].id.min <= values@[i as int] <= self.properties@[i as int].id.max),
    {
        let ps = &self.properties;
        if values.len() != ps.len() {
            return Err(StateError::WrongCount);
        }
        let mut block = Block::from_id(id);
        let mut i: usize = 0;
        while i < ps.len()
            invariant
                ps@ == self.properties@,
                layout_ok(ps@),
                values@.len() == ps@.len(),
                i <= ps@.len(),
                forall|j: int| 0 <= j < i ==> ps@[j].id.min <= #[trigger] values@[j] && values@[j] <= ps@[j].id.max,
                block@ == packed(ps@, id.0, values@, i as int),
            decreases ps@.len() - i,
        {
            let p = &ps[i];
            let v = values[i];
            if !(p.id.min <= v && v <= p.id.max) {
                return Err(StateError::OutOfRange(i));
            }
            let bits = p.id.bits();
            proof {
                lemma_span_facts(ps@, i as int);
            }
            let res = block.set_property(v - p.id.min, bits, p.offset);
            assert(res is Ok);
            i = i + 1;
        }
        Ok(block)
    }

    /// Unpacks the raw value of each property of `block`; `None` when a field holds a value
    /// outside its property's range.
    pub fn decode(&self, block: Block) -> (r: Option<Vec<u32>>)
        requires
            self.wf(),
        ensures
            r is Some <==> decoded(self.properties@, block@) is Some,
            r is Some ==> r->Some_0@ == decoded(self.properties@, block@)->Some_0,
    {
        let ps = &self.properties;
        let w = block.as_u32();
        let mut out: Vec<u32> = Vec::new();
        let mut i: usize = 0;
        while i < ps.len()
            invariant
                ps@ == self.properties@,
                layout_ok(ps@),
                w == block@,
                i <= ps@.len(),
                out@.len() == i,
                forall|j: int|
                    0 <= j < i ==> #[trigger] field_at(ps@, w, j) <= ps@[j].id.max - ps@[j].id.min
                        && out@[j] == (field_at(ps@, w, j) + ps@[j].id.min) as u32,
            decreases ps@.len() - i,
        {
            let p = &ps[i];
            let bits = p.id.bits();
            proof {
                lemma_span_facts(ps@, i as int);
            }
            let field = (w >> p.offset) & mask_of(bits);
            assert(field == field_at(ps@, w, i as int));
            if field > p.id.max - p.id.min {
                return None;
            }
            out.push(field + p.id.min);
            i = i + 1;
        }
        proof {
            assert(out@ =~= Seq::new(ps@.len(), |j: int| (field_at(ps@, w, j) + ps@[j].id.min) as u32));
        }
        Some(out)
    }

    /// Builds a block of kind `id` from `(name, value)` pairs in their textual form, applied in
    /// order; properties that no pair names keep their minimum.
    pub fn encode_text(&self, id: BlockId, pairs: &Vec<(String, String)>) -> (r: Result<
        Block,
        StateError,
    >)
        requires
            self.wf(),
        ensures
            r is Ok <==> pairs_valid(self.properties@, pairs@),
            r is Ok ==> r->Ok_0@ & 0xFFFF == id.0 as u32 && forall|i: int|
                0 <= i < self.properties@.len() ==> #[trigger] field_at(
                    self.properties@,
                    r->Ok_0@,
                    i,
                ) == assigned(self.properties@, pairs@, pairs@.len() as int, i),
            r is Ok ==> high_clear(self.properties@, r->Ok_0@),
            r matches Err(StateError::UnknownProperty(name)) ==> exists|k: int|
                0 <= k < pairs@.len() && (#[trigger] pairs@[k]).0@ == name@ && name_index_from(
                    self.properties@,
                    name@,
                    0,
                ) is None,
            r matches Err(StateError::InvalidValue(name, e)) ==> exists|k: int|
                0 <= k < pairs@.len() && (#[trigger] pairs@[k]).0@ == name@ && match name_index_from(
                    self.properties@,
                    name@,
                    0,
                ) {
                    Some(i) => fails_with(parse_value(self.properties@[i].id, pairs@[k].1@), e),
                    None => false,
                },
            r matches Err(e) ==> (e is UnknownProperty || e is InvalidValue),
    {
        let ps = &self.properties;
        let mut block = Block::from_id(id);
        proof {
            lemma_packed_fields(ps@, id.0, Seq::new(ps@.len(), |j: int| ps@[j].id.min), 0);
            lemma_high_clear_id(ps@, id.0);
        }
        let mut k: usize = 0;
        while k < pairs.len()
            invariant
                ps@ == self.properties@,
                layout_ok(ps@),
                high_clear(ps@, block@),
                k <= pairs@.len(),
                forall|j: int| 0 <= j < k ==> match name_index_from(ps@, (#[trigger] pairs@[j]).0@, 0) {
                    Some(i) => parse_value(ps@[i].id, pairs@[j].1@) is Ok,
                    None => false,
                },
                block@ & 0xFFFF == id.0 as u32,
                forall|i: int|
                    0 <= i < ps@.len() ==> #[trigger] field_at(ps@, block@, i) == assigned(
                        ps@,
                        pairs@,
                        k as int,
                        i,
                    ),
            decreases pairs@.len() - k,
        {
            let name = pairs[k].0.as_str();
            let text = pairs[k].1.as_str();
            let idx = match self.index_of(name) {
                Some(idx) => idx,
                None => {
                    return Err(StateError::UnknownProperty(pairs[k].0.clone()));
                },
            };
            proof {
                lemma_name_index_from(ps@, name@, 0);
            }
            let p = &ps[idx];
            let bits = match p.id.parse(text) {
                Ok(b) => b,
                Err(e) => {
                    return Err(StateError::InvalidValue(pairs[k].0.clone(), e));
                },
            };
            let width = p.id.bits();
            proof {
                lemma_span_facts(ps@, idx as int);
            }
            let ghost prev = block@;
            let res = block.set_property(bits, width, p.offset);
            assert(res is Ok);
            proof {
                let o = ps@[idx as int].offset;
                lemma_high_clear_kept(ps@, prev, bits, idx as int);
                lemma_splice(prev, bits, o, width, 0);
                lemma_splice_elsewhere(prev, bits, o, width, 0, 16);
                assert forall|i: int| 0 <= i < ps@.len() implies #[trigger] field_at(ps@, block@, i)
                    == assigned(ps@, pairs@, k + 1, i) by {
                    assert(name_index_from(ps@, pairs@[k as int].0@, 0) == Some(idx as int));
                    if i == idx {
                        assert(field_at(ps@, block@, i) == bits);
                    } else {
                        lemma_span_facts(ps@, i);
                        if i < idx {
                            lemma_layout_ordered(ps@, i, idx as int);
                        } else {
                            lemma_layout_ordered(ps@, idx as int, i);
                        }
                        lemma_splice_elsewhere(prev, bits, o, width, ps@[i].offset, ps@[i].id.spec_bits());
                        assert(field_at(ps@, prev, i) == assigned(ps@, pairs@, k as int, i));
                    }
                }
            }
            k = k + 1;
        }
        Ok(block)
    }
}


/// A block with only its ID set holds zero in every property field.
pub proof fn lemma_id_fields(ps: Seq<PropertyDefinition>, id: u16)
    requires
        layout_ok(ps),
    ensures
        forall|j: int| 0 <= j < ps.len() ==> #[trigger] field_at(ps, id as u32, j) == 0,
        (id as u32) & 0xFFFF == id as u32,
{
    assert forall|j: int| 0 <= j < ps.len() implies #[trigger] field_at(ps, id as u32, j) == 0 by {
        lemma_span_facts(ps, j);
        lemma_fields_of_id(id, ps[j].offset, ps[j].id.spec_bits());
    }
    assert((id as u32) <= 0xFFFF ==> (id as u32) & 0xFFFF == id as u32) by (bit_vector);
}

/// Setting the field of property `k` changes that field alone, and not the ID bits.
pub proof fn lemma_set_field(ps: Seq<PropertyDefinition>, w: u32, f: u32, k: int)
    requires
        layout_ok(ps),
        0 <= k < ps.len(),
        f <= low_mask(ps[k].id.spec_bits()),
    ensures
        field_at(ps, splice(w, f, ps[k].offset, ps[k].id.spec_bits()), k) == f,
        forall|j: int|
            0 <= j < ps.len() && j != k ==> #[trigger] field_at(
                ps,
                splice(w, f, ps[k].offset, ps[k].id.spec_bits()),
                j,
            ) == field_at(ps, w, j),
        splice(w, f, ps[k].offset, ps[k].id.spec_bits()) & 0xFFFF == w & 0xFFFF,
{
    let o = ps[k].offset;
    let b = ps[k].id.spec_bits();
    lemma_span_facts(ps, k);
    lemma_splice(w, f, o, b, 0);
    lemma_splice_elsewhere(w, f, o, b, 0, 16);
    assert forall|j: int| 0 <= j < ps.len() && j != k implies #[trigger] field_at(ps, splice(w, f, o, b), j)
        == field_at(ps, w, j) by {
        lemma_span_facts(ps, j);
        if j < k {
            lemma_layout_ordered(ps, j, k);
        } else {
            lemma_layout_ordered(ps, k, j);
        }
        lemma_splice_elsewhere(w, f, o, b, ps[j].offset, ps[j].id.spec_bits());
    }
}


proof fn lemma_assigned_in_range(ps: Seq<PropertyDefinition>, pairs: Seq<(String, String)>, n: int, i: int)
    requires
        layout_ok(ps),
        0 <= i < ps.len(),
        n <= pairs.len(),
        pairs_valid(ps, pairs),
    ensures
        assigned(ps, pairs, n, i) <= ps[i].id.max - ps[i].id.min,
    decreases n,
{
    if n > 0 {
        let k = n - 1;
        assert(match name_index_from(ps, pairs[k].0@, 0) {
            Some(j) => parse_value(ps[j].id, pairs[k].1@) is Ok,
            None => false,
        });
        if name_index_from(ps, pairs[k].0@, 0) == Some(i) {
            crate::state::lemma_parsed_in_range(ps[i].id, pairs[k].1@);
        } else {
            lemma_assigned_in_range(ps, pairs, n - 1, i);
        }
    }
}

/// A block built from `(name, value)` pairs decodes, for each property, to the value of the
/// last pair that names it, and to the property's minimum when no pair does.
pub proof fn lemma_text_encode_decode(ps: Seq<PropertyDefinition>, pairs: Seq<(String, String)>, w: u32)
    requires
        layout_ok(ps),
        pairs_valid(ps, pairs),
        forall|i: int| 0 <= i < ps.len() ==> #[trigger] field_at(ps, w, i) == assigned(ps, pairs, pairs.len() as int, i),
    ensures
        decoded(ps, w) == Some(
            Seq::new(ps.len(), |i: int| (assigned(ps, pairs, pairs.len() as int, i) + ps[i].id.min) as u32),
        ),
        forall|i: int|
            0 <= i < ps.len() && (forall|k: int| 0 <= k < pairs.len() ==> name_index_from(ps, (#[trigger] pairs[k]).0@, 0) != Some(i))
                ==> decoded(ps, w)->Some_0[i] == ps[i].id.min,
{
    assert forall|i: int| 0 <= i < ps.len() implies #[trigger] field_at(ps, w, i) <= ps[i].id.max - ps[i].id.min by {
        lemma_assigned_in_range(ps, pairs, pairs.len() as int, i);
    }
    assert(Seq::new(ps.len(), |i: int| (field_at(ps, w, i) + ps[i].id.min) as u32) =~= Seq::new(
        ps.len(),
        |i: int| (assigned(ps, pairs, pairs.len() as int, i) + ps[i].id.min) as u32,
    ));
    assert forall|i: int|
        0 <= i < ps.len() && (forall|k: int| 0 <= k < pairs.len() ==> name_index_from(ps, (#[trigger] pairs[k]).0@, 0) != Some(i))
            implies decoded(ps, w)->Some_0[i] == ps[i].id.min by {
        lemma_unnamed_is_zero(ps, pairs, pairs.len() as int, i);
    }
}

proof fn lemma_unnamed_is_zero(ps: Seq<PropertyDefinition>, pairs: Seq<(String, String)>, n: int, i: int)
    requires
        n <= pairs.len(),
        forall|k: int| 0 <= k < pairs.len() ==> name_index_from(ps, (#[trigger] pairs[k]).0@, 0) != Some(i),
    ensures
        assigned(ps, pairs, n, i) == 0,
    decreases n,
{
    if n > 0 {
        assert(name_index_from(ps, pairs[n - 1].0@, 0) != Some(i));
        lemma_unnamed_is_zero(ps, pairs, n - 1, i);
    }
}


proof fn lemma_span_below_end(ps: Seq<PropertyDefinition>, i: int)
    requires
        layout_ok(ps),
        0 <= i < ps.len(),
    ensures
        ps[i].offset + ps[i].id.spec_bits() <= layout_end(ps),
        16 <= layout_end(ps) <= 32,
{
    lemma_span_facts(ps, ps.len() - 1);
    if i < ps.len() - 1 {
        lemma_layout_ordered(ps, i, ps.len() - 1);
        lemma_span_facts(ps, ps.len() - 1);
    }
}

/// Setting a property keeps the bits above the layout clear.
proof fn lemma_high_clear_kept(ps: Seq<PropertyDefinition>, w: u32, f: u32, k: int)
    requires
        layout_ok(ps),
        0 <= k < ps.len(),
        f <= low_mask(ps[k].id.spec_bits()),
        high_clear(ps, w),
    ensures
        high_clear(ps, splice(w, f, ps[k].offset, ps[k].id.spec_bits())),
{
    lemma_span_facts(ps, k);
    lemma_span_below_end(ps, k);
    let o = ps[k].offset;
    let b = ps[k].id.spec_bits();
    let e = layout_end(ps);
    assert(o < 32 && b < 32 && o + b <= e && e < 32 && f <= ((1u32 << b) - 1) as u32 && w >> e == 0
        ==> (((w & !((((1u32 << b) - 1) as u32) << o)) | (f << o)) >> e) == 0) by (bit_vector);
}

/// A block with only its ID set has no bit above the layout.
proof fn lemma_high_clear_id(ps: Seq<PropertyDefinition>, id: u16)
    requires
        layout_ok(ps),
    ensures
        high_clear(ps, id as u32),
{
    let e = layout_end(ps);
    if ps.len() > 0 {
        lemma_span_below_end(ps, 0);
    }
    let w = id as u32;
    assert(w <= 0xFFFF && 16 <= e && e < 32 ==> w >> e == 0) by (bit_vector);
}


proof fn lemma_unique_name_index(ps: Seq<PropertyDefinition>, i: int, k: int)
    requires
        names_unique(ps),
        0 <= k <= i < ps.len(),
    ensures
        name_index_from(ps, ps[i].name@, k) == Some(i),
    decreases i - k,
{
    if k < i {
        assert(ps[k].name@ != ps[i].name@);
        lemma_unique_name_index(ps, i, k + 1);
    }
}

/// The pairs give, in layout order, each property's name and the canonical text of a value.
pub open spec fn canonical_pairs(ps: Seq<PropertyDefinition>, vals: Seq<u32>, pairs: Seq<(String, String)>) -> bool {
    &&& pairs.len() == ps.len()
    &&& forall|i: int|
        0 <= i < ps.len() ==> (#[trigger] pairs[i]).0@ == ps[i].name@ && pairs[i].1@ == crate::state::text_of(
            ps[i].id,
            (vals[i] - ps[i].id.min) as u32,
        )
}

proof fn lemma_canonical_assigned(ps: Seq<PropertyDefinition>, vals: Seq<u32>, pairs: Seq<(String, String)>, n: int, i: int)
    requires
        layout_ok(ps),
        names_unique(ps),
        values_valid(ps, vals),
        canonical_pairs(ps, vals, pairs),
        0 <= n <= pairs.len(),
        0 <= i < ps.len(),
    ensures
        assigned(ps, pairs, n, i) == if i < n { (vals[i] - ps[i].id.min) as u32 } else { 0 },
    decreases n,
{
    if n > 0 {
        let k = n - 1;
        lemma_unique_name_index(ps, k, 0);
        assert(pairs[k].0@ == ps[k].name@);
        if k == i {
            crate::state::lemma_text_round_trip(ps[i].id, (vals[i] - ps[i].id.min) as u32);
        } else {
            lemma_canonical_assigned(ps, vals, pairs, n - 1, i);
        }
    }
}

/// Building a block from the name and canonical text of each property's value, and decoding
/// it, gives the values back.
pub proof fn lemma_canonical_round_trip(ps: Seq<PropertyDefinition>, vals: Seq<u32>, pairs: Seq<(String, String)>, w: u32)
    requires
        layout_ok(ps),
        names_unique(ps),
        values_valid(ps, vals),
        canonical_pairs(ps, vals, pairs),
        forall|i: int| 0 <= i < ps.len() ==> #[trigger] field_at(ps, w, i) == assigned(ps, pairs, pairs.len() as int, i),
    ensures
        pairs_valid(ps, pairs),
        decoded(ps, w) == Some(vals),
{
    assert forall|k: int| 0 <= k < pairs.len() implies match name_index_from(ps, (#[trigger] pairs[k]).0@, 0) {
        Some(i) => parse_value(ps[i].id, pairs[k].1@) is Ok,
        None => false,
    } by {
        lemma_unique_name_index(ps, k, 0);
        crate::state::lemma_text_round_trip(ps[k].id, (vals[k] - ps[k].id.min) as u32);
    }
    assert forall|i: int| 0 <= i < ps.len() implies #[trigger] assigned(ps, pairs, pairs.len() as int, i)
        == (vals[i] - ps[i].id.min) as u32 by {
        lemma_canonical_assigned(ps, vals, pairs, pairs.len() as int, i);
    }
    lemma_text_encode_decode(ps, pairs, w);
    assert(Seq::new(ps.len(), |i: int| (assigned(ps, pairs, pairs.len() as int, i) + ps[i].id.min) as u32) =~= vals);
}

} // verus!
