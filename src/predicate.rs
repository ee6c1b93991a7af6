//! Blockstate selector predicates: exact matches of some properties ("variants") and precomputed
//! bit-fields over all property combinations ("multipart").
use vstd::prelude::*;
use vstd::string::StrSliceExecFns;

use crate::bits::{
    field_of, lemma_masked_split, lemma_or_elsewhere, lemma_or_here, lemma_span_compare,
    lemma_zero_fields, low_mask, mask_of, span_fits,
};
use crate::block::{
    field_at, layout_ok, lemma_layout_ordered, name_index_from, Block, Definition,
    PropertyDefinition,
};
use crate::state::{fails_with, parse_value, OutOfRangeError, ParseIntegerError, PropertyError};
use crate::text::{find_char, next_index_of, piece_of, pieces, split, views};

verus! {

/// Why a selector condition could not be read.
#[derive(Clone, Debug, PartialEq, Eq)]
pub enum PredicateError {
    /// A `name=value` pair without its `=`.
    MissingEquals(String),
    /// No property of the block has this name; the names it has follow.
    UnknownProperty(String, Vec<String>),
    /// The value given for the named property is not one of its values.
    InvalidValue(String, PropertyError),
    /// The named property is constrained twice.
    Duplicate(String),
    /// The named property does not take a value of this type (a boolean for a non-boolean
    /// property, a number for a non-integer one).
    WrongType(String),
}

/// `names` lists the names of the properties, in order.
pub open spec fn names_of(ps: Seq<PropertyDefinition>, names: Seq<String>) -> bool {
    names.len() == ps.len() && forall|i: int| 0 <= i < ps.len() ==> (#[trigger] names[i])@ == ps[i].name@
}

/// Matches the blocks whose state, under `mask`, equals `value`.
#[derive(Clone, Copy, Debug, Default, PartialEq, Eq, Structural)]
pub struct VariantPredicate {
    /// Mask of block state properties to compare.
    pub mask: u32,
    /// The reference block state to compare against.
    pub value: u32,
}

/// The condition one `name=value` piece states: the property's index and the value's bits.
pub open spec fn cond_of(ps: Seq<PropertyDefinition>, piece: Seq<char>) -> Option<(int, u32)> {
    let e = next_index_of(piece, 0, piece.len() as int, '=');
    if e >= piece.len() {
        None
    } else {
        match name_index_from(ps, piece.take(e), 0) {
            None => None,
            Some(i) => match parse_value(ps[i].id, piece.skip(e + 1)) {
                Ok(v) => Some((i, v)),
                Err(_) => None,
            },
        }
    }
}

/// Whether a word holds each field value that `conds` names.
pub open spec fn meets(ps: Seq<PropertyDefinition>, conds: Seq<(int, u32)>, w: u32) -> bool {
    forall|j: int| 0 <= j < conds.len() ==> #[trigger] field_at(ps, w, conds[j].0) == conds[j].1
}

/// The conditions of a non-empty variant string, when every piece is a valid `name=value`
/// pair and no property appears twice.
pub open spec fn variant_conds(ps: Seq<PropertyDefinition>, s: Seq<char>) -> Option<
    Seq<(int, u32)>,
> {
    let ps_ = pieces(s, ',');
    if (forall|k: int| 0 <= k < ps_.len() ==> (#[trigger] cond_of(ps, ps_[k])) is Some) && (forall|
        k1: int,
        k2: int,
    |
        0 <= k1 < k2 < ps_.len() ==> (#[trigger] cond_of(ps, ps_[k1]))->Some_0.0 != (
        #[trigger] cond_of(ps, ps_[k2]))->Some_0.0) {
        Some(ps_.map_values(|p: Seq<char>| cond_of(ps, p)->Some_0))
    } else {
        None
    }
}

/// The masked comparison a variant predicate makes.
pub open spec fn masked_eq(w: u32, m: u32, v: u32) -> bool {
    w & m == v
}

impl VariantPredicate {
    /// Whether the predicate matches `block`.
    pub fn call(&self, block: Block) -> (r: bool)
        ensures
            r == masked_eq(block@, self.mask, self.value),
    {
        block.as_u32() & self.mask == self.value
    }

    /// Reads a variant string `name1=value1,name2=value2,...` against the properties of
    /// `def`. The empty string matches every block.
    pub fn parse(def: &Definition, s: &str) -> (r: Result<VariantPredicate, PredicateError>)
        requires
            def.wf(),
        ensures
            s@.len() == 0 ==> r == Ok::<VariantPredicate, PredicateError>(
                VariantPredicate { mask: 0, value: 0 },
            ),
            s@.len() > 0 ==> (r is Ok <==> variant_conds(def.properties@, s@) is Some),
            s@.len() > 0 && r is Ok ==> forall|w: u32|
                #[trigger] masked_eq(w, r->Ok_0.mask, r->Ok_0.value) <==> meets(
                    def.properties@,
                    variant_conds(def.properties@, s@)->Some_0,
                    w,
                ),
            r matches Err(PredicateError::UnknownProperty(_, names)) ==> names_of(def.properties@, names@),
    {
        let n = s.unicode_len();
        if n == 0 {
            return Ok(VariantPredicate { mask: 0, value: 0 });
        }
        let ps = &def.properties;
        let parts = split(s, ',');
        let ghost pcs = pieces(s@, ',');
        let mut mask: u32 = 0;
        let mut value: u32 = 0;
        let ghost mut conds: Seq<(int, u32)> = Seq::empty();
        proof {
            assert forall|i: int| 0 <= i < ps@.len() implies #[trigger] field_at(ps@, 0, i) == 0 by {
                lemma_zero_fields(ps@[i].offset, ps@[i].id.spec_bits());
            }
            lemma_zero_fields(0, 0);
            assert forall|w: u32| #[trigger] masked_eq(w, 0, 0) <==> meets(ps@, conds, w) by {
                assert(w & 0u32 == 0u32) by (bit_vector);
            }
        }
        let mut k: usize = 0;
        while k < parts.len()
            invariant
                ps@ == def.properties@,
                s@.len() > 0,
                layout_ok(ps@),
                views(parts@) == pcs,
                pcs == pieces(s@, ','),
                k <= parts@.len(),
                conds.len() == k,
                forall|j: int| 0 <= j < k ==> (#[trigger] cond_of(ps@, pcs[j])) == Some(conds[j]),
                forall|j1: int, j2: int|
                    0 <= j1 < j2 < k ==> (#[trigger] conds[j1]).0 != (#[trigger] conds[j2]).0,
                value & !mask == 0,
                forall|i: int|
                    0 <= i < ps@.len() ==> (#[trigger] field_at(ps@, mask, i)) == if exists|j: int|
                        0 <= j < k && conds[j].0 == i {
                        low_mask(ps@[i].id.spec_bits())
                    } else {
                        0
                    },
                forall|w: u32| #[trigger] masked_eq(w, mask, value) <==> meets(ps@, conds, w),
            decreases parts@.len() - k,
        {
            let part = parts[k].as_str();
            assert(part@ == pcs[k as int]);
            let m = part.unicode_len();
            let e = find_char(part, 0, m, '=');
            if e == m {
                assert(cond_of(ps@, pcs[k as int]) is None);
                return Err(PredicateError::MissingEquals(parts[k].clone()));
            }
            let name = piece_of(part, 0, e);
            let text = piece_of(part, e + 1, m);
            assert(name@ =~= part@.take(e as int));
            assert(text@ =~= part@.skip(e + 1));
            let idx = match def.index_of(name.as_str()) {
                Some(idx) => idx,
                None => {
                    assert(cond_of(ps@, pcs[k as int]) is None);
                    return Err(PredicateError::UnknownProperty(name, def.property_names()));
                },
            };
            proof {
                crate::block::lemma_name_index_from(ps@, name@, 0);
            }
            let p = &ps[idx];
            let bits = match p.id.parse(text.as_str()) {
                Ok(b) => b,
                Err(err) => {
                    assert(cond_of(ps@, pcs[k as int]) is None);
                    return Err(PredicateError::InvalidValue(name, err));
                },
            };
            let width = p.id.bits();
            proof {
                crate::block::lemma_span_facts(ps@, idx as int);
            }
            let o = p.offset;
            let sm = mask_of(width) << o;
            if (mask >> o) & mask_of(width) != 0 {
                proof {
                    lemma_span_compare(0, 0, o, width);
                    assert(field_at(ps@, mask, idx as int) != 0);
                    let j = choose|j: int| 0 <= j < k && conds[j].0 == idx;
                    assert(cond_of(ps@, pcs[k as int]) == Some((idx as int, bits)));
                    assert(cond_of(ps@, pcs[j]) == Some(conds[j]));
                }
                return Err(PredicateError::Duplicate(name));
            }
            let sv = bits << o;
            let ghost cond = (idx as int, bits);
            proof {
                assert(cond_of(ps@, pcs[k as int]) == Some(cond));
                lemma_or_here(mask, low_mask(width), o, width);
                lemma_span_compare(0, bits, o, width);
                lemma_masked_split(0, mask, value, sm, sv);
                assert forall|w: u32| #[trigger] masked_eq(w, mask | sm, value | sv) <==> meets(
                    ps@,
                    conds.push(cond),
                    w,
                ) by {
                    lemma_masked_split(w, mask, value, sm, sv);
                    lemma_span_compare(w, bits, o, width);
                    assert(masked_eq(w, mask, value) <==> meets(ps@, conds, w));
                    if meets(ps@, conds.push(cond), w) {
                        assert forall|j: int| 0 <= j < conds.len() implies #[trigger] field_at(
                            ps@,
                            w,
                            conds[j].0,
                        ) == conds[j].1 by {
                            assert(conds.push(cond)[j] == conds[j]);
                        }
                        assert(conds.push(cond)[k as int] == cond);
                        assert(field_at(ps@, w, idx as int) == bits);
                        assert((w & sm) == sv);
                        assert(masked_eq(w, mask, value));
                    }
                    if masked_eq(w, mask | sm, value | sv) {
                        assert forall|j: int| 0 <= j < conds.push(cond).len() implies #[trigger] field_at(
                            ps@,
                            w,
                            conds.push(cond)[j].0,
                        ) == conds.push(cond)[j].1 by {
                            if j < k {
                                assert(conds.push(cond)[j] == conds[j]);
                                assert(meets(ps@, conds, w));
                                assert(field_at(ps@, w, conds[j].0) == conds[j].1);
                            } else {
                                assert((w & sm) == sv);
                                assert(field_at(ps@, w, idx as int) == bits);
                            }
                        }
                    }
                }
                assert forall|i: int| 0 <= i < ps@.len() implies (#[trigger] field_at(ps@, mask | sm, i))
                    == if exists|j: int| 0 <= j < k + 1 && conds.push(cond)[j].0 == i {
                    low_mask(ps@[i].id.spec_bits())
                } else {
                    0
                } by {
                    if i == idx {
                        assert(conds.push(cond)[k as int].0 == i);
                        assert(field_at(ps@, mask | sm, i) == low_mask(width));
                    } else {
                        crate::block::lemma_span_facts(ps@, i);
                        if i < idx {
                            lemma_layout_ordered(ps@, i, idx as int);
                        } else {
                            lemma_layout_ordered(ps@, idx as int, i);
                        }
                        lemma_or_elsewhere(mask, low_mask(width), o, width, ps@[i].offset, ps@[i].id.spec_bits());
                        let ex_old = exists|j: int| 0 <= j < k && conds[j].0 == i;
                        let ex_new = exists|j: int| 0 <= j < k + 1 && conds.push(cond)[j].0 == i;
                        if ex_new {
                            let j = choose|j: int| 0 <= j < k + 1 && conds.push(cond)[j].0 == i;
                            assert(conds[j].0 == i);
                        }
                        if ex_old {
                            let j = choose|j: int| 0 <= j < k && conds[j].0 == i;
                            assert(conds.push(cond)[j].0 == i);
                        }
                        assert(ex_old == ex_new);
                        assert(field_at(ps@, mask, i) == (if ex_old {
                            low_mask(ps@[i].id.spec_bits())
                        } else {
                            0
                        }));
                        assert(field_at(ps@, mask | sm, i) == field_at(ps@, mask, i));
                    }
                }
                assert forall|j1: int, j2: int| 0 <= j1 < j2 < k + 1 implies (
                #[trigger] conds.push(cond)[j1]).0 != (#[trigger] conds.push(cond)[j2]).0 by {
                    if j2 == k {
                        if conds[j1].0 == idx {
                            assert(field_at(ps@, mask, idx as int) == low_mask(width));
                        }
                    }
                }
                conds = conds.push(cond);
            }
            mask = mask | sm;
            value = value | sv;
            k = k + 1;
        }
        proof {
            assert(conds =~= pcs.map_values(|p: Seq<char>| cond_of(ps@, p)->Some_0));
        }
        Ok(VariantPredicate { mask, value })
    }
}


/// A value a multipart condition accepts for a property, as the blockstate file wrote it.
#[derive(Clone, Debug, PartialEq, Eq)]
pub enum ConditionValue {
    Bool(bool),
    Int(u64),
    /// One value, or several separated by `|`.
    Text(String),
}

/// The `when` of a multipart selector.
#[derive(Clone, Debug)]
pub enum PartWhen {
    /// No condition: the part always applies.
    Always,
    /// Each named property takes one of its listed values; the others may take any value.
    All(Vec<(String, ConditionValue)>),
    /// Any of the entries holds.
    Any(Vec<Vec<(String, ConditionValue)>>),
}

/// One condition of an entry: a property index and the bits of the values it accepts.
pub type PartCond = (usize, Vec<u32>);

/// The bits of the values that `v` accepts for a property of kind `id`.
pub open spec fn value_bits(id: crate::state::PropertyId, v: ConditionValue) -> Option<Seq<u32>> {
    match v {
        ConditionValue::Bool(b) => if id.ty == crate::state::PropertyType::Boolean {
            Some(seq![if b { 1u32 } else { 0u32 }])
        } else {
            None
        },
        ConditionValue::Int(n) => if id.ty == crate::state::PropertyType::Integer && id.min <= n
            && n <= id.max {
            Some(seq![(n - id.min) as u32])
        } else {
            None
        },
        ConditionValue::Text(t) => {
            let alts = pieces(t@, '|');
            if forall|k: int| 0 <= k < alts.len() ==> (#[trigger] parse_value(id, alts[k])) is Ok {
                Some(alts.map_values(|a: Seq<char>| parse_value(id, a)->Ok_0))
            } else {
                None
            }
        },
    }
}

/// The number of state bits above the ID that the properties take.
pub open spec fn state_bits(ps: Seq<PropertyDefinition>) -> u32 {
    if ps.len() == 0 {
        0
    } else {
        (ps.last().offset + ps.last().id.spec_bits() - 16) as u32
    }
}

/// Whether sub-state `k` (the state word shifted down past the ID) holds a valid value in each
/// property and nothing above them.
pub open spec fn sub_valid(ps: Seq<PropertyDefinition>, k: u32) -> bool {
    &&& k >> state_bits(ps) == 0
    &&& forall|i: int|
        0 <= i < ps.len() ==> #[trigger] field_at(ps, k << 16, i) <= ps[i].id.max - ps[i].id.min
}

/// Whether sub-state `k` meets each condition of an entry.
pub open spec fn entry_allows(ps: Seq<PropertyDefinition>, conds: Seq<(int, Seq<u32>)>, k: u32) -> bool {
    &&& sub_valid(ps, k)
    &&& forall|j: int|
        0 <= j < conds.len() ==> (#[trigger] conds[j]).1.contains(field_at(ps, k << 16, conds[j].0))
}

/// Whether sub-state `k` meets some entry.
pub open spec fn any_allows(ps: Seq<PropertyDefinition>, entries: Seq<Seq<(int, Seq<u32>)>>, k: u32) -> bool {
    exists|e: int| 0 <= e < entries.len() && entry_allows(ps, #[trigger] entries[e], k)
}

/// Whether sub-state `k` sets no bit above the properties.
pub open spec fn sub_in_range(ps: Seq<PropertyDefinition>, k: u32) -> bool {
    k >> state_bits(ps) == 0
}

/// Bit `c` of a 64-bit word.
pub open spec fn word_bit(w: u64, c: u64) -> bool {
    (w >> c) & 1 == 1
}

/// Bit `k` of a bit-field stored in 64-bit words.
pub open spec fn bit_at(bf: Seq<u64>, k: u32) -> bool {
    (k / 64) < bf.len() && word_bit(bf[(k / 64) as int], (k % 64) as u64)
}

/// The view of parsed conditions.
pub open spec fn conds_view(c: Seq<PartCond>) -> Seq<(int, Seq<u32>)> {
    c.map_values(|x: PartCond| (x.0 as int, x.1@))
}

/// Matches the blocks whose sub-state has its bit set in the bit-field; no bit-field matches
/// every block.
#[derive(Clone, Debug, Default)]
pub struct PartPredicate {
    /// Each bit in the field determines whether the sub-state used as index matches.
    pub bitfield: Option<Vec<u64>>,
}

/// What a multipart predicate answers for state word `w`.
pub open spec fn part_matches(p: PartPredicate, w: u32) -> bool {
    match p.bitfield {
        None => true,
        Some(bf) => bit_at(bf@, w >> 16),
    }
}

/// Tests whether `w` is among the accepted values.
fn contains_u32(v: &Vec<u32>, x: u32) -> (r: bool)
    ensures
        r == v@.contains(x),
{
    let mut i: usize = 0;
    while i < v.len()
        invariant
            i <= v@.len(),
            forall|j: int| 0 <= j < i ==> v@[j] != x,
        decreases v@.len() - i,
    {
        if v[i] == x {
            return true;
        }
        i = i + 1;
    }
    false
}

/// Computes the number of state bits above the ID that the properties take.
fn state_bits_of(def: &Definition) -> (r: u32)
    requires
        def.wf(),
    ensures
        r == state_bits(def.properties@),
        r <= 16,
{
    let ps = &def.properties;
    if ps.len() == 0 {
        0
    } else {
        let last = &ps[ps.len() - 1];
        proof {
            crate::block::lemma_span_facts(ps@, ps@.len() - 1);
        }
        last.offset + last.id.bits() - 16
    }
}

/// Whether sub-state `k` meets each condition of an entry.
fn entry_allows_exec(def: &Definition, total: u32, conds: &Vec<PartCond>, k: u32) -> (r: bool)
    requires
        def.wf(),
        total == state_bits(def.properties@),
        forall|j: int| 0 <= j < conds@.len() ==> (#[trigger] conds@[j]).0 < def.properties@.len(),
    ensures
        r == entry_allows(def.properties@, conds_view(conds@), k),
{
    let ps = &def.properties;
    if k >> total != 0 {
        return false;
    }
    let w = k << 16;
    let mut i: usize = 0;
    while i < ps.len()
        invariant
            ps@ == def.properties@,
            layout_ok(ps@),
            w == k << 16,
            i <= ps@.len(),
            forall|j: int| 0 <= j < i ==> #[trigger] field_at(ps@, w, j) <= ps@[j].id.max - ps@[j].id.min,
        decreases ps@.len() - i,
    {
        let p = &ps[i];
        let width = p.id.bits();
        proof {
            crate::block::lemma_span_facts(ps@, i as int);
        }
        let f = (w >> p.offset) & mask_of(width);
        assert(f == field_at(ps@, w, i as int));
        if f > p.id.max - p.id.min {
            return false;
        }
        i = i + 1;
    }
    let mut j: usize = 0;
    while j < conds.len()
        invariant
            ps@ == def.properties@,
            layout_ok(ps@),
            w == k << 16,
            k >> total == 0,
            total == state_bits(def.properties@),
            forall|x: int| 0 <= x < conds@.len() ==> (#[trigger] conds@[x]).0 < ps@.len(),
            forall|x: int| 0 <= x < ps@.len() ==> #[trigger] field_at(ps@, w, x) <= ps@[x].id.max - ps@[x].id.min,
            j <= conds@.len(),
            forall|x: int| 0 <= x < j ==> (#[trigger] conds_view(conds@)[x]).1.contains(field_at(ps@, w, conds_view(conds@)[x].0)),
        decreases conds@.len() - j,
    {
        let idx = conds[j].0;
        let p = &ps[idx];
        let width = p.id.bits();
        proof {
            crate::block::lemma_span_facts(ps@, idx as int);
        }
        let f = (w >> p.offset) & mask_of(width);
        assert(f == field_at(ps@, w, idx as int));
        assert(conds_view(conds@)[j as int] == (idx as int, conds@[j as int].1@));
        if !contains_u32(&conds[j].1, f) {
            return false;
        }
        j = j + 1;
    }
    true
}


/// The condition one `(name, value)` pair of an entry states.
pub open spec fn cond_from(ps: Seq<PropertyDefinition>, pair: (String, ConditionValue)) -> Option<
    (int, Seq<u32>),
> {
    match name_index_from(ps, pair.0@, 0) {
        None => None,
        Some(i) => match value_bits(ps[i].id, pair.1) {
            Some(b) => Some((i, b)),
            None => None,
        },
    }
}

/// The conditions of an entry, when each of its pairs is valid.
pub open spec fn entry_conds(ps: Seq<PropertyDefinition>, pairs: Seq<(String, ConditionValue)>) -> Option<
    Seq<(int, Seq<u32>)>,
> {
    if forall|k: int| 0 <= k < pairs.len() ==> (#[trigger] cond_from(ps, pairs[k])) is Some {
        Some(pairs.map_values(|p: (String, ConditionValue)| cond_from(ps, p)->Some_0))
    } else {
        None
    }
}

/// The entries of a `when` that is not `Always`, when each of them is valid.
pub open spec fn when_entries(ps: Seq<PropertyDefinition>, when: PartWhen) -> Option<
    Seq<Seq<(int, Seq<u32>)>>,
> {
    match when {
        PartWhen::Always => None,
        PartWhen::All(pairs) => match entry_conds(ps, pairs@) {
            Some(c) => Some(seq![c]),
            None => None,
        },
        PartWhen::Any(list) => if forall|e: int|
            0 <= e < list@.len() ==> (#[trigger] entry_conds(ps, list@[e]@)) is Some {
            Some(list@.map_values(|l: Vec<(String, ConditionValue)>| entry_conds(ps, l@)->Some_0))
        } else {
            None
        },
    }
}

/// Computes the bits of the values that `v` accepts for a property of kind `id`.
/// A value of the wrong type gives `Err(None)`; text that names no value gives the first parse
/// error.
fn value_bits_exec(id: &crate::state::PropertyId, v: &ConditionValue) -> (r: Result<Vec<u32>, Option<PropertyError>>)
    requires
        id.wf(),
    ensures
        r is Ok <==> value_bits(*id, *v) is Some,
        r is Ok ==> r->Ok_0@ == value_bits(*id, *v)->Some_0,
        r matches Err(None) ==> !(*v is Text),
        r matches Err(Some(e)) ==> match *v {
            ConditionValue::Text(t) => exists|k: int|
                0 <= k < pieces(t@, '|').len() && fails_with(#[trigger] parse_value(*id, pieces(t@, '|')[k]), e),
            ConditionValue::Int(n) => id.ty == crate::state::PropertyType::Integer && !(id.min <= n
                && n <= id.max),
            _ => false,
        },
{
    match v {
        ConditionValue::Bool(b) => {
            if id.ty == crate::state::PropertyType::Boolean {
                let mut r: Vec<u32> = Vec::new();
                r.push(if *b { 1 } else { 0 });
                assert(r@ =~= seq![if *b { 1u32 } else { 0u32 }]);
                Ok(r)
            } else {
                Err(None)
            }
        },
        ConditionValue::Int(n) => {
            if id.ty == crate::state::PropertyType::Integer && id.min as u64 <= *n && *n <= id.max as u64 {
                let mut r: Vec<u32> = Vec::new();
                r.push((*n as u32) - id.min);
                assert(r@ =~= seq![(*n - id.min) as u32]);
                Ok(r)
            } else if id.ty == crate::state::PropertyType::Integer {
                let value: u32 = if *n > u32::MAX as u64 { u32::MAX } else { *n as u32 };
                Err(Some(PropertyError::Integer(ParseIntegerError::OutOfRange(OutOfRangeError { value, min: id.min, max: id.max }))))
            } else {
                Err(None)
            }
        },
        ConditionValue::Text(t) => {
            let alts = split(t.as_str(), '|');
            let ghost av = pieces(t@, '|');
            let mut r: Vec<u32> = Vec::new();
            let mut i: usize = 0;
            while i < alts.len()
                invariant
                    id.wf(),
                    *v == ConditionValue::Text(*t),
                    av == pieces(t@, '|'),
                    views(alts@) == av,
                    i <= alts@.len(),
                    r@.len() == i,
                    forall|j: int| 0 <= j < i ==> (#[trigger] parse_value(*id, av[j])) is Ok && r@[j]
                        == parse_value(*id, av[j])->Ok_0,
                decreases alts@.len() - i,
            {
                assert(alts@[i as int]@ == av[i as int]);
                match id.parse(alts[i].as_str()) {
                    Ok(bits) => r.push(bits),
                    Err(e) => {
                        assert(fails_with(parse_value(*id, av[i as int]), e));
                        return Err(Some(e));
                    },
                }
                i = i + 1;
            }
            assert(r@ =~= av.map_values(|a: Seq<char>| parse_value(*id, a)->Ok_0));
            Ok(r)
        },
    }
}

/// Reads the conditions of one entry against the properties of `def`.
fn parse_entry(def: &Definition, pairs: &Vec<(String, ConditionValue)>) -> (r: Result<
    Vec<PartCond>,
    PredicateError,
>)
    requires
        def.wf(),
    ensures
        r is Ok <==> entry_conds(def.properties@, pairs@) is Some,
        r is Ok ==> conds_view(r->Ok_0@) == entry_conds(def.properties@, pairs@)->Some_0,
        r is Ok ==> forall|j: int| 0 <= j < r->Ok_0@.len() ==> (#[trigger] r->Ok_0@[j]).0 < def.properties@.len(),
        r matches Err(PredicateError::UnknownProperty(_, names)) ==> names_of(def.properties@, names@),
{
    let ps = &def.properties;
    let mut out: Vec<PartCond> = Vec::new();
    let mut k: usize = 0;
    while k < pairs.len()
        invariant
            ps@ == def.properties@,
            layout_ok(ps@),
            k <= pairs@.len(),
            out@.len() == k,
            forall|j: int| 0 <= j < k ==> (#[trigger] cond_from(ps@, pairs@[j])) is Some && conds_view(out@)[j]
                == cond_from(ps@, pairs@[j])->Some_0,
            forall|j: int| 0 <= j < out@.len() ==> (#[trigger] out@[j]).0 < ps@.len(),
        decreases pairs@.len() - k,
    {
        let name = pairs[k].0.as_str();
        let idx = match def.index_of(name) {
            Some(idx) => idx,
            None => {
                assert(cond_from(ps@, pairs@[k as int]) is None);
                return Err(PredicateError::UnknownProperty(pairs[k].0.clone(), def.property_names()));
            },
        };
        proof {
            crate::block::lemma_name_index_from(ps@, name@, 0);
        }
        let vals = match value_bits_exec(&ps[idx].id, &pairs[k].1) {
            Ok(v) => v,
            Err(Some(e)) => {
                assert(cond_from(ps@, pairs@[k as int]) is None);
                return Err(PredicateError::InvalidValue(pairs[k].0.clone(), e));
            },
            Err(None) => {
                assert(cond_from(ps@, pairs@[k as int]) is None);
                return Err(PredicateError::WrongType(pairs[k].0.clone()));
            },
        };
        let ghost before = out@;
        out.push((idx, vals));
        proof {
            assert forall|j: int| 0 <= j < k + 1 implies (#[trigger] cond_from(ps@, pairs@[j])) is Some
                && conds_view(out@)[j] == cond_from(ps@, pairs@[j])->Some_0 by {
                if j < k {
                    assert(out@[j] == before[j]);
                }
            }
        }
        k = k + 1;
    }
    proof {
        assert(conds_view(out@) =~= pairs@.map_values(|p: (String, ConditionValue)| cond_from(ps@, p)->Some_0));
    }
    Ok(out)
}

/// Whether sub-state `k` meets some entry.
fn any_allows_exec(def: &Definition, total: u32, entries: &Vec<Vec<PartCond>>, k: u32) -> (r: bool)
    requires
        def.wf(),
        total == state_bits(def.properties@),
        forall|e: int, j: int| 0 <= e < entries@.len() && 0 <= j < entries@[e]@.len() ==> (#[trigger] entries@[e]@[j]).0
            < def.properties@.len(),
    ensures
        r == any_allows(def.properties@, entries@.map_values(|c: Vec<PartCond>| conds_view(c@)), k),
{
    let ghost ev = entries@.map_values(|c: Vec<PartCond>| conds_view(c@));
    let mut e: usize = 0;
    while e < entries.len()
        invariant
            def.wf(),
            total == state_bits(def.properties@),
            ev == entries@.map_values(|c: Vec<PartCond>| conds_view(c@)),
            forall|e2: int, j: int| 0 <= e2 < entries@.len() && 0 <= j < entries@[e2]@.len() ==> (#[trigger] entries@[e2]@[j]).0
                < def.properties@.len(),
            e <= entries@.len(),
            forall|x: int| 0 <= x < e ==> !entry_allows(def.properties@, #[trigger] ev[x], k),
        decreases entries@.len() - e,
    {
        assert(forall|j: int| 0 <= j < entries@[e as int]@.len() ==> (#[trigger] entries@[e as int]@[j]).0 < def.properties@.len());
        if entry_allows_exec(def, total, &entries[e], k) {
            assert(entry_allows(def.properties@, ev[e as int], k));
            return true;
        }
        e = e + 1;
    }
    false
}

proof fn lemma_set_bit(word: u64, b: u64, c: u64)
    requires
        b < 64,
        c < 64,
        word >> b == 0,
    ensures
        c < b ==> ((word | (1u64 << b)) >> c) & 1 == (word >> c) & 1,
        c == b ==> ((word | (1u64 << b)) >> c) & 1 == 1,
        b + 1 < 64 ==> (word | (1u64 << b)) >> ((b + 1) as u64) == 0,
        b + 1 < 64 ==> word >> ((b + 1) as u64) == 0,
{
    assert(b < 64 && c < 64 && word >> b == 0 && c < b ==> ((word | (1u64 << b)) >> c) & 1 == (word
        >> c) & 1) by (bit_vector);
    assert(b < 64 && c == b ==> ((word | (1u64 << b)) >> c) & 1 == 1) by (bit_vector);
    assert(b + 1 < 64 && word >> b == 0 ==> (word | (1u64 << b)) >> ((b + 1) as u64) == 0)
        by (bit_vector);
    assert(b + 1 < 64 && word >> b == 0 ==> word >> ((b + 1) as u64) == 0) by (bit_vector);
}

proof fn lemma_word_bit_zero(word: u64, b: u64)
    requires
        b < 64,
        word >> b == 0,
    ensures
        (word >> b) & 1 == 0,
        b + 1 < 64 ==> word >> ((b + 1) as u64) == 0,
{
    assert(b < 64 && word >> b == 0 ==> (word >> b) & 1 == 0) by (bit_vector);
    assert(b + 1 < 64 && word >> b == 0 ==> word >> ((b + 1) as u64) == 0) by (bit_vector);
}

/// Builds the bit-field with one bit per sub-state, set where some entry allows it.
fn build_bitfield(def: &Definition, entries: &Vec<Vec<PartCond>>) -> (r: Vec<u64>)
    requires
        def.wf(),
        forall|e: int, j: int| 0 <= e < entries@.len() && 0 <= j < entries@[e]@.len() ==> (#[trigger] entries@[e]@[j]).0
            < def.properties@.len(),
    ensures
        forall|k: u32| #[trigger] bit_at(r@, k) == any_allows(
            def.properties@,
            entries@.map_values(|c: Vec<PartCond>| conds_view(c@)),
            k,
        ),
        forall|k: u32| #[trigger] sub_in_range(def.properties@, k) ==> k / 64 < r@.len(),
{
    let ghost ev = entries@.map_values(|c: Vec<PartCond>| conds_view(c@));
    let total = state_bits_of(def);
    assert(total <= 16 ==> (1u32 << total) >= 1 && (1u32 << total) <= 0x10000) by (bit_vector);
    let words = ((1u32 << total) - 1) / 64 + 1;
    let mut bf: Vec<u64> = Vec::new();
    let mut wi: u32 = 0;
    while wi < words
        invariant
            def.wf(),
            total == state_bits(def.properties@),
            total <= 16,
            words == ((1u32 << total) - 1) / 64 + 1,
            words <= 1024,
            ev == entries@.map_values(|c: Vec<PartCond>| conds_view(c@)),
            forall|e: int, j: int| 0 <= e < entries@.len() && 0 <= j < entries@[e]@.len() ==> (#[trigger] entries@[e]@[j]).0
                < def.properties@.len(),
            wi <= words,
            bf@.len() == wi,
            forall|x: int, c: u64| 0 <= x < wi && c < 64 ==> #[trigger] word_bit(bf@[x], c) == any_allows(
                def.properties@, ev, (x * 64 + c) as u32),
        decreases words - wi,
    {
        let mut word: u64 = 0;
        let mut b: u64 = 0;
        assert(0u64 >> 0u64 == 0) by (bit_vector);
        while b < 64
            invariant
                def.wf(),
                total == state_bits(def.properties@),
                ev == entries@.map_values(|c: Vec<PartCond>| conds_view(c@)),
                forall|e: int, j: int| 0 <= e < entries@.len() && 0 <= j < entries@[e]@.len() ==> (#[trigger] entries@[e]@[j]).0
                    < def.properties@.len(),
                wi < words,
                words <= 1024,
                b <= 64,
                b < 64 ==> word >> b == 0,
                forall|c: u64| c < b ==> #[trigger] word_bit(word, c) == any_allows(def.properties@, ev, (wi * 64 + c) as u32),
            decreases 64 - b,
        {
            let k = wi * 64 + (b as u32);
            let ghost old_word = word;
            if any_allows_exec(def, total, entries, k) {
                proof {
                    assert forall|c: u64| c <= b implies #[trigger] word_bit(old_word | (1u64 << b), c) == any_allows(def.properties@, ev, (wi * 64 + c) as u32) by {
                        lemma_set_bit(old_word, b, c);
                        if c < b {
                            assert(word_bit(old_word, c) == any_allows(def.properties@, ev, (wi * 64 + c) as u32));
                        }
                    }
                    lemma_set_bit(old_word, b, 0);
                }
                word = word | (1u64 << b);
            } else {
                proof {
                    lemma_word_bit_zero(old_word, b);
                }
            }
            b = b + 1;
        }
        bf.push(word);
        proof {
            assert forall|x: int, c: u64| 0 <= x < wi + 1 && c < 64 implies #[trigger] word_bit(bf@[x], c) == any_allows(
                def.properties@, ev, (x * 64 + c) as u32) by {
                if x == wi {
                    assert(bf@[x] == word);
                }
            }
        }
        wi = wi + 1;
    }
    proof {
        assert forall|k: u32| #[trigger] bit_at(bf@, k) == any_allows(def.properties@, ev, k) by {
            let x = k / 64;
            let c = k % 64;
            assert(k == x * 64 + c) by (nonlinear_arith)
                requires x == k / 64, c == k % 64;
            if x < words {
                assert(word_bit(bf@[x as int], c as u64) == any_allows(def.properties@, ev, (x * 64 + c) as u32));
            } else {
                assert(k >= 64 * words) by (nonlinear_arith)
                    requires k == x * 64 + c, x >= words;
                assert(64 * words >= (1u32 << total)) by (nonlinear_arith)
                    requires words == ((1u32 << total) - 1) / 64 + 1, (1u32 << total) >= 1;
                assert(k >> total != 0) by (bit_vector)
                    requires k >= (1u32 << total), total <= 16;
                if any_allows(def.properties@, ev, k) {
                    let e = choose|e: int| 0 <= e < ev.len() && entry_allows(def.properties@, #[trigger] ev[e], k);
                }
            }
        }
    }
    proof {
        assert forall|k: u32| #[trigger] sub_in_range(def.properties@, k) implies k / 64 < bf@.len() by {
            assert(total <= 16 && k >> total == 0 ==> k <= ((1u32 << total) - 1) as u32) by (bit_vector);
            let m = ((1u32 << total) - 1) as u32;
            assert(words == m / 64 + 1);
            assert(k / 64 <= m / 64) by (nonlinear_arith)
                requires k <= m;
        }
    }
    bf
}


impl PartPredicate {
    /// Whether the predicate matches `block`.
    pub fn call(&self, block: Block) -> (r: bool)
        ensures
            r == part_matches(*self, block@),
    {
        match &self.bitfield {
            None => true,
            Some(bf) => {
                let k = block.as_u32() >> 16;
                let wi = (k / 64) as usize;
                if wi < bf.len() {
                    (bf[wi] >> ((k % 64) as u64)) & 1 == 1
                } else {
                    false
                }
            },
        }
    }

    /// Reads a multipart `when` against the properties of `def`, precomputing for every
    /// combination of property values whether it matches.
    pub fn parse(def: &Definition, when: &PartWhen) -> (r: Result<PartPredicate, PredicateError>)
        requires
            def.wf(),
        ensures
            *when is Always ==> r is Ok && r->Ok_0.bitfield is None,
            !(*when is Always) ==> (r is Ok <==> when_entries(def.properties@, *when) is Some),
            !(*when is Always) && r is Ok ==> forall|w: u32| #[trigger] part_matches(r->Ok_0, w)
                == any_allows(def.properties@, when_entries(def.properties@, *when)->Some_0, w >> 16),
            r matches Err(PredicateError::UnknownProperty(_, names)) ==> names_of(def.properties@, names@),
            r is Ok && r->Ok_0.bitfield is Some ==> forall|k: u32|
                #[trigger] sub_in_range(def.properties@, k) ==> k / 64 < r->Ok_0.bitfield->Some_0@.len(),
    {
        let mut entries: Vec<Vec<PartCond>> = Vec::new();
        let ghost ps = def.properties@;
        match when {
            PartWhen::Always => {
                return Ok(PartPredicate { bitfield: None });
            },
            PartWhen::All(pairs) => {
                let c = parse_entry(def, pairs)?;
                entries.push(c);
                proof {
                    assert(entries@.map_values(|c: Vec<PartCond>| conds_view(c@)) =~= when_entries(
                        ps,
                        *when,
                    )->Some_0);
                }
            },
            PartWhen::Any(list) => {
                let mut e: usize = 0;
                while e < list.len()
                    invariant
                        def.wf(),
                        *when == PartWhen::Any(*list),
                        ps == def.properties@,
                        e <= list@.len(),
                        entries@.len() == e,
                        forall|x: int| 0 <= x < e ==> (#[trigger] entry_conds(ps, list@[x]@)) is Some
                            && conds_view(entries@[x]@) == entry_conds(ps, list@[x]@)->Some_0,
                        forall|x: int, j: int| 0 <= x < entries@.len() && 0 <= j < entries@[x]@.len()
                            ==> (#[trigger] entries@[x]@[j]).0 < ps.len(),
                    decreases list@.len() - e,
                {
                    let c = match parse_entry(def, &list[e]) {
                        Ok(c) => c,
                        Err(err) => {
                            assert(entry_conds(ps, list@[e as int]@) is None);
                            return Err(err);
                        },
                    };
                    let ghost before = entries@;
                    entries.push(c);
                    proof {
                        assert forall|x: int| 0 <= x < e + 1 implies (#[trigger] entry_conds(ps, list@[x]@)) is Some
                            && conds_view(entries@[x]@) == entry_conds(ps, list@[x]@)->Some_0 by {
                            if x < e {
                                assert(entries@[x] == before[x]);
                            }
                        }
                        assert forall|x: int, j: int| 0 <= x < entries@.len() && 0 <= j < entries@[x]@.len()
                            implies (#[trigger] entries@[x]@[j]).0 < ps.len() by {
                            if x < e {
                                assert(entries@[x] == before[x]);
                            }
                        }
                    }
                    e = e + 1;
                }
                proof {
                    assert(entries@.map_values(|c: Vec<PartCond>| conds_view(c@)) =~= when_entries(
                        ps,
                        *when,
                    )->Some_0);
                }
            },
        }
        let bf = build_bitfield(def, &entries);
        let r = PartPredicate { bitfield: Some(bf) };
        proof {
            assert forall|w: u32| #[trigger] part_matches(r, w) == any_allows(
                ps,
                when_entries(ps, *when)->Some_0,
                w >> 16,
            ) by {
                assert(bit_at(bf@, w >> 16) == any_allows(
                    ps,
                    entries@.map_values(|c: Vec<PartCond>| conds_view(c@)),
                    w >> 16,
                ));
            }
        }
        Ok(r)
    }
}

} // verus!
