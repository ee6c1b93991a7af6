//! Baking resolved models into faces, and the registry that answers which faces a block shows.
use vstd::prelude::*;

use crate::block::Block;
use crate::direction::Direction;
use crate::geometry::{element_ok, make_quad, quad_of, turn_direction, turn_direction_exec, Quad, check_element};
use crate::location::Location;
use crate::model::{
    cache_ok, elements, elements_of, resolve_texture, resolves_to, texture_failure, CachedModel, Element,
    ElementFace, TextureVarError,
};
use crate::predicate::{masked_eq, part_matches, PartPredicate, VariantPredicate};

verus! {

/// The position of a direction in per-direction lists.
pub open spec fn dir_index(d: Direction) -> int {
    match d {
        Direction::Down => 0,
        Direction::Up => 1,
        Direction::North => 2,
        Direction::South => 3,
        Direction::West => 4,
        Direction::East => 5,
    }
}

fn dir_index_exec(d: Direction) -> (r: usize)
    ensures
        r == dir_index(d),
        r < 6,
{
    match d {
        Direction::Down => 0,
        Direction::Up => 1,
        Direction::North => 2,
        Direction::South => 3,
        Direction::West => 4,
        Direction::East => 5,
    }
}

/// Baked faces: those always drawn, and for each direction those hidden by a neighbour there.
#[derive(Clone, Debug)]
pub struct Faces {
    pub unculled: Vec<Quad>,
    /// Six lists, in the order down, up, north, south, west, east.
    pub culled: Vec<Vec<Quad>>,
}

/// What a set of faces holds.
pub type FacesView = (Seq<Quad>, Seq<Seq<Quad>>);

impl Faces {
    /// The quads always drawn, and those of each direction.
    pub open spec fn view_faces(&self) -> FacesView {
        (self.unculled@, self.culled@.map_values(|v: Vec<Quad>| v@))
    }

    /// There is one list per direction.
    pub open spec fn wf(&self) -> bool {
        self.culled@.len() == 6
    }

    /// No faces.
    pub fn new() -> (r: Faces)
        ensures
            r.wf(),
            r.view_faces() == empty_faces(),
    {
        let mut culled: Vec<Vec<Quad>> = Vec::new();
        let mut i: usize = 0;
        while i < 6
            invariant
                i <= 6,
                culled@.len() == i,
                forall|j: int| 0 <= j < i ==> (#[trigger] culled@[j])@.len() == 0,
            decreases 6 - i,
        {
            culled.push(Vec::new());
            i = i + 1;
        }
        let r = Faces { unculled: Vec::new(), culled };
        assert forall|j: int| 0 <= j < 6 implies r.view_faces().1[j] =~= Seq::<Quad>::empty() by {}
        assert(r.view_faces().1 =~= empty_faces().1);
        r
    }
}

/// No faces.
pub open spec fn empty_faces() -> FacesView {
    (Seq::empty(), Seq::new(6, |i: int| Seq::<Quad>::empty()))
}

/// Files a quad: under the direction its cull face turns to, or with the faces always drawn.
pub open spec fn file_quad(f: FacesView, q: Quad, cull: Option<Direction>, kx: int, ky: int) -> FacesView {
    match cull {
        None => (f.0.push(q), f.1),
        Some(c) => {
            let i = dir_index(turn_direction(c, kx, ky));
            (f.0, f.1.update(i, f.1[i].push(q)))
        },
    }
}

/// The faces of the first `n` elements, in order.
pub open spec fn slots_upto(es: Seq<Element>, n: int) -> Seq<(Element, Direction, ElementFace)>
    decreases n,
{
    if n <= 0 {
        Seq::empty()
    } else {
        slots_upto(es, n - 1) + es[n - 1].faces@.map_values(
            |f: (Direction, ElementFace)| (es[n - 1], f.0, f.1),
        )
    }
}

/// Every face of the elements, in order.
pub open spec fn slots(es: Seq<Element>) -> Seq<(Element, Direction, ElementFace)> {
    slots_upto(es, es.len() as int)
}

/// The faces baked from the first `n` slots, slot `j` using texture `tex[j]`.
pub open spec fn baked(
    sl: Seq<(Element, Direction, ElementFace)>,
    tex: Seq<u32>,
    kx: int,
    ky: int,
    n: int,
) -> FacesView
    decreases n,
{
    if n <= 0 {
        empty_faces()
    } else {
        let (e, d, f) = sl[n - 1];
        file_quad(baked(sl, tex, kx, ky, n - 1), quad_of(e, d, f, kx, ky, tex[n - 1]), f.cullface, kx, ky)
    }
}

proof fn lemma_slots_grow(es: Seq<Element>, m: int, n: int)
    requires
        0 <= m <= n,
    ensures
        slots_upto(es, m).len() <= slots_upto(es, n).len(),
    decreases n - m,
{
    if m < n {
        lemma_slots_grow(es, m, n - 1);
    }
}

proof fn lemma_slots_prefix(es: Seq<Element>, m: int, n: int, j: int)
    requires
        0 <= m <= n,
        0 <= j < slots_upto(es, m).len(),
    ensures
        j < slots_upto(es, n).len(),
        slots_upto(es, m)[j] == slots_upto(es, n)[j],
    decreases n - m,
{
    if m < n {
        lemma_slots_prefix(es, m, n - 1, j);
        lemma_slots_grow(es, m, n - 1);
    }
}

proof fn lemma_baked_prefix(
    a: Seq<(Element, Direction, ElementFace)>,
    b: Seq<(Element, Direction, ElementFace)>,
    tex: Seq<u32>,
    kx: int,
    ky: int,
    n: int,
)
    requires
        0 <= n <= a.len(),
        n <= b.len(),
        forall|k: int| 0 <= k < n ==> a[k] == b[k],
    ensures
        baked(a, tex, kx, ky, n) == baked(b, tex, kx, ky, n),
    decreases n,
{
    if n > 0 {
        lemma_baked_prefix(a, b, tex, kx, ky, n - 1);
    }
}

/// Whether a model rotation in degrees is a quarter-turn multiple the format allows.
pub open spec fn rotation_steps(deg: u32) -> Option<u8> {
    if deg == 0 {
        Some(0)
    } else if deg == 90 {
        Some(1)
    } else if deg == 180 {
        Some(2)
    } else if deg == 270 {
        Some(3)
    } else {
        None
    }
}

/// Converts a model rotation in degrees to quarter turns; only 0, 90, 180 and 270 are allowed.
pub fn rotation_steps_exec(deg: u32) -> (r: Option<u8>)
    ensures
        r == rotation_steps(deg),
{
    if deg == 0 {
        Some(0)
    } else if deg == 90 {
        Some(1)
    } else if deg == 180 {
        Some(2)
    } else if deg == 270 {
        Some(3)
    } else {
        None
    }
}

/// Why a model could not be baked.
#[derive(Debug)]
pub enum BakeError {
    /// A rotation other than 0, 90, 180 or 270 degrees.
    BadRotation(u32),
    /// An element's points, texture area or rotation is out of range.
    BadElement(usize),
    /// The texture indices do not match the faces one for one.
    TextureCount,
}

/// Whether variable `var` of model `i` resolves to some texture.
pub open spec fn resolvable(ms: Seq<CachedModel>, i: int, var: Seq<char>) -> bool {
    exists|loc: Location| resolves_to(ms, i, var, loc)
}

/// Resolves the texture of each face of model `i`, in the order of `slots`.
pub fn face_textures(ms: &Vec<CachedModel>, i: usize) -> (r: Result<Vec<Location>, TextureVarError>)
    requires
        cache_ok(ms@),
        i < ms@.len(),
    ensures
        r is Ok ==> r->Ok_0@.len() == slots(elements_of(ms@, i as int)).len(),
        r is Ok ==> forall|j: int|
            0 <= j < r->Ok_0@.len() ==> resolves_to(
                ms@,
                i as int,
                slots(elements_of(ms@, i as int))[j].2.texture@,
                #[trigger] r->Ok_0@[j],
            ),
        (forall|j: int|
            0 <= j < slots(elements_of(ms@, i as int)).len() ==> resolvable(
                ms@,
                i as int,
                #[trigger] slots(elements_of(ms@, i as int))[j].2.texture@,
            )) ==> r is Ok,
        r matches Err(e) ==> exists|j: int|
            0 <= j < slots(elements_of(ms@, i as int)).len() && texture_failure(
                ms@,
                i as int,
                #[trigger] slots(elements_of(ms@, i as int))[j].2.texture@,
                e,
            ) && forall|j2: int|
                0 <= j2 < j ==> resolvable(
                    ms@,
                    i as int,
                    #[trigger] slots(elements_of(ms@, i as int))[j2].2.texture@,
                ),
{
    let es = elements(ms, i);
    let mut out: Vec<Location> = Vec::new();
    let mut e: usize = 0;
    while e < es.len()
        invariant
            cache_ok(ms@),
            i < ms@.len(),
            es@ == elements_of(ms@, i as int),
            e <= es@.len(),
            out@.len() == slots_upto(es@, e as int).len(),
            forall|j: int|
                0 <= j < out@.len() ==> resolves_to(ms@, i as int, slots_upto(es@, e as int)[j].2.texture@, #[trigger] out@[j]),
        decreases es@.len() - e,
    {
        let faces = &es[e].faces;
        let ghost before = slots_upto(es@, e as int);
        let ghost after = slots_upto(es@, e + 1);
        assert(after == before + es@[e as int].faces@.map_values(
            |f: (Direction, ElementFace)| (es@[e as int], f.0, f.1),
        ));
        let mut k: usize = 0;
        while k < faces.len()
            invariant
                cache_ok(ms@),
                i < ms@.len(),
                e < es@.len(),
                faces@ == es@[e as int].faces@,
                after == before + faces@.map_values(|f: (Direction, ElementFace)| (es@[e as int], f.0, f.1)),
                after == slots_upto(es@, e + 1),
                es@ == elements_of(ms@, i as int),
                k <= faces@.len(),
                out@.len() == before.len() + k,
                forall|j: int| 0 <= j < out@.len() ==> resolves_to(ms@, i as int, after[j].2.texture@, #[trigger] out@[j]),
            decreases faces@.len() - k,
        {
            let loc = match resolve_texture(ms, i, faces[k].1.texture.as_str()) {
                Ok(loc) => loc,
                Err(err) => {
                    proof {
                        let j = out@.len() as int;
                        let sl = slots(es@);
                        assert(after.len() == before.len() + faces@.len());
                        lemma_slots_grow(es@, e + 1, es@.len() as int);
                        lemma_slots_prefix(es@, e + 1, es@.len() as int, j);
                        assert(after[j].2 == faces@[k as int].1);
                        assert(sl[j] == after[j]);
                        assert(texture_failure(ms@, i as int, sl[j].2.texture@, err));
                        assert forall|j2: int| 0 <= j2 < j implies resolvable(ms@, i as int, #[trigger] sl[j2].2.texture@) by {
                            lemma_slots_prefix(es@, e + 1, es@.len() as int, j2);
                            assert(resolves_to(ms@, i as int, after[j2].2.texture@, out@[j2]));
                        }
                    }
                    return Err(err);
                },
            };
            let ghost prev = out@;
            out.push(loc);
            proof {
                assert(after[prev.len() as int].2 == faces@[k as int].1);
                assert forall|j: int| 0 <= j < out@.len() implies resolves_to(ms@, i as int, after[j].2.texture@, #[trigger] out@[j]) by {
                    if j < prev.len() {
                        assert(out@[j] == prev[j]);
                    }
                }
            }
            k = k + 1;
        }
        e = e + 1;
    }
    Ok(out)
}

/// Appends a copy of each quad of `src` to `dst`.
fn extend_quads(dst: &mut Vec<Quad>, src: &Vec<Quad>)
    ensures
        final(dst)@ == old(dst)@ + src@,
{
    let mut i: usize = 0;
    let ghost start = dst@;
    while i < src.len()
        invariant
            i <= src@.len(),
            dst@ == start + src@.take(i as int),
        decreases src@.len() - i,
    {
        dst.push(src[i]);
        assert(src@.take(i + 1) =~= src@.take(i as int).push(src@[i as int]));
        i = i + 1;
    }
    assert(src@.take(src@.len() as int) =~= src@);
}

/// Bakes every face of model `i` under the model rotation `(x, y)` in degrees, face `j` (in
/// the order of `slots`) using the texture with index `tex[j]`.
pub fn bake(ms: &Vec<CachedModel>, i: usize, x: u32, y: u32, tex: &Vec<u32>) -> (r: Result<Faces, BakeError>)
    requires
        cache_ok(ms@),
        i < ms@.len(),
    ensures
        rotation_steps(x) is None ==> r matches Err(BakeError::BadRotation(_)),
        rotation_steps(y) is None ==> r matches Err(BakeError::BadRotation(_)),
        r is Ok ==> r->Ok_0.wf() && rotation_steps(x) is Some && rotation_steps(y) is Some
            && tex@.len() == slots(elements_of(ms@, i as int)).len()
            && r->Ok_0.view_faces() == baked(
                slots(elements_of(ms@, i as int)),
                tex@,
                rotation_steps(x)->Some_0 as int,
                rotation_steps(y)->Some_0 as int,
                tex@.len() as int,
            ),
        rotation_steps(x) is Some && rotation_steps(y) is Some && tex@.len() == slots(elements_of(ms@, i as int)).len()
            && (forall|e: int| 0 <= e < elements_of(ms@, i as int).len() ==> element_ok(#[trigger] elements_of(ms@, i as int)[e]))
            ==> r is Ok,
{
    let kx = match rotation_steps_exec(x) {
        Some(k) => k,
        None => {
            return Err(BakeError::BadRotation(x));
        },
    };
    let ky = match rotation_steps_exec(y) {
        Some(k) => k,
        None => {
            return Err(BakeError::BadRotation(y));
        },
    };
    let es = elements(ms, i);
    let mut faces = Faces::new();
    let mut j: usize = 0;
    let mut e: usize = 0;
    while e < es.len()
        invariant
            es@ == elements_of(ms@, i as int),
            rotation_steps(x) == Some(kx),
            rotation_steps(y) == Some(ky),
            e <= es@.len(),
            j == slots_upto(es@, e as int).len(),
            j <= tex@.len(),
            faces.wf(),
            forall|x: int| 0 <= x < e ==> element_ok(#[trigger] es@[x]),
            faces.view_faces() == baked(slots_upto(es@, e as int), tex@, kx as int, ky as int, j as int),
        decreases es@.len() - e,
    {
        let el = &es[e];
        if !check_element(el) {
            return Err(BakeError::BadElement(e));
        }
        let ghost before = slots_upto(es@, e as int);
        let ghost after = slots_upto(es@, e + 1);
        proof {
            assert(after == before + es@[e as int].faces@.map_values(
                |f: (Direction, ElementFace)| (es@[e as int], f.0, f.1),
            ));
            lemma_baked_prefix(before, after, tex@, kx as int, ky as int, j as int);
            lemma_slots_grow(es@, e + 1, es@.len() as int);
        }
        let mut k: usize = 0;
        while k < el.faces.len()
            invariant
                es@ == elements_of(ms@, i as int),
                rotation_steps(x) == Some(kx),
                rotation_steps(y) == Some(ky),
                e < es@.len(),
                *el == es@[e as int],
                element_ok(*el),
                k <= el.faces@.len(),
                faces.wf(),
                after == slots_upto(es@, e + 1),
                after == before + el.faces@.map_values(|f: (Direction, ElementFace)| (*el, f.0, f.1)),
                before.len() + el.faces@.len() == after.len(),
                after.len() <= slots(es@).len(),
                j == before.len() + k,
                j <= tex@.len(),
                faces.view_faces() == baked(after, tex@, kx as int, ky as int, j as int),
            decreases el.faces@.len() - k,
        {
            if j >= tex.len() {
                return Err(BakeError::TextureCount);
            }
            let (d, face) = (el.faces[k].0, &el.faces[k].1);
            let ghost slot = after[j as int];
            assert(slot == (*el, d, *face));
            let q = make_quad(el, d, face, kx, ky, tex[j]);
            let ghost fv = faces.view_faces();
            match face.cullface {
                None => {
                    faces.unculled.push(q);
                },
                Some(c) => {
                    let t = turn_direction_exec(c, kx, ky);
                    let idx = dir_index_exec(t);
                    faces.culled[idx].push(q);
                    assert(faces.view_faces().1 =~= fv.1.update(idx as int, fv.1[idx as int].push(q)));
                },
            }
            assert(faces.view_faces() == baked(after, tex@, kx as int, ky as int, j + 1));
            j = j + 1;
            k = k + 1;
        }
        e = e + 1;
    }
    if j != tex.len() {
        return Err(BakeError::TextureCount);
    }
    Ok(faces)
}


/// Faces for one entry of a selector, with the weight the blockstate file gave it.
#[derive(Debug)]
pub struct WeightedModel {
    pub weight: u32,
    pub faces: Faces,
}

/// A variant selector: the first whose predicate matches applies.
#[derive(Debug)]
pub struct VariantSelector {
    pub when: VariantPredicate,
    pub apply: Vec<WeightedModel>,
}

/// A multipart selector: every one whose predicate matches contributes.
#[derive(Debug)]
pub struct PartSelector {
    pub when: PartPredicate,
    pub apply: Vec<WeightedModel>,
}

/// The selectors of one block kind.
#[derive(Debug)]
pub enum Selectors {
    Variants(Vec<VariantSelector>),
    Multipart(Vec<PartSelector>),
}

/// Each selector has an entry, and each entry's faces are well formed.
pub open spec fn selectors_ok(s: Selectors) -> bool {
    match s {
        Selectors::Variants(v) => forall|i: int|
            0 <= i < v@.len() ==> (#[trigger] v@[i]).apply@.len() > 0 && v@[i].apply@[0].faces.wf(),
        Selectors::Multipart(v) => forall|i: int|
            0 <= i < v@.len() ==> (#[trigger] v@[i]).apply@.len() > 0 && v@[i].apply@[0].faces.wf(),
    }
}

/// The index of the first variant selector from `k` on that matches state word `w`.
pub open spec fn first_match(v: Seq<VariantSelector>, w: u32, k: int) -> Option<int>
    decreases v.len() - k,
{
    if k < 0 || k >= v.len() {
        None
    } else if masked_eq(w, v[k].when.mask, v[k].when.value) {
        Some(k)
    } else {
        first_match(v, w, k + 1)
    }
}

/// Both sets of faces together, `a`'s first.
pub open spec fn union(a: FacesView, b: FacesView) -> FacesView {
    (a.0 + b.0, Seq::new(6, |d: int| a.1[d] + b.1[d]))
}

/// The faces of the matching selectors among the first `n`, in order. Only the first entry of
/// each selector is applied.
pub open spec fn part_union(v: Seq<PartSelector>, w: u32, n: int) -> FacesView
    decreases n,
{
    if n <= 0 {
        empty_faces()
    } else if part_matches(v[n - 1].when, w) {
        union(part_union(v, w, n - 1), v[n - 1].apply@[0].faces.view_faces())
    } else {
        part_union(v, w, n - 1)
    }
}

/// The faces that selectors `s` show for state word `w`.
pub open spec fn selected_faces(s: Selectors, w: u32) -> FacesView {
    match s {
        Selectors::Variants(v) => match first_match(v@, w, 0) {
            Some(i) => v@[i].apply@[0].faces.view_faces(),
            None => empty_faces(),
        },
        Selectors::Multipart(v) => part_union(v@, w, v@.len() as int),
    }
}

/// A copy of a set of faces.
fn copy_faces(f: &Faces) -> (r: Faces)
    requires
        f.wf(),
    ensures
        r.wf(),
        r.view_faces() == f.view_faces(),
{
    let mut r = Faces::new();
    add_faces(&mut r, f);
    assert(r.view_faces().0 =~= f.view_faces().0);
    assert(r.view_faces().1 =~= f.view_faces().1);
    r
}

/// Adds the faces of `src` to `dst`.
fn add_faces(dst: &mut Faces, src: &Faces)
    requires
        old(dst).wf(),
        src.wf(),
    ensures
        final(dst).wf(),
        final(dst).view_faces() == union(old(dst).view_faces(), src.view_faces()),
{
    extend_quads(&mut dst.unculled, &src.unculled);
    let ghost u0 = dst.unculled@;
    let ghost start = old(dst).culled@.map_values(|v: Vec<Quad>| v@);
    let mut d: usize = 0;
    while d < 6
        invariant
            dst.culled@.len() == 6,
            src.wf(),
            d <= 6,
            dst.unculled@ == u0,
            start.len() == 6,
            forall|x: int| 0 <= x < d ==> (#[trigger] dst.culled@[x])@ == start[x] + src.culled@[x]@,
            forall|x: int| d <= x < 6 ==> (#[trigger] dst.culled@[x])@ == start[x],
        decreases 6 - d,
    {
        extend_quads(&mut dst.culled[d], &src.culled[d]);
        d = d + 1;
    }
    assert forall|x: int| 0 <= x < 6 implies dst.view_faces().1[x] == union(old(dst).view_faces(), src.view_faces()).1[x] by {
        assert(dst.view_faces().1[x] == dst.culled@[x]@);
    }
    assert(dst.view_faces().1 =~= union(old(dst).view_faces(), src.view_faces()).1);
}

/// The baked faces of every block kind, indexed by numeric block ID.
#[derive(Debug)]
pub struct Registry {
    models: Vec<Selectors>,
}

impl Registry {
    /// The selectors of each block kind.
    pub closed spec fn kinds(&self) -> Seq<Selectors> {
        self.models@
    }

    /// Every kind's selectors have an entry each, with well-formed faces.
    pub closed spec fn wf(&self) -> bool {
        forall|i: int| 0 <= i < self.models@.len() ==> selectors_ok(#[trigger] self.models@[i])
    }

    /// A registry without block kinds.
    pub fn new() -> (r: Registry)
        ensures
            r.wf(),
            r.kinds().len() == 0,
    {
        Registry { models: Vec::new() }
    }

    /// Adds the selectors of the next block kind.
    pub fn push(&mut self, s: Selectors)
        requires
            old(self).wf(),
            selectors_ok(s),
        ensures
            final(self).wf(),
            final(self).kinds() == old(self).kinds().push(s),
    {
        self.models.push(s);
    }

    /// Returns the faces that should be rendered for a block and its state: those of the
    /// first matching variant, or the union of all matching multipart selectors. A block of a
    /// kind the registry does not hold shows none.
    pub fn faces_of(&self, block: Block) -> (r: Faces)
        requires
            self.wf(),
        ensures
            r.wf(),
            (block@ & 0xFFFF) < self.kinds().len() ==> r.view_faces() == selected_faces(
                self.kinds()[(block@ & 0xFFFF) as int],
                block@,
            ),
            (block@ & 0xFFFF) >= self.kinds().len() ==> r.view_faces() == empty_faces(),
    {
        let id = block.id().to_numeric() as usize;
        if id >= self.models.len() {
            return Faces::new();
        }
        let w = block.as_u32();
        match &self.models[id] {
            Selectors::Variants(v) => {
                let mut i: usize = 0;
                while i < v.len()
                    invariant
                        i <= v@.len(),
                        w == block@,
                        (block@ & 0xFFFF) < self.kinds().len(),
                        self.kinds()[(block@ & 0xFFFF) as int] == Selectors::Variants(*v),
                        forall|x: int| 0 <= x < v@.len() ==> (#[trigger] v@[x]).apply@.len() > 0 && v@[x].apply@[0].faces.wf(),
                        first_match(v@, w, i as int) == first_match(v@, w, 0),
                    decreases v@.len() - i,
                {
                    if v[i].when.call(block) {
                        assert(first_match(v@, w, i as int) == Some(i as int));
                        return copy_faces(&v[i].apply[0].faces);
                    }
                    i = i + 1;
                }
                Faces::new()
            },
            Selectors::Multipart(v) => {
                let mut faces = Faces::new();
                let mut i: usize = 0;
                while i < v.len()
                    invariant
                        i <= v@.len(),
                        w == block@,
                        (block@ & 0xFFFF) < self.kinds().len(),
                        self.kinds()[(block@ & 0xFFFF) as int] == Selectors::Multipart(*v),
                        faces.wf(),
                        forall|x: int| 0 <= x < v@.len() ==> (#[trigger] v@[x]).apply@.len() > 0 && v@[x].apply@[0].faces.wf(),
                        faces.view_faces() == part_union(v@, w, i as int),
                    decreases v@.len() - i,
                {
                    if v[i].when.call(block) {
                        add_faces(&mut faces, &v[i].apply[0].faces);
                    }
                    i = i + 1;
                }
                faces
            },
        }
    }
}

} // verus!
