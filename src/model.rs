//! Block models: the cache that links each model to its parent, and lookups that walk the
//! parent chain (elements, texture variables).
use vstd::prelude::*;

use crate::direction::Direction;
use crate::location::{parts_of, Location};
use crate::text::views;

verus! {

/// A texture entry of a model: a texture's location, or another variable to look up.
#[derive(Clone, Debug)]
pub enum TextureEntry {
    Location(Location),
    Variable(String),
}

/// A point in model space.
#[derive(Clone, Copy, Debug, PartialEq, Eq, Structural)]
pub struct Point {
    pub x: i32,
    pub y: i32,
    pub z: i32,
}

/// A texture area: two corners `(u0, v0)` and `(u1, v1)`.
#[derive(Clone, Copy, Debug, PartialEq, Eq, Structural)]
pub struct Uvs {
    pub u0: i32,
    pub v0: i32,
    pub u1: i32,
    pub v1: i32,
}

/// Rotation of an element about an axis through `origin`.
#[derive(Clone, Copy, Debug)]
pub struct ElementRotation {
    /// Center of rotation, in 1/1024 pixel units.
    pub origin: Point,
    /// Axis of rotation: 0 for x, 1 for y, 2 for z.
    pub axis: u8,
    /// Angle in tenths of a degree: one of -450, -225, 0, 225, 450.
    pub angle: i32,
    /// Whether to scale the faces across the whole block.
    pub rescale: bool,
}

/// One face of an element.
#[derive(Clone, Debug)]
pub struct ElementFace {
    /// Area of the texture, in 1/1024 pixel units; derived from the position when unset.
    pub uvs: Option<Uvs>,
    /// The texture variable to use, without its `#`.
    pub texture: String,
    /// The neighbour that hides the face, if any.
    pub cullface: Option<Direction>,
    pub tint_index: i32,
}

/// A cuboid of a model. Coordinates are in 1/1024 pixel units (a block is 16 pixels).
#[derive(Clone, Debug)]
pub struct Element {
    pub from: Point,
    pub to: Point,
    pub rotation: Option<ElementRotation>,
    pub shade: bool,
    pub faces: Vec<(Direction, ElementFace)>,
}

/// A model file as read, before it is linked to its parent.
#[derive(Clone, Debug)]
pub struct RawModel {
    /// Unset fields are inherited from this model, if present.
    pub parent_location: Option<Location>,
    /// Whether to use ambient occlusion; inherited when unset.
    pub ambient_occlusion: Option<bool>,
    /// Texture variables, by name without `#`.
    pub textures: Vec<(String, TextureEntry)>,
    pub elements: Vec<Element>,
}

/// The weight of a selector entry that names none.
pub fn default_weight() -> (r: u32)
    ensures
        r == 1,
{
    1
}

/// Whether an element casts a shadow when its file does not say.
pub fn default_shade() -> (r: bool)
    ensures
        r,
{
    true
}

/// The tint index of a face whose file names none: no tint.
pub fn default_tint_index() -> (r: i32)
    ensures
        r == -1,
{
    -1
}

/// A model in the cache, linked to its parent.
#[derive(Clone, Debug)]
pub struct CachedModel {
    pub location: Location,
    pub raw: RawModel,
    /// The index of the parent in the cache.
    pub parent: Option<usize>,
    /// The pack the model was read from.
    pub pack_index: usize,
}

/// The identity of a location: namespace and path.
pub open spec fn key(l: Location) -> (Seq<char>, Seq<char>) {
    parts_of(l@)
}

/// Each cached model's parent comes before it and is the model its file names.
pub open spec fn cache_ok(ms: Seq<CachedModel>) -> bool {
    forall|i: int|
        0 <= i < ms.len() ==> match (#[trigger] ms[i]).parent {
            Some(p) => p < i && ms[i].raw.parent_location is Some && key(ms[p as int].location)
                == key(ms[i].raw.parent_location->Some_0),
            None => ms[i].raw.parent_location is None,
        }
}

/// The elements of model `i`: its own, or else those of the nearest ancestor that has some.
pub open spec fn elements_of(ms: Seq<CachedModel>, i: int) -> Seq<Element>
    decreases i,
{
    if i < 0 || i >= ms.len() {
        Seq::empty()
    } else if ms[i].raw.elements@.len() > 0 {
        ms[i].raw.elements@
    } else {
        match ms[i].parent {
            Some(p) => if p < i {
                elements_of(ms, p as int)
            } else {
                Seq::empty()
            },
            None => Seq::empty(),
        }
    }
}

/// A cached model without elements of its own has exactly the elements of its parent.
pub proof fn lemma_inherits_elements(ms: Seq<CachedModel>, i: int)
    requires
        cache_ok(ms),
        0 <= i < ms.len(),
        ms[i].raw.elements@.len() == 0,
        ms[i].parent is Some,
    ensures
        elements_of(ms, i) == elements_of(ms, ms[i].parent->Some_0 as int),
{
}

/// The ambient occlusion setting of model `i`: its own, or else that of the nearest ancestor
/// that sets it, or else on.
pub open spec fn ambient_occlusion_of(ms: Seq<CachedModel>, i: int) -> bool
    decreases i,
{
    if i < 0 || i >= ms.len() {
        true
    } else {
        match ms[i].raw.ambient_occlusion {
            Some(b) => b,
            None => match ms[i].parent {
                Some(p) => if p < i {
                    ambient_occlusion_of(ms, p as int)
                } else {
                    true
                },
                None => true,
            },
        }
    }
}

/// The index of the first entry named `var` in a texture table.
pub open spec fn entry_index(t: Seq<(String, TextureEntry)>, var: Seq<char>, k: int) -> Option<int>
    decreases t.len() - k,
{
    if k < 0 || k >= t.len() {
        None
    } else if t[k].0@ == var {
        Some(k)
    } else {
        entry_index(t, var, k + 1)
    }
}

/// The entry for `var` in model `i`'s table, or else in the nearest ancestor that has one.
pub open spec fn texture_entry_of(ms: Seq<CachedModel>, i: int, var: Seq<char>) -> Option<
    TextureEntry,
>
    decreases i,
{
    if i < 0 || i >= ms.len() {
        None
    } else {
        match entry_index(ms[i].raw.textures@, var, 0) {
            Some(k) => Some(ms[i].raw.textures@[k].1),
            None => match ms[i].parent {
                Some(p) => if p < i {
                    texture_entry_of(ms, p as int, var)
                } else {
                    None
                },
                None => None,
            },
        }
    }
}

proof fn lemma_entry_index(t: Seq<(String, TextureEntry)>, var: Seq<char>, k: int)
    requires
        0 <= k,
    ensures
        entry_index(t, var, k) is Some ==> k <= entry_index(t, var, k)->Some_0 < t.len(),
        entry_index(t, var, k) is Some ==> t[entry_index(t, var, k)->Some_0].0@ == var,
    decreases t.len() - k,
{
    if k < t.len() && t[k].0@ != var {
        lemma_entry_index(t, var, k + 1);
    }
}

/// A copy of a texture entry.
pub fn copy_entry(e: &TextureEntry) -> (r: TextureEntry)
    ensures
        r == *e,
{
    match e {
        TextureEntry::Location(l) => TextureEntry::Location(l.duplicate()),
        TextureEntry::Variable(v) => TextureEntry::Variable(v.clone()),
    }
}

/// Finds the first entry named `var` in a texture table.
fn find_entry(t: &Vec<(String, TextureEntry)>, var: &str) -> (r: Option<usize>)
    ensures
        r is Some <==> entry_index(t@, var@, 0) is Some,
        r is Some ==> r->Some_0 == entry_index(t@, var@, 0)->Some_0 && r->Some_0 < t@.len(),
{
    proof {
        lemma_entry_index(t@, var@, 0);
    }
    let mut k: usize = 0;
    while k < t.len()
        invariant
            k <= t@.len(),
            entry_index(t@, var@, k as int) == entry_index(t@, var@, 0),
        decreases t@.len() - k,
    {
        let name = t[k].0.as_str();
        let n = vstd::string::StrSliceExecFns::unicode_len(name);
        if crate::text::piece_is(name, 0, n, var) {
            assert(name@.subrange(0, n as int) =~= name@);
            return Some(k);
        }
        assert(name@.subrange(0, n as int) =~= name@);
        k = k + 1;
    }
    None
}

/// Returns the elements of model `i`: its own, or those of its nearest ancestor that has some.
pub fn elements<'a>(ms: &'a Vec<CachedModel>, i: usize) -> (r: &'a Vec<Element>)
    requires
        cache_ok(ms@),
        i < ms@.len(),
    ensures
        r@ == elements_of(ms@, i as int),
{
    let mut j = i;
    loop
        invariant
            cache_ok(ms@),
            j < ms@.len(),
            elements_of(ms@, j as int) == elements_of(ms@, i as int),
        decreases j,
    {
        let m = &ms[j];
        if m.raw.elements.len() > 0 {
            return &m.raw.elements;
        }
        match m.parent {
            Some(p) => {
                j = p;
            },
            None => {
                return &m.raw.elements;
            },
        }
    }
}

/// Returns the ambient occlusion setting of model `i`, inherited along its parents, else on.
pub fn ambient_occlusion(ms: &Vec<CachedModel>, i: usize) -> (r: bool)
    requires
        cache_ok(ms@),
        i < ms@.len(),
    ensures
        r == ambient_occlusion_of(ms@, i as int),
{
    let mut j = i;
    loop
        invariant
            cache_ok(ms@),
            j < ms@.len(),
            ambient_occlusion_of(ms@, j as int) == ambient_occlusion_of(ms@, i as int),
        decreases j,
    {
        match ms[j].raw.ambient_occlusion {
            Some(b) => {
                return b;
            },
            None => {},
        }
        match ms[j].parent {
            Some(p) => {
                j = p;
            },
            None => {
                return true;
            },
        }
    }
}

/// Searches model `i` and then its ancestors for the texture entry named `var`.
pub fn find_texture_entry(ms: &Vec<CachedModel>, i: usize, var: &str) -> (r: Option<TextureEntry>)
    requires
        cache_ok(ms@),
        i < ms@.len(),
    ensures
        r is Some <==> texture_entry_of(ms@, i as int, var@) is Some,
        r is Some ==> r->Some_0 == texture_entry_of(ms@, i as int, var@)->Some_0,
{
    let mut j = i;
    loop
        invariant
            cache_ok(ms@),
            j < ms@.len(),
            texture_entry_of(ms@, j as int, var@) == texture_entry_of(ms@, i as int, var@),
        decreases j,
    {
        let m = &ms[j];
        match find_entry(&m.raw.textures, var) {
            Some(k) => {
                return Some(copy_entry(&m.raw.textures[k].1));
            },
            None => {},
        }
        match m.parent {
            Some(p) => {
                j = p;
            },
            None => {
                return None;
            },
        }
    }
}


/// A model read from a pack whose ancestors are still being loaded.
#[derive(Debug)]
pub struct PendingModel {
    pub location: Location,
    pub raw: RawModel,
    pub pack_index: usize,
}

/// What the loader needs next.
#[derive(Debug)]
pub enum LoadStep {
    /// Read the model at this location, searching the packs from this index on, and hand it
    /// to `supply`.
    Need(Location, usize),
    /// The requested model is cached at this index.
    Done(usize),
}

/// Why a model could not be loaded.
#[derive(Debug)]
pub enum ModelError {
    /// The parent chain returns to a model already in it; the chain is listed in order, ending
    /// with the repeated model.
    Cycle(Vec<Location>),
    /// A model was supplied while none was asked for.
    NotWaiting,
}

/// Loads models and links each to its parent, never caching a model before its ancestors.
/// The reading itself is left to the caller, which answers each `Need` with `supply`.
#[derive(Debug)]
pub struct ModelLoader {
    models: Vec<CachedModel>,
    stack: Vec<PendingModel>,
    wanted: Option<Location>,
}

/// The pending models form a chain, each the parent of the one before.
pub open spec fn chain_ok(st: Seq<PendingModel>) -> bool {
    &&& forall|j: int| 0 <= j < st.len() ==> (#[trigger] st[j]).raw.parent_location is Some
    &&& forall|j: int, k: int|
        0 <= j && k == j + 1 && k < st.len() ==> key(#[trigger] st[k].location) == key(
            (#[trigger] st[j]).raw.parent_location->Some_0,
        )
}

/// The pending models form a chain that ends with the model that is asked for.
pub open spec fn stack_ok(st: Seq<PendingModel>, wanted: Option<Location>) -> bool {
    &&& chain_ok(st)
    &&& st.len() > 0 ==> wanted is Some && key(wanted->Some_0) == key(
        st.last().raw.parent_location->Some_0,
    )
}

/// The last location of `c` repeats an earlier one.
pub open spec fn is_cycle(c: Seq<Location>) -> bool {
    exists|j: int| 0 <= j < c.len() - 1 && key(#[trigger] c[j]) == key(c.last())
}

/// The cache entries that pending models `st` become when they are cached from the last to the
/// first, the last linked to `parent` and each other to the one cached before it, the first of
/// them at index `base`.
pub open spec fn unwound(base: int, parent: int, st: Seq<PendingModel>) -> Seq<CachedModel> {
    Seq::new(
        st.len(),
        |k: int|
            CachedModel {
                location: st[st.len() - 1 - k].location,
                raw: st[st.len() - 1 - k].raw,
                parent: Some(
                    if k == 0 {
                        parent as usize
                    } else {
                        (base + k - 1) as usize
                    },
                ),
                pack_index: st[st.len() - 1 - k].pack_index,
            },
    )
}

/// The locations of pending models, in order.
pub open spec fn stack_locations(st: Seq<PendingModel>) -> Seq<Location> {
    st.map_values(|m: PendingModel| m.location)
}

impl ModelLoader {
    /// The cache is linked and the pending chain is consistent.
    pub closed spec fn wf(&self) -> bool {
        cache_ok(self.models@) && stack_ok(self.stack@, self.wanted)
    }

    /// The cached models.
    pub closed spec fn cached(&self) -> Seq<CachedModel> {
        self.models@
    }

    /// The cache of a consistent loader is linked.
    pub proof fn lemma_cache_ok(&self)
        requires
            self.wf(),
        ensures
            cache_ok(self.cached()),
    {
    }

    /// Returns the cached models.
    pub fn models(&self) -> (r: &Vec<CachedModel>)
        ensures
            r@ == self.cached(),
    {
        &self.models
    }

    /// The models read whose ancestors are still being loaded, from the first requested on.
    pub closed spec fn pending(&self) -> Seq<PendingModel> {
        self.stack@
    }

    /// The location the loader asked for last, if it waits for one.
    pub closed spec fn wanted_location(&self) -> Option<Location> {
        self.wanted
    }

    /// No model is being loaded.
    pub closed spec fn idle(&self) -> bool {
        self.stack@.len() == 0 && self.wanted is None
    }

    /// The identity of the model being loaded: the first of the chain.
    pub closed spec fn target(&self) -> (Seq<char>, Seq<char>) {
        if self.stack@.len() > 0 {
            key(self.stack@[0].location)
        } else {
            key(self.wanted->Some_0)
        }
    }

    /// The locations of the chain being loaded, in order, ending with the one asked for.
    pub closed spec fn chain(&self) -> Seq<Location> {
        stack_locations(self.stack@) + if self.wanted is Some {
            seq![self.wanted->Some_0]
        } else {
            Seq::empty()
        }
    }

    /// An empty loader.
    pub fn new() -> (r: ModelLoader)
        ensures
            r.wf(),
            r.idle(),
            r.cached().len() == 0,
    {
        ModelLoader { models: Vec::new(), stack: Vec::new(), wanted: None }
    }

    /// Finds a cached model by location.
    pub fn find(&self, location: &Location) -> (r: Option<usize>)
        ensures
            r is Some ==> r->Some_0 < self.cached().len() && key(self.cached()[r->Some_0 as int].location)
                == key(*location),
            r is None ==> forall|i: int|
                0 <= i < self.cached().len() ==> key((#[trigger] self.cached()[i]).location) != key(
                    *location,
                ),
    {
        let mut i: usize = 0;
        while i < self.models.len()
            invariant
                i <= self.models@.len(),
                forall|j: int|
                    0 <= j < i ==> key((#[trigger] self.models@[j]).location) != key(*location),
            decreases self.models@.len() - i,
        {
            if self.models[i].location.same(location) {
                return Some(i);
            }
            i = i + 1;
        }
        None
    }

    /// Whether no model is being loaded.
    pub fn is_idle(&self) -> (r: bool)
        ensures
            r == self.idle(),
    {
        self.stack.len() == 0 && self.wanted.is_none()
    }

    /// Starts loading the model at `location`, reading from the pack at `pack_index` on.
    pub fn request(&mut self, location: Location, pack_index: usize) -> (r: LoadStep)
        requires
            old(self).wf(),
            old(self).idle(),
        ensures
            final(self).wf(),
            final(self).cached() == old(self).cached(),
            r matches LoadStep::Done(i) ==> i < final(self).cached().len() && key(
                final(self).cached()[i as int].location,
            ) == key(location) && final(self).idle(),
            r matches LoadStep::Need(l, p) ==> l == location && p == pack_index && !final(self).idle()
                && final(self).target() == key(location) && final(self).chain() == seq![location],
            r is Done <==> exists|i: int|
                0 <= i < old(self).cached().len() && key((#[trigger] old(self).cached()[i]).location)
                    == key(location),
    {
        match self.find(&location) {
            Some(i) => LoadStep::Done(i),
            None => {
                self.wanted = Some(location.duplicate());
                proof {
                    assert(stack_locations(self.stack@) =~= Seq::<Location>::empty());
                    assert(self.chain() =~= seq![location]);
                }
                LoadStep::Need(location, pack_index)
            },
        }
    }

    /// Finds a pending model by location.
    fn find_pending(&self, location: &Location) -> (r: bool)
        ensures
            r == exists|j: int|
                0 <= j < self.stack@.len() && key((#[trigger] self.stack@[j]).location) == key(
                    *location,
                ),
    {
        let mut i: usize = 0;
        while i < self.stack.len()
            invariant
                i <= self.stack@.len(),
                forall|j: int|
                    0 <= j < i ==> key((#[trigger] self.stack@[j]).location) != key(*location),
            decreases self.stack@.len() - i,
        {
            if self.stack[i].location.same(location) {
                return true;
            }
            i = i + 1;
        }
        false
    }

    /// Caches the pending models from the last to the first, each linked to the one cached
    /// before it, starting from the model at `parent`.
    #[verifier::rlimit(100)]
    fn unwind(&mut self, parent: usize) -> (r: usize)
        requires
            cache_ok(old(self).models@),
            parent < old(self).models@.len(),
            stack_ok(old(self).stack@, old(self).wanted),
            old(self).stack@.len() > 0 ==> key(old(self).models@[parent as int].location) == key(
                old(self).wanted->Some_0,
            ),
        ensures
            cache_ok(final(self).models@),
            final(self).stack@.len() == 0,
            final(self).wanted == old(self).wanted,
            r < final(self).models@.len(),
            final(self).models@.len() >= old(self).models@.len(),
            forall|i: int| 0 <= i < old(self).models@.len() ==> #[trigger] final(self).models@[i] == old(self).models@[i],
            old(self).stack@.len() > 0 ==> key(final(self).models@[r as int].location) == key(
                old(self).stack@[0].location,
            ),
            old(self).stack@.len() == 0 ==> r == parent,
            final(self).models@ == old(self).models@ + unwound(
                old(self).models@.len() as int,
                parent as int,
                old(self).stack@,
            ),
    {
        let mut current = parent;
        let ghost first = if old(self).stack@.len() > 0 { key(old(self).stack@[0].location) } else { key(self.models@[parent as int].location) };
        let ghost old_models = self.models@;
        while self.stack.len() > 0
            invariant
                cache_ok(self.models@),
                current < self.models@.len(),
                self.models@.len() >= old_models.len(),
                forall|i: int| 0 <= i < old_models.len() ==> #[trigger] self.models@[i] == old_models[i],
                chain_ok(self.stack@),
                self.wanted == old(self).wanted,
                self.stack@.len() > 0 ==> key(self.models@[current as int].location) == key(
                    self.stack@.last().raw.parent_location->Some_0,
                ),
                self.stack@.len() <= old(self).stack@.len(),
                self.stack@ == old(self).stack@.take(self.stack@.len() as int),
                self.stack@.len() < old(self).stack@.len() ==> key(self.models@[current as int].location) == key(old(self).stack@[self.stack@.len() as int].location),
                old(self).stack@.len() == 0 ==> current == parent,
                self.models@ == old_models + unwound(old_models.len() as int, parent as int, old(self).stack@).take(
                    old(self).stack@.len() - self.stack@.len(),
                ),
                current == if self.stack@.len() == old(self).stack@.len() {
                    parent as int
                } else {
                    old_models.len() + (old(self).stack@.len() - self.stack@.len()) - 1
                },
            decreases self.stack@.len(),
        {
            let ghost st = self.stack@;
            let m = self.stack.pop().unwrap();
            let idx = self.models.len();
            let ghost before = self.models@;
            proof {
                assert(m == st.last());
                if st.len() >= 2 {
                    assert(key(st[st.len() - 1].location) == key(st[st.len() - 2].raw.parent_location->Some_0));
                }
            }
            proof {
                lemma_cache_push(before, CachedModel { location: m.location, raw: m.raw, parent: Some(current), pack_index: m.pack_index });
            }
            self.models.push(CachedModel { location: m.location, raw: m.raw, parent: Some(current), pack_index: m.pack_index });
            proof {
                assert(self.stack@ =~= st.drop_last());
                assert(self.stack@ =~= old(self).stack@.take(self.stack@.len() as int));
                let full = unwound(old_models.len() as int, parent as int, old(self).stack@);
                let c = old(self).stack@.len() - st.len();
                assert(st.last() == old(self).stack@[old(self).stack@.len() - 1 - c]);
                assert(self.models@ =~= old_models + full.take(c + 1));
            }
            current = idx;
        }
        proof {
            assert(unwound(old_models.len() as int, parent as int, old(self).stack@).take(
                old(self).stack@.len() as int,
            ) =~= unwound(old_models.len() as int, parent as int, old(self).stack@));
        }
        current
    }

    /// Hands over the model that the last `Need` asked for, read from the pack at `pack_index`.
    #[verifier::rlimit(60)]
    pub fn supply(&mut self, pack_index: usize, raw: RawModel) -> (r: Result<LoadStep, ModelError>)
        requires
            old(self).wf(),
        ensures
            final(self).wf(),
            final(self).cached().len() >= old(self).cached().len(),
            forall|i: int| 0 <= i < old(self).cached().len() ==> #[trigger] final(self).cached()[i] == old(self).cached()[i],
            old(self).idle() ==> r matches Err(ModelError::NotWaiting),
            r is Err ==> final(self).idle(),
            r matches Ok(LoadStep::Done(i)) ==> i < final(self).cached().len() && key(
                final(self).cached()[i as int].location,
            ) == old(self).target() && final(self).idle(),
            r matches Ok(LoadStep::Need(l, p)) ==> p == pack_index && raw.parent_location == Some(l)
                && final(self).target() == old(self).target() && final(self).chain() == old(self).chain().push(l),
            r matches Err(ModelError::Cycle(c)) ==> raw.parent_location is Some,
            r matches Err(ModelError::Cycle(c)) ==> c@ == old(self).chain().push(
                raw.parent_location->Some_0,
            ),
            r matches Err(ModelError::Cycle(c)) ==> is_cycle(c@),
            r matches Err(ModelError::NotWaiting) <==> old(self).idle(),
            r is Err ==> final(self).cached() == old(self).cached(),
            (r matches Ok(LoadStep::Need(_, _))) ==> final(self).cached() == old(self).cached(),
            !old(self).idle() && raw.parent_location is None ==> (r matches Ok(LoadStep::Done(_))),
            !old(self).idle() && raw.parent_location is None ==> final(self).cached() == old(self).cached().push(
                CachedModel {
                    location: old(self).wanted_location()->Some_0,
                    raw,
                    parent: None,
                    pack_index,
                },
            ) + unwound(
                (old(self).cached().len() + 1) as int,
                old(self).cached().len() as int,
                old(self).pending(),
            ),
            !old(self).idle() && raw.parent_location is Some ==> (r matches Err(ModelError::Cycle(_))
                <==> exists|j: int|
                0 <= j < old(self).chain().len() && key(#[trigger] old(self).chain()[j]) == key(
                    raw.parent_location->Some_0,
                )),
            !old(self).idle() && raw.parent_location is Some && !(r is Err) ==> (r matches Ok(
                LoadStep::Done(_),
            ) <==> exists|j: int|
                0 <= j < old(self).cached().len() && key((#[trigger] old(self).cached()[j]).location)
                    == key(raw.parent_location->Some_0)),
            !old(self).idle() && raw.parent_location is Some && (r matches Ok(LoadStep::Done(_)))
                ==> exists|j: int|
                0 <= j < old(self).cached().len() && key((#[trigger] old(self).cached()[j]).location)
                    == key(raw.parent_location->Some_0) && final(self).cached() == old(self).cached()
                    + unwound(
                    old(self).cached().len() as int,
                    j,
                    old(self).pending().push(
                        PendingModel { location: old(self).wanted_location()->Some_0, raw, pack_index },
                    ),
                ),
    {
        let location = match &self.wanted {
            None => {
                return Err(ModelError::NotWaiting);
            },
            Some(l) => l.duplicate(),
        };
        let ghost old_chain = self.chain();
        let ghost old_target = self.target();
        self.wanted = None;
        match &raw.parent_location {
            None => {
                let idx = self.models.len();
                let ghost before = self.models@;
                self.models.push(CachedModel { location, raw, parent: None, pack_index });
                proof {
                    assert forall|i: int| 0 <= i < self.models@.len() implies match (#[trigger] self.models@[i]).parent {
                        Some(p) => p < i && self.models@[i].raw.parent_location is Some && key(self.models@[p as int].location)
                            == key(self.models@[i].raw.parent_location->Some_0),
                        None => self.models@[i].raw.parent_location is None,
                    } by {
                        if i < idx {
                            assert(self.models@[i] == before[i]);
                            if let Some(p) = before[i].parent {
                                assert(self.models@[p as int] == before[p as int]);
                            }
                        }
                    }
                }
                let ghost w = self.wanted;
                self.wanted = Some(location_copy_of(&self.models[idx].location));
                let top = self.unwind(idx);
                self.wanted = None;
                Ok(LoadStep::Done(top))
            },
            Some(p) => {
                let parent = p.duplicate();
                let ghost st = self.stack@;
                self.stack.push(PendingModel { location, raw, pack_index });
                proof {
                    assert(stack_locations(self.stack@) =~= old_chain);
                }
                if self.find_pending(&parent) {
                    let ghost stk = self.stack@;
                    let mut chain: Vec<Location> = Vec::new();
                    let mut i: usize = 0;
                    while i < self.stack.len()
                        invariant
                            self.stack@ == stk,
                            i <= self.stack@.len(),
                            chain@ == stack_locations(self.stack@).take(i as int),
                        decreases self.stack@.len() - i,
                    {
                        chain.push(self.stack[i].location.duplicate());
                        proof {
                            assert(chain@ =~= stack_locations(self.stack@).take(i + 1));
                        }
                        i = i + 1;
                    }
                    let ghost locs = chain@;
                    chain.push(parent);
                    proof {
                        assert(locs =~= stack_locations(self.stack@));
                        let j = choose|j: int| 0 <= j < self.stack@.len() && key((#[trigger] self.stack@[j]).location) == key(parent);
                        assert(chain@[j] == self.stack@[j].location);
                        assert(chain@.last() == parent);
                        assert(key(chain@[j]) == key(chain@.last()));
                        assert(is_cycle(chain@));
                        assert(chain@ =~= old_chain.push(parent));
                    }
                    self.stack = Vec::new();
                    let r = Err(ModelError::Cycle(chain));
                    proof {
                        assert(raw.parent_location == Some(parent));
                        assert(old_chain == old(self).chain());
                    }
                    return r;
                }
                self.wanted = Some(parent.duplicate());
                proof {
                    if st.len() > 0 {
                        let a = self.stack@[st.len() - 1];
                        let b = self.stack@[st.len() as int];
                        assert(a == st.last());
                    }
                }
                match self.find(&parent) {
                    Some(i) => {
                        let top = self.unwind(i);
                        self.wanted = None;
                        Ok(LoadStep::Done(top))
                    },
                    None => {
                        proof {
                            assert(self.chain() =~= old_chain.push(parent));
                        }
                        Ok(LoadStep::Need(parent, pack_index))
                    },
                }
            },
        }
    }
}

/// Adding a model whose parent is already cached keeps the cache linked.
proof fn lemma_cache_push(ms: Seq<CachedModel>, m: CachedModel)
    requires
        cache_ok(ms),
        match m.parent {
            Some(p) => p < ms.len() && m.raw.parent_location is Some && key(ms[p as int].location) == key(
                m.raw.parent_location->Some_0,
            ),
            None => m.raw.parent_location is None,
        },
    ensures
        cache_ok(ms.push(m)),
{
    let n = ms.push(m);
    assert forall|i: int| 0 <= i < n.len() implies match (#[trigger] n[i]).parent {
        Some(p) => p < i && n[i].raw.parent_location is Some && key(n[p as int].location) == key(
            n[i].raw.parent_location->Some_0,
        ),
        None => n[i].raw.parent_location is None,
    } by {
        if i < ms.len() {
            assert(n[i] == ms[i]);
            if let Some(p) = ms[i].parent {
                assert(n[p as int] == ms[p as int]);
            }
        } else {
            if let Some(p) = m.parent {
                assert(n[p as int] == ms[p as int]);
            }
        }
    }
}

/// A copy of a location.
fn location_copy_of(l: &Location) -> (r: Location)
    ensures
        r == *l,
{
    l.duplicate()
}


/// Why a texture variable did not resolve to a texture.
#[derive(Debug)]
pub enum TextureVarError {
    /// No model of the chain defines this variable.
    Undefined(String),
    /// The variables refer to each other in a loop; listed in order, ending with the repeated
    /// one.
    Cycle(Vec<String>),
}

/// Each variable of `vars` is defined, for model `i`, as a reference to the next.
pub open spec fn var_chain(ms: Seq<CachedModel>, i: int, vars: Seq<Seq<char>>) -> bool {
    forall|k: int|
        0 <= k < vars.len() - 1 ==> refers_to(texture_entry_of(ms, i, #[trigger] vars[k]), vars[k + 1])
}

/// Whether an entry is a reference to variable `next`.
pub open spec fn refers_to(e: Option<TextureEntry>, next: Seq<char>) -> bool {
    match e {
        Some(TextureEntry::Variable(v)) => v@ == next,
        _ => false,
    }
}

/// The names of the texture entries of the first `n` cached models.
pub open spec fn keys_upto(ms: Seq<CachedModel>, n: int) -> Seq<Seq<char>>
    decreases n,
{
    if n <= 0 {
        Seq::empty()
    } else {
        keys_upto(ms, n - 1) + ms[n - 1].raw.textures@.map_values(|e: (String, TextureEntry)| e.0@)
    }
}

proof fn lemma_keys_contain(ms: Seq<CachedModel>, n: int, j: int, k: int)
    requires
        0 <= j < n <= ms.len(),
        0 <= k < ms[j].raw.textures@.len(),
    ensures
        keys_upto(ms, n).contains(ms[j].raw.textures@[k].0@),
    decreases n,
{
    let prev = keys_upto(ms, n - 1);
    let last = ms[n - 1].raw.textures@.map_values(|e: (String, TextureEntry)| e.0@);
    if j == n - 1 {
        assert(keys_upto(ms, n)[prev.len() + k] == last[k]);
    } else {
        lemma_keys_contain(ms, n - 1, j, k);
        let x = choose|x: int| 0 <= x < prev.len() && prev[x] == ms[j].raw.textures@[k].0@;
        assert(keys_upto(ms, n)[x] == prev[x]);
    }
}

proof fn lemma_defined_is_key(ms: Seq<CachedModel>, i: int, var: Seq<char>)
    requires
        cache_ok(ms),
        0 <= i < ms.len(),
        texture_entry_of(ms, i, var) is Some,
    ensures
        keys_upto(ms, ms.len() as int).contains(var),
    decreases i,
{
    lemma_entry_index(ms[i].raw.textures@, var, 0);
    match entry_index(ms[i].raw.textures@, var, 0) {
        Some(k) => {
            lemma_keys_contain(ms, ms.len() as int, i, k);
        },
        None => {
            lemma_defined_is_key(ms, ms[i].parent->Some_0 as int, var);
        },
    }
}

proof fn lemma_distinct_bound(s: Seq<Seq<char>>, keys: Seq<Seq<char>>)
    requires
        s.no_duplicates(),
        forall|x: int| 0 <= x < s.len() ==> keys.contains(#[trigger] s[x]),
    ensures
        s.len() <= keys.len(),
{
    broadcast use vstd::seq_lib::seq_to_set_is_finite;
    s.unique_seq_to_set();
    keys.lemma_cardinality_of_set();
    assert(s.to_set().subset_of(keys.to_set()));
    vstd::set_lib::lemma_len_subset(s.to_set(), keys.to_set());
}

/// Variable `var` of model `i` resolves, through a chain of variables, to texture `loc`.
pub open spec fn resolves_to(ms: Seq<CachedModel>, i: int, var: Seq<char>, loc: Location) -> bool {
    exists|vars: Seq<Seq<char>>|
        vars.len() > 0 && vars[0] == var && var_chain(ms, i, vars) && #[trigger] texture_entry_of(
            ms,
            i,
            vars.last(),
        ) == Some(TextureEntry::Location(loc))
}

/// Why variable `var` of model `i` does not resolve: following the chain of variables reaches
/// one that no model of the chain defines, or comes back to one already followed (the chain is
/// listed without repeats but for its last, repeated, entry).
pub open spec fn texture_failure(ms: Seq<CachedModel>, i: int, var: Seq<char>, e: TextureVarError) -> bool {
    match e {
        TextureVarError::Undefined(v) => exists|vars: Seq<Seq<char>>|
            vars.len() > 0 && vars[0] == var && var_chain(ms, i, vars) && vars.last() == v@
                && #[trigger] texture_entry_of(ms, i, vars.last()) is None,
        TextureVarError::Cycle(c) => {
            let cv = c@.map_values(|x: String| x@);
            &&& cv.len() >= 2
            &&& cv[0] == var
            &&& var_chain(ms, i, cv)
            &&& forall|x: int, y: int| 0 <= x < y < cv.len() - 1 ==> #[trigger] cv[x] != #[trigger] cv[y]
            &&& exists|j: int| 0 <= j < cv.len() - 1 && #[trigger] cv[j] == cv.last()
        },
    }
}

/// Two chains of variables from the same start agree where both are defined.
proof fn lemma_chains_agree(ms: Seq<CachedModel>, i: int, a: Seq<Seq<char>>, b: Seq<Seq<char>>, k: int)
    requires
        a.len() > 0,
        b.len() > 0,
        a[0] == b[0],
        var_chain(ms, i, a),
        var_chain(ms, i, b),
        0 <= k < a.len(),
        k < b.len(),
    ensures
        a[k] == b[k],
    decreases k,
{
    if k > 0 {
        lemma_chains_agree(ms, i, a, b, k - 1);
        assert(refers_to(texture_entry_of(ms, i, a[k - 1]), a[k]));
        assert(refers_to(texture_entry_of(ms, i, b[k - 1]), b[k]));
    }
}

/// A variable that resolves to a texture neither reaches an undefined variable nor a cycle.
proof fn lemma_resolved_is_no_failure(ms: Seq<CachedModel>, i: int, var: Seq<char>, loc: Location, e: TextureVarError)
    requires
        resolves_to(ms, i, var, loc),
    ensures
        !texture_failure(ms, i, var, e),
{
    if texture_failure(ms, i, var, e) {
        lemma_failure_contradiction(ms, i, var, loc, e);
    }
}

proof fn lemma_failure_contradiction(ms: Seq<CachedModel>, i: int, var: Seq<char>, loc: Location, e: TextureVarError)
    requires
        resolves_to(ms, i, var, loc),
        texture_failure(ms, i, var, e),
    ensures
        !texture_failure(ms, i, var, e),
{
    let b = choose|vars: Seq<Seq<char>>|
        vars.len() > 0 && vars[0] == var && var_chain(ms, i, vars) && #[trigger] texture_entry_of(
            ms,
            i,
            vars.last(),
        ) == Some(TextureEntry::Location(loc));
    match e {
        TextureVarError::Undefined(v) => {
            let a = choose|vars: Seq<Seq<char>>|
                vars.len() > 0 && vars[0] == var && var_chain(ms, i, vars) && vars.last() == v@
                    && #[trigger] texture_entry_of(ms, i, vars.last()) is None;
            if a.len() <= b.len() {
                lemma_chains_agree(ms, i, a, b, a.len() - 1);
                if a.len() < b.len() {
                    assert(refers_to(texture_entry_of(ms, i, b[a.len() - 1]), b[a.len() as int]));
                }
            } else {
                lemma_chains_agree(ms, i, a, b, b.len() - 1);
                assert(refers_to(texture_entry_of(ms, i, a[b.len() - 1]), a[b.len() as int]));
            }
        },
        TextureVarError::Cycle(c) => {
            let cv = c@.map_values(|x: String| x@);
            let n = cv.len();
            let j = choose|j: int| 0 <= j < cv.len() - 1 && #[trigger] cv[j] == cv.last();
            lemma_in_cycle(ms, i, cv, j, b, b.len() - 1);
            let m = choose|m: int| 0 <= m < n - 1 && b[b.len() - 1] == cv[m];
            assert(refers_to(texture_entry_of(ms, i, cv[m]), cv[m + 1]));
        },
    }
}

/// Every variable of a chain from the start of a cycle is among the cycle's variables.
proof fn lemma_in_cycle(ms: Seq<CachedModel>, i: int, cv: Seq<Seq<char>>, j: int, b: Seq<Seq<char>>, k: int)
    requires
        cv.len() >= 2,
        var_chain(ms, i, cv),
        0 <= j < cv.len() - 1,
        cv[j] == cv.last(),
        b.len() > 0,
        b[0] == cv[0],
        var_chain(ms, i, b),
        0 <= k < b.len(),
    ensures
        exists|m: int| 0 <= m < cv.len() - 1 && b[k] == cv[m],
    decreases k,
{
    if k == 0 {
        assert(b[0] == cv[0]);
    } else {
        lemma_in_cycle(ms, i, cv, j, b, k - 1);
        let m = choose|m: int| 0 <= m < cv.len() - 1 && b[k - 1] == cv[m];
        assert(refers_to(texture_entry_of(ms, i, cv[m]), cv[m + 1]));
        assert(refers_to(texture_entry_of(ms, i, b[k - 1]), b[k]));
        if m + 1 < cv.len() - 1 {
            assert(b[k] == cv[m + 1]);
        } else {
            assert(b[k] == cv[j]);
        }
    }
}

/// Whether `var` occurs in `stack`.
fn on_stack(stack: &Vec<String>, var: &String) -> (r: bool)
    ensures
        r == exists|j: int| 0 <= j < stack@.len() && (#[trigger] stack@[j])@ == var@,
{
    let mut j: usize = 0;
    while j < stack.len()
        invariant
            j <= stack@.len(),
            forall|x: int| 0 <= x < j ==> (#[trigger] stack@[x])@ != var@,
        decreases stack@.len() - j,
    {
        if stack[j] == *var {
            return true;
        }
        j = j + 1;
    }
    false
}

/// Resolves texture variable `var` of model `i` to a texture location, following variables
/// that refer to other variables.
#[verifier::rlimit(60)]
pub fn resolve_texture(ms: &Vec<CachedModel>, i: usize, var: &str) -> (r: Result<
    Location,
    TextureVarError,
>)
    requires
        cache_ok(ms@),
        i < ms@.len(),
    ensures
        r is Ok ==> resolves_to(ms@, i as int, var@, r->Ok_0),
        r matches Err(e) ==> texture_failure(ms@, i as int, var@, e),
        (exists|loc: Location| resolves_to(ms@, i as int, var@, loc)) ==> r is Ok,
{
    let ghost keys = keys_upto(ms@, ms@.len() as int);
    let mut stack: Vec<String> = Vec::new();
    let mut current = var.to_owned();
    loop
        invariant
            cache_ok(ms@),
            i < ms@.len(),
            keys == keys_upto(ms@, ms@.len() as int),
            forall|x: int| 0 <= x < stack@.len() ==> keys.contains(#[trigger] stack@[x]@),
            stack@.len() <= keys.len(),
            var_chain(ms@, i as int, views(stack@).push(current@)),
            views(stack@).push(current@)[0] == var@,
            forall|x: int, y: int| 0 <= x < y < stack@.len() ==> (#[trigger] stack@[x])@ != (#[trigger] stack@[y])@,
            forall|x: int| 0 <= x < stack@.len() ==> (#[trigger] stack@[x])@ != current@,
        decreases keys.len() - stack@.len(),
    {
        match find_texture_entry(ms, i, current.as_str()) {
            Some(TextureEntry::Location(l)) => {
                proof {
                    let vars = views(stack@).push(current@);
                    assert(vars.last() == current@);
                    assert(texture_entry_of(ms@, i as int, vars.last()) == Some(TextureEntry::Location(l)));
                }
                return Ok(l);
            },
            Some(TextureEntry::Variable(next)) => {
                let ghost before = views(stack@).push(current@);
                proof {
                    lemma_defined_is_key(ms@, i as int, current@);
                }
                let ghost old_stack = stack@;
                stack.push(current);
                let ghost now = views(stack@).push(next@);
                proof {
                    assert(views(stack@) =~= before);
                    assert forall|k: int| 0 <= k < now.len() - 1 implies refers_to(texture_entry_of(ms@, i as int, #[trigger] now[k]), now[k + 1]) by {
                        assert(now[k] == before[k]);
                        if k < before.len() - 1 {
                            assert(now[k + 1] == before[k + 1]);
                        }
                    }
                    assert(now[0] == before[0]);
                }
                if on_stack(&stack, &next) {
                    let ghost prior = stack@;
                    stack.push(next);
                    let ghost cv = stack@.map_values(|x: String| x@);
                    proof {
                        assert(cv =~= now);
                        let j = choose|j: int| 0 <= j < prior.len() && (#[trigger] prior[j])@ == stack@.last()@;
                        assert(stack@[j] == prior[j]);
                        assert(cv[j] == cv.last());
                        assert forall|x: int, y: int| 0 <= x < y < cv.len() - 1 implies #[trigger] cv[x] != #[trigger] cv[y] by {
                            assert(cv[x] == prior[x]@ && cv[y] == prior[y]@);
                            if y == prior.len() - 1 {
                                assert(prior[y]@ == before.last());
                                assert(x < old_stack.len());
                                assert(prior[x] == old_stack[x]);
                            } else {
                                assert(prior[x] == old_stack[x] && prior[y] == old_stack[y]);
                            }
                        }
                    }
                    let r = Err(TextureVarError::Cycle(stack));
                    proof {
                        assert(texture_failure(ms@, i as int, var@, r->Err_0));
                        if exists|loc: Location| resolves_to(ms@, i as int, var@, loc) {
                            let loc = choose|loc: Location| resolves_to(ms@, i as int, var@, loc);
                            lemma_resolved_is_no_failure(ms@, i as int, var@, loc, r->Err_0);
                        }
                    }
                    return r;
                }
                current = next;
                proof {
                    let vs = views(stack@);
                    assert forall|x: int| 0 <= x < stack@.len() implies keys.contains(#[trigger] stack@[x]@) by {
                        if x < stack@.len() - 1 {
                            assert(stack@[x] == old_stack[x]);
                        }
                    }
                    assert(vs.no_duplicates()) by {
                        assert forall|x: int, y: int| 0 <= x < vs.len() && 0 <= y < vs.len() && x != y implies vs[x] != vs[y] by {
                            if x < y {
                                assert(stack@[x]@ != stack@[y]@);
                            } else {
                                assert(stack@[y]@ != stack@[x]@);
                            }
                        }
                    }
                    assert forall|x: int| 0 <= x < vs.len() implies keys.contains(#[trigger] vs[x]) by {
                        assert(vs[x] == stack@[x]@);
                    }
                    lemma_distinct_bound(vs, keys);
                }
                proof {
                    assert forall|x: int, y: int| 0 <= x < y < stack@.len() implies (#[trigger] stack@[x])@ != (#[trigger] stack@[y])@ by {
                        if y == stack@.len() - 1 {
                            assert(stack@[y]@ == before.last());
                        }
                    }
                }
            },
            None => {
                proof {
                    let vars = views(stack@).push(current@);
                    assert(vars.last() == current@);
                    assert(vars.len() > 0 && vars[0] == var@ && var_chain(ms@, i as int, vars));
                    let e = TextureVarError::Undefined(current);
                    assert(texture_failure(ms@, i as int, var@, e));
                    if exists|loc: Location| resolves_to(ms@, i as int, var@, loc) {
                        let loc = choose|loc: Location| resolves_to(ms@, i as int, var@, loc);
                        lemma_resolved_is_no_failure(ms@, i as int, var@, loc, e);
                    }
                }
                return Err(TextureVarError::Undefined(current));
            },
        }
    }
}


/// Shows a chain of model locations as `a -> b -> c`.
pub fn chain_text(chain: &Vec<Location>) -> (r: String)
    ensures
        r@ == crate::text::arrow_joined(chain@.map_values(|l: Location| l@)),
{
    let mut names: Vec<String> = Vec::new();
    let mut i: usize = 0;
    while i < chain.len()
        invariant
            i <= chain@.len(),
            views(names@) == chain@.map_values(|l: Location| l@).take(i as int),
        decreases chain@.len() - i,
    {
        let text = chain[i].as_str();
        let name = crate::text::piece_of(text, 0, vstd::string::StrSliceExecFns::unicode_len(text));
        assert(name@ =~= chain@[i as int]@);
        let ghost before = names@;
        names.push(name);
        proof {
            let target = chain@.map_values(|l: Location| l@).take(i + 1);
            let prior = chain@.map_values(|l: Location| l@).take(i as int);
            assert(views(before).len() == before.len());
            assert(prior.len() == i);
            assert(before.len() == i);
            assert(names@ == before.push(name));
            assert forall|j: int| 0 <= j < i + 1 implies views(names@)[j] == target[j] by {
                if j < i {
                    assert(names@[j] == before[j]);
                    assert(views(before)[j] == prior[j]);
                }
            }
            assert(views(names@) =~= target);
        }
        i = i + 1;
    }
    assert(chain@.map_values(|l: Location| l@).take(chain@.len() as int) =~= chain@.map_values(|l: Location| l@));
    crate::text::join_arrows(&names)
}

} // verus!
