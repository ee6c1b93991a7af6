//! Resource pack overlay: an ordered list of packs where earlier packs override later ones, and
//! the fixed paths of assets inside a pack.
use vstd::prelude::*;
use vstd::string::{StrSliceExecFns, StringExecFns};

use crate::location::{parts_of, Location};

verus! {

/// The files one pack holds, by path.
#[derive(Clone, Debug)]
pub struct PackIndex {
    pub files: Vec<String>,
}

/// Resource packs, where packs of lower indices override packs of higher indices.
#[derive(Clone, Debug)]
pub struct Packs {
    pub inner: Vec<PackIndex>,
}

/// Whether pack `p` holds the file at `path`.
pub open spec fn holds(p: PackIndex, path: Seq<char>) -> bool {
    exists|k: int| 0 <= k < p.files@.len() && (#[trigger] p.files@[k])@ == path
}

impl PackIndex {
    /// Whether the pack holds the file at `path`.
    pub fn contains(&self, path: &str) -> (r: bool)
        ensures
            r == holds(*self, path@),
    {
        let mut k: usize = 0;
        while k < self.files.len()
            invariant
                k <= self.files@.len(),
                forall|j: int| 0 <= j < k ==> (#[trigger] self.files@[j])@ != path@,
            decreases self.files@.len() - k,
        {
            let f = self.files[k].as_str();
            let n = f.unicode_len();
            if crate::text::piece_is(f, 0, n, path) {
                assert(f@.subrange(0, n as int) =~= f@);
                return true;
            }
            assert(f@.subrange(0, n as int) =~= f@);
            k = k + 1;
        }
        false
    }
}

impl Packs {
    /// Finds the first pack, from `starting_index` on, that holds the file at `path`.
    pub fn find_file(&self, starting_index: usize, path: &str) -> (r: Option<usize>)
        ensures
            r matches Some(i) ==> starting_index <= i < self.inner@.len() && holds(
                self.inner@[i as int],
                path@,
            ),
            r matches Some(i) ==> forall|j: int|
                starting_index <= j < i ==> !holds(#[trigger] self.inner@[j], path@),
            r is None ==> forall|j: int|
                starting_index <= j < self.inner@.len() ==> !holds(#[trigger] self.inner@[j], path@),
    {
        let mut i = starting_index;
        while i < self.inner.len()
            invariant
                starting_index <= i,
                forall|j: int| starting_index <= j < i && j < self.inner@.len() ==> !holds(#[trigger] self.inner@[j], path@),
            decreases self.inner@.len() - i,
        {
            if self.inner[i].contains(path) {
                return Some(i);
            }
            i = i + 1;
        }
        None
    }
}

/// `assets/<namespace>/<kind>/<path><suffix>`.
pub open spec fn asset_path(ns: Seq<char>, kind: Seq<char>, path: Seq<char>, suffix: Seq<char>) -> Seq<char> {
    seq!['a', 's', 's', 'e', 't', 's', '/'] + ns + seq!['/'] + kind + seq!['/'] + path + suffix
}

/// Builds `assets/<namespace>/<kind>/<path><suffix>`.
fn build_asset_path(ns: &str, kind: &str, path: &str, suffix: &str) -> (r: String)
    ensures
        r@ == asset_path(ns@, kind@, path@, suffix@),
{
    proof {
        reveal_strlit("assets/");
        reveal_strlit("/");
    }
    let mut s = String::from_str("assets/");
    s.append(ns);
    s.append("/");
    s.append(kind);
    s.append("/");
    s.append(path);
    s.append(suffix);
    assert(s@ =~= asset_path(ns@, kind@, path@, suffix@));
    s
}

/// The path of the blockstate file of the block kind named `name` (in the default namespace).
pub fn blockstate_path(name: &str) -> (r: String)
    ensures
        r@ == asset_path(
            seq!['m', 'i', 'n', 'e', 'c', 'r', 'a', 'f', 't'],
            seq!['b', 'l', 'o', 'c', 'k', 's', 't', 'a', 't', 'e', 's'],
            name@,
            seq!['.', 'j', 's', 'o', 'n'],
        ),
{
    proof {
        reveal_strlit("minecraft");
        reveal_strlit("blockstates");
        reveal_strlit(".json");
    }
    build_asset_path("minecraft", "blockstates", name, ".json")
}

/// The path of the model file at `location`.
pub fn model_path(location: &Location) -> (r: String)
    ensures
        r@ == asset_path(
            parts_of(location@).0,
            seq!['m', 'o', 'd', 'e', 'l', 's'],
            parts_of(location@).1,
            seq!['.', 'j', 's', 'o', 'n'],
        ),
{
    proof {
        reveal_strlit("models");
        reveal_strlit(".json");
    }
    let (ns, path) = location.as_parts();
    build_asset_path(ns.as_str(), "models", path.as_str(), ".json")
}

/// The path of the texture image at `location`.
pub fn texture_path(location: &Location) -> (r: String)
    ensures
        r@ == asset_path(
            parts_of(location@).0,
            seq!['t', 'e', 'x', 't', 'u', 'r', 'e', 's'],
            parts_of(location@).1,
            seq!['.', 'p', 'n', 'g'],
        ),
{
    proof {
        reveal_strlit("textures");
        reveal_strlit(".png");
    }
    let (ns, path) = location.as_parts();
    build_asset_path(ns.as_str(), "textures", path.as_str(), ".png")
}

/// The path of the animation metadata beside the texture image at `location`.
pub fn texture_meta_path(location: &Location) -> (r: String)
    ensures
        r@ == asset_path(
            parts_of(location@).0,
            seq!['t', 'e', 'x', 't', 'u', 'r', 'e', 's'],
            parts_of(location@).1,
            seq!['.', 'p', 'n', 'g', '.', 'm', 'c', 'm', 'e', 't', 'a'],
        ),
{
    proof {
        reveal_strlit("textures");
        reveal_strlit(".png.mcmeta");
    }
    let (ns, path) = location.as_parts();
    build_asset_path(ns.as_str(), "textures", path.as_str(), ".png.mcmeta")
}

} // verus!
