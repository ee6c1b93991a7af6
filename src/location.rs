//! Resource locations: `namespace:path`, with `minecraft` as the namespace when none is given.
use vstd::prelude::*;
use vstd::string::StrSliceExecFns;

use crate::text::{find_char, next_index_of, piece_of};

verus! {

/// Which part of a resource location an error is about.
#[derive(Clone, Copy, Debug, PartialEq, Eq, Structural)]
pub enum LocationPart {
    Namespace,
    Path,
}

/// What is wrong with a part of a resource location.
#[derive(Clone, Copy, Debug, PartialEq, Eq, Structural)]
pub enum LocationErrorKind {
    Empty,
    IllegalCharacter(char),
}

/// Why a string is not a resource location.
#[derive(Clone, Copy, Debug, PartialEq, Eq, Structural)]
pub struct ParseLocationError {
    pub part: LocationPart,
    pub kind: LocationErrorKind,
}

impl ParseLocationError {
    /// The part is empty.
    pub fn empty(part: LocationPart) -> (r: Self)
        ensures
            r == (ParseLocationError { part, kind: LocationErrorKind::Empty }),
    {
        ParseLocationError { part, kind: LocationErrorKind::Empty }
    }

    /// The part holds the character `c`, which it may not.
    pub fn illegal_char(part: LocationPart, c: char) -> (r: Self)
        ensures
            r == (ParseLocationError { part, kind: LocationErrorKind::IllegalCharacter(c) }),
    {
        ParseLocationError { part, kind: LocationErrorKind::IllegalCharacter(c) }
    }
}

/// Characters allowed in a namespace; a path also allows `/`.
pub open spec fn is_legal(c: char) -> bool {
    ('0' <= c && c <= '9') || ('a' <= c && c <= 'z') || c == '_' || c == '-' || c == '.'
}

/// The first character of `s` from `k` on that a part may not hold.
pub open spec fn first_illegal(s: Seq<char>, k: int, slash_ok: bool) -> Option<char>
    decreases s.len() - k,
{
    if k < 0 || k >= s.len() {
        None
    } else if !(is_legal(s[k]) || (slash_ok && s[k] == '/')) {
        Some(s[k])
    } else {
        first_illegal(s, k + 1, slash_ok)
    }
}

/// Where the namespace of `s` ends: at its first `:`, or `s.len()` when it has none.
pub open spec fn colon_of(s: Seq<char>) -> int {
    next_index_of(s, 0, s.len() as int, ':')
}

/// The namespace and path that `s` spells, before any check.
pub open spec fn parts_of(s: Seq<char>) -> (Seq<char>, Seq<char>) {
    if colon_of(s) < s.len() {
        (s.take(colon_of(s)), s.skip(colon_of(s) + 1))
    } else {
        (seq!['m', 'i', 'n', 'e', 'c', 'r', 'a', 'f', 't'], s)
    }
}

/// What is wrong with `s` as a resource location, if anything.
pub open spec fn location_error(s: Seq<char>) -> Option<ParseLocationError> {
    let has_ns = colon_of(s) < s.len();
    let ns = parts_of(s).0;
    let path = parts_of(s).1;
    if has_ns && ns.len() == 0 {
        Some(ParseLocationError { part: LocationPart::Namespace, kind: LocationErrorKind::Empty })
    } else if has_ns && first_illegal(ns, 0, false) is Some {
        Some(
            ParseLocationError {
                part: LocationPart::Namespace,
                kind: LocationErrorKind::IllegalCharacter(first_illegal(ns, 0, false)->Some_0),
            },
        )
    } else if path.len() == 0 {
        Some(ParseLocationError { part: LocationPart::Path, kind: LocationErrorKind::Empty })
    } else if first_illegal(path, 0, true) is Some {
        Some(
            ParseLocationError {
                part: LocationPart::Path,
                kind: LocationErrorKind::IllegalCharacter(first_illegal(path, 0, true)->Some_0),
            },
        )
    } else {
        None
    }
}

/// A checked resource location.
#[derive(Clone, Debug, PartialEq, Eq, Hash)]
pub struct Location {
    inner: String,
}

impl View for Location {
    type V = Seq<char>;

    closed spec fn view(&self) -> Seq<char> {
        self.inner@
    }
}

/// Finds the first character from `lo` to `hi` that a part may not hold.
fn find_illegal(s: &str, lo: usize, hi: usize, slash_ok: bool) -> (r: Option<char>)
    requires
        lo <= hi <= s@.len(),
    ensures
        r == first_illegal(s@.subrange(lo as int, hi as int), 0, slash_ok),
{
    let ghost sub = s@.subrange(lo as int, hi as int);
    let mut i = lo;
    while i < hi
        invariant
            lo <= i <= hi <= s@.len(),
            sub == s@.subrange(lo as int, hi as int),
            first_illegal(sub, (i - lo) as int, slash_ok) == first_illegal(sub, 0, slash_ok),
        decreases hi - i,
    {
        let c = s.get_char(i);
        assert(sub[(i - lo) as int] == c);
        let legal = ('0' <= c && c <= '9') || ('a' <= c && c <= 'z') || c == '_' || c == '-' || c
            == '.';
        if !(legal || (slash_ok && c == '/')) {
            return Some(c);
        }
        i = i + 1;
    }
    None
}

impl Location {
    /// Creates a new `Location` by parsing the given string.
    pub fn new(s: &str) -> (r: Result<Location, ParseLocationError>)
        ensures
            r is Ok <==> location_error(s@) is None,
            r is Ok ==> r->Ok_0@ == s@,
            r is Err ==> r == Err::<Location, ParseLocationError>(location_error(s@)->Some_0),
    {
        let n = s.unicode_len();
        let colon = find_char(s, 0, n, ':');
        let path_start = if colon < n {
            if colon == 0 {
                return Err(ParseLocationError::empty(LocationPart::Namespace));
            }
            assert(s@.subrange(0, colon as int) =~= s@.take(colon as int));
            match find_illegal(s, 0, colon, false) {
                Some(c) => {
                    return Err(ParseLocationError::illegal_char(LocationPart::Namespace, c));
                },
                None => {},
            }
            colon + 1
        } else {
            0
        };
        assert(s@.subrange(path_start as int, n as int) =~= parts_of(s@).1);
        if path_start == n {
            return Err(ParseLocationError::empty(LocationPart::Path));
        }
        match find_illegal(s, path_start, n, true) {
            Some(c) => Err(ParseLocationError::illegal_char(LocationPart::Path, c)),
            None => Ok(Location { inner: piece_of(s, 0, n) }),
        }
    }

    /// A copy of the location.
    pub fn duplicate(&self) -> (r: Location)
        ensures
            r == *self,
    {
        Location { inner: self.inner.clone() }
    }

    /// Returns the underlying string.
    pub fn as_str(&self) -> (r: &str)
        ensures
            r@ == self@,
    {
        self.inner.as_str()
    }

    /// Returns the namespace and path parts making up the resource location.
    pub fn as_parts(&self) -> (r: (String, String))
        ensures
            r.0@ == parts_of(self@).0,
            r.1@ == parts_of(self@).1,
    {
        let s = self.inner.as_str();
        let n = s.unicode_len();
        let colon = find_char(s, 0, n, ':');
        if colon < n {
            let ns = piece_of(s, 0, colon);
            let path = piece_of(s, colon + 1, n);
            assert(ns@ =~= s@.take(colon as int));
            assert(path@ =~= s@.skip(colon + 1));
            (ns, path)
        } else {
            proof {
                reveal_strlit("minecraft");
                assert("minecraft"@ =~= seq!['m', 'i', 'n', 'e', 'c', 'r', 'a', 'f', 't']);
            }
            let path = piece_of(s, 0, n);
            assert(path@ =~= s@);
            ("minecraft".to_owned(), path)
        }
    }

    /// Returns the path part of the resource location.
    pub fn path(&self) -> (r: String)
        ensures
            r@ == parts_of(self@).1,
    {
        self.as_parts().1
    }

    /// Whether two locations name the same resource: same namespace, same path.
    pub fn same(&self, other: &Location) -> (r: bool)
        ensures
            r == (parts_of(self@) == parts_of(other@)),
    {
        let (a0, a1) = self.as_parts();
        let (b0, b1) = other.as_parts();
        a0 == b0 && a1 == b1
    }
}

} // verus!
