//! Paths and the rules that make them valid.
//!
//! A path names a file or directory as
//! `<drive>:/[<directory>/]...<filename>.<extension>`.  The drive
//! specifier is any run of characters without `:` or `/`; after it, the
//! rest of an absolute path starts with `/` and holds no further `:`.
//! A path without a drive specifier is relative and must not start with
//! `/`.  Control characters are never allowed.
//!
//! The rules are stated over the path's bytes, which is how a path
//! crosses the boundary.  The separators are ASCII, so they never occur
//! inside a longer encoded character, and the control characters are
//! the C0 range with delete (single bytes below 32, or 127) and the C1
//! range (a 194 lead byte followed by 128 through 159).

use vstd::prelude::*;
use vstd::string::StringSliceAdditionalSpecFns;

use crate::error::Error;

verus! {

/// Maximum length of a path to a file, in bytes: what a fixed path
/// buffer should hold.
pub const MAX_PATH_LEN: usize = 64;

/// The byte value of the separator between directory names.
pub const PATH_SEP: u8 = 47;

/// The byte value of the separator after a drive specifier.
pub const DRIVE_SEP: u8 = 58;

/// Whether the bytes hold no control character: no single byte of the
/// C0 range or delete, and no two-byte encoding of the C1 range.
pub open spec fn control_free(b: Seq<u8>) -> bool {
    &&& forall|i: int| 0 <= i < b.len() ==> 32 <= #[trigger] b[i] && b[i] != 127
    &&& forall|i: int|
        0 <= i && i + 1 < b.len() ==> !(#[trigger] b[i] == 194 && 128 <= b[i + 1] <= 159)
}

/// Whether `k` is the position of the drive separator and the bytes
/// around it obey the drive rules: nothing before it is a separator of
/// either kind, nothing after it is another drive separator, and what
/// follows it, if anything, starts at the root.
pub open spec fn drive_split_at(b: Seq<u8>, k: int) -> bool {
    &&& 0 <= k < b.len()
    &&& b[k] == DRIVE_SEP
    &&& forall|i: int| 0 <= i < k ==> #[trigger] b[i] != DRIVE_SEP && b[i] != PATH_SEP
    &&& forall|i: int| k < i < b.len() ==> #[trigger] b[i] != DRIVE_SEP
    &&& (k + 1 < b.len() ==> b[k + 1] == PATH_SEP)
}

/// Whether the bytes form a valid path: non-empty, free of control
/// characters, and either split by exactly one drive separator obeying
/// the drive rules, or drive-less and not starting at the root.
pub open spec fn valid_path(b: Seq<u8>) -> bool {
    &&& b.len() > 0
    &&& control_free(b)
    &&& if exists|i: int| 0 <= i < b.len() && #[trigger] b[i] == DRIVE_SEP {
        exists|k: int| #[trigger] drive_split_at(b, k)
    } else {
        b[0] != PATH_SEP
    }
}

/// The position of the first occurrence of `target`, if there is one.
fn find_first(b: &[u8], target: u8) -> (r: Option<usize>)
    ensures
        r matches Some(i) ==> i < b@.len() && b@[i as int] == target && forall|j: int|
            0 <= j < i ==> b@[j] != target,
        r is None ==> forall|j: int| 0 <= j < b@.len() ==> b@[j] != target,
{
    let mut i: usize = 0;
    while i < b.len()
        invariant
            i <= b@.len(),
            forall|j: int| 0 <= j < i ==> b@[j] != target,
        decreases b@.len() - i,
    {
        if b[i] == target {
            return Some(i);
        }
        i = i + 1;
    }
    None
}

/// Check a string against the path rules.
pub fn validate_path(s: &str) -> (r: bool)
    ensures
        r == valid_path(s.spec_bytes()),
{
    let b = s.as_bytes();
    if b.len() == 0 {
        return false;
    }
    let mut i: usize = 0;
    while i < b.len()
        invariant
            i <= b@.len(),
            b@ == s.spec_bytes(),
            b@.len() > 0,
            forall|j: int| 0 <= j < i ==> 32 <= #[trigger] b@[j] && b@[j] != 127,
            forall|j: int|
                0 <= j && j + 1 < i ==> !(#[trigger] b@[j] == 194 && 128 <= b@[j + 1] <= 159),
        decreases b@.len() - i,
    {
        if b[i] < 32 || b[i] == 127 {
            return false;
        }
        if i > 0 && b[i - 1] == 194 && 128 <= b[i] && b[i] <= 159 {
            return false;
        }
        i = i + 1;
    }
    let found = find_first(b, DRIVE_SEP);
    let k = match found {
        None => {
            return b[0] != PATH_SEP;
        },
        Some(k) => k,
    };
    assert(b@[k as int] == DRIVE_SEP);
    let mut m: usize = 0;
    while m < k
        invariant
            m <= k,
            k < b@.len(),
            b@ == s.spec_bytes(),
            b@.len() > 0,
            b@[k as int] == DRIVE_SEP,
            forall|j: int| 0 <= j < k ==> b@[j] != DRIVE_SEP,
            forall|t: int| 0 <= t < m ==> #[trigger] b@[t] != PATH_SEP,
        decreases k - m,
    {
        if b[m] == PATH_SEP {
            proof {
                lemma_no_other_split(b@, k as int);
                assert(!drive_split_at(b@, k as int));
            }
            return false;
        }
        m = m + 1;
    }
    let mut t: usize = k + 1;
    while t < b.len()
        invariant
            k < t,
            t <= b@.len(),
            b@ == s.spec_bytes(),
            b@.len() > 0,
            b@[k as int] == DRIVE_SEP,
            forall|j: int| 0 <= j < k ==> b@[j] != DRIVE_SEP,
            forall|u: int| k < u < t ==> #[trigger] b@[u] != DRIVE_SEP,
        decreases b@.len() - t,
    {
        if b[t] == DRIVE_SEP {
            proof {
                lemma_no_other_split(b@, k as int);
                assert(!drive_split_at(b@, k as int));
            }
            return false;
        }
        t = t + 1;
    }
    if k + 1 < b.len() && b[k + 1] != PATH_SEP {
        proof {
            lemma_no_other_split(b@, k as int);
            assert(!drive_split_at(b@, k as int));
        }
        return false;
    }
    proof {
        assert(drive_split_at(b@, k as int));
    }
    true
}

/// Only the first drive separator can satisfy the drive rules: any
/// position that does must be the one before which no other separator
/// occurs.
proof fn lemma_no_other_split(b: Seq<u8>, first: int)
    requires
        0 <= first < b.len(),
        b[first] == DRIVE_SEP,
        forall|i: int| 0 <= i < first ==> #[trigger] b[i] != DRIVE_SEP,
    ensures
        forall|k: int| #[trigger] drive_split_at(b, k) ==> k == first,
{
    assert forall|k: int| #[trigger] drive_split_at(b, k) implies k == first by {
        if k < first {
            assert(b[k] == DRIVE_SEP);
        } else if k > first {
            assert(b[first] != DRIVE_SEP);
        }
    }
}

/// A borrowed, validated path.
#[derive(Debug, Copy, Clone, PartialEq, Eq)]
pub struct Path<'a> {
    /// The path text.  A value built by [`Path::new`] satisfies
    /// [`Path::is_valid`].
    pub inner: &'a str,
}

impl<'a> Path<'a> {
    /// Whether this path obeys the path rules.
    pub open spec fn is_valid(self) -> bool {
        valid_path(self.inner.spec_bytes())
    }

    /// Wrap a string as a path, if and only if it obeys the path rules;
    /// anything else is an invalid-path error.
    pub fn new(path_str: &'a str) -> (r: Result<Path<'a>, Error>)
        ensures
            valid_path(path_str.spec_bytes()) ==> (r matches Ok(p) && p.inner@ == path_str@
                && p.is_valid()),
            !valid_path(path_str.spec_bytes()) ==> r == Err::<Path<'a>, Error>(Error::InvalidPath),
    {
        if validate_path(path_str) {
            Ok(Path { inner: path_str })
        } else {
            Err(Error::InvalidPath)
        }
    }

    /// Whether this is an absolute path, one with a drive specifier.
    pub fn is_absolute_path(&self) -> (r: bool)
        ensures
            r == exists|i: int|
                0 <= i < self.inner.spec_bytes().len() && #[trigger] self.inner.spec_bytes()[i]
                    == DRIVE_SEP,
    {
        let b = self.inner.as_bytes();
        match find_first(b, DRIVE_SEP) {
            Some(i) => {
                proof {
                    assert(self.inner.spec_bytes()[i as int] == DRIVE_SEP);
                }
                true
            },
            None => false,
        }
    }

    /// View this path as a string slice.
    pub fn as_str(&self) -> (r: &'a str)
        ensures
            r@ == self.inner@,
    {
        self.inner
    }
}

} // verus!
