//! Relative paths as sequences of plain segments.
//!
//! The supervisor reasons about filesystem locations as lists of path
//! segments; the shell turns them into native paths when it performs the
//! actual filesystem operations.  A segment that came from an environment
//! variable may itself be a whole native path; the library never inspects
//! segment contents.

use vstd::prelude::*;
use vstd::string::StringExecFns;

verus! {

/// The abstract value of a list of segments: each segment as its
/// character sequence.
pub open spec fn segs_view(v: Seq<String>) -> Seq<Seq<char>> {
    v.map_values(|s: String| s@)
}

/// A relative path: an ordered list of segments, root first.
pub struct RelPath {
    pub segments: Vec<String>,
}

impl View for RelPath {
    type V = Seq<Seq<char>>;

    open spec fn view(&self) -> Seq<Seq<char>> {
        segs_view(self.segments@)
    }
}

impl RelPath {
    /// The empty path, denoting the root of whatever tree it is used in.
    pub fn empty() -> (r: RelPath)
        ensures
            r@ == Seq::<Seq<char>>::empty(),
    {
        let r = RelPath { segments: Vec::new() };
        proof {
            assert(r@ =~= Seq::<Seq<char>>::empty());
        }
        r
    }

    /// An exact copy of this path.
    pub fn duplicate(&self) -> (r: RelPath)
        ensures
            r@ == self@,
    {
        let mut segments: Vec<String> = Vec::new();
        let n = self.segments.len();
        let mut i: usize = 0;
        while i < n
            invariant
                i <= n,
                n == self.segments.len(),
                segments@.len() == i as int,
                forall|j: int| 0 <= j < i ==> segments@[j]@ == self.segments@[j]@,
            decreases n - i,
        {
            segments.push(self.segments[i].clone());
            i = i + 1;
        }
        let r = RelPath { segments };
        proof {
            assert(r@ =~= self@);
        }
        r
    }

    /// This path extended by one more segment.
    pub fn child(&self, name: &str) -> (r: RelPath)
        ensures
            r@ == self@.push(name@),
    {
        let mut r = self.duplicate();
        r.segments.push(name.to_owned());
        proof {
            assert(r@ =~= self@.push(name@));
        }
        r
    }

    /// Whether two paths consist of the same segments.
    pub fn eq_path(&self, other: &RelPath) -> (r: bool)
        ensures
            r == (self@ == other@),
    {
        let n = self.segments.len();
        if n != other.segments.len() {
            proof {
                assert(self@.len() != other@.len());
            }
            return false;
        }
        let mut i: usize = 0;
        while i < n
            invariant
                i <= n,
                n == self.segments.len(),
                n == other.segments.len(),
                forall|j: int| 0 <= j < i ==> self@[j] == other@[j],
            decreases n - i,
        {
            if !self.segments[i].eq(&other.segments[i]) {
                proof {
                    assert(self@[i as int] != other@[i as int]);
                }
                return false;
            }
            i = i + 1;
        }
        proof {
            assert(self@ =~= other@);
        }
        true
    }
}

} // verus!
