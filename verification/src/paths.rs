//! Filesystem paths as the explorer reads them: a sequence of components,
//! the way `std::path::Path::components` splits a path.

use vstd::prelude::*;
use crate::text::str_eq;

verus! {

/// One component of a path.
pub enum PathPart {
    /// A Windows prefix such as `C:`.
    Prefix(String),
    /// The root directory.
    Root,
    /// `.`
    CurDir,
    /// `..`
    ParentDir,
    /// An ordinary file or directory name.
    Normal(String),
}

/// A path component as characters.
pub ghost enum PartView {
    Prefix(Seq<char>),
    Root,
    CurDir,
    ParentDir,
    Normal(Seq<char>),
}

impl View for PathPart {
    type V = PartView;

    open spec fn view(&self) -> PartView {
        match self {
            PathPart::Prefix(s) => PartView::Prefix(s@),
            PathPart::Root => PartView::Root,
            PathPart::CurDir => PartView::CurDir,
            PathPart::ParentDir => PartView::ParentDir,
            PathPart::Normal(s) => PartView::Normal(s@),
        }
    }
}

/// A path, as its components.
pub struct FsPath {
    pub parts: Vec<PathPart>,
}

impl View for FsPath {
    type V = Seq<PartView>;

    open spec fn view(&self) -> Seq<PartView> {
        self.parts@.map_values(|p: PathPart| p@)
    }
}

/// Whether a path ending in this component has a parent: it does unless it
/// ends in a root or a prefix.
pub open spec fn droppable(p: PartView) -> bool {
    !(p is Root || p is Prefix)
}

/// The parent of a path: the path without its last component, or none when
/// the path is empty or ends in a root or prefix.
pub open spec fn parent_of(p: Seq<PartView>) -> Option<Seq<PartView>> {
    if p.len() > 0 && droppable(p.last()) {
        Some(p.drop_last())
    } else {
        None
    }
}

/// `d` is reached from `p` by taking the parent one or more times.
pub open spec fn ancestor_of(d: Seq<PartView>, p: Seq<PartView>) -> bool {
    &&& d.len() < p.len()
    &&& p.take(d.len() as int) == d
    &&& forall|i: int| d.len() <= i < p.len() ==> droppable(#[trigger] p[i])
}

/// `base` is a leading run of `p`'s components (`Path::starts_with`).
pub open spec fn starts_with(p: Seq<PartView>, base: Seq<PartView>) -> bool {
    base.len() <= p.len() && p.take(base.len() as int) == base
}

/// A copy of a string.
pub fn copy_string(s: &String) -> (res: String)
    ensures
        res@ == s@,
{
    s.clone()
}

/// A copy of a path component.
pub fn copy_part(p: &PathPart) -> (res: PathPart)
    ensures
        res@ == p@,
{
    match p {
        PathPart::Prefix(s) => PathPart::Prefix(copy_string(s)),
        PathPart::Root => PathPart::Root,
        PathPart::CurDir => PathPart::CurDir,
        PathPart::ParentDir => PathPart::ParentDir,
        PathPart::Normal(s) => PathPart::Normal(copy_string(s)),
    }
}

/// Whether two components are the same.
pub fn part_eq(a: &PathPart, b: &PathPart) -> (res: bool)
    ensures
        res == (a@ == b@),
{
    match (a, b) {
        (PathPart::Prefix(x), PathPart::Prefix(y)) => str_eq(x.as_str(), y.as_str()),
        (PathPart::Root, PathPart::Root) => true,
        (PathPart::CurDir, PathPart::CurDir) => true,
        (PathPart::ParentDir, PathPart::ParentDir) => true,
        (PathPart::Normal(x), PathPart::Normal(y)) => str_eq(x.as_str(), y.as_str()),
        _ => false,
    }
}

impl FsPath {
    /// A copy of the path.
    pub fn copy(&self) -> (res: FsPath)
        ensures
            res@ == self@,
    {
        let mut parts: Vec<PathPart> = Vec::new();
        let mut i: usize = 0;
        while i < self.parts.len()
            invariant
                i <= self.parts@.len(),
                parts@.len() == i,
                forall|k: int| 0 <= k < i ==> (#[trigger] parts@[k])@ == self.parts@[k]@,
            decreases self.parts@.len() - i,
        {
            parts.push(copy_part(&self.parts[i]));
            i += 1;
        }
        assert(parts@.map_values(|p: PathPart| p@) =~= self@);
        FsPath { parts }
    }

    /// Whether `base` is a leading run of this path's components.
    pub fn starts_with(&self, base: &FsPath) -> (res: bool)
        ensures
            res == starts_with(self@, base@),
    {
        if base.parts.len() > self.parts.len() {
            return false;
        }
        let mut i: usize = 0;
        while i < base.parts.len()
            invariant
                i <= base.parts@.len() <= self.parts@.len(),
                forall|k: int| 0 <= k < i ==> self@[k] == base@[k],
            decreases base.parts@.len() - i,
        {
            if !part_eq(&self.parts[i], &base.parts[i]) {
                assert(self@.take(base@.len() as int)[i as int] != base@[i as int]);
                return false;
            }
            i += 1;
        }
        assert(self@.take(base@.len() as int) =~= base@);
        true
    }

    /// Whether two paths have the same components.
    pub fn same(&self, other: &FsPath) -> (res: bool)
        ensures
            res == (self@ == other@),
    {
        if self.parts.len() != other.parts.len() {
            assert(self@.len() != other@.len());
            return false;
        }
        let r = self.starts_with(other);
        proof {
            assert(self@.len() == other@.len());
            assert(self@ =~= self@.take(other@.len() as int));
        }
        r
    }

    /// The parent directory, if any (`Path::parent`).
    pub fn parent(&self) -> (res: Option<FsPath>)
        ensures
            match res {
                Some(q) => parent_of(self@) == Some(q@),
                None => parent_of(self@) is None,
            },
    {
        let n = self.parts.len();
        if n == 0 {
            return None;
        }
        match &self.parts[n - 1] {
            PathPart::Root | PathPart::Prefix(_) => None,
            _ => {
                let mut parts: Vec<PathPart> = Vec::new();
                let mut i: usize = 0;
                while i < n - 1
                    invariant
                        n == self.parts@.len(),
                        i <= n - 1,
                        parts@.len() == i,
                        forall|k: int| 0 <= k < i ==> (#[trigger] parts@[k])@ == self.parts@[k]@,
                    decreases n - 1 - i,
                {
                    parts.push(copy_part(&self.parts[i]));
                    i += 1;
                }
                assert(parts@.map_values(|p: PathPart| p@) =~= self@.drop_last());
                Some(FsPath { parts })
            },
        }
    }
}

} // verus!
