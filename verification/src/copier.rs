//! Deciding, entry by entry, what a copy of a source tree has to do.
//!
//! The caller walks the source tree depth first, a directory before what it
//! holds, and hands each thing the walk reports to [`TreeCopier::step`]. The
//! answer is the one action to carry out before the walk goes on.

use vstd::prelude::*;
use crate::error::CopyError;
use crate::path::{
    components, is_parent_dir_ref, names, parent_dir_ref, path_components, same_text, NormPath,
};

verus! {

/// The name of the directory that is left out when it is a direct child of
/// the source root.
pub const EXCLUDED_NAME: &'static str = "target";

/// The excluded name, as characters.
pub open spec fn excluded_name() -> Seq<char> {
    EXCLUDED_NAME@
}

/// What the walk reports of one object in the source tree.
#[derive(Debug, Clone, PartialEq, Eq)]
pub struct WalkEntry {
    /// The absolute path of the object.
    pub path: String,
    /// Whether the object is a directory.
    pub is_dir: bool,
    /// How far below the source root the object lies: 0 for the root itself,
    /// 1 for its direct children.
    pub depth: usize,
}

/// One report of the walk.
#[derive(Debug, Clone, PartialEq, Eq)]
pub enum WalkEvent {
    /// An object of the source tree.
    Entry(WalkEntry),
    /// The object at `path` could not be read.
    Failed { path: String },
}

/// What to do for one report of the walk.
#[derive(Debug, Clone, PartialEq, Eq)]
pub enum Action {
    /// Leave the directory at `relative` out, and do not walk into it.
    SkipDir { relative: Vec<String> },
    /// Create the directory at `path`, with any parent that is missing; that
    /// it exists already is no failure.
    CreateDir { path: Vec<String> },
    /// Copy the bytes of the file at `from` to `to`, replacing what is there.
    CopyFile { from: Vec<String>, to: Vec<String> },
    /// Give the copy up with `error`.
    Abort { error: CopyError },
}

/// What an [`Action`] says, over plain sequences.
pub ghost enum ActionView {
    SkipDir { relative: Seq<Seq<char>> },
    CreateDir { path: Seq<Seq<char>> },
    CopyFile { from: Seq<Seq<char>>, to: Seq<Seq<char>> },
    AbortInput { rejected: Seq<char> },
    AbortTraversal { unread: Seq<char> },
}

impl View for Action {
    type V = ActionView;

    open spec fn view(&self) -> ActionView {
        match self {
            Action::SkipDir { relative } => ActionView::SkipDir { relative: names(relative@) },
            Action::CreateDir { path } => ActionView::CreateDir { path: names(path@) },
            Action::CopyFile { from, to } => ActionView::CopyFile {
                from: names(from@),
                to: names(to@),
            },
            Action::Abort { error: CopyError::Input { path } } => ActionView::AbortInput {
                rejected: path@,
            },
            Action::Abort { error: CopyError::Traversal { path } } => ActionView::AbortTraversal {
                unread: path@,
            },
        }
    }
}

/// The components of `path` after the first `depth_offset` of them; none if
/// the path has no more than that.
pub open spec fn relative_path(path: Seq<char>, depth_offset: nat) -> Seq<Seq<char>> {
    let all = components(path);
    if depth_offset <= all.len() {
        all.skip(depth_offset as int)
    } else {
        Seq::empty()
    }
}

/// The name of the object at `path`: its last component, or the whole path
/// where it has none or ends in `..`.
pub open spec fn file_name(path: Seq<char>) -> Seq<char> {
    let all = components(path);
    if all.len() > 0 && all.last() != parent_dir_ref() {
        all.last()
    } else {
        path
    }
}

/// Whether `entry` is the directory to leave out: a directory with the
/// excluded name that is a direct child of the source root.
pub open spec fn is_excluded(entry: WalkEntry) -> bool {
    entry.is_dir && entry.depth == 1 && file_name(entry.path@) == excluded_name()
}

/// The action for `event` in a copy from `src` to `dest`.
pub open spec fn decide(src: Seq<Seq<char>>, dest: Seq<Seq<char>>, event: WalkEvent) -> ActionView {
    match event {
        WalkEvent::Failed { path } => ActionView::AbortTraversal { unread: path@ },
        WalkEvent::Entry(entry) => {
            let relative = relative_path(entry.path@, src.len());
            if is_excluded(entry) {
                ActionView::SkipDir { relative }
            } else if entry.is_dir {
                ActionView::CreateDir { path: dest + relative }
            } else {
                ActionView::CopyFile { from: src + relative, to: dest + relative }
            }
        },
    }
}

/// The elements of `list` from index `from` on; none if it has no more than
/// that.
fn components_from(list: &Vec<String>, from: usize) -> (out: Vec<String>)
    ensures
        names(out@) == if from <= list.len() {
            names(list@).skip(from as int)
        } else {
            Seq::empty()
        },
{
    let mut out: Vec<String> = Vec::new();
    if from > list.len() {
        assert(names(out@) =~= Seq::<Seq<char>>::empty());
        return out;
    }
    let mut i: usize = from;
    assert(names(out@) =~= names(list@).subrange(from as int, i as int));
    while i < list.len()
        invariant
            from <= i <= list.len(),
            names(out@) == names(list@).subrange(from as int, i as int),
        decreases list.len() - i,
    {
        let ghost before = names(out@);
        let c = list[i].clone();
        out.push(c);
        assert(names(out@) =~= before.push(c@));
        assert(names(list@).subrange(from as int, i + 1) =~= names(list@).subrange(
            from as int,
            i as int,
        ).push(c@));
        i += 1;
    }
    assert(names(list@).subrange(from as int, list.len() as int) =~= names(list@).skip(
        from as int,
    ));
    out
}

/// Whether the object at `path`, whose components are `all`, bears the
/// excluded name.
fn has_excluded_name(path: &str, all: &Vec<String>) -> (yes: bool)
    requires
        names(all@) == components(path@),
    ensures
        yes == (file_name(path@) == excluded_name()),
{
    let n = all.len();
    if n > 0 {
        let last = all[n - 1].as_str();
        assert(last@ == components(path@).last());
        if !is_parent_dir_ref(last) {
            return same_text(last, EXCLUDED_NAME);
        }
    }
    same_text(path, EXCLUDED_NAME)
}

/// A copy of the tree below one directory into another.
#[derive(Debug, Clone, PartialEq, Eq)]
pub struct TreeCopier {
    src: NormPath,
    dest: NormPath,
}

impl TreeCopier {
    /// The root of the tree that is copied.
    pub closed spec fn spec_source(&self) -> Seq<Seq<char>> {
        self.src@
    }

    /// The root of the tree that receives the copy.
    pub closed spec fn spec_destination(&self) -> Seq<Seq<char>> {
        self.dest@
    }

    /// A copy from `src` to `dest`.
    pub fn new(src: NormPath, dest: NormPath) -> (copier: Self)
        ensures
            copier.spec_source() == src@,
            copier.spec_destination() == dest@,
    {
        TreeCopier { src, dest }
    }

    /// The root of the tree that is copied.
    pub fn source(&self) -> (root: &NormPath)
        ensures
            root@ == self.spec_source(),
    {
        &self.src
    }

    /// The root of the tree that receives the copy.
    pub fn destination(&self) -> (root: &NormPath)
        ensures
            root@ == self.spec_destination(),
    {
        &self.dest
    }

    /// How many leading components of an entry's path belong to the source
    /// root.
    pub fn depth_offset(&self) -> (n: usize)
        ensures
            n == self.spec_source().len(),
    {
        self.src.component_count()
    }

    /// The action for one report of the walk.
    pub fn step(&self, event: &WalkEvent) -> (action: Action)
        ensures
            action@ == decide(self.spec_source(), self.spec_destination(), *event),
    {
        match event {
            WalkEvent::Failed { path } => Action::Abort {
                error: CopyError::Traversal { path: path.clone() },
            },
            WalkEvent::Entry(entry) => {
                let all = path_components(entry.path.as_str());
                let relative = components_from(&all, self.depth_offset());
                if entry.is_dir {
                    if entry.depth == 1 && has_excluded_name(entry.path.as_str(), &all) {
                        Action::SkipDir { relative }
                    } else {
                        Action::CreateDir { path: self.dest.join(&relative) }
                    }
                } else {
                    Action::CopyFile {
                        from: self.src.join(&relative),
                        to: self.dest.join(&relative),
                    }
                }
            },
        }
    }
}

} // verus!
