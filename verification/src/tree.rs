//! What a copy leaves behind, stated over a model of the two trees.
//!
//! A tree is a map from paths relative to its root to what lies there. The
//! actions of a copy are given their effect on the destination tree, and the
//! laws at the end of this module say what the destination holds once every
//! action of a complete walk has succeeded. The source tree is taken not to
//! change while it is copied.

use vstd::prelude::*;
use crate::copier::{decide, excluded_name, is_excluded, relative_path, ActionView, WalkEvent};
use crate::path::{all_names, components};

verus! {

/// What lies at one path of a tree.
pub ghost enum Node {
    Dir,
    File { content: Seq<u8> },
}

/// A tree of directories and files, by path relative to its root. The root
/// itself lies at the empty path.
pub type Tree = Map<Seq<Seq<char>>, Node>;

/// Whether `tree` has a directory at `p`.
pub open spec fn is_dir_at(tree: Tree, p: Seq<Seq<char>>) -> bool {
    tree.dom().contains(p) && tree[p] == Node::Dir
}

/// Whether `tree` is a tree: it has a root, its paths are made of names, and
/// whatever it holds lies in a directory that it holds too.
pub open spec fn is_tree(tree: Tree) -> bool {
    &&& tree.dom().contains(Seq::empty())
    &&& forall|p: Seq<Seq<char>>| #[trigger] tree.dom().contains(p) ==> all_names(p)
    &&& forall|p: Seq<Seq<char>>| #[trigger]
        tree.dom().contains(p) && p.len() > 0 ==> is_dir_at(tree, p.drop_last())
}

/// The path of the direct child that bears the excluded name.
pub open spec fn excluded_path() -> Seq<Seq<char>> {
    seq![excluded_name()]
}

/// Whether `tree` has the directory that a copy leaves out.
pub open spec fn has_excluded_dir(tree: Tree) -> bool {
    is_dir_at(tree, excluded_path())
}

/// Whether `p` is the directory that a copy of `tree` leaves out, or lies
/// below it.
pub open spec fn left_out(tree: Tree, p: Seq<Seq<char>>) -> bool {
    has_excluded_dir(tree) && p.len() >= 1 && p[0] == excluded_name()
}

/// Whether `p` lies below the directory that a copy of `tree` leaves out.
pub open spec fn below_excluded(tree: Tree, p: Seq<Seq<char>>) -> bool {
    left_out(tree, p) && p.len() >= 2
}

/// Whether a copy of `tree` brings over what lies at `p`.
pub open spec fn copied(tree: Tree, p: Seq<Seq<char>>) -> bool {
    tree.dom().contains(p) && !left_out(tree, p)
}

/// The path of what `event` reports, relative to the source root `src`.
pub open spec fn event_relative(src: Seq<Seq<char>>, event: WalkEvent) -> Seq<Seq<char>> {
    match event {
        WalkEvent::Entry(entry) => relative_path(entry.path@, src.len()),
        WalkEvent::Failed { .. } => Seq::empty(),
    }
}

/// Whether `event` reports an object of `source`, the tree below `src`, as a
/// walk does that is kept out of the excluded directory.
pub open spec fn reports(src: Seq<Seq<char>>, source: Tree, event: WalkEvent) -> bool {
    match event {
        WalkEvent::Failed { .. } => false,
        WalkEvent::Entry(entry) => {
            let relative = relative_path(entry.path@, src.len());
            &&& components(entry.path@) == src + relative
            &&& source.dom().contains(relative)
            &&& entry.is_dir == (source[relative] == Node::Dir)
            &&& entry.depth == relative.len()
            &&& !below_excluded(source, relative)
        },
    }
}

/// Whether every one of `events` reports an object of `source`.
pub open spec fn all_report(src: Seq<Seq<char>>, source: Tree, events: Seq<WalkEvent>) -> bool {
    forall|i: int| 0 <= i < events.len() ==> reports(src, source, #[trigger] events[i])
}

/// Whether `events` is what a complete walk of `source` reports: each event
/// is an object of the tree, and each object that does not lie below the
/// excluded directory is reported.
pub open spec fn is_walk(src: Seq<Seq<char>>, source: Tree, events: Seq<WalkEvent>) -> bool {
    &&& all_report(src, source, events)
    &&& forall|p: Seq<Seq<char>>| #[trigger]
        source.dom().contains(p) && !below_excluded(source, p) ==> exists|i: int|
            0 <= i < events.len() && #[trigger] event_relative(src, events[i]) == p
}

/// Whether a walk reports each object after the directory that holds it.
pub open spec fn parents_first(src: Seq<Seq<char>>, events: Seq<WalkEvent>) -> bool {
    forall|i: int|
        0 <= i < events.len() && (#[trigger] event_relative(src, events[i])).len() > 0
            ==> exists|j: int|
            0 <= j < i && #[trigger] event_relative(src, events[j]) == event_relative(
                src,
                events[i],
            ).drop_last()
}

/// `tree` with a directory at `relative` and at every path that leads to it.
pub open spec fn with_dirs(tree: Tree, relative: Seq<Seq<char>>) -> Tree {
    Map::new(
        |p: Seq<Seq<char>>| tree.dom().contains(p) || p.is_prefix_of(relative),
        |p: Seq<Seq<char>>|
            if p.is_prefix_of(relative) {
                Node::Dir
            } else {
                tree[p]
            },
    )
}

/// The destination tree after `action` has succeeded on `target`, in a copy
/// from the tree `source` below `src` to the tree below `dest`.
pub open spec fn effect(
    src: Seq<Seq<char>>,
    dest: Seq<Seq<char>>,
    source: Tree,
    action: ActionView,
    target: Tree,
) -> Tree {
    match action {
        ActionView::CreateDir { path } => with_dirs(target, path.skip(dest.len() as int)),
        ActionView::CopyFile { from, to } => target.insert(
            to.skip(dest.len() as int),
            source[from.skip(src.len() as int)],
        ),
        _ => target,
    }
}

/// The destination tree after the action for each of `events` has succeeded
/// in turn, starting from `target`.
pub open spec fn run(
    src: Seq<Seq<char>>,
    dest: Seq<Seq<char>>,
    source: Tree,
    events: Seq<WalkEvent>,
    target: Tree,
) -> Tree
    decreases events.len(),
{
    if events.len() == 0 {
        target
    } else {
        effect(
            src,
            dest,
            source,
            decide(src, dest, events.last()),
            run(src, dest, source, events.drop_last(), target),
        )
    }
}

/// `target` with everything laid over it that a copy of `source` brings.
pub open spec fn mirror(source: Tree, target: Tree) -> Tree {
    Map::new(
        |p: Seq<Seq<char>>| copied(source, p) || target.dom().contains(p),
        |p: Seq<Seq<char>>|
            if copied(source, p) {
                source[p]
            } else {
                target[p]
            },
    )
}

/// Whether the action for `event` writes at `p` of the destination tree.
pub open spec fn writes(src: Seq<Seq<char>>, event: WalkEvent, p: Seq<Seq<char>>) -> bool {
    match event {
        WalkEvent::Failed { .. } => false,
        WalkEvent::Entry(entry) => {
            let relative = relative_path(entry.path@, src.len());
            if is_excluded(entry) {
                false
            } else if entry.is_dir {
                p.is_prefix_of(relative)
            } else {
                p == relative
            }
        },
    }
}

/// Whether the action for one of `events` writes at `p`.
pub open spec fn written(src: Seq<Seq<char>>, events: Seq<WalkEvent>, p: Seq<Seq<char>>) -> bool {
    exists|i: int| 0 <= i < events.len() && writes(src, #[trigger] events[i], p)
}

/// In a tree, every path that leads to an object is a directory.
pub proof fn lemma_prefix_is_dir(tree: Tree, relative: Seq<Seq<char>>, p: Seq<Seq<char>>)
    requires
        is_tree(tree),
        tree.dom().contains(relative),
        p.is_prefix_of(relative),
        p != relative,
    ensures
        is_dir_at(tree, p),
    decreases relative.len(),
{
    if p.len() == relative.len() {
        assert(p =~= relative);
    }
    let parent = relative.drop_last();
    assert(is_dir_at(tree, parent));
    if p.len() == parent.len() {
        assert(p =~= parent);
    } else {
        assert(p =~= parent.subrange(0, p.len() as int));
        lemma_prefix_is_dir(tree, parent, p);
    }
}

/// An event that reports an object of a tree is excluded exactly if the
/// object is the excluded directory of that tree.
pub proof fn lemma_excluded_event(src: Seq<Seq<char>>, source: Tree, event: WalkEvent)
    requires
        is_tree(source),
        reports(src, source, event),
    ensures
        event is Entry,
        is_excluded(event->Entry_0) <==> has_excluded_dir(source) && event_relative(src, event)
            == excluded_path(),
{
    let entry = event->Entry_0;
    let relative = event_relative(src, event);
    let all = components(entry.path@);
    assert(all_names(relative));
    if relative.len() == 1 {
        assert(all.last() == relative[0]);
        assert(crate::path::is_name(relative[0]));
        if relative[0] == excluded_name() {
            assert(relative =~= excluded_path());
        }
    } else {
        assert(excluded_path().len() == 1);
    }
}

/// What the destination holds after the actions for `events`: where one of
/// them wrote, what the source holds there; elsewhere, what was there before.
pub proof fn lemma_run_written(
    src: Seq<Seq<char>>,
    dest: Seq<Seq<char>>,
    source: Tree,
    events: Seq<WalkEvent>,
    target: Tree,
)
    requires
        is_tree(source),
        all_report(src, source, events),
    ensures
        forall|p: Seq<Seq<char>>|
            #![trigger run(src, dest, source, events, target).dom().contains(p)]
            #![trigger run(src, dest, source, events, target)[p]]
            {
                let after = run(src, dest, source, events, target);
                if written(src, events, p) {
                    after.dom().contains(p) && after[p] == source[p] && source.dom().contains(p)
                } else {
                    after.dom().contains(p) == target.dom().contains(p) && (after.dom().contains(p)
                        ==> after[p] == target[p])
                }
            },
    decreases events.len(),
{
    if events.len() > 0 {
        let front = events.drop_last();
        let last = events.last();
        let before = run(src, dest, source, front, target);
        let after = run(src, dest, source, events, target);
        assert(all_report(src, source, front)) by {
            assert forall|i: int| 0 <= i < front.len() implies reports(
                src,
                source,
                #[trigger] front[i],
            ) by {
                assert(front[i] == events[i]);
            }
        }
        lemma_run_written(src, dest, source, front, target);
        assert(reports(src, source, events[events.len() - 1]));
        let entry = last->Entry_0;
        let relative = event_relative(src, last);
        assert((dest + relative).skip(dest.len() as int) =~= relative);
        assert((src + relative).skip(src.len() as int) =~= relative);
        assert forall|p: Seq<Seq<char>>| true implies {
            if written(src, events, p) {
                #[trigger] after.dom().contains(p) && after[p] == source[p] && source.dom().contains(
                    p,
                )
            } else {
                after.dom().contains(p) == target.dom().contains(p) && (after.dom().contains(p)
                    ==> after[p] == target[p])
            }
        } by {
            // Whatever the last event writes is what the source holds.
            if writes(src, last, p) {
                assert(written(src, events, p));
                if entry.is_dir && p != relative {
                    lemma_prefix_is_dir(source, relative, p);
                }
                if entry.is_dir {
                    assert(p.is_prefix_of(relative));
                    assert(source[p] == Node::Dir);
                }
                assert(after.dom().contains(p) && after[p] == source[p]);
            } else {
                assert(after.dom().contains(p) == before.dom().contains(p));
                assert(after.dom().contains(p) ==> after[p] == before[p]);
                if written(src, front, p) {
                    let i = choose|i: int| 0 <= i < front.len() && writes(src, #[trigger] front[i], p);
                    assert(front[i] == events[i]);
                    assert(written(src, events, p));
                } else if written(src, events, p) {
                    let i = choose|i: int|
                        0 <= i < events.len() && writes(src, #[trigger] events[i], p);
                    if i < front.len() {
                        assert(front[i] == events[i]);
                    }
                    assert(false);
                }
            }
        }
    } else {
        assert(!exists|i: int| 0 <= i < events.len() && writes(src, #[trigger] events[i], Seq::empty()));
    }
}

/// The actions of a complete walk write exactly where the source holds
/// something that a copy brings over.
pub proof fn lemma_written_is_copied(
    src: Seq<Seq<char>>,
    source: Tree,
    events: Seq<WalkEvent>,
    p: Seq<Seq<char>>,
)
    requires
        is_tree(source),
        is_walk(src, source, events),
    ensures
        written(src, events, p) <==> copied(source, p),
{
    if written(src, events, p) {
        let i = choose|i: int| 0 <= i < events.len() && writes(src, #[trigger] events[i], p);
        let event = events[i];
        let relative = event_relative(src, event);
        assert(reports(src, source, event));
        lemma_excluded_event(src, source, event);
        if p != relative {
            lemma_prefix_is_dir(source, relative, p);
        }
        if left_out(source, p) {
            assert(relative[0] == p[0]);
            if relative.len() == 1 {
                assert(relative =~= excluded_path());
            }
        }
    }
    if copied(source, p) {
        assert(source.dom().contains(p) && !below_excluded(source, p));
        let i = choose|i: int|
            0 <= i < events.len() && #[trigger] event_relative(src, events[i]) == p;
        let event = events[i];
        assert(reports(src, source, event));
        lemma_excluded_event(src, source, event);
        if p == excluded_path() {
            assert(p[0] == excluded_name());
        }
        assert(p.is_prefix_of(p));
        assert(writes(src, event, p));
    }
}

/// Once every action of a complete walk has succeeded, the destination holds
/// what the source holds, but for the excluded directory and what lies below
/// it, laid over what the destination held before.
pub proof fn lemma_run_is_mirror(
    src: Seq<Seq<char>>,
    dest: Seq<Seq<char>>,
    source: Tree,
    events: Seq<WalkEvent>,
    target: Tree,
)
    requires
        is_tree(source),
        is_walk(src, source, events),
    ensures
        run(src, dest, source, events, target) == mirror(source, target),
{
    let after = run(src, dest, source, events, target);
    let expected = mirror(source, target);
    lemma_run_written(src, dest, source, events, target);
    assert forall|p: Seq<Seq<char>>| true implies (#[trigger] after.dom().contains(p)
        == expected.dom().contains(p)) && (after.dom().contains(p) ==> after[p]
        == expected[p]) by {
        lemma_written_is_copied(src, source, events, p);
    }
    assert(after =~= expected);
}

} // verus!
