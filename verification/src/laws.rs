//! What holds of every copy whose actions have all succeeded.
//!
//! Each law speaks of a source tree `source` below the root `src`, of the
//! events `events` that a complete walk of it reports, and of the destination
//! tree `target` below `dest` as it was before the copy.

use vstd::prelude::*;
use crate::copier::{excluded_name, WalkEvent};
use crate::tree::{
    all_report, copied, event_relative, excluded_path, has_excluded_dir, is_dir_at, is_tree,
    is_walk, left_out, lemma_excluded_event, lemma_run_is_mirror, lemma_run_written, mirror,
    parents_first, reports, run, writes, written, Tree,
};

verus! {

/// A source tree without a direct child of the excluded name is copied
/// whole: the destination then holds at every path of the source what the
/// source holds there, and nothing new anywhere else. A destination that held
/// nothing outside the paths of the source ends up equal to the source.
pub proof fn law_copy_is_faithful(
    src: Seq<Seq<char>>,
    dest: Seq<Seq<char>>,
    source: Tree,
    events: Seq<WalkEvent>,
    target: Tree,
)
    requires
        is_tree(source),
        is_walk(src, source, events),
        !source.dom().contains(excluded_path()),
    ensures
        forall|p: Seq<Seq<char>>| #[trigger]
            source.dom().contains(p) ==> run(src, dest, source, events, target).dom().contains(p)
                && run(src, dest, source, events, target)[p] == source[p],
        forall|p: Seq<Seq<char>>|
            !source.dom().contains(p) ==> (#[trigger] run(
                src,
                dest,
                source,
                events,
                target,
            ).dom().contains(p)) == target.dom().contains(p),
        target.dom().subset_of(source.dom()) ==> run(src, dest, source, events, target) == source,
{
    lemma_run_is_mirror(src, dest, source, events, target);
    if target.dom().subset_of(source.dom()) {
        assert(mirror(source, target) =~= source);
    }
}

/// Where the source has the excluded directory, the copy changes nothing at
/// its path or below: what the destination held there stays, and where it
/// held nothing there is nothing afterwards, whatever the directory holds.
pub proof fn law_excluded_dir_is_left_out(
    src: Seq<Seq<char>>,
    dest: Seq<Seq<char>>,
    source: Tree,
    events: Seq<WalkEvent>,
    target: Tree,
)
    requires
        is_tree(source),
        is_walk(src, source, events),
        has_excluded_dir(source),
    ensures
        forall|p: Seq<Seq<char>>|
            p.len() >= 1 && p[0] == excluded_name() ==> (#[trigger] run(
                src,
                dest,
                source,
                events,
                target,
            ).dom().contains(p)) == target.dom().contains(p),
        forall|p: Seq<Seq<char>>|
            p.len() >= 1 && p[0] == excluded_name() && target.dom().contains(p) ==> (#[trigger] run(
                src,
                dest,
                source,
                events,
                target,
            )[p]) == target[p],
        !target.dom().contains(excluded_path()) ==> !run(
            src,
            dest,
            source,
            events,
            target,
        ).dom().contains(excluded_path()),
{
    lemma_run_is_mirror(src, dest, source, events, target);
    assert(excluded_path()[0] == excluded_name());
}

/// A directory of the excluded name that is no direct child of the source
/// root, and does not lie below the excluded directory, is copied with all it
/// holds.
pub proof fn law_nested_excluded_name_is_copied(
    src: Seq<Seq<char>>,
    dest: Seq<Seq<char>>,
    source: Tree,
    events: Seq<WalkEvent>,
    target: Tree,
    nested: Seq<Seq<char>>,
)
    requires
        is_tree(source),
        is_walk(src, source, events),
        is_dir_at(source, nested),
        nested.len() >= 2,
        nested.last() == excluded_name(),
        !left_out(source, nested),
    ensures
        forall|p: Seq<Seq<char>>|
            nested.is_prefix_of(p) && #[trigger] source.dom().contains(p) ==> run(
                src,
                dest,
                source,
                events,
                target,
            ).dom().contains(p) && run(src, dest, source, events, target)[p] == source[p],
{
    lemma_run_is_mirror(src, dest, source, events, target);
    assert forall|p: Seq<Seq<char>>|
        nested.is_prefix_of(p) && #[trigger] source.dom().contains(p) implies copied(
        source,
        p,
    ) by {
        assert(p[0] == nested[0]);
    }
}

/// Copying twice in succession leaves what copying once leaves.
pub proof fn law_copy_is_idempotent(
    src: Seq<Seq<char>>,
    dest: Seq<Seq<char>>,
    source: Tree,
    events: Seq<WalkEvent>,
    target: Tree,
)
    requires
        is_tree(source),
        is_walk(src, source, events),
    ensures
        run(src, dest, source, events, run(src, dest, source, events, target)) == run(
            src,
            dest,
            source,
            events,
            target,
        ),
{
    let once = run(src, dest, source, events, target);
    lemma_run_is_mirror(src, dest, source, events, target);
    lemma_run_is_mirror(src, dest, source, events, once);
    assert(mirror(source, once) =~= once);
}

/// What the destination held at a path that the copy does not bring over is
/// left as it was; what it held at a path that the copy brings over is
/// replaced by what the source holds there.
pub proof fn law_unrelated_is_untouched(
    src: Seq<Seq<char>>,
    dest: Seq<Seq<char>>,
    source: Tree,
    events: Seq<WalkEvent>,
    target: Tree,
    p: Seq<Seq<char>>,
)
    requires
        is_tree(source),
        is_walk(src, source, events),
    ensures
        !copied(source, p) ==> run(src, dest, source, events, target).dom().contains(p)
            == target.dom().contains(p),
        !copied(source, p) && target.dom().contains(p) ==> run(src, dest, source, events, target)[p]
            == target[p],
        copied(source, p) ==> run(src, dest, source, events, target).dom().contains(p) && run(
            src,
            dest,
            source,
            events,
            target,
        )[p] == source[p],
{
    lemma_run_is_mirror(src, dest, source, events, target);
}

/// In a walk that reports each object after the directory that holds it,
/// the directory of every object that is copied has been created in the
/// destination before the object's own turn comes.
pub proof fn law_parent_is_created_first(
    src: Seq<Seq<char>>,
    dest: Seq<Seq<char>>,
    source: Tree,
    events: Seq<WalkEvent>,
    target: Tree,
    i: int,
)
    requires
        is_tree(source),
        all_report(src, source, events),
        parents_first(src, events),
        0 <= i < events.len(),
        event_relative(src, events[i]).len() > 0,
    ensures
        is_dir_at(
            run(src, dest, source, events.take(i), target),
            event_relative(src, events[i]).drop_last(),
        ),
{
    let relative = event_relative(src, events[i]);
    let parent = relative.drop_last();
    let earlier = events.take(i);
    let j = choose|j: int| 0 <= j < i && #[trigger] event_relative(src, events[j]) == parent;
    assert(reports(src, source, events[i]));
    assert(reports(src, source, events[j]));
    assert(is_dir_at(source, parent));
    lemma_excluded_event(src, source, events[j]);
    if parent == excluded_path() && has_excluded_dir(source) {
        assert(relative[0] == parent[0]);
        assert(parent[0] == excluded_name());
        assert(false);
    }
    assert(parent.is_prefix_of(parent));
    assert(earlier[j] == events[j]);
    assert(writes(src, earlier[j], parent));
    assert(written(src, earlier, parent));
    assert(all_report(src, source, earlier)) by {
        assert forall|k: int| 0 <= k < earlier.len() implies reports(
            src,
            source,
            #[trigger] earlier[k],
        ) by {
            assert(earlier[k] == events[k]);
        }
    }
    lemma_run_written(src, dest, source, earlier, target);
    assert(run(src, dest, source, earlier, target).dom().contains(parent));
}

} // verus!
