//! Paths as sequences of components.
//!
//! A path is text in which `/` separates components. Normalising a path
//! makes it absolute and removes what does not name anything: empty
//! components, `.`, and `..` together with the component it cancels. Two
//! normalised paths can then be compared, and one stripped from the front of
//! another, component by component.

use vstd::prelude::*;
use crate::error::CopyError;

verus! {

/// The separator between the components of a path.
pub const SEPARATOR: char = '/';

/// Whether `c` separates two components of a path.
pub open spec fn is_separator(c: char) -> bool {
    c == SEPARATOR
}

/// The component that stands for the current directory.
pub open spec fn current_dir_ref() -> Seq<char> {
    seq!['.']
}

/// The component that stands for the parent directory.
pub open spec fn parent_dir_ref() -> Seq<char> {
    seq!['.', '.']
}

/// Whether a piece between two separators counts as a component: empty
/// pieces and `.` do not.
pub open spec fn is_component(piece: Seq<char>) -> bool {
    piece.len() > 0 && piece != current_dir_ref()
}

/// Whether `piece` names a file or directory: it is a component, holds no
/// separator and is not `..`.
pub open spec fn is_name(piece: Seq<char>) -> bool {
    &&& is_component(piece)
    &&& piece != parent_dir_ref()
    &&& forall|i: int| 0 <= i < piece.len() ==> !is_separator(#[trigger] piece[i])
}

/// Whether `piece` can be entered: it names something or is `..`.
pub open spec fn is_step(piece: Seq<char>) -> bool {
    piece == parent_dir_ref() || is_name(piece)
}

/// Whether every element of `list` names something.
pub open spec fn all_names(list: Seq<Seq<char>>) -> bool {
    forall|i: int| 0 <= i < list.len() ==> is_name(#[trigger] list[i])
}

/// Whether every element of `list` can be entered.
pub open spec fn all_steps(list: Seq<Seq<char>>) -> bool {
    forall|i: int| 0 <= i < list.len() ==> is_step(#[trigger] list[i])
}

/// Whether a path starts at the root.
pub open spec fn is_absolute(s: Seq<char>) -> bool {
    s.len() > 0 && is_separator(s[0])
}

/// Index of the first separator in `s`, or `s.len()` if it holds none.
pub open spec fn first_separator(s: Seq<char>) -> int
    decreases s.len(),
{
    if s.len() == 0 || is_separator(s[0]) {
        0
    } else {
        1 + first_separator(s.skip(1))
    }
}

/// The piece before the first separator of `s`, if it counts as a component.
pub open spec fn leading_component(s: Seq<char>) -> Seq<Seq<char>> {
    let head = s.take(first_separator(s));
    if is_component(head) {
        seq![head]
    } else {
        Seq::empty()
    }
}

/// The components of a path, in order: the pieces between its separators
/// that are neither empty nor `.`.
pub open spec fn components(s: Seq<char>) -> Seq<Seq<char>>
    decreases s.len(),
    via components_decreases
{
    let k = first_separator(s);
    if k >= s.len() {
        leading_component(s)
    } else {
        leading_component(s) + components(s.skip(k + 1))
    }
}

#[via_fn]
proof fn components_decreases(s: Seq<char>) {
    lemma_first_separator_bounds(s);
}

/// What one more component makes of the components resolved so far: `..`
/// removes the last of them (at the root there is none to remove), any other
/// component is added.
pub open spec fn enter(stack: Seq<Seq<char>>, component: Seq<char>) -> Seq<Seq<char>> {
    if component == parent_dir_ref() {
        if stack.len() > 0 {
            stack.drop_last()
        } else {
            stack
        }
    } else {
        stack.push(component)
    }
}

/// The components reached from `base` by entering `comps` one after another.
pub open spec fn resolve(base: Seq<Seq<char>>, comps: Seq<Seq<char>>) -> Seq<Seq<char>>
    decreases comps.len(),
{
    if comps.len() == 0 {
        base
    } else {
        enter(resolve(base, comps.drop_last()), comps.last())
    }
}

/// The normal form of `path`: resolved from the root if it is absolute, else
/// from the working directory `cwd`, which must then be absolute itself.
pub open spec fn normalized(path: Seq<char>, cwd: Seq<char>) -> Option<Seq<Seq<char>>> {
    if is_absolute(path) {
        Some(resolve(Seq::empty(), components(path)))
    } else if is_absolute(cwd) {
        Some(resolve(resolve(Seq::empty(), components(cwd)), components(path)))
    } else {
        None
    }
}

/// What a list of strings holds, each as its characters.
pub open spec fn names(v: Seq<String>) -> Seq<Seq<char>> {
    Seq::new(v.len(), |i: int| v[i]@)
}

/// The first separator lies within `s`, is a separator, and nothing before it is.
pub proof fn lemma_first_separator_bounds(s: Seq<char>)
    ensures
        0 <= first_separator(s) <= s.len(),
        first_separator(s) < s.len() ==> is_separator(s[first_separator(s)]),
        forall|i: int| 0 <= i < first_separator(s) ==> !is_separator(#[trigger] s[i]),
    decreases s.len(),
{
    if s.len() == 0 || is_separator(s[0]) {
    } else {
        lemma_first_separator_bounds(s.skip(1));
        assert forall|i: int| 0 <= i < first_separator(s) implies !is_separator(
            #[trigger] s[i],
        ) by {
            if i > 0 {
                assert(s[i] == s.skip(1)[i - 1]);
            }
        }
    }
}

/// A position with no separator before it, which is the end of `s` or holds
/// a separator, is the first separator of `s`.
pub proof fn lemma_first_separator_at(s: Seq<char>, k: int)
    requires
        0 <= k <= s.len(),
        forall|i: int| 0 <= i < k ==> !is_separator(#[trigger] s[i]),
        k < s.len() ==> is_separator(s[k]),
    ensures
        first_separator(s) == k,
    decreases s.len(),
{
    if k > 0 {
        assert(!is_separator(s[0]));
        let t = s.skip(1);
        assert forall|i: int| 0 <= i < k - 1 implies !is_separator(#[trigger] t[i]) by {
            assert(t[i] == s[i + 1]);
        }
        lemma_first_separator_at(t, k - 1);
    }
}

/// Every component of a path names something or is `..`.
pub proof fn lemma_components_are_steps(s: Seq<char>)
    ensures
        all_steps(components(s)),
    decreases s.len(),
{
    lemma_first_separator_bounds(s);
    let k = first_separator(s);
    let head = s.take(k);
    let lead = leading_component(s);
    assert forall|j: int| 0 <= j < head.len() implies !is_separator(#[trigger] head[j]) by {
        assert(head[j] == s[j]);
    }
    assert(is_component(head) ==> is_step(head));
    if k < s.len() {
        let rest = components(s.skip(k + 1));
        lemma_components_are_steps(s.skip(k + 1));
        assert forall|i: int| 0 <= i < components(s).len() implies is_step(
            #[trigger] components(s)[i],
        ) by {
            if i < lead.len() {
                assert(components(s)[i] == head);
            } else {
                assert(components(s)[i] == rest[i - lead.len()]);
            }
        }
    } else {
        assert forall|i: int| 0 <= i < components(s).len() implies is_step(
            #[trigger] components(s)[i],
        ) by {
            assert(components(s)[i] == head);
        }
    }
}

/// Entering steps from a list of names gives a list of names.
pub proof fn lemma_resolve_names(base: Seq<Seq<char>>, comps: Seq<Seq<char>>)
    requires
        all_names(base),
        all_steps(comps),
    ensures
        all_names(resolve(base, comps)),
    decreases comps.len(),
{
    if comps.len() > 0 {
        let front = comps.drop_last();
        assert forall|i: int| 0 <= i < front.len() implies is_step(#[trigger] front[i]) by {
            assert(front[i] == comps[i]);
        }
        lemma_resolve_names(base, front);
        let before = resolve(base, front);
        let c = comps.last();
        assert(is_step(c));
        let after = enter(before, c);
        assert forall|i: int| 0 <= i < after.len() implies is_name(#[trigger] after[i]) by {
            if c == parent_dir_ref() {
                if before.len() > 0 {
                    assert(after[i] == before[i]);
                }
            } else if i < before.len() {
                assert(after[i] == before[i]);
            } else {
                assert(after[i] == c);
            }
        }
    }
}

/// Whether the characters of `path` from `start` up to `end` count as a
/// component.
fn piece_is_component(path: &str, start: usize, end: usize) -> (keep: bool)
    requires
        start <= end <= path@.len(),
    ensures
        keep == is_component(path@.subrange(start as int, end as int)),
{
    let ghost piece = path@.subrange(start as int, end as int);
    assert(piece.len() == end - start);
    assert(current_dir_ref().len() == 1);
    if end == start {
        false
    } else if end - start == 1 {
        let c = path.get_char(start);
        proof {
            assert(piece[0] == c);
            if c == '.' {
                assert(piece =~= current_dir_ref());
            } else {
                assert(current_dir_ref()[0] == '.');
            }
        }
        c != '.'
    } else {
        true
    }
}

/// Whether `component` is `..`.
pub fn is_parent_dir_ref(component: &str) -> (yes: bool)
    ensures
        yes == (component@ == parent_dir_ref()),
{
    if component.unicode_len() != 2 {
        return false;
    }
    let a = component.get_char(0);
    let b = component.get_char(1);
    proof {
        assert(parent_dir_ref()[0] == '.' && parent_dir_ref()[1] == '.');
        if a == '.' && b == '.' {
            assert(component@ =~= parent_dir_ref());
        }
    }
    a == '.' && b == '.'
}

/// Whether `a` and `b` hold the same characters.
pub fn same_text(a: &str, b: &str) -> (same: bool)
    ensures
        same == (a@ == b@),
{
    let n = a.unicode_len();
    if b.unicode_len() != n {
        return false;
    }
    let mut i: usize = 0;
    while i < n
        invariant
            n == a@.len(),
            n == b@.len(),
            i <= n,
            forall|j: int| 0 <= j < i ==> a@[j] == b@[j],
        decreases n - i,
    {
        if a.get_char(i) != b.get_char(i) {
            return false;
        }
        i += 1;
    }
    assert(a@ =~= b@);
    true
}

/// Whether `path` starts at the root.
pub fn path_is_absolute(path: &str) -> (yes: bool)
    ensures
        yes == is_absolute(path@),
{
    path.unicode_len() > 0 && path.get_char(0) == SEPARATOR
}

/// Splits `path` into its components.
pub fn path_components(path: &str) -> (out: Vec<String>)
    ensures
        names(out@) == components(path@),
{
    let n = path.unicode_len();
    let mut out: Vec<String> = Vec::new();
    let mut start: usize = 0;
    let mut i: usize = 0;
    assert(path@.skip(0) =~= path@);
    assert(names(out@) + components(path@.skip(0)) =~= components(path@));
    while i < n
        invariant
            n == path@.len(),
            start <= i <= n,
            forall|j: int| start <= j < i ==> !is_separator(#[trigger] path@[j]),
            names(out@) + components(path@.skip(start as int)) == components(path@),
        decreases n - i,
    {
        let c = path.get_char(i);
        if c == SEPARATOR {
            let ghost tail = path@.skip(start as int);
            let ghost before = names(out@);
            proof {
                assert forall|j: int| 0 <= j < i - start implies !is_separator(
                    #[trigger] tail[j],
                ) by {
                    assert(tail[j] == path@[start + j]);
                }
                lemma_first_separator_at(tail, i - start);
                assert(tail.take(i - start) =~= path@.subrange(start as int, i as int));
                assert(tail.skip(i - start + 1) =~= path@.skip(i + 1));
            }
            if piece_is_component(path, start, i) {
                let piece = path.substring_char(start, i).to_owned();
                out.push(piece);
                assert(names(out@) =~= before + leading_component(tail));
            } else {
                assert(names(out@) =~= before + leading_component(tail));
            }
            assert(names(out@) + components(path@.skip(i + 1)) =~= before + components(tail));
            start = i + 1;
        }
        i += 1;
    }
    let ghost tail = path@.skip(start as int);
    let ghost before = names(out@);
    proof {
        assert forall|j: int| 0 <= j < n - start implies !is_separator(#[trigger] tail[j]) by {
            assert(tail[j] == path@[start + j]);
        }
        lemma_first_separator_at(tail, n - start);
        assert(tail.take(n - start) =~= path@.subrange(start as int, n as int));
    }
    if piece_is_component(path, start, n) {
        let piece = path.substring_char(start, n).to_owned();
        out.push(piece);
    }
    assert(names(out@) =~= before + components(tail));
    out
}

/// Enters the components `comps` one after another, starting from `stack`.
fn resolve_into(stack: Vec<String>, comps: &Vec<String>) -> (out: Vec<String>)
    ensures
        names(out@) == resolve(names(stack@), names(comps@)),
{
    let mut out = stack;
    let ghost all = names(comps@);
    let ghost base = names(out@);
    let mut i: usize = 0;
    assert(all.take(0) =~= Seq::<Seq<char>>::empty());
    while i < comps.len()
        invariant
            i <= comps.len(),
            all == names(comps@),
            names(out@) == resolve(base, all.take(i as int)),
        decreases comps.len() - i,
    {
        let ghost before = names(out@);
        let c = comps[i].clone();
        proof {
            assert(c@ == all[i as int]);
            assert(all.take(i + 1).drop_last() =~= all.take(i as int));
            assert(all.take(i + 1).last() == c@);
        }
        if is_parent_dir_ref(c.as_str()) {
            if out.len() > 0 {
                out.pop();
                assert(names(out@) =~= before.drop_last());
            }
        } else {
            out.push(c);
            assert(names(out@) =~= before.push(c@));
        }
        i += 1;
    }
    assert(all.take(all.len() as int) =~= all);
    out
}

/// An absolute path in normal form: the names that lead to it from the root.
#[derive(Debug, Clone, PartialEq, Eq)]
pub struct NormPath {
    components: Vec<String>,
}

impl View for NormPath {
    type V = Seq<Seq<char>>;

    closed spec fn view(&self) -> Seq<Seq<char>> {
        names(self.components@)
    }
}

impl NormPath {
    /// Whether every component names something: none is empty, `.` or `..`,
    /// and none holds a separator.
    pub open spec fn wf(&self) -> bool {
        all_names(self@)
    }

    /// The names that lead to this path from the root.
    pub fn components(&self) -> (list: &Vec<String>)
        ensures
            names(list@) == self@,
    {
        &self.components
    }

    /// The components of this path followed by those of `relative`.
    pub fn join(&self, relative: &Vec<String>) -> (out: Vec<String>)
        ensures
            names(out@) == self@ + names(relative@),
    {
        let mut out = self.components.clone();
        assert(names(out@) =~= self@ + names(relative@).take(0));
        let mut i: usize = 0;
        while i < relative.len()
            invariant
                i <= relative.len(),
                names(out@) == self@ + names(relative@).take(i as int),
            decreases relative.len() - i,
        {
            let ghost before = names(out@);
            let c = relative[i].clone();
            out.push(c);
            assert(names(out@) =~= before.push(c@));
            assert(names(relative@).take(i + 1) =~= names(relative@).take(i as int).push(c@));
            i += 1;
        }
        assert(names(relative@).take(relative.len() as int) =~= names(relative@));
        out
    }

    /// How many components the path has.
    pub fn component_count(&self) -> (n: usize)
        ensures
            n == self@.len(),
    {
        self.components.len()
    }
}

/// Brings `path` into normal form. A relative path is taken from the working
/// directory `cwd`; if that is not absolute either, there is no absolute form
/// and the path is rejected.
pub fn normalize_path(path: &str, cwd: &str) -> (r: Result<NormPath, CopyError>)
    ensures
        match r {
            Ok(p) => normalized(path@, cwd@) == Some(p@) && p.wf(),
            Err(e) => normalized(path@, cwd@).is_none() && e is Input && e.spec_path() == path@,
        },
{
    let base: Vec<String> = if path_is_absolute(path) {
        Vec::new()
    } else if path_is_absolute(cwd) {
        proof {
            lemma_components_are_steps(cwd@);
            lemma_resolve_names(Seq::empty(), components(cwd@));
        }
        let start: Vec<String> = Vec::new();
        assert(names(start@) =~= Seq::<Seq<char>>::empty());
        resolve_into(start, &path_components(cwd))
    } else {
        return Err(CopyError::Input { path: path.to_owned() });
    };
    assert(is_absolute(path@) ==> names(base@) =~= Seq::<Seq<char>>::empty());
    proof {
        lemma_components_are_steps(path@);
        lemma_resolve_names(names(base@), components(path@));
    }
    let resolved = resolve_into(base, &path_components(path));
    Ok(NormPath { components: resolved })
}

} // verus!
