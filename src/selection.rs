use globset::GlobSet;
use vstd::hash_set::StringHashSet;
use vstd::prelude::*;
use crate::paths::{chars_of, chars_within, within, strictly_within};
use crate::pattern::{matches_any, set_globs, set_is_match};
use crate::target::texts;

verus! {

/// What the directory walk does after an entry was visited.
#[derive(Debug, Clone, Copy, PartialEq, Eq, Structural)]
pub enum WalkStep {
    /// The entry was selected; a directory is entered.
    Keep,
    /// The entry was left out.
    Skip,
    /// The entry is a directory left out with everything beneath it: do not enter it.
    Prune,
}

/// The paths kept so far and the directories pruned so far.
pub type Selected = (Set<Seq<char>>, Set<Seq<char>>);

/// One visited entry: its path and whether it is a directory.
pub type Entry = (Seq<char>, bool);

/// `p` is a pruned directory or lies beneath one.
pub open spec fn covered(pruned: Set<Seq<char>>, p: Seq<char>) -> bool {
    exists|d: Seq<char>| pruned.contains(d) && within(p, d)
}

/// What the walk does with entry `e`, given the exclusion globs and the selection so far.
pub open spec fn step_action(globs: Seq<Seq<char>>, s: Selected, e: Entry) -> WalkStep {
    if covered(s.1, e.0) || matches_any(globs, e.0) {
        if e.1 {
            WalkStep::Prune
        } else {
            WalkStep::Skip
        }
    } else {
        WalkStep::Keep
    }
}

/// The selection after visiting entry `e`. An entry at or beneath a pruned
/// directory is left out without a test; otherwise a matching directory is
/// pruned, a matching file left out, and anything else kept.
pub open spec fn step(globs: Seq<Seq<char>>, s: Selected, e: Entry) -> Selected {
    if covered(s.1, e.0) {
        s
    } else if matches_any(globs, e.0) {
        if e.1 {
            (s.0, s.1.insert(e.0))
        } else {
            s
        }
    } else {
        (s.0.insert(e.0), s.1)
    }
}

/// The selection after visiting `es` in order, starting from `s`.
pub open spec fn run(globs: Seq<Seq<char>>, s: Selected, es: Seq<Entry>) -> Selected
    decreases es.len(),
{
    if es.len() == 0 {
        s
    } else {
        step(globs, run(globs, s, es.drop_last()), es.last())
    }
}

/// The empty selection.
pub open spec fn nothing_selected() -> Selected {
    (Set::empty(), Set::empty())
}

/// No entry comes before an ancestor of it that is also visited, as in a
/// top-down walk.
pub open spec fn parents_first(es: Seq<Entry>) -> bool {
    forall|i: int, j: int|
        0 <= i < j < es.len() ==> !strictly_within(#[trigger] es[i].0, #[trigger] es[j].0)
}

/// `s` with `x` appended holds what `s` holds and `x`.
proof fn lemma_push_to_set(s: Seq<Seq<char>>, x: Seq<char>)
    ensures
        s.push(x).to_set() == s.to_set().insert(x),
{
    assert forall|d: Seq<char>| s.push(x).contains(d) == s.to_set().insert(x).contains(d) by {
        if s.push(x).contains(d) {
            let k = choose|k: int| 0 <= k < s.len() + 1 && s.push(x)[k] == d;
            if k < s.len() {
                assert(s.contains(d));
            }
        }
        if s.contains(d) {
            let k = choose|k: int| 0 <= k < s.len() && s[k] == d;
            assert(s.push(x)[k] == d);
        }
        if d == x {
            assert(s.push(x)[s.len() as int] == d);
        }
    }
    assert(s.push(x).to_set() =~= s.to_set().insert(x));
}

/// Visiting one more entry takes one more step.
proof fn lemma_run_push(globs: Seq<Seq<char>>, s: Selected, es: Seq<Entry>, e: Entry)
    ensures
        run(globs, s, es.push(e)) == step(globs, run(globs, s, es), e),
{
    assert(es.push(e).drop_last() =~= es);
}

/// The files and directories selected from a walk of a target's folders.
///
/// The walker hands each entry to `visit` in top-down order and does not
/// enter a directory for which `visit` answers `Prune`.
pub struct FileSelection {
    set: GlobSet,
    state: Walked,
}

/// What a walk has gathered: the kept paths, as a set and in order, the pruned
/// directories, and the entries visited.
struct Walked {
    kept: StringHashSet,
    order: Vec<String>,
    pruned: Vec<String>,
    visited: Ghost<Seq<Entry>>,
}

impl Walked {
    /// The state holds what a walk of its visited entries gathers.
    spec fn holds(&self, globs: Seq<Seq<char>>) -> bool {
        let r = run(globs, nothing_selected(), self.visited@);
        &&& self.kept@ == r.0
        &&& texts(self.pruned@).to_set() == r.1
        &&& texts(self.order@).to_set() == r.0
        &&& texts(self.order@).no_duplicates()
    }

    /// Nothing visited yet.
    fn empty() -> (r: Walked)
        ensures
            forall|globs: Seq<Seq<char>>| r.holds(globs),
            r.visited@ == Seq::<Entry>::empty(),
    {
        let r = Walked {
            kept: StringHashSet::new(),
            order: Vec::new(),
            pruned: Vec::new(),
            visited: Ghost(Seq::empty()),
        };
        assert(texts(r.pruned@).to_set() =~= Set::empty());
        assert(texts(r.order@).to_set() =~= Set::empty());
        assert(texts(r.order@) =~= Seq::<Seq<char>>::empty());
        r
    }
}

impl FileSelection {
    #[verifier::type_invariant]
    closed spec fn inv(&self) -> bool {
        self.state.holds(set_globs(self.set))
    }

    /// The exclusion globs the entries are tested against.
    pub closed spec fn globs(&self) -> Seq<Seq<char>> {
        set_globs(self.set)
    }

    /// The entries visited so far, in order.
    pub closed spec fn visited(&self) -> Seq<Entry> {
        self.state.visited@
    }

    /// The paths kept and the directories pruned.
    pub open spec fn selected(&self) -> Selected {
        run(self.globs(), nothing_selected(), self.visited())
    }

    /// An empty selection testing entries against `set`.
    pub fn new(set: GlobSet) -> (r: FileSelection)
        ensures
            r.globs() == set_globs(set),
            r.visited() == Seq::<Entry>::empty(),
            r.selected() == nothing_selected(),
    {
        FileSelection { set, state: Walked::empty() }
    }

    /// Visits one entry of the walk and says what the walker does next.
    pub fn visit(&mut self, path: &str, is_dir: bool) -> (r: WalkStep)
        ensures
            final(self).globs() == old(self).globs(),
            final(self).visited() == old(self).visited().push((path@, is_dir)),
            final(self).selected() == step(old(self).globs(), old(self).selected(), (path@, is_dir)),
            r == step_action(old(self).globs(), old(self).selected(), (path@, is_dir)),
    {
        proof {
            use_type_invariant(&*self);
            lemma_run_push(set_globs(self.set), nothing_selected(), self.state.visited@, (path@, is_dir));
        }
        let pc = chars_of(path);
        let is_covered = pruned_cover(&self.state.pruned, &pc);
        let matches = !is_covered && set_is_match(&self.set, path);
        let mut st = Walked::empty();
        std::mem::swap(&mut st, &mut self.state);
        let ghost now = st.visited@.push((path@, is_dir));
        let step = if is_covered {
            if is_dir {
                WalkStep::Prune
            } else {
                WalkStep::Skip
            }
        } else if matches {
            if is_dir {
                proof {
                    lemma_push_to_set(texts(st.pruned@), path@);
                }
                let ghost before = texts(st.pruned@);
                st.pruned.push(String::from_str(path));
                assert(texts(st.pruned@) =~= before.push(path@));
                WalkStep::Prune
            } else {
                WalkStep::Skip
            }
        } else {
            let ghost before_kept = st.kept@;
            let fresh = st.kept.insert(String::from_str(path));
            let ghost before = texts(st.order@);
            if fresh {
                proof {
                    lemma_push_to_set(before, path@);
                }
                st.order.push(String::from_str(path));
                assert(texts(st.order@) =~= before.push(path@));
                assert(!before.contains(path@));
            } else {
                assert(before_kept.insert(path@) =~= before_kept);
            }
            WalkStep::Keep
        };
        st.visited = Ghost(now);
        std::mem::swap(&mut st, &mut self.state);
        step
    }

    /// Whether `path` was selected.
    pub fn contains(&self, path: &str) -> (r: bool)
        ensures
            r == self.selected().0.contains(path@),
    {
        proof {
            use_type_invariant(self);
        }
        self.state.kept.contains(path)
    }

    /// How many distinct paths were selected.
    pub fn count(&self) -> (r: usize)
        ensures
            r == self.selected().0.len(),
    {
        proof {
            use_type_invariant(self);
        }
        self.state.kept.len()
    }

    /// The selected paths, each once, in the order they were first kept.
    pub fn paths(&self) -> (r: &Vec<String>)
        ensures
            texts(r@).to_set() == self.selected().0,
            texts(r@).no_duplicates(),
    {
        proof {
            use_type_invariant(self);
        }
        &self.state.order
    }
}

/// Whether `p` is one of the directories `pruned` or lies beneath one.
fn pruned_cover(pruned: &Vec<String>, p: &Vec<char>) -> (r: bool)
    ensures
        r == covered(texts(pruned@).to_set(), p@),
{
    let n = pruned.len();
    let mut i: usize = 0;
    while i < n
        invariant
            n == pruned@.len(),
            i <= n,
            forall|j: int| 0 <= j < i ==> !within(p@, #[trigger] texts(pruned@)[j]),
        decreases n - i,
    {
        let d = chars_of(pruned[i].as_str());
        if chars_within(p, &d) {
            proof {
                let t = texts(pruned@);
                assert(t[i as int] == d@);
                assert(t.contains(d@));
                assert(t.to_set().contains(d@));
            }
            return true;
        }
        i = i + 1;
    }
    proof {
        let t = texts(pruned@);
        if covered(t.to_set(), p@) {
            let d = choose|d: Seq<char>| t.to_set().contains(d) && within(p@, d);
            assert(t.contains(d));
            let k = choose|k: int| 0 <= k < t.len() && t[k] == d;
            assert(!within(p@, t[k]));
        }
    }
    false
}

/// Entry `e` changes nothing when visited again in selection `s`.
pub open spec fn settled(globs: Seq<Seq<char>>, s: Selected, e: Entry) -> bool {
    ||| covered(s.1, e.0)
    ||| (matches_any(globs, e.0) && !e.1)
    ||| (!matches_any(globs, e.0) && s.0.contains(e.0))
}

/// `a` holds no more than `b`.
pub open spec fn grows(a: Selected, b: Selected) -> bool {
    a.0.subset_of(b.0) && a.1.subset_of(b.1)
}

proof fn lemma_step_grows(globs: Seq<Seq<char>>, s: Selected, e: Entry)
    ensures
        grows(s, step(globs, s, e)),
        settled(globs, step(globs, s, e), e),
{
    let t = step(globs, s, e);
    if !covered(s.1, e.0) && matches_any(globs, e.0) && e.1 {
        assert(e.0.subrange(0, e.0.len() as int) =~= e.0);
        assert(t.1.contains(e.0) && within(e.0, e.0));
    }
}

proof fn lemma_settled_grows(globs: Seq<Seq<char>>, a: Selected, b: Selected, e: Entry)
    requires
        settled(globs, a, e),
        grows(a, b),
    ensures
        settled(globs, b, e),
{
    if covered(a.1, e.0) {
        let d = choose|d: Seq<char>| a.1.contains(d) && within(e.0, d);
        assert(b.1.contains(d));
    }
}

proof fn lemma_settled_step(globs: Seq<Seq<char>>, s: Selected, e: Entry)
    requires
        settled(globs, s, e),
    ensures
        step(globs, s, e) == s,
{
    if !covered(s.1, e.0) && !matches_any(globs, e.0) {
        assert(s.0.insert(e.0) =~= s.0);
    }
}

proof fn lemma_run_grows(globs: Seq<Seq<char>>, s: Selected, es: Seq<Entry>)
    ensures
        grows(s, run(globs, s, es)),
        forall|k: int| 0 <= k < es.len() ==> settled(globs, run(globs, s, es), #[trigger] es[k]),
    decreases es.len(),
{
    if es.len() > 0 {
        let prev = es.drop_last();
        lemma_run_grows(globs, s, prev);
        let t = run(globs, s, prev);
        lemma_step_grows(globs, t, es.last());
        assert forall|k: int| 0 <= k < es.len() implies settled(
            globs,
            run(globs, s, es),
            #[trigger] es[k],
        ) by {
            if k < es.len() - 1 {
                assert(es[k] == prev[k]);
                lemma_settled_grows(globs, t, run(globs, s, es), es[k]);
            }
        }
    }
}

proof fn lemma_run_settled(globs: Seq<Seq<char>>, s: Selected, es: Seq<Entry>)
    requires
        forall|k: int| 0 <= k < es.len() ==> settled(globs, s, #[trigger] es[k]),
    ensures
        run(globs, s, es) == s,
    decreases es.len(),
{
    if es.len() > 0 {
        let prev = es.drop_last();
        assert forall|k: int| 0 <= k < prev.len() implies settled(globs, s, #[trigger] prev[k]) by {
            assert(prev[k] == es[k]);
        }
        lemma_run_settled(globs, s, prev);
        lemma_settled_step(globs, s, es.last());
    }
}

/// Visiting the same entries a second time changes nothing: a walk repeated
/// over an unchanged tree leaves the same selection.
pub proof fn lemma_rerun_unchanged(globs: Seq<Seq<char>>, s: Selected, es: Seq<Entry>)
    ensures
        run(globs, run(globs, s, es), es) == run(globs, s, es),
{
    lemma_run_grows(globs, s, es);
    lemma_run_settled(globs, run(globs, s, es), es);
}

/// The paths of `es`.
pub open spec fn entry_paths(es: Seq<Entry>) -> Set<Seq<char>> {
    Set::new(|p: Seq<char>| exists|k: int| 0 <= k < es.len() && (#[trigger] es[k]).0 == p)
}

proof fn lemma_pruning_invariant(globs: Seq<Seq<char>>, es: Seq<Entry>)
    requires
        parents_first(es),
    ensures
        run(globs, nothing_selected(), es).0.subset_of(entry_paths(es)),
        forall|p: Seq<char>|
            #[trigger] run(globs, nothing_selected(), es).0.contains(p) ==> !matches_any(globs, p),
        forall|p: Seq<char>, d: Seq<char>|
            #[trigger] run(globs, nothing_selected(), es).0.contains(p) && #[trigger] run(
                globs,
                nothing_selected(),
                es,
            ).1.contains(d) ==> !strictly_within(p, d),
    decreases es.len(),
{
    if es.len() > 0 {
        let prev = es.drop_last();
        let e = es.last();
        assert(parents_first(prev)) by {
            assert forall|i: int, j: int| 0 <= i < j < prev.len() implies !strictly_within(
                #[trigger] prev[i].0,
                #[trigger] prev[j].0,
            ) by {
                assert(prev[i] == es[i] && prev[j] == es[j]);
            }
        }
        lemma_pruning_invariant(globs, prev);
        let t = run(globs, nothing_selected(), prev);
        let u = run(globs, nothing_selected(), es);
        assert forall|p: Seq<char>| t.0.contains(p) implies #[trigger] entry_paths(es).contains(p) by {
            assert(entry_paths(prev).contains(p));
            let k = choose|k: int| 0 <= k < prev.len() && (#[trigger] prev[k]).0 == p;
            assert(es[k] == prev[k]);
        }
        if !covered(t.1, e.0) && !matches_any(globs, e.0) {
            assert(entry_paths(es).contains(e.0)) by {
                assert(es[es.len() - 1].0 == e.0);
            }
            assert forall|p: Seq<char>, d: Seq<char>|
                #[trigger] u.0.contains(p) && #[trigger] u.1.contains(d) implies !strictly_within(
                p,
                d,
            ) by {
                if p == e.0 {
                    assert(!within(p, d));
                }
            }
        }
        if !covered(t.1, e.0) && matches_any(globs, e.0) && e.1 {
            assert forall|p: Seq<char>, d: Seq<char>|
                #[trigger] u.0.contains(p) && #[trigger] u.1.contains(d) implies !strictly_within(
                p,
                d,
            ) by {
                if d == e.0 {
                    assert(entry_paths(prev).contains(p));
                    let k = choose|k: int| 0 <= k < prev.len() && (#[trigger] prev[k]).0 == p;
                    assert(es[k] == prev[k]);
                    assert(!strictly_within(es[k].0, es[es.len() - 1].0));
                }
            }
        }
        assert(u.0.subset_of(entry_paths(es)));
    }
}

/// In a top-down walk nothing beneath a pruned directory is selected, and no
/// selected path matches an exclusion glob, even where a path beneath a
/// pruned directory would match none.
pub proof fn lemma_nothing_selected_beneath_pruned(
    globs: Seq<Seq<char>>,
    es: Seq<Entry>,
    p: Seq<char>,
    d: Seq<char>,
)
    requires
        parents_first(es),
        run(globs, nothing_selected(), es).0.contains(p),
    ensures
        !matches_any(globs, p),
        run(globs, nothing_selected(), es).1.contains(d) ==> !strictly_within(p, d),
{
    lemma_pruning_invariant(globs, es);
}

/// Visiting `a` then `b` is visiting `a` and then visiting `b` from there.
proof fn lemma_run_concat(globs: Seq<Seq<char>>, s: Selected, a: Seq<Entry>, b: Seq<Entry>)
    ensures
        run(globs, s, a + b) == run(globs, run(globs, s, a), b),
    decreases b.len(),
{
    if b.len() == 0 {
        assert(a + b =~= a);
    } else {
        lemma_run_concat(globs, s, a, b.drop_last());
        assert((a + b).drop_last() =~= a + b.drop_last());
        assert((a + b).last() == b.last());
    }
}

/// Two selections over the same globs that visited the same entries hold the
/// same paths: a walk over an unchanged tree selects the same files each time.
pub proof fn lemma_same_walk_same_selection(a: FileSelection, b: FileSelection)
    requires
        a.globs() == b.globs(),
        a.visited() == b.visited(),
    ensures
        a.selected() == b.selected(),
        a.selected().0.len() == b.selected().0.len(),
{
}

/// A selection that visited the same walk twice holds what one walk selects.
pub proof fn lemma_walk_twice(sel: FileSelection, es: Seq<Entry>)
    requires
        sel.visited() == es + es,
    ensures
        sel.selected() == run(sel.globs(), nothing_selected(), es),
{
    lemma_run_concat(sel.globs(), nothing_selected(), es, es);
    lemma_rerun_unchanged(sel.globs(), nothing_selected(), es);
}

/// After a top-down walk, no selected path matches an exclusion glob and none
/// lies beneath a pruned directory.
pub proof fn lemma_selection_pruned(sel: FileSelection, p: Seq<char>, d: Seq<char>)
    requires
        parents_first(sel.visited()),
        sel.selected().0.contains(p),
    ensures
        !matches_any(sel.globs(), p),
        sel.selected().1.contains(d) ==> !strictly_within(p, d),
{
    lemma_nothing_selected_beneath_pruned(sel.globs(), sel.visited(), p, d);
}

} // verus!
