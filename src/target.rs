use globset::GlobSet;
use vstd::prelude::*;
use crate::paths::{ancestor_cut, chars_of, chars_within, is_ancestor_cut, within, strictly_within};
use crate::pattern::{set_builds, compile_set, glob_accepts, glob_texts, matches_any, normal_form, set_globs, set_is_match, MyGlob};
use vstd::string::StrSliceExecFns;
use crate::selection::{nothing_selected, FileSelection};

verus! {

/// How a path relates to a backup target.
#[derive(Debug, Clone, Copy, PartialEq, Eq, Structural)]
pub enum BackupFileSelectionType {
    /// Neither inside the target nor above any of its folders.
    Irrelevant,
    /// Above the target: some folder of the target lies beneath it.
    Contains,
    /// Inside the target and backed up.
    Included,
    /// Inside the target but excluded by a pattern on it or on an ancestor.
    Excluded,
}

/// Why a target could not be built, changed or queried.
#[derive(Debug, Clone, Copy, PartialEq, Eq, Structural)]
pub enum TargetError {
    /// A folder or a queried path could not be resolved.
    PathResolutionError,
    /// A text is not a valid shell glob.
    PatternSyntaxError,
}

/// The folders, exclusion patterns and tags of one backup job.
///
/// Folders are resolved absolute paths; the caller resolves them (symlinks and
/// relative segments removed) and hands `None` for one that did not resolve.
#[derive(Debug)]
pub struct BackupTarget {
    pub folders: Vec<String>,
    pub exclusions: Vec<MyGlob>,
    pub tags: Vec<String>,
}

/// The texts of the strings in `v`.
pub open spec fn texts(v: Seq<String>) -> Seq<Seq<char>> {
    v.map_values(|s: String| s@)
}

/// Every entry of `v` resolved.
pub open spec fn all_resolved(v: Seq<Option<String>>) -> bool {
    forall|i: int| 0 <= i < v.len() ==> (#[trigger] v[i]) is Some
}

/// The texts of the resolved entries of `v`, all of which are resolved.
pub open spec fn resolved_texts(v: Seq<Option<String>>) -> Seq<Seq<char>> {
    v.map_values(|o: Option<String>| o->Some_0@)
}

/// `p` is one of `folders` or lies beneath one.
pub open spec fn in_folders(folders: Seq<Seq<char>>, p: Seq<char>) -> bool {
    exists|i: int| 0 <= i < folders.len() && within(p, #[trigger] folders[i])
}

/// Some ancestor of `p`, `p` itself and the root included, matches a glob of `globs`.
pub open spec fn excluded(globs: Seq<Seq<char>>, p: Seq<char>) -> bool {
    exists|i: int| ancestor_cut(p, i) && #[trigger] matches_any(globs, p.subrange(0, i))
}

/// Some folder, as it resolves now, is `p` or lies beneath it.
pub open spec fn holds_folder(resolved: Seq<Option<String>>, p: Seq<char>) -> bool {
    exists|i: int|
        0 <= i < resolved.len() && (#[trigger] resolved[i]) is Some && within(
            resolved[i]->Some_0@,
            p,
        )
}

/// How the resolved path `p` relates to a target with these folders and
/// exclusion globs, given what each folder resolves to now.
pub open spec fn classification(
    folders: Seq<Seq<char>>,
    globs: Seq<Seq<char>>,
    resolved: Seq<Option<String>>,
    p: Seq<char>,
) -> BackupFileSelectionType {
    if in_folders(folders, p) {
        if excluded(globs, p) {
            BackupFileSelectionType::Excluded
        } else {
            BackupFileSelectionType::Included
        }
    } else if holds_folder(resolved, p) {
        BackupFileSelectionType::Contains
    } else {
        BackupFileSelectionType::Irrelevant
    }
}

impl PartialEq for BackupTarget {
    fn eq(&self, o: &BackupTarget) -> (r: bool) {
        same_texts(&self.folders, &o.folders) && same_globs(&self.exclusions, &o.exclusions)
            && same_texts(&self.tags, &o.tags)
    }
}

impl vstd::std_specs::cmp::PartialEqSpecImpl for BackupTarget {
    open spec fn obeys_eq_spec() -> bool {
        true
    }

    open spec fn eq_spec(&self, o: &BackupTarget) -> bool {
        &&& self.folder_texts() == o.folder_texts()
        &&& self.globs() == o.globs()
        &&& texts(self.tags@) == texts(o.tags@)
    }
}

/// Whether `a` and `b` hold the same texts in the same order.
fn same_texts(a: &Vec<String>, b: &Vec<String>) -> (r: bool)
    ensures
        r == (texts(a@) == texts(b@)),
{
    if a.len() != b.len() {
        assert(texts(a@).len() != texts(b@).len());
        return false;
    }
    let n = a.len();
    let mut i: usize = 0;
    while i < n
        invariant
            n == a@.len(),
            n == b@.len(),
            i <= n,
            forall|j: int| 0 <= j < i ==> texts(a@)[j] == texts(b@)[j],
        decreases n - i,
    {
        if a[i] != b[i] {
            assert(texts(a@)[i as int] != texts(b@)[i as int]);
            return false;
        }
        i = i + 1;
    }
    assert(texts(a@) =~= texts(b@));
    true
}

/// Whether `a` and `b` hold the same patterns in the same order.
fn same_globs(a: &Vec<MyGlob>, b: &Vec<MyGlob>) -> (r: bool)
    ensures
        r == (glob_texts(a@) == glob_texts(b@)),
{
    if a.len() != b.len() {
        assert(glob_texts(a@).len() != glob_texts(b@).len());
        return false;
    }
    let n = a.len();
    let mut i: usize = 0;
    while i < n
        invariant
            n == a@.len(),
            n == b@.len(),
            i <= n,
            forall|j: int| 0 <= j < i ==> glob_texts(a@)[j] == glob_texts(b@)[j],
        decreases n - i,
    {
        if a[i] != b[i] {
            assert(glob_texts(a@)[i as int] != glob_texts(b@)[i as int]);
            return false;
        }
        i = i + 1;
    }
    assert(glob_texts(a@) =~= glob_texts(b@));
    true
}

impl Default for BackupTarget {
    /// A target with no folders, exclusions or tags.
    fn default() -> (r: BackupTarget)
        ensures
            r.folders@.len() == 0 && r.exclusions@.len() == 0 && r.tags@.len() == 0,
    {
        BackupTarget { folders: Vec::new(), exclusions: Vec::new(), tags: Vec::new() }
    }
}

impl BackupTarget {
    /// The folder paths.
    pub open spec fn folder_texts(&self) -> Seq<Seq<char>> {
        texts(self.folders@)
    }

    /// The exclusion globs.
    pub open spec fn globs(&self) -> Seq<Seq<char>> {
        glob_texts(self.exclusions@)
    }

    /// Every exclusion pattern is in stored form and valid.
    pub open spec fn wf(&self) -> bool {
        all_wf(self.exclusions@)
    }

    /// Builds a target from its folders as they resolved, its patterns and tags.
    /// Fails if any folder did not resolve.
    pub fn new(folders: Vec<Option<String>>, exclusions: Vec<MyGlob>, tags: Vec<String>) -> (r:
        Result<BackupTarget, TargetError>)
        ensures
            r is Err <==> !all_resolved(folders@),
            r is Err ==> r->Err_0 == TargetError::PathResolutionError,
            r is Ok ==> ({
                let t = r->Ok_0;
                &&& t.folder_texts() == resolved_texts(folders@)
                &&& t.exclusions@ == exclusions@
                &&& t.tags@ == tags@
            }),
    {
        match resolve_all(&folders) {
            Some(resolved) => Ok(BackupTarget { folders: resolved, exclusions, tags }),
            None => Err(TargetError::PathResolutionError),
        }
    }

    /// Builds a target from its folders as they resolved, the patterns as the
    /// user wrote them, and tags. A folder that did not resolve is reported
    /// before an invalid pattern.
    pub fn new_from_string(folders: Vec<Option<String>>, exclusions: Vec<String>, tags: Vec<String>) -> (r:
        Result<BackupTarget, TargetError>)
        ensures
            r is Ok <==> all_resolved(folders@) && all_accepted(texts(exclusions@)),
            !all_resolved(folders@) ==> r == Err::<BackupTarget, TargetError>(
                TargetError::PathResolutionError,
            ),
            all_resolved(folders@) && !all_accepted(texts(exclusions@)) ==> r == Err::<
                BackupTarget,
                TargetError,
            >(TargetError::PatternSyntaxError),
            r is Ok ==> ({
                let t = r->Ok_0;
                &&& t.wf()
                &&& t.folder_texts() == resolved_texts(folders@)
                &&& t.globs() == stored_forms(texts(exclusions@))
                &&& t.tags@ == tags@
            }),
    {
        match resolve_all(&folders) {
            None => Err(TargetError::PathResolutionError),
            Some(resolved) => match parse_all(&exclusions) {
                Ok(pats) => Ok(BackupTarget { folders: resolved, exclusions: pats, tags }),
                Err(e) => Err(e),
            },
        }
    }

    /// Appends a folder as it resolved; fails, changing nothing, if it did not.
    /// A folder already present or covered by another is appended all the same.
    pub fn add_folder(&mut self, folder: Option<String>) -> (r: Result<(), TargetError>)
        ensures
            r is Err <==> folder is None,
            r is Err ==> r->Err_0 == TargetError::PathResolutionError,
            r is Ok ==> final(self).folders@ == old(self).folders@.push(folder->Some_0),
            r is Err ==> final(self).folders@ == old(self).folders@,
            final(self).exclusions@ == old(self).exclusions@,
            final(self).tags@ == old(self).tags@,
    {
        match folder {
            Some(path) => {
                self.folders.push(path);
                Ok(())
            },
            None => Err(TargetError::PathResolutionError),
        }
    }

    /// Compiles the exclusion patterns into one matcher.
    pub fn get_exclusions_as_globset(&self) -> (r: Result<GlobSet, TargetError>)
        ensures
            r is Ok <==> set_builds(self.globs()),
            self.exclusions@.len() == 0 ==> r is Ok,
            r is Ok ==> set_globs(r->Ok_0) == self.globs(),
            r is Err ==> r->Err_0 == TargetError::PatternSyntaxError,
    {
        match compile_set(&self.exclusions) {
            Ok(set) => Ok(set),
            Err(_) => Err(TargetError::PatternSyntaxError),
        }
    }

    /// An empty selection of this target's files, testing each visited entry
    /// against the exclusions.
    pub fn start_selection(&self) -> (r: Result<FileSelection, TargetError>)
        ensures
            r is Ok <==> set_builds(self.globs()),
            r is Ok ==> r->Ok_0.globs() == self.globs() && r->Ok_0.selected() == nothing_selected(),
            r is Err ==> r->Err_0 == TargetError::PatternSyntaxError,
    {
        match self.get_exclusions_as_globset() {
            Ok(set) => Ok(FileSelection::new(set)),
            Err(e) => Err(e),
        }
    }

    /// How the resolved path `path` relates to this target, with `set` the
    /// compiled exclusions and `resolved` what each folder resolves to now.
    pub fn classify_with(&self, set: &GlobSet, path: &str, resolved: &Vec<Option<String>>) -> (r:
        BackupFileSelectionType)
        requires
            set_globs(*set) == self.globs(),
        ensures
            r == classification(self.folder_texts(), self.globs(), resolved@, path@),
    {
        let pc = chars_of(path);
        if in_any_folder(&self.folders, &pc) {
            if any_ancestor_matches(set, path, &pc) {
                BackupFileSelectionType::Excluded
            } else {
                BackupFileSelectionType::Included
            }
        } else if any_folder_beneath(resolved, &pc) {
            BackupFileSelectionType::Contains
        } else {
            BackupFileSelectionType::Irrelevant
        }
    }

    /// How a queried path relates to this target: `path` is what it resolved
    /// to (`None` if it did not) and `resolved` what each folder resolves to now.
    pub fn check_path_is_in_backup(&self, path: Option<String>, resolved: &Vec<Option<String>>) -> (r:
        Result<BackupFileSelectionType, TargetError>)
        ensures
            path is None ==> r == Err::<BackupFileSelectionType, TargetError>(
                TargetError::PathResolutionError,
            ),
            path is Some && r is Ok ==> r->Ok_0 == classification(
                self.folder_texts(),
                self.globs(),
                resolved@,
                path->Some_0@,
            ),
            path is Some ==> (r is Ok <==> set_builds(self.globs())),
            path is Some && r is Err ==> r->Err_0 == TargetError::PatternSyntaxError,
    {
        match path {
            None => Err(TargetError::PathResolutionError),
            Some(p) => match self.get_exclusions_as_globset() {
                Ok(set) => Ok(self.classify_with(&set, p.as_str(), resolved)),
                Err(e) => Err(e),
            },
        }
    }
}

/// Whether `p` is one of `folders` or lies beneath one.
fn in_any_folder(folders: &Vec<String>, p: &Vec<char>) -> (r: bool)
    ensures
        r == in_folders(texts(folders@), p@),
{
    let n = folders.len();
    let mut i: usize = 0;
    while i < n
        invariant
            n == folders@.len(),
            i <= n,
            forall|j: int| 0 <= j < i ==> !within(p@, #[trigger] texts(folders@)[j]),
        decreases n - i,
    {
        let f = chars_of(folders[i].as_str());
        if chars_within(p, &f) {
            assert(within(p@, texts(folders@)[i as int]));
            return true;
        }
        i = i + 1;
    }
    false
}

/// Whether some ancestor of `path` (itself and the root included) matches `set`.
fn any_ancestor_matches(set: &GlobSet, path: &str, pc: &Vec<char>) -> (r: bool)
    requires
        pc@ == path@,
    ensures
        r == excluded(set_globs(*set), path@),
{
    let n = pc.len();
    let mut i: usize = 0;
    while i < n
        invariant
            n == pc@.len(),
            i <= n,
            pc@ == path@,
            forall|j: int|
                0 <= j <= i ==> !(ancestor_cut(path@, j) && #[trigger] matches_any(
                    set_globs(*set),
                    path@.subrange(0, j),
                )),
        decreases n - i,
    {
        let k = i + 1;
        if is_ancestor_cut(pc, k) {
            let a = path.substring_char(0, k);
            if set_is_match(set, a) {
                assert(matches_any(set_globs(*set), path@.subrange(0, k as int)));
                return true;
            }
        }
        i = k;
    }
    assert forall|j: int| ancestor_cut(path@, j) implies !#[trigger] matches_any(
        set_globs(*set),
        path@.subrange(0, j),
    ) by {
        assert(0 <= j <= i);
    }
    false
}

/// Whether some folder, as it resolves now, is `p` or lies beneath it.
fn any_folder_beneath(resolved: &Vec<Option<String>>, p: &Vec<char>) -> (r: bool)
    ensures
        r == holds_folder(resolved@, p@),
{
    let n = resolved.len();
    let mut i: usize = 0;
    while i < n
        invariant
            n == resolved@.len(),
            i <= n,
            forall|j: int|
                0 <= j < i ==> !((#[trigger] resolved@[j]) is Some && within(
                    resolved@[j]->Some_0@,
                    p@,
                )),
        decreases n - i,
    {
        match &resolved[i] {
            Some(f) => {
                let fc = chars_of(f.as_str());
                if chars_within(&fc, p) {
                    return true;
                }
            },
            None => {},
        }
        i = i + 1;
    }
    false
}

/// The folders as they resolved, or `None` if one did not.
fn resolve_all(folders: &Vec<Option<String>>) -> (r: Option<Vec<String>>)
    ensures
        r is Some <==> all_resolved(folders@),
        r is Some ==> texts(r->Some_0@) == resolved_texts(folders@),
{
        let mut resolved: Vec<String> = Vec::new();
        let mut i: usize = 0;
        let n = folders.len();
        let ghost given = folders@;
        while i < n
            invariant
                n == given.len(),
                folders@ == given,
                i <= n,
                forall|j: int| 0 <= j < i ==> (#[trigger] given[j]) is Some,
                resolved@.len() == i,
                texts(resolved@) == resolved_texts(given.subrange(0, i as int)),
            decreases n - i,
        {
            match &folders[i] {
                Some(path) => {
                    let ghost before = resolved@;
                    resolved.push(path.clone());
                    assert(resolved@ == before.push(resolved@.last()));
                    assert(texts(resolved@) =~= resolved_texts(given.subrange(0, i + 1))) by {
                        assert(texts(before) == resolved_texts(given.subrange(0, i as int)));
                        assert forall|j: int| 0 <= j < i implies texts(resolved@)[j]
                            == resolved_texts(given.subrange(0, i + 1))[j] by {
                            assert(texts(before)[j] == resolved_texts(
                                given.subrange(0, i as int),
                            )[j]);
                            assert(given.subrange(0, i as int)[j] == given[j]);
                            assert(given.subrange(0, i + 1)[j] == given[j]);
                        }
                    };
                },
                None => {
                    return None;
                },
            }
            i = i + 1;
        }
        assert(given.subrange(0, n as int) =~= given);
        Some(resolved)
}

/// The patterns written in `raw`, in order, or an error at the first invalid one.
fn parse_all(raw: &Vec<String>) -> (r: Result<Vec<MyGlob>, TargetError>)
    ensures
        r is Ok <==> all_accepted(texts(raw@)),
        r is Err ==> r->Err_0 == TargetError::PatternSyntaxError,
        r is Ok ==> glob_texts(r->Ok_0@) == stored_forms(texts(raw@)) && all_wf(r->Ok_0@),
{
    let mut out: Vec<MyGlob> = Vec::new();
    let n = raw.len();
    let mut i: usize = 0;
    while i < n
        invariant
            n == raw@.len(),
            i <= n,
            out@.len() == i,
            all_wf(out@),
            forall|j: int| 0 <= j < i ==> glob_accepts(normal_form(#[trigger] raw@[j]@)),
            forall|j: int| 0 <= j < i ==> (#[trigger] out@[j])@ == normal_form(raw@[j]@),
        decreases n - i,
    {
        match MyGlob::parse(raw[i].as_str()) {
            Ok(p) => {
                out.push(p);
            },
            Err(_) => {
                assert(!all_accepted(texts(raw@))) by {
                    assert(texts(raw@)[i as int] == raw@[i as int]@);
                };
                return Err(TargetError::PatternSyntaxError);
            },
        }
        i = i + 1;
    }
    assert(glob_texts(out@) =~= stored_forms(texts(raw@)));
    Ok(out)
}

/// Every text of `raw` is a valid pattern once put in stored form.
pub open spec fn all_accepted(raw: Seq<Seq<char>>) -> bool {
    forall|i: int| 0 <= i < raw.len() ==> glob_accepts(normal_form(#[trigger] raw[i]))
}

/// The stored forms of the pattern texts `raw`.
pub open spec fn stored_forms(raw: Seq<Seq<char>>) -> Seq<Seq<char>> {
    raw.map_values(|r: Seq<char>| normal_form(r))
}

/// Every pattern of `v` is in stored form and valid.
pub open spec fn all_wf(v: Seq<MyGlob>) -> bool {
    forall|i: int| 0 <= i < v.len() ==> (#[trigger] v[i]).wf()
}

/// Each folder that still resolves resolves to itself.
pub open spec fn folders_unchanged(folders: Seq<Seq<char>>, resolved: Seq<Option<String>>) -> bool {
    &&& resolved.len() == folders.len()
    &&& forall|i: int|
        0 <= i < resolved.len() && (#[trigger] resolved[i]) is Some ==> resolved[i]->Some_0@
            == folders[i]
}

/// With no exclusion patterns, every path inside a folder is included.
pub proof fn lemma_inside_without_exclusions_included(
    folders: Seq<Seq<char>>,
    resolved: Seq<Option<String>>,
    p: Seq<char>,
)
    requires
        in_folders(folders, p),
    ensures
        classification(folders, Seq::empty(), resolved, p) == BackupFileSelectionType::Included,
{
    assert forall|i: int| ancestor_cut(p, i) implies !#[trigger] matches_any(
        Seq::empty(),
        p.subrange(0, i),
    ) by {}
}

/// A path inside a folder with an ancestor (itself included) that matches an
/// exclusion glob is excluded.
pub proof fn lemma_matching_ancestor_excluded(
    folders: Seq<Seq<char>>,
    globs: Seq<Seq<char>>,
    resolved: Seq<Option<String>>,
    p: Seq<char>,
    cut: int,
)
    requires
        in_folders(folders, p),
        ancestor_cut(p, cut),
        matches_any(globs, p.subrange(0, cut)),
    ensures
        classification(folders, globs, resolved, p) == BackupFileSelectionType::Excluded,
{
}

/// A path that is a strict ancestor of a folder, and not inside any folder,
/// contains the target.
pub proof fn lemma_above_folder_contains(
    folders: Seq<Seq<char>>,
    globs: Seq<Seq<char>>,
    resolved: Seq<Option<String>>,
    p: Seq<char>,
    k: int,
)
    requires
        folders_unchanged(folders, resolved),
        !in_folders(folders, p),
        0 <= k < folders.len(),
        resolved[k] is Some,
        strictly_within(folders[k], p),
    ensures
        classification(folders, globs, resolved, p) == BackupFileSelectionType::Contains,
{
    assert(within(resolved[k]->Some_0@, p));
}

/// A path that is neither inside nor above any folder is irrelevant.
pub proof fn lemma_unrelated_irrelevant(
    folders: Seq<Seq<char>>,
    globs: Seq<Seq<char>>,
    resolved: Seq<Option<String>>,
    p: Seq<char>,
)
    requires
        folders_unchanged(folders, resolved),
        forall|i: int|
            0 <= i < folders.len() ==> !within(p, #[trigger] folders[i]) && !within(folders[i], p),
    ensures
        classification(folders, globs, resolved, p) == BackupFileSelectionType::Irrelevant,
{
    assert(!holds_folder(resolved, p)) by {
        if holds_folder(resolved, p) {
            let i = choose|i: int|
                0 <= i < resolved.len() && (#[trigger] resolved[i]) is Some && within(
                    resolved[i]->Some_0@,
                    p,
                );
            assert(!within(folders[i], p));
        }
    }
}

} // verus!
