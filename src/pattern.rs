use globset::{Glob, GlobBuilder, GlobSet};
use vstd::prelude::*;
use vstd::string::{StrSliceExecFns, StringExecFns};
use crate::paths::{chars_of, is_sep};

verus! {

#[verifier::external_type_specification]
#[verifier::external_body]
pub struct ExGlob(Glob);

#[verifier::external_type_specification]
#[verifier::external_body]
pub struct ExGlobSet(GlobSet);

#[verifier::external_type_specification]
#[verifier::external_body]
pub struct ExGlobError(globset::Error);

/// Whether globset accepts `glob` as the text of a shell glob built with
/// `literal_separator` set, so that `*` and `?` never match a `/`.
pub uninterp spec fn glob_accepts(glob: Seq<char>) -> bool;

/// Whether the shell glob with text `glob`, built with `literal_separator` set,
/// matches `path`: `*` and `?` stay within one component, `**` crosses them.
pub uninterp spec fn glob_matches(glob: Seq<char>, path: Seq<char>) -> bool;

/// The texts of the globs that a compiled set holds, in the order they were given.
pub uninterp spec fn set_globs(set: GlobSet) -> Seq<Seq<char>>;

/// Whether globset builds one set from the globs with these texts.
pub uninterp spec fn set_builds(globs: Seq<Seq<char>>) -> bool;

/// The glob texts of the patterns in `v`.
pub open spec fn glob_texts(v: Seq<MyGlob>) -> Seq<Seq<char>> {
    v.map_values(|p: MyGlob| p@)
}

/// Some glob of `globs` matches `path`.
pub open spec fn matches_any(globs: Seq<Seq<char>>, path: Seq<char>) -> bool {
    exists|i: int| 0 <= i < globs.len() && glob_matches(#[trigger] globs[i], path)
}

/// Relies on `globset::GlobBuilder::build` with `literal_separator` set: whether
/// it builds a glob depends on the text alone.
#[verifier::external_body]
fn compile_glob(text: &str) -> (r: Result<Glob, globset::Error>)
    ensures
        r.is_ok() == glob_accepts(text@),
{
    GlobBuilder::new(text).literal_separator(true).build()
}

/// Relies on `globset::GlobSet::new`: whether it builds depends on the globs
/// alone, no globs give the empty set, and a set built from globs holds exactly
/// those globs. The glob of each pattern is the one `MyGlob::parse` built from
/// its text.
#[verifier::external_body]
pub(crate) fn compile_set(pats: &Vec<MyGlob>) -> (r: Result<GlobSet, globset::Error>)
    ensures
        r is Ok <==> set_builds(glob_texts(pats@)),
        pats@.len() == 0 ==> r is Ok,
        r is Ok ==> set_globs(r->Ok_0) == glob_texts(pats@),
{
    GlobSet::new(pats.iter().map(|p| &p.glob))
}

/// Relies on `globset::GlobSet::is_match`: true if any glob in the set matches the path.
#[verifier::external_body]
pub(crate) fn set_is_match(set: &GlobSet, path: &str) -> (r: bool)
    ensures
        r == (exists|i: int|
            0 <= i < set_globs(*set).len() && glob_matches(#[trigger] set_globs(*set)[i], path@)),
{
    set.is_match(path)
}

/// `s` without the separators at its end.
pub open spec fn trim_seps(s: Seq<char>) -> Seq<char>
    decreases s.len(),
{
    if s.len() > 0 && is_sep(s.last()) {
        trim_seps(s.drop_last())
    } else {
        s
    }
}

/// The prefix that lets a glob match at any depth.
pub open spec fn any_depth() -> Seq<char> {
    seq!['*', '*', '/']
}

/// The stored form of the pattern written `raw`: an absolute path stays rooted,
/// anything else is made to match at any depth; trailing separators go.
pub open spec fn normal_form(raw: Seq<char>) -> Seq<char> {
    if raw.len() > 0 && is_sep(raw[0]) {
        trim_seps(raw)
    } else {
        any_depth() + trim_seps(raw)
    }
}

/// The text a stored pattern is written back as: without the any-depth prefix;
/// the empty pattern, which a bare root is stored as, is written as the root.
pub open spec fn written_form(glob: Seq<char>) -> Seq<char> {
    if glob.len() == 0 {
        seq!['/']
    } else if glob.len() >= 3 && glob.subrange(0, 3) == any_depth() {
        glob.subrange(3, glob.len() as int)
    } else {
        glob
    }
}

/// An exclusion pattern: a shell glob in its stored, depth-qualified form.
#[derive(Debug)]
pub struct MyGlob {
    text: String,
    glob: Glob,
}

impl View for MyGlob {
    type V = Seq<char>;

    closed spec fn view(&self) -> Seq<char> {
        self.text@
    }
}

impl MyGlob {
    /// The pattern is in stored form and globset accepts it.
    pub open spec fn wf(&self) -> bool {
        &&& exists|raw: Seq<char>| normal_form(raw) == self@
        &&& glob_accepts(self@)
    }

    /// Reads a pattern as the user writes it.
    pub fn parse(value: &str) -> (r: Result<MyGlob, PatternError>)
        ensures
            r.is_ok() == glob_accepts(normal_form(value@)),
            r matches Ok(p) ==> p@ == normal_form(value@) && p.wf(),
    {
        let text = normalize(value);
        match compile_glob(text.as_str()) {
            Ok(glob) => {
                let p = MyGlob { text, glob };
                assert(normal_form(value@) == p@);
                Ok(p)
            },
            Err(_) => Err(PatternError),
        }
    }

    /// The text this pattern is written as, which `parse` reads back.
    pub fn serialize(&self) -> (r: String)
        ensures
            r@ == written_form(self@),
    {
        let c = chars_of(self.text.as_str());
        proof {
            reveal_strlit("**/");
            reveal_strlit("/");
        }
        if c.len() == 0 {
            let r = String::from_str("/");
            assert(r@ =~= seq!['/']);
            r
        } else if c.len() >= 3 && c[0] == '*' && c[1] == '*' && c[2] == '/' {
            assert(c@.subrange(0, 3) =~= any_depth());
            String::from_str(self.text.as_str().substring_char(3, c.len()))
        } else {
            assert(c@.len() >= 3 ==> c@.subrange(0, 3)[0] == c@[0]);
            assert(c@.len() >= 3 ==> c@.subrange(0, 3)[1] == c@[1]);
            assert(c@.len() >= 3 ==> c@.subrange(0, 3)[2] == c@[2]);
            self.text.clone()
        }
    }

    /// The stored glob text.
    pub fn glob(&self) -> (r: &str)
        ensures
            r@ == self@,
    {
        self.text.as_str()
    }
}

impl PartialEq for MyGlob {
    fn eq(&self, o: &MyGlob) -> (r: bool) {
        self.text == o.text
    }
}

impl vstd::std_specs::cmp::PartialEqSpecImpl for MyGlob {
    open spec fn obeys_eq_spec() -> bool {
        true
    }

    open spec fn eq_spec(&self, o: &MyGlob) -> bool {
        self@ == o@
    }
}

/// A text that is not a valid shell glob.
#[derive(Debug, PartialEq, Eq, Structural)]
pub struct PatternError;

/// `s` without trailing separators.
fn trim_end_seps(s: &str) -> (r: &str)
    ensures
        r@ == trim_seps(s@),
{
    let c = chars_of(s);
    let mut end = c.len();
    assert(c@.subrange(0, c@.len() as int) =~= c@);
    while end > 0 && c[end - 1] == '/'
        invariant
            end <= c@.len(),
            trim_seps(c@.subrange(0, end as int)) == trim_seps(s@),
            c@ == s@,
        decreases end,
    {
        assert(c@.subrange(0, end as int).drop_last() =~= c@.subrange(0, end - 1));
        end = end - 1;
    }
    s.substring_char(0, end)
}

/// The stored form of the raw pattern text `raw`.
fn normalize(raw: &str) -> (r: String)
    ensures
        r@ == normal_form(raw@),
{
    let c = chars_of(raw);
    let trimmed = trim_end_seps(raw);
    if c.len() > 0 && c[0] == '/' {
        String::from_str(trimmed)
    } else {
        proof {
            reveal_strlit("**/");
        }
        let prefix = String::from_str("**/");
        assert(prefix@ =~= any_depth());
        prefix.concat(trimmed)
    }
}

/// Trimming keeps a prefix, leaves no separator at the end, and changes
/// nothing the second time.
proof fn lemma_trim_seps(s: Seq<char>)
    ensures
        trim_seps(s).len() <= s.len(),
        trim_seps(s) == s.subrange(0, trim_seps(s).len() as int),
        trim_seps(s).len() > 0 ==> !is_sep(trim_seps(s).last()),
        trim_seps(trim_seps(s)) == trim_seps(s),
    decreases s.len(),
{
    if s.len() > 0 && is_sep(s.last()) {
        lemma_trim_seps(s.drop_last());
        assert(s.drop_last().subrange(0, trim_seps(s).len() as int) =~= s.subrange(
            0,
            trim_seps(s).len() as int,
        ));
    } else {
        assert(s.subrange(0, s.len() as int) =~= s);
    }
}

/// Writing a stored pattern out and reading the text back gives the same
/// pattern, which globset accepts and which matches the same paths.
pub proof fn lemma_round_trip(p: MyGlob, path: Seq<char>)
    requires
        p.wf(),
    ensures
        normal_form(written_form(p@)) == p@,
        glob_accepts(normal_form(written_form(p@))),
        glob_matches(normal_form(written_form(p@)), path) == glob_matches(p@, path),
{
    let raw = choose|raw: Seq<char>| normal_form(raw) == p@;
    lemma_trim_seps(raw);
    let t = trim_seps(raw);
    if p@.len() == 0 {
        let root = seq!['/'];
        assert(root.len() == 1 && is_sep(root.last()));
        assert(root.drop_last() =~= Seq::<char>::empty());
        assert(trim_seps(Seq::<char>::empty()) == Seq::<char>::empty());
        assert(trim_seps(root) == trim_seps(root.drop_last()));
        assert(written_form(p@) == root);
        assert(normal_form(written_form(p@)) =~= p@);
    } else if raw.len() > 0 && is_sep(raw[0]) {
        assert(t[0] == raw[0]);
        assert(!(t.len() >= 3 && t.subrange(0, 3) == any_depth())) by {
            if t.len() >= 3 && t.subrange(0, 3) == any_depth() {
                assert(t.subrange(0, 3)[0] == t[0]);
            }
        }
        assert(written_form(p@) == t);
        assert(trim_seps(t) == t);
    } else {
        let g = any_depth() + t;
        assert(g.subrange(0, 3) =~= any_depth());
        assert(g.subrange(3, g.len() as int) =~= t);
        assert(written_form(p@) == t);
        if t.len() > 0 {
            assert(t[0] == raw[0]);
        }
    }
}

} // verus!
