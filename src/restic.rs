use vstd::prelude::*;
use vstd::string::StringExecFns;
use crate::pattern::glob_texts;
use crate::target::{texts, BackupTarget};

verus! {

/// The character of the decimal digit `d`.
pub open spec fn digit_char(d: nat) -> char {
    if d == 0 {
        '0'
    } else if d == 1 {
        '1'
    } else if d == 2 {
        '2'
    } else if d == 3 {
        '3'
    } else if d == 4 {
        '4'
    } else if d == 5 {
        '5'
    } else if d == 6 {
        '6'
    } else if d == 7 {
        '7'
    } else if d == 8 {
        '8'
    } else {
        '9'
    }
}

/// `n` written in decimal, without leading zeros.
pub open spec fn decimal(n: nat) -> Seq<char>
    decreases n,
{
    if n < 10 {
        seq![digit_char(n)]
    } else {
        decimal(n / 10).push(digit_char(n % 10))
    }
}

/// The decimal digit `d` as a string.
fn digit_string(d: u64) -> (r: String)
    requires
        d < 10,
    ensures
        r@ == seq![digit_char(d as nat)],
{
    let s = if d == 0 {
        "0"
    } else if d == 1 {
        "1"
    } else if d == 2 {
        "2"
    } else if d == 3 {
        "3"
    } else if d == 4 {
        "4"
    } else if d == 5 {
        "5"
    } else if d == 6 {
        "6"
    } else if d == 7 {
        "7"
    } else if d == 8 {
        "8"
    } else {
        "9"
    };
    proof {
        reveal_strlit("0");
        reveal_strlit("1");
        reveal_strlit("2");
        reveal_strlit("3");
        reveal_strlit("4");
        reveal_strlit("5");
        reveal_strlit("6");
        reveal_strlit("7");
        reveal_strlit("8");
        reveal_strlit("9");
    }
    let r = String::from_str(s);
    assert(r@ =~= seq![digit_char(d as nat)]);
    r
}

/// `n` written in decimal.
pub fn decimal_string(n: u64) -> (r: String)
    ensures
        r@ == decimal(n as nat),
    decreases n,
{
    if n < 10 {
        digit_string(n)
    } else {
        let high = decimal_string(n / 10);
        let low = digit_string(n % 10);
        let r = high.concat(low.as_str());
        assert(r@ =~= decimal(n as nat));
        r
    }
}

/// Credentials and place of a repository in a Backblaze B2 bucket.
#[derive(Debug, Clone)]
pub struct B2Config {
    pub bucket_name: String,
    pub repo_path: String,
    pub account_key: String,
    pub account_id: String,
}

/// Where a repository is stored.
#[derive(Debug, Clone)]
pub enum ResticStorageConfig {
    /// A directory on this machine.
    Local(String),
    /// A bucket of Backblaze B2.
    B2(B2Config),
}

/// The texts of name/value pairs.
pub open spec fn pair_texts(v: Seq<(String, String)>) -> Seq<(Seq<char>, Seq<char>)> {
    v.map_values(|p: (String, String)| (p.0@, p.1@))
}

/// Appends `s` to `args`.
fn push_arg(args: &mut Vec<String>, s: &str)
    ensures
        texts(final(args)@) == texts(old(args)@).push(s@),
{
    args.push(String::from_str(s));
    assert(texts(args@) =~= texts(old(args)@).push(s@));
}

/// Appends the pair `name`, `value` to `env`.
fn push_env(env: &mut Vec<(String, String)>, name: &str, value: &str)
    ensures
        pair_texts(final(env)@) == pair_texts(old(env)@).push((name@, value@)),
{
    env.push((String::from_str(name), String::from_str(value)));
    assert(pair_texts(env@) =~= pair_texts(old(env)@).push((name@, value@)));
}

impl ResticStorageConfig {
    /// The repository locator handed to the backup tool.
    pub open spec fn locator(&self) -> Seq<char> {
        match self {
            ResticStorageConfig::Local(p) => p@,
            ResticStorageConfig::B2(c) => "b2:"@ + c.bucket_name@ + ":"@ + c.repo_path@,
        }
    }

    /// The environment the backup tool needs to reach the repository.
    pub open spec fn env(&self) -> Seq<(Seq<char>, Seq<char>)> {
        match self {
            ResticStorageConfig::Local(_) => seq![],
            ResticStorageConfig::B2(c) => seq![
                ("B2_ACCOUNT_KEY"@, c.account_key@),
                ("B2_ACCOUNT_ID"@, c.account_id@),
            ],
        }
    }

    /// The repository locator: the directory, or `b2:<bucket>:<path>`.
    pub fn create_path_string(&self) -> (r: String)
        ensures
            r@ == self.locator(),
    {
        match self {
            ResticStorageConfig::Local(p) => p.clone(),
            ResticStorageConfig::B2(c) => {
                let r = String::from_str("b2:").concat(c.bucket_name.as_str()).concat(
                    ":",
                ).concat(c.repo_path.as_str());
                r
            },
        }
    }

    /// Appends to `env` what the backup tool needs to reach the repository.
    pub fn add_env_vars(&self, env: &mut Vec<(String, String)>)
        ensures
            pair_texts(final(env)@) == pair_texts(old(env)@) + self.env(),
    {
        match self {
            ResticStorageConfig::Local(_) => {
                assert(pair_texts(env@) =~= pair_texts(env@) + self.env());
            },
            ResticStorageConfig::B2(c) => {
                push_env(env, "B2_ACCOUNT_KEY", c.account_key.as_str());
                push_env(env, "B2_ACCOUNT_ID", c.account_id.as_str());
                assert(pair_texts(env@) =~= pair_texts(old(env)@) + self.env());
            },
        }
    }
}

/// One run of the backup tool: its arguments and the environment it adds.
#[derive(Debug)]
pub struct Invocation {
    pub args: Vec<String>,
    pub env: Vec<(String, String)>,
}

impl Invocation {
    /// The texts of the arguments.
    pub open spec fn arg_texts(&self) -> Seq<Seq<char>> {
        texts(self.args@)
    }

    /// The texts of the environment pairs.
    pub open spec fn env_texts(&self) -> Seq<(Seq<char>, Seq<char>)> {
        pair_texts(self.env@)
    }
}

/// A repository and the password that opens it.
#[derive(Debug, Clone)]
pub struct ResticConfig {
    pub repo_password: String,
    pub repo_path: ResticStorageConfig,
}

impl ResticConfig {
    /// A configuration for the repository at `repo_path`.
    pub fn new(repo_password: String, repo_path: ResticStorageConfig) -> (r: ResticConfig)
        ensures
            r.repo_password == repo_password,
            r.repo_path == repo_path,
    {
        ResticConfig { repo_password, repo_path }
    }

    /// The arguments every invocation starts with.
    pub open spec fn base_args(&self) -> Seq<Seq<char>> {
        seq!["-r"@, self.repo_path.locator()]
    }

    /// The environment every invocation gets.
    pub open spec fn base_env(&self) -> Seq<(Seq<char>, Seq<char>)> {
        seq![("RESTIC_PASSWORD"@, self.repo_password@)] + self.repo_path.env()
    }

    /// An invocation of `args` after the common arguments.
    pub open spec fn runs(&self, inv: Invocation, args: Seq<Seq<char>>) -> bool {
        &&& inv.arg_texts() == self.base_args() + args
        &&& inv.env_texts() == self.base_env()
    }

    /// The common part of every invocation: the password and the repository.
    fn cmd_setup(&self) -> (r: Invocation)
        ensures
            self.runs(r, seq![]),
    {
        let mut env: Vec<(String, String)> = Vec::new();
        push_env(&mut env, "RESTIC_PASSWORD", self.repo_password.as_str());
        self.repo_path.add_env_vars(&mut env);
        let mut args: Vec<String> = Vec::new();
        push_arg(&mut args, "-r");
        let locator = self.repo_path.create_path_string();
        push_arg(&mut args, locator.as_str());
        let r = Invocation { args, env };
        assert(r.arg_texts() =~= self.base_args() + seq![]);
        assert(pair_texts(r.env@) =~= self.base_env());
        r
    }

    /// The invocation with `arg` appended to the common arguments.
    fn with_arg(&self, arg: &str) -> (r: Invocation)
        ensures
            self.runs(r, seq![arg@]),
    {
        let mut r = self.cmd_setup();
        push_arg(&mut r.args, arg);
        assert(r.arg_texts() =~= self.base_args() + seq![arg@]);
        r
    }

    /// The invocation with `first` and `second` appended to the common arguments.
    fn with_args(&self, first: &str, second: &str) -> (r: Invocation)
        ensures
            self.runs(r, seq![first@, second@]),
    {
        let mut r = self.with_arg(first);
        push_arg(&mut r.args, second);
        assert(r.arg_texts() =~= self.base_args() + seq![first@, second@]);
        r
    }

    /// Checks that the repository can be read.
    pub fn check_restic_repo(&self) -> (r: Invocation)
        ensures
            self.runs(r, seq!["check"@]),
    {
        self.with_arg("check")
    }

    /// Creates the repository.
    pub fn create_restic_repo(&self) -> (r: Invocation)
        ensures
            self.runs(r, seq!["init"@]),
    {
        self.with_arg("init")
    }

    /// Lists the snapshots, as JSON.
    pub fn get_restic_snapshots(&self) -> (r: Invocation)
        ensures
            self.runs(r, seq!["--json"@, "snapshots"@]),
    {
        self.with_args("--json", "snapshots")
    }

    /// Removes the data that no snapshot refers to.
    pub fn prune(&self) -> (r: Invocation)
        ensures
            self.runs(r, seq!["prune"@]),
    {
        self.with_arg("prune")
    }

    /// Forgets the snapshots that `forget_rate` does not keep.
    pub fn forget(&self, forget_rate: &ForgetRate) -> (r: Invocation)
        ensures
            self.runs(r, seq!["forget"@] + forget_rate.flags()),
    {
        let mut r = self.with_arg("forget");
        let flags = forget_flags(forget_rate);
        push_all(&mut r.args, &flags);
        assert(r.arg_texts() =~= self.base_args() + (seq!["forget"@] + forget_rate.flags()));
        r
    }

    /// Backs up the folders of `backup_targets`, with its tags and exclusions, reporting as JSON.
    pub fn restic_backup(&self, backup_targets: &BackupTarget) -> (r: Invocation)
        ensures
            self.runs(r, seq!["--json"@, "backup"@] + backup_flags(backup_targets)),
    {
        let mut r = self.with_args("--json", "backup");
        push_pair_flags(&mut r.args, "--tag", &backup_targets.tags);
        push_all(&mut r.args, &backup_targets.folders);
        let ghost after_folders = r.arg_texts();
        let m = backup_targets.exclusions.len();
        let mut j: usize = 0;
        while j < m
            invariant
                m == backup_targets.exclusions@.len(),
                j <= m,
                r.env_texts() == self.base_env(),
                r.arg_texts() == after_folders + pair_flags(
                    "--exclude"@,
                    glob_texts(backup_targets.exclusions@.subrange(0, j as int)),
                ),
            decreases m - j,
        {
            push_arg(&mut r.args, "--exclude");
            push_arg(&mut r.args, backup_targets.exclusions[j].glob());
            let ghost done = glob_texts(backup_targets.exclusions@.subrange(0, j + 1));
            assert(done.drop_last() =~= glob_texts(backup_targets.exclusions@.subrange(0, j as int)));
            j = j + 1;
        }
        assert(backup_targets.exclusions@.subrange(0, m as int) =~= backup_targets.exclusions@);
        assert(r.arg_texts() =~= self.base_args() + (seq!["--json"@, "backup"@] + backup_flags(
            backup_targets,
        )));
        r
    }

    /// Lists the files of snapshot `id`, as JSON. Fails with `InvalidId` unless
    /// `id`, without surrounding white space, is made of lower-case hex digits.
    pub fn restic_ls(&self, id: &str) -> (r: Result<Invocation, ResticError>)
        ensures
            r is Ok <==> all_hex(trimmed(id@)),
            r is Ok ==> self.runs(r->Ok_0, seq!["--json"@, "ls"@, id@]),
            r is Err ==> r->Err_0 is InvalidId,
    {
        if !check_string_is_hex(trim_text(id)) {
            return Err(ResticError::InvalidId);
        }
        let mut r = self.with_args("--json", "ls");
        push_arg(&mut r.args, id);
        assert(r.arg_texts() =~= self.base_args() + seq!["--json"@, "ls"@, id@]);
        Ok(r)
    }
}

/// How many snapshots of each kind to keep when forgetting.
///
/// A count of zero leaves that kind out; `keep_within` is in hours.
#[derive(Debug, Clone, Default)]
pub struct ForgetRate {
    pub keep_last: u32,
    pub keep_hourly: u32,
    pub keep_daily: u32,
    pub keep_weekly: u32,
    pub keep_monthly: u32,
    pub keep_yearly: u32,
    pub keep_tags: Vec<String>,
    pub keep_within: Option<u64>,
}

/// `flag` and the count `n`, or nothing when `n` is zero.
pub open spec fn count_flag(flag: Seq<char>, n: nat) -> Seq<Seq<char>> {
    if n == 0 {
        seq![]
    } else {
        seq![flag, decimal(n)]
    }
}

/// `flag` before each of `values`.
pub open spec fn pair_flags(flag: Seq<char>, values: Seq<Seq<char>>) -> Seq<Seq<char>>
    decreases values.len(),
{
    if values.len() == 0 {
        seq![]
    } else {
        pair_flags(flag, values.drop_last()) + seq![flag, values.last()]
    }
}

impl ForgetRate {
    /// The flags that say what to keep.
    pub open spec fn flags(&self) -> Seq<Seq<char>> {
        count_flag("--keep-last"@, self.keep_last as nat) + count_flag(
            "--keep-hourly"@,
            self.keep_hourly as nat,
        ) + count_flag("--keep-daily"@, self.keep_daily as nat) + count_flag(
            "--keep-weekly"@,
            self.keep_weekly as nat,
        ) + count_flag("--keep-monthly"@, self.keep_monthly as nat) + count_flag(
            "--keep-yearly"@,
            self.keep_yearly as nat,
        ) + match self.keep_within {
            Some(h) => seq!["--keep-within"@, decimal(h as nat) + "h"@],
            None => seq![],
        } + pair_flags("--keep-tag"@, texts(self.keep_tags@))
    }
}

/// The arguments that describe what a backup covers: tags, folders, exclusions.
pub open spec fn backup_flags(t: &BackupTarget) -> Seq<Seq<char>> {
    pair_flags("--tag"@, texts(t.tags@)) + texts(t.folders@) + pair_flags(
        "--exclude"@,
        glob_texts(t.exclusions@),
    )
}

/// Appends `flag` and the count `n` to `args`, unless `n` is zero.
fn push_count_flag(args: &mut Vec<String>, flag: &str, n: u32)
    ensures
        texts(final(args)@) == texts(old(args)@) + count_flag(flag@, n as nat),
{
    if n != 0 {
        push_arg(args, flag);
        let v = decimal_string(n as u64);
        push_arg(args, v.as_str());
    }
    assert(texts(args@) =~= texts(old(args)@) + count_flag(flag@, n as nat));
}

/// Appends `flag` before each of `values` to `args`.
fn push_pair_flags(args: &mut Vec<String>, flag: &str, values: &Vec<String>)
    ensures
        texts(final(args)@) == texts(old(args)@) + pair_flags(flag@, texts(values@)),
{
    let n = values.len();
    let mut i: usize = 0;
    while i < n
        invariant
            n == values@.len(),
            i <= n,
            texts(args@) == texts(old(args)@) + pair_flags(
                flag@,
                texts(values@.subrange(0, i as int)),
            ),
        decreases n - i,
    {
        push_arg(args, flag);
        push_arg(args, values[i].as_str());
        let ghost done = texts(values@.subrange(0, i + 1));
        assert(done.drop_last() =~= texts(values@.subrange(0, i as int)));
        i = i + 1;
    }
    assert(values@.subrange(0, n as int) =~= values@);
}

/// `c` has the Unicode `White_Space` property.
pub open spec fn white_space(c: char) -> bool {
    ||| ('\u{9}' <= c && c <= '\u{d}')
    ||| c == ' '
    ||| c == '\u{85}'
    ||| c == '\u{a0}'
    ||| c == '\u{1680}'
    ||| ('\u{2000}' <= c && c <= '\u{200a}')
    ||| c == '\u{2028}'
    ||| c == '\u{2029}'
    ||| c == '\u{202f}'
    ||| c == '\u{205f}'
    ||| c == '\u{3000}'
}

/// `s` without the white space at its start.
pub open spec fn trim_start_ws(s: Seq<char>) -> Seq<char>
    decreases s.len(),
{
    if s.len() > 0 && white_space(s[0]) {
        trim_start_ws(s.drop_first())
    } else {
        s
    }
}

/// `s` without the white space at its end.
pub open spec fn trim_end_ws(s: Seq<char>) -> Seq<char>
    decreases s.len(),
{
    if s.len() > 0 && white_space(s.last()) {
        trim_end_ws(s.drop_last())
    } else {
        s
    }
}

/// The text `s` without white space at either end.
pub open spec fn trimmed(s: Seq<char>) -> Seq<char> {
    trim_end_ws(trim_start_ws(s))
}

/// Relies on `str::trim`: it drops the leading and trailing characters with
/// the `White_Space` property.
#[verifier::external_body]
fn trim_text(s: &str) -> (r: &str)
    ensures
        r@ == trimmed(s@),
{
    s.trim()
}

/// `c` is a lower-case hex digit.
pub open spec fn is_hex_char(c: char) -> bool {
    ('0' <= c && c <= '9') || ('a' <= c && c <= 'f')
}

/// Every character of `s` is a lower-case hex digit.
pub open spec fn all_hex(s: Seq<char>) -> bool {
    forall|i: int| 0 <= i < s.len() ==> is_hex_char(#[trigger] s[i])
}

/// Whether every character of `input` is a lower-case hex digit.
pub fn check_string_is_hex(input: &str) -> (r: bool)
    ensures
        r == all_hex(input@),
{
    let c = crate::paths::chars_of(input);
    let n = c.len();
    let mut i: usize = 0;
    while i < n
        invariant
            n == c@.len(),
            c@ == input@,
            i <= n,
            forall|j: int| 0 <= j < i ==> is_hex_char(#[trigger] c@[j]),
        decreases n - i,
    {
        let ch = c[i];
        if !(('0' <= ch && ch <= '9') || ('a' <= ch && ch <= 'f')) {
            return false;
        }
        i = i + 1;
    }
    true
}

/// Why a run of the backup tool failed.
#[derive(Debug, Clone)]
pub enum ResticError {
    /// No repository at the given place.
    ResticRepoNotFound,
    /// The password does not open the repository.
    ResticRepoInvalidPassword,
    /// A snapshot id that is not made of hex digits.
    InvalidId,
    /// The tool printed nothing where a result was expected.
    NoOutputFromRestic,
    /// The tool failed for another reason; it said this on its error stream.
    Failed(String),
}

/// `needle` occurs in `hay`.
pub open spec fn occurs_in(needle: Seq<char>, hay: Seq<char>) -> bool {
    exists|i: int| 0 <= i && i + needle.len() <= hay.len() && #[trigger] hay.subrange(i, i + needle.len()) == needle
}

/// Whether `needle` occurs in `hay`.
fn chars_occur(needle: &Vec<char>, hay: &Vec<char>) -> (r: bool)
    ensures
        r == occurs_in(needle@, hay@),
{
    let m = needle.len();
    let n = hay.len();
    if m > n {
        return false;
    }
    let mut i: usize = 0;
    while i <= n - m
        invariant
            m == needle@.len(),
            n == hay@.len(),
            m <= n,
            i <= n - m + 1,
            forall|k: int| 0 <= k < i ==> #[trigger] hay@.subrange(k, k + m) != needle@,
        decreases n - i,
    {
        let mut j: usize = 0;
        let mut same = true;
        assert(hay@.subrange(i as int, i as int) =~= needle@.subrange(0, 0));
        while j < m
            invariant
                m == needle@.len(),
                n == hay@.len(),
                i + m <= n,
                j <= m,
                same == (hay@.subrange(i as int, i + j) == needle@.subrange(0, j as int)),
            decreases m - j,
        {
            if same && hay[i + j] != needle[j] {
                same = false;
                assert(hay@.subrange(i as int, i + j + 1)[j as int] != needle@.subrange(0, j + 1)[j as int]);
            } else if same {
                assert(hay@.subrange(i as int, i + j + 1) =~= hay@.subrange(i as int, i + j).push(hay@[i + j]));
                assert(needle@.subrange(0, j + 1) =~= needle@.subrange(0, j as int).push(needle@[j as int]));
            } else {
                proof {
                    if hay@.subrange(i as int, i + j + 1) == needle@.subrange(0, j + 1) {
                        assert(hay@.subrange(i as int, i + j + 1).subrange(0, j as int)
                            =~= hay@.subrange(i as int, i + j));
                        assert(needle@.subrange(0, j + 1).subrange(0, j as int)
                            =~= needle@.subrange(0, j as int));
                    }
                }
            }
            j = j + 1;
        }
        assert(needle@.subrange(0, m as int) =~= needle@);
        if same {
            return true;
        }
        i = i + 1;
    }
    false
}

/// What a failed run means, from what the tool printed on its error stream.
pub fn failure_from_stderr(stderr: &str) -> (r: ResticError)
    ensures
        occurs_in("wrong password"@, stderr@) ==> r is ResticRepoInvalidPassword,
        !occurs_in("wrong password"@, stderr@) ==> (r matches ResticError::Failed(msg) && msg@
            == stderr@),
{
    let needle = crate::paths::chars_of("wrong password");
    let hay = crate::paths::chars_of(stderr);
    if chars_occur(&needle, &hay) {
        ResticError::ResticRepoInvalidPassword
    } else {
        ResticError::Failed(String::from_str(stderr))
    }
}

/// The flags that say what `rate` keeps.
fn forget_flags(rate: &ForgetRate) -> (r: Vec<String>)
    ensures
        texts(r@) == rate.flags(),
{
    let mut a: Vec<String> = Vec::new();
    push_count_flag(&mut a, "--keep-last", rate.keep_last);
    push_count_flag(&mut a, "--keep-hourly", rate.keep_hourly);
    push_count_flag(&mut a, "--keep-daily", rate.keep_daily);
    push_count_flag(&mut a, "--keep-weekly", rate.keep_weekly);
    push_count_flag(&mut a, "--keep-monthly", rate.keep_monthly);
    push_count_flag(&mut a, "--keep-yearly", rate.keep_yearly);
    let ghost counts = texts(a@);
    match rate.keep_within {
        Some(hours) => {
            push_arg(&mut a, "--keep-within");
            let h = decimal_string(hours).concat("h");
            push_arg(&mut a, h.as_str());
        },
        None => {},
    }
    let ghost within = texts(a@);
    push_pair_flags(&mut a, "--keep-tag", &rate.keep_tags);
    assert(texts(a@) =~= rate.flags()) by {
        assert(counts =~= seq![] + count_flag("--keep-last"@, rate.keep_last as nat) + count_flag(
            "--keep-hourly"@,
            rate.keep_hourly as nat,
        ) + count_flag("--keep-daily"@, rate.keep_daily as nat) + count_flag(
            "--keep-weekly"@,
            rate.keep_weekly as nat,
        ) + count_flag("--keep-monthly"@, rate.keep_monthly as nat) + count_flag(
            "--keep-yearly"@,
            rate.keep_yearly as nat,
        ));
    };
    a
}

/// Appends each of `values` to `args`.
fn push_all(args: &mut Vec<String>, values: &Vec<String>)
    ensures
        texts(final(args)@) == texts(old(args)@) + texts(values@),
{
    let n = values.len();
    let mut i: usize = 0;
    while i < n
        invariant
            n == values@.len(),
            i <= n,
            texts(args@) == texts(old(args)@) + texts(values@.subrange(0, i as int)),
        decreases n - i,
    {
        push_arg(args, values[i].as_str());
        assert(texts(values@.subrange(0, i + 1)) =~= texts(values@.subrange(0, i as int)).push(
            values@[i as int]@,
        ));
        i = i + 1;
    }
    assert(values@.subrange(0, n as int) =~= values@);
}

/// What one line of a backup run's output turned out to be.
#[derive(Debug, Clone, Copy, PartialEq, Eq, Structural)]
pub enum BackupLine {
    /// Not a message the tool is known to print.
    Unreadable,
    /// A progress message.
    Status,
    /// The closing summary.
    Summary,
}

/// Where the scan from the last line back stopped.
#[derive(Debug, Clone, Copy, PartialEq, Eq, Structural)]
pub enum SummaryScan {
    /// At the summary on this line.
    Found(usize),
    /// At this line, which could not be read.
    Unreadable(usize),
    /// Nothing but progress messages, or no line at all.
    Missing,
}

/// The scan back from line `n` (exclusive): progress lines are passed over,
/// and the first other line decides.
pub open spec fn summary_scan(lines: Seq<BackupLine>, n: int) -> SummaryScan
    decreases n,
{
    if n <= 0 {
        SummaryScan::Missing
    } else if lines[n - 1] is Status {
        summary_scan(lines, n - 1)
    } else if lines[n - 1] is Summary {
        SummaryScan::Found((n - 1) as usize)
    } else {
        SummaryScan::Unreadable((n - 1) as usize)
    }
}

/// Finds the summary of a backup run, scanning its output lines from the last.
pub fn find_summary(lines: &Vec<BackupLine>) -> (r: SummaryScan)
    ensures
        r == summary_scan(lines@, lines@.len() as int),
{
    let mut n = lines.len();
    while n > 0
        invariant
            n <= lines@.len(),
            summary_scan(lines@, lines@.len() as int) == summary_scan(lines@, n as int),
        decreases n,
    {
        match lines[n - 1] {
            BackupLine::Status => {},
            BackupLine::Summary => {
                return SummaryScan::Found(n - 1);
            },
            BackupLine::Unreadable => {
                return SummaryScan::Unreadable(n - 1);
            },
        }
        n = n - 1;
    }
    SummaryScan::Missing
}

} // verus!
