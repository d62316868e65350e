//! Command records, normalization, duplicate collapsing and search planning.

use crate::error::ErrorKind;
use crate::fuzzy::{fuzzy_fits, fuzzy_score, fuzzy_score_of};
use crate::text::{
    all_ws, append_chars, chars_eq, chars_of, first_lowercase, good_word, is_alphanumeric,
    is_blank, is_ws, join_chars, join_with, lemma_join_chars, lemma_join_spaces, lemma_token_words,
    lemma_tokens_of_join, split_whitespace, string_from_chars, unicode_alphanumeric,
    unicode_first_lowercase, views, ws_tokens,
};
use vstd::prelude::*;

pub use crate::stats::SCHEMA_VERSION;

verus! {

/// The view of an optional string.
pub open spec fn opt_view(o: Option<String>) -> Option<Seq<char>> {
    match o {
        Some(s) => Some(s@),
        None => None,
    }
}

/// A copy of an optional string.
pub fn clone_opt(o: &Option<String>) -> (res: Option<String>)
    ensures
        opt_view(res) == opt_view(*o),
{
    match o {
        Some(s) => Some(s.clone()),
        None => None,
    }
}

/// Whether two optional strings are equal.
pub fn opt_eq(a: &Option<String>, b: &Option<String>) -> (res: bool)
    ensures
        res == (opt_view(*a) == opt_view(*b)),
{
    match (a, b) {
        (Some(x), Some(y)) => {
            let xs = chars_of(x.as_str());
            let ys = chars_of(y.as_str());
            chars_eq(xs.as_slice(), ys.as_slice())
        },
        (None, None) => true,
        _ => false,
    }
}

/// Whether two strings are equal.
pub fn str_eq(a: &str, b: &str) -> (res: bool)
    ensures
        res == (a@ == b@),
{
    let xs = chars_of(a);
    let ys = chars_of(b);
    chars_eq(xs.as_slice(), ys.as_slice())
}

/// One captured command with its context.
#[derive(Debug, Clone, PartialEq, Eq)]
pub struct CommandRecord {
    pub command_text: String,
    pub normalized_text: String,
    pub cwd: String,
    pub executed_at: i64,
    pub exit_code: i64,
    pub shell: Option<String>,
    pub duration_ms: Option<i64>,
    pub hostname: Option<String>,
    pub git_repo: Option<String>,
    pub git_branch: Option<String>,
}

/// The contents of a [`CommandRecord`].
pub struct CommandRecordView {
    pub command_text: Seq<char>,
    pub normalized_text: Seq<char>,
    pub cwd: Seq<char>,
    pub executed_at: i64,
    pub exit_code: i64,
    pub shell: Option<Seq<char>>,
    pub duration_ms: Option<i64>,
    pub hostname: Option<Seq<char>>,
    pub git_repo: Option<Seq<char>>,
    pub git_branch: Option<Seq<char>>,
}

impl View for CommandRecord {
    type V = CommandRecordView;

    open spec fn view(&self) -> CommandRecordView {
        CommandRecordView {
            command_text: self.command_text@,
            normalized_text: self.normalized_text@,
            cwd: self.cwd@,
            executed_at: self.executed_at,
            exit_code: self.exit_code,
            shell: opt_view(self.shell),
            duration_ms: self.duration_ms,
            hostname: opt_view(self.hostname),
            git_repo: opt_view(self.git_repo),
            git_branch: opt_view(self.git_branch),
        }
    }
}

/// The views of a sequence of records.
pub open spec fn record_views(rs: Seq<CommandRecord>) -> Seq<CommandRecordView> {
    rs.map_values(|r: CommandRecord| r@)
}

/// Why a command could not become a record.
#[derive(Debug, Clone, Copy, PartialEq, Eq, Structural)]
pub enum RecordError {
    /// The command text holds nothing but white space.
    EmptyCommandText,
    /// The execution time lies before the Unix epoch.
    NegativeExecutedAt,
    /// The exit code is negative.
    NegativeExitCode,
    /// The duration is negative.
    NegativeDuration,
}

/// The message of a record error.
pub open spec fn record_error_message(e: RecordError) -> Seq<char> {
    match e {
        RecordError::EmptyCommandText => "command text cannot be empty"@,
        RecordError::NegativeExecutedAt => "executed_at cannot be negative"@,
        RecordError::NegativeExitCode => "exit_code cannot be negative"@,
        RecordError::NegativeDuration => "duration_ms cannot be negative"@,
    }
}

impl RecordError {
    /// The category of this error: always invalid input.
    pub fn kind(&self) -> (res: ErrorKind)
        ensures
            res == ErrorKind::InvalidInput,
    {
        ErrorKind::InvalidInput
    }

    /// A message that describes the error.
    pub fn message(&self) -> (res: String)
        ensures
            res@ == record_error_message(*self),
    {
        match self {
            RecordError::EmptyCommandText => String::from_str("command text cannot be empty"),
            RecordError::NegativeExecutedAt => String::from_str("executed_at cannot be negative"),
            RecordError::NegativeExitCode => String::from_str("exit_code cannot be negative"),
            RecordError::NegativeDuration => String::from_str("duration_ms cannot be negative"),
        }
    }
}

/// How one character is folded for search: ASCII letters are lowercased,
/// ASCII digits and the characters `- _ / .` are kept, other ASCII
/// characters become a space, other letters and digits take their first
/// lowercase character, and everything else becomes a space.
pub open spec fn normalize_char(c: char) -> char {
    let u = c as u32;
    if (97 <= u <= 122) || (48 <= u <= 57) || c == '-' || c == '_' || c == '/' || c == '.' {
        c
    } else if 65 <= u <= 90 {
        (u + 32) as char
    } else if u < 128 {
        ' '
    } else if unicode_alphanumeric(c) {
        unicode_first_lowercase(c)
    } else {
        ' '
    }
}

/// The search form of a command: its folded characters, split at white space
/// and joined with single spaces.
pub open spec fn normalize_text(s: Seq<char>) -> Seq<char> {
    join_with(ws_tokens(fold_chars(s)), seq![' '])
}

/// Every character folded for search.
pub open spec fn fold_chars(s: Seq<char>) -> Seq<char> {
    s.map_values(|c: char| normalize_char(c))
}

/// Whether folding `c` a second time changes nothing.
pub open spec fn fold_stable(c: char) -> bool {
    normalize_char(normalize_char(c)) == normalize_char(c)
}

/// Folding an ASCII character once is enough.
proof fn lemma_ascii_fold_stable(c: char)
    requires
        (c as u32) < 128,
    ensures
        fold_stable(c),
{
    let u = c as u32;
    if 65 <= u <= 90 {
        assert(((u + 32) as char) as u32 == u + 32);
    }
}

/// The search form is already in search form: normalizing it again changes
/// nothing, none of its characters changes when folded (so it holds no ASCII
/// capital), and it neither starts nor ends with a space nor holds two in a
/// row. This holds of
/// every command whose non-ASCII characters are stable under folding, as
/// every ASCII character is.
pub proof fn lemma_normalize_idempotent(s: Seq<char>)
    requires
        forall|i: int| 0 <= i < s.len() && (s[i] as u32) >= 128 ==> #[trigger] fold_stable(s[i]),
    ensures
        normalize_text(normalize_text(s)) == normalize_text(s),
        forall|i: int|
            0 <= i < normalize_text(s).len() ==> normalize_char(#[trigger] normalize_text(s)[i])
                == normalize_text(s)[i],
        forall|i: int|
            0 <= i < normalize_text(s).len() ==> !(65 <= (#[trigger] normalize_text(s)[i]) as u32
                <= 90),
        forall|i: int|
            0 <= i < normalize_text(s).len() && #[trigger] normalize_text(s)[i] == ' ' ==> 0 < i
                && i + 1 < normalize_text(s).len() && normalize_text(s)[i - 1] != ' '
                && normalize_text(s)[i + 1] != ' ',
{
    let p = |c: char| normalize_char(c) == c;
    let f = fold_chars(s);
    assert forall|i: int| 0 <= i < f.len() && !is_ws(f[i]) implies p(#[trigger] f[i]) by {
        if (s[i] as u32) < 128 {
            lemma_ascii_fold_stable(s[i]);
        }
        assert(fold_stable(s[i]));
    }
    let ts = ws_tokens(f);
    lemma_token_words(f, p);
    assert forall|k: int, j: int| 0 <= k < ts.len() && 0 <= j < ts[k].len() implies p(
        #[trigger] ts[k][j],
    ) by {
        assert(good_word(ts[k], p));
    }
    let sep = seq![' '];
    assert(p(' '));
    assert forall|j: int| 0 <= j < sep.len() implies p(#[trigger] sep[j]) by {
        assert(sep[j] == ' ');
    }
    let n = join_with(ts, sep);
    assert(n == normalize_text(s));
    lemma_join_chars(ts, sep, p);
    assert forall|i: int| 0 <= i < n.len() implies normalize_char(#[trigger] n[i]) == n[i] by {
        assert(p(n[i]));
    }
    assert(fold_chars(n) =~= n);
    lemma_tokens_of_join(ts, p);
    lemma_join_spaces(ts, p);
    assert forall|i: int| 0 <= i < n.len() implies !(65 <= (#[trigger] n[i]) as u32 <= 90) by {
        assert(normalize_char(n[i]) == n[i]);
        let u = n[i] as u32;
        if 65 <= u <= 90 {
            assert(((u + 32) as char) as u32 == u + 32);
        }
    }
}

/// Folds one character for search.
pub fn normalize_one(c: char) -> (res: char)
    ensures
        res == normalize_char(c),
{
    let u = c as u32;
    if (97 <= u && u <= 122) || (48 <= u && u <= 57) || c == '-' || c == '_' || c == '/' || c
        == '.' {
        c
    } else if 65 <= u && u <= 90 {
        let b = (u + 32) as u8;
        let r = b as char;
        assert(r as u32 == u + 32);
        r
    } else if is_alphanumeric(c) {
        match first_lowercase(c) {
            Some(l) => l,
            None => c,
        }
    } else {
        ' '
    }
}

/// The search form of a command's characters.
pub fn normalize_chars(s: &[char]) -> (res: Vec<char>)
    ensures
        res@ == normalize_text(s@),
{
    let mut mapped: Vec<char> = Vec::new();
    let mut i: usize = 0;
    while i < s.len()
        invariant
            i <= s@.len(),
            mapped@ == fold_chars(s@.take(i as int)),
        decreases s@.len() - i,
    {
        let c = normalize_one(s[i]);
        mapped.push(c);
        assert(fold_chars(s@.take(i + 1)) =~= fold_chars(s@.take(i as int)).push(
            normalize_char(s@[i as int]),
        ));
        i += 1;
    }
    assert(s@.take(s@.len() as int) =~= s@);
    let tokens = split_whitespace(mapped.as_slice());
    let sep = [' '];
    assert(sep@ =~= seq![' ']);
    join_chars(&tokens, &sep)
}

/// The search form of a command: lowercase, punctuation folded to spaces,
/// runs of white space collapsed.
pub fn normalize_command_text(command_text: &str) -> (res: String)
    ensures
        res@ == normalize_text(command_text@),
{
    let chars = chars_of(command_text);
    let normalized = normalize_chars(chars.as_slice());
    string_from_chars(normalized.as_slice())
}

/// The first rule that a candidate record breaks, if any.
pub open spec fn record_error(
    command_text: Seq<char>,
    executed_at: i64,
    exit_code: i64,
    duration_ms: Option<i64>,
) -> Option<RecordError> {
    if all_ws(command_text) {
        Some(RecordError::EmptyCommandText)
    } else if executed_at < 0 {
        Some(RecordError::NegativeExecutedAt)
    } else if exit_code < 0 {
        Some(RecordError::NegativeExitCode)
    } else if duration_ms matches Some(d) && d < 0 {
        Some(RecordError::NegativeDuration)
    } else {
        None
    }
}

impl CommandRecord {
    /// Validates a captured command and builds its record: the raw text is
    /// kept exactly, and its search form is derived from it.
    #[allow(clippy::too_many_arguments)]
    pub fn new(
        command_text: String,
        cwd: String,
        executed_at: i64,
        exit_code: i64,
        shell: Option<String>,
        duration_ms: Option<i64>,
        hostname: Option<String>,
        git_repo: Option<String>,
        git_branch: Option<String>,
    ) -> (res: Result<CommandRecord, RecordError>)
        ensures
            res is Ok <==> record_error(command_text@, executed_at, exit_code, duration_ms) is None,
            res matches Err(e) ==> Some(e) == record_error(
                command_text@,
                executed_at,
                exit_code,
                duration_ms,
            ),
            res matches Ok(r) ==> r@ == (CommandRecordView {
                command_text: command_text@,
                normalized_text: normalize_text(command_text@),
                cwd: cwd@,
                executed_at,
                exit_code,
                shell: opt_view(shell),
                duration_ms,
                hostname: opt_view(hostname),
                git_repo: opt_view(git_repo),
                git_branch: opt_view(git_branch),
            }),
    {
        let chars = chars_of(command_text.as_str());
        let normalized = normalize_chars(chars.as_slice());
        if is_blank(chars.as_slice()) {
            return Err(RecordError::EmptyCommandText);
        }
        if executed_at < 0 {
            return Err(RecordError::NegativeExecutedAt);
        }
        if exit_code < 0 {
            return Err(RecordError::NegativeExitCode);
        }
        if let Some(d) = duration_ms {
            if d < 0 {
                return Err(RecordError::NegativeDuration);
            }
        }
        let normalized_text = string_from_chars(normalized.as_slice());
        Ok(CommandRecord {
            command_text,
            normalized_text,
            cwd,
            executed_at,
            exit_code,
            shell,
            duration_ms,
            hostname,
            git_repo,
            git_branch,
        })
    }
}


/// Repeated runs of one command in one context, shown as a single result.
#[derive(Debug, Clone, PartialEq, Eq)]
pub struct CollapsedRecord {
    pub command_text: String,
    pub normalized_text: String,
    pub repeat_count: usize,
    pub most_recent_executed_at: i64,
    pub most_recent_cwd: String,
    pub most_recent_exit_code: i64,
    pub all_same_exit: bool,
    pub repo: Option<String>,
    pub branch: Option<String>,
}

/// The contents of a [`CollapsedRecord`].
pub struct CollapsedView {
    pub command_text: Seq<char>,
    pub normalized_text: Seq<char>,
    pub repeat_count: nat,
    pub most_recent_executed_at: i64,
    pub most_recent_cwd: Seq<char>,
    pub most_recent_exit_code: i64,
    pub all_same_exit: bool,
    pub repo: Option<Seq<char>>,
    pub branch: Option<Seq<char>>,
}

impl View for CollapsedRecord {
    type V = CollapsedView;

    open spec fn view(&self) -> CollapsedView {
        CollapsedView {
            command_text: self.command_text@,
            normalized_text: self.normalized_text@,
            repeat_count: self.repeat_count as nat,
            most_recent_executed_at: self.most_recent_executed_at,
            most_recent_cwd: self.most_recent_cwd@,
            most_recent_exit_code: self.most_recent_exit_code,
            all_same_exit: self.all_same_exit,
            repo: opt_view(self.repo),
            branch: opt_view(self.branch),
        }
    }
}

/// The views of a sequence of collapsed records.
pub open spec fn collapsed_views(cs: Seq<CollapsedRecord>) -> Seq<CollapsedView> {
    cs.map_values(|c: CollapsedRecord| c@)
}

/// What makes two runs "the same command": search form, directory,
/// repository and branch.
pub type CollapseKey = (Seq<char>, Seq<char>, Option<Seq<char>>, Option<Seq<char>>);

/// The collapse key of a record.
pub open spec fn key_of(r: CommandRecordView) -> CollapseKey {
    (r.normalized_text, r.cwd, r.git_repo, r.git_branch)
}

/// The collapse key of a collapsed record.
pub open spec fn collapsed_key(c: CollapsedView) -> CollapseKey {
    (c.normalized_text, c.most_recent_cwd, c.repo, c.branch)
}

/// The distinct keys of `rs`, in the order in which each first appears.
pub open spec fn first_keys(rs: Seq<CommandRecordView>) -> Seq<CollapseKey>
    decreases rs.len(),
{
    if rs.len() == 0 {
        seq![]
    } else {
        let ks = first_keys(rs.drop_last());
        if ks.contains(key_of(rs.last())) {
            ks
        } else {
            ks.push(key_of(rs.last()))
        }
    }
}

/// The records of `rs` whose key is `k`, in their order.
pub open spec fn group_of(rs: Seq<CommandRecordView>, k: CollapseKey) -> Seq<CommandRecordView>
    decreases rs.len(),
{
    if rs.len() == 0 {
        seq![]
    } else if key_of(rs.last()) == k {
        group_of(rs.drop_last(), k).push(rs.last())
    } else {
        group_of(rs.drop_last(), k)
    }
}

/// The most recent record of a non-empty group: the first of those with the
/// latest execution time.
pub open spec fn newest(g: Seq<CommandRecordView>) -> CommandRecordView
    recommends
        g.len() > 0,
    decreases g.len(),
{
    if g.len() <= 1 {
        g[0]
    } else {
        let n = newest(g.drop_last());
        if g.last().executed_at > n.executed_at {
            g.last()
        } else {
            n
        }
    }
}

/// Whether all records of a group share one exit code.
pub open spec fn same_exit(g: Seq<CommandRecordView>) -> bool {
    forall|i: int| 0 <= i < g.len() ==> #[trigger] g[i].exit_code == g[0].exit_code
}

/// The collapsed result for key `k` of `rs`.
pub open spec fn collapsed_of(rs: Seq<CommandRecordView>, k: CollapseKey) -> CollapsedView {
    let g = group_of(rs, k);
    let n = newest(g);
    CollapsedView {
        command_text: n.command_text,
        normalized_text: k.0,
        repeat_count: g.len(),
        most_recent_executed_at: n.executed_at,
        most_recent_cwd: k.1,
        most_recent_exit_code: n.exit_code,
        all_same_exit: same_exit(g),
        repo: k.2,
        branch: k.3,
    }
}

/// One collapsed result per distinct key, in order of first appearance.
pub open spec fn collapse_spec(rs: Seq<CommandRecordView>) -> Seq<CollapsedView> {
    first_keys(rs).map_values(|k: CollapseKey| collapsed_of(rs, k))
}

proof fn lemma_group_len(rs: Seq<CommandRecordView>, k: CollapseKey)
    ensures
        group_of(rs, k).len() <= rs.len(),
        first_keys(rs).contains(k) <==> group_of(rs, k).len() > 0,
        group_of(rs, k).len() > 0 ==> key_of(group_of(rs, k)[0]) == k,
    decreases rs.len(),
{
    if rs.len() > 0 {
        lemma_group_len(rs.drop_last(), k);
        let ks = first_keys(rs.drop_last());
        let fk = first_keys(rs);
        if ks.contains(key_of(rs.last())) {
            assert(fk == ks);
            if key_of(rs.last()) == k {
                assert(group_of(rs, k).len() > 0);
            }
        } else {
            assert(fk == ks.push(key_of(rs.last())));
            if fk.contains(k) {
                let j = choose|j: int| 0 <= j < fk.len() && fk[j] == k;
                if j < ks.len() {
                    assert(ks[j] == k);
                } else {
                    assert(key_of(rs.last()) == k);
                }
            }
            if ks.contains(k) {
                let j = choose|j: int| 0 <= j < ks.len() && ks[j] == k;
                assert(fk[j] == k);
            }
            if key_of(rs.last()) == k {
                assert(fk[ks.len() as int] == k);
            }
        }
        if group_of(rs, k).len() > 0 && group_of(rs.drop_last(), k).len() == 0 {
            assert(key_of(rs.last()) == k);
            assert(group_of(rs, k) =~= seq![rs.last()]);
        }
    }
}

/// Distinct positions of `first_keys` hold distinct keys.
pub proof fn lemma_first_keys_distinct(rs: Seq<CommandRecordView>)
    ensures
        forall|a: int, b: int|
            0 <= a < b < first_keys(rs).len() ==> first_keys(rs)[a] != first_keys(rs)[b],
    decreases rs.len(),
{
    if rs.len() > 0 {
        lemma_first_keys_distinct(rs.drop_last());
        let ks = first_keys(rs.drop_last());
        if !ks.contains(key_of(rs.last())) {
            let fk = first_keys(rs);
            assert forall|a: int, b: int| 0 <= a < b < fk.len() implies fk[a] != fk[b] by {
                if b == ks.len() {
                    assert(fk[a] == ks[a]);
                }
            }
        }
    }
}

proof fn lemma_group_step(rs: Seq<CommandRecordView>, i: int, k: CollapseKey)
    requires
        0 <= i < rs.len(),
    ensures
        group_of(rs.take(i + 1), k) == if key_of(rs[i]) == k {
            group_of(rs.take(i), k).push(rs[i])
        } else {
            group_of(rs.take(i), k)
        },
        first_keys(rs.take(i + 1)) == if first_keys(rs.take(i)).contains(key_of(rs[i])) {
            first_keys(rs.take(i))
        } else {
            first_keys(rs.take(i)).push(key_of(rs[i]))
        },
{
    assert(rs.take(i + 1).drop_last() =~= rs.take(i));
}

/// Builds a collapsed result for the first run of a key.
fn collapsed_from(r: &CommandRecord) -> (res: CollapsedRecord)
    ensures
        res@ == (CollapsedView {
            command_text: r.command_text@,
            normalized_text: r.normalized_text@,
            repeat_count: 1,
            most_recent_executed_at: r.executed_at,
            most_recent_cwd: r.cwd@,
            most_recent_exit_code: r.exit_code,
            all_same_exit: true,
            repo: opt_view(r.git_repo),
            branch: opt_view(r.git_branch),
        }),
{
    CollapsedRecord {
        command_text: r.command_text.clone(),
        normalized_text: r.normalized_text.clone(),
        repeat_count: 1,
        most_recent_executed_at: r.executed_at,
        most_recent_cwd: r.cwd.clone(),
        most_recent_exit_code: r.exit_code,
        all_same_exit: true,
        repo: clone_opt(&r.git_repo),
        branch: clone_opt(&r.git_branch),
    }
}

/// Whether a collapsed result belongs to the key of a record.
fn same_key(c: &CollapsedRecord, r: &CommandRecord) -> (res: bool)
    ensures
        res == (collapsed_key(c@) == key_of(r@)),
{
    str_eq(c.normalized_text.as_str(), r.normalized_text.as_str()) && str_eq(
        c.most_recent_cwd.as_str(),
        r.cwd.as_str(),
    ) && opt_eq(&c.repo, &r.git_repo) && opt_eq(&c.branch, &r.git_branch)
}

/// The position of the collapsed result that a record belongs to.
fn find_group(out: &Vec<CollapsedRecord>, r: &CommandRecord) -> (res: Option<usize>)
    ensures
        res matches Some(j) ==> j < out@.len() && collapsed_key(out@[j as int]@) == key_of(r@),
        res is None ==> forall|m: int|
            0 <= m < out@.len() ==> collapsed_key(#[trigger] out@[m]@) != key_of(r@),
{
    let mut j: usize = 0;
    while j < out.len()
        invariant
            j <= out@.len(),
            forall|m: int| 0 <= m < j ==> collapsed_key(#[trigger] out@[m]@) != key_of(r@),
        decreases out@.len() - j,
    {
        if same_key(&out[j], r) {
            return Some(j);
        }
        j += 1;
    }
    None
}

/// Merges repeated runs of a command into one result per key (search form,
/// directory, repository, branch), in the order in which each key first
/// appears; each result counts its runs and carries the most recent run's raw
/// text, time and exit code.
pub fn collapse_records(records: Vec<CommandRecord>) -> (res: Vec<CollapsedRecord>)
    ensures
        collapsed_views(res@) == collapse_spec(record_views(records@)),
{
    let ghost rs = record_views(records@);
    let mut out: Vec<CollapsedRecord> = Vec::new();
    let mut firsts: Vec<i64> = Vec::new();
    let mut i: usize = 0;
    while i < records.len()
        invariant
            i <= records@.len(),
            rs == record_views(records@),
            out@.len() == first_keys(rs.take(i as int)).len(),
            firsts@.len() == out@.len(),
            forall|j: int|
                0 <= j < out@.len() ==> #[trigger] out@[j]@ == collapsed_of(
                    rs.take(i as int),
                    first_keys(rs.take(i as int))[j],
                ),
            forall|j: int|
                0 <= j < out@.len() ==> #[trigger] firsts@[j] == group_of(
                    rs.take(i as int),
                    first_keys(rs.take(i as int))[j],
                )[0].exit_code,
        decreases records@.len() - i,
    {
        let r = &records[i];
        let ghost pre = rs.take(i as int);
        let ghost post = rs.take(i + 1);
        let ghost ks = first_keys(pre);
        assert(rs[i as int] == r@);
        proof {
            lemma_group_step(rs, i as int, key_of(r@));
        }
        let found_at = find_group(&out, r);
        assert forall|m: int| 0 <= m < out@.len() implies collapsed_key(#[trigger] out@[m]@)
            == ks[m] by {}
        if let Some(j) = found_at {
            assert(ks[j as int] == key_of(r@));
            assert(ks.contains(key_of(r@)));
            assert(first_keys(post) == ks);
            proof {
                lemma_group_len(pre, key_of(r@));
            }
            let old_c = &out[j];
            let ghost g = group_of(pre, key_of(r@));
            assert(group_of(post, key_of(r@)) == g.push(r@));
            assert(g.push(r@).drop_last() =~= g);
            let newer = r.executed_at > old_c.most_recent_executed_at;
            let updated = CollapsedRecord {
                command_text: if newer {
                    r.command_text.clone()
                } else {
                    old_c.command_text.clone()
                },
                normalized_text: old_c.normalized_text.clone(),
                repeat_count: old_c.repeat_count + 1,
                most_recent_executed_at: if newer {
                    r.executed_at
                } else {
                    old_c.most_recent_executed_at
                },
                most_recent_cwd: old_c.most_recent_cwd.clone(),
                most_recent_exit_code: if newer {
                    r.exit_code
                } else {
                    old_c.most_recent_exit_code
                },
                all_same_exit: old_c.all_same_exit && r.exit_code == firsts[j],
                repo: clone_opt(&old_c.repo),
                branch: clone_opt(&old_c.branch),
            };
            proof {
                assert(same_exit(g.push(r@)) == (same_exit(g) && r@.exit_code == g[0].exit_code))
                    by {
                    if same_exit(g) && r@.exit_code == g[0].exit_code {
                        assert forall|m: int| 0 <= m < g.push(r@).len() implies #[trigger] g.push(
                            r@,
                        )[m].exit_code == g.push(r@)[0].exit_code by {
                            if m < g.len() {
                                assert(g.push(r@)[m] == g[m]);
                            }
                        }
                    }
                    if same_exit(g.push(r@)) {
                        assert forall|m: int| 0 <= m < g.len() implies #[trigger] g[m].exit_code
                            == g[0].exit_code by {
                            assert(g.push(r@)[m] == g[m]);
                        }
                        assert(g.push(r@)[g.len() as int] == r@);
                    }
                }
            }
            assert(updated@ == collapsed_of(post, key_of(r@)));
            out.set(j, updated);
            proof {
                assert forall|m: int| 0 <= m < out@.len() implies #[trigger] out@[m]@
                    == collapsed_of(post, first_keys(post)[m]) by {
                    lemma_group_step(rs, i as int, ks[m]);
                    if m != j {
                        lemma_first_keys_distinct(pre);
                        assert(ks[m] != key_of(r@));
                    }
                }
                assert forall|m: int| 0 <= m < out@.len() implies #[trigger] firsts@[m]
                    == group_of(post, first_keys(post)[m])[0].exit_code by {
                    lemma_group_step(rs, i as int, ks[m]);
                    lemma_group_len(pre, ks[m]);
                    assert(ks.contains(ks[m]));
                }
            }
        } else {
            assert(!ks.contains(key_of(r@))) by {
                if ks.contains(key_of(r@)) {
                    let m = choose|m: int| 0 <= m < ks.len() && ks[m] == key_of(r@);
                    assert(collapsed_key(out@[m]@) == ks[m]);
                }
            }
            assert(first_keys(post) == ks.push(key_of(r@)));
            proof {
                lemma_group_len(pre, key_of(r@));
            }
            assert(group_of(post, key_of(r@)) =~= seq![r@]);
            let c = collapsed_from(r);
            out.push(c);
            firsts.push(r.exit_code);
            proof {
                assert forall|m: int| 0 <= m < out@.len() implies #[trigger] out@[m]@
                    == collapsed_of(post, first_keys(post)[m]) by {
                    if m < ks.len() {
                        lemma_group_step(rs, i as int, ks[m]);
                    }
                }
                assert forall|m: int| 0 <= m < out@.len() implies #[trigger] firsts@[m]
                    == group_of(post, first_keys(post)[m])[0].exit_code by {
                    if m < ks.len() {
                        lemma_group_step(rs, i as int, ks[m]);
                        lemma_group_len(pre, ks[m]);
                        assert(ks.contains(ks[m]));
                    }
                }
            }
        }
        i += 1;
    }
    assert(rs.take(records@.len() as int) =~= rs);
    assert(collapsed_views(out@) =~= collapse_spec(rs));
    out
}


/// The number of runs that a sequence of collapsed results stands for.
pub open spec fn repeat_sum(cs: Seq<CollapsedView>) -> nat
    decreases cs.len(),
{
    if cs.len() == 0 {
        0
    } else {
        repeat_sum(cs.drop_last()) + cs.last().repeat_count
    }
}

/// The number of records of `rs` whose key is among `ks`.
pub open spec fn group_total(rs: Seq<CommandRecordView>, ks: Seq<CollapseKey>) -> nat
    decreases ks.len(),
{
    if ks.len() == 0 {
        0
    } else {
        group_total(rs, ks.drop_last()) + group_of(rs, ks.last()).len()
    }
}

proof fn lemma_repeat_sum_groups(rs: Seq<CommandRecordView>, ks: Seq<CollapseKey>)
    ensures
        repeat_sum(ks.map_values(|k: CollapseKey| collapsed_of(rs, k))) == group_total(rs, ks),
    decreases ks.len(),
{
    if ks.len() > 0 {
        lemma_repeat_sum_groups(rs, ks.drop_last());
        assert(ks.map_values(|k: CollapseKey| collapsed_of(rs, k)).drop_last() =~= ks.drop_last().map_values(
            |k: CollapseKey| collapsed_of(rs, k),
        ));
    }
}

proof fn lemma_group_total_push(
    rs: Seq<CommandRecordView>,
    r: CommandRecordView,
    ks: Seq<CollapseKey>,
)
    requires
        forall|a: int, b: int| 0 <= a < b < ks.len() ==> ks[a] != ks[b],
    ensures
        group_total(rs.push(r), ks) == group_total(rs, ks) + if ks.contains(key_of(r)) {
            1nat
        } else {
            0nat
        },
    decreases ks.len(),
{
    if ks.len() > 0 {
        let ks2 = ks.drop_last();
        lemma_group_total_push(rs, r, ks2);
        assert(rs.push(r).drop_last() =~= rs);
        if ks.last() == key_of(r) {
            assert(!ks2.contains(key_of(r))) by {
                if ks2.contains(key_of(r)) {
                    let a = choose|a: int| 0 <= a < ks2.len() && ks2[a] == key_of(r);
                    assert(ks[a] == ks[ks.len() - 1]);
                }
            }
            assert(ks.contains(key_of(r))) by {
                assert(ks[ks.len() - 1] == key_of(r));
            }
        } else {
            assert(ks.contains(key_of(r)) == ks2.contains(key_of(r))) by {
                if ks.contains(key_of(r)) {
                    let a = choose|a: int| 0 <= a < ks.len() && ks[a] == key_of(r);
                    assert(ks2[a] == key_of(r));
                }
                if ks2.contains(key_of(r)) {
                    let a = choose|a: int| 0 <= a < ks2.len() && ks2[a] == key_of(r);
                    assert(ks[a] == key_of(r));
                }
            }
        }
    }
}

/// Collapsing loses no run and counts none twice: the repeat counts of the
/// collapsed results add up to the number of records.
pub proof fn lemma_collapse_counts_every_record(rs: Seq<CommandRecordView>)
    ensures
        repeat_sum(collapse_spec(rs)) == rs.len(),
    decreases rs.len(),
{
    lemma_repeat_sum_groups(rs, first_keys(rs));
    lemma_group_total_all(rs);
}

proof fn lemma_group_total_all(rs: Seq<CommandRecordView>)
    ensures
        group_total(rs, first_keys(rs)) == rs.len(),
    decreases rs.len(),
{
    if rs.len() > 0 {
        let rs2 = rs.drop_last();
        let r = rs.last();
        let ks = first_keys(rs2);
        lemma_group_total_all(rs2);
        lemma_first_keys_distinct(rs2);
        assert(rs2.push(r) =~= rs);
        lemma_group_total_push(rs2, r, ks);
        if !ks.contains(key_of(r)) {
            let ks3 = ks.push(key_of(r));
            assert(ks3.drop_last() =~= ks);
            lemma_group_len(rs2, key_of(r));
            assert(group_of(rs, key_of(r)) =~= seq![r]);
        }
    }
}

/// Repeated commands appear once: no two collapsed results share a key.
pub proof fn lemma_collapsed_keys_distinct(rs: Seq<CommandRecordView>)
    ensures
        forall|a: int, b: int|
            0 <= a < b < collapse_spec(rs).len() ==> collapsed_key(collapse_spec(rs)[a])
                != collapsed_key(collapse_spec(rs)[b]),
{
    lemma_first_keys_distinct(rs);
}

proof fn lemma_newest_is_latest(g: Seq<CommandRecordView>)
    requires
        g.len() > 0,
    ensures
        g.contains(newest(g)),
        forall|j: int| 0 <= j < g.len() ==> #[trigger] g[j].executed_at <= newest(g).executed_at,
    decreases g.len(),
{
    if g.len() > 1 {
        lemma_newest_is_latest(g.drop_last());
        let n = newest(g.drop_last());
        let j0 = choose|j: int| 0 <= j < g.drop_last().len() && g.drop_last()[j] == n;
        assert(g[j0] == n);
        assert(g[g.len() - 1] == g.last());
        assert forall|j: int| 0 <= j < g.len() implies #[trigger] g[j].executed_at <= newest(
            g,
        ).executed_at by {
            if j < g.len() - 1 {
                assert(g[j] == g.drop_last()[j]);
            }
        }
    } else {
        assert(g[0] == newest(g));
    }
}

/// Each collapsed result shows one of its own runs, and no run of its key is
/// more recent than the time it shows.
pub proof fn lemma_collapsed_shows_latest_run(rs: Seq<CommandRecordView>, i: int)
    requires
        0 <= i < collapse_spec(rs).len(),
    ensures
        exists|j: int|
            0 <= j < rs.len() && key_of(#[trigger] rs[j]) == collapsed_key(collapse_spec(rs)[i])
                && rs[j].command_text == collapse_spec(rs)[i].command_text
                && rs[j].executed_at == collapse_spec(rs)[i].most_recent_executed_at
                && rs[j].exit_code == collapse_spec(rs)[i].most_recent_exit_code,
        forall|j: int|
            0 <= j < rs.len() && key_of(#[trigger] rs[j]) == collapsed_key(collapse_spec(rs)[i])
                ==> rs[j].executed_at <= collapse_spec(rs)[i].most_recent_executed_at,
{
    let k = first_keys(rs)[i];
    assert(first_keys(rs).contains(k));
    lemma_group_len(rs, k);
    let g = group_of(rs, k);
    lemma_newest_is_latest(g);
    lemma_group_members(rs, k);
    let n = newest(g);
    let a = choose|a: int| 0 <= a < g.len() && g[a] == n;
    let j = choose|j: int| 0 <= j < rs.len() && rs[j] == g[a];
    assert(key_of(rs[j]) == k);
    assert forall|j: int|
        0 <= j < rs.len() && key_of(#[trigger] rs[j]) == k implies rs[j].executed_at
        <= n.executed_at by {
        let b = choose|b: int| 0 <= b < g.len() && g[b] == rs[j];
        assert(g[b].executed_at <= n.executed_at);
    }
}

proof fn lemma_group_members(rs: Seq<CommandRecordView>, k: CollapseKey)
    ensures
        forall|a: int|
            0 <= a < group_of(rs, k).len() ==> exists|j: int|
                0 <= j < rs.len() && rs[j] == #[trigger] group_of(rs, k)[a],
        forall|a: int| 0 <= a < group_of(rs, k).len() ==> key_of(#[trigger] group_of(rs, k)[a]) == k,
        forall|j: int|
            0 <= j < rs.len() && key_of(#[trigger] rs[j]) == k ==> group_of(rs, k).contains(rs[j]),
    decreases rs.len(),
{
    if rs.len() > 0 {
        let rs2 = rs.drop_last();
        lemma_group_members(rs2, k);
        let g2 = group_of(rs2, k);
        assert forall|a: int| 0 <= a < group_of(rs, k).len() implies key_of(
            #[trigger] group_of(rs, k)[a],
        ) == k by {
            if a < g2.len() {
                assert(group_of(rs, k)[a] == g2[a]);
            }
        }
        assert forall|a: int| 0 <= a < group_of(rs, k).len() implies exists|j: int|
            0 <= j < rs.len() && rs[j] == #[trigger] group_of(rs, k)[a] by {
            if a < g2.len() {
                assert(group_of(rs, k)[a] == g2[a]);
                let j = choose|j: int| 0 <= j < rs2.len() && rs2[j] == g2[a];
                assert(rs[j] == rs2[j]);
            } else {
                assert(rs[rs.len() - 1] == group_of(rs, k)[a]);
            }
        }
        assert forall|j: int|
            0 <= j < rs.len() && key_of(#[trigger] rs[j]) == k implies group_of(rs, k).contains(
            rs[j],
        ) by {
            if j < rs.len() - 1 {
                assert(rs[j] == rs2[j]);
                let b = choose|b: int| 0 <= b < g2.len() && g2[b] == rs2[j];
                assert(group_of(rs, k)[b] == g2[b]);
            } else {
                assert(group_of(rs, k)[g2.len() as int] == rs[j]);
            }
        }
    }
}


/// Restrictions on which records a search returns.
#[derive(Debug, Clone, PartialEq, Eq)]
pub struct SearchFilters {
    pub cwd: Option<String>,
    pub repo: Option<String>,
    pub branch: Option<String>,
    /// `Some(true)`: failed runs only; `Some(false)`: successful runs only.
    pub failed: Option<bool>,
    /// Runs at or after this Unix time.
    pub since: Option<i64>,
    /// Runs at or before this Unix time.
    pub before: Option<i64>,
}

impl Default for SearchFilters {
    fn default() -> (res: Self)
        ensures
            res.cwd is None,
            res.repo is None,
            res.branch is None,
            res.failed is None,
            res.since is None,
            res.before is None,
    {
        SearchFilters {
            cwd: None,
            repo: None,
            branch: None,
            failed: None,
            since: None,
            before: None,
        }
    }
}

/// Why a search was refused.
#[derive(Debug, Clone, Copy, PartialEq, Eq, Structural)]
pub enum SearchError {
    /// The result limit lies outside 1 to 100.
    InvalidLimit,
    /// The time window has a negative bound or ends before it starts.
    InvalidTimeWindow,
}

impl SearchError {
    /// The category of this error: always invalid input.
    pub fn kind(&self) -> (res: ErrorKind)
        ensures
            res == ErrorKind::InvalidInput,
    {
        ErrorKind::InvalidInput
    }

    /// A message that describes the error.
    pub fn message(&self) -> (res: String)
        ensures
            res@ == match *self {
                SearchError::InvalidLimit => "limit must be between 1 and 100"@,
                SearchError::InvalidTimeWindow => "invalid time window"@,
            },
    {
        match self {
            SearchError::InvalidLimit => String::from_str("limit must be between 1 and 100"),
            SearchError::InvalidTimeWindow => String::from_str("invalid time window"),
        }
    }
}

/// A value bound to a `?` placeholder of a search statement.
#[derive(Debug, Clone, PartialEq, Eq)]
pub enum SqlValue {
    Text(String),
    Integer(i64),
}

/// The contents of a [`SqlValue`].
pub enum SqlParam {
    Text(Seq<char>),
    Integer(i64),
}

impl View for SqlValue {
    type V = SqlParam;

    open spec fn view(&self) -> SqlParam {
        match self {
            SqlValue::Text(s) => SqlParam::Text(s@),
            SqlValue::Integer(i) => SqlParam::Integer(*i),
        }
    }
}

/// A search statement over the command store and the values of its
/// placeholders, in order.
#[derive(Debug, Clone, PartialEq, Eq)]
pub struct SearchQuery {
    pub sql: String,
    pub values: Vec<SqlValue>,
}

/// What a search comes to: nothing can match, or a statement to run.
#[derive(Debug, Clone, PartialEq, Eq)]
pub enum SearchPlan {
    NoMatch,
    Run(SearchQuery),
}

/// Whether a result limit is acceptable (absent, or 1 to 100).
pub open spec fn limit_ok(limit: Option<usize>) -> bool {
    limit matches Some(l) ==> 1 <= l <= 100
}

/// Whether a time window is acceptable: no negative bound, and it does not end
/// before it starts.
pub open spec fn window_ok(since: Option<i64>, before: Option<i64>) -> bool {
    &&& since matches Some(s) ==> s >= 0
    &&& before matches Some(b) ==> b >= 0
    &&& (since is Some && before is Some) ==> since.unwrap() <= before.unwrap()
}

/// A term of a full-text query, quoted so that punctuation is literal.
pub open spec fn quote_term(t: Seq<char>) -> Seq<char> {
    seq!['"'] + t + seq!['"']
}

/// The full-text query for a search text: its search form's terms, each
/// quoted, separated by spaces; none when the search form is empty.
pub open spec fn fts_query(q: Seq<char>) -> Option<Seq<char>> {
    let n = normalize_text(q);
    if n.len() == 0 {
        None
    } else {
        Some(join_with(ws_tokens(n).map_values(|t: Seq<char>| quote_term(t)), seq![' ']))
    }
}

/// `x` alone when `b` holds, else nothing.
pub open spec fn when<T>(b: bool, x: T) -> Seq<T> {
    if b {
        seq![x]
    } else {
        seq![]
    }
}

/// The conditions of a search statement, in order.
pub open spec fn search_clauses(fts: Option<Seq<char>>, f: SearchFilters) -> Seq<Seq<char>> {
    when(fts is Some, "commands_fts MATCH ?"@) + when(f.cwd is Some, "commands.cwd = ?"@) + when(
        f.repo is Some,
        "commands.git_repo = ?"@,
    ) + when(f.branch is Some, "commands.git_branch = ?"@) + when(
        f.failed == Some(true),
        "commands.exit_code != 0"@,
    ) + when(f.failed == Some(false), "commands.exit_code = 0"@) + when(
        f.since is Some,
        "commands.executed_at >= ?"@,
    ) + when(f.before is Some, "commands.executed_at <= ?"@)
}

/// The placeholder values of a search statement's conditions, in order.
pub open spec fn filter_values(fts: Option<Seq<char>>, f: SearchFilters) -> Seq<SqlParam> {
    when(fts is Some, SqlParam::Text(fts.unwrap())) + when(
        f.cwd is Some,
        SqlParam::Text(f.cwd.unwrap()@),
    ) + when(f.repo is Some, SqlParam::Text(f.repo.unwrap()@)) + when(
        f.branch is Some,
        SqlParam::Text(f.branch.unwrap()@),
    ) + when(f.since is Some, SqlParam::Integer(f.since.unwrap())) + when(
        f.before is Some,
        SqlParam::Integer(f.before.unwrap()),
    )
}

/// The placeholder values of a search statement, in order: those of its
/// conditions, then the limit.
pub open spec fn search_values(
    fts: Option<Seq<char>>,
    f: SearchFilters,
    limit: Option<usize>,
) -> Seq<SqlParam> {
    filter_values(fts, f) + when(limit is Some, SqlParam::Integer(limit.unwrap() as i64))
}

/// The columns that a search reads, in the order of [`CommandRecord`]'s fields.
pub open spec fn select_columns() -> Seq<char> {
    "SELECT commands.command_text, commands.normalized_text, commands.cwd, commands.executed_at, commands.exit_code, commands.shell, commands.duration_ms, commands.hostname, commands.git_repo, commands.git_branch FROM "@
}

/// The text of a search statement: full-text matches ranked by relevance and
/// then recency, or all runs by recency; filtered by the clauses; limited
/// when a limit is given.
pub open spec fn statement_text(has_fts: bool, clauses: Seq<Seq<char>>, has_limit: bool) -> Seq<
    char,
> {
    select_columns() + (if has_fts {
        "commands_fts JOIN commands ON commands.id = commands_fts.rowid"@
    } else {
        "commands"@
    }) + (if clauses.len() > 0 {
        " WHERE "@ + join_with(clauses, " AND "@)
    } else {
        seq![]
    }) + (if has_fts {
        " ORDER BY bm25(commands_fts), commands.executed_at DESC, commands.id DESC"@
    } else {
        " ORDER BY commands.executed_at DESC, commands.id DESC"@
    }) + (if has_limit {
        " LIMIT ?"@
    } else {
        seq![]
    })
}

/// The text of the statement for a full-text query, filters and limit.
pub open spec fn search_sql(
    fts: Option<Seq<char>>,
    f: SearchFilters,
    limit: Option<usize>,
) -> Seq<char> {
    statement_text(fts is Some, search_clauses(fts, f), limit is Some)
}

/// A search statement ends with its ordering and then its limit: full-text
/// matches by relevance and then newest first, other searches newest first
/// (by time, then by insertion); after that only the limit's placeholder,
/// when there is a limit.
pub proof fn lemma_search_orders_newest_first(
    fts: Option<Seq<char>>,
    f: SearchFilters,
    limit: Option<usize>,
)
    ensures
        ({
            let sql = search_sql(fts, f, limit);
            let order = if fts is Some {
                " ORDER BY bm25(commands_fts), commands.executed_at DESC, commands.id DESC"@
            } else {
                " ORDER BY commands.executed_at DESC, commands.id DESC"@
            };
            let tail = order + if limit is Some {
                " LIMIT ?"@
            } else {
                Seq::<char>::empty()
            };
            &&& sql.len() >= tail.len()
            &&& sql.subrange(sql.len() - tail.len(), sql.len() as int) == tail
        }),
{
    let sql = search_sql(fts, f, limit);
    let clauses = search_clauses(fts, f);
    let head = select_columns() + (if fts is Some {
        "commands_fts JOIN commands ON commands.id = commands_fts.rowid"@
    } else {
        "commands"@
    }) + (if clauses.len() > 0 {
        " WHERE "@ + join_with(clauses, " AND "@)
    } else {
        seq![]
    });
    let order = if fts is Some {
        " ORDER BY bm25(commands_fts), commands.executed_at DESC, commands.id DESC"@
    } else {
        " ORDER BY commands.executed_at DESC, commands.id DESC"@
    };
    let lim = if limit is Some {
        " LIMIT ?"@
    } else {
        Seq::<char>::empty()
    };
    assert(sql =~= head + (order + lim));
    assert(sql.subrange(head.len() as int, sql.len() as int) =~= order + lim);
}

/// The views of a sequence of values.
pub open spec fn param_views(vs: Seq<SqlValue>) -> Seq<SqlParam> {
    vs.map_values(|v: SqlValue| v@)
}

/// The characters of a string slice, as a vector.
fn lit(s: &str) -> (res: Vec<char>)
    ensures
        res@ == s@,
{
    chars_of(s)
}

/// The full-text query for a search text.
pub fn build_fts_query(query: &str) -> (res: Option<String>)
    ensures
        opt_view(res) == fts_query(query@),
{
    let chars = chars_of(query);
    let n = normalize_chars(chars.as_slice());
    if n.len() == 0 {
        return None;
    }
    let terms = split_whitespace(n.as_slice());
    let mut quoted: Vec<Vec<char>> = Vec::new();
    let mut i: usize = 0;
    while i < terms.len()
        invariant
            i <= terms@.len(),
            views(quoted@) == views(terms@).take(i as int).map_values(
                |t: Seq<char>| quote_term(t),
            ),
        decreases terms@.len() - i,
    {
        let mut q: Vec<char> = Vec::new();
        q.push('"');
        append_chars(&mut q, terms[i].as_slice());
        q.push('"');
        assert(q@ =~= quote_term(terms@[i as int]@));
        let ghost before = views(quoted@);
        quoted.push(q);
        assert(views(quoted@) =~= before.push(quote_term(terms@[i as int]@)));
        assert(views(terms@).take(i + 1).map_values(|t: Seq<char>| quote_term(t)) =~= views(
            terms@,
        ).take(i as int).map_values(|t: Seq<char>| quote_term(t)).push(
            quote_term(terms@[i as int]@),
        ));
        i += 1;
    }
    assert(views(terms@).take(terms@.len() as int) =~= views(terms@));
    let sep = [' '];
    assert(sep@ =~= seq![' ']);
    let joined = join_chars(&quoted, &sep);
    Some(string_from_chars(joined.as_slice()))
}

/// Adds a condition that binds an optional text, when the text is present.
fn add_text_condition(
    clauses: &mut Vec<Vec<char>>,
    values: &mut Vec<SqlValue>,
    clause: &str,
    value: &Option<String>,
)
    ensures
        views(final(clauses)@) == views(old(clauses)@) + when(value is Some, clause@),
        param_views(final(values)@) == param_views(old(values)@) + when(
            value is Some,
            SqlParam::Text(opt_view(*value).unwrap()),
        ),
{
    if let Some(v) = value {
        clauses.push(chars_of(clause));
        values.push(SqlValue::Text(v.clone()));
    }
    assert(views(clauses@) =~= views(old(clauses)@) + when(value is Some, clause@));
    assert(param_views(values@) =~= param_views(old(values)@) + when(
        value is Some,
        SqlParam::Text(opt_view(*value).unwrap()),
    ));
}

/// Adds a condition that binds an optional time, when the time is present.
fn add_time_condition(
    clauses: &mut Vec<Vec<char>>,
    values: &mut Vec<SqlValue>,
    clause: &str,
    value: Option<i64>,
)
    ensures
        views(final(clauses)@) == views(old(clauses)@) + when(value is Some, clause@),
        param_views(final(values)@) == param_views(old(values)@) + when(
            value is Some,
            SqlParam::Integer(value.unwrap()),
        ),
{
    if let Some(v) = value {
        clauses.push(chars_of(clause));
        values.push(SqlValue::Integer(v));
    }
    assert(views(clauses@) =~= views(old(clauses)@) + when(value is Some, clause@));
    assert(param_views(values@) =~= param_views(old(values)@) + when(
        value is Some,
        SqlParam::Integer(value.unwrap()),
    ));
}

/// Adds a condition without a value, when `b` holds.
fn add_fixed_condition(clauses: &mut Vec<Vec<char>>, clause: &str, b: bool)
    ensures
        views(final(clauses)@) == views(old(clauses)@) + when(b, clause@),
{
    if b {
        clauses.push(chars_of(clause));
    }
    assert(views(clauses@) =~= views(old(clauses)@) + when(b, clause@));
}

/// The conditions of a search statement and the values they bind.
#[verifier::rlimit(30)]
fn search_conditions(fts: &Option<String>, filters: &SearchFilters) -> (res: (
    Vec<Vec<char>>,
    Vec<SqlValue>,
))
    ensures
        views(res.0@) == search_clauses(opt_view(*fts), *filters),
        param_views(res.1@) == filter_values(opt_view(*fts), *filters),
{
    let mut clauses: Vec<Vec<char>> = Vec::new();
    let mut values: Vec<SqlValue> = Vec::new();
    assert(views(clauses@) =~= seq![]);
    assert(param_views(values@) =~= seq![]);
    add_text_condition(&mut clauses, &mut values, "commands_fts MATCH ?", fts);
    add_text_condition(&mut clauses, &mut values, "commands.cwd = ?", &filters.cwd);
    add_text_condition(&mut clauses, &mut values, "commands.git_repo = ?", &filters.repo);
    add_text_condition(&mut clauses, &mut values, "commands.git_branch = ?", &filters.branch);
    add_fixed_condition(&mut clauses, "commands.exit_code != 0", filters.failed == Some(true));
    add_fixed_condition(&mut clauses, "commands.exit_code = 0", filters.failed == Some(false));
    add_time_condition(&mut clauses, &mut values, "commands.executed_at >= ?", filters.since);
    add_time_condition(&mut clauses, &mut values, "commands.executed_at <= ?", filters.before);
    assert(views(clauses@) =~= search_clauses(opt_view(*fts), *filters));
    assert(param_views(values@) =~= filter_values(opt_view(*fts), *filters));
    (clauses, values)
}

/// The text of a search statement.
fn statement(has_fts: bool, clauses: &Vec<Vec<char>>, has_limit: bool) -> (res: String)
    ensures
        res@ == statement_text(has_fts, views(clauses@), has_limit),
{
    let mut sql = lit(
        "SELECT commands.command_text, commands.normalized_text, commands.cwd, commands.executed_at, commands.exit_code, commands.shell, commands.duration_ms, commands.hostname, commands.git_repo, commands.git_branch FROM ",
    );
    if has_fts {
        append_chars(
            &mut sql,
            lit("commands_fts JOIN commands ON commands.id = commands_fts.rowid").as_slice(),
        );
    } else {
        append_chars(&mut sql, lit("commands").as_slice());
    }
    let ghost s1 = sql@;
    if clauses.len() > 0 {
        append_chars(&mut sql, lit(" WHERE ").as_slice());
        let joined = join_chars(clauses, lit(" AND ").as_slice());
        append_chars(&mut sql, joined.as_slice());
    }
    let ghost s2 = sql@;
    if has_fts {
        append_chars(
            &mut sql,
            lit(
                " ORDER BY bm25(commands_fts), commands.executed_at DESC, commands.id DESC",
            ).as_slice(),
        );
    } else {
        append_chars(
            &mut sql,
            lit(" ORDER BY commands.executed_at DESC, commands.id DESC").as_slice(),
        );
    }
    let ghost s3 = sql@;
    if has_limit {
        append_chars(&mut sql, lit(" LIMIT ?").as_slice());
    }
    assert(sql@ =~= statement_text(has_fts, views(clauses@), has_limit));
    string_from_chars(sql.as_slice())
}

/// Plans a filtered search: checks the limit and the time window, turns the
/// search text into a full-text query (a text with nothing searchable matches
/// nothing), and builds the statement and its values.
pub fn plan_filtered_search(
    query: Option<&str>,
    filters: &SearchFilters,
    limit: Option<usize>,
) -> (res: Result<SearchPlan, SearchError>)
    ensures
        !limit_ok(limit) <==> res == Err::<SearchPlan, SearchError>(SearchError::InvalidLimit),
        limit_ok(limit) && !window_ok(filters.since, filters.before) <==> res == Err::<
            SearchPlan,
            SearchError,
        >(SearchError::InvalidTimeWindow),
        res matches Ok(plan) ==> {
            let fts = match query {
                Some(q) => fts_query(q@),
                None => None,
            };
            &&& plan is NoMatch <==> (query is Some && fts is None)
            &&& plan matches SearchPlan::Run(sq) ==> {
                &&& sq.sql@ == search_sql(fts, *filters, limit)
                &&& param_views(sq.values@) == search_values(fts, *filters, limit)
            }
        },
{
    if let Some(l) = limit {
        if l < 1 || l > 100 {
            return Err(SearchError::InvalidLimit);
        }
    }
    let bad_since = match filters.since {
        Some(s) => s < 0,
        None => false,
    };
    let bad_before = match filters.before {
        Some(b) => b < 0,
        None => false,
    };
    let reversed = match (filters.since, filters.before) {
        (Some(s), Some(b)) => s > b,
        _ => false,
    };
    if bad_since || bad_before || reversed {
        return Err(SearchError::InvalidTimeWindow);
    }
    let fts = match query {
        Some(q) => {
            let f = build_fts_query(q);
            if f.is_none() {
                return Ok(SearchPlan::NoMatch);
            }
            f
        },
        None => None,
    };
    let (clauses, mut values) = search_conditions(&fts, filters);
    let sql = statement(fts.is_some(), &clauses, limit.is_some());
    if let Some(l) = limit {
        let ghost before = param_views(values@);
        values.push(SqlValue::Integer(l as i64));
        assert(param_views(values@) =~= before.push(SqlParam::Integer(l as i64)));
    }
    assert(param_views(values@) =~= search_values(opt_view(fts), *filters, limit));
    Ok(SearchPlan::Run(SearchQuery { sql, values }))
}


/// The collapsed results that match a normalized query, each with its score,
/// in their order.
pub open spec fn scored(q: Seq<char>, cs: Seq<CollapsedView>) -> Seq<(int, CollapsedView)>
    decreases cs.len(),
{
    if cs.len() == 0 {
        seq![]
    } else {
        let rest = scored(q, cs.drop_last());
        match fuzzy_score_of(q, cs.last().normalized_text) {
            Some(sc) => rest.push((sc, cs.last())),
            None => rest,
        }
    }
}

/// The first position at or after `j` whose score exceeds `key`.
pub open spec fn first_greater(s: Seq<(int, CollapsedView)>, key: int, j: int) -> int
    decreases s.len() - j,
{
    if j >= s.len() || j < 0 {
        s.len() as int
    } else if s[j].0 > key {
        j
    } else {
        first_greater(s, key, j + 1)
    }
}

/// Scored results ordered by score, equal scores keeping their order.
pub open spec fn stable_sort(s: Seq<(int, CollapsedView)>) -> Seq<(int, CollapsedView)>
    decreases s.len(),
{
    if s.len() == 0 {
        s
    } else {
        let t = stable_sort(s.drop_last());
        t.insert(first_greater(t, s.last().0, 0), s.last())
    }
}

/// The fuzzy results for a normalized query: the matching collapsed results,
/// best score first (equal scores in their order), at most `limit` of them.
pub open spec fn fuzzy_results(q: Seq<char>, cs: Seq<CollapsedView>, limit: nat) -> Seq<
    CollapsedView,
> {
    let sorted = stable_sort(scored(q, cs));
    let n = if limit < sorted.len() {
        limit as int
    } else {
        sorted.len() as int
    };
    sorted.take(n).map_values(|p: (int, CollapsedView)| p.1)
}

/// The view of a scored result.
pub open spec fn scored_view(p: (usize, CollapsedRecord)) -> (int, CollapsedView) {
    (p.0 as int, p.1@)
}

/// The views of scored results.
pub open spec fn scored_views(v: Seq<(usize, CollapsedRecord)>) -> Seq<(int, CollapsedView)> {
    v.map_values(|p: (usize, CollapsedRecord)| scored_view(p))
}

/// A copy of a collapsed result.
pub fn copy_collapsed(c: &CollapsedRecord) -> (res: CollapsedRecord)
    ensures
        res@ == c@,
{
    CollapsedRecord {
        command_text: c.command_text.clone(),
        normalized_text: c.normalized_text.clone(),
        repeat_count: c.repeat_count,
        most_recent_executed_at: c.most_recent_executed_at,
        most_recent_cwd: c.most_recent_cwd.clone(),
        most_recent_exit_code: c.most_recent_exit_code,
        all_same_exit: c.all_same_exit,
        repo: clone_opt(&c.repo),
        branch: clone_opt(&c.branch),
    }
}

/// The position at which a result with score `key` joins a list in order.
fn insert_position(sorted: &Vec<(usize, CollapsedRecord)>, key: usize) -> (res: usize)
    ensures
        res == first_greater(scored_views(sorted@), key as int, 0),
        res <= sorted@.len(),
{
    let mut j: usize = 0;
    while j < sorted.len()
        invariant
            j <= sorted@.len(),
            first_greater(scored_views(sorted@), key as int, 0) == first_greater(
                scored_views(sorted@),
                key as int,
                j as int,
            ),
        decreases sorted@.len() - j,
    {
        assert(scored_views(sorted@)[j as int].0 == sorted@[j as int].0);
        if sorted[j].0 > key {
            return j;
        }
        j += 1;
    }
    j
}

/// Whether every stored record's search form can be scored against a
/// normalized query of `q` characters without overflow.
pub open spec fn records_fit(q: nat, rs: Seq<CommandRecordView>) -> bool {
    forall|i: int| 0 <= i < rs.len() ==> fuzzy_fits(q, #[trigger] rs[i].normalized_text.len())
}

/// Ranks records for interactive search: collapses them, keeps those that
/// fuzzily match the query, orders them by score (equal scores in collapse
/// order) and keeps at most `limit`.
pub fn fuzzy_rank(query: &str, records: Vec<CommandRecord>, limit: usize) -> (res: Vec<
    CollapsedRecord,
>)
    requires
        records_fit(normalize_text(query@).len(), record_views(records@)),
    ensures
        collapsed_views(res@) == fuzzy_results(
            normalize_text(query@),
            collapse_spec(record_views(records@)),
            limit as nat,
        ),
{
    let qchars = chars_of(query);
    let nq = normalize_chars(qchars.as_slice());
    let ghost rs = record_views(records@);
    let collapsed = collapse_records(records);
    let ghost cs = collapse_spec(rs);
    let mut sorted: Vec<(usize, CollapsedRecord)> = Vec::new();
    let mut i: usize = 0;
    while i < collapsed.len()
        invariant
            i <= collapsed@.len(),
            collapsed_views(collapsed@) == cs,
            cs == collapse_spec(rs),
            nq@ == normalize_text(query@),
            records_fit(nq@.len(), rs),
            scored_views(sorted@) == stable_sort(scored(nq@, cs.take(i as int))),
        decreases collapsed@.len() - i,
    {
        let c = &collapsed[i];
        assert(cs[i as int] == c@);
        proof {
            lemma_collapsed_shows_latest_run(rs, i as int);
        }
        let cand = chars_of(c.normalized_text.as_str());
        assert(cs.take(i + 1).drop_last() =~= cs.take(i as int));
        assert(cs.take(i + 1).last() == c@);
        let score = fuzzy_score(nq.as_slice(), cand.as_slice());
        let ghost pre = scored(nq@, cs.take(i as int));
        if let Some(sc) = score {
            let pos = insert_position(&sorted, sc);
            let ghost before = scored_views(sorted@);
            sorted.insert(pos, (sc, copy_collapsed(c)));
            assert(scored_views(sorted@) =~= before.insert(pos as int, (sc as int, c@)));
            let ghost post = scored(nq@, cs.take(i + 1));
            assert(post == pre.push((sc as int, c@)));
            assert(post.drop_last() =~= pre);
            assert(post.last() == (sc as int, c@));
        } else {
            assert(scored(nq@, cs.take(i + 1)) == pre);
        }
        i += 1;
    }
    assert(cs.take(collapsed@.len() as int) =~= cs);
    let mut res: Vec<CollapsedRecord> = Vec::new();
    let mut k: usize = 0;
    let ghost sv = scored_views(sorted@);
    while k < sorted.len() && k < limit
        invariant
            k <= sorted@.len(),
            k <= limit,
            sv == scored_views(sorted@),
            collapsed_views(res@) == sv.take(k as int).map_values(
                |p: (int, CollapsedView)| p.1,
            ),
        decreases sorted@.len() - k,
    {
        let ghost before = collapsed_views(res@);
        res.push(copy_collapsed(&sorted[k].1));
        assert(sv[k as int] == scored_view(sorted@[k as int]));
        assert(collapsed_views(res@) =~= before.push(sv[k as int].1));
        assert(sv.take(k + 1).map_values(|p: (int, CollapsedView)| p.1) =~= sv.take(
            k as int,
        ).map_values(|p: (int, CollapsedView)| p.1).push(sv[k as int].1));
        k += 1;
    }
    assert(sv == stable_sort(scored(nq@, cs)));
    let ghost n = if (limit as nat) < sv.len() {
        limit as int
    } else {
        sv.len() as int
    };
    assert(k == n);
    assert(collapsed_views(res@) =~= fuzzy_results(nq@, cs, limit as nat));
    res
}


/// Whether a scored result carries its own score for the query.
pub open spec fn consistent(q: Seq<char>, p: (int, CollapsedView)) -> bool {
    fuzzy_score_of(q, p.1.normalized_text) == Some(p.0)
}

proof fn lemma_scored_consistent(q: Seq<char>, cs: Seq<CollapsedView>)
    ensures
        forall|i: int| 0 <= i < scored(q, cs).len() ==> consistent(q, #[trigger] scored(q, cs)[i]),
    decreases cs.len(),
{
    if cs.len() > 0 {
        lemma_scored_consistent(q, cs.drop_last());
        let rest = scored(q, cs.drop_last());
        assert forall|i: int| 0 <= i < scored(q, cs).len() implies consistent(
            q,
            #[trigger] scored(q, cs)[i],
        ) by {
            if i < rest.len() {
                assert(scored(q, cs)[i] == rest[i]);
            }
        }
    }
}

proof fn lemma_first_greater(s: Seq<(int, CollapsedView)>, key: int, j: int)
    requires
        0 <= j <= s.len(),
    ensures
        j <= first_greater(s, key, j) <= s.len(),
        forall|m: int| j <= m < first_greater(s, key, j) ==> #[trigger] s[m].0 <= key,
        first_greater(s, key, j) < s.len() ==> s[first_greater(s, key, j)].0 > key,
    decreases s.len() - j,
{
    if j < s.len() && s[j].0 <= key {
        lemma_first_greater(s, key, j + 1);
    }
}

proof fn lemma_stable_sort_props(q: Seq<char>, s: Seq<(int, CollapsedView)>)
    requires
        forall|i: int| 0 <= i < s.len() ==> consistent(q, #[trigger] s[i]),
    ensures
        stable_sort(s).len() == s.len(),
        forall|i: int| 0 <= i < stable_sort(s).len() ==> consistent(q, #[trigger] stable_sort(s)[i]),
        forall|a: int, b: int|
            0 <= a < b < stable_sort(s).len() ==> stable_sort(s)[a].0 <= stable_sort(s)[b].0,
    decreases s.len(),
{
    if s.len() > 0 {
        let t = stable_sort(s.drop_last());
        lemma_stable_sort_props(q, s.drop_last());
        let x = s.last();
        assert(consistent(q, s[s.len() - 1]));
        lemma_first_greater(t, x.0, 0);
        let pos = first_greater(t, x.0, 0);
        let r = t.insert(pos, x);
        assert forall|i: int| 0 <= i < r.len() implies consistent(q, #[trigger] r[i]) by {
            if i < pos {
                assert(r[i] == t[i]);
            } else if i > pos {
                assert(r[i] == t[i - 1]);
            }
        }
        assert forall|a: int, b: int| 0 <= a < b < r.len() implies r[a].0 <= r[b].0 by {
            if b < pos {
                assert(r[a] == t[a] && r[b] == t[b]);
            } else if b == pos {
                assert(r[a] == t[a]);
            } else if a < pos {
                assert(r[a] == t[a] && r[b] == t[b - 1]);
                assert(t[pos].0 > x.0);
                if b - 1 > pos {
                    assert(t[pos].0 <= t[b - 1].0);
                }
            } else if a == pos {
                assert(r[b] == t[b - 1]);
                assert(t[pos].0 > x.0);
                if b - 1 > pos {
                    assert(t[pos].0 <= t[b - 1].0);
                }
            } else {
                assert(r[a] == t[a - 1] && r[b] == t[b - 1]);
            }
        }
    }
}

/// Fuzzy results come best first: each matches the query, later results never
/// score better than earlier ones, and there are at most `limit` of them.
pub proof fn lemma_fuzzy_results_ranked(q: Seq<char>, cs: Seq<CollapsedView>, limit: nat)
    ensures
        fuzzy_results(q, cs, limit).len() <= limit,
        forall|i: int|
            0 <= i < fuzzy_results(q, cs, limit).len() ==> fuzzy_score_of(
                q,
                #[trigger] fuzzy_results(q, cs, limit)[i].normalized_text,
            ) is Some,
        forall|a: int, b: int|
            0 <= a < b < fuzzy_results(q, cs, limit).len() ==> fuzzy_score_of(
                q,
                fuzzy_results(q, cs, limit)[a].normalized_text,
            ).unwrap() <= fuzzy_score_of(q, fuzzy_results(q, cs, limit)[b].normalized_text).unwrap(),
{
    lemma_scored_consistent(q, cs);
    lemma_stable_sort_props(q, scored(q, cs));
    let sorted = stable_sort(scored(q, cs));
    let res = fuzzy_results(q, cs, limit);
    assert forall|i: int| 0 <= i < res.len() implies fuzzy_score_of(
        q,
        #[trigger] res[i].normalized_text,
    ) is Some by {
        assert(res[i] == sorted[i].1);
        assert(consistent(q, sorted[i]));
    }
    assert forall|a: int, b: int| 0 <= a < b < res.len() implies fuzzy_score_of(
        q,
        res[a].normalized_text,
    ).unwrap() <= fuzzy_score_of(q, res[b].normalized_text).unwrap() by {
        assert(res[a] == sorted[a].1 && res[b] == sorted[b].1);
        assert(consistent(q, sorted[a]) && consistent(q, sorted[b]));
    }
}

/// Whether every record can be scored against `query` without overflow.
pub fn records_fit_query(query: &str, records: &Vec<CommandRecord>) -> (res: bool)
    ensures
        res == records_fit(normalize_text(query@).len(), record_views(records@)),
{
    let qchars = chars_of(query);
    let nq = normalize_chars(qchars.as_slice());
    let q = nq.len();
    let mut i: usize = 0;
    while i < records.len()
        invariant
            i <= records@.len(),
            q == normalize_text(query@).len(),
            forall|j: int|
                0 <= j < i ==> fuzzy_fits(q as nat, #[trigger] records@[j].normalized_text@.len()),
        decreases records@.len() - i,
    {
        let c = chars_of(records[i].normalized_text.as_str()).len();
        let a: u128 = q as u128 + 1;
        let b: u128 = q as u128 + c as u128 + 1;
        let fits = match a.checked_mul(b) {
            Some(ab) => match ab.checked_mul(100) {
                Some(v) => v <= usize::MAX as u128,
                None => false,
            },
            None => false,
        };
        assert(fits == fuzzy_fits(q as nat, c as nat)) by (nonlinear_arith)
            requires
                a == q + 1,
                b == q + c + 1,
                fits == (a * b * 100 <= usize::MAX),
        {
            assert(100 * (q + 1) * (q + c + 1) == a * b * 100);
        }
        if !fits {
            assert(record_views(records@)[i as int] == records@[i as int]@);
            assert(c == records@[i as int].normalized_text@.len());
            assert(!fuzzy_fits(q as nat, record_views(records@)[i as int].normalized_text.len()));
            return false;
        }
        i += 1;
    }
    assert forall|j: int| 0 <= j < records@.len() implies fuzzy_fits(
        q as nat,
        #[trigger] record_views(records@)[j].normalized_text.len(),
    ) by {
        assert(record_views(records@)[j] == records@[j]@);
    }
    true
}

/// Ranks records for interactive search when they can be scored without
/// overflow; answers none otherwise.
pub fn fuzzy_rank_checked(query: &str, records: Vec<CommandRecord>, limit: usize) -> (res: Option<
    Vec<CollapsedRecord>,
>)
    ensures
        res is Some <==> records_fit(normalize_text(query@).len(), record_views(records@)),
        res matches Some(v) ==> collapsed_views(v@) == fuzzy_results(
            normalize_text(query@),
            collapse_spec(record_views(records@)),
            limit as nat,
        ),
{
    if records_fit_query(query, &records) {
        Some(fuzzy_rank(query, records, limit))
    } else {
        None
    }
}

/// Plans the statement behind an interactive search: checks the limit, answers
/// none when the query has nothing searchable, and otherwise reads every run
/// that the filters admit, most recent first.
pub fn plan_fuzzy_search(query: &str, filters: &SearchFilters, limit: usize) -> (res: Result<
    Option<SearchQuery>,
    SearchError,
>)
    ensures
        !(1 <= limit <= 100) <==> res == Err::<Option<SearchQuery>, SearchError>(
            SearchError::InvalidLimit,
        ),
        (1 <= limit <= 100 && normalize_text(query@).len() == 0) <==> res == Ok::<
            Option<SearchQuery>,
            SearchError,
        >(None),
        (1 <= limit <= 100 && normalize_text(query@).len() > 0 && !window_ok(
            filters.since,
            filters.before,
        )) <==> res == Err::<Option<SearchQuery>, SearchError>(SearchError::InvalidTimeWindow),
        res matches Ok(Some(sq)) ==> {
            &&& sq.sql@ == search_sql(None, *filters, None)
            &&& param_views(sq.values@) == search_values(None, *filters, None)
        },
{
    if limit < 1 || limit > 100 {
        return Err(SearchError::InvalidLimit);
    }
    let qchars = chars_of(query);
    let nq = normalize_chars(qchars.as_slice());
    if nq.len() == 0 {
        return Ok(None);
    }
    match plan_filtered_search(None, filters, None) {
        Ok(SearchPlan::Run(sq)) => Ok(Some(sq)),
        Ok(SearchPlan::NoMatch) => Ok(None),
        Err(e) => Err(e),
    }
}

} // verus!
