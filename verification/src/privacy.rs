//! Ignore rules and optional redaction of secrets.

use crate::config::{string_views, PrivacyConfig};
use crate::db::opt_view;
use crate::text::{
    chars_eq, chars_of, is_ws, lemma_first_token_of, lemma_tokens_of_blank, split_whitespace,
    ws_tokens,
};
use vstd::prelude::*;

verus! {

/// Secrets assigned to names such as `PASSWORD`, `TOKEN` or `API_KEY`.
pub const ASSIGNMENT_PATTERN: &'static str = r"(?i)(?:\b|(_))(password|passwd|pass|pwd|secret|token|access_token|refresh_token|api[_-]?key|apikey|api[_-]?secret)\s*=\s*\S+";

/// The replacement for [`ASSIGNMENT_PATTERN`]: the name kept, the value masked.
pub const ASSIGNMENT_REPLACEMENT: &'static str = "${1}${2}=<REDACTED>";

/// Secrets given as the value of flags such as `--password` or `--token`.
pub const FLAG_PATTERN: &'static str = r"(?i)--(password|passwd|pass|secret|token|api[_-]?key|apikey)\s+\S+";

/// The replacement for [`FLAG_PATTERN`]: the flag kept, the value masked.
pub const FLAG_REPLACEMENT: &'static str = "--$1 <REDACTED>";

/// Bearer tokens.
pub const BEARER_PATTERN: &'static str = r#"(?i)(bearer\s+)[^\s"']+"#;

/// The replacement for [`BEARER_PATTERN`]: the keyword kept, the token masked.
pub const BEARER_REPLACEMENT: &'static str = "${1}<REDACTED>";

/// What `regex::Regex::new(pattern)` followed by `replace_all(text,
/// replacement)` yields: none when the pattern does not compile.
pub uninterp spec fn regex_replace_all_result(
    pattern: Seq<char>,
    text: Seq<char>,
    replacement: Seq<char>,
) -> Option<Seq<char>>;

/// Compiles `pattern` with `regex::Regex::new` and, when it compiles, calls
/// `Regex::replace_all` on `text` with `replacement`. The result is named,
/// not stated: it is a function of the three strings.
#[verifier::external_body]
fn regex_replace_all(pattern: &str, text: &str, replacement: &str) -> (res: Option<String>)
    ensures
        opt_view(res) == regex_replace_all_result(pattern@, text@, replacement@),
{
    match regex::Regex::new(pattern) {
        Ok(re) => Some(re.replace_all(text, replacement).into_owned()),
        Err(_) => None,
    }
}

/// `text` with every match of `pattern` replaced; `text` itself should the
/// pattern not compile.
pub open spec fn replace_or_keep(pattern: Seq<char>, text: Seq<char>, replacement: Seq<char>) -> Seq<
    char,
> {
    match regex_replace_all_result(pattern, text, replacement) {
        Some(r) => r,
        None => text,
    }
}

/// A command with assigned secrets, flag secrets and bearer tokens masked, in
/// that order.
pub open spec fn redact_spec(text: Seq<char>) -> Seq<char> {
    replace_or_keep(
        BEARER_PATTERN@,
        replace_or_keep(
            FLAG_PATTERN@,
            replace_or_keep(ASSIGNMENT_PATTERN@, text, ASSIGNMENT_REPLACEMENT@),
            FLAG_REPLACEMENT@,
        ),
        BEARER_REPLACEMENT@,
    )
}

/// Replaces every match of one pattern.
fn apply(pattern: &str, text: String, replacement: &str) -> (res: String)
    ensures
        res@ == replace_or_keep(pattern@, text@, replacement@),
{
    match regex_replace_all(pattern, text.as_str(), replacement) {
        Some(r) => r,
        None => text,
    }
}

/// Masks obvious secrets in a command.
pub fn redact(command: &str) -> (res: String)
    ensures
        res@ == redact_spec(command@),
{
    let s = String::from_str(command);
    let s = apply(ASSIGNMENT_PATTERN, s, ASSIGNMENT_REPLACEMENT);
    let s = apply(FLAG_PATTERN, s, FLAG_REPLACEMENT);
    apply(BEARER_PATTERN, s, BEARER_REPLACEMENT)
}

/// The first white-space separated token of a command; empty when there is
/// none.
pub open spec fn first_token(s: Seq<char>) -> Seq<char> {
    if ws_tokens(s).len() > 0 {
        ws_tokens(s)[0]
    } else {
        seq![]
    }
}

/// Whether a command's first token is one of the ignored commands.
pub open spec fn is_ignored(text: Seq<char>, ignore: Seq<Seq<char>>) -> bool {
    exists|i: int| 0 <= i < ignore.len() && ignore[i] == first_token(text)
}

/// What is stored for a command: nothing when its first token is ignored;
/// otherwise the command, masked when redaction is enabled and raw when not.
pub open spec fn filtered(text: Seq<char>, redaction_enabled: bool, ignore: Seq<Seq<char>>) -> Option<
    Seq<char>,
> {
    if is_ignored(text, ignore) {
        None
    } else if redaction_enabled {
        Some(redact_spec(text))
    } else {
        Some(text)
    }
}

/// Redaction only ever changes how a command is stored, never whether it is:
/// the same commands are kept with it on or off, and with it off a kept
/// command is stored exactly as it was run.
pub proof fn lemma_redaction_keeps_what_is_stored(text: Seq<char>, ignore: Seq<Seq<char>>)
    ensures
        filtered(text, true, ignore) is Some <==> filtered(text, false, ignore) is Some,
        filtered(text, false, ignore) is None <==> is_ignored(text, ignore),
        filtered(text, false, ignore) is Some ==> filtered(text, false, ignore) == Some(text),
{
}

/// Only the first word of a command decides whether it is ignored: a command
/// made of leading white space, a word, and then nothing or white space and
/// anything at all, is dropped exactly when that word is one of the ignore
/// rules, whatever follows it and whether or not redaction is on.
pub proof fn lemma_ignore_decided_by_first_word(
    w: Seq<char>,
    t: Seq<char>,
    r: Seq<char>,
    redaction_enabled: bool,
    ignore: Seq<Seq<char>>,
)
    requires
        forall|i: int| 0 <= i < w.len() ==> #[trigger] is_ws(w[i]),
        t.len() > 0,
        forall|i: int| 0 <= i < t.len() ==> !is_ws(#[trigger] t[i]),
        r.len() == 0 || is_ws(r[0]),
    ensures
        filtered(w + t + r, redaction_enabled, ignore) is None <==> ignore.contains(t),
{
    lemma_first_token_of(w, t, r);
    if ignore.contains(t) {
        let i = choose|i: int| 0 <= i < ignore.len() && ignore[i] == t;
        assert(ignore[i] == first_token(w + t + r));
    }
}

/// A command of white space alone is dropped exactly when an ignore rule is
/// empty, since its first word is empty.
pub proof fn lemma_blank_command_ignored_by_empty_rule(
    text: Seq<char>,
    redaction_enabled: bool,
    ignore: Seq<Seq<char>>,
)
    requires
        forall|i: int| 0 <= i < text.len() ==> #[trigger] is_ws(text[i]),
    ensures
        filtered(text, redaction_enabled, ignore) is None <==> ignore.contains(Seq::<char>::empty()),
{
    lemma_tokens_of_blank(text);
    assert(first_token(text) =~= Seq::<char>::empty());
    if ignore.contains(Seq::<char>::empty()) {
        let i = choose|i: int| 0 <= i < ignore.len() && ignore[i] == Seq::<char>::empty();
        assert(ignore[i] == first_token(text));
    }
}

/// Applies the privacy settings to a command: `None` when it must not be
/// stored, else the text to store, redacted only when redaction is enabled.
pub fn filter_command(command_text: &str, config: &PrivacyConfig) -> (res: Option<String>)
    ensures
        opt_view(res) == filtered(
            command_text@,
            config.redaction_enabled,
            string_views(config.ignore_commands@),
        ),
{
    let chars = chars_of(command_text);
    let tokens = split_whitespace(chars.as_slice());
    let first: Vec<char> = if tokens.len() > 0 {
        let mut f = Vec::new();
        crate::text::append_chars(&mut f, tokens[0].as_slice());
        f
    } else {
        Vec::new()
    };
    assert(tokens@.len() > 0 ==> tokens@[0]@ == ws_tokens(command_text@)[0]);
    assert(first@ == first_token(command_text@));
    let ghost ignore = string_views(config.ignore_commands@);
    let mut i: usize = 0;
    while i < config.ignore_commands.len()
        invariant
            i <= config.ignore_commands@.len(),
            ignore == string_views(config.ignore_commands@),
            first@ == first_token(command_text@),
            forall|j: int| 0 <= j < i ==> ignore[j] != first_token(command_text@),
        decreases config.ignore_commands@.len() - i,
    {
        let pattern = chars_of(config.ignore_commands[i].as_str());
        if chars_eq(first.as_slice(), pattern.as_slice()) {
            assert(ignore[i as int] == first_token(command_text@));
            return None;
        }
        i += 1;
    }
    if config.redaction_enabled {
        Some(redact(command_text))
    } else {
        Some(String::from_str(command_text))
    }
}

} // verus!
