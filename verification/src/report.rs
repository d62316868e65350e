//! Text shown to people: relative times and search results.

use crate::db::{collapsed_views, CollapsedRecord, CollapsedView};
use crate::text::{
    append_chars, chars_of, i64_decimal, int_decimal, join_with, nat_decimal, string_from_chars,
    u64_decimal,
};
use vstd::prelude::*;

verus! {

/// The distance between two times, in seconds.
pub open spec fn abs_diff(a: int, b: int) -> int {
    if a >= b {
        a - b
    } else {
        b - a
    }
}

/// How long ago (or how far ahead) `executed_at` lies from `now`, for people:
/// `just now` under a minute, else whole minutes, hours, days or weeks
/// (`5m ago`, `in 3h`).
pub open spec fn relative_time(executed_at: i64, now: i64) -> Seq<char> {
    let secs = abs_diff(executed_at as int, now as int);
    if secs < 60 {
        "just now"@
    } else {
        let (value, unit) = if secs < 60 * 60 {
            (secs / 60int, "m"@)
        } else if secs < 24 * 60 * 60 {
            (secs / 3600int, "h"@)
        } else if secs < 7 * 24 * 60 * 60 {
            (secs / 86400int, "d"@)
        } else {
            (secs / 604800int, "w"@)
        };
        if executed_at > now {
            "in "@ + nat_decimal(value as nat) + unit
        } else {
            nat_decimal(value as nat) + unit + " ago"@
        }
    }
}

/// Formats a time relative to `now`.
pub fn format_relative_timestamp_at(executed_at: i64, now: i64) -> (res: String)
    ensures
        res@ == relative_time(executed_at, now),
{
    let secs: u64 = if executed_at >= now {
        (executed_at as i128 - now as i128) as u64
    } else {
        (now as i128 - executed_at as i128) as u64
    };
    if secs < 60 {
        return String::from_str("just now");
    }
    let (value, unit): (u64, &str) = if secs < 60 * 60 {
        (secs / 60, "m")
    } else if secs < 24 * 60 * 60 {
        (secs / (60 * 60), "h")
    } else if secs < 7 * 24 * 60 * 60 {
        (secs / (24 * 60 * 60), "d")
    } else {
        (secs / (7 * 24 * 60 * 60), "w")
    };
    let digits = u64_decimal(value);
    let mut out: Vec<char> = Vec::new();
    if executed_at > now {
        append_chars(&mut out, chars_of("in ").as_slice());
        append_chars(&mut out, digits.as_slice());
        append_chars(&mut out, chars_of(unit).as_slice());
    } else {
        append_chars(&mut out, digits.as_slice());
        append_chars(&mut out, chars_of(unit).as_slice());
        append_chars(&mut out, chars_of(" ago").as_slice());
    }
    string_from_chars(out.as_slice())
}

/// The exit status of a collapsed result: its code, or `mixed` with the most
/// recent code when the runs disagree.
pub open spec fn exit_text(c: CollapsedView) -> Seq<char> {
    if c.all_same_exit {
        int_decimal(c.most_recent_exit_code as int)
    } else {
        "mixed (most recent: "@ + int_decimal(c.most_recent_exit_code as int) + ")"@
    }
}

/// The metadata line of a collapsed result, indented by two spaces.
pub open spec fn metadata_text(c: CollapsedView, now: i64) -> Seq<char> {
    "  "@ + context_text(c, now)
}

/// The context of a collapsed result: directory, relative time of last use,
/// exit status, then repeat count, repository and branch when there are any.
pub open spec fn context_text(c: CollapsedView, now: i64) -> Seq<char> {
    "cwd: "@ + c.most_recent_cwd + " | last used: "@ + relative_time(
        c.most_recent_executed_at,
        now,
    ) + " | exit: "@ + exit_text(c) + (if c.repeat_count > 1 {
        " | repeats: "@ + nat_decimal(c.repeat_count)
    } else {
        seq![]
    }) + (match c.repo {
        Some(r) => " | repo: "@ + r,
        None => seq![],
    }) + (match c.branch {
        Some(b) => " | branch: "@ + b,
        None => seq![],
    })
}

/// One search result: the raw command, then its metadata line.
pub open spec fn result_text(c: CollapsedView, now: i64) -> Seq<char> {
    c.command_text + seq!['\n'] + metadata_text(c, now)
}

/// Search results separated by blank lines, or `empty` when there are none.
pub open spec fn results_text(cs: Seq<CollapsedView>, empty: Seq<char>, now: i64) -> Seq<char> {
    if cs.len() == 0 {
        empty
    } else {
        join_with(cs.map_values(|c: CollapsedView| result_text(c, now)), "\n\n"@)
    }
}

/// The exit status text of a collapsed result.
fn exit_summary(c: &CollapsedRecord) -> (res: Vec<char>)
    ensures
        res@ == exit_text(c@),
{
    let code = i64_decimal(c.most_recent_exit_code);
    if c.all_same_exit {
        code
    } else {
        let mut v = chars_of("mixed (most recent: ");
        append_chars(&mut v, code.as_slice());
        append_chars(&mut v, chars_of(")").as_slice());
        v
    }
}

/// The context of one search result.
pub fn render_context(c: &CollapsedRecord, now: i64) -> (res: Vec<char>)
    ensures
        res@ == context_text(c@, now),
{
    let mut v = chars_of("cwd: ");
    append_chars(&mut v, chars_of(c.most_recent_cwd.as_str()).as_slice());
    append_chars(&mut v, chars_of(" | last used: ").as_slice());
    let when = format_relative_timestamp_at(c.most_recent_executed_at, now);
    append_chars(&mut v, chars_of(when.as_str()).as_slice());
    append_chars(&mut v, chars_of(" | exit: ").as_slice());
    append_chars(&mut v, exit_summary(c).as_slice());
    let ghost base = v@;
    if c.repeat_count > 1 {
        append_chars(&mut v, chars_of(" | repeats: ").as_slice());
        append_chars(&mut v, u64_decimal(c.repeat_count as u64).as_slice());
    }
    let ghost with_repeat = v@;
    if let Some(r) = &c.repo {
        append_chars(&mut v, chars_of(" | repo: ").as_slice());
        append_chars(&mut v, chars_of(r.as_str()).as_slice());
    }
    let ghost with_repo = v@;
    if let Some(b) = &c.branch {
        append_chars(&mut v, chars_of(" | branch: ").as_slice());
        append_chars(&mut v, chars_of(b.as_str()).as_slice());
    }
    assert(v@ =~= context_text(c@, now));
    v
}

/// The text of one search result.
pub fn render_collapsed_record(c: &CollapsedRecord, now: i64) -> (res: Vec<char>)
    ensures
        res@ == result_text(c@, now),
{
    let mut v = chars_of(c.command_text.as_str());
    v.push('\n');
    append_chars(&mut v, chars_of("  ").as_slice());
    append_chars(&mut v, render_context(c, now).as_slice());
    assert(v@ =~= result_text(c@, now));
    v
}

/// Renders search results for the command line: each raw command followed by
/// its directory, relative time of last use, exit status, repeat count,
/// repository and branch; `empty_message` when there are none.
pub fn render_collapsed_records(collapsed: &Vec<CollapsedRecord>, empty_message: String, now: i64) -> (res:
    String)
    ensures
        res@ == results_text(collapsed_views(collapsed@), empty_message@, now),
{
    if collapsed.len() == 0 {
        return empty_message;
    }
    let ghost cs = collapsed_views(collapsed@);
    let ghost parts = cs.map_values(|c: CollapsedView| result_text(c, now));
    let sep = chars_of("\n\n");
    let mut out: Vec<char> = Vec::new();
    let mut i: usize = 0;
    while i < collapsed.len()
        invariant
            i <= collapsed@.len(),
            cs == collapsed_views(collapsed@),
            parts == cs.map_values(|c: CollapsedView| result_text(c, now)),
            sep@ == "\n\n"@,
            out@ == join_with(parts.take(i as int), "\n\n"@),
        decreases collapsed@.len() - i,
    {
        if i > 0 {
            append_chars(&mut out, sep.as_slice());
        }
        let one = render_collapsed_record(&collapsed[i], now);
        append_chars(&mut out, one.as_slice());
        assert(parts[i as int] == result_text(collapsed@[i as int]@, now));
        assert(parts.take(i + 1).drop_last() =~= parts.take(i as int));
        if i == 0 {
            assert(parts.take(1) =~= seq![parts[0]]);
        }
        i += 1;
    }
    assert(parts.take(collapsed@.len() as int) =~= parts);
    string_from_chars(out.as_slice())
}

/// What `format!("{:?}", s)` gives for a string: the string quoted, with
/// quotes, backslashes and control characters escaped.
pub uninterp spec fn str_debug(s: Seq<char>) -> Seq<char>;

/// Formats a string with its `Debug` implementation; the text is named, not
/// stated.
#[verifier::external_body]
fn debug_quote(s: &str) -> (res: String)
    ensures
        res@ == str_debug(s@),
{
    format!("{:?}", s)
}

/// The message for a search that found nothing.
pub fn search_empty_message(query: &str) -> (res: String)
    ensures
        res@ == "No local commands found for "@ + str_debug(query@) + "."@,
{
    let mut v = chars_of("No local commands found for ");
    let q = debug_quote(query);
    append_chars(&mut v, chars_of(q.as_str()).as_slice());
    append_chars(&mut v, chars_of(".").as_slice());
    string_from_chars(v.as_slice())
}

/// The message when the current directory and repository have no commands.
pub const EMPTY_CONTEXT_MESSAGE: &'static str = "No local commands found for the current context.";

/// The message when no failed command is stored.
pub const EMPTY_FAILED_MESSAGE: &'static str = "No local failed commands found.";

/// The summary of an import.
pub open spec fn import_summary_text(inserted: nat, skipped: nat, failed: nat) -> Seq<char> {
    "Import complete: inserted: "@ + nat_decimal(inserted) + ", skipped: "@ + nat_decimal(
        skipped,
    ) + ", failed: "@ + nat_decimal(failed) + "."@
}

/// Summarizes an import.
pub fn import_summary(inserted: usize, skipped: usize, failed: usize) -> (res: String)
    ensures
        res@ == import_summary_text(inserted as nat, skipped as nat, failed as nat),
{
    let mut v = chars_of("Import complete: inserted: ");
    append_chars(&mut v, u64_decimal(inserted as u64).as_slice());
    append_chars(&mut v, chars_of(", skipped: ").as_slice());
    append_chars(&mut v, u64_decimal(skipped as u64).as_slice());
    append_chars(&mut v, chars_of(", failed: ").as_slice());
    append_chars(&mut v, u64_decimal(failed as u64).as_slice());
    append_chars(&mut v, chars_of(".").as_slice());
    string_from_chars(v.as_slice())
}

} // verus!
