//! Parsing of zsh history files.

use crate::text::{
    all_ws, append_chars, chars_of, is_blank, parse_i64, parse_i64_spec, string_from_chars,
};
use vstd::prelude::*;
use vstd::utf8::{decode_utf8, valid_utf8};

verus! {

/// A command read from a history file.
#[derive(Debug, Clone, PartialEq, Eq)]
pub struct HistoryEntry {
    pub command_text: String,
    pub executed_at: i64,
    pub duration_ms: Option<i64>,
}

/// What one history line (or group of continued lines) became.
#[derive(Debug, Clone, PartialEq, Eq)]
pub enum ParsedHistoryEntry {
    /// A command.
    Entry(HistoryEntry),
    /// A blank line.
    Skipped,
    /// A line that is not UTF-8 or whose metadata is malformed.
    Failed,
}

/// The contents of a [`HistoryEntry`].
pub struct EntryView {
    pub text: Seq<char>,
    pub executed_at: i64,
    pub duration_ms: Option<i64>,
}

/// The contents of a [`ParsedHistoryEntry`].
pub enum ParsedView {
    Entry(EntryView),
    Skipped,
    Failed,
}

impl View for HistoryEntry {
    type V = EntryView;

    open spec fn view(&self) -> EntryView {
        EntryView {
            text: self.command_text@,
            executed_at: self.executed_at,
            duration_ms: self.duration_ms,
        }
    }
}

impl View for ParsedHistoryEntry {
    type V = ParsedView;

    open spec fn view(&self) -> ParsedView {
        match self {
            ParsedHistoryEntry::Entry(e) => ParsedView::Entry(e@),
            ParsedHistoryEntry::Skipped => ParsedView::Skipped,
            ParsedHistoryEntry::Failed => ParsedView::Failed,
        }
    }
}

/// The views of parsed entries.
pub open spec fn parsed_views(v: Seq<ParsedHistoryEntry>) -> Seq<ParsedView> {
    v.map_values(|e: ParsedHistoryEntry| e@)
}

/// The first position at or after `from` where `b` holds the byte `x`.
pub open spec fn find_byte(b: Seq<u8>, x: u8, from: int) -> Option<int>
    decreases b.len() - from,
{
    if from < 0 || from >= b.len() {
        None
    } else if b[from] == x {
        Some(from)
    } else {
        find_byte(b, x, from + 1)
    }
}

/// A found position holds the byte and lies in range; when none is found, no
/// position from `from` on holds it.
pub proof fn lemma_find_byte_range(b: Seq<u8>, x: u8, from: int)
    ensures
        find_byte(b, x, from) matches Some(i) ==> from <= i < b.len() && b[i] == x,
        from >= 0 && find_byte(b, x, from) is None ==> forall|i: int| from <= i < b.len() ==> b[i] != x,
    decreases b.len() - from,
{
    if from >= 0 && from < b.len() && b[from] != x {
        lemma_find_byte_range(b, x, from + 1);
    }
}

/// The lines of `b` from position `start` on, without their `\n`
/// terminators; a final line without a terminator counts, and nothing
/// follows a final terminator.
pub open spec fn lines_from(b: Seq<u8>, start: int) -> Seq<Seq<u8>>
    decreases b.len() - start,
{
    if start < 0 || start >= b.len() {
        seq![]
    } else {
        match find_byte(b, 10, start) {
            Some(i) => {
                proof {
                    lemma_find_byte_range(b, 10, start);
                }
                seq![b.subrange(start, i)] + lines_from(b, i + 1)
            },
            None => seq![b.subrange(start, b.len() as int)],
        }
    }
}

/// A line without one trailing carriage return.
pub open spec fn strip_cr(l: Seq<u8>) -> Seq<u8> {
    if l.len() > 0 && l.last() == 13 {
        l.drop_last()
    } else {
        l
    }
}

/// The first position at or after `from` where `s` holds the character `c`.
pub open spec fn find_char(s: Seq<char>, c: char, from: int) -> Option<int>
    decreases s.len() - from,
{
    if from < 0 || from >= s.len() {
        None
    } else if s[from] == c {
        Some(from)
    } else {
        find_char(s, c, from + 1)
    }
}

proof fn lemma_find_char_range(s: Seq<char>, c: char, from: int)
    ensures
        find_char(s, c, from) matches Some(i) ==> from <= i < s.len() && s[i] == c,
        from >= 0 && find_char(s, c, from) is None ==> forall|i: int| from <= i < s.len() ==> s[i] != c,
    decreases s.len() - from,
{
    if from >= 0 && from < s.len() && s[from] != c {
        lemma_find_char_range(s, c, from + 1);
    }
}

/// `s` split at the first `c`, as `str::split_once` does.
pub open spec fn split_once(s: Seq<char>, c: char) -> Option<(Seq<char>, Seq<char>)> {
    match find_char(s, c, 0) {
        Some(i) => Some((s.take(i), s.skip(i + 1))),
        None => None,
    }
}

/// The text after `: ` on an extended-history line, `: <time>:<duration>;<command>`:
/// present when the line starts with `: ` and the text before its first `;`
/// holds a `:`.
pub open spec fn extended_meta(text: Seq<char>) -> Option<Seq<char>> {
    if text.len() >= 2 && text[0] == ':' && text[1] == ' ' {
        let rest = text.skip(2);
        match split_once(rest, ';') {
            Some((m, _)) => if find_char(m, ':', 0) is Some {
                Some(rest)
            } else {
                None
            },
            None => None,
        }
    } else {
        None
    }
}

/// An extended-history entry: the time before `:`, the duration in seconds
/// after it (kept in milliseconds), the command after `;`; failed when a
/// number does not parse, the duration is negative or too large, or the time
/// is negative.
pub open spec fn parse_extended(meta: Seq<char>) -> ParsedView {
    match split_once(meta, ';') {
        None => ParsedView::Failed,
        Some((m, command)) => match split_once(m, ':') {
            None => ParsedView::Failed,
            Some((ts, dur)) => match (parse_i64_spec(ts), parse_i64_spec(dur)) {
                (Some(t), Some(d)) => if d >= 0 && d * 1000 <= i64::MAX && t >= 0 {
                    ParsedView::Entry(
                        EntryView {
                            text: command,
                            executed_at: t,
                            duration_ms: Some((d * 1000) as i64),
                        },
                    )
                } else {
                    ParsedView::Failed
                },
                _ => ParsedView::Failed,
            },
        },
    }
}

/// Whether an entry is a command whose text ends with a backslash, so that
/// the next plain line continues it.
pub open spec fn continues(e: ParsedView) -> bool {
    e matches ParsedView::Entry(ev) && ev.text.len() > 0 && ev.text.last() == '\\'
}

/// The entries after reading one more line.
pub open spec fn parse_step(entries: Seq<ParsedView>, raw: Seq<u8>, fallback: i64) -> Seq<
    ParsedView,
> {
    let l = strip_cr(raw);
    if !valid_utf8(l) {
        entries.push(ParsedView::Failed)
    } else {
        let text = decode_utf8(l);
        let meta = extended_meta(text);
        if entries.len() > 0 && continues(entries.last()) && meta is None {
            let ev = entries.last()->Entry_0;
            entries.update(
                entries.len() - 1,
                ParsedView::Entry(
                    EntryView {
                        text: ev.text + seq!['\n'] + text,
                        executed_at: ev.executed_at,
                        duration_ms: ev.duration_ms,
                    },
                ),
            )
        } else if all_ws(text) {
            entries.push(ParsedView::Skipped)
        } else if meta is Some {
            entries.push(parse_extended(meta.unwrap()))
        } else {
            entries.push(
                ParsedView::Entry(EntryView { text, executed_at: fallback, duration_ms: None }),
            )
        }
    }
}

/// The entries of a sequence of lines.
pub open spec fn parse_lines(lines: Seq<Seq<u8>>, fallback: i64) -> Seq<ParsedView>
    decreases lines.len(),
{
    if lines.len() == 0 {
        seq![]
    } else {
        parse_step(parse_lines(lines.drop_last(), fallback), lines.last(), fallback)
    }
}

/// A line that is not an extended-history line continues a command whose
/// text ends with a backslash, whether that command came from a plain or an
/// extended line: the line is joined onto the command after a newline, no
/// entry is added, and the command keeps its time and duration.
pub proof fn lemma_backslash_joins_next_line(lines: Seq<Seq<u8>>, raw: Seq<u8>, fallback: i64)
    requires
        parse_lines(lines, fallback).len() > 0,
        parse_lines(lines, fallback).last() is Entry,
        parse_lines(lines, fallback).last()->Entry_0.text.len() > 0,
        parse_lines(lines, fallback).last()->Entry_0.text.last() == '\\',
        valid_utf8(strip_cr(raw)),
        extended_meta(decode_utf8(strip_cr(raw))) is None,
    ensures
        ({
            let before = parse_lines(lines, fallback);
            let ev = before.last()->Entry_0;
            let after = parse_lines(lines.push(raw), fallback);
            &&& after.len() == before.len()
            &&& after.take(before.len() - 1) == before.take(before.len() - 1)
            &&& after.last() == ParsedView::Entry(
                EntryView {
                    text: ev.text + seq!['\n'] + decode_utf8(strip_cr(raw)),
                    executed_at: ev.executed_at,
                    duration_ms: ev.duration_ms,
                },
            )
        }),
{
    let before = parse_lines(lines, fallback);
    assert(lines.push(raw).drop_last() =~= lines);
    let after = parse_lines(lines.push(raw), fallback);
    assert(after.take(before.len() - 1) =~= before.take(before.len() - 1));
}

/// A plain line that is not blank is one command, run at the fallback time
/// with no duration.
pub proof fn lemma_plain_line_is_command(raw: Seq<u8>, fallback: i64)
    requires
        valid_utf8(strip_cr(raw)),
        extended_meta(decode_utf8(strip_cr(raw))) is None,
        !all_ws(decode_utf8(strip_cr(raw))),
    ensures
        parse_lines(seq![raw], fallback) == seq![
            ParsedView::Entry(
                EntryView {
                    text: decode_utf8(strip_cr(raw)),
                    executed_at: fallback,
                    duration_ms: None,
                },
            ),
        ],
{
    assert(seq![raw].drop_last() =~= Seq::<Seq<u8>>::empty());
    assert(seq![raw].last() == raw);
    let empty = parse_lines(Seq::<Seq<u8>>::empty(), fallback);
    assert(empty.len() == 0);
    let e = ParsedView::Entry(
        EntryView { text: decode_utf8(strip_cr(raw)), executed_at: fallback, duration_ms: None },
    );
    assert(parse_lines(seq![raw], fallback) == parse_step(empty, raw, fallback));
    assert(empty.push(e) =~= seq![e]);
}

/// Two plain lines, the first ending with a backslash, make one command of
/// both, joined by a newline.
pub proof fn lemma_two_plain_lines_join(first: Seq<u8>, second: Seq<u8>, fallback: i64)
    requires
        valid_utf8(strip_cr(first)),
        extended_meta(decode_utf8(strip_cr(first))) is None,
        !all_ws(decode_utf8(strip_cr(first))),
        decode_utf8(strip_cr(first)).last() == '\\',
        valid_utf8(strip_cr(second)),
        extended_meta(decode_utf8(strip_cr(second))) is None,
    ensures
        parse_lines(seq![first, second], fallback) == seq![
            ParsedView::Entry(
                EntryView {
                    text: decode_utf8(strip_cr(first)) + seq!['\n'] + decode_utf8(
                        strip_cr(second),
                    ),
                    executed_at: fallback,
                    duration_ms: None,
                },
            ),
        ],
{
    lemma_plain_line_is_command(first, fallback);
    assert(seq![first].push(second) =~= seq![first, second]);
    lemma_backslash_joins_next_line(seq![first], second, fallback);
    let after = parse_lines(seq![first, second], fallback);
    assert(after =~= seq![after.last()]);
}

/// The entries of a zsh history file.
pub open spec fn parse_history(history: Seq<u8>, fallback: i64) -> Seq<ParsedView> {
    parse_lines(lines_from(history, 0), fallback)
}

/// Decodes UTF-8 bytes with `std::str::from_utf8`: text exactly when the
/// bytes are valid UTF-8, as std documents.
#[verifier::external_body]
fn utf8_text(bytes: &[u8]) -> (res: Option<String>)
    ensures
        res is Some <==> valid_utf8(bytes@),
        res matches Some(s) ==> s@ == decode_utf8(bytes@),
{
    match std::str::from_utf8(bytes) {
        Ok(s) => Some(s.to_string()),
        Err(_) => None,
    }
}

/// The lines of a history file.
fn split_lines(history: &[u8]) -> (res: Vec<Vec<u8>>)
    ensures
        res@.map_values(|l: Vec<u8>| l@) == lines_from(history@, 0),
{
    let n = history.len();
    let mut lines: Vec<Vec<u8>> = Vec::new();
    let mut cur: Vec<u8> = Vec::new();
    let mut start: usize = 0;
    let mut i: usize = 0;
    while i < n
        invariant
            n == history@.len(),
            start <= i <= n,
            cur@ == history@.subrange(start as int, i as int),
            forall|j: int| start <= j < i ==> history@[j] != 10,
            lines@.map_values(|l: Vec<u8>| l@) + lines_from(history@, start as int) == lines_from(
                history@,
                0,
            ),
        decreases n - i,
    {
        let b = history[i];
        if b == 10 {
            proof {
                lemma_find_byte_first(history@, start as int, i as int);
            }
            let ghost before = lines@.map_values(|l: Vec<u8>| l@);
            lines.push(cur);
            assert(lines@.map_values(|l: Vec<u8>| l@) =~= before.push(
                history@.subrange(start as int, i as int),
            ));
            assert(lines_from(history@, start as int) =~= seq![
                history@.subrange(start as int, i as int),
            ] + lines_from(history@, i + 1));
            cur = Vec::new();
            start = i + 1;
        } else {
            cur.push(b);
            assert(cur@ =~= history@.subrange(start as int, i + 1));
        }
        i += 1;
    }
    if start < n {
        proof {
            lemma_find_byte_none(history@, start as int);
        }
        let ghost before = lines@.map_values(|l: Vec<u8>| l@);
        lines.push(cur);
        assert(lines@.map_values(|l: Vec<u8>| l@) =~= before.push(
            history@.subrange(start as int, n as int),
        ));
    }
    lines
}

proof fn lemma_find_byte_first(b: Seq<u8>, start: int, i: int)
    requires
        0 <= start <= i < b.len(),
        b[i] == 10,
        forall|j: int| start <= j < i ==> b[j] != 10,
    ensures
        find_byte(b, 10, start) == Some(i),
    decreases i - start,
{
    if start < i {
        lemma_find_byte_first(b, start + 1, i);
    }
}

proof fn lemma_find_byte_none(b: Seq<u8>, start: int)
    requires
        0 <= start <= b.len(),
        forall|j: int| start <= j < b.len() ==> b[j] != 10,
    ensures
        find_byte(b, 10, start) is None,
    decreases b.len() - start,
{
    if start < b.len() {
        lemma_find_byte_none(b, start + 1);
    }
}


/// The characters of `s` from `a` up to `b`.
fn sub_chars(s: &[char], a: usize, b: usize) -> (res: Vec<char>)
    requires
        a <= b <= s@.len(),
    ensures
        res@ == s@.subrange(a as int, b as int),
{
    let mut v: Vec<char> = Vec::new();
    let mut i: usize = a;
    while i < b
        invariant
            a <= i <= b <= s@.len(),
            v@ == s@.subrange(a as int, i as int),
        decreases b - i,
    {
        v.push(s[i]);
        assert(v@ =~= s@.subrange(a as int, i + 1));
        i += 1;
    }
    v
}

/// The first position at or after `from` where `s` holds `c`.
fn find_char_from(s: &[char], c: char, from: usize) -> (res: Option<usize>)
    ensures
        res matches Some(i) ==> find_char(s@, c, from as int) == Some(i as int),
        res is None ==> find_char(s@, c, from as int) is None,
{
    let mut i: usize = from;
    while i < s.len()
        invariant
            from <= i,
            find_char(s@, c, from as int) == find_char(s@, c, i as int),
        decreases s@.len() - i,
    {
        if s[i] == c {
            return Some(i);
        }
        i += 1;
    }
    None
}

/// `s` split at the first `c`.
fn split_once_chars(s: &[char], c: char) -> (res: Option<(Vec<char>, Vec<char>)>)
    ensures
        res matches Some(p) ==> split_once(s@, c) == Some((p.0@, p.1@)),
        res is None ==> split_once(s@, c) is None,
{
    let n = s.len();
    match find_char_from(s, c, 0) {
        Some(i) => {
            proof {
                lemma_find_char_range(s@, c, 0);
            }
            assert(i < n);
            let left = sub_chars(s, 0, i);
            let right = sub_chars(s, i + 1, n);
            assert(left@ =~= s@.take(i as int));
            assert(right@ =~= s@.skip(i + 1));
            Some((left, right))
        },
        None => None,
    }
}

/// The metadata text of an extended-history line, if it is one.
fn extended_history_metadata(text: &[char]) -> (res: Option<Vec<char>>)
    ensures
        res matches Some(m) ==> extended_meta(text@) == Some(m@),
        res is None ==> extended_meta(text@) is None,
{
    if text.len() >= 2 && text[0] == ':' && text[1] == ' ' {
        let rest = sub_chars(text, 2, text.len());
        assert(rest@ =~= text@.skip(2));
        match split_once_chars(rest.as_slice(), ';') {
            Some((m, _)) => {
                if find_char_from(m.as_slice(), ':', 0).is_some() {
                    Some(rest)
                } else {
                    None
                }
            },
            None => None,
        }
    } else {
        None
    }
}

/// Parses the metadata text of an extended-history line.
fn parse_extended_history_entry(meta: &[char]) -> (res: ParsedHistoryEntry)
    ensures
        res@ == parse_extended(meta@),
{
    let (m, command) = match split_once_chars(meta, ';') {
        Some(p) => p,
        None => {
            return ParsedHistoryEntry::Failed;
        },
    };
    let (ts, dur) = match split_once_chars(m.as_slice(), ':') {
        Some(p) => p,
        None => {
            return ParsedHistoryEntry::Failed;
        },
    };
    let t = parse_i64(ts.as_slice());
    let d = parse_i64(dur.as_slice());
    match (t, d) {
        (Some(t), Some(d)) => {
            if d < 0 || t < 0 {
                return ParsedHistoryEntry::Failed;
            }
            match d.checked_mul(1000) {
                Some(ms) => ParsedHistoryEntry::Entry(
                    HistoryEntry {
                        command_text: string_from_chars(command.as_slice()),
                        executed_at: t,
                        duration_ms: Some(ms),
                    },
                ),
                None => ParsedHistoryEntry::Failed,
            }
        },
        _ => ParsedHistoryEntry::Failed,
    }
}

/// A line without one trailing carriage return.
fn strip_carriage_return(raw: &Vec<u8>) -> (res: Vec<u8>)
    ensures
        res@ == strip_cr(raw@),
{
    let n = raw.len();
    let end = if n > 0 && raw[n - 1] == 13 {
        n - 1
    } else {
        n
    };
    let mut v: Vec<u8> = Vec::new();
    let mut i: usize = 0;
    while i < end
        invariant
            i <= end <= n,
            n == raw@.len(),
            v@ == raw@.take(i as int),
        decreases end - i,
    {
        v.push(raw[i]);
        assert(v@ =~= raw@.take(i + 1));
        i += 1;
    }
    assert(v@ =~= strip_cr(raw@));
    v
}

/// Whether an entry is a command ending with a backslash.
fn continues_entry(e: &ParsedHistoryEntry) -> (res: bool)
    ensures
        res == continues(e@),
{
    match e {
        ParsedHistoryEntry::Entry(h) => {
            let t = chars_of(h.command_text.as_str());
            t.len() > 0 && t[t.len() - 1] == '\\'
        },
        _ => false,
    }
}

/// Parses a zsh history file: one entry per line, extended lines
/// (`: <time>:<duration>;<command>`) with their metadata, plain lines with the
/// fallback time, blank lines skipped, undecodable or malformed lines failed,
/// and a plain line after a command ending in a backslash joined onto it.
pub fn parse_zsh_history(history: &[u8], fallback_timestamp: i64) -> (res: Vec<ParsedHistoryEntry>)
    ensures
        parsed_views(res@) == parse_history(history@, fallback_timestamp),
{
    let lines = split_lines(history);
    let ghost ls = lines@.map_values(|l: Vec<u8>| l@);
    let mut entries: Vec<ParsedHistoryEntry> = Vec::new();
    let mut k: usize = 0;
    while k < lines.len()
        invariant
            k <= lines@.len(),
            ls == lines@.map_values(|l: Vec<u8>| l@),
            parsed_views(entries@) == parse_lines(ls.take(k as int), fallback_timestamp),
        decreases lines@.len() - k,
    {
        assert(ls.take(k + 1).drop_last() =~= ls.take(k as int));
        assert(ls.take(k + 1).last() == lines@[k as int]@);
        let ghost pre = parsed_views(entries@);
        let l = strip_carriage_return(&lines[k]);
        match utf8_text(l.as_slice()) {
            None => {
                entries.push(ParsedHistoryEntry::Failed);
                assert(parsed_views(entries@) =~= pre.push(ParsedView::Failed));
            },
            Some(text_s) => {
                let text = chars_of(text_s.as_str());
                let meta = extended_history_metadata(text.as_slice());
                let n = entries.len();
                let cont = n > 0 && continues_entry(&entries[n - 1]) && meta.is_none();
                if cont {
                    assert(pre.last() == entries@[n - 1]@);
                    assert(valid_utf8(strip_cr(lines@[k as int]@)));
                    assert(text@ == decode_utf8(strip_cr(lines@[k as int]@)));
                    assert(extended_meta(text@) is None);
                    assert(continues(pre.last()));
                    let ghost old_entries = entries@;
                    let last = entries.pop().unwrap();
                    assert(last == old_entries[n - 1]);
                    assert(parsed_views(entries@) =~= pre.drop_last());
                    match last {
                        ParsedHistoryEntry::Entry(mut h) => {
                            assert(pre.last() == ParsedView::Entry(h@));
                            let ghost old_text = h.command_text@;
                            crate::text::push_char(&mut h.command_text, '\n');
                            crate::text::append_str(&mut h.command_text, text_s.as_str());
                            assert(h.command_text@ =~= old_text + seq!['\n'] + text@);
                            let ghost newv = ParsedView::Entry(
                                EntryView {
                                    text: old_text + seq!['\n'] + text@,
                                    executed_at: h.executed_at,
                                    duration_ms: h.duration_ms,
                                },
                            );
                            assert(parse_step(pre, lines@[k as int]@, fallback_timestamp) == pre.update(
                                pre.len() - 1,
                                newv,
                            ));
                            entries.push(ParsedHistoryEntry::Entry(h));
                            assert(parsed_views(entries@) =~= pre.drop_last().push(newv));
                            assert(parsed_views(entries@) =~= parse_step(
                                pre,
                                lines@[k as int]@,
                                fallback_timestamp,
                            ));
                        },
                        _ => {
                            assert(false);
                        },
                    }
                } else if is_blank(text.as_slice()) {
                    entries.push(ParsedHistoryEntry::Skipped);
                    assert(parsed_views(entries@) =~= pre.push(ParsedView::Skipped));
                } else if let Some(m) = meta {
                    let e = parse_extended_history_entry(m.as_slice());
                    entries.push(e);
                    assert(parsed_views(entries@) =~= pre.push(parse_extended(m@)));
                } else {
                    entries.push(
                        ParsedHistoryEntry::Entry(
                            HistoryEntry {
                                command_text: text_s,
                                executed_at: fallback_timestamp,
                                duration_ms: None,
                            },
                        ),
                    );
                    assert(parsed_views(entries@) =~= pre.push(
                        ParsedView::Entry(
                            EntryView {
                                text: text@,
                                executed_at: fallback_timestamp,
                                duration_ms: None,
                            },
                        ),
                    ));
                }
            },
        }
        k += 1;
    }
    assert(ls.take(lines@.len() as int) =~= ls);
    entries
}

} // verus!
