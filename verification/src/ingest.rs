//! Turning captured commands and imported history into records.

use crate::cli::CaptureArgs;
use crate::config::{string_views, PrivacyConfig};
use crate::db::{
    clone_opt, normalize_text, opt_view, record_error, record_views, CommandRecord,
    CommandRecordView, RecordError,
};
use crate::history::{parsed_views, EntryView, ParsedHistoryEntry, ParsedView};
use crate::privacy::{filter_command, filtered};
use crate::text::{all_ws, chars_of, is_blank};
use vstd::prelude::*;

verus! {

/// The record a command becomes once it passes validation.
pub open spec fn record_of(
    text: Seq<char>,
    cwd: Seq<char>,
    executed_at: i64,
    exit_code: i64,
    shell: Option<Seq<char>>,
    duration_ms: Option<i64>,
    hostname: Option<Seq<char>>,
    git_repo: Option<Seq<char>>,
    git_branch: Option<Seq<char>>,
) -> CommandRecordView {
    CommandRecordView {
        command_text: text,
        normalized_text: normalize_text(text),
        cwd,
        executed_at,
        exit_code,
        shell,
        duration_ms,
        hostname,
        git_repo,
        git_branch,
    }
}

/// Applies the privacy settings to a captured command and validates it:
/// `Ok(None)` when the command is ignored, an error when the stored text would
/// be invalid, otherwise the record to store.
pub fn plan_capture(args: CaptureArgs, privacy: &PrivacyConfig) -> (res: Result<
    Option<CommandRecord>,
    RecordError,
>)
    ensures
        ({
            let f = filtered(
                args.command_text@,
                privacy.redaction_enabled,
                string_views(privacy.ignore_commands@),
            );
            match f {
                None => res == Ok::<Option<CommandRecord>, RecordError>(None),
                Some(t) => match record_error(t, args.executed_at, args.exit_code, args.duration_ms) {
                    Some(e) => res == Err::<Option<CommandRecord>, RecordError>(e),
                    None => res matches Ok(Some(r)) && r@ == record_of(
                        t,
                        args.cwd@,
                        args.executed_at,
                        args.exit_code,
                        opt_view(args.shell),
                        args.duration_ms,
                        opt_view(args.hostname),
                        opt_view(args.git_repo),
                        opt_view(args.git_branch),
                    ),
                },
            }
        }),
{
    let text = match filter_command(args.command_text.as_str(), privacy) {
        Some(t) => t,
        None => {
            return Ok(None);
        },
    };
    match CommandRecord::new(
        text,
        args.cwd,
        args.executed_at,
        args.exit_code,
        args.shell,
        args.duration_ms,
        args.hostname,
        args.git_repo,
        args.git_branch,
    ) {
        Ok(r) => Ok(Some(r)),
        Err(e) => Err(e),
    }
}

/// The outcome of reading a history file: the records to store, and how many
/// entries were skipped (blank or ignored) or failed (malformed or invalid).
#[derive(Debug, PartialEq, Eq)]
pub struct ImportPlan {
    pub records: Vec<CommandRecord>,
    pub skipped: usize,
    pub failed: usize,
}

/// Records, skipped count and failed count.
pub type ImportTally = (Seq<CommandRecordView>, nat, nat);

/// The tally after one more parsed entry.
pub open spec fn import_step(
    tally: ImportTally,
    e: ParsedView,
    redaction_enabled: bool,
    ignore: Seq<Seq<char>>,
    cwd: Seq<char>,
) -> ImportTally {
    let (rs, skipped, failed) = tally;
    match e {
        ParsedView::Skipped => (rs, skipped + 1, failed),
        ParsedView::Failed => (rs, skipped, failed + 1),
        ParsedView::Entry(h) => if all_ws(h.text) {
            (rs, skipped + 1, failed)
        } else {
            match filtered(h.text, redaction_enabled, ignore) {
                None => (rs, skipped + 1, failed),
                Some(t) => if record_error(t, h.executed_at, 0, h.duration_ms) is Some {
                    (rs, skipped, failed + 1)
                } else {
                    (
                        rs.push(
                            record_of(
                                t,
                                cwd,
                                h.executed_at,
                                0,
                                Some("zsh"@),
                                h.duration_ms,
                                None,
                                None,
                                None,
                            ),
                        ),
                        skipped,
                        failed,
                    )
                },
            }
        },
    }
}

/// The tally of a sequence of parsed entries.
pub open spec fn import_tally(
    es: Seq<ParsedView>,
    redaction_enabled: bool,
    ignore: Seq<Seq<char>>,
    cwd: Seq<char>,
) -> ImportTally
    decreases es.len(),
{
    if es.len() == 0 {
        (seq![], 0, 0)
    } else {
        import_step(
            import_tally(es.drop_last(), redaction_enabled, ignore, cwd),
            es.last(),
            redaction_enabled,
            ignore,
            cwd,
        )
    }
}

/// Every parsed entry is counted exactly once: as a record, as skipped, or as
/// failed.
pub proof fn lemma_import_counts_every_entry(
    es: Seq<ParsedView>,
    redaction_enabled: bool,
    ignore: Seq<Seq<char>>,
    cwd: Seq<char>,
)
    ensures
        ({
            let (rs, skipped, failed) = import_tally(es, redaction_enabled, ignore, cwd);
            rs.len() + skipped + failed == es.len()
        }),
    decreases es.len(),
{
    if es.len() > 0 {
        lemma_import_counts_every_entry(es.drop_last(), redaction_enabled, ignore, cwd);
    }
}

/// Importing two runs of entries one after the other gives the records of the
/// first then those of the second, and adds up the counts.
pub proof fn lemma_import_composes(
    a: Seq<ParsedView>,
    b: Seq<ParsedView>,
    redaction_enabled: bool,
    ignore: Seq<Seq<char>>,
    cwd: Seq<char>,
)
    ensures
        ({
            let (ra, sa, fa) = import_tally(a, redaction_enabled, ignore, cwd);
            let (rb, sb, fb) = import_tally(b, redaction_enabled, ignore, cwd);
            import_tally(a + b, redaction_enabled, ignore, cwd) == (ra + rb, sa + sb, fa + fb)
        }),
    decreases b.len(),
{
    if b.len() == 0 {
        assert(a + b =~= a);
        let (ra, sa, fa) = import_tally(a, redaction_enabled, ignore, cwd);
        assert(ra + Seq::<CommandRecordView>::empty() =~= ra);
    } else {
        lemma_import_composes(a, b.drop_last(), redaction_enabled, ignore, cwd);
        assert((a + b).drop_last() =~= a + b.drop_last());
        assert((a + b).last() == b.last());
        let (ra, sa, fa) = import_tally(a, redaction_enabled, ignore, cwd);
        let (rb0, sb0, fb0) = import_tally(b.drop_last(), redaction_enabled, ignore, cwd);
        let e = b.last();
        if let ParsedView::Entry(h) = e {
            if !all_ws(h.text) {
                if let Some(t) = filtered(h.text, redaction_enabled, ignore) {
                    if record_error(t, h.executed_at, 0, h.duration_ms) is None {
                        let r = record_of(
                            t,
                            cwd,
                            h.executed_at,
                            0,
                            Some("zsh"@),
                            h.duration_ms,
                            None,
                            None,
                            None,
                        );
                        assert((ra + rb0).push(r) =~= ra + rb0.push(r));
                    }
                }
            }
        }
    }
}

/// An entry that the privacy filter drops is skipped and stores nothing,
/// whether or not redaction is on.
pub proof fn lemma_import_skips_filtered_out(
    es: Seq<ParsedView>,
    h: EntryView,
    redaction_enabled: bool,
    ignore: Seq<Seq<char>>,
    cwd: Seq<char>,
)
    requires
        filtered(h.text, redaction_enabled, ignore) is None,
    ensures
        ({
            let (rs, skipped, failed) = import_tally(es, redaction_enabled, ignore, cwd);
            import_tally(es.push(ParsedView::Entry(h)), redaction_enabled, ignore, cwd) == (
                rs,
                skipped + 1,
                failed,
            )
        }),
{
    assert(es.push(ParsedView::Entry(h)).drop_last() =~= es);
}

/// Whether record `r` is what the privacy filter kept of entry `e`: its
/// command text is the filter's result for the entry's text, and it carries
/// the entry's time and duration, the import's directory, zsh as its shell
/// and exit code 0.
pub open spec fn kept_from(
    r: CommandRecordView,
    e: ParsedView,
    redaction_enabled: bool,
    ignore: Seq<Seq<char>>,
    cwd: Seq<char>,
) -> bool {
    match e {
        ParsedView::Entry(h) => {
            &&& filtered(h.text, redaction_enabled, ignore) == Some(r.command_text)
            &&& r.executed_at == h.executed_at
            &&& r.duration_ms == h.duration_ms
            &&& r.cwd == cwd
            &&& r.shell == Some("zsh"@)
            &&& r.exit_code == 0
        },
        _ => false,
    }
}

/// Every stored record is what the privacy filter kept of some imported
/// entry.
pub proof fn lemma_import_records_are_filtered_entries(
    es: Seq<ParsedView>,
    redaction_enabled: bool,
    ignore: Seq<Seq<char>>,
    cwd: Seq<char>,
)
    ensures
        ({
            let rs = import_tally(es, redaction_enabled, ignore, cwd).0;
            forall|k: int|
                0 <= k < rs.len() ==> exists|i: int|
                    0 <= i < es.len() && kept_from(
                        #[trigger] rs[k],
                        #[trigger] es[i],
                        redaction_enabled,
                        ignore,
                        cwd,
                    )
        }),
    decreases es.len(),
{
    if es.len() > 0 {
        let init = es.drop_last();
        lemma_import_records_are_filtered_entries(init, redaction_enabled, ignore, cwd);
        let rs0 = import_tally(init, redaction_enabled, ignore, cwd).0;
        let rs = import_tally(es, redaction_enabled, ignore, cwd).0;
        assert forall|k: int| 0 <= k < rs.len() implies exists|i: int|
            0 <= i < es.len() && kept_from(
                #[trigger] rs[k],
                #[trigger] es[i],
                redaction_enabled,
                ignore,
                cwd,
            ) by {
            if k < rs0.len() {
                assert(rs[k] == rs0[k]);
                let i = choose|i: int|
                    0 <= i < init.len() && kept_from(
                        #[trigger] rs0[k],
                        #[trigger] init[i],
                        redaction_enabled,
                        ignore,
                        cwd,
                    );
                assert(es[i] == init[i]);
                assert(kept_from(rs[k], es[i], redaction_enabled, ignore, cwd));
            } else {
                let i = es.len() - 1;
                assert(es[i] == es.last());
                assert(kept_from(rs[k], es[i], redaction_enabled, ignore, cwd));
            }
        }
    }
}

/// Turns parsed history entries into records: blank or ignored entries are
/// skipped, malformed entries and invalid records fail, and the rest become
/// records run in `cwd` by zsh with exit code 0, redacted when redaction is
/// enabled.
pub fn plan_import(entries: &Vec<ParsedHistoryEntry>, privacy: &PrivacyConfig, cwd: &String) -> (res:
    ImportPlan)
    ensures
        (record_views(res.records@), res.skipped as nat, res.failed as nat) == import_tally(
            parsed_views(entries@),
            privacy.redaction_enabled,
            string_views(privacy.ignore_commands@),
            cwd@,
        ),
{
    let ghost es = parsed_views(entries@);
    let ghost ignore = string_views(privacy.ignore_commands@);
    let mut records: Vec<CommandRecord> = Vec::new();
    let mut skipped: usize = 0;
    let mut failed: usize = 0;
    let mut i: usize = 0;
    while i < entries.len()
        invariant
            i <= entries@.len(),
            es == parsed_views(entries@),
            ignore == string_views(privacy.ignore_commands@),
            (record_views(records@), skipped as nat, failed as nat) == import_tally(
                es.take(i as int),
                privacy.redaction_enabled,
                ignore,
                cwd@,
            ),
            records@.len() + skipped + failed == i,
        decreases entries@.len() - i,
    {
        assert(es.take(i + 1).drop_last() =~= es.take(i as int));
        assert(es.take(i + 1).last() == entries@[i as int]@);
        proof {
            lemma_import_counts_every_entry(es.take(i as int), privacy.redaction_enabled, ignore, cwd@);
        }
        match &entries[i] {
            ParsedHistoryEntry::Skipped => {
                skipped += 1;
            },
            ParsedHistoryEntry::Failed => {
                failed += 1;
            },
            ParsedHistoryEntry::Entry(h) => {
                let text = chars_of(h.command_text.as_str());
                if is_blank(text.as_slice()) {
                    skipped += 1;
                } else {
                    match filter_command(h.command_text.as_str(), privacy) {
                        None => {
                            skipped += 1;
                        },
                        Some(t) => {
                            match CommandRecord::new(
                                t,
                                cwd.clone(),
                                h.executed_at,
                                0,
                                Some(String::from_str("zsh")),
                                h.duration_ms,
                                None,
                                None,
                                None,
                            ) {
                                Ok(r) => {
                                    let ghost before = record_views(records@);
                                    records.push(r);
                                    assert(record_views(records@) =~= before.push(r@));
                                },
                                Err(_) => {
                                    failed += 1;
                                },
                            }
                        },
                    }
                }
            },
        }
        i += 1;
    }
    assert(es.take(entries@.len() as int) =~= es);
    ImportPlan { records, skipped, failed }
}

} // verus!
