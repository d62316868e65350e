//! The statistics report.

use crate::text::{append_chars, chars_of, i64_decimal, int_decimal, nat_decimal, string_from_chars, u64_decimal};
use vstd::prelude::*;

verus! {

/// The schema version that the command store is migrated to.
pub const SCHEMA_VERSION: i64 = 1;

/// Counts read from an open command store.
#[derive(Debug, Clone, PartialEq, Eq)]
pub struct StoreStats {
    /// Stored runs.
    pub total: i64,
    /// Runs in the full-text index.
    pub indexed: i64,
    /// Runs with a non-zero exit code.
    pub failed: i64,
    /// The earliest execution time, if any run is stored.
    pub earliest: Option<i64>,
    /// The latest execution time, if any run is stored.
    pub latest: Option<i64>,
    /// Distinct search forms.
    pub unique_groups: i64,
    /// Whether the full-text index table exists.
    pub fts_exists: bool,
    /// The store's schema version.
    pub schema_version: i64,
}

/// The state of the command store.
#[derive(Debug, Clone, PartialEq, Eq)]
pub enum StoreState {
    /// The store file does not exist (and is not created by reporting).
    Missing,
    /// The store exists but could not be opened.
    Unavailable,
    /// The store is open.
    Open(StoreStats),
}

/// What the statistics report shows.
#[derive(Debug, Clone, PartialEq, Eq)]
pub struct StatsInput {
    /// Where the store lives.
    pub database_path: String,
    /// The store's size, already formatted, when it is known.
    pub size_text: Option<String>,
    pub store: StoreState,
    pub redaction_enabled: bool,
    pub ignore_rules: usize,
}

/// The lines of the commands section.
pub open spec fn commands_section(store: StoreState) -> Seq<char> {
    match store {
        StoreState::Open(s) => "  Total stored: "@ + int_decimal(s.total as int) + "\n  Indexed (FTS): "@
            + int_decimal(s.indexed as int) + "\n  Failed commands: "@ + int_decimal(
            s.failed as int,
        ) + "\n"@ + (if s.earliest is Some && s.latest is Some {
            "  Time range: "@ + int_decimal(s.earliest.unwrap() as int) + " to "@ + int_decimal(
                s.latest.unwrap() as int,
            ) + "\n"@
        } else {
            "  Time range: n/a\n"@
        }),
        StoreState::Missing => "  Total stored: 0 (database missing)\n  Indexed (FTS): 0\n  Failed commands: 0\n  Time range: n/a\n"@,
        StoreState::Unavailable => "  Total stored: 0 (database unavailable)\n  Indexed (FTS): 0\n  Failed commands: 0\n  Time range: n/a\n"@,
    }
}

/// The lines of the health section.
pub open spec fn health_section(store: StoreState) -> Seq<char> {
    match store {
        StoreState::Open(s) => "  Database: ok\n"@ + (if s.fts_exists {
            "  FTS index: ok\n"@
        } else {
            "  FTS index: missing\n"@
        }) + (if s.schema_version == SCHEMA_VERSION {
            "  Migrations: up to date\n"@
        } else {
            "  Migrations: version "@ + int_decimal(s.schema_version as int) + " (expected 1)\n"@
        }),
        StoreState::Missing => "  Database: missing\n  FTS index: unknown\n  Migrations: unknown\n"@,
        StoreState::Unavailable => "  Database: unavailable\n  FTS index: unknown\n  Migrations: unknown\n"@,
    }
}

/// The statistics report: the store's location and size, its counts and
/// time range, the number of collapse groups, the privacy settings (never
/// their contents), and the store's health.
pub open spec fn stats_text(input: StatsInput) -> Seq<char> {
    "Seekr Stats\n===========\n\nDatabase:\n  Path: "@ + input.database_path@ + "\n"@ + (
    if input.store is Open && input.size_text is Some {
        "  Size: "@ + input.size_text.unwrap()@ + "\n"@
    } else {
        seq![]
    }) + "\nCommands:\n"@ + commands_section(input.store) + "\nCollapse:\n"@ + (match input.store {
        StoreState::Open(s) => "  Unique groups: "@ + int_decimal(s.unique_groups as int) + "\n"@,
        _ => "  Unique groups: n/a\n"@,
    }) + "\nPrivacy:\n  Redaction: "@ + (if input.redaction_enabled {
        "enabled"@
    } else {
        "disabled"@
    }) + "\n  Ignore rules: "@ + nat_decimal(input.ignore_rules as nat) + "\n"@ + "\nHealth:\n"@
        + health_section(input.store)
}

/// The commands section.
fn render_commands(store: &StoreState) -> (res: Vec<char>)
    ensures
        res@ == commands_section(*store),
{
    match store {
        StoreState::Open(s) => {
            let mut v = chars_of("  Total stored: ");
            append_chars(&mut v, i64_decimal(s.total).as_slice());
            append_chars(&mut v, chars_of("\n  Indexed (FTS): ").as_slice());
            append_chars(&mut v, i64_decimal(s.indexed).as_slice());
            append_chars(&mut v, chars_of("\n  Failed commands: ").as_slice());
            append_chars(&mut v, i64_decimal(s.failed).as_slice());
            append_chars(&mut v, chars_of("\n").as_slice());
            let ghost head = v@;
            match (s.earliest, s.latest) {
                (Some(e), Some(l)) => {
                    append_chars(&mut v, chars_of("  Time range: ").as_slice());
                    append_chars(&mut v, i64_decimal(e).as_slice());
                    append_chars(&mut v, chars_of(" to ").as_slice());
                    append_chars(&mut v, i64_decimal(l).as_slice());
                    append_chars(&mut v, chars_of("\n").as_slice());
                },
                _ => {
                    append_chars(&mut v, chars_of("  Time range: n/a\n").as_slice());
                },
            }
            assert(v@ =~= commands_section(*store));
            v
        },
        StoreState::Missing => chars_of(
            "  Total stored: 0 (database missing)\n  Indexed (FTS): 0\n  Failed commands: 0\n  Time range: n/a\n",
        ),
        StoreState::Unavailable => chars_of(
            "  Total stored: 0 (database unavailable)\n  Indexed (FTS): 0\n  Failed commands: 0\n  Time range: n/a\n",
        ),
    }
}

/// The health section.
fn render_health(store: &StoreState) -> (res: Vec<char>)
    ensures
        res@ == health_section(*store),
{
    match store {
        StoreState::Open(s) => {
            let mut v = chars_of("  Database: ok\n");
            if s.fts_exists {
                append_chars(&mut v, chars_of("  FTS index: ok\n").as_slice());
            } else {
                append_chars(&mut v, chars_of("  FTS index: missing\n").as_slice());
            }
            let ghost head = v@;
            if s.schema_version == SCHEMA_VERSION {
                append_chars(&mut v, chars_of("  Migrations: up to date\n").as_slice());
            } else {
                append_chars(&mut v, chars_of("  Migrations: version ").as_slice());
                append_chars(&mut v, i64_decimal(s.schema_version).as_slice());
                append_chars(&mut v, chars_of(" (expected 1)\n").as_slice());
            }
            assert(v@ =~= health_section(*store));
            v
        },
        StoreState::Missing => chars_of(
            "  Database: missing\n  FTS index: unknown\n  Migrations: unknown\n",
        ),
        StoreState::Unavailable => chars_of(
            "  Database: unavailable\n  FTS index: unknown\n  Migrations: unknown\n",
        ),
    }
}

/// Renders the statistics report.
pub fn render_stats(input: &StatsInput) -> (res: String)
    ensures
        res@ == stats_text(*input),
{
    let mut v = chars_of("Seekr Stats\n===========\n\nDatabase:\n  Path: ");
    append_chars(&mut v, chars_of(input.database_path.as_str()).as_slice());
    append_chars(&mut v, chars_of("\n").as_slice());
    let ghost a = v@;
    if let StoreState::Open(_) = &input.store {
        if let Some(size) = &input.size_text {
            append_chars(&mut v, chars_of("  Size: ").as_slice());
            append_chars(&mut v, chars_of(size.as_str()).as_slice());
            append_chars(&mut v, chars_of("\n").as_slice());
        }
    }
    let ghost b = v@;
    append_chars(&mut v, chars_of("\nCommands:\n").as_slice());
    append_chars(&mut v, render_commands(&input.store).as_slice());
    append_chars(&mut v, chars_of("\nCollapse:\n").as_slice());
    let ghost c = v@;
    match &input.store {
        StoreState::Open(s) => {
            append_chars(&mut v, chars_of("  Unique groups: ").as_slice());
            append_chars(&mut v, i64_decimal(s.unique_groups).as_slice());
            append_chars(&mut v, chars_of("\n").as_slice());
        },
        _ => {
            append_chars(&mut v, chars_of("  Unique groups: n/a\n").as_slice());
        },
    }
    let ghost d = v@;
    append_chars(&mut v, chars_of("\nPrivacy:\n  Redaction: ").as_slice());
    if input.redaction_enabled {
        append_chars(&mut v, chars_of("enabled").as_slice());
    } else {
        append_chars(&mut v, chars_of("disabled").as_slice());
    }
    append_chars(&mut v, chars_of("\n  Ignore rules: ").as_slice());
    append_chars(&mut v, u64_decimal(input.ignore_rules as u64).as_slice());
    append_chars(&mut v, chars_of("\n").as_slice());
    append_chars(&mut v, chars_of("\nHealth:\n").as_slice());
    append_chars(&mut v, render_health(&input.store).as_slice());
    assert(v@ =~= stats_text(*input));
    string_from_chars(v.as_slice())
}

} // verus!
