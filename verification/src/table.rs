//! The human-readable report: a summary line, a header and one row per entry.

use vstd::prelude::*;
use vstd::string::{StrSliceExecFns, StringExecFns};
use crate::classify::{EntryKind, SurveyEntry};
use crate::cloudaware::ReapSafety;
use crate::emit::Output;
use crate::timestamp::Timestamp;

verus! {

/// What `humansize::format_size(bytes, humansize::BINARY)` prints for `bytes`.
pub uninterp spec fn binary_size_text(bytes: u64) -> Seq<char>;

/// Calls `humansize::format_size` with the `BINARY` options (1024-based
/// units, two decimal places). Claimed: the result is [`binary_size_text`]
/// of `bytes`.
#[verifier::external_body]
fn format_binary_size(bytes: u64) -> (r: String)
    ensures
        r@ == binary_size_text(bytes),
{
    humansize::format_size(bytes, humansize::BINARY)
}

/// The text chrono prints for the UTC instant `secs`/`nanos` under the
/// strftime `pattern`; `None` when chrono cannot represent the instant.
pub uninterp spec fn utc_text(secs: i64, nanos: u32, pattern: Seq<char>) -> Option<Seq<char>>;

/// Calls `chrono::DateTime::<Utc>::from_timestamp` and formats the instant
/// with `DateTime::format`. The pattern is the one fixed pattern the report
/// uses, whose specifiers chrono supports, so printing it cannot fail.
/// Claimed: the result is [`utc_text`] of the arguments.
#[verifier::external_body]
fn format_utc(secs: i64, nanos: u32, pattern: &str) -> (r: Option<String>)
    requires
        pattern@ == "%Y-%m-%dT%H:%M:%SZ"@,
    ensures
        match r {
            Some(t) => utc_text(secs, nanos, pattern@) == Some(t@),
            None => utc_text(secs, nanos, pattern@) is None,
        },
{
    chrono::DateTime::from_timestamp(secs, nanos).map(|d| d.format(pattern).to_string())
}

/// `n` spaces.
pub open spec fn spaces(n: nat) -> Seq<char> {
    Seq::new(n, |i: int| ' ')
}

/// `s` padded with spaces on the right to at least `width` characters.
pub open spec fn pad_right_spec(s: Seq<char>, width: nat) -> Seq<char> {
    if s.len() >= width {
        s
    } else {
        s + spaces((width - s.len()) as nat)
    }
}

/// `s` padded with spaces on the left to at least `width` characters.
pub open spec fn pad_left_spec(s: Seq<char>, width: nat) -> Seq<char> {
    if s.len() >= width {
        s
    } else {
        spaces((width - s.len()) as nat) + s
    }
}

/// `n` spaces.
fn spaces_exec(n: usize) -> (r: String)
    ensures
        r@ == spaces(n as nat),
{
    let mut r = String::new();
    let mut i: usize = 0;
    while i < n
        invariant
            0 <= i <= n,
            r@ == spaces(i as nat),
        decreases n - i,
    {
        proof {
            reveal_strlit(" ");
        }
        r.append(" ");
        assert(r@ =~= spaces((i + 1) as nat));
        i = i + 1;
    }
    r
}

/// `s` padded on the right to `width` characters, as `{:<width}` does.
fn pad_right(s: &str, width: usize) -> (r: String)
    ensures
        r@ == pad_right_spec(s@, width as nat),
{
    let n = s.unicode_len();
    let mut r = s.to_owned();
    if n < width {
        r.append(spaces_exec(width - n).as_str());
    }
    r
}

/// `s` padded on the left to `width` characters, as `{:>width}` does.
fn pad_left(s: &str, width: usize) -> (r: String)
    ensures
        r@ == pad_left_spec(s@, width as nat),
{
    let n = s.unicode_len();
    if n < width {
        let mut r = spaces_exec(width - n);
        r.append(s);
        r
    } else {
        s.to_owned()
    }
}

/// The decimal digits of `n`.
pub open spec fn decimal_text(n: nat) -> Seq<char>
    decreases n,
{
    if n < 10 {
        seq![('0' as u32 + n) as char]
    } else {
        decimal_text(n / 10) + seq![('0' as u32 + n % 10) as char]
    }
}

/// The digit `d` as a one-character string.
fn digit_str(d: u64) -> (r: &'static str)
    requires
        d < 10,
    ensures
        r@ == seq![('0' as u32 + d) as char],
{
    proof {
        reveal_strlit("0");
        reveal_strlit("1");
        reveal_strlit("2");
        reveal_strlit("3");
        reveal_strlit("4");
        reveal_strlit("5");
        reveal_strlit("6");
        reveal_strlit("7");
        reveal_strlit("8");
        reveal_strlit("9");
    }
    if d == 0 {
        "0"
    } else if d == 1 {
        "1"
    } else if d == 2 {
        "2"
    } else if d == 3 {
        "3"
    } else if d == 4 {
        "4"
    } else if d == 5 {
        "5"
    } else if d == 6 {
        "6"
    } else if d == 7 {
        "7"
    } else if d == 8 {
        "8"
    } else {
        "9"
    }
}

/// `n` in decimal, as `{}` prints it.
pub fn decimal(n: u64) -> (r: String)
    ensures
        r@ == decimal_text(n as nat),
    decreases n,
{
    if n < 10 {
        let mut r = String::new();
        r.append(digit_str(n));
        r
    } else {
        let mut r = decimal(n / 10);
        r.append(digit_str(n % 10));
        r
    }
}

/// The name of an entry kind as the report prints it.
pub open spec fn kind_label_spec(k: EntryKind) -> Seq<char> {
    match k {
        EntryKind::RustTarget => "RustTarget"@,
        EntryKind::NodeModules => "NodeModules"@,
        EntryKind::Venv => "Venv"@,
        EntryKind::Pycache => "Pycache"@,
        EntryKind::CargoCache => "CargoCache"@,
        EntryKind::CacheChild => "CacheChild"@,
    }
}

fn kind_label(k: EntryKind) -> (r: &'static str)
    ensures
        r@ == kind_label_spec(k),
{
    match k {
        EntryKind::RustTarget => "RustTarget",
        EntryKind::NodeModules => "NodeModules",
        EntryKind::Venv => "Venv",
        EntryKind::Pycache => "Pycache",
        EntryKind::CargoCache => "CargoCache",
        EntryKind::CacheChild => "CacheChild",
    }
}

/// The reap-safety column of an entry: the level's name, or `-` for an entry
/// without cloud-aware information.
pub open spec fn safety_label_spec(e: SurveyEntry) -> Seq<char> {
    match e.cloud_info {
        Some(info) => match info.reap_safety {
            ReapSafety::Fossil => "Fossil"@,
            ReapSafety::StaleInstalled => "StaleInstalled"@,
            ReapSafety::StaleUninstalled => "StaleUninstalled"@,
            ReapSafety::Recent => "Recent"@,
        },
        None => "-"@,
    }
}

fn safety_label(e: &SurveyEntry) -> (r: &'static str)
    ensures
        r@ == safety_label_spec(*e),
{
    match &e.cloud_info {
        Some(info) => match info.reap_safety {
            ReapSafety::Fossil => "Fossil",
            ReapSafety::StaleInstalled => "StaleInstalled",
            ReapSafety::StaleUninstalled => "StaleUninstalled",
            ReapSafety::Recent => "Recent",
        },
        None => "-",
    }
}

/// A row of the table: the path left-aligned in 40 columns, the size
/// right-aligned in 10, a space, the kind left-aligned in 17, the reap
/// safety right-aligned in 17, two spaces and the crate name.
pub open spec fn row_spec(path: Seq<char>, size: Seq<char>, kind: Seq<char>, safety: Seq<char>, krate: Seq<char>) -> Seq<char> {
    pad_right_spec(path, 40) + pad_left_spec(size, 10) + " "@ + pad_right_spec(kind, 17) + pad_left_spec(safety, 17) + "  "@
        + krate
}

fn row(path: &str, size: &str, kind: &str, safety: &str, krate: &str) -> (r: String)
    ensures
        r@ == row_spec(path@, size@, kind@, safety@, krate@),
{
    let mut r = pad_right(path, 40);
    r.append(pad_left(size, 10).as_str());
    r.append(" ");
    r.append(pad_right(kind, 17).as_str());
    r.append(pad_left(safety, 17).as_str());
    r.append("  ");
    r.append(krate);
    r
}

/// The line that reports an entry.
pub open spec fn entry_line(e: SurveyEntry) -> Seq<char> {
    row_spec(e.path@, binary_size_text(e.bytes), kind_label_spec(e.kind), safety_label_spec(e), e.crate_name@)
}

/// The column headings: `PATH` left-aligned in 40 columns, `SIZE`
/// right-aligned in 10, a space, `KIND` right-aligned in 10, `REAP_SAFETY`
/// right-aligned in 26, two spaces and `CRATE`.
pub open spec fn header_line() -> Seq<char> {
    pad_right_spec("PATH"@, 40) + pad_left_spec("SIZE"@, 10) + " "@ + pad_left_spec("KIND"@, 10) + pad_left_spec(
        "REAP_SAFETY"@,
        26,
    ) + "  CRATE"@
}

fn header() -> (r: String)
    ensures
        r@ == header_line(),
{
    let mut r = pad_right("PATH", 40);
    r.append(pad_left("SIZE", 10).as_str());
    r.append(" ");
    r.append(pad_left("KIND", 10).as_str());
    r.append(pad_left("REAP_SAFETY", 26).as_str());
    r.append("  CRATE");
    r
}

/// The summary line: total reclaimable size, entry count and scan instant.
pub open spec fn summary_line(reclaimable: u64, count: nat, scanned_at: Timestamp) -> Seq<char> {
    "ballast-survey  reclaimable: "@ + binary_size_text(reclaimable) + "  entries: "@ + decimal_text(count)
        + "  scanned: "@ + match utc_text(scanned_at.secs, scanned_at.nanos, "%Y-%m-%dT%H:%M:%SZ"@) {
        Some(t) => t,
        None => Seq::empty(),
    }
}

/// Renders the report as lines of text: the summary, the header, then one
/// row per entry, in the report's order.
pub fn render_table(output: &Output) -> (lines: Vec<String>)
    ensures
        lines@.len() == output.entries@.len() + 2,
        lines@[0]@ == summary_line(
            output.summary.reclaimable_bytes,
            output.summary.entry_count as nat,
            output.summary.scanned_at,
        ),
        lines@[1]@ == header_line(),
        forall|i: int| 0 <= i < output.entries@.len() ==> (#[trigger] lines@[i + 2])@ == entry_line(output.entries@[i]),
{
    let s = &output.summary;
    let mut first = String::new();
    first.append("ballast-survey  reclaimable: ");
    first.append(format_binary_size(s.reclaimable_bytes).as_str());
    first.append("  entries: ");
    first.append(decimal(s.entry_count as u64).as_str());
    first.append("  scanned: ");
    match format_utc(s.scanned_at.secs, s.scanned_at.nanos, "%Y-%m-%dT%H:%M:%SZ") {
        Some(t) => first.append(t.as_str()),
        None => {},
    }
    let mut lines: Vec<String> = Vec::new();
    lines.push(first);
    lines.push(header());
    let mut i: usize = 0;
    while i < output.entries.len()
        invariant
            0 <= i <= output.entries@.len(),
            lines@.len() == i + 2,
            lines@[0]@ == summary_line(
                output.summary.reclaimable_bytes,
                output.summary.entry_count as nat,
                output.summary.scanned_at,
            ),
            lines@[1]@ == header_line(),
            forall|k: int| 0 <= k < i ==> (#[trigger] lines@[k + 2])@ == entry_line(output.entries@[k]),
        decreases output.entries@.len() - i,
    {
        let e = &output.entries[i];
        let size = format_binary_size(e.bytes);
        lines.push(row(e.path.as_str(), size.as_str(), kind_label(e.kind), safety_label(e), e.crate_name.as_str()));
        i = i + 1;
    }
    lines
}


/// The reap-safety column tells the levels apart: an entry with cloud-aware
/// information shows a label that no entry of another level shows, and that
/// is never the `-` of an entry without it.
pub proof fn safety_labels_tell_levels_apart(a: SurveyEntry, b: SurveyEntry)
    requires
        a.cloud_info is Some,
        b.cloud_info is Some,
    ensures
        a.cloud_info->0.reap_safety != b.cloud_info->0.reap_safety ==> safety_label_spec(a) != safety_label_spec(b),
        safety_label_spec(a) != "-"@,
{
    reveal_strlit("Fossil");
    reveal_strlit("StaleInstalled");
    reveal_strlit("StaleUninstalled");
    reveal_strlit("Recent");
    reveal_strlit("-");
    assert("Fossil"@.len() == 6 && "StaleInstalled"@.len() == 14 && "StaleUninstalled"@.len() == 16);
    assert("Recent"@.len() == 6 && "-"@.len() == 1);
    assert("Fossil"@[0] == 'F' && "Recent"@[0] == 'R');
    assert("Fossil"@ != "Recent"@);
}

} // verus!
