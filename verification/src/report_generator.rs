//! Compliance reports: counting the outcome of the checks and writing them as text.

use vstd::prelude::*;
use crate::compatibility_checker::{CheckRecord, CompatibilityStatus, DependencyCheck, StatusTerm};
use crate::dependency_scanner::copy_strings;
use crate::spdx_parser::strings_view;
use crate::text::{
    chars_in_bytes, chars_of, copy_string, count_chars_in_bytes, decimal, is_char_boundary_at,
    lemma_chars_in_bytes_all, push_char, push_decimal, string_from_range, utf8_len, starts_with, ends_with,
    contains_text, occurs_at,
};

verus! {

/// A single entry in the compliance report.
#[derive(Debug)]
pub struct ReportEntry {
    pub name: String,
    pub version: String,
    pub license: String,
    pub compatibility: String,
    pub license_type: String,
    pub requires_attribution: bool,
    pub notes: Vec<String>,
}

/// Summary statistics for the report.
#[derive(Debug)]
pub struct ReportSummary {
    pub total_dependencies: usize,
    pub compatible: usize,
    pub incompatible: usize,
    pub unknown: usize,
    pub attribution_required: Vec<String>,
}

/// The full compliance report.
#[derive(Debug)]
pub struct ComplianceReport {
    pub project_license: String,
    pub entries: Vec<ReportEntry>,
    pub summary: ReportSummary,
}

/// A report entry, as plain values.
pub struct EntryRecord {
    pub name: Seq<char>,
    pub version: Seq<char>,
    pub license: Seq<char>,
    pub compatibility: Seq<char>,
    pub license_type: Seq<char>,
    pub requires_attribution: bool,
    pub notes: Seq<Seq<char>>,
}

/// Report statistics, as plain values.
pub struct SummaryRecord {
    pub total_dependencies: nat,
    pub compatible: nat,
    pub incompatible: nat,
    pub unknown: nat,
    pub attribution_required: Seq<Seq<char>>,
}

/// A report, as plain values.
pub struct ReportRecord {
    pub project_license: Seq<char>,
    pub entries: Seq<EntryRecord>,
    pub summary: SummaryRecord,
}

impl View for ReportEntry {
    type V = EntryRecord;

    open spec fn view(&self) -> EntryRecord {
        EntryRecord {
            name: self.name@,
            version: self.version@,
            license: self.license@,
            compatibility: self.compatibility@,
            license_type: self.license_type@,
            requires_attribution: self.requires_attribution,
            notes: strings_view(self.notes@),
        }
    }
}

impl View for ReportSummary {
    type V = SummaryRecord;

    open spec fn view(&self) -> SummaryRecord {
        SummaryRecord {
            total_dependencies: self.total_dependencies as nat,
            compatible: self.compatible as nat,
            incompatible: self.incompatible as nat,
            unknown: self.unknown as nat,
            attribution_required: strings_view(self.attribution_required@),
        }
    }
}

/// The views of report entries.
pub open spec fn entries_view(es: Seq<ReportEntry>) -> Seq<EntryRecord> {
    es.map_values(|e: ReportEntry| e@)
}

impl View for ComplianceReport {
    type V = ReportRecord;

    open spec fn view(&self) -> ReportRecord {
        ReportRecord {
            project_license: self.project_license@,
            entries: entries_view(self.entries@),
            summary: self.summary@,
        }
    }
}

/// The views of dependency checks.
pub open spec fn checks_view(cs: Seq<DependencyCheck>) -> Seq<CheckRecord> {
    cs.map_values(|c: DependencyCheck| c@)
}

/// The status column of a report entry.
pub open spec fn status_text(s: StatusTerm) -> Seq<char> {
    match s {
        StatusTerm::Compatible => "✅ Compatible"@,
        StatusTerm::Incompatible(reason) => "❌ Incompatible: "@ + reason,
        StatusTerm::Unknown => "⚠️ Unknown"@,
    }
}

/// The report entry for a check.
pub open spec fn report_entry(c: CheckRecord) -> EntryRecord {
    EntryRecord {
        name: c.dep.name,
        version: c.dep.version,
        license: match c.dep.license_expression {
            Some(e) => e,
            None => "Unknown"@,
        },
        compatibility: status_text(c.status),
        license_type: match c.license_type {
            Some(t) => t.spec_label(),
            None => "Unknown"@,
        },
        requires_attribution: c.requires_attribution,
        notes: c.notes,
    }
}

/// The report entries for the checks, in order.
pub open spec fn report_entries(cs: Seq<CheckRecord>) -> Seq<EntryRecord> {
    cs.map_values(|c: CheckRecord| report_entry(c))
}

/// Which of the three outcomes a status is: 0 compatible, 1 incompatible, 2 unknown.
pub open spec fn status_kind(s: StatusTerm) -> int {
    match s {
        StatusTerm::Compatible => 0,
        StatusTerm::Incompatible(_) => 1,
        StatusTerm::Unknown => 2,
    }
}

/// How many of the checks have the outcome `kind`.
pub open spec fn count_kind(cs: Seq<CheckRecord>, kind: int) -> nat
    decreases cs.len(),
{
    if cs.len() == 0 {
        0
    } else {
        count_kind(cs.drop_last(), kind) + if status_kind(cs.last().status) == kind { 1nat } else { 0nat }
    }
}

/// The names of the dependencies whose licenses require attribution, in order.
pub open spec fn attribution_names(cs: Seq<CheckRecord>) -> Seq<Seq<char>>
    decreases cs.len(),
{
    if cs.len() == 0 {
        Seq::empty()
    } else {
        let rest = attribution_names(cs.drop_last());
        if cs.last().requires_attribution {
            rest.push(cs.last().dep.name)
        } else {
            rest
        }
    }
}

/// The report for the checks `cs` of a project under `project`.
pub open spec fn compliance_report(project: Seq<char>, cs: Seq<CheckRecord>) -> ReportRecord {
    ReportRecord {
        project_license: project,
        entries: report_entries(cs),
        summary: SummaryRecord {
            total_dependencies: cs.len(),
            compatible: count_kind(cs, 0),
            incompatible: count_kind(cs, 1),
            unknown: count_kind(cs, 2),
            attribution_required: attribution_names(cs),
        },
    }
}

/// Every check has exactly one of the three outcomes: the compatible, the
/// incompatible and the unknown dependencies together are all the dependencies.
pub proof fn lemma_counts_sum_to_total(cs: Seq<CheckRecord>)
    ensures
        count_kind(cs, 0) + count_kind(cs, 1) + count_kind(cs, 2) == cs.len(),
    decreases cs.len(),
{
    if cs.len() > 0 {
        lemma_counts_sum_to_total(cs.drop_last());
    }
}

/// A report accounts for every dependency once: its entries are as many as the
/// checks, and the compatible, incompatible and unknown counts add up to the total.
pub proof fn law_report_accounts_for_every_dependency(project: Seq<char>, cs: Seq<CheckRecord>)
    ensures
        compliance_report(project, cs).entries.len() == cs.len(),
        compliance_report(project, cs).summary.total_dependencies == cs.len(),
        compliance_report(project, cs).summary.compatible + compliance_report(project, cs).summary.incompatible
            + compliance_report(project, cs).summary.unknown == compliance_report(project, cs).summary.total_dependencies,
{
    lemma_counts_sum_to_total(cs);
}

/// No outcome is counted for more checks than there are.
proof fn lemma_count_bounded(cs: Seq<CheckRecord>, kind: int)
    ensures
        count_kind(cs, kind) <= cs.len(),
    decreases cs.len(),
{
    if cs.len() > 0 {
        lemma_count_bounded(cs.drop_last(), kind);
    }
}

/// `s` cut to at most `max` bytes: unchanged when it fits, else its first
/// `max - 1` bytes followed by `…`.
pub open spec fn truncated(s: Seq<char>, max: int) -> Seq<char> {
    if utf8_len(s) <= max {
        s
    } else {
        s.take(chars_in_bytes(s, max - 1) as int).push('…')
    }
}

/// Whether `s` can be cut to `max` bytes: it fits, or byte `max - 1` is where a
/// character starts.
pub open spec fn can_truncate(s: Seq<char>, max: int) -> bool {
    utf8_len(s) <= max || (max >= 1 && is_char_boundary_at(s, max - 1))
}

/// Cut `s` to at most `max` bytes, marking a cut with `…`.
pub fn truncate(s: &str, max: usize) -> (r: String)
    requires
        can_truncate(s@, max as int),
    ensures
        r@ == truncated(s@, max as int),
{
    let cs = chars_of(s);
    let all = count_chars_in_bytes(&cs, max);
    proof {
        lemma_chars_in_bytes_all(cs@, max as int);
    }
    if all == cs.len() {
        return string_from_range(&cs, 0, cs.len());
    }
    let k = count_chars_in_bytes(&cs, max - 1);
    proof {
        lemma_chars_in_bytes_all(cs@, max - 1);
    }
    let mut r = string_from_range(&cs, 0, k);
    push_char(&mut r, '…');
    r
}

/// Whether `s` can be cut to `max` bytes.
pub fn can_truncate_str(s: &str, max: usize) -> (b: bool)
    ensures
        b == can_truncate(s@, max as int),
{
    let cs = chars_of(s);
    let all = count_chars_in_bytes(&cs, max);
    proof {
        lemma_chars_in_bytes_all(cs@, max as int);
    }
    if all == cs.len() {
        return true;
    }
    if max == 0 {
        return false;
    }
    let k = count_chars_in_bytes(&cs, max - 1);
    proof {
        lemma_chars_in_bytes_all(cs@, max - 1);
    }
    let mut head: Vec<char> = Vec::new();
    let mut i: usize = 0;
    while i < k
        invariant
            k <= cs@.len(),
            i <= k,
            head@ == cs@.take(i as int),
        decreases k - i,
    {
        head.push(cs[i]);
        i = i + 1;
        assert(head@ =~= cs@.take(i as int));
    }
    let fits = count_chars_in_bytes(&head, max - 1);
    let under = max - 1 == 0 || count_chars_in_bytes(&head, max - 2) < head.len();
    proof {
        lemma_chars_in_bytes_all(head@, max - 1);
        if max >= 2 {
            lemma_chars_in_bytes_all(head@, max - 2);
        }
    }
    fits == head.len() && under
}

/// `n` spaces.
pub open spec fn spaces(n: int) -> Seq<char> {
    Seq::new(n as nat, |_i: int| ' ')
}

/// `n` dashes.
pub open spec fn dashes(n: int) -> Seq<char> {
    Seq::new(n as nat, |_i: int| '-')
}

/// `s` padded with spaces on the right to `width` characters, as `{:<width}` formats it.
pub open spec fn pad(s: Seq<char>, width: int) -> Seq<char> {
    if s.len() >= width {
        s
    } else {
        s + spaces(width - s.len())
    }
}

/// A row of the dependency table.
pub open spec fn table_row(
    name: Seq<char>,
    version: Seq<char>,
    license: Seq<char>,
    license_type: Seq<char>,
    status: Seq<char>,
) -> Seq<char> {
    pad(name, 30) + " "@ + pad(version, 12) + " "@ + pad(license, 35) + " "@ + pad(license_type, 15)
        + " "@ + status + "\n"@
}

/// The lines listing the notes of an entry.
pub open spec fn note_lines(notes: Seq<Seq<char>>) -> Seq<char>
    decreases notes.len(),
{
    if notes.len() == 0 {
        Seq::empty()
    } else {
        note_lines(notes.drop_last()) + "  → "@ + notes.last() + "\n"@
    }
}

/// The lines of one entry: its row, with its fields cut to the column widths, then its notes.
pub open spec fn entry_text(e: EntryRecord) -> Seq<char> {
    table_row(
        truncated(e.name, 30),
        truncated(e.version, 12),
        truncated(e.license, 35),
        truncated(e.license_type, 15),
        truncated(e.compatibility, 30),
    ) + note_lines(e.notes)
}

/// The lines of all entries.
pub open spec fn entries_text(es: Seq<EntryRecord>) -> Seq<char>
    decreases es.len(),
{
    if es.len() == 0 {
        Seq::empty()
    } else {
        entries_text(es.drop_last()) + entry_text(es.last())
    }
}

/// The lines naming the dependencies that require attribution.
pub open spec fn attribution_lines(names: Seq<Seq<char>>) -> Seq<char>
    decreases names.len(),
{
    if names.len() == 0 {
        Seq::empty()
    } else {
        attribution_lines(names.drop_last()) + "  • "@ + names.last() + "\n"@
    }
}

/// The header of the text report, down to the rule under the column titles.
pub open spec fn report_header(project: Seq<char>) -> Seq<char> {
    "License Compliance Report\n========================\nProject License: "@ + project + "\n\n"@
        + "Dependencies:\n"@ + table_row("CRATE"@, "VERSION"@, "LICENSE"@, "TYPE"@, "STATUS"@)
        + dashes(110) + "\n"@
}

/// The summary part of the text report.
pub open spec fn summary_text(s: SummaryRecord) -> Seq<char> {
    "\n"@ + "Summary:\n"@
        + "  Total dependencies:  "@ + decimal(s.total_dependencies) + "\n"@
        + "  Compatible:          "@ + decimal(s.compatible) + " ✅\n"@
        + "  Incompatible:        "@ + decimal(s.incompatible) + " ❌\n"@
        + "  Unknown:             "@ + decimal(s.unknown) + " ⚠️\n"@
        + if s.attribution_required.len() == 0 {
            Seq::empty()
        } else {
            "\nAttribution Required:\n"@ + attribution_lines(s.attribution_required)
        }
}

/// The text report.
pub open spec fn report_text(r: ReportRecord) -> Seq<char> {
    report_header(r.project_license) + entries_text(r.entries) + summary_text(r.summary)
}

/// Whether every field of an entry that the table cuts can be cut.
pub open spec fn entry_printable(e: EntryRecord) -> bool {
    &&& can_truncate(e.name, 30)
    &&& can_truncate(e.version, 12)
    &&& can_truncate(e.license, 35)
    &&& can_truncate(e.license_type, 15)
    &&& can_truncate(e.compatibility, 30)
}

/// Whether the text report of `r` can be written: every cut falls between characters.
pub open spec fn report_printable(r: ReportRecord) -> bool {
    forall|k: int| 0 <= k < r.entries.len() ==> entry_printable(#[trigger] r.entries[k])
}

/// Appends `s` padded with spaces to `width` characters.
fn push_padded(out: &mut String, s: &str, width: usize)
    ensures
        final(out)@ == old(out)@ + pad(s@, width as int),
{
    out.append(s);
    let n = chars_of(s).len();
    let mut i = n;
    assert(spaces(0) =~= Seq::<char>::empty());
    assert(out@ =~= old(out)@ + s@ + spaces(0));
    while i < width
        invariant
            n == s@.len(),
            n <= i <= width || (i == n && n >= width),
            out@ == old(out)@ + s@ + spaces(i - n),
        decreases width - i,
    {
        push_char(out, ' ');
        assert(spaces(i + 1 - n) =~= spaces(i - n).push(' '));
        i = i + 1;
    }
    if n >= width {
        assert(out@ =~= old(out)@ + pad(s@, width as int));
    } else {
        assert(out@ =~= old(out)@ + pad(s@, width as int));
    }
}

/// Generates license compliance reports.
pub struct ReportGenerator;

impl ReportGenerator {
    fn push_row(out: &mut String, name: &str, version: &str, license: &str, license_type: &str, status: &str)
        ensures
            final(out)@ == old(out)@ + table_row(name@, version@, license@, license_type@, status@),
    {
        push_padded(out, name, 30);
        out.append(" ");
        push_padded(out, version, 12);
        out.append(" ");
        push_padded(out, license, 35);
        out.append(" ");
        push_padded(out, license_type, 15);
        out.append(" ");
        out.append(status);
        out.append("\n");
        assert(out@ =~= old(out)@ + table_row(name@, version@, license@, license_type@, status@));
    }

    fn push_header(out: &mut String, project: &str)
        ensures
            final(out)@ == old(out)@ + report_header(project@),
    {
        out.append("License Compliance Report\n========================\nProject License: ");
        out.append(project);
        out.append("\n\n");
        out.append("Dependencies:\n");
        Self::push_row(out, "CRATE", "VERSION", "LICENSE", "TYPE", "STATUS");
        let ghost before = out@;
        let mut i: usize = 0;
        assert(dashes(0) =~= Seq::<char>::empty());
        while i < 110
            invariant
                i <= 110,
                out@ == before + dashes(i as int),
            decreases 110 - i,
        {
            push_char(out, '-');
            assert(dashes(i + 1) =~= dashes(i as int).push('-'));
            i = i + 1;
        }
        out.append("\n");
        assert(out@ =~= old(out)@ + report_header(project@));
    }

    fn push_entry(out: &mut String, entry: &ReportEntry)
        requires
            entry_printable(entry@),
        ensures
            final(out)@ == old(out)@ + entry_text(entry@),
    {
        let name = truncate(entry.name.as_str(), 30);
        let version = truncate(entry.version.as_str(), 12);
        let license = truncate(entry.license.as_str(), 35);
        let license_type = truncate(entry.license_type.as_str(), 15);
        let status = truncate(entry.compatibility.as_str(), 30);
        Self::push_row(out, name.as_str(), version.as_str(), license.as_str(), license_type.as_str(), status.as_str());
        let ghost row_end = out@;
        let ghost nv = strings_view(entry.notes@);
        let mut i: usize = 0;
        assert(nv.take(0) =~= Seq::<Seq<char>>::empty());
        assert(out@ =~= row_end + note_lines(nv.take(0)));
        while i < entry.notes.len()
            invariant
                nv == strings_view(entry.notes@),
                i <= nv.len(),
                out@ == row_end + note_lines(nv.take(i as int)),
            decreases entry.notes.len() - i,
        {
            assert(nv.take(i + 1).drop_last() =~= nv.take(i as int));
            assert(nv[i as int] == entry.notes@[i as int]@);
            out.append("  → ");
            out.append(entry.notes[i].as_str());
            out.append("\n");
            assert(out@ =~= row_end + note_lines(nv.take(i + 1)));
            i = i + 1;
        }
        assert(nv.take(i as int) =~= nv);
        assert(out@ =~= old(out)@ + entry_text(entry@));
    }

    fn push_summary(out: &mut String, summary: &ReportSummary)
        ensures
            final(out)@ == old(out)@ + summary_text(summary@),
    {
        out.append("\n");
        out.append("Summary:\n");
        out.append("  Total dependencies:  ");
        push_decimal(out, summary.total_dependencies);
        out.append("\n");
        out.append("  Compatible:          ");
        push_decimal(out, summary.compatible);
        out.append(" ✅\n");
        out.append("  Incompatible:        ");
        push_decimal(out, summary.incompatible);
        out.append(" ❌\n");
        out.append("  Unknown:             ");
        push_decimal(out, summary.unknown);
        out.append(" ⚠️\n");
        let ghost counts_end = out@;
        let ghost names = strings_view(summary.attribution_required@);
        if summary.attribution_required.len() > 0 {
            out.append("\nAttribution Required:\n");
            let ghost list_start = out@;
            let mut i: usize = 0;
            assert(names.take(0) =~= Seq::<Seq<char>>::empty());
            assert(out@ =~= list_start + attribution_lines(names.take(0)));
            while i < summary.attribution_required.len()
                invariant
                    names == strings_view(summary.attribution_required@),
                    i <= names.len(),
                    out@ == list_start + attribution_lines(names.take(i as int)),
                decreases summary.attribution_required.len() - i,
            {
                assert(names.take(i + 1).drop_last() =~= names.take(i as int));
                assert(names[i as int] == summary.attribution_required@[i as int]@);
                out.append("  • ");
                out.append(summary.attribution_required[i].as_str());
                out.append("\n");
                assert(out@ =~= list_start + attribution_lines(names.take(i + 1)));
                i = i + 1;
            }
            assert(names.take(i as int) =~= names);
        }
        assert(out@ =~= old(out)@ + summary_text(summary@));
    }

    /// Format report as a human-readable text table. Fields are cut to their
    /// column widths, which requires each cut to fall between characters.
    pub fn format_text(report: &ComplianceReport) -> (out: String)
        requires
            report_printable(report@),
        ensures
            out@ == report_text(report@),
    {
        let mut out = String::new();
        Self::push_header(&mut out, report.project_license.as_str());
        let ghost header = out@;
        let ghost ev = entries_view(report.entries@);
        let mut i: usize = 0;
        assert(ev.take(0) =~= Seq::<EntryRecord>::empty());
        assert(out@ =~= header + entries_text(ev.take(0)));
        while i < report.entries.len()
            invariant
                ev == entries_view(report.entries@),
                ev == report@.entries,
                report_printable(report@),
                i <= ev.len(),
                out@ == header + entries_text(ev.take(i as int)),
            decreases report.entries.len() - i,
        {
            assert(ev.take(i + 1).drop_last() =~= ev.take(i as int));
            assert(ev[i as int] == report.entries@[i as int]@);
            assert(entry_printable(ev[i as int]));
            Self::push_entry(&mut out, &report.entries[i]);
            assert(out@ =~= header + entries_text(ev.take(i + 1)));
            i = i + 1;
        }
        assert(ev.take(i as int) =~= ev);
        Self::push_summary(&mut out, &report.summary);
        assert(out@ =~= report_text(report@));
        out
    }

    /// Whether `format_text` can write `report`: every field the table cuts can be cut.
    pub fn is_printable(report: &ComplianceReport) -> (b: bool)
        ensures
            b == report_printable(report@),
    {
        let ghost ev = entries_view(report.entries@);
        let mut i: usize = 0;
        while i < report.entries.len()
            invariant
                ev == entries_view(report.entries@),
                ev == report@.entries,
                i <= ev.len(),
                forall|k: int| 0 <= k < i ==> entry_printable(#[trigger] ev[k]),
            decreases report.entries.len() - i,
        {
            let e = &report.entries[i];
            assert(ev[i as int] == e@);
            if !(can_truncate_str(e.name.as_str(), 30) && can_truncate_str(e.version.as_str(), 12)
                && can_truncate_str(e.license.as_str(), 35) && can_truncate_str(e.license_type.as_str(), 15)
                && can_truncate_str(e.compatibility.as_str(), 30)) {
                return false;
            }
            i = i + 1;
        }
        true
    }

    fn entry_for(check: &DependencyCheck) -> (e: ReportEntry)
        ensures
            e@ == report_entry(check@),
    {
        let compatibility = match &check.status {
            CompatibilityStatus::Compatible => String::from_str("✅ Compatible"),
            CompatibilityStatus::Incompatible { reason } => {
                let mut s = String::from_str("❌ Incompatible: ");
                s.append(reason.as_str());
                s
            },
            CompatibilityStatus::Unknown => String::from_str("⚠️ Unknown"),
        };
        let license_type = match &check.license_type {
            Some(t) => t.to_string(),
            None => String::from_str("Unknown"),
        };
        let license = match &check.dep.license_expression {
            Some(e) => copy_string(e),
            None => String::from_str("Unknown"),
        };
        ReportEntry {
            name: copy_string(&check.dep.name),
            version: copy_string(&check.dep.version),
            license,
            compatibility,
            license_type,
            requires_attribution: check.requires_attribution,
            notes: copy_strings(&check.notes),
        }
    }

    /// Generate a compliance report from dependency checks: one entry per check, in
    /// order, and the number of compatible, incompatible and unknown dependencies.
    pub fn generate(project_license: &str, checks: &[DependencyCheck]) -> (r: ComplianceReport)
        ensures
            r@ == compliance_report(project_license@, checks_view(checks@)),
    {
        let ghost cv = checks_view(checks@);
        let mut entries: Vec<ReportEntry> = Vec::new();
        let mut compatible: usize = 0;
        let mut incompatible: usize = 0;
        let mut unknown: usize = 0;
        let mut attribution_required: Vec<String> = Vec::new();
        let mut i: usize = 0;
        assert(cv.take(0) =~= Seq::<CheckRecord>::empty());
        assert(strings_view(attribution_required@) =~= Seq::<Seq<char>>::empty());
        while i < checks.len()
            invariant
                cv == checks_view(checks@),
                i <= cv.len(),
                entries_view(entries@) == report_entries(cv.take(i as int)),
                compatible == count_kind(cv.take(i as int), 0),
                incompatible == count_kind(cv.take(i as int), 1),
                unknown == count_kind(cv.take(i as int), 2),
                strings_view(attribution_required@) == attribution_names(cv.take(i as int)),
            decreases checks.len() - i,
        {
            let check = &checks[i];
            assert(cv.take(i + 1).drop_last() =~= cv.take(i as int));
            assert(cv.take(i + 1).last() == check@);
            proof {
                lemma_count_bounded(cv.take(i as int), 0);
                lemma_count_bounded(cv.take(i as int), 1);
                lemma_count_bounded(cv.take(i as int), 2);
            }
            match &check.status {
                CompatibilityStatus::Compatible => compatible = compatible + 1,
                CompatibilityStatus::Incompatible { .. } => incompatible = incompatible + 1,
                CompatibilityStatus::Unknown => unknown = unknown + 1,
            }
            if check.requires_attribution {
                attribution_required.push(copy_string(&check.dep.name));
                assert(strings_view(attribution_required@) =~= attribution_names(cv.take(i + 1)));
            }
            let ghost old_entries = entries@;
            let e = Self::entry_for(check);
            entries.push(e);
            assert(entries@ == old_entries.push(e));
            assert(entries_view(entries@) =~= entries_view(old_entries).push(report_entry(check@)));
            assert(report_entries(cv.take(i + 1)) =~= report_entries(cv.take(i as int)).push(report_entry(check@)));
            i = i + 1;
        }
        assert(cv.take(i as int) =~= cv);
        ComplianceReport {
            project_license: String::from_str(project_license),
            entries,
            summary: ReportSummary {
                total_dependencies: checks.len(),
                compatible,
                incompatible,
                unknown,
                attribution_required,
            },
        }
    }
}


proof fn lemma_counts_are_filters(cs: Seq<CheckRecord>)
    ensures
        count_kind(cs, 0) == cs.filter(|c: CheckRecord| c.status is Compatible).len(),
        count_kind(cs, 1) == cs.filter(|c: CheckRecord| c.status is Incompatible).len(),
        count_kind(cs, 2) == cs.filter(|c: CheckRecord| c.status is Unknown).len(),
        attribution_names(cs)
            == cs.filter(|c: CheckRecord| c.requires_attribution).map_values(|c: CheckRecord| c.dep.name),
    decreases cs.len(),
{
    reveal(Seq::filter);
    if cs.len() > 0 {
        lemma_counts_are_filters(cs.drop_last());
        let f = cs.drop_last().filter(|c: CheckRecord| c.requires_attribution);
        assert(f.push(cs.last()).map_values(|c: CheckRecord| c.dep.name)
            =~= f.map_values(|c: CheckRecord| c.dep.name).push(cs.last().dep.name));
    } else {
        assert(cs.filter(|c: CheckRecord| c.requires_attribution).map_values(|c: CheckRecord| c.dep.name)
            =~= Seq::<Seq<char>>::empty());
    }
}

/// The summary of a report counts the dependencies by outcome: the compatible ones,
/// the incompatible ones and the unknown ones; and it names, in order, those that
/// require attribution.
pub proof fn law_summary_counts_outcomes(project: Seq<char>, cs: Seq<CheckRecord>)
    ensures
        compliance_report(project, cs).summary.compatible
            == cs.filter(|c: CheckRecord| c.status is Compatible).len(),
        compliance_report(project, cs).summary.incompatible
            == cs.filter(|c: CheckRecord| c.status is Incompatible).len(),
        compliance_report(project, cs).summary.unknown
            == cs.filter(|c: CheckRecord| c.status is Unknown).len(),
        compliance_report(project, cs).summary.attribution_required
            == cs.filter(|c: CheckRecord| c.requires_attribution).map_values(|c: CheckRecord| c.dep.name),
{
    lemma_counts_are_filters(cs);
}

/// Each entry of a report describes its check, in the order of the checks: the
/// dependency's name and version, its license expression (`Unknown` when it has
/// none), its outcome, the label of its license type (`Unknown` when it has none),
/// whether it requires attribution, and its notes.
pub proof fn law_report_entries_describe_their_checks(project: Seq<char>, cs: Seq<CheckRecord>)
    ensures
        compliance_report(project, cs).entries.len() == cs.len(),
        forall|k: int| 0 <= k < cs.len() ==> {
            let e = #[trigger] compliance_report(project, cs).entries[k];
            &&& e.name == cs[k].dep.name
            &&& e.version == cs[k].dep.version
            &&& e.license == match cs[k].dep.license_expression {
                Some(x) => x,
                None => "Unknown"@,
            }
            &&& e.compatibility == match cs[k].status {
                StatusTerm::Compatible => "✅ Compatible"@,
                StatusTerm::Incompatible(reason) => "❌ Incompatible: "@ + reason,
                StatusTerm::Unknown => "⚠️ Unknown"@,
            }
            &&& e.license_type == match cs[k].license_type {
                Some(t) => t.spec_label(),
                None => "Unknown"@,
            }
            &&& e.requires_attribution == cs[k].requires_attribution
            &&& e.notes == cs[k].notes
        },
{
}

/// The block of count lines at the head of a report's summary.
pub open spec fn count_lines(s: SummaryRecord) -> Seq<char> {
    "\nSummary:\n"@
        + ("  Total dependencies:  "@ + decimal(s.total_dependencies) + "\n"@)
        + ("  Compatible:          "@ + decimal(s.compatible) + " ✅\n"@)
        + ("  Incompatible:        "@ + decimal(s.incompatible) + " ❌\n"@)
        + ("  Unknown:             "@ + decimal(s.unknown) + " ⚠️\n"@)
}

/// The lines that close a report: nothing when no dependency requires attribution,
/// else a heading and one line per such dependency.
pub open spec fn attribution_block(names: Seq<Seq<char>>) -> Seq<char> {
    if names.len() == 0 {
        Seq::empty()
    } else {
        "\nAttribution Required:\n"@ + attribution_lines(names)
    }
}

proof fn lemma_occurs_between(x: Seq<char>, p: Seq<char>, y: Seq<char>)
    ensures
        contains_text(x + p + y, p),
{
    assert((x + p + y).subrange(x.len() as int, x.len() + p.len() as int) =~= p);
    assert(occurs_at(x + p + y, p, x.len() as int));
}

proof fn lemma_starts_and_ends(x: Seq<char>, y: Seq<char>)
    ensures
        starts_with(x + y, x),
        ends_with(x + y, y),
{
    assert((x + y).subrange(0, x.len() as int) =~= x);
    assert((x + y).subrange(x.len() as int, (x + y).len() as int) =~= y);
}

proof fn lemma_lines_occur(
    head: Seq<char>,
    c0: Seq<char>,
    l1: Seq<char>,
    l2: Seq<char>,
    l3: Seq<char>,
    l4: Seq<char>,
    ab: Seq<char>,
)
    ensures
        contains_text(head + (c0 + l1 + l2 + l3 + l4 + ab), l1),
        contains_text(head + (c0 + l1 + l2 + l3 + l4 + ab), l2),
        contains_text(head + (c0 + l1 + l2 + l3 + l4 + ab), l3),
        contains_text(head + (c0 + l1 + l2 + l3 + l4 + ab), l4),
{
    let t = head + (c0 + l1 + l2 + l3 + l4 + ab);
    assert(t =~= (head + c0) + l1 + (l2 + l3 + l4 + ab));
    lemma_occurs_between(head + c0, l1, l2 + l3 + l4 + ab);
    assert(t =~= (head + c0 + l1) + l2 + (l3 + l4 + ab));
    lemma_occurs_between(head + c0 + l1, l2, l3 + l4 + ab);
    assert(t =~= (head + c0 + l1 + l2) + l3 + (l4 + ab));
    lemma_occurs_between(head + c0 + l1 + l2, l3, l4 + ab);
    assert(t =~= (head + c0 + l1 + l2 + l3) + l4 + ab);
    lemma_occurs_between(head + c0 + l1 + l2 + l3, l4, ab);
}

proof fn lemma_summary_text_parts(s: SummaryRecord)
    ensures
        summary_text(s) == count_lines(s) + attribution_block(s.attribution_required),
{
    reveal_strlit("\n");
    reveal_strlit("Summary:\n");
    reveal_strlit("\nSummary:\n");
    assert(summary_text(s) =~= count_lines(s) + attribution_block(s.attribution_required));
}

/// The text report opens with its title and the project's license, and closes with
/// its summary: the total, compatible, incompatible and unknown counts, each on its
/// own labelled line, followed by the dependencies that require attribution. Each
/// of the four count lines occurs in the report.
pub proof fn law_report_text_shows_summary(r: ReportRecord)
    ensures
        starts_with(
            report_text(r),
            "License Compliance Report\n========================\nProject License: "@ + r.project_license + "\n\n"@,
        ),
        ends_with(report_text(r), count_lines(r.summary) + attribution_block(r.summary.attribution_required)),
        contains_text(report_text(r), "  Total dependencies:  "@ + decimal(r.summary.total_dependencies) + "\n"@),
        contains_text(report_text(r), "  Compatible:          "@ + decimal(r.summary.compatible) + " ✅\n"@),
        contains_text(report_text(r), "  Incompatible:        "@ + decimal(r.summary.incompatible) + " ❌\n"@),
        contains_text(report_text(r), "  Unknown:             "@ + decimal(r.summary.unknown) + " ⚠️\n"@),
{
    let s = r.summary;
    let head = report_header(r.project_license) + entries_text(r.entries);
    let ab = attribution_block(s.attribution_required);
    lemma_summary_text_parts(s);
    assert(report_text(r) == head + (count_lines(s) + ab));
    lemma_starts_and_ends(head, count_lines(s) + ab);
    lemma_lines_occur(
        head,
        "\nSummary:\n"@,
        "  Total dependencies:  "@ + decimal(s.total_dependencies) + "\n"@,
        "  Compatible:          "@ + decimal(s.compatible) + " ✅\n"@,
        "  Incompatible:        "@ + decimal(s.incompatible) + " ❌\n"@,
        "  Unknown:             "@ + decimal(s.unknown) + " ⚠️\n"@,
        ab,
    );
    lemma_report_starts_with_title(r.project_license, entries_text(r.entries) + (count_lines(s) + ab));
    assert(report_text(r) =~= report_header(r.project_license) + (entries_text(r.entries) + (count_lines(s) + ab)));
}

proof fn lemma_report_starts_with_title(project: Seq<char>, rest: Seq<char>)
    ensures
        starts_with(
            report_header(project) + rest,
            "License Compliance Report\n========================\nProject License: "@ + project + "\n\n"@,
        ),
{
    let h = "License Compliance Report\n========================\nProject License: "@ + project + "\n\n"@;
    let more = "Dependencies:\n"@ + table_row("CRATE"@, "VERSION"@, "LICENSE"@, "TYPE"@, "STATUS"@)
        + dashes(110) + "\n"@;
    assert(report_header(project) + rest =~= h + (more + rest));
    lemma_starts_and_ends(h, more + rest);
}


proof fn lemma_contains_within(a: Seq<char>, x: Seq<char>, b: Seq<char>, p: Seq<char>)
    requires
        contains_text(x, p),
    ensures
        contains_text(a + x + b, p),
{
    let i = choose|i: int| 0 <= i <= x.len() - p.len() && #[trigger] occurs_at(x, p, i);
    assert((a + x + b).subrange(a.len() + i, a.len() + i + p.len()) =~= x.subrange(i, i + p.len()));
    assert(occurs_at(a + x + b, p, a.len() + i));
}

proof fn lemma_note_lines_contain(notes: Seq<Seq<char>>, j: int)
    requires
        0 <= j < notes.len(),
    ensures
        contains_text(note_lines(notes), "  → "@ + notes[j] + "\n"@),
    decreases notes.len(),
{
    let pre = note_lines(notes.drop_last());
    let line = "  → "@ + notes.last() + "\n"@;
    if j == notes.len() - 1 {
        assert(note_lines(notes) =~= pre + line + Seq::<char>::empty());
        lemma_occurs_between(pre, line, Seq::<char>::empty());
    } else {
        lemma_note_lines_contain(notes.drop_last(), j);
        assert(note_lines(notes) =~= Seq::<char>::empty() + pre + line);
        lemma_contains_within(Seq::<char>::empty(), pre, line, "  → "@ + notes[j] + "\n"@);
    }
}

proof fn lemma_attribution_lines_contain(names: Seq<Seq<char>>, j: int)
    requires
        0 <= j < names.len(),
    ensures
        contains_text(attribution_lines(names), "  • "@ + names[j] + "\n"@),
    decreases names.len(),
{
    let pre = attribution_lines(names.drop_last());
    let line = "  • "@ + names.last() + "\n"@;
    if j == names.len() - 1 {
        assert(attribution_lines(names) =~= pre + line + Seq::<char>::empty());
        lemma_occurs_between(pre, line, Seq::<char>::empty());
    } else {
        lemma_attribution_lines_contain(names.drop_last(), j);
        assert(attribution_lines(names) =~= Seq::<char>::empty() + pre + line);
        lemma_contains_within(Seq::<char>::empty(), pre, line, "  • "@ + names[j] + "\n"@);
    }
}

proof fn lemma_entries_text_contain_notes(es: Seq<EntryRecord>, k: int, j: int)
    requires
        0 <= k < es.len(),
        0 <= j < es[k].notes.len(),
    ensures
        contains_text(entries_text(es), "  → "@ + es[k].notes[j] + "\n"@),
    decreases es.len(),
{
    let p = "  → "@ + es[k].notes[j] + "\n"@;
    let pre = entries_text(es.drop_last());
    let e = es.last();
    let row = table_row(
        truncated(e.name, 30),
        truncated(e.version, 12),
        truncated(e.license, 35),
        truncated(e.license_type, 15),
        truncated(e.compatibility, 30),
    );
    if k == es.len() - 1 {
        lemma_note_lines_contain(e.notes, j);
        assert(entries_text(es) =~= (pre + row) + note_lines(e.notes) + Seq::<char>::empty());
        lemma_contains_within(pre + row, note_lines(e.notes), Seq::<char>::empty(), p);
    } else {
        lemma_entries_text_contain_notes(es.drop_last(), k, j);
        assert(entries_text(es) =~= Seq::<char>::empty() + pre + entry_text(e));
        lemma_contains_within(Seq::<char>::empty(), pre, entry_text(e), p);
    }
}

/// The text report shows every note of every entry on a `  → ` line, and names every
/// dependency that requires attribution on a `  • ` line.
pub proof fn law_report_text_shows_notes_and_attributions(r: ReportRecord)
    ensures
        forall|k: int, j: int| 0 <= k < r.entries.len() && 0 <= j < r.entries[k].notes.len()
            ==> contains_text(report_text(r), "  → "@ + #[trigger] r.entries[k].notes[j] + "\n"@),
        forall|i: int| 0 <= i < r.summary.attribution_required.len()
            ==> contains_text(report_text(r), "  • "@ + #[trigger] r.summary.attribution_required[i] + "\n"@),
{
    let s = r.summary;
    let h = report_header(r.project_license);
    let et = entries_text(r.entries);
    let ab = attribution_block(s.attribution_required);
    lemma_summary_text_parts(s);
    assert(report_text(r) == h + et + (count_lines(s) + ab));
    assert forall|k: int, j: int| 0 <= k < r.entries.len() && 0 <= j < r.entries[k].notes.len()
        implies contains_text(report_text(r), "  → "@ + #[trigger] r.entries[k].notes[j] + "\n"@) by {
        lemma_entries_text_contain_notes(r.entries, k, j);
        lemma_contains_within(h, et, count_lines(s) + ab, "  → "@ + r.entries[k].notes[j] + "\n"@);
    }
    assert forall|i: int| 0 <= i < s.attribution_required.len()
        implies contains_text(report_text(r), "  • "@ + #[trigger] s.attribution_required[i] + "\n"@) by {
        let names = s.attribution_required;
        let p = "  • "@ + names[i] + "\n"@;
        lemma_attribution_lines_contain(names, i);
        let pre = h + et + count_lines(s) + "\nAttribution Required:\n"@;
        assert(report_text(r) =~= pre + attribution_lines(names) + Seq::<char>::empty());
        lemma_contains_within(pre, attribution_lines(names), Seq::<char>::empty(), p);
    }
}


proof fn lemma_entries_text_contain_entry(es: Seq<EntryRecord>, k: int)
    requires
        0 <= k < es.len(),
    ensures
        contains_text(entries_text(es), entry_text(es[k])),
    decreases es.len(),
{
    let pre = entries_text(es.drop_last());
    let e = es.last();
    if k == es.len() - 1 {
        lemma_occurs_between(pre, entry_text(e), Seq::<char>::empty());
        assert(entries_text(es) =~= pre + entry_text(e) + Seq::<char>::empty());
    } else {
        lemma_entries_text_contain_entry(es.drop_last(), k);
        assert(entries_text(es) =~= Seq::<char>::empty() + pre + entry_text(e));
        lemma_contains_within(Seq::<char>::empty(), pre, entry_text(e), entry_text(es[k]));
    }
}

/// The text report shows a row for every entry: its name, version, license and
/// license type, each cut to its column's width and padded with spaces to it, then
/// its status, separated by single spaces.
pub proof fn law_report_text_shows_every_entry(r: ReportRecord)
    ensures
        forall|k: int| 0 <= k < r.entries.len() ==> contains_text(
            report_text(r),
            pad(truncated((#[trigger] r.entries[k]).name, 30), 30) + " "@
                + pad(truncated(r.entries[k].version, 12), 12) + " "@
                + pad(truncated(r.entries[k].license, 35), 35) + " "@
                + pad(truncated(r.entries[k].license_type, 15), 15) + " "@
                + truncated(r.entries[k].compatibility, 30) + "\n"@,
        ),
{
    let s = r.summary;
    let h = report_header(r.project_license);
    let et = entries_text(r.entries);
    let ab = attribution_block(s.attribution_required);
    lemma_summary_text_parts(s);
    assert(report_text(r) == h + et + (count_lines(s) + ab));
    assert forall|k: int| 0 <= k < r.entries.len() implies contains_text(
        report_text(r),
        pad(truncated((#[trigger] r.entries[k]).name, 30), 30) + " "@
            + pad(truncated(r.entries[k].version, 12), 12) + " "@
            + pad(truncated(r.entries[k].license, 35), 35) + " "@
            + pad(truncated(r.entries[k].license_type, 15), 15) + " "@
            + truncated(r.entries[k].compatibility, 30) + "\n"@,
    ) by {
        let e = r.entries[k];
        let row = pad(truncated(e.name, 30), 30) + " "@ + pad(truncated(e.version, 12), 12) + " "@
            + pad(truncated(e.license, 35), 35) + " "@ + pad(truncated(e.license_type, 15), 15) + " "@
            + truncated(e.compatibility, 30) + "\n"@;
        lemma_occurs_between(Seq::<char>::empty(), row, note_lines(e.notes));
        assert(entry_text(e) =~= Seq::<char>::empty() + row + note_lines(e.notes));
        lemma_entries_text_contain_entry(r.entries, k);
        let i = choose|i: int| 0 <= i <= et.len() - entry_text(e).len() && #[trigger] occurs_at(et, entry_text(e), i);
        let x = et.subrange(i, i + entry_text(e).len());
        assert(et =~= et.subrange(0, i) + x + et.subrange(i + entry_text(e).len(), et.len() as int));
        lemma_contains_within(et.subrange(0, i), entry_text(e), et.subrange(i + entry_text(e).len(), et.len() as int), row);
        lemma_contains_within(h, et, count_lines(s) + ab, row);
    }
}

/// Padding to a width keeps the text and fills with spaces up to the width: the
/// result is as long as the text or the width, whichever is more.
pub proof fn law_pad_fills_with_spaces(s: Seq<char>, width: int)
    ensures
        pad(s, width).len() == if s.len() >= width { s.len() as int } else { width },
        pad(s, width).subrange(0, s.len() as int) == s,
        forall|i: int| s.len() <= i < pad(s, width).len() ==> #[trigger] pad(s, width)[i] == ' ',
{
    assert(pad(s, width).subrange(0, s.len() as int) =~= s);
}


/// Cutting text that fits leaves it unchanged; cutting text that does not fit, at a
/// place between characters, keeps exactly its first `max - 1` bytes and adds `…`.
pub proof fn law_truncated_keeps_a_prefix(s: Seq<char>, max: int)
    requires
        can_truncate(s, max),
    ensures
        utf8_len(s) <= max ==> truncated(s, max) == s,
        utf8_len(s) > max ==> exists|k: int|
            0 <= k <= s.len() && utf8_len(#[trigger] s.take(k)) == max - 1 && truncated(s, max)
                == s.take(k).push('…'),
{
    if utf8_len(s) > max {
        let k = chars_in_bytes(s, max - 1) as int;
        lemma_chars_in_bytes_all(s, max - 1);
        assert(utf8_len(s.take(k)) == max - 1);
    }
}

} // verus!
