//! The HTML report: one file, with its styles inside.

use vstd::prelude::*;

use crate::analysis::AnalysisResult;
use crate::error::CoreError;
use crate::model::access::{AceKind, EffectivePermission, LocalGroupEvalStatus, ShareEvalStatus};
use crate::model::diagnostic::{DiagnosticSeverity, PermissionDiagnostic};
use crate::model::rights;
use crate::model::rights::{rights_of, NormalizedRights, RightsTable};
use crate::model::scan::{RiskFinding, RiskSeverity};
use crate::model::trustee::{PathTrustee, PathTrusteeEntry, PathTrustees, TrusteeCategory};
use crate::text;

verus! {

/// How a character stands in the text of a page.
pub open spec fn escaped_char(c: char) -> Seq<char> {
    if c == '&' {
        "&amp;"@
    } else if c == '<' {
        "&lt;"@
    } else if c == '>' {
        "&gt;"@
    } else if c == '"' {
        "&quot;"@
    } else {
        seq![c]
    }
}

/// A text as it stands in a page.
pub open spec fn escaped(s: Seq<char>) -> Seq<char>
    decreases s.len(),
{
    if s.len() == 0 {
        Seq::empty()
    } else {
        escaped(s.drop_last()) + escaped_char(s.last())
    }
}

/// Escapes a text for a page.
pub fn escape_html(s: &str) -> (r: String)
    ensures
        r@ == escaped(s@),
{
    let chars: Vec<char> = text::chars_of(s);
    let mut out: String = String::new();
    assert(out@ =~= Seq::empty());
    for i in 0..chars.len()
        invariant
            out@ == escaped(chars@.take(i as int)),
    {
        assert(chars@.take(i + 1).drop_last() =~= chars@.take(i as int));
        let ghost before = out@;
        match chars[i] {
            '&' => out.append("&amp;"),
            '<' => out.append("&lt;"),
            '>' => out.append("&gt;"),
            '"' => out.append("&quot;"),
            c => {
                out.push(c);
                assert(out@ =~= before + seq![c]);
            },
        }
    }
    assert(chars@.take(chars@.len() as int) =~= chars@);
    out
}

/// What was escaped can neither open nor close a tag, nor end an attribute.
pub proof fn law_escaped_text_is_inert(s: Seq<char>)
    ensures
        forall|i: int|
            0 <= i < escaped(s).len() ==> {
                let c = #[trigger] escaped(s)[i];
                c != '<' && c != '>' && c != '"'
            },
    decreases s.len(),
{
    if s.len() > 0 {
        let init = escaped(s.drop_last());
        let tail = escaped_char(s.last());
        law_escaped_text_is_inert(s.drop_last());
        reveal_strlit("&amp;");
        reveal_strlit("&lt;");
        reveal_strlit("&gt;");
        reveal_strlit("&quot;");
        assert forall|i: int| 0 <= i < escaped(s).len() implies {
            let c = #[trigger] escaped(s)[i];
            c != '<' && c != '>' && c != '"'
        } by {
            if i < init.len() {
                assert(escaped(s)[i] == init[i]);
            } else {
                assert(escaped(s)[i] == tail[i - init.len()]);
            }
        }
    }
}

/// A text without special characters stands as it is.
pub proof fn law_plain_text_is_kept(s: Seq<char>)
    requires
        forall|i: int|
            0 <= i < s.len() ==> {
                let c = #[trigger] s[i];
                c != '&' && c != '<' && c != '>' && c != '"'
            },
    ensures
        escaped(s) == s,
    decreases s.len(),
{
    if s.len() > 0 {
        assert forall|i: int| 0 <= i < s.drop_last().len() implies {
            let c = #[trigger] s.drop_last()[i];
            c != '&' && c != '<' && c != '>' && c != '"'
        } by {
            assert(s.drop_last()[i] == s[i]);
        }
        law_plain_text_is_kept(s.drop_last());
        assert(s[s.len() - 1] == s.last());
        assert(s.drop_last() + seq![s.last()] =~= s);
    }
}

/// The top of the page, up to the line with the time.
pub const HTML_HEAD: &'static str = "<!DOCTYPE html>
<html lang=\"en\">
<head>
<meta charset=\"UTF-8\">
<meta name=\"viewport\" content=\"width=device-width, initial-scale=1.0\">
<title>Stars — AD Permission Analyzer Report</title>
<style>
*{box-sizing:border-box;margin:0;padding:0}
body{font-family:Arial,Helvetica,sans-serif;font-size:14px;background:#1a1a2e;color:#e0e0e0;padding:20px}
h1{font-size:22px;font-weight:600;color:#ffa726;margin-bottom:4px}
h2{font-size:16px;font-weight:600;color:#ffcc80;margin:20px 0 8px}
.subtitle{color:#888;font-size:12px;margin-bottom:20px}
.summary{display:flex;gap:12px;flex-wrap:wrap;margin-bottom:20px}
.card{background:#0d1b2a;border:1px solid #263248;border-radius:6px;padding:12px 18px;min-width:120px;text-align:center}
.card .num{font-size:28px;font-weight:700;line-height:1}
.card .lbl{font-size:11px;color:#888;margin-top:4px}
.critical .num{color:#F05252}
.high .num{color:#FB7335}
.medium .num{color:#F5A623}
.low .num{color:#34C759}
.info-card .num{color:#4DA3FF}
table{width:100%;border-collapse:collapse;background:#0d1b2a;border-radius:6px;overflow:hidden;margin-bottom:20px}
th{background:#263248;padding:8px 10px;text-align:left;font-size:12px;color:#ffcc80;font-weight:600}
td{padding:7px 10px;border-bottom:1px solid #1a2840;font-size:12px;vertical-align:top;word-break:break-word}
tr:last-child td{border-bottom:none}
tr:hover td{background:#111d2e}
.badge{display:inline-block;padding:2px 7px;border-radius:10px;font-size:11px;font-weight:600}
.badge-critical{background:#DC2626;color:#fff}
.badge-high{background:#EA580C;color:#fff}
.badge-medium{background:#D97706;color:#fff}
.badge-low{background:#16A34A;color:#fff}
.badge-neutral{background:#475569;color:#fff}
.badge-correct{background:#0067C0;color:#fff}
.badge-fc{background:#DC2626;color:#fff}
.badge-modify{background:#EA580C;color:#fff}
.badge-read{background:#16A34A;color:#fff}
.badge-write{background:#D97706;color:#fff}
.badge-special{background:#37474F;color:#fff}
.badge-none{background:#212121;color:#888}
.path{font-family:'Cascadia Code','Consolas',monospace;font-size:11px;color:#80cbc4}
.sid{font-family:monospace;font-size:11px;color:#b0bec5}
details summary{cursor:pointer;color:#64b5f6;font-size:11px}
details[open] summary{margin-bottom:4px}
.step{padding:2px 0;color:#cfd8dc;font-size:11px}
</style>
</head>
<body>
<h1>Stars — AD Permission Analyzer</h1>
";

/// The top of the page.
pub open spec fn head_text(timestamp: Seq<char>) -> Seq<char> {
    HTML_HEAD@ + "<p class=\"subtitle\">Report generated: "@ + timestamp + "</p>\n"@
}

/// A card of the summary.
pub open spec fn card_text(n: nat, label: Seq<char>, class: Seq<char>) -> Seq<char> {
    "<div class=\"card "@ + class + "\"><div class=\"num\">"@ + text::decimal(n)
        + "</div><div class=\"lbl\">"@ + label + "</div></div>\n"@
}

/// Makes a card of the summary.
fn card(n: usize, label: &str, class: &str) -> (r: String)
    ensures
        r@ == card_text(n as nat, label@, class@),
{
    "<div class=\"card ".to_owned().concat(class).concat("\"><div class=\"num\">").concat(
        text::decimal_text(n as u64).as_str(),
    ).concat("</div><div class=\"lbl\">").concat(label).concat("</div></div>\n")
}

/// Whether something about the evaluation of a permission deserves a look.
pub open spec fn is_flagged(p: EffectivePermission) -> bool {
    ||| p.unsupported_ace_count > 0
    ||| p.share_status is ReadFailed
    ||| p.local_group_status is NotAvailable
    ||| p.diagnostics@.len() > 0
}

/// Decides whether something about the evaluation of a permission deserves a look.
pub fn has_diagnostics(p: &EffectivePermission) -> (r: bool)
    ensures
        r == is_flagged(*p),
{
    let unreadable: bool = match &p.share_status {
        ShareEvalStatus::ReadFailed(_) => true,
        _ => false,
    };
    let unavailable: bool = match &p.local_group_status {
        LocalGroupEvalStatus::NotAvailable(_) => true,
        _ => false,
    };
    p.unsupported_ace_count > 0 || unreadable || unavailable || p.diagnostics.len() > 0
}

/// Number of findings of a severity.
pub open spec fn count_severity(findings: Seq<RiskFinding>, severity: RiskSeverity) -> nat
    decreases findings.len(),
{
    if findings.len() == 0 {
        0
    } else {
        count_severity(findings.drop_last(), severity) + (if findings.last().severity == severity {
            1nat
        } else {
            0
        })
    }
}

/// Counts the findings of a severity.
fn count_of(findings: &[RiskFinding], severity: RiskSeverity) -> (r: usize)
    ensures
        r == count_severity(findings@, severity),
{
    let mut n: usize = 0;
    for i in 0..findings.len()
        invariant
            n == count_severity(findings@.take(i as int), severity),
            n <= i,
    {
        assert(findings@.take(i + 1).drop_last() =~= findings@.take(i as int));
        if findings[i].severity == severity {
            n = n + 1;
        }
    }
    assert(findings@.take(findings@.len() as int) =~= findings@);
    n
}

/// Number of permissions that deserve a look.
pub open spec fn count_flagged(permissions: Seq<EffectivePermission>) -> nat
    decreases permissions.len(),
{
    if permissions.len() == 0 {
        0
    } else {
        count_flagged(permissions.drop_last()) + (if is_flagged(permissions.last()) {
            1nat
        } else {
            0
        })
    }
}

/// Counts the permissions that deserve a look.
fn flagged_of(permissions: &[EffectivePermission]) -> (r: usize)
    ensures
        r == count_flagged(permissions@),
{
    let mut n: usize = 0;
    for i in 0..permissions.len()
        invariant
            n == count_flagged(permissions@.take(i as int)),
            n <= i,
    {
        assert(permissions@.take(i + 1).drop_last() =~= permissions@.take(i as int));
        if has_diagnostics(&permissions[i]) {
            n = n + 1;
        }
    }
    assert(permissions@.take(permissions@.len() as int) =~= permissions@);
    n
}

/// The summary of a report.
pub open spec fn summary_text(
    permissions: Seq<EffectivePermission>,
    findings: Seq<RiskFinding>,
) -> Seq<char> {
    "<h2>Summary</h2>\n<div class=\"summary\">\n"@ + card_text(
        permissions.len(),
        "Paths analyzed"@,
        "info-card"@,
    ) + card_text(findings.len(), "Risk findings"@, "high"@) + card_text(
        count_severity(findings, RiskSeverity::Critical),
        "Critical"@,
        "critical"@,
    ) + card_text(count_severity(findings, RiskSeverity::High), "High"@, "high"@) + card_text(
        count_severity(findings, RiskSeverity::Medium),
        "Medium"@,
        "medium"@,
    ) + card_text(count_flagged(permissions), "Diagnostics"@, "medium"@) + "</div>\n"@
}

/// The findings of a severity are counted: the number is that of the findings which have it.
pub proof fn law_severities_are_counted(findings: Seq<RiskFinding>, severity: RiskSeverity)
    ensures
        count_severity(findings, severity) == findings.filter(
            |f: RiskFinding| f.severity == severity,
        ).len(),
    decreases findings.len(),
{
    reveal(Seq::filter);
    if findings.len() > 0 {
        law_severities_are_counted(findings.drop_last(), severity);
    }
}

/// The permissions that deserve a look are counted: those with entries that were not
/// understood, with a share that could not be read, without local groups, or with a marker.
pub proof fn law_flagged_permissions_are_counted(permissions: Seq<EffectivePermission>)
    ensures
        count_flagged(permissions) == permissions.filter(
            |p: EffectivePermission|
                p.unsupported_ace_count > 0 || p.share_status is ReadFailed || p.local_group_status
                    is NotAvailable || p.diagnostics@.len() > 0,
        ).len(),
    decreases permissions.len(),
{
    reveal(Seq::filter);
    if permissions.len() > 0 {
        law_flagged_permissions_are_counted(permissions.drop_last());
    }
}

/// Whether a card of the summary shows the number `n` over the label.
pub open spec fn shows_number(s: Seq<char>, n: nat, label: Seq<char>) -> bool {
    text::occurs_in(
        ">"@ + text::decimal(n) + "</div><div class=\"lbl\">"@ + label + "</div>"@,
        s,
    )
}

/// A card shows its number over its label.
proof fn lemma_card_shows(n: nat, label: Seq<char>, class: Seq<char>, a: Seq<char>, b: Seq<char>)
    ensures
        shows_number(a + card_text(n, label, class) + b, n, label),
{
    reveal_strlit("\"><div class=\"num\">");
    reveal_strlit("\"><div class=\"num\"");
    reveal_strlit(">");
    reveal_strlit("</div></div>\n");
    reveal_strlit("</div>");
    reveal_strlit("</div>\n");
    let part = ">"@ + text::decimal(n) + "</div><div class=\"lbl\">"@ + label + "</div>"@;
    let front = a + "<div class=\"card "@ + class + "\"><div class=\"num\""@;
    let back = "</div>\n"@ + b;
    text::lemma_part_occurs(front, part, back);
    assert("\"><div class=\"num\">"@ =~= "\"><div class=\"num\""@ + ">"@);
    assert("</div></div>\n"@ =~= "</div>"@ + "</div>\n"@);
    assert(a + card_text(n, label, class) + b =~= front + part + back);
}

/// The summary shows what it counts: over each label stands the number of the paths, of the
/// findings, of the findings of a severity, and of the permissions that deserve a look.
pub proof fn law_summary_shows_the_numbers(
    permissions: Seq<EffectivePermission>,
    findings: Seq<RiskFinding>,
)
    ensures
        ({
            let s = summary_text(permissions, findings);
            &&& shows_number(s, permissions.len(), "Paths analyzed"@)
            &&& shows_number(s, findings.len(), "Risk findings"@)
            &&& shows_number(
                s,
                findings.filter(|f: RiskFinding| f.severity == RiskSeverity::Critical).len(),
                "Critical"@,
            )
            &&& shows_number(
                s,
                findings.filter(|f: RiskFinding| f.severity == RiskSeverity::High).len(),
                "High"@,
            )
            &&& shows_number(
                s,
                findings.filter(|f: RiskFinding| f.severity == RiskSeverity::Medium).len(),
                "Medium"@,
            )
            &&& shows_number(s, count_flagged(permissions), "Diagnostics"@)
        }),
{
    law_severities_are_counted(findings, RiskSeverity::Critical);
    law_severities_are_counted(findings, RiskSeverity::High);
    law_severities_are_counted(findings, RiskSeverity::Medium);
    let s = summary_text(permissions, findings);
    let start = "<h2>Summary</h2>\n<div class=\"summary\">\n"@;
    let c1 = card_text(permissions.len(), "Paths analyzed"@, "info-card"@);
    let c2 = card_text(findings.len(), "Risk findings"@, "high"@);
    let critical = count_severity(findings, RiskSeverity::Critical);
    let c3 = card_text(critical, "Critical"@, "critical"@);
    let high = count_severity(findings, RiskSeverity::High);
    let c4 = card_text(high, "High"@, "high"@);
    let medium = count_severity(findings, RiskSeverity::Medium);
    let c5 = card_text(medium, "Medium"@, "medium"@);
    let c6 = card_text(count_flagged(permissions), "Diagnostics"@, "medium"@);
    let end = "</div>\n"@;
    lemma_card_shows(
        permissions.len(),
        "Paths analyzed"@,
        "info-card"@,
        start,
        c2 + c3 + c4 + c5 + c6 + end,
    );
    assert(s =~= start + c1 + (c2 + c3 + c4 + c5 + c6 + end));
    lemma_card_shows(
        findings.len(),
        "Risk findings"@,
        "high"@,
        start + c1,
        c3 + c4 + c5 + c6 + end,
    );
    assert(s =~= start + c1 + c2 + (c3 + c4 + c5 + c6 + end));
    lemma_card_shows(
        critical,
        "Critical"@,
        "critical"@,
        start + c1 + c2,
        c4 + c5 + c6 + end,
    );
    assert(s =~= start + c1 + c2 + c3 + (c4 + c5 + c6 + end));
    lemma_card_shows(high, "High"@, "high"@, start + c1 + c2 + c3, c5 + c6 + end);
    assert(s =~= start + c1 + c2 + c3 + c4 + (c5 + c6 + end));
    lemma_card_shows(medium, "Medium"@, "medium"@, start + c1 + c2 + c3 + c4, c6 + end);
    assert(s =~= start + c1 + c2 + c3 + c4 + c5 + (c6 + end));
    lemma_card_shows(
        count_flagged(permissions),
        "Diagnostics"@,
        "medium"@,
        start + c1 + c2 + c3 + c4 + c5,
        end,
    );
}

/// Makes the summary of a report.
fn summary(permissions: &[EffectivePermission], findings: &[RiskFinding]) -> (r: String)
    ensures
        r@ == summary_text(permissions@, findings@),
{
    let mut s: String = "<h2>Summary</h2>\n<div class=\"summary\">\n".to_owned();
    s.append(card(permissions.len(), "Paths analyzed", "info-card").as_str());
    s.append(card(findings.len(), "Risk findings", "high").as_str());
    s.append(card(count_of(findings, RiskSeverity::Critical), "Critical", "critical").as_str());
    s.append(card(count_of(findings, RiskSeverity::High), "High", "high").as_str());
    s.append(card(count_of(findings, RiskSeverity::Medium), "Medium", "medium").as_str());
    s.append(card(flagged_of(permissions), "Diagnostics", "medium").as_str());
    s.append("</div>\n");
    s
}

/// A badge.
pub open spec fn badge_text(class: Seq<char>, label: Seq<char>) -> Seq<char> {
    "<span class=\"badge "@ + class + "\">"@ + label + "</span>"@
}

/// Makes a badge.
fn badge(class: &str, label: &str) -> (r: String)
    ensures
        r@ == badge_text(class@, label@),
{
    "<span class=\"badge ".to_owned().concat(class).concat("\">").concat(label).concat("</span>")
}

/// The badge of a severity.
pub open spec fn severity_text(s: RiskSeverity) -> Seq<char> {
    match s {
        RiskSeverity::Critical => badge_text("badge-critical"@, "CRITICAL"@),
        RiskSeverity::High => badge_text("badge-high"@, "HIGH"@),
        RiskSeverity::Medium => badge_text("badge-medium"@, "MEDIUM"@),
        RiskSeverity::Low => badge_text("badge-low"@, "LOW"@),
        RiskSeverity::Info => badge_text("badge-neutral"@, "INFO"@),
    }
}

/// Makes the badge of a severity.
fn severity_badge(s: RiskSeverity) -> (r: String)
    ensures
        r@ == severity_text(s),
{
    match s {
        RiskSeverity::Critical => badge("badge-critical", "CRITICAL"),
        RiskSeverity::High => badge("badge-high", "HIGH"),
        RiskSeverity::Medium => badge("badge-medium", "MEDIUM"),
        RiskSeverity::Low => badge("badge-low", "LOW"),
        RiskSeverity::Info => badge("badge-neutral", "INFO"),
    }
}

/// The badge of rights: the strongest of the known combinations.
pub open spec fn rights_text(r: NormalizedRights) -> Seq<char> {
    if r.full_control {
        badge_text("badge-fc"@, "Full Control"@)
    } else if r.modify {
        badge_text("badge-modify"@, "Modify"@)
    } else if r.read && r.write {
        badge_text("badge-write"@, "Read+Write"@)
    } else if r.read {
        badge_text("badge-read"@, "Read"@)
    } else if r.write {
        badge_text("badge-write"@, "Write"@)
    } else if r.raw == 0 {
        badge_text("badge-none"@, "None"@)
    } else {
        badge_text("badge-special"@, "Special"@)
    }
}

/// Makes the badge of rights.
pub fn rights_badge(r: &NormalizedRights) -> (s: String)
    ensures
        s@ == rights_text(*r),
{
    if r.full_control {
        badge("badge-fc", "Full Control")
    } else if r.modify {
        badge("badge-modify", "Modify")
    } else if r.read && r.write {
        badge("badge-write", "Read+Write")
    } else if r.read {
        badge("badge-read", "Read")
    } else if r.write {
        badge("badge-write", "Write")
    } else if r.raw == 0 {
        badge("badge-none", "None")
    } else {
        badge("badge-special", "Special")
    }
}

/// A cell of a table: the attributes of its tag, and what stands in it.
pub struct CellView {
    pub attributes: Seq<char>,
    pub content: Seq<char>,
}

/// A cell without attributes.
pub open spec fn plain_cell(content: Seq<char>) -> CellView {
    CellView { attributes: Seq::empty(), content }
}

/// The cells of a row, from left to right.
pub open spec fn cells_text(cells: Seq<CellView>) -> Seq<char>
    decreases cells.len(),
{
    if cells.len() == 0 {
        Seq::empty()
    } else {
        cells_text(cells.drop_last()) + ("<td"@ + cells.last().attributes + ">"@
            + cells.last().content + "</td>"@)
    }
}

/// A row of a table.
pub open spec fn row_text(attributes: Seq<char>, cells: Seq<CellView>) -> Seq<char> {
    "<tr"@ + attributes + ">"@ + cells_text(cells) + "</tr>\n"@
}

/// The headings of a table, from left to right.
pub open spec fn headings_text(headings: Seq<Seq<char>>) -> Seq<char>
    decreases headings.len(),
{
    if headings.len() == 0 {
        Seq::empty()
    } else {
        headings_text(headings.drop_last()) + ("<th>"@ + headings.last() + "</th>"@)
    }
}

/// The top of a table.
pub open spec fn table_head(headings: Seq<Seq<char>>) -> Seq<char> {
    "<table><thead><tr>"@ + headings_text(headings) + "</tr></thead><tbody>\n"@
}

/// A row keeps its cells in their order: what stands in front stands in front, and each
/// cell stands between tags of its own.
pub proof fn law_row_keeps_the_order_of_its_cells(a: Seq<CellView>, b: Seq<CellView>, c: CellView)
    ensures
        cells_text(a + b) == cells_text(a) + cells_text(b),
        cells_text(seq![c]) == "<td"@ + c.attributes + ">"@ + c.content + "</td>"@,
        cells_text(Seq::empty()) == Seq::<char>::empty(),
    decreases b.len(),
{
    reveal_with_fuel(cells_text, 2);
    assert(seq![c].drop_last() =~= Seq::empty());
    assert(cells_text(seq![c]) =~= "<td"@ + c.attributes + ">"@ + c.content + "</td>"@);
    if b.len() == 0 {
        assert(a + b =~= a);
        assert(cells_text(a) + cells_text(b) =~= cells_text(a));
    } else {
        law_row_keeps_the_order_of_its_cells(a, b.drop_last(), c);
        assert((a + b).drop_last() =~= a + b.drop_last());
        assert((a + b).last() == b.last());
        assert(cells_text(a + b) =~= cells_text(a) + cells_text(b));
    }
}

/// A table keeps its headings in their order, as a row does with its cells.
pub proof fn law_table_keeps_the_order_of_its_headings(
    a: Seq<Seq<char>>,
    b: Seq<Seq<char>>,
    h: Seq<char>,
)
    ensures
        headings_text(a + b) == headings_text(a) + headings_text(b),
        headings_text(seq![h]) == "<th>"@ + h + "</th>"@,
        headings_text(Seq::empty()) == Seq::<char>::empty(),
    decreases b.len(),
{
    reveal_with_fuel(headings_text, 2);
    assert(seq![h].drop_last() =~= Seq::empty());
    assert(headings_text(seq![h]) =~= "<th>"@ + h + "</th>"@);
    if b.len() == 0 {
        assert(a + b =~= a);
        assert(headings_text(a) + headings_text(b) =~= headings_text(a));
    } else {
        law_table_keeps_the_order_of_its_headings(a, b.drop_last(), h);
        assert((a + b).drop_last() =~= a + b.drop_last());
        assert((a + b).last() == b.last());
        assert(headings_text(a + b) =~= headings_text(a) + headings_text(b));
    }
}

/// A row that is being written.
struct RowText {
    text: String,
    attributes: Ghost<Seq<char>>,
    cells: Ghost<Seq<CellView>>,
}

impl RowText {
    /// The text holds the cells so far.
    spec fn wf(self) -> bool {
        self.text@ == "<tr"@ + self.attributes@ + ">"@ + cells_text(self.cells@)
    }

    /// A row without cells.
    fn start(attributes: &str) -> (r: Self)
        ensures
            r.wf(),
            r.attributes@ == attributes@,
            r.cells@ == Seq::<CellView>::empty(),
    {
        let text: String = "<tr".to_owned().concat(attributes).concat(">");
        assert(text@ =~= "<tr"@ + attributes@ + ">"@ + cells_text(Seq::empty()));
        RowText { text, attributes: Ghost(attributes@), cells: Ghost(Seq::empty()) }
    }

    /// Adds a cell with attributes.
    fn cell_with(&mut self, attributes: &str, content: &str)
        requires
            old(self).wf(),
        ensures
            final(self).wf(),
            final(self).attributes@ == old(self).attributes@,
            final(self).cells@ == old(self).cells@.push(
                (CellView { attributes: attributes@, content: content@ }),
            ),
    {
        self.text.append("<td");
        self.text.append(attributes);
        self.text.append(">");
        self.text.append(content);
        self.text.append("</td>");
        let ghost before = self.cells@;
        let ghost now = before.push(CellView { attributes: attributes@, content: content@ });
        self.cells = Ghost(now);
        proof {
            assert(now.drop_last() =~= before);
            assert(self.text@ =~= "<tr"@ + self.attributes@ + ">"@ + cells_text(now));
        }
    }

    /// Adds a cell.
    fn cell(&mut self, content: &str)
        requires
            old(self).wf(),
        ensures
            final(self).wf(),
            final(self).attributes@ == old(self).attributes@,
            final(self).cells@ == old(self).cells@.push(plain_cell(content@)),
    {
        proof {
            reveal_strlit("");
            assert(""@ =~= Seq::empty());
        }
        self.cell_with("", content);
    }

    /// The whole row.
    fn finish(self) -> (r: String)
        requires
            self.wf(),
        ensures
            r@ == row_text(self.attributes@, self.cells@),
    {
        self.text.concat("</tr>\n")
    }
}

/// The texts of headings.
spec fn heading_texts(headings: Seq<&str>) -> Seq<Seq<char>> {
    headings.map_values(|h: &str| h@)
}

/// Writes the top of a table.
fn head_of_table(headings: &[&str]) -> (r: String)
    ensures
        r@ == table_head(heading_texts(headings@)),
{
    let ghost all = heading_texts(headings@);
    let mut out: String = String::new();
    assert(all.take(0) =~= Seq::empty());
    assert(out@ =~= Seq::empty());
    for i in 0..headings.len()
        invariant
            all == heading_texts(headings@),
            out@ == headings_text(all.take(i as int)),
    {
        assert(all.take(i + 1).drop_last() =~= all.take(i as int));
        assert(all[i as int] == headings@[i as int]@);
        out.append("<th>".to_owned().concat(headings[i]).concat("</th>").as_str());
    }
    assert(all.take(all.len() as int) =~= all);
    "<table><thead><tr>".to_owned().concat(out.as_str()).concat("</tr></thead><tbody>\n")
}

/// How sure a finding is.
pub open spec fn confidence_text(incomplete: bool) -> Seq<char> {
    if incomplete {
        "<span class=\"badge badge-medium\" title=\"Underlying evaluation was incomplete — interpret cautiously\">⚠ incomplete</span>"@
    } else {
        "<span class=\"badge badge-correct\">confirmed</span>"@
    }
}

/// The headings of the findings.
pub open spec fn finding_headings() -> Seq<Seq<char>> {
    seq!["Severity"@, "Rule"@, "Description"@, "Path"@, "Confidence"@]
}

/// The cells of a finding.
pub open spec fn finding_cells(f: RiskFinding) -> Seq<CellView> {
    seq![
        plain_cell(severity_text(f.severity)),
        plain_cell("<code>"@ + escaped(f.rule_id@) + "</code>"@),
        plain_cell(escaped(f.description@)),
        CellView {
            attributes: " class=\"path\""@,
            content: escaped(
                match f.affected_path {
                    Some(p) => p@,
                    None => "—"@,
                },
            ),
        },
        plain_cell(confidence_text(f.incomplete)),
    ]
}

/// The row of a finding.
pub open spec fn finding_text(f: RiskFinding) -> Seq<char> {
    row_text(Seq::empty(), finding_cells(f))
}

/// What stands under a heading of the findings is what the heading says: the severity, the
/// rule, its description, the path that is affected, and whether the finding is sure.
pub proof fn law_finding_cell_stands_under_its_heading(f: RiskFinding, n: int)
    requires
        0 <= n < finding_headings().len(),
    ensures
        finding_cells(f).len() == finding_headings().len(),
        finding_headings().contains("Severity"@) && finding_headings().contains("Rule"@)
            && finding_headings().contains("Description"@) && finding_headings().contains("Path"@)
            && finding_headings().contains("Confidence"@),
        ({
            let heading = finding_headings()[n];
            let content = finding_cells(f)[n].content;
            &&& heading == "Severity"@ ==> content == severity_text(f.severity)
            &&& heading == "Rule"@ ==> content == "<code>"@ + escaped(f.rule_id@) + "</code>"@
            &&& heading == "Description"@ ==> content == escaped(f.description@)
            &&& heading == "Path"@ && f.affected_path is Some ==> content == escaped(
                f.affected_path->0@,
            )
            &&& heading == "Path"@ && f.affected_path is None ==> content == escaped("—"@)
            &&& heading == "Confidence"@ ==> text::occurs_in(
                if f.incomplete {
                    "incomplete</span>"@
                } else {
                    "confirmed</span>"@
                },
                content,
            )
        }),
{
    reveal_strlit("Severity");
    reveal_strlit("Rule");
    reveal_strlit("Description");
    reveal_strlit("Path");
    reveal_strlit("Confidence");
    let h = finding_headings();
    assert(h[0] == "Severity"@ && h[1] == "Rule"@ && h[2] == "Description"@ && h[3] == "Path"@
        && h[4] == "Confidence"@);
    assert(h[0].len() == 8 && h[1].len() == 4 && h[2].len() == 11 && h[3].len() == 4
        && h[4].len() == 10 && h[1][0] == 'R' && h[3][0] == 'P');
    lemma_confidence_is_told(f.incomplete);
}

/// The badge of a finding says how sure it is.
proof fn lemma_confidence_is_told(incomplete: bool)
    ensures
        text::occurs_in(
            if incomplete {
                "incomplete</span>"@
            } else {
                "confirmed</span>"@
            },
            confidence_text(incomplete),
        ),
{
    let t = confidence_text(incomplete);
    if incomplete {
        reveal_strlit("incomplete</span>");
        reveal_strlit(
            "<span class=\"badge badge-medium\" title=\"Underlying evaluation was incomplete — interpret cautiously\">⚠ incomplete</span>",
        );
        let k = "incomplete</span>"@;
        assert(t.subrange(t.len() - k.len(), t.len() as int) =~= k);
        assert(text::occurs_at(k, t, t.len() - k.len()));
    } else {
        reveal_strlit("confirmed</span>");
        reveal_strlit("<span class=\"badge badge-correct\">confirmed</span>");
        let k = "confirmed</span>"@;
        assert(t.subrange(t.len() - k.len(), t.len() as int) =~= k);
        assert(text::occurs_at(k, t, t.len() - k.len()));
    }
}

/// Makes the row of a finding.
fn finding_row(f: &RiskFinding) -> (r: String)
    ensures
        r@ == finding_text(*f),
{
    let path: &str = match &f.affected_path {
        Some(p) => p.0.as_str(),
        None => "—",
    };
    let confidence: &str = if f.incomplete {
        "<span class=\"badge badge-medium\" title=\"Underlying evaluation was incomplete — interpret cautiously\">⚠ incomplete</span>"
    } else {
        "<span class=\"badge badge-correct\">confirmed</span>"
    };
    let rule: String = "<code>".to_owned().concat(escape_html(f.rule_id.as_str()).as_str()).concat(
        "</code>",
    );
    proof {
        reveal_strlit("");
        assert(""@ =~= Seq::empty());
    }
    let mut row: RowText = RowText::start("");
    row.cell(severity_badge(f.severity).as_str());
    row.cell(rule.as_str());
    row.cell(escape_html(f.description.as_str()).as_str());
    row.cell_with(" class=\"path\"", escape_html(path).as_str());
    row.cell(confidence);
    assert(row.cells@ =~= finding_cells(*f));
    row.finish()
}

/// The rows of findings.
pub open spec fn finding_rows(findings: Seq<RiskFinding>) -> Seq<char>
    decreases findings.len(),
{
    if findings.len() == 0 {
        Seq::empty()
    } else {
        finding_rows(findings.drop_last()) + finding_text(findings.last())
    }
}

/// The table of findings.
pub open spec fn risk_table(findings: Seq<RiskFinding>) -> Seq<char> {
    if findings.len() == 0 {
        "<h2>Risk Findings</h2>\n<p style=\"color:#66bb6a\">✓ No risk findings.</p>\n"@
    } else {
        "<h2>Risk Findings</h2>\n"@
            + table_head(finding_headings())
            + finding_rows(findings) + "</tbody></table>\n"@
    }
}

/// Writes the table of findings.
pub fn write_risk_table(s: &mut String, findings: &[RiskFinding]) -> (r: Result<(), CoreError>)
    ensures
        r is Ok,
        final(s)@ == old(s)@ + risk_table(findings@),
{
    if findings.len() == 0 {
        s.append("<h2>Risk Findings</h2>\n<p style=\"color:#66bb6a\">✓ No risk findings.</p>\n");
        return Ok(());
    }
    let mut rows: String = String::new();
    assert(rows@ =~= Seq::empty());
    for i in 0..findings.len()
        invariant
            rows@ == finding_rows(findings@.take(i as int)),
    {
        assert(findings@.take(i + 1).drop_last() =~= findings@.take(i as int));
        rows.append(finding_row(&findings[i]).as_str());
    }
    assert(findings@.take(findings@.len() as int) =~= findings@);
    let headings: [&str; 5] = ["Severity", "Rule", "Description", "Path", "Confidence"];
    assert(heading_texts(headings@) =~= finding_headings());
    let table: String = "<h2>Risk Findings</h2>\n".to_owned().concat(
        head_of_table(&headings).as_str(),
    ).concat(rows.as_str()).concat("</tbody></table>\n");
    s.append(table.as_str());
    Ok(())
}

/// The colour of a marker, by the attention that it deserves.
pub open spec fn marker_class(severity: DiagnosticSeverity) -> Seq<char> {
    match severity {
        DiagnosticSeverity::Neutral => "badge-neutral"@,
        DiagnosticSeverity::Notice => "badge-medium"@,
        DiagnosticSeverity::Concern => "badge-high"@,
    }
}

/// What follows the colour of a marker: the details, and a short name.
pub open spec fn marker_rest(d: PermissionDiagnostic) -> Seq<char> {
    match d {
        PermissionDiagnostic::NonCanonicalDaclOrder { at_index } => "\" title=\"DACL is not in Windows-canonical order (first violating ACE at index "@ + text::decimal(at_index as nat) + "). Windows AccessCheck walks in stored order — the result is exact but may differ from canonicalized expectations.\">ℹ non-canonical DACL</span>"@,
        PermissionDiagnostic::UnsupportedShareAces { count } => "\" title=\"The share DACL contained "@ + text::decimal(count as nat) + " ACE type(s) the parser could not interpret (object/callback/conditional or vendor-specific). The share mask is potentially incomplete.\">⚠ "@ + text::decimal(count as nat) + " unsupported share ACE(s)</span>"@,
        PermissionDiagnostic::UnsupportedNtfsAces { count } => "\" title=\"The NTFS DACL contained "@ + text::decimal(count as nat) + " ACE type(s) the parser could not interpret (object/callback/conditional/Dynamic Access Control or vendor-specific). The displayed effective permission is a lower-confidence approximation — a hidden Deny among them could change the result.\">⚠ "@ + text::decimal(count as nat) + " unsupported NTFS ACE(s) — approximate result</span>"@,
        PermissionDiagnostic::DomainGroupRecursionIncomplete => "\" title=\"Group resolution ran through the SAM/LSA fallback (no LDAP). NetUserGetGroups returns only direct global groups — nested domain groups are not recursively resolved. ACEs targeting deeply nested groups may be missed; treat the finding as incomplete.\">ℹ SAM fallback — nested groups not resolved</span>"@,
        PermissionDiagnostic::IdentityDisabled => "\" title=\"The identity is flagged as disabled in AD (userAccountControl ACCOUNTDISABLE). Computed rights are ACL-theoretically correct, but the account normally cannot authenticate / access SMB.\">ℹ disabled account</span>"@,
        PermissionDiagnostic::IdentityNotInConfiguredLdapBase => "\" title=\"The user was resolved via Windows LSA but the configured LDAP base DN does not index that SID (typical for multi-domain forests or trusted domains). Domain group recursion ran only through the user's home domain — nested cross-domain memberships may be missing. Treat the finding as incomplete.\">ℹ identity outside configured LDAP base</span>"@,
        PermissionDiagnostic::IdentityDisabledStatusUnknown => "\" title=\"The 'disabled' flag for this identity could not be determined (e.g. SAM/LSA fallback without NetUserGetInfo, or LDAP did not return the user object). Computed rights are ACL-theoretically correct, but whether the account is enabled is unknown.\">ℹ disabled status unknown</span>"@,
        PermissionDiagnostic::IdentityLookupFailed { reason } => "\" title=\"LDAP identity lookup failed: "@ + escaped(reason@) + ". The analysis ran with a placeholder identity and an empty token; ACEs targeting domain groups may be missing. Treat as incomplete.\">⚠ identity lookup failed</span>"@,
        PermissionDiagnostic::GroupResolutionFailed { reason } => "\" title=\"Recursive group resolution failed or was skipped: "@ + escaped(reason@) + ". ACEs on domain groups may be missing from the computed effective right. Treat as incomplete.\">⚠ group resolution failed</span>"@,
        PermissionDiagnostic::OwnerRightsAceApplied => "\" title=\"The DACL contains an OWNER RIGHTS (S-1-3-4) entry and the analyzed identity is the object's owner. Per Windows semantics that entry governs the owner's rights — the implicit READ_CONTROL + WRITE_DAC owner grant was suppressed. The evaluation is exact; this is informational.\">ℹ OWNER RIGHTS ACE applied</span>"@,
        PermissionDiagnostic::IdentityResolvedViaForeignSecurityPrincipal => "\" title=\"The identity is a principal from a trusted forest, found as a Foreign Security Principal object in the home domain. Home-domain group memberships were resolved through the FSP — but the principal's memberships in its own forest are unknown. Treat the finding as incomplete.\">ℹ resolved via FSP — trust-side groups unknown</span>"@,
        PermissionDiagnostic::GroupResolutionViaGlobalCatalog => "\"                          title=\"Group memberships were resolved through                          a Global Catalog bind. Only universal group                          memberships replicate fully to the GC — global                          and domain-local memberships of foreign domains                          can be missing. Treat the finding as                          incomplete.\">ℹ groups via Global Catalog — may be partial</span>"@,
        PermissionDiagnostic::PersistedEvidenceDecodeFailed { detail } => "\" title=\"This historical row could not be fully decoded from the database: "@ + escaped(detail@) + ". The reconstructed result may be less complete than originally stored — treat as incomplete.\">⚠ persisted evidence decode failed</span>"@,
        PermissionDiagnostic::SidHistoryPresent { count } => "\" title=\"This identity carries "@ + text::decimal(count as nat) + " historical SID(s) (sIDHistory). ACEs referencing a historical SID are not evaluated, but the real logon token includes it — effective rights may be understated. Treat as incomplete.\">⚠ "@ + text::decimal(count as nat) + " historical SID(s) not evaluated</span>"@,
        PermissionDiagnostic::SidHistoryEvaluated { count } => "\" title=\""@ + escaped(d.sentence()) + "\">ℹ "@ + text::decimal(count as nat) + " historical SID(s) evaluated</span>"@,
        PermissionDiagnostic::GroupSidHistoryEvaluated { count, .. } => "\" title=\""@ + escaped(d.sentence()) + "\">ℹ "@ + text::decimal(count as nat) + " historical group SID(s) evaluated</span>"@,
        PermissionDiagnostic::GroupSidHistoryPresent { count } => "\" title=\""@ + escaped(d.sentence()) + "\">⚠ "@ + text::decimal(count as nat) + " historical group SID(s) not evaluated</span>"@,
        PermissionDiagnostic::TrustBoundaryEffectsNotModeled => "\" title=\"The identity was resolved across a domain / trust boundary (foreign security principal, or outside the configured LDAP base). If that boundary is a forest trust, SID filtering / quarantine and Selective Authentication may reduce actual access — these runtime trust effects are not modeled, so the shown access can be too high for a cross-forest identity.\">ℹ trust-boundary effects not modeled</span>"@,
        PermissionDiagnostic::MembersViaPrimaryGroupIncluded { count } => "\" title=\""@ + escaped(d.sentence()) + "\">ℹ "@ + text::decimal(count as nat) + " member(s) via primary group</span>"@,
        PermissionDiagnostic::GroupMemberEnumerationIncomplete { .. } => "\" title=\""@ + escaped(d.sentence()) + "\">⚠ member list incomplete</span>"@,
        PermissionDiagnostic::UniversalGroupCrossDomainMembersNotVisible => "\" title=\""@ + escaped(d.sentence()) + "\">ℹ members of other domains not visible</span>"@,
    }
}

/// Writes what follows the colour of a marker.
fn rest_of_marker(d: &PermissionDiagnostic) -> (r: String)
    ensures
        r@ == marker_rest(*d),
{
    match d {
        PermissionDiagnostic::NonCanonicalDaclOrder { at_index } => "\" title=\"DACL is not in Windows-canonical order (first violating ACE at index ".to_owned().concat(text::decimal_text(*at_index as u64).as_str()).concat("). Windows AccessCheck walks in stored order — the result is exact but may differ from canonicalized expectations.\">ℹ non-canonical DACL</span>"),
        PermissionDiagnostic::UnsupportedShareAces { count } => "\" title=\"The share DACL contained ".to_owned().concat(text::decimal_text(*count as u64).as_str()).concat(" ACE type(s) the parser could not interpret (object/callback/conditional or vendor-specific). The share mask is potentially incomplete.\">⚠ ").concat(text::decimal_text(*count as u64).as_str()).concat(" unsupported share ACE(s)</span>"),
        PermissionDiagnostic::UnsupportedNtfsAces { count } => "\" title=\"The NTFS DACL contained ".to_owned().concat(text::decimal_text(*count as u64).as_str()).concat(" ACE type(s) the parser could not interpret (object/callback/conditional/Dynamic Access Control or vendor-specific). The displayed effective permission is a lower-confidence approximation — a hidden Deny among them could change the result.\">⚠ ").concat(text::decimal_text(*count as u64).as_str()).concat(" unsupported NTFS ACE(s) — approximate result</span>"),
        PermissionDiagnostic::DomainGroupRecursionIncomplete => "\" title=\"Group resolution ran through the SAM/LSA fallback (no LDAP). NetUserGetGroups returns only direct global groups — nested domain groups are not recursively resolved. ACEs targeting deeply nested groups may be missed; treat the finding as incomplete.\">ℹ SAM fallback — nested groups not resolved</span>".to_owned(),
        PermissionDiagnostic::IdentityDisabled => "\" title=\"The identity is flagged as disabled in AD (userAccountControl ACCOUNTDISABLE). Computed rights are ACL-theoretically correct, but the account normally cannot authenticate / access SMB.\">ℹ disabled account</span>".to_owned(),
        PermissionDiagnostic::IdentityNotInConfiguredLdapBase => "\" title=\"The user was resolved via Windows LSA but the configured LDAP base DN does not index that SID (typical for multi-domain forests or trusted domains). Domain group recursion ran only through the user's home domain — nested cross-domain memberships may be missing. Treat the finding as incomplete.\">ℹ identity outside configured LDAP base</span>".to_owned(),
        PermissionDiagnostic::IdentityDisabledStatusUnknown => "\" title=\"The 'disabled' flag for this identity could not be determined (e.g. SAM/LSA fallback without NetUserGetInfo, or LDAP did not return the user object). Computed rights are ACL-theoretically correct, but whether the account is enabled is unknown.\">ℹ disabled status unknown</span>".to_owned(),
        PermissionDiagnostic::IdentityLookupFailed { reason } => "\" title=\"LDAP identity lookup failed: ".to_owned().concat(escape_html(reason.as_str()).as_str()).concat(". The analysis ran with a placeholder identity and an empty token; ACEs targeting domain groups may be missing. Treat as incomplete.\">⚠ identity lookup failed</span>"),
        PermissionDiagnostic::GroupResolutionFailed { reason } => "\" title=\"Recursive group resolution failed or was skipped: ".to_owned().concat(escape_html(reason.as_str()).as_str()).concat(". ACEs on domain groups may be missing from the computed effective right. Treat as incomplete.\">⚠ group resolution failed</span>"),
        PermissionDiagnostic::OwnerRightsAceApplied => "\" title=\"The DACL contains an OWNER RIGHTS (S-1-3-4) entry and the analyzed identity is the object's owner. Per Windows semantics that entry governs the owner's rights — the implicit READ_CONTROL + WRITE_DAC owner grant was suppressed. The evaluation is exact; this is informational.\">ℹ OWNER RIGHTS ACE applied</span>".to_owned(),
        PermissionDiagnostic::IdentityResolvedViaForeignSecurityPrincipal => "\" title=\"The identity is a principal from a trusted forest, found as a Foreign Security Principal object in the home domain. Home-domain group memberships were resolved through the FSP — but the principal's memberships in its own forest are unknown. Treat the finding as incomplete.\">ℹ resolved via FSP — trust-side groups unknown</span>".to_owned(),
        PermissionDiagnostic::GroupResolutionViaGlobalCatalog => "\"                          title=\"Group memberships were resolved through                          a Global Catalog bind. Only universal group                          memberships replicate fully to the GC — global                          and domain-local memberships of foreign domains                          can be missing. Treat the finding as                          incomplete.\">ℹ groups via Global Catalog — may be partial</span>".to_owned(),
        PermissionDiagnostic::PersistedEvidenceDecodeFailed { detail } => "\" title=\"This historical row could not be fully decoded from the database: ".to_owned().concat(escape_html(detail.as_str()).as_str()).concat(". The reconstructed result may be less complete than originally stored — treat as incomplete.\">⚠ persisted evidence decode failed</span>"),
        PermissionDiagnostic::SidHistoryPresent { count } => "\" title=\"This identity carries ".to_owned().concat(text::decimal_text(*count as u64).as_str()).concat(" historical SID(s) (sIDHistory). ACEs referencing a historical SID are not evaluated, but the real logon token includes it — effective rights may be understated. Treat as incomplete.\">⚠ ").concat(text::decimal_text(*count as u64).as_str()).concat(" historical SID(s) not evaluated</span>"),
        PermissionDiagnostic::SidHistoryEvaluated { count } => "\" title=\"".to_owned().concat(escape_html(d.summary().as_str()).as_str()).concat("\">ℹ ").concat(text::decimal_text(*count as u64).as_str()).concat(" historical SID(s) evaluated</span>"),
        PermissionDiagnostic::GroupSidHistoryEvaluated { count, .. } => "\" title=\"".to_owned().concat(escape_html(d.summary().as_str()).as_str()).concat("\">ℹ ").concat(text::decimal_text(*count as u64).as_str()).concat(" historical group SID(s) evaluated</span>"),
        PermissionDiagnostic::GroupSidHistoryPresent { count } => "\" title=\"".to_owned().concat(escape_html(d.summary().as_str()).as_str()).concat("\">⚠ ").concat(text::decimal_text(*count as u64).as_str()).concat(" historical group SID(s) not evaluated</span>"),
        PermissionDiagnostic::TrustBoundaryEffectsNotModeled => "\" title=\"The identity was resolved across a domain / trust boundary (foreign security principal, or outside the configured LDAP base). If that boundary is a forest trust, SID filtering / quarantine and Selective Authentication may reduce actual access — these runtime trust effects are not modeled, so the shown access can be too high for a cross-forest identity.\">ℹ trust-boundary effects not modeled</span>".to_owned(),
        PermissionDiagnostic::MembersViaPrimaryGroupIncluded { count } => "\" title=\"".to_owned().concat(escape_html(d.summary().as_str()).as_str()).concat("\">ℹ ").concat(text::decimal_text(*count as u64).as_str()).concat(" member(s) via primary group</span>"),
        PermissionDiagnostic::GroupMemberEnumerationIncomplete { .. } => "\" title=\"".to_owned().concat(escape_html(d.summary().as_str()).as_str()).concat("\">⚠ member list incomplete</span>"),
        PermissionDiagnostic::UniversalGroupCrossDomainMembersNotVisible => "\" title=\"".to_owned().concat(escape_html(d.summary().as_str()).as_str()).concat("\">ℹ members of other domains not visible</span>"),
    }
}

/// The badge of a marker.
pub open spec fn marker_text(d: PermissionDiagnostic) -> Seq<char> {
    "<span class=\"badge "@ + marker_class(d.attention()) + marker_rest(d)
}

/// Makes the badge of a marker.
fn marker_badge(d: &PermissionDiagnostic) -> (r: String)
    ensures
        r@ == marker_text(*d),
{
    let class: &str = match d.severity() {
        DiagnosticSeverity::Neutral => "badge-neutral",
        DiagnosticSeverity::Notice => "badge-medium",
        DiagnosticSeverity::Concern => "badge-high",
    };
    "<span class=\"badge ".to_owned().concat(class).concat(rest_of_marker(d).as_str())
}

/// The colour of a marker's badge is that of its severity, whatever the marker:
/// two markers of one severity are never coloured differently.
pub proof fn law_marker_colour_follows_severity(d: PermissionDiagnostic)
    ensures
        ("<span class=\"badge "@ + marker_class(d.attention())).is_prefix_of(marker_text(d)),
{
    let start = "<span class=\"badge "@ + marker_class(d.attention());
    assert(start =~= marker_text(d).take(start.len() as int));
}

/// The badges for what is incomplete outside the markers.
pub open spec fn status_badges(p: EffectivePermission) -> Seq<Seq<char>> {
    (if p.unsupported_ace_count > 0 {
        seq![
            "<span class=\"badge badge-medium\" title=\"DACL evaluation may be incomplete\">⚠ "@
                + text::decimal(p.unsupported_ace_count as nat) + " unsupported ACE(s)</span>"@,
        ]
    } else {
        Seq::empty()
    }) + (match p.share_status {
        ShareEvalStatus::ReadFailed(reason) => seq![
            "<span class=\"badge badge-high\" title=\""@ + escaped(reason@)
                + "\">⚠ share DACL unreadable</span>"@,
        ],
        _ => Seq::empty(),
    }) + (match p.local_group_status {
        LocalGroupEvalStatus::NotAvailable(reason) => seq![
            "<span class=\"badge badge-neutral\" title=\""@ + escaped(reason@)
                + "\">ℹ local groups unavailable</span>"@,
        ],
        _ => Seq::empty(),
    })
}

/// All badges of a permission: what is incomplete, then the markers.
pub open spec fn badges(p: EffectivePermission) -> Seq<Seq<char>> {
    status_badges(p) + p.diagnostics@.map_values(|d: PermissionDiagnostic| marker_text(d))
}

/// The cell with the badges of a permission; a dash where there are none.
pub open spec fn diagnostics_cell(p: EffectivePermission) -> Seq<char> {
    if badges(p).len() == 0 {
        "—"@
    } else {
        text::joined(badges(p), " "@)
    }
}

/// A permission shows badges exactly where the summary counts it.
pub proof fn law_flagged_permissions_show_badges(p: EffectivePermission)
    ensures
        is_flagged(p) == (badges(p).len() > 0),
{
}

/// Adds a badge to a list.
fn push_badge(list: &mut Vec<String>, s: String)
    ensures
        text::texts(final(list)@) == text::texts(old(list)@).push(s@),
{
    let ghost before = text::texts(list@);
    list.push(s);
    assert(text::texts(list@) =~= before.push(s@));
}

/// Makes the badges for what is incomplete outside the markers.
fn status_badges_of(p: &EffectivePermission) -> (r: Vec<String>)
    ensures
        text::texts(r@) == status_badges(*p),
{
    let mut parts: Vec<String> = Vec::new();
    if p.unsupported_ace_count > 0 {
        push_badge(
            &mut parts,
            "<span class=\"badge badge-medium\" title=\"DACL evaluation may be incomplete\">⚠ ".to_owned().concat(
                text::decimal_text(p.unsupported_ace_count as u64).as_str(),
            ).concat(" unsupported ACE(s)</span>"),
        );
    }
    if let ShareEvalStatus::ReadFailed(reason) = &p.share_status {
        push_badge(
            &mut parts,
            "<span class=\"badge badge-high\" title=\"".to_owned().concat(
                escape_html(reason.as_str()).as_str(),
            ).concat("\">⚠ share DACL unreadable</span>"),
        );
    }
    if let LocalGroupEvalStatus::NotAvailable(reason) = &p.local_group_status {
        push_badge(
            &mut parts,
            "<span class=\"badge badge-neutral\" title=\"".to_owned().concat(
                escape_html(reason.as_str()).as_str(),
            ).concat("\">ℹ local groups unavailable</span>"),
        );
    }
    assert(text::texts(parts@) =~= status_badges(*p));
    parts
}

/// Makes the cell with the badges of a permission.
fn diagnostics_of(p: &EffectivePermission) -> (r: String)
    ensures
        r@ == diagnostics_cell(*p),
{
    let mut parts: Vec<String> = status_badges_of(p);
    let ghost first = status_badges(*p);
    let ghost markers = p.diagnostics@.map_values(|d: PermissionDiagnostic| marker_text(d));
    assert(first + markers.take(0) =~= first);
    for i in 0..p.diagnostics.len()
        invariant
            markers == p.diagnostics@.map_values(|d: PermissionDiagnostic| marker_text(d)),
            text::texts(parts@) == first + markers.take(i as int),
    {
        push_badge(&mut parts, marker_badge(&p.diagnostics[i]));
        assert(text::texts(parts@) =~= first + markers.take(i + 1));
    }
    assert(markers.take(markers.len() as int) =~= markers);
    assert(text::texts(parts@).len() == parts@.len());
    if parts.len() == 0 {
        "—".to_owned()
    } else {
        text::join(&parts, " ")
    }
}

/// The steps that explain a permission.
pub open spec fn steps_text(steps: Seq<Seq<char>>) -> Seq<char>
    decreases steps.len(),
{
    if steps.len() == 0 {
        Seq::empty()
    } else {
        steps_text(steps.drop_last()) + ("<div class=\"step\">• "@ + escaped(steps.last())
            + "</div>"@)
    }
}

/// Makes the steps that explain a permission.
fn steps_of(steps: &Vec<String>) -> (r: String)
    ensures
        r@ == steps_text(text::texts(steps@)),
{
    let ghost all = text::texts(steps@);
    let mut out: String = String::new();
    assert(out@ =~= Seq::empty());
    assert(all.take(0) =~= Seq::empty());
    for i in 0..steps.len()
        invariant
            all == text::texts(steps@),
            out@ == steps_text(all.take(i as int)),
    {
        assert(all.take(i + 1).drop_last() =~= all.take(i as int));
        assert(all[i as int] == steps@[i as int]@);
        out.append(
            "<div class=\"step\">• ".to_owned().concat(
                escape_html(steps[i].as_str()).as_str(),
            ).concat("</div>").as_str(),
        );
    }
    assert(all.take(all.len() as int) =~= all);
    out
}

/// A name with its SID as the details.
pub open spec fn named_sid(sid: Seq<char>, name: Option<Seq<char>>) -> Seq<char> {
    "<span title=\""@ + escaped(sid) + "\">"@ + escaped(
        match name {
            Some(n) => n,
            None => sid,
        },
    ) + "</span>"@
}

/// Writes a name with its SID as the details.
fn name_with_sid(sid: &str, name: &Option<String>) -> (r: String)
    ensures
        r@ == named_sid(sid@, text::text_of(*name)),
{
    let shown: &str = match name {
        Some(n) => n.as_str(),
        None => sid,
    };
    "<span title=\"".to_owned().concat(escape_html(sid).as_str()).concat("\">").concat(
        escape_html(shown).as_str(),
    ).concat("</span>")
}

/// The headings of the permissions.
pub open spec fn permission_headings() -> Seq<Seq<char>> {
    seq!["Path"@, "User"@, "Effective"@, "NTFS"@, "Share"@, "Diagnostics"@, "Explanation"@]
}

/// The cells of a permission.
pub open spec fn permission_cells(
    p: EffectivePermission,
    rights: Map<u32, NormalizedRights>,
) -> Seq<CellView> {
    seq![
        CellView { attributes: " class=\"path\""@, content: escaped(p.path@) },
        plain_cell(named_sid(p.identity.sid@, text::text_of(p.identity.name))),
        plain_cell(rights_text(rights[p.effective_mask.0])),
        plain_cell(rights_text(rights[p.ntfs_mask.0])),
        plain_cell(
            match p.share_mask {
                Some(m) => rights_text(rights[m.0]),
                None => "—"@,
            },
        ),
        plain_cell(diagnostics_cell(p)),
        plain_cell(
            "<details><summary>show</summary>"@ + steps_text(
                text::texts(p.path_explanation.steps@),
            ) + "</details>"@,
        ),
    ]
}

/// The row of a permission.
pub open spec fn permission_text(
    p: EffectivePermission,
    rights: Map<u32, NormalizedRights>,
) -> Seq<char> {
    row_text(Seq::empty(), permission_cells(p, rights))
}

/// What stands under a heading of the permissions is what the heading says. Under
/// "Effective" stand the rights of the effective mask, under "NTFS" those of the NTFS
/// mask, and under "Share" those of the share mask, or a dash where there is none.
pub proof fn law_permission_cell_stands_under_its_heading(
    p: EffectivePermission,
    rights: Map<u32, NormalizedRights>,
    n: int,
)
    requires
        0 <= n < permission_headings().len(),
    ensures
        permission_cells(p, rights).len() == permission_headings().len(),
        permission_headings().contains("Path"@) && permission_headings().contains("User"@)
            && permission_headings().contains("Effective"@) && permission_headings().contains(
            "NTFS"@,
        ) && permission_headings().contains("Share"@) && permission_headings().contains(
            "Diagnostics"@,
        ) && permission_headings().contains("Explanation"@),
        ({
            let heading = permission_headings()[n];
            let content = permission_cells(p, rights)[n].content;
            &&& heading == "Path"@ ==> content == escaped(p.path@)
            &&& heading == "User"@ ==> {
                &&& text::occurs_in(escaped(p.identity.sid@), content)
                &&& p.identity.name matches Some(name) ==> text::occurs_in(escaped(name@), content)
            }
            &&& heading == "Effective"@ ==> content == rights_text(rights[p.effective_mask.0])
            &&& heading == "NTFS"@ ==> content == rights_text(rights[p.ntfs_mask.0])
            &&& heading == "Share"@ && p.share_mask is Some ==> content == rights_text(
                rights[(p.share_mask->0).0],
            )
            &&& heading == "Share"@ && p.share_mask is None ==> content == "—"@
            &&& heading == "Diagnostics"@ ==> content == diagnostics_cell(p)
            &&& heading == "Explanation"@ ==> text::occurs_in(
                steps_text(text::texts(p.path_explanation.steps@)),
                content,
            )
        }),
{
    reveal_strlit("Path");
    reveal_strlit("User");
    reveal_strlit("Effective");
    reveal_strlit("NTFS");
    reveal_strlit("Share");
    reveal_strlit("Diagnostics");
    reveal_strlit("Explanation");
    let h = permission_headings();
    assert(h[0] == "Path"@ && h[1] == "User"@ && h[2] == "Effective"@ && h[3] == "NTFS"@ && h[4]
        == "Share"@ && h[5] == "Diagnostics"@ && h[6] == "Explanation"@);
    assert(h[0].len() == 4 && h[1].len() == 4 && h[2].len() == 9 && h[3].len() == 4 && h[4].len()
        == 5 && h[5].len() == 11 && h[6].len() == 11);
    assert(h[0][0] == 'P' && h[1][0] == 'U' && h[3][0] == 'N' && h[5][0] == 'D' && h[6][0] == 'E');
    lemma_name_and_sid_are_shown(p.identity.sid@, text::text_of(p.identity.name));
    let open = "<details><summary>show</summary>"@;
    let steps = steps_text(text::texts(p.path_explanation.steps@));
    text::lemma_part_occurs(open, steps, "</details>"@);
}

/// A name with a SID shows both.
proof fn lemma_name_and_sid_are_shown(sid: Seq<char>, name: Option<Seq<char>>)
    ensures
        text::occurs_in(escaped(sid), named_sid(sid, name)),
        name matches Some(n) ==> text::occurs_in(escaped(n), named_sid(sid, name)),
{
    let all = named_sid(sid, name);
    let a = "<span title=\""@;
    let b = "\">"@;
    let shown = escaped(
        match name {
            Some(n) => n,
            None => sid,
        },
    );
    let at = a.len() as int;
    let name_at = (a.len() + escaped(sid).len() + b.len()) as int;
    assert(all.subrange(at, at + escaped(sid).len()) =~= escaped(sid));
    assert(text::occurs_at(escaped(sid), all, at));
    assert(all.subrange(name_at, name_at + shown.len()) =~= shown);
    assert(text::occurs_at(shown, all, name_at));
}

/// Makes the row of a permission.
fn permission_row(p: &EffectivePermission, rights: &RightsTable) -> (r: String)
    requires
        rights::covers(rights@, *p),
    ensures
        r@ == permission_text(*p, rights@),
{
    let share: String = match p.share_mask {
        Some(m) => rights_badge(rights_of(rights, m.0)),
        None => "—".to_owned(),
    };
    let steps: String = "<details><summary>show</summary>".to_owned().concat(
        steps_of(&p.path_explanation.steps).as_str(),
    ).concat("</details>");
    proof {
        reveal_strlit("");
        assert(""@ =~= Seq::empty());
    }
    let mut row: RowText = RowText::start("");
    row.cell_with(" class=\"path\"", escape_html(p.path.0.as_str()).as_str());
    row.cell(name_with_sid(p.identity.sid.0.as_str(), &p.identity.name).as_str());
    row.cell(rights_badge(rights_of(rights, p.effective_mask.0)).as_str());
    row.cell(rights_badge(rights_of(rights, p.ntfs_mask.0)).as_str());
    row.cell(share.as_str());
    row.cell(diagnostics_of(p).as_str());
    row.cell(steps.as_str());
    assert(row.cells@ =~= permission_cells(*p, rights@));
    row.finish()
}

/// The rows of permissions.
pub open spec fn permission_rows(
    permissions: Seq<EffectivePermission>,
    rights: Map<u32, NormalizedRights>,
) -> Seq<char>
    decreases permissions.len(),
{
    if permissions.len() == 0 {
        Seq::empty()
    } else {
        permission_rows(permissions.drop_last(), rights) + permission_text(
            permissions.last(),
            rights,
        )
    }
}

/// The table of permissions.
pub open spec fn permission_table(
    permissions: Seq<EffectivePermission>,
    rights: Map<u32, NormalizedRights>,
) -> Seq<char> {
    "<h2>Effective Permissions</h2>\n"@
        + table_head(permission_headings())
        + permission_rows(permissions, rights) + "</tbody></table>\n"@
}

/// Writes the table of permissions. `rights` names the masks of the permissions.
pub fn write_permissions_table(
    s: &mut String,
    permissions: &[EffectivePermission],
    rights: &RightsTable,
) -> (r: Result<(), CoreError>)
    requires
        rights::covers_all(rights@, permissions@),
    ensures
        r is Ok,
        final(s)@ == old(s)@ + permission_table(permissions@, rights@),
{
    let mut rows: String = String::new();
    assert(rows@ =~= Seq::empty());
    for i in 0..permissions.len()
        invariant
            rights::covers_all(rights@, permissions@),
            rows@ == permission_rows(permissions@.take(i as int), rights@),
    {
        assert(permissions@.take(i + 1).drop_last() =~= permissions@.take(i as int));
        rows.append(permission_row(&permissions[i], rights).as_str());
    }
    assert(permissions@.take(permissions@.len() as int) =~= permissions@);
    let headings: [&str; 7] = [
        "Path",
        "User",
        "Effective",
        "NTFS",
        "Share",
        "Diagnostics",
        "Explanation",
    ];
    assert(heading_texts(headings@) =~= permission_headings());
    let table: String = "<h2>Effective Permissions</h2>\n".to_owned().concat(
        head_of_table(&headings).as_str(),
    ).concat(rows.as_str()).concat("</tbody></table>\n");
    s.append(table.as_str());
    Ok(())
}

/// What an entry applies to, in the words of Windows.
pub open spec fn applies_text(inheritance_flags: u32, propagation_flags: u32) -> Seq<char> {
    let flags = inheritance_flags | propagation_flags;
    let container = flags & 0x02 != 0;
    let object = flags & 0x01 != 0;
    let inherit_only = flags & 0x08 != 0;
    let base = if container && object {
        if inherit_only {
            "Subfolders and files only"@
        } else {
            "This folder, subfolders and files"@
        }
    } else if container {
        if inherit_only {
            "Subfolders only"@
        } else {
            "This folder and subfolders"@
        }
    } else if object {
        if inherit_only {
            "Files only"@
        } else {
            "This folder and files"@
        }
    } else {
        "This folder only"@
    };
    if flags & 0x04 != 0 {
        base + " (no propagation)"@
    } else {
        base
    }
}

/// Says what an entry applies to.
pub fn applies_to_label(inheritance_flags: u32, propagation_flags: u32) -> (r: String)
    ensures
        r@ == applies_text(inheritance_flags, propagation_flags),
{
    let flags: u32 = inheritance_flags | propagation_flags;
    let container: bool = flags & 0x02 != 0;
    let object: bool = flags & 0x01 != 0;
    let inherit_only: bool = flags & 0x08 != 0;
    let base: &str = match (container, object, inherit_only) {
        (true, true, true) => "Subfolders and files only",
        (true, true, false) => "This folder, subfolders and files",
        (true, false, true) => "Subfolders only",
        (true, false, false) => "This folder and subfolders",
        (false, true, true) => "Files only",
        (false, true, false) => "This folder and files",
        (false, false, _) => "This folder only",
    };
    if flags & 0x04 != 0 {
        base.to_owned().concat(" (no propagation)")
    } else {
        base.to_owned()
    }
}

/// The name of a layer.
pub open spec fn layer_text(c: TrusteeCategory) -> Seq<char> {
    match c {
        TrusteeCategory::Ntfs => "NTFS"@,
        TrusteeCategory::Share => "Share"@,
    }
}

/// Names a layer.
fn layer_name(c: TrusteeCategory) -> (r: &'static str)
    ensures
        r@ == layer_text(c),
{
    match c {
        TrusteeCategory::Ntfs => "NTFS",
        TrusteeCategory::Share => "Share",
    }
}

/// The headings of the entries of a path.
pub open spec fn entry_headings() -> Seq<Seq<char>> {
    seq!["Trustee"@, "Kind"@, "Rights"@, "Mask"@, "Source"@, "Applies to"@, "Layer"@]
}

/// The kind of an entry, in its colour.
pub open spec fn kind_text(kind: AceKind) -> Seq<char> {
    match kind {
        AceKind::Allow => "<span style=\"color:#278d4f;font-weight:700\">Allow</span>"@,
        AceKind::Deny => "<span style=\"color:#c0392b;font-weight:700\">Deny</span>"@,
    }
}

/// The cells of an entry.
pub open spec fn ace_cells(t: PathTrustee, expanded: Map<u32, NormalizedRights>) -> Seq<CellView> {
    seq![
        plain_cell(named_sid(t.sid@, text::text_of(t.display_name))),
        plain_cell(kind_text(t.kind)),
        plain_cell(rights_text(expanded[t.mask.0])),
        plain_cell("<code>"@ + text::mask_text(t.mask.0) + "</code>"@),
        plain_cell(
            if t.inherited {
                "inherited"@
            } else {
                "explicit"@
            },
        ),
        plain_cell(
            escaped(
                match t.category {
                    TrusteeCategory::Share => "Share"@,
                    TrusteeCategory::Ntfs => applies_text(t.inheritance_flags, t.propagation_flags),
                },
            ),
        ),
        plain_cell(layer_text(t.category)),
    ]
}

/// The row of an entry.
pub open spec fn ace_text(t: PathTrustee, expanded: Map<u32, NormalizedRights>) -> Seq<char> {
    row_text(Seq::empty(), ace_cells(t, expanded))
}

/// What stands under a heading of the entries is what the heading says: the trustee, whether
/// it is granted or denied, the rights and the bits of the mask, whether the entry was
/// inherited, what it applies to, and its layer.
pub proof fn law_entry_cell_stands_under_its_heading(
    t: PathTrustee,
    expanded: Map<u32, NormalizedRights>,
    n: int,
)
    requires
        0 <= n < entry_headings().len(),
    ensures
        ace_cells(t, expanded).len() == entry_headings().len(),
        entry_headings().contains("Trustee"@) && entry_headings().contains("Kind"@)
            && entry_headings().contains("Rights"@) && entry_headings().contains("Mask"@)
            && entry_headings().contains("Source"@) && entry_headings().contains("Applies to"@)
            && entry_headings().contains("Layer"@),
        ({
            let heading = entry_headings()[n];
            let content = ace_cells(t, expanded)[n].content;
            &&& heading == "Trustee"@ ==> {
                &&& text::occurs_in(escaped(t.sid@), content)
                &&& t.display_name matches Some(name) ==> text::occurs_in(escaped(name@), content)
            }
            &&& heading == "Kind"@ && t.kind == AceKind::Allow ==> text::occurs_in(
                ">Allow<"@,
                content,
            )
            &&& heading == "Kind"@ && t.kind == AceKind::Deny ==> text::occurs_in(
                ">Deny<"@,
                content,
            )
            &&& heading == "Rights"@ ==> content == rights_text(expanded[t.mask.0])
            &&& heading == "Mask"@ ==> text::occurs_in(text::mask_text(t.mask.0), content)
            &&& heading == "Source"@ ==> content == (if t.inherited {
                "inherited"@
            } else {
                "explicit"@
            })
            &&& heading == "Applies to"@ && t.category == TrusteeCategory::Ntfs ==> content
                == escaped(applies_text(t.inheritance_flags, t.propagation_flags))
            &&& heading == "Applies to"@ && t.category == TrusteeCategory::Share ==> content
                == escaped("Share"@)
            &&& heading == "Layer"@ ==> content == (if t.category == TrusteeCategory::Ntfs {
                "NTFS"@
            } else {
                "Share"@
            })
        }),
{
    reveal_strlit("Trustee");
    reveal_strlit("Kind");
    reveal_strlit("Rights");
    reveal_strlit("Mask");
    reveal_strlit("Source");
    reveal_strlit("Applies to");
    reveal_strlit("Layer");
    let h = entry_headings();
    assert(h[0] == "Trustee"@ && h[1] == "Kind"@ && h[2] == "Rights"@ && h[3] == "Mask"@ && h[4]
        == "Source"@ && h[5] == "Applies to"@ && h[6] == "Layer"@);
    assert(h[0].len() == 7 && h[1].len() == 4 && h[2].len() == 6 && h[3].len() == 4 && h[4].len()
        == 6 && h[5].len() == 10 && h[6].len() == 5);
    assert(h[1][0] == 'K' && h[2][0] == 'R' && h[3][0] == 'M' && h[4][0] == 'S');
    lemma_name_and_sid_are_shown(t.sid@, text::text_of(t.display_name));
    lemma_kind_is_told(t.kind);
    let open = "<code>"@;
    let mask = text::mask_text(t.mask.0);
    text::lemma_part_occurs(open, mask, "</code>"@);
}

/// The kind of an entry is told by its word.
proof fn lemma_kind_is_told(kind: AceKind)
    ensures
        kind == AceKind::Allow ==> text::occurs_in(">Allow<"@, kind_text(kind)),
        kind == AceKind::Deny ==> text::occurs_in(">Deny<"@, kind_text(kind)),
{
    reveal_strlit("<span style=\"color:#278d4f;font-weight:700\">Allow</span>");
    reveal_strlit("<span style=\"color:#c0392b;font-weight:700\">Deny</span>");
    reveal_strlit(">Allow<");
    reveal_strlit(">Deny<");
    let t = kind_text(kind);
    match kind {
        AceKind::Allow => {
            assert(t.subrange(43, 50) =~= ">Allow<"@);
            assert(text::occurs_at(">Allow<"@, t, 43));
        },
        AceKind::Deny => {
            assert(t.subrange(43, 49) =~= ">Deny<"@);
            assert(text::occurs_at(">Deny<"@, t, 43));
        },
    }
}

/// Makes the row of an entry.
fn ace_row(t: &PathTrustee, expanded: &RightsTable) -> (r: String)
    requires
        expanded@.contains_key(t.mask.0),
    ensures
        r@ == ace_text(*t, expanded@),
{
    let kind: &str = match t.kind {
        AceKind::Allow => "<span style=\"color:#278d4f;font-weight:700\">Allow</span>",
        AceKind::Deny => "<span style=\"color:#c0392b;font-weight:700\">Deny</span>",
    };
    let source: &str = if t.inherited {
        "inherited"
    } else {
        "explicit"
    };
    let applies: String = match t.category {
        TrusteeCategory::Share => "Share".to_owned(),
        TrusteeCategory::Ntfs => applies_to_label(t.inheritance_flags, t.propagation_flags),
    };
    let mask: String = "<code>".to_owned().concat(text::mask_hex(t.mask.0).as_str()).concat(
        "</code>",
    );
    proof {
        reveal_strlit("");
        assert(""@ =~= Seq::empty());
    }
    let mut row: RowText = RowText::start("");
    row.cell(name_with_sid(t.sid.0.as_str(), &t.display_name).as_str());
    row.cell(kind);
    row.cell(rights_badge(rights_of(expanded, t.mask.0)).as_str());
    row.cell(mask.as_str());
    row.cell(source);
    row.cell(escape_html(applies.as_str()).as_str());
    row.cell(layer_name(t.category));
    assert(row.cells@ =~= ace_cells(*t, expanded@));
    row.finish()
}

/// The cells of a hint: it spans what belongs to entries, and its layer stands in the last
/// column.
pub open spec fn hint_cells(category: TrusteeCategory, message: Seq<char>) -> Seq<CellView> {
    seq![
        CellView {
            attributes: " colspan=\"6\""@,
            content: "<em>&#9888; Diagnostic: "@ + escaped(message) + "</em>"@,
        },
        plain_cell(layer_text(category)),
    ]
}

/// A hint shows its message and its layer.
pub proof fn law_hint_is_shown(category: TrusteeCategory, message: Seq<char>)
    ensures
        hint_cells(category, message).len() == 2,
        text::occurs_in(escaped(message), hint_cells(category, message)[0].content),
        hint_cells(category, message)[1].content == (if category == TrusteeCategory::Ntfs {
            "NTFS"@
        } else {
            "Share"@
        }),
{
    text::lemma_part_occurs("<em>&#9888; Diagnostic: "@, escaped(message), "</em>"@);
}

/// The row of an entry or a hint. A hint looks different from an entry.
pub open spec fn entry_text(e: PathTrusteeEntry, expanded: Map<u32, NormalizedRights>) -> Seq<char> {
    match e {
        PathTrusteeEntry::Diagnostic { category, message } => row_text(
            " style=\"background-color:#fff7d6\""@,
            hint_cells(category, message@),
        ),
        PathTrusteeEntry::Ace(t) => ace_text(t, expanded),
    }
}

/// Whether the table holds the mask of an entry.
pub open spec fn knows_entry(expanded: Map<u32, NormalizedRights>, e: PathTrusteeEntry) -> bool {
    e matches PathTrusteeEntry::Ace(t) ==> expanded.contains_key(t.mask.0)
}

/// Makes the row of an entry or a hint.
fn entry_row(e: &PathTrusteeEntry, expanded: &RightsTable) -> (r: String)
    requires
        knows_entry(expanded@, *e),
    ensures
        r@ == entry_text(*e, expanded@),
{
    match e {
        PathTrusteeEntry::Diagnostic { category, message } => {
            let hint: String = "<em>&#9888; Diagnostic: ".to_owned().concat(
                escape_html(message.as_str()).as_str(),
            ).concat("</em>");
            let mut row: RowText = RowText::start(" style=\"background-color:#fff7d6\"");
            row.cell_with(" colspan=\"6\"", hint.as_str());
            row.cell(layer_name(*category));
            assert(row.cells@ =~= hint_cells(*category, message@));
            row.finish()
        },
        PathTrusteeEntry::Ace(t) => ace_row(t, expanded),
    }
}

/// The rows of the entries of a path.
pub open spec fn entry_rows(
    entries: Seq<PathTrusteeEntry>,
    expanded: Map<u32, NormalizedRights>,
) -> Seq<char>
    decreases entries.len(),
{
    if entries.len() == 0 {
        Seq::empty()
    } else {
        entry_rows(entries.drop_last(), expanded) + entry_text(entries.last(), expanded)
    }
}

/// Whether the table holds the masks of all entries of a path.
pub open spec fn knows_path(expanded: Map<u32, NormalizedRights>, p: PathTrustees) -> bool {
    forall|i: int|
        0 <= i < p.trustees@.len() ==> knows_entry(expanded, #[trigger] p.trustees@[i])
}

/// Whether the table holds the masks of all entries.
pub open spec fn knows_paths(
    expanded: Map<u32, NormalizedRights>,
    paths: Seq<PathTrustees>,
) -> bool {
    forall|i: int| 0 <= i < paths.len() ==> knows_path(expanded, #[trigger] paths[i])
}

/// Decides whether the table holds the masks of all entries of a path.
fn covers_path(expanded: &RightsTable, p: &PathTrustees) -> (r: bool)
    ensures
        r == knows_path(expanded@, *p),
{
    for i in 0..p.trustees.len()
        invariant
            forall|k: int| 0 <= k < i ==> knows_entry(expanded@, #[trigger] p.trustees@[k]),
    {
        if let PathTrusteeEntry::Ace(t) = &p.trustees[i] {
            if !holds(expanded, t.mask.0) {
                assert(!knows_entry(expanded@, p.trustees@[i as int]));
                return false;
            }
        }
    }
    true
}

/// Decides whether the table holds the masks of all entries.
pub fn covers_trustees(expanded: &RightsTable, paths: &[PathTrustees]) -> (r: bool)
    ensures
        r == knows_paths(expanded@, paths@),
{
    for i in 0..paths.len()
        invariant
            forall|k: int| 0 <= k < i ==> knows_path(expanded@, #[trigger] paths@[k]),
    {
        if !covers_path(expanded, &paths[i]) {
            assert(!knows_path(expanded@, paths@[i as int]));
            return false;
        }
    }
    true
}

/// Whether the table holds a mask.
fn holds(rights: &RightsTable, mask: u32) -> (r: bool)
    ensures
        r == rights@.contains_key(mask),
{
    broadcast use vstd::std_specs::hash::group_hash_axioms;

    rights.contains_key(&mask)
}

/// The section of a path; a path without entries has none.
pub open spec fn path_text(p: PathTrustees, expanded: Map<u32, NormalizedRights>) -> Seq<char> {
    if p.trustees@.len() == 0 {
        Seq::empty()
    } else {
        "<details><summary><strong>"@ + escaped(p.path@)
            + "</strong> &nbsp;<span style=\"color:#6c7a89\">("@ + text::decimal(
            p.trustees@.len(),
        ) + " entries)</span></summary>\n"@
            + table_head(entry_headings())
            + entry_rows(p.trustees@, expanded) + "</tbody></table>\n</details>\n"@
    }
}

/// Makes the section of a path.
fn path_section(p: &PathTrustees, expanded: &RightsTable) -> (r: String)
    requires
        knows_path(expanded@, *p),
    ensures
        r@ == path_text(*p, expanded@),
{
    if p.trustees.len() == 0 {
        let none: String = String::new();
        assert(none@ =~= Seq::empty());
        return none;
    }
    let mut rows: String = String::new();
    assert(rows@ =~= Seq::empty());
    for i in 0..p.trustees.len()
        invariant
            knows_path(expanded@, *p),
            rows@ == entry_rows(p.trustees@.take(i as int), expanded@),
    {
        assert(p.trustees@.take(i + 1).drop_last() =~= p.trustees@.take(i as int));
        rows.append(entry_row(&p.trustees[i], expanded).as_str());
    }
    assert(p.trustees@.take(p.trustees@.len() as int) =~= p.trustees@);
    let mut s: String = "<details><summary><strong>".to_owned();
    s.append(escape_html(p.path.0.as_str()).as_str());
    s.append("</strong> &nbsp;<span style=\"color:#6c7a89\">(");
    text::push_decimal(&mut s, p.trustees.len() as u64);
    s.append(" entries)</span></summary>\n");
    let headings: [&str; 7] = [
        "Trustee",
        "Kind",
        "Rights",
        "Mask",
        "Source",
        "Applies to",
        "Layer",
    ];
    assert(heading_texts(headings@) =~= entry_headings());
    s.append(head_of_table(&headings).as_str());
    s.append(rows.as_str());
    s.append("</tbody></table>\n</details>\n");
    s
}

/// The sections of the paths.
pub open spec fn path_sections(
    paths: Seq<PathTrustees>,
    expanded: Map<u32, NormalizedRights>,
) -> Seq<char>
    decreases paths.len(),
{
    if paths.len() == 0 {
        Seq::empty()
    } else {
        path_sections(paths.drop_last(), expanded) + path_text(paths.last(), expanded)
    }
}

/// Who has access, path by path.
pub open spec fn trustee_table(
    paths: Seq<PathTrustees>,
    expanded: Map<u32, NormalizedRights>,
) -> Seq<char> {
    "<h2>Who has access (trustees per path)</h2>\n"@ + path_sections(paths, expanded)
}

/// Writes who has access, path by path. `expanded` names the masks of the entries,
/// their generic bits expanded.
pub fn write_trustees_table(s: &mut String, paths: &[PathTrustees], expanded: &RightsTable) -> (r:
    Result<(), CoreError>)
    requires
        knows_paths(expanded@, paths@),
    ensures
        r is Ok,
        final(s)@ == old(s)@ + trustee_table(paths@, expanded@),
{
    let mut sections: String = String::new();
    assert(sections@ =~= Seq::empty());
    for i in 0..paths.len()
        invariant
            knows_paths(expanded@, paths@),
            sections@ == path_sections(paths@.take(i as int), expanded@),
    {
        assert(paths@.take(i + 1).drop_last() =~= paths@.take(i as int));
        sections.append(path_section(&paths[i], expanded).as_str());
    }
    assert(paths@.take(paths@.len() as int) =~= paths@);
    let table: String = "<h2>Who has access (trustees per path)</h2>\n".to_owned().concat(
        sections.as_str(),
    );
    s.append(table.as_str());
    Ok(())
}

/// The bottom of the page.
pub const HTML_FOOT: &'static str =
    "<p style=\"color:#555;font-size:11px;margin-top:20px\">Generated by Stars — AD Permission Analyzer</p>\n</body>\n</html>\n";

/// The HTML report of an analysis.
pub open spec fn html_text(
    result: AnalysisResult,
    rights: Map<u32, NormalizedRights>,
    expanded: Map<u32, NormalizedRights>,
    timestamp: Seq<char>,
) -> Seq<char> {
    head_text(timestamp) + summary_text(result.permissions@, result.risk_findings@) + risk_table(
        result.risk_findings@,
    ) + permission_table(result.permissions@, rights) + (if result.path_trustees@.len() == 0 {
        Seq::empty()
    } else {
        trustee_table(result.path_trustees@, expanded)
    }) + HTML_FOOT@
}

/// Renders the HTML report of an analysis. `rights` names the masks of the
/// permissions, `expanded` those of the trustees with their generic bits expanded.
pub fn render_html(
    result: &AnalysisResult,
    rights: &RightsTable,
    expanded: &RightsTable,
    timestamp: &str,
) -> (r: Result<String, CoreError>)
    requires
        rights::covers_all(rights@, result.permissions@),
        knows_paths(expanded@, result.path_trustees@),
    ensures
        r matches Ok(s) && s@ == html_text(*result, rights@, expanded@, timestamp@),
{
    let mut s: String = HTML_HEAD.to_owned().concat(
        "<p class=\"subtitle\">Report generated: ",
    ).concat(timestamp).concat("</p>\n");
    s.append(summary(result.permissions.as_slice(), result.risk_findings.as_slice()).as_str());
    write_risk_table(&mut s, result.risk_findings.as_slice())?;
    write_permissions_table(&mut s, result.permissions.as_slice(), rights)?;
    if result.path_trustees.len() > 0 {
        write_trustees_table(&mut s, result.path_trustees.as_slice(), expanded)?;
    } else {
        assert(s@ + Seq::<char>::empty() =~= s@);
    }
    s.append(HTML_FOOT);
    Ok(s)
}

/// Reads back what was escaped.
pub open spec fn unescaped(s: Seq<char>) -> Seq<char>
    decreases s.len(),
{
    if s.len() == 0 {
        Seq::empty()
    } else if s.len() >= 5 && s.take(5) == seq!['&', 'a', 'm', 'p', ';'] {
        seq!['&'] + unescaped(s.skip(5))
    } else if s.len() >= 4 && s.take(4) == seq!['&', 'l', 't', ';'] {
        seq!['<'] + unescaped(s.skip(4))
    } else if s.len() >= 4 && s.take(4) == seq!['&', 'g', 't', ';'] {
        seq!['>'] + unescaped(s.skip(4))
    } else if s.len() >= 6 && s.take(6) == seq!['&', 'q', 'u', 'o', 't', ';'] {
        seq!['"'] + unescaped(s.skip(6))
    } else {
        seq![s[0]] + unescaped(s.skip(1))
    }
}

/// Escaping goes character by character.
proof fn lemma_escaped_from_front(s: Seq<char>)
    requires
        s.len() > 0,
    ensures
        escaped(s) == escaped_char(s[0]) + escaped(s.skip(1)),
    decreases s.len(),
{
    if s.len() == 1 {
        assert(s.drop_last() =~= Seq::empty());
        assert(s.skip(1) =~= Seq::empty());
        assert(escaped(s) =~= escaped_char(s[0]) + escaped(s.skip(1)));
    } else {
        lemma_escaped_from_front(s.drop_last());
        assert(s.drop_last().skip(1) =~= s.skip(1).drop_last());
        assert(s.skip(1).last() == s.last());
        assert(escaped(s) =~= escaped_char(s[0]) + escaped(s.skip(1)));
    }
}

/// Nothing is lost in a page: what stands there reads back as the text that was shown,
/// whatever its characters.
pub proof fn law_escaped_text_reads_back(s: Seq<char>)
    ensures
        unescaped(escaped(s)) == s,
    decreases s.len(),
{
    if s.len() > 0 {
        reveal_strlit("&amp;");
        reveal_strlit("&lt;");
        reveal_strlit("&gt;");
        reveal_strlit("&quot;");
        lemma_escaped_from_front(s);
        law_escaped_text_reads_back(s.skip(1));
        let c = s[0];
        let head = escaped_char(c);
        let rest = escaped(s.skip(1));
        let all = head + rest;
        assert(all.skip(head.len() as int) =~= rest);
        assert(s =~= seq![c] + s.skip(1));
        assert(all[0] == head[0]);
        if c == '&' {
            assert(all.take(5) =~= seq!['&', 'a', 'm', 'p', ';']);
        } else if c == '<' {
            assert(all.take(4) =~= seq!['&', 'l', 't', ';']);
            assert(all.len() >= 5 ==> all.take(5)[1] == 'l');
        } else if c == '>' {
            assert(all.take(4) =~= seq!['&', 'g', 't', ';']);
            assert(all.take(4)[1] == 'g');
            assert(all.len() >= 5 ==> all.take(5)[1] == 'g');
        } else if c == '"' {
            assert(all.take(6) =~= seq!['&', 'q', 'u', 'o', 't', ';']);
            assert(all.take(4)[1] == 'q');
            assert(all.take(5)[1] == 'q');
        } else {
            assert(all.len() >= 5 ==> all.take(5)[0] == c);
            assert(all.len() >= 4 ==> all.take(4)[0] == c);
            assert(all.len() >= 6 ==> all.take(6)[0] == c);
        }
    }
}

/// Whether a badge says `label`.
pub open spec fn says(badge: Seq<char>, label: Seq<char>) -> bool {
    (label + "</span>"@).is_suffix_of(badge)
}

proof fn lemma_badge_says(class: Seq<char>, label: Seq<char>)
    ensures
        says(badge_text(class, label), label),
        says(badge_text(class, label), ">"@ + label),
{
    reveal_strlit("\">");
    reveal_strlit("\"");
    reveal_strlit(">");
    let t = badge_text(class, label);
    let end = label + "</span>"@;
    assert(t.subrange(t.len() - end.len(), t.len() as int) =~= end);
    let wide = ">"@ + label + "</span>"@;
    assert(t.subrange(t.len() - wide.len(), t.len() as int) =~= wide);
}

/// The badge of rights names the strongest combination that they hold: full control before
/// everything else, modify before reading and writing, and both of these before either.
/// Rights without any of them are told apart from no rights at all.
pub proof fn law_badge_names_the_strongest_rights(r: NormalizedRights)
    ensures
        r.full_control ==> says(rights_text(r), ">Full Control"@),
        !r.full_control && r.modify ==> says(rights_text(r), ">Modify"@),
        !r.full_control && !r.modify && r.read && r.write ==> says(
            rights_text(r),
            ">Read+Write"@,
        ),
        !r.full_control && !r.modify && r.read && !r.write ==> says(rights_text(r), ">Read"@),
        !r.full_control && !r.modify && !r.read && r.write ==> says(rights_text(r), ">Write"@),
        !r.full_control && !r.modify && !r.read && !r.write && r.raw == 0 ==> says(
            rights_text(r),
            ">None"@,
        ),
        !r.full_control && !r.modify && !r.read && !r.write && r.raw != 0 ==> says(
            rights_text(r),
            ">Special"@,
        ),
{
    reveal_strlit(">");
    reveal_strlit("Full Control");
    reveal_strlit(">Full Control");
    reveal_strlit("Modify");
    reveal_strlit(">Modify");
    reveal_strlit("Read+Write");
    reveal_strlit(">Read+Write");
    reveal_strlit("Read");
    reveal_strlit(">Read");
    reveal_strlit("Write");
    reveal_strlit(">Write");
    reveal_strlit("None");
    reveal_strlit(">None");
    reveal_strlit("Special");
    reveal_strlit(">Special");
    assert(">Full Control"@ =~= ">"@ + "Full Control"@);
    assert(">Modify"@ =~= ">"@ + "Modify"@);
    assert(">Read+Write"@ =~= ">"@ + "Read+Write"@);
    assert(">Read"@ =~= ">"@ + "Read"@);
    assert(">Write"@ =~= ">"@ + "Write"@);
    assert(">None"@ =~= ">"@ + "None"@);
    assert(">Special"@ =~= ">"@ + "Special"@);
    lemma_badge_says("badge-fc"@, "Full Control"@);
    lemma_badge_says("badge-modify"@, "Modify"@);
    lemma_badge_says("badge-write"@, "Read+Write"@);
    lemma_badge_says("badge-read"@, "Read"@);
    lemma_badge_says("badge-write"@, "Write"@);
    lemma_badge_says("badge-none"@, "None"@);
    lemma_badge_says("badge-special"@, "Special"@);
}

/// The badge of a severity says its name.
pub proof fn law_severity_badge_says_its_name(s: RiskSeverity)
    ensures
        s == RiskSeverity::Critical ==> says(severity_text(s), "CRITICAL"@),
        s == RiskSeverity::High ==> says(severity_text(s), "HIGH"@),
        s == RiskSeverity::Medium ==> says(severity_text(s), "MEDIUM"@),
        s == RiskSeverity::Low ==> says(severity_text(s), "LOW"@),
        s == RiskSeverity::Info ==> says(severity_text(s), "INFO"@),
{
    lemma_badge_says("badge-critical"@, "CRITICAL"@);
    lemma_badge_says("badge-high"@, "HIGH"@);
    lemma_badge_says("badge-medium"@, "MEDIUM"@);
    lemma_badge_says("badge-low"@, "LOW"@);
    lemma_badge_says("badge-neutral"@, "INFO"@);
}

/// Every finding has its row in the table, in their order and under the headings.
pub proof fn law_every_finding_has_a_row(a: Seq<RiskFinding>, b: Seq<RiskFinding>)
    ensures
        finding_rows(a + b) == finding_rows(a) + finding_rows(b),
        forall|f: RiskFinding| #[trigger]
            finding_rows(seq![f]) == row_text(Seq::empty(), finding_cells(f)),
        forall|f: RiskFinding| #[trigger]
            finding_text(f) == row_text(Seq::empty(), finding_cells(f)),
        a.len() > 0 ==> text::occurs_in(
            table_head(finding_headings()) + finding_rows(a),
            risk_table(a),
        ),
    decreases b.len(),
{
    reveal_with_fuel(finding_rows, 2);
    assert forall|f: RiskFinding| #[trigger] finding_rows(seq![f]) == finding_text(f) by {
        assert(seq![f].drop_last() =~= Seq::empty());
        assert(finding_rows(seq![f]) =~= finding_text(f));
    }
    if b.len() == 0 {
        assert(a + b =~= a);
        assert(finding_rows(a) + finding_rows(b) =~= finding_rows(a));
    } else {
        law_every_finding_has_a_row(a, b.drop_last());
        assert((a + b).drop_last() =~= a + b.drop_last());
        assert(finding_rows(a + b) =~= finding_rows(a) + finding_rows(b));
    }
    if a.len() > 0 {
        text::lemma_pair_occurs(
            "<h2>Risk Findings</h2>\n"@,
            table_head(finding_headings()),
            finding_rows(a),
            "</tbody></table>\n"@,
        );
    }
}

/// Every permission has its row in the table, in their order and under the headings.
pub proof fn law_every_permission_has_a_row(
    a: Seq<EffectivePermission>,
    b: Seq<EffectivePermission>,
    rights: Map<u32, NormalizedRights>,
)
    ensures
        permission_rows(a + b, rights) == permission_rows(a, rights) + permission_rows(b, rights),
        forall|p: EffectivePermission| #[trigger]
            permission_rows(seq![p], rights) == row_text(Seq::empty(), permission_cells(p, rights)),
        forall|p: EffectivePermission| #[trigger]
            permission_text(p, rights) == row_text(Seq::empty(), permission_cells(p, rights)),
        text::occurs_in(
            table_head(permission_headings()) + permission_rows(a, rights),
            permission_table(a, rights),
        ),
    decreases b.len(),
{
    reveal_with_fuel(permission_rows, 2);
    assert forall|p: EffectivePermission| #[trigger]
        permission_rows(seq![p], rights) == permission_text(p, rights) by {
        assert(seq![p].drop_last() =~= Seq::empty());
        assert(permission_rows(seq![p], rights) =~= permission_text(p, rights));
    }
    if b.len() == 0 {
        assert(a + b =~= a);
        assert(permission_rows(a, rights) + permission_rows(b, rights) =~= permission_rows(
            a,
            rights,
        ));
    } else {
        law_every_permission_has_a_row(a, b.drop_last(), rights);
        assert((a + b).drop_last() =~= a + b.drop_last());
        text::lemma_assoc(
            permission_rows(a, rights),
            permission_rows(b.drop_last(), rights),
            permission_text(b.last(), rights),
        );
    }
    text::lemma_pair_occurs(
        "<h2>Effective Permissions</h2>\n"@,
        table_head(permission_headings()),
        permission_rows(a, rights),
        "</tbody></table>\n"@,
    );
}

/// Every entry of a path has its row, in their order.
pub proof fn law_every_entry_has_a_row(
    a: Seq<PathTrusteeEntry>,
    b: Seq<PathTrusteeEntry>,
    expanded: Map<u32, NormalizedRights>,
)
    ensures
        entry_rows(a + b, expanded) == entry_rows(a, expanded) + entry_rows(b, expanded),
        forall|e: PathTrusteeEntry| #[trigger]
            entry_rows(seq![e], expanded) == (match e {
                PathTrusteeEntry::Ace(t) => row_text(Seq::empty(), ace_cells(t, expanded)),
                PathTrusteeEntry::Diagnostic { category, message } => row_text(
                    " style=\"background-color:#fff7d6\""@,
                    hint_cells(category, message@),
                ),
            }),
    decreases b.len(),
{
    reveal_with_fuel(entry_rows, 2);
    assert forall|e: PathTrusteeEntry| #[trigger]
        entry_rows(seq![e], expanded) == entry_text(e, expanded) by {
        assert(seq![e].drop_last() =~= Seq::empty());
        let t = entry_text(e, expanded);
        assert(Seq::empty() + t =~= t);
    }
    if b.len() == 0 {
        assert(a + b =~= a);
        let t = entry_rows(a, expanded);
        assert(t + Seq::empty() =~= t);
    } else {
        law_every_entry_has_a_row(a, b.drop_last(), expanded);
        assert((a + b).drop_last() =~= a + b.drop_last());
        text::lemma_assoc(
            entry_rows(a, expanded),
            entry_rows(b.drop_last(), expanded),
            entry_text(b.last(), expanded),
        );
    }
}

/// The section of a path tells the path and the number of its entries, and holds their rows
/// under the headings. A path without entries has no section.
pub proof fn law_section_holds_its_rows(p: PathTrustees, expanded: Map<u32, NormalizedRights>)
    ensures
        p.trustees@.len() == 0 ==> path_text(p, expanded).len() == 0,
        p.trustees@.len() > 0 ==> {
            &&& text::occurs_in(
                table_head(entry_headings()) + entry_rows(p.trustees@, expanded),
                path_text(p, expanded),
            )
            &&& text::occurs_in(escaped(p.path@), path_text(p, expanded))
            &&& text::occurs_in(text::decimal(p.trustees@.len()), path_text(p, expanded))
        },
{
    if p.trustees@.len() > 0 {
        let open = "<details><summary><strong>"@;
        let path = escaped(p.path@);
        let mid = "</strong> &nbsp;<span style=\"color:#6c7a89\">("@;
        let n = text::decimal(p.trustees@.len());
        let after = " entries)</span></summary>\n"@;
        let head = table_head(entry_headings());
        let rows = entry_rows(p.trustees@, expanded);
        let end = "</tbody></table>\n</details>\n"@;
        text::lemma_pair_occurs(open + path + mid + n + after, head, rows, end);
        lemma_section_parts_occur(open, path, mid, n, after + head + rows + end);
        text::lemma_assoc(open + path + mid + n, after, head);
        text::lemma_assoc(open + path + mid + n, after + head, rows);
        text::lemma_assoc(open + path + mid + n, after + head + rows, end);
    }
}

/// What is put together holds its parts.
proof fn lemma_section_parts_occur(
    a: Seq<char>,
    path: Seq<char>,
    b: Seq<char>,
    n: Seq<char>,
    end: Seq<char>,
)
    ensures
        text::occurs_in(path, a + path + b + n + end),
        text::occurs_in(n, a + path + b + n + end),
{
    let r = a + path + b + n + end;
    text::lemma_part_occurs(a, path, b + n + end);
    assert(r =~= a + path + (b + n + end));
    text::lemma_part_occurs(a + path + b, n, end);
}

/// The report holds its parts: the time, the summary, the findings, the permissions, and who
/// has access to each path.
pub proof fn law_report_holds_its_parts(
    result: AnalysisResult,
    rights: Map<u32, NormalizedRights>,
    expanded: Map<u32, NormalizedRights>,
    timestamp: Seq<char>,
    i: int,
)
    ensures
        ({
            let r = html_text(result, rights, expanded, timestamp);
            &&& text::occurs_in(timestamp, r)
            &&& text::occurs_in(summary_text(result.permissions@, result.risk_findings@), r)
            &&& text::occurs_in(risk_table(result.risk_findings@), r)
            &&& text::occurs_in(permission_table(result.permissions@, rights), r)
            &&& 0 <= i < result.path_trustees@.len() ==> text::occurs_in(
                path_text(result.path_trustees@[i], expanded),
                r,
            )
        }),
{
    let r = html_text(result, rights, expanded, timestamp);
    let head = head_text(timestamp);
    let a = summary_text(result.permissions@, result.risk_findings@);
    let b = risk_table(result.risk_findings@);
    let c = permission_table(result.permissions@, rights);
    let d = if result.path_trustees@.len() == 0 {
        Seq::empty()
    } else {
        trustee_table(result.path_trustees@, expanded)
    };
    lemma_parts_occur(head, a, b, c, d, HTML_FOOT@);
    text::lemma_part_occurs(
        HTML_HEAD@ + "<p class=\"subtitle\">Report generated: "@,
        timestamp,
        "</p>\n"@,
    );
    text::lemma_occurs_transitive(timestamp, head, r);
    if 0 <= i < result.path_trustees@.len() {
        let title = "<h2>Who has access (trustees per path)</h2>\n"@;
        let (x, y) = lemma_section_is_there(result.path_trustees@, expanded, i);
        let part = path_text(result.path_trustees@[i], expanded);
        text::lemma_part_occurs(x, part, y);
        text::lemma_part_occurs(title, path_sections(result.path_trustees@, expanded), Seq::empty());
        assert(title + path_sections(result.path_trustees@, expanded) + Seq::empty() =~= title
            + path_sections(result.path_trustees@, expanded));
        text::lemma_occurs_transitive(part, path_sections(result.path_trustees@, expanded), d);
        text::lemma_occurs_transitive(part, d, r);
    }
}

/// What is put together holds its parts.
proof fn lemma_parts_occur(
    head: Seq<char>,
    a: Seq<char>,
    b: Seq<char>,
    c: Seq<char>,
    d: Seq<char>,
    end: Seq<char>,
)
    ensures
        text::occurs_in(head, head + a + b + c + d + end),
        text::occurs_in(a, head + a + b + c + d + end),
        text::occurs_in(b, head + a + b + c + d + end),
        text::occurs_in(c, head + a + b + c + d + end),
        text::occurs_in(d, head + a + b + c + d + end),
{
    let r = head + a + b + c + d + end;
    let none = Seq::<char>::empty();
    text::lemma_part_occurs(none, head, a + b + c + d + end);
    assert(r =~= none + head + (a + b + c + d + end));
    text::lemma_part_occurs(head, a, b + c + d + end);
    assert(r =~= head + a + (b + c + d + end));
    text::lemma_part_occurs(head + a, b, c + d + end);
    assert(r =~= head + a + b + (c + d + end));
    text::lemma_part_occurs(head + a + b, c, d + end);
    assert(r =~= head + a + b + c + (d + end));
    text::lemma_part_occurs(head + a + b + c, d, end);
}

/// What stands before and behind the section of a path.
proof fn lemma_section_is_there(
    paths: Seq<PathTrustees>,
    expanded: Map<u32, NormalizedRights>,
    i: int,
) -> (r: (Seq<char>, Seq<char>))
    requires
        0 <= i < paths.len(),
    ensures
        path_sections(paths, expanded) == r.0 + path_text(paths[i], expanded) + r.1,
    decreases paths.len(),
{
    let init = paths.drop_last();
    if i == paths.len() - 1 {
        let before = path_sections(init, expanded);
        assert(path_sections(paths, expanded) =~= before + path_text(paths[i], expanded)
            + Seq::empty());
        (before, Seq::empty())
    } else {
        let (x, y) = lemma_section_is_there(init, expanded, i);
        let behind = y + path_text(paths.last(), expanded);
        assert(path_sections(paths, expanded) =~= x + path_text(paths[i], expanded) + behind);
        (x, behind)
    }
}

/// What is incomplete has its badge: entries that could not be evaluated with their number, a
/// share that could not be read with the reason, and missing local groups with the reason.
/// Behind these every marker has its badge, in their order, and there are no other badges.
pub proof fn law_every_gap_has_a_badge(p: EffectivePermission, i: int)
    ensures
        ({
            let u: int = if p.unsupported_ace_count > 0 {
                1
            } else {
                0
            };
            let s: int = if p.share_status is ReadFailed {
                1
            } else {
                0
            };
            let l: int = if p.local_group_status is NotAvailable {
                1
            } else {
                0
            };
            &&& badges(p).len() == u + s + l + p.diagnostics@.len()
            &&& p.unsupported_ace_count > 0 ==> text::occurs_in(
                text::decimal(p.unsupported_ace_count as nat) + " unsupported ACE(s)"@,
                badges(p)[0],
            )
            &&& p.share_status matches ShareEvalStatus::ReadFailed(reason) ==> text::occurs_in(
                escaped(reason@),
                badges(p)[u],
            )
            &&& p.local_group_status matches LocalGroupEvalStatus::NotAvailable(reason)
                ==> text::occurs_in(escaped(reason@), badges(p)[u + s])
            &&& 0 <= i < p.diagnostics@.len() ==> badges(p)[u + s + l + i] == marker_text(
                p.diagnostics@[i],
            )
        }),
{
    reveal_strlit(" unsupported ACE(s)</span>");
    reveal_strlit(" unsupported ACE(s)");
    let n = text::decimal(p.unsupported_ace_count as nat);
    let a =
        "<span class=\"badge badge-medium\" title=\"DACL evaluation may be incomplete\">⚠ "@;
    let b = " unsupported ACE(s)</span>"@;
    text::lemma_found_at(n + " unsupported ACE(s)"@, a + n + b, a.len() as int);
    if let ShareEvalStatus::ReadFailed(reason) = p.share_status {
        text::lemma_part_occurs(
            "<span class=\"badge badge-high\" title=\""@,
            escaped(reason@),
            "\">⚠ share DACL unreadable</span>"@,
        );
    }
    if let LocalGroupEvalStatus::NotAvailable(reason) = p.local_group_status {
        text::lemma_part_occurs(
            "<span class=\"badge badge-neutral\" title=\""@,
            escaped(reason@),
            "\">ℹ local groups unavailable</span>"@,
        );
    }
}

/// The cell holds every badge, and a dash where there is none.
pub proof fn law_cell_holds_every_badge(p: EffectivePermission, i: int)
    ensures
        badges(p).len() == 0 ==> diagnostics_cell(p) == "—"@,
        0 <= i < badges(p).len() ==> text::occurs_in(badges(p)[i], diagnostics_cell(p)),
{
    if 0 <= i < badges(p).len() {
        lemma_piece_is_joined(badges(p), " "@, i);
    }
}

/// Every piece occurs in what is joined from them.
proof fn lemma_piece_is_joined(pieces: Seq<Seq<char>>, sep: Seq<char>, i: int)
    requires
        0 <= i < pieces.len(),
    ensures
        text::occurs_in(pieces[i], text::joined(pieces, sep)),
    decreases pieces.len(),
{
    let a = pieces.drop_last();
    let last = pieces.last();
    assert(a + seq![last] =~= pieces);
    assert(seq![last].drop_last() =~= Seq::empty());
    reveal_with_fuel(text::joined, 2);
    if a.len() == 0 {
        assert(text::joined(pieces, sep) =~= last);
        text::lemma_found_at(pieces[i], text::joined(pieces, sep), 0);
    } else {
        text::law_joining_separates(a, seq![last], sep);
        assert(text::joined(seq![last], sep) =~= last);
        let front = text::joined(a, sep);
        if i < a.len() {
            lemma_piece_is_joined(a, sep, i);
            text::lemma_assoc(front, sep, last);
            text::lemma_first_part_leads(front, sep + last);
            text::lemma_occurs_transitive(pieces[i], front, front + sep + last);
        } else {
            text::lemma_first_part_leads(front + sep, last);
        }
    }
}

/// The badge of a marker has the colour of the attention that the marker deserves.
pub proof fn law_marker_badge_has_its_colour(d: PermissionDiagnostic)
    ensures
        d.attention() == DiagnosticSeverity::Neutral ==> text::occurs_in(
            "badge-neutral"@,
            marker_text(d),
        ),
        d.attention() == DiagnosticSeverity::Notice ==> text::occurs_in(
            "badge-medium"@,
            marker_text(d),
        ),
        d.attention() == DiagnosticSeverity::Concern ==> text::occurs_in(
            "badge-high"@,
            marker_text(d),
        ),
{
    text::lemma_part_occurs("<span class=\"badge "@, marker_class(d.attention()), marker_rest(d));
}

/// The badge of a marker that carries a number shows it, with what was counted.
pub proof fn law_marker_badge_shows_its_number(d: PermissionDiagnostic)
    ensures
        match d {
            PermissionDiagnostic::UnsupportedShareAces { count } => text::occurs_in(
                text::decimal(count as nat) + " unsupported share ACE(s)</span>"@,
                marker_text(d),
            ),
            PermissionDiagnostic::UnsupportedNtfsAces { count } => text::occurs_in(
                text::decimal(count as nat) + " unsupported NTFS ACE(s) — approximate result</span>"@,
                marker_text(d),
            ),
            PermissionDiagnostic::SidHistoryPresent { count } => text::occurs_in(
                text::decimal(count as nat) + " historical SID(s) not evaluated</span>"@,
                marker_text(d),
            ),
            PermissionDiagnostic::SidHistoryEvaluated { count } => text::occurs_in(
                text::decimal(count as nat) + " historical SID(s) evaluated</span>"@,
                marker_text(d),
            ),
            PermissionDiagnostic::GroupSidHistoryEvaluated { count, .. } => text::occurs_in(
                text::decimal(count as nat) + " historical group SID(s) evaluated</span>"@,
                marker_text(d),
            ),
            PermissionDiagnostic::GroupSidHistoryPresent { count } => text::occurs_in(
                text::decimal(count as nat) + " historical group SID(s) not evaluated</span>"@,
                marker_text(d),
            ),
            PermissionDiagnostic::MembersViaPrimaryGroupIncluded { count } => text::occurs_in(
                text::decimal(count as nat) + " member(s) via primary group</span>"@,
                marker_text(d),
            ),
            PermissionDiagnostic::NonCanonicalDaclOrder { at_index } => text::occurs_in(
                text::decimal(at_index as nat),
                marker_text(d),
            ),
            _ => true,
        },
{
    let badge = marker_text(d);
    let rest = marker_rest(d);
    let open = "<span class=\"badge "@ + marker_class(d.attention());
    let title = "\" title=\""@ + escaped(d.sentence());
    match d {
        PermissionDiagnostic::UnsupportedShareAces { count } => {
            lemma_share_entries_are_counted(count);
            lemma_tail_occurs(
                open,
                rest,
                text::decimal(count as nat) + " unsupported share ACE(s)</span>"@,
            );
        },
        PermissionDiagnostic::UnsupportedNtfsAces { count } => {
            lemma_ntfs_entries_are_counted(count);
            lemma_tail_occurs(
                open,
                rest,
                text::decimal(count as nat) + " unsupported NTFS ACE(s) — approximate result</span>"@,
            );
        },
        PermissionDiagnostic::SidHistoryPresent { count } => {
            lemma_historical_sids_are_counted(count);
            lemma_tail_occurs(
                open,
                rest,
                text::decimal(count as nat) + " historical SID(s) not evaluated</span>"@,
            );
        },
        PermissionDiagnostic::SidHistoryEvaluated { count } => {
            let n = text::decimal(count as nat);
            text::lemma_assoc(title + "\">ℹ "@, n, " historical SID(s) evaluated</span>"@);
            text::lemma_first_part_leads(title + "\">ℹ "@, n + " historical SID(s) evaluated</span>"@);
            lemma_tail_occurs(open, rest, n + " historical SID(s) evaluated</span>"@);
        },
        PermissionDiagnostic::GroupSidHistoryEvaluated { count, .. } => {
            let n = text::decimal(count as nat);
            text::lemma_assoc(title + "\">ℹ "@, n, " historical group SID(s) evaluated</span>"@);
            text::lemma_first_part_leads(title + "\">ℹ "@, n + " historical group SID(s) evaluated</span>"@);
            lemma_tail_occurs(open, rest, n + " historical group SID(s) evaluated</span>"@);
        },
        PermissionDiagnostic::GroupSidHistoryPresent { count } => {
            let n = text::decimal(count as nat);
            text::lemma_assoc(title + "\">⚠ "@, n, " historical group SID(s) not evaluated</span>"@);
            text::lemma_first_part_leads(title + "\">⚠ "@, n + " historical group SID(s) not evaluated</span>"@);
            lemma_tail_occurs(open, rest, n + " historical group SID(s) not evaluated</span>"@);
        },
        PermissionDiagnostic::MembersViaPrimaryGroupIncluded { count } => {
            let n = text::decimal(count as nat);
            text::lemma_assoc(title + "\">ℹ "@, n, " member(s) via primary group</span>"@);
            text::lemma_first_part_leads(title + "\">ℹ "@, n + " member(s) via primary group</span>"@);
            lemma_tail_occurs(open, rest, n + " member(s) via primary group</span>"@);
        },
        PermissionDiagnostic::NonCanonicalDaclOrder { at_index } => {
            lemma_index_is_shown(at_index);
            lemma_tail_occurs(open, rest, text::decimal(at_index as nat));
        },
        _ => {},
    }
}

/// A part of the last part of a text occurs in it.
proof fn lemma_tail_occurs(open: Seq<char>, rest: Seq<char>, part: Seq<char>)
    requires
        text::occurs_in(part, rest),
    ensures
        text::occurs_in(part, open + rest),
{
    text::lemma_first_part_leads(open, rest);
    text::lemma_occurs_transitive(part, rest, open + rest);
}

/// Skipped entries of a share are counted.
proof fn lemma_share_entries_are_counted(count: usize)
    ensures
        text::occurs_in(
            text::decimal(count as nat) + " unsupported share ACE(s)</span>"@,
            marker_rest(PermissionDiagnostic::UnsupportedShareAces { count }),
        ),
{
    let rest = marker_rest(PermissionDiagnostic::UnsupportedShareAces { count });
    let part = text::decimal(count as nat) + " unsupported share ACE(s)</span>"@;
    text::lemma_found_at(part, rest, rest.len() - part.len());
}

/// Skipped entries of an object are counted.
proof fn lemma_ntfs_entries_are_counted(count: usize)
    ensures
        text::occurs_in(
            text::decimal(count as nat) + " unsupported NTFS ACE(s) — approximate result</span>"@,
            marker_rest(PermissionDiagnostic::UnsupportedNtfsAces { count }),
        ),
{
    let rest = marker_rest(PermissionDiagnostic::UnsupportedNtfsAces { count });
    let part = text::decimal(count as nat) + " unsupported NTFS ACE(s) — approximate result</span>"@;
    text::lemma_found_at(part, rest, rest.len() - part.len());
}

/// Historical SIDs that were left out are counted.
proof fn lemma_historical_sids_are_counted(count: usize)
    ensures
        text::occurs_in(
            text::decimal(count as nat) + " historical SID(s) not evaluated</span>"@,
            marker_rest(PermissionDiagnostic::SidHistoryPresent { count }),
        ),
{
    let rest = marker_rest(PermissionDiagnostic::SidHistoryPresent { count });
    let part = text::decimal(count as nat) + " historical SID(s) not evaluated</span>"@;
    text::lemma_found_at(part, rest, rest.len() - part.len());
}

/// The place of the first entry out of order is shown.
proof fn lemma_index_is_shown(at_index: usize)
    ensures
        text::occurs_in(
            text::decimal(at_index as nat),
            marker_rest(PermissionDiagnostic::NonCanonicalDaclOrder { at_index }),
        ),
{
    let rest = marker_rest(PermissionDiagnostic::NonCanonicalDaclOrder { at_index });
    let start =
        "\" title=\"DACL is not in Windows-canonical order (first violating ACE at index "@;
    text::lemma_found_at(text::decimal(at_index as nat), rest, start.len() as int);
}

/// The badge of a marker that carries a reason shows it.
#[verifier::spinoff_prover]
pub proof fn law_marker_badge_shows_its_reason(d: PermissionDiagnostic)
    ensures
        match d {
            PermissionDiagnostic::IdentityLookupFailed { reason } => text::occurs_in(
                escaped(reason@),
                marker_text(d),
            ),
            PermissionDiagnostic::GroupResolutionFailed { reason } => text::occurs_in(
                escaped(reason@),
                marker_text(d),
            ),
            PermissionDiagnostic::PersistedEvidenceDecodeFailed { detail } => text::occurs_in(
                escaped(detail@),
                marker_text(d),
            ),
            PermissionDiagnostic::GroupMemberEnumerationIncomplete { .. } => text::occurs_in(
                escaped(d.sentence()),
                marker_text(d),
            ),
            _ => true,
        },
{
    let badge = marker_text(d);
    let rest = marker_rest(d);
    text::lemma_first_part_leads("<span class=\"badge "@ + marker_class(d.attention()), rest);
    match d {
        PermissionDiagnostic::IdentityLookupFailed { reason } => {
            lemma_start_occurs(
                badge,
                rest,
                "\" title=\"LDAP identity lookup failed: "@,
                escaped(reason@),
            );
        },
        PermissionDiagnostic::GroupResolutionFailed { reason } => {
            lemma_start_occurs(
                badge,
                rest,
                "\" title=\"Recursive group resolution failed or was skipped: "@,
                escaped(reason@),
            );
        },
        PermissionDiagnostic::PersistedEvidenceDecodeFailed { detail } => {
            lemma_start_occurs(
                badge,
                rest,
                "\" title=\"This historical row could not be fully decoded from the database: "@,
                escaped(detail@),
            );
        },
        PermissionDiagnostic::GroupMemberEnumerationIncomplete { .. } => {
            lemma_start_occurs(badge, rest, "\" title=\""@, escaped(d.sentence()));
        },
        _ => {},
    }
}

/// What follows the start of a part of a text occurs in it.
proof fn lemma_start_occurs(whole: Seq<char>, part: Seq<char>, start: Seq<char>, x: Seq<char>)
    requires
        text::occurs_in(part, whole),
        start.len() + x.len() <= part.len(),
        part.subrange(start.len() as int, (start.len() + x.len()) as int) =~= x,
    ensures
        text::occurs_in(x, whole),
{
    assert(text::occurs_at(x, part, start.len() as int));
    text::lemma_occurs_transitive(x, part, whole);
}

/// The steps of an explanation are shown one behind the other, each escaped and marked as a
/// step.
pub proof fn law_every_step_is_shown(steps: Seq<Seq<char>>, step: Seq<char>)
    ensures
        steps_text(Seq::empty()).len() == 0,
        steps_text(steps).is_prefix_of(steps_text(steps.push(step))),
        text::occurs_in(
            escaped(step),
            steps_text(steps.push(step)).skip(steps_text(steps).len() as int),
        ),
{
    assert(steps.push(step).drop_last() =~= steps);
    let front = steps_text(steps);
    let own = "<div class=\"step\">• "@ + escaped(step) + "</div>"@;
    text::lemma_first_part_leads(front, own);
    text::lemma_part_occurs("<div class=\"step\">• "@, escaped(step), "</div>"@);
    assert((front + own).skip(front.len() as int) =~= own);
}

/// What an entry applies to is told by four bits, wherever they stand: one for files, one for
/// subfolders, one for leaving out the folder itself, and one for stopping at the next level.
pub proof fn law_four_bits_tell_what_applies(inheritance: u32, propagation: u32)
    ensures
        ({
            let flags = inheritance | propagation;
            let files = flags & 1 == 1;
            let folders = flags & 2 == 2;
            let once = flags & 4 == 4;
            let inner = flags & 8 == 8;
            let shown = applies_text(inheritance, propagation);
            let note = " (no propagation)"@;
            &&& applies_text(propagation, inheritance) == shown
            &&& once ==> note.is_suffix_of(shown)
            &&& !once && files && folders && inner ==> shown == "Subfolders and files only"@
            &&& !once && files && folders && !inner ==> shown
                == "This folder, subfolders and files"@
            &&& !once && !files && folders && inner ==> shown == "Subfolders only"@
            &&& !once && !files && folders && !inner ==> shown == "This folder and subfolders"@
            &&& !once && files && !folders && inner ==> shown == "Files only"@
            &&& !once && files && !folders && !inner ==> shown == "This folder and files"@
            &&& !once && !files && !folders ==> shown == "This folder only"@
            &&& once && files && folders && inner ==> shown == "Subfolders and files only"@ + note
            &&& once && files && folders && !inner ==> shown
                == "This folder, subfolders and files"@ + note
            &&& once && !files && folders && inner ==> shown == "Subfolders only"@ + note
            &&& once && !files && folders && !inner ==> shown == "This folder and subfolders"@
                + note
            &&& once && files && !folders && inner ==> shown == "Files only"@ + note
            &&& once && files && !folders && !inner ==> shown == "This folder and files"@ + note
            &&& once && !files && !folders ==> shown == "This folder only"@ + note
        }),
{
    let flags = inheritance | propagation;
    assert(flags == propagation | inheritance && (flags & 1 == 1 || flags & 1 == 0) && (flags & 2
        == 2 || flags & 2 == 0) && (flags & 4 == 4 || flags & 4 == 0) && (flags & 8 == 8 || flags
        & 8 == 0)) by (bit_vector)
        requires
            flags == inheritance | propagation,
    ;
    if flags & 4 == 4 {
        let shown = applies_text(inheritance, propagation);
        let note = " (no propagation)"@;
        let base = shown.take(shown.len() - note.len());
        assert(shown =~= base + note);
        text::lemma_first_part_leads(base, note);
    }
}

/// The badge of a marker that carries nothing ends with a short name of its kind.
#[verifier::rlimit(60)]
#[verifier::spinoff_prover]
pub proof fn law_marker_badge_names_its_kind(d: PermissionDiagnostic)
    ensures
        d is DomainGroupRecursionIncomplete ==> ">ℹ SAM fallback — nested groups not resolved</span>"@.is_suffix_of(
            marker_rest(d),
        ),
        d is IdentityDisabled ==> ">ℹ disabled account</span>"@.is_suffix_of(
            marker_rest(d),
        ),
        d is IdentityNotInConfiguredLdapBase ==> ">ℹ identity outside configured LDAP base</span>"@.is_suffix_of(
            marker_rest(d),
        ),
        d is IdentityDisabledStatusUnknown ==> ">ℹ disabled status unknown</span>"@.is_suffix_of(
            marker_rest(d),
        ),
        d is OwnerRightsAceApplied ==> ">ℹ OWNER RIGHTS ACE applied</span>"@.is_suffix_of(
            marker_rest(d),
        ),
        d is IdentityResolvedViaForeignSecurityPrincipal ==> ">ℹ resolved via FSP — trust-side groups unknown</span>"@.is_suffix_of(
            marker_rest(d),
        ),
        d is GroupResolutionViaGlobalCatalog ==> ">ℹ groups via Global Catalog — may be partial</span>"@.is_suffix_of(
            marker_rest(d),
        ),
        d is TrustBoundaryEffectsNotModeled ==> ">ℹ trust-boundary effects not modeled</span>"@.is_suffix_of(
            marker_rest(d),
        ),
{
    match d {
        PermissionDiagnostic::DomainGroupRecursionIncomplete => {
            reveal_strlit("\" title=\"Group resolution ran through the SAM/LSA fallback (no LDAP). NetUserGetGroups returns only direct global groups — nested domain groups are not recursively resolved. ACEs targeting deeply nested groups may be missed; treat the finding as incomplete.\">ℹ SAM fallback — nested groups not resolved</span>");
            reveal_strlit(">ℹ SAM fallback — nested groups not resolved</span>");
            let rest = marker_rest(d);
            let end = ">ℹ SAM fallback — nested groups not resolved</span>"@;
            assert(rest.subrange(rest.len() - end.len(), rest.len() as int) =~= end);
        },
        PermissionDiagnostic::IdentityDisabled => {
            reveal_strlit("\" title=\"The identity is flagged as disabled in AD (userAccountControl ACCOUNTDISABLE). Computed rights are ACL-theoretically correct, but the account normally cannot authenticate / access SMB.\">ℹ disabled account</span>");
            reveal_strlit(">ℹ disabled account</span>");
            let rest = marker_rest(d);
            let end = ">ℹ disabled account</span>"@;
            assert(rest.subrange(rest.len() - end.len(), rest.len() as int) =~= end);
        },
        PermissionDiagnostic::IdentityNotInConfiguredLdapBase => {
            reveal_strlit("\" title=\"The user was resolved via Windows LSA but the configured LDAP base DN does not index that SID (typical for multi-domain forests or trusted domains). Domain group recursion ran only through the user's home domain — nested cross-domain memberships may be missing. Treat the finding as incomplete.\">ℹ identity outside configured LDAP base</span>");
            reveal_strlit(">ℹ identity outside configured LDAP base</span>");
            let rest = marker_rest(d);
            let end = ">ℹ identity outside configured LDAP base</span>"@;
            assert(rest.subrange(rest.len() - end.len(), rest.len() as int) =~= end);
        },
        PermissionDiagnostic::IdentityDisabledStatusUnknown => {
            reveal_strlit("\" title=\"The 'disabled' flag for this identity could not be determined (e.g. SAM/LSA fallback without NetUserGetInfo, or LDAP did not return the user object). Computed rights are ACL-theoretically correct, but whether the account is enabled is unknown.\">ℹ disabled status unknown</span>");
            reveal_strlit(">ℹ disabled status unknown</span>");
            let rest = marker_rest(d);
            let end = ">ℹ disabled status unknown</span>"@;
            assert(rest.subrange(rest.len() - end.len(), rest.len() as int) =~= end);
        },
        PermissionDiagnostic::OwnerRightsAceApplied => {
            reveal_strlit("\" title=\"The DACL contains an OWNER RIGHTS (S-1-3-4) entry and the analyzed identity is the object's owner. Per Windows semantics that entry governs the owner's rights — the implicit READ_CONTROL + WRITE_DAC owner grant was suppressed. The evaluation is exact; this is informational.\">ℹ OWNER RIGHTS ACE applied</span>");
            reveal_strlit(">ℹ OWNER RIGHTS ACE applied</span>");
            let rest = marker_rest(d);
            let end = ">ℹ OWNER RIGHTS ACE applied</span>"@;
            assert(rest.subrange(rest.len() - end.len(), rest.len() as int) =~= end);
        },
        PermissionDiagnostic::IdentityResolvedViaForeignSecurityPrincipal => {
            reveal_strlit("\" title=\"The identity is a principal from a trusted forest, found as a Foreign Security Principal object in the home domain. Home-domain group memberships were resolved through the FSP — but the principal's memberships in its own forest are unknown. Treat the finding as incomplete.\">ℹ resolved via FSP — trust-side groups unknown</span>");
            reveal_strlit(">ℹ resolved via FSP — trust-side groups unknown</span>");
            let rest = marker_rest(d);
            let end = ">ℹ resolved via FSP — trust-side groups unknown</span>"@;
            assert(rest.subrange(rest.len() - end.len(), rest.len() as int) =~= end);
        },
        PermissionDiagnostic::GroupResolutionViaGlobalCatalog => {
            reveal_strlit("\"                          title=\"Group memberships were resolved through                          a Global Catalog bind. Only universal group                          memberships replicate fully to the GC — global                          and domain-local memberships of foreign domains                          can be missing. Treat the finding as                          incomplete.\">ℹ groups via Global Catalog — may be partial</span>");
            reveal_strlit(">ℹ groups via Global Catalog — may be partial</span>");
            let rest = marker_rest(d);
            let end = ">ℹ groups via Global Catalog — may be partial</span>"@;
            assert(rest.subrange(rest.len() - end.len(), rest.len() as int) =~= end);
        },
        PermissionDiagnostic::TrustBoundaryEffectsNotModeled => {
            reveal_strlit("\" title=\"The identity was resolved across a domain / trust boundary (foreign security principal, or outside the configured LDAP base). If that boundary is a forest trust, SID filtering / quarantine and Selective Authentication may reduce actual access — these runtime trust effects are not modeled, so the shown access can be too high for a cross-forest identity.\">ℹ trust-boundary effects not modeled</span>");
            reveal_strlit(">ℹ trust-boundary effects not modeled</span>");
            let rest = marker_rest(d);
            let end = ">ℹ trust-boundary effects not modeled</span>"@;
            assert(rest.subrange(rest.len() - end.len(), rest.len() as int) =~= end);
        },
        _ => {},
    }
}

} // verus!
