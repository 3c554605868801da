//! The course of a scan: what is counted, kept and shown.

use vstd::prelude::*;

use crate::fs::walker::WalkError;
use crate::model::access::EffectivePermission;
use crate::model::identity::Identity;
use crate::model::rights::NormalizedRights;
use crate::model::scan::ScanError;
use crate::model::sid::NormalizedPath;
use crate::model::trustee::PathTrustees;
use crate::text;

verus! {

/// Width of a line across the console.
pub const WIDTH: usize = 65;

/// A heavy line across the console.
pub open spec fn heavy_line() -> Seq<char> {
    text::repeated('═', 65)
}

/// A light line below a title.
pub open spec fn light_line() -> Seq<char> {
    text::repeated('─', 63)
}

/// Draws a heavy line.
pub fn heavy() -> (r: String)
    ensures
        r@ == heavy_line(),
{
    text::repeat_char('═', WIDTH)
}

/// Draws a light line.
pub fn light() -> (r: String)
    ensures
        r@ == light_line(),
{
    text::repeat_char('─', WIDTH - 2)
}

/// What a scan has found so far.
#[derive(Debug)]
pub struct ScanProgress {
    pub permissions: Vec<EffectivePermission>,
    pub path_trustees: Vec<PathTrustees>,
    pub errors: Vec<ScanError>,
    /// Number of paths with entries that could not be evaluated.
    pub unsupported_ace_paths: usize,
    /// Number of paths that could not be read.
    pub walk_errors: usize,
}

/// Number of permissions with entries that could not be evaluated.
pub open spec fn unsupported_paths(permissions: Seq<EffectivePermission>) -> nat
    decreases permissions.len(),
{
    if permissions.len() == 0 {
        0
    } else {
        unsupported_paths(permissions.drop_last()) + (if permissions.last().unsupported_ace_count
            > 0 {
            1nat
        } else {
            0
        })
    }
}

proof fn lemma_unsupported_paths(permissions: Seq<EffectivePermission>)
    ensures
        unsupported_paths(permissions) <= permissions.len(),
    decreases permissions.len(),
{
    if permissions.len() > 0 {
        lemma_unsupported_paths(permissions.drop_last());
    }
}

/// The line of an error.
pub open spec fn error_line(path: Seq<char>, message: Seq<char>) -> Seq<char> {
    "  [Error]         "@ + path + ": "@ + message
}

/// The line of a result.
pub open spec fn result_line(name: Seq<char>, path: Seq<char>, unsupported: usize) -> Seq<char> {
    if unsupported > 0 {
        "  "@ + text::padded(name, 14) + "  "@ + path + "  [!"@ + text::decimal(unsupported as nat)
            + " unsupported ACE(s)]"@
    } else {
        "  "@ + text::padded(name, 14) + "  "@ + path
    }
}

/// The error that stands for a scan that was cancelled.
pub open spec fn cancelled_message() -> Seq<char> {
    "Scan cancelled by user — results are partial"@
}

impl ScanProgress {
    /// Whether the counts are those of the lists, and every result has its trustees.
    pub open spec fn wf(self) -> bool {
        &&& self.path_trustees@.len() == self.permissions@.len()
        &&& self.unsupported_ace_paths == unsupported_paths(self.permissions@)
        &&& self.walk_errors <= self.errors@.len()
    }

    /// A scan that has found nothing yet.
    pub fn new() -> (r: Self)
        ensures
            r.wf(),
            r.permissions@.len() == 0,
            r.errors@.len() == 0,
            r.walk_errors == 0,
    {
        ScanProgress {
            permissions: Vec::new(),
            path_trustees: Vec::new(),
            errors: Vec::new(),
            unsupported_ace_paths: 0,
            walk_errors: 0,
        }
    }

    /// Records a path that could not be read, and shows it.
    pub fn on_error(&mut self, e: &WalkError) -> (r: String)
        requires
            old(self).wf(),
        ensures
            r@ == error_line(e.path@, e.error.text()),
            final(self).wf(),
            final(self).permissions == old(self).permissions,
            final(self).path_trustees == old(self).path_trustees,
            final(self).walk_errors == old(self).walk_errors + 1,
            final(self).errors@.len() == old(self).errors@.len() + 1,
            final(self).errors@.drop_last() == old(self).errors@,
            final(self).errors@.last().path matches Some(p) && p@ == e.path@,
            final(self).errors@.last().message@ == e.error.text(),
    {
        let message: String = e.error.message();
        let line: String = "  [Error]         ".to_owned().concat(e.path.as_str()).concat(
            ": ",
        ).concat(message.as_str());
        self.errors.push(ScanError { path: Some(NormalizedPath(e.path.clone())), message });
        assert(self.errors@.drop_last() =~= old(self).errors@);
        let count: usize = self.errors.len();
        assert(self.walk_errors < count);
        self.walk_errors = self.walk_errors + 1;
        line
    }

    /// Records the result of a path with its trustees, and shows it under the name of
    /// its effective rights.
    pub fn on_result(
        &mut self,
        trustees: PathTrustees,
        result: EffectivePermission,
        rights: &NormalizedRights,
    ) -> (r: String)
        requires
            old(self).wf(),
        ensures
            r@ == result_line(
                rights.display_name@,
                trustees.path@,
                result.unsupported_ace_count,
            ),
            final(self).wf(),
            final(self).permissions@ == old(self).permissions@.push(result),
            final(self).path_trustees@ == old(self).path_trustees@.push(trustees),
            final(self).errors == old(self).errors,
            final(self).walk_errors == old(self).walk_errors,
    {
        let mut line: String = "  ".to_owned().concat(
            text::pad(rights.display_name.as_str(), 14).as_str(),
        ).concat("  ").concat(trustees.path.0.as_str());
        let unsupported: usize = result.unsupported_ace_count;
        proof {
            lemma_unsupported_paths(self.permissions@);
        }
        self.permissions.push(result);
        assert(self.permissions@.drop_last() =~= old(self).permissions@);
        if unsupported > 0 {
            line.append("  [!");
            text::push_decimal(&mut line, unsupported as u64);
            line.append(" unsupported ACE(s)]");
            let count: usize = self.permissions.len();
            assert(self.unsupported_ace_paths < count);
            self.unsupported_ace_paths = self.unsupported_ace_paths + 1;
        }
        self.path_trustees.push(trustees);
        line
    }

    /// Ends the scan. One that was cancelled is recorded and shown as such.
    pub fn finish(&mut self, cancelled: bool) -> (r: Vec<String>)
        requires
            old(self).wf(),
        ensures
            final(self).wf(),
            final(self).permissions == old(self).permissions,
            final(self).path_trustees == old(self).path_trustees,
            final(self).walk_errors == old(self).walk_errors,
            cancelled ==> {
                &&& text::texts(r@) == seq![
                    ""@,
                    "  [Aborted] Scan cancelled by user — results are partial."@,
                ]
                &&& final(self).errors@.len() == old(self).errors@.len() + 1
                &&& final(self).errors@.drop_last() == old(self).errors@
                &&& final(self).errors@.last().path is None
                &&& final(self).errors@.last().message@ == cancelled_message()
            },
            !cancelled ==> r@.len() == 0 && final(self).errors == old(self).errors,
    {
        let mut lines: Vec<String> = Vec::new();
        if cancelled {
            assert(text::texts(lines@) =~= Seq::empty());
            text::push_line(&mut lines, "".to_owned());
            text::push_line(
                &mut lines,
                "  [Aborted] Scan cancelled by user — results are partial.".to_owned(),
            );
            assert(text::texts(lines@) =~= seq![
                ""@,
                "  [Aborted] Scan cancelled by user — results are partial."@,
            ]);
            self.errors.push(
                ScanError {
                    path: None,
                    message: "Scan cancelled by user — results are partial".to_owned(),
                },
            );
            assert(self.errors@.drop_last() =~= old(self).errors@);
        }
        lines
    }
}

/// An identity with its domain, or the fallback where it has no name.
pub open spec fn shown_identity(i: Identity, fallback: Seq<char>) -> Seq<char> {
    (match i.domain {
        Some(d) => d@ + "\\"@,
        None => ""@,
    }) + (match i.name {
        Some(n) => n@,
        None => fallback,
    })
}

/// Shows an identity with its domain.
pub fn identity_label(i: &Identity, fallback: &str) -> (r: String)
    ensures
        r@ == shown_identity(*i, fallback@),
{
    let mut s: String = match &i.domain {
        Some(d) => d.clone().concat("\\"),
        None => "".to_owned(),
    };
    match &i.name {
        Some(n) => s.append(n.as_str()),
        None => s.append(fallback),
    }
    s
}

/// The depth limit of a scan.
pub open spec fn depth_text(max_depth: Option<u32>) -> Seq<char> {
    match max_depth {
        Some(d) => text::decimal(d as nat),
        None => "unlimited"@,
    }
}

/// Name and mask of the rights on a share.
pub open spec fn share_line(share: Option<(&NormalizedRights, u32)>) -> Seq<Seq<char>> {
    match share {
        Some((rights, mask)) => seq![
            "  Share mask: "@ + rights.display_name@ + " ("@ + text::mask_text(mask) + ")"@,
        ],
        None => Seq::empty(),
    }
}

/// What is shown before a scan.
pub open spec fn scan_header(
    root: Seq<char>,
    i: Identity,
    ad_connected: bool,
    max_depth: Option<u32>,
    run_id: Seq<char>,
    share: Option<(&NormalizedRights, u32)>,
) -> Seq<Seq<char>> {
    seq![
        ""@,
        heavy_line(),
        "  AD Permission Analyzer  ·  Tree Scan"@,
        heavy_line(),
        "  Identity  : "@ + shown_identity(i, i.sid@) + "  ("@ + i.sid@ + ")"@,
        "  Root      : "@ + root,
        "  Max depth : "@ + depth_text(max_depth),
    ] + share_line(share) + seq!["  Scan ID   : "@ + run_id] + (if ad_connected {
        Seq::empty()
    } else {
        seq!["  [!] No AD connection — group memberships not resolved."@]
    }) + seq![""@, "  Rights          Path"@, "  "@ + light_line()]
}

/// Shows what a scan is about to do.
pub fn scan_header_lines(
    root: &str,
    i: &Identity,
    ad_connected: bool,
    max_depth: Option<u32>,
    run_id: &str,
    share: Option<(&NormalizedRights, u32)>,
) -> (r: Vec<String>)
    ensures
        text::texts(r@) == scan_header(root@, *i, ad_connected, max_depth, run_id@, share),
{
    let mut out: Vec<String> = Vec::new();
    assert(text::texts(out@) =~= Seq::empty());
    text::push_line(&mut out, "".to_owned());
    text::push_line(&mut out, heavy());
    text::push_line(&mut out, "  AD Permission Analyzer  ·  Tree Scan".to_owned());
    text::push_line(&mut out, heavy());
    text::push_line(
        &mut out,
        "  Identity  : ".to_owned().concat(
            identity_label(i, i.sid.0.as_str()).as_str(),
        ).concat("  (").concat(i.sid.0.as_str()).concat(")"),
    );
    text::push_line(&mut out, "  Root      : ".to_owned().concat(root));
    let depth: String = match max_depth {
        Some(d) => text::decimal_text(d as u64),
        None => "unlimited".to_owned(),
    };
    text::push_line(&mut out, "  Max depth : ".to_owned().concat(depth.as_str()));
    if let Some((rights, mask)) = share {
        text::push_line(
            &mut out,
            "  Share mask: ".to_owned().concat(rights.display_name.as_str()).concat(
                " (",
            ).concat(text::mask_hex(mask).as_str()).concat(")"),
        );
    }
    text::push_line(&mut out, "  Scan ID   : ".to_owned().concat(run_id));
    if !ad_connected {
        text::push_line(
            &mut out,
            "  [!] No AD connection — group memberships not resolved.".to_owned(),
        );
    }
    text::push_line(&mut out, "".to_owned());
    text::push_line(&mut out, "  Rights          Path".to_owned());
    text::push_line(&mut out, "  ".to_owned().concat(light().as_str()));
    assert(text::texts(out@) =~= scan_header(root@, *i, ad_connected, max_depth, run_id@, share));
    out
}

/// A number of milliseconds.
pub open spec fn signed_text(n: i64) -> Seq<char> {
    if n < 0 {
        "-"@ + text::decimal((-(n as int)) as nat)
    } else {
        text::decimal(n as nat)
    }
}

/// Writes a signed number.
fn signed(n: i64) -> (r: String)
    ensures
        r@ == signed_text(n),
{
    if n < 0 {
        let magnitude: u64 = (-(n + 1)) as u64 + 1;
        "-".to_owned().concat(text::decimal_text(magnitude).as_str())
    } else {
        text::decimal_text(n as u64)
    }
}

/// What is shown after a scan.
pub open spec fn scan_summary(
    total: usize,
    errors: usize,
    unsupported_ace_paths: usize,
    duration_ms: i64,
    db_path: Option<Seq<char>>,
    run_id: Seq<char>,
) -> Seq<Seq<char>> {
    seq![
        ""@,
        "  "@ + light_line(),
        "  Paths scanned : "@ + text::decimal(total as nat),
        "  Errors        : "@ + text::decimal(errors as nat),
    ] + (if unsupported_ace_paths > 0 {
        seq![
            "  [!] Unsupported : "@ + text::decimal(unsupported_ace_paths as nat)
                + " path(s) had ACE types that could not be evaluated — results may be incomplete."@,
        ]
    } else {
        Seq::empty()
    }) + seq!["  Duration      : "@ + signed_text(duration_ms) + " ms"@] + (match db_path {
        Some(db) => seq!["  Database      : "@ + db, "  Scan ID       : "@ + run_id],
        None => Seq::empty(),
    }) + seq![""@, heavy_line(), ""@]
}

/// Shows what a scan has done.
pub fn scan_summary_lines(
    total: usize,
    errors: usize,
    unsupported_ace_paths: usize,
    duration_ms: i64,
    db_path: Option<&str>,
    run_id: &str,
) -> (r: Vec<String>)
    ensures
        text::texts(r@) == scan_summary(
            total,
            errors,
            unsupported_ace_paths,
            duration_ms,
            match db_path {
                Some(p) => Some(p@),
                None => None,
            },
            run_id@,
        ),
{
    let mut out: Vec<String> = Vec::new();
    assert(text::texts(out@) =~= Seq::empty());
    text::push_line(&mut out, "".to_owned());
    text::push_line(&mut out, "  ".to_owned().concat(light().as_str()));
    text::push_line(
        &mut out,
        "  Paths scanned : ".to_owned().concat(text::decimal_text(total as u64).as_str()),
    );
    text::push_line(
        &mut out,
        "  Errors        : ".to_owned().concat(text::decimal_text(errors as u64).as_str()),
    );
    if unsupported_ace_paths > 0 {
        text::push_line(
            &mut out,
            "  [!] Unsupported : ".to_owned().concat(
                text::decimal_text(unsupported_ace_paths as u64).as_str(),
            ).concat(
                " path(s) had ACE types that could not be evaluated — results may be incomplete.",
            ),
        );
    }
    text::push_line(
        &mut out,
        "  Duration      : ".to_owned().concat(signed(duration_ms).as_str()).concat(" ms"),
    );
    if let Some(db) = db_path {
        text::push_line(&mut out, "  Database      : ".to_owned().concat(db));
        text::push_line(&mut out, "  Scan ID       : ".to_owned().concat(run_id));
    }
    text::push_line(&mut out, "".to_owned());
    text::push_line(&mut out, heavy());
    text::push_line(&mut out, "".to_owned());
    assert(text::texts(out@) =~= scan_summary(
        total,
        errors,
        unsupported_ace_paths,
        duration_ms,
        match db_path {
            Some(p) => Some(p@),
            None => None,
        },
        run_id@,
    ));
    out
}

/// Paths with entries that could not be evaluated are counted.
pub proof fn law_unsupported_paths_are_counted(permissions: Seq<EffectivePermission>)
    ensures
        unsupported_paths(permissions) == permissions.filter(
            |p: EffectivePermission| p.unsupported_ace_count > 0,
        ).len(),
    decreases permissions.len(),
{
    reveal(Seq::filter);
    if permissions.len() > 0 {
        law_unsupported_paths_are_counted(permissions.drop_last());
    }
}

/// The line of an error holds the path, and ends with the message.
pub proof fn law_error_line_tells_the_error(path: Seq<char>, message: Seq<char>)
    ensures
        text::occurs_in(path, error_line(path, message)),
        message.is_suffix_of(error_line(path, message)),
{
    let a = "  [Error]         "@;
    text::lemma_part_occurs(a, path, ": "@ + message);
    text::lemma_assoc(a + path, ": "@, message);
    text::lemma_first_part_leads(a + path + ": "@, message);
}

/// The line of a result holds the name of the rights and the path; it ends with the path, or
/// with a note that tells the number of entries that could not be evaluated.
pub proof fn law_result_line_tells_the_result(
    name: Seq<char>,
    path: Seq<char>,
    unsupported: usize,
)
    ensures
        ({
            let line = result_line(name, path, unsupported);
            &&& ("  "@ + name).is_prefix_of(line)
            &&& text::occurs_in(path, line)
            &&& unsupported == 0 ==> path.is_suffix_of(line)
            &&& unsupported > 0 ==> text::occurs_in(text::decimal(unsupported as nat), line)
                && " unsupported ACE(s)]"@.is_suffix_of(line)
        }),
{
    text::lemma_padded_occurs(name, 14);
    lemma_result_parts(
        "  "@,
        name,
        text::padded(name, 14),
        path,
        "  [!"@,
        text::decimal(unsupported as nat),
        " unsupported ACE(s)]"@,
    );
}

/// The parts of the line of a result.
proof fn lemma_result_parts(
    gap: Seq<char>,
    name: Seq<char>,
    wide: Seq<char>,
    path: Seq<char>,
    b: Seq<char>,
    n: Seq<char>,
    c: Seq<char>,
)
    requires
        name.is_prefix_of(wide),
    ensures
        (gap + name).is_prefix_of(gap + wide + gap + path),
        path.is_suffix_of(gap + wide + gap + path),
        text::occurs_in(path, gap + wide + gap + path),
        (gap + name).is_prefix_of(gap + wide + gap + path + b + n + c),
        text::occurs_in(path, gap + wide + gap + path + b + n + c),
        text::occurs_in(n, gap + wide + gap + path + b + n + c),
        c.is_suffix_of(gap + wide + gap + path + b + n + c),
{
    let front = gap + wide + gap;
    let short = front + path;
    let long = short + b + n + c;
    assert(wide.subrange(0, name.len() as int) =~= name);
    assert(wide =~= name + wide.skip(name.len() as int));
    assert(short.subrange(0, (gap + name).len() as int) =~= gap + name);
    assert(long.subrange(0, (gap + name).len() as int) =~= short.subrange(
        0,
        (gap + name).len() as int,
    ));
    text::lemma_first_part_leads(front, path);
    text::lemma_part_occurs(front, path, b + n + c);
    assert(long =~= front + path + (b + n + c));
    text::lemma_part_occurs(short + b, n, c);
    text::lemma_first_part_leads(short + b + n, c);
}

/// An identity is shown by its name, or else by what stands in for it, behind its domain where
/// it has one.
pub proof fn law_identity_is_shown(i: Identity, fallback: Seq<char>)
    ensures
        ({
            let name = match i.name {
                Some(n) => n@,
                None => fallback,
            };
            &&& i.domain matches Some(d) ==> shown_identity(i, fallback) == d@.push('\\') + name
            &&& i.domain is None ==> shown_identity(i, fallback) == name
        }),
{
    reveal_strlit("\\");
    reveal_strlit("");
    let name = match i.name {
        Some(n) => n@,
        None => fallback,
    };
    if let Some(d) = i.domain {
        assert(d@ + "\\"@ =~= d@.push('\\'));
    } else {
        assert(""@ + name =~= name);
    }
}

/// What a scan is about to do is told: for whom, where, how deep, under which rights of the
/// share, and whether the directory could not be asked.
pub proof fn law_scan_is_announced(
    root: Seq<char>,
    i: Identity,
    ad_connected: bool,
    max_depth: Option<u32>,
    run_id: Seq<char>,
    share: Option<(&NormalizedRights, u32)>,
)
    ensures
        ({
            let lines = scan_header(root, i, ad_connected, max_depth, run_id, share);
            let s: int = if share is Some {
                1
            } else {
                0
            };
            &&& lines[4] == "  Identity  : "@ + shown_identity(i, i.sid@) + "  ("@ + i.sid@ + ")"@
            &&& lines[5] == "  Root      : "@ + root
            &&& max_depth matches Some(d) ==> lines[6] == "  Max depth : "@ + text::decimal(d as nat)
            &&& max_depth is None ==> lines[6] == "  Max depth : "@ + "unlimited"@
            &&& share matches Some((r, m)) ==> lines[7] == "  Share mask: "@ + r.display_name@
                + " ("@ + text::mask_text(m) + ")"@
            &&& lines[7 + s] == "  Scan ID   : "@ + run_id
            &&& lines.len() == 11 + s + (if ad_connected {
                0int
            } else {
                1
            })
        }),
{
}

/// What a scan has done is told: the number of paths and of errors, of paths with entries that
/// could not be evaluated, how long it took, and where it was stored.
pub proof fn law_scan_is_summed_up(
    total: usize,
    errors: usize,
    unsupported_ace_paths: usize,
    duration_ms: i64,
    db_path: Option<Seq<char>>,
    run_id: Seq<char>,
)
    ensures
        ({
            let lines = scan_summary(
                total,
                errors,
                unsupported_ace_paths,
                duration_ms,
                db_path,
                run_id,
            );
            let u: int = if unsupported_ace_paths > 0 {
                1
            } else {
                0
            };
            &&& lines[2] == "  Paths scanned : "@ + text::decimal(total as nat)
            &&& lines[3] == "  Errors        : "@ + text::decimal(errors as nat)
            &&& unsupported_ace_paths > 0 ==> text::occurs_in(
                text::decimal(unsupported_ace_paths as nat),
                lines[4],
            )
            &&& lines[4 + u] == "  Duration      : "@ + signed_text(duration_ms) + " ms"@
            &&& db_path matches Some(p) ==> lines[5 + u] == "  Database      : "@ + p && lines[6 + u]
                == "  Scan ID       : "@ + run_id
            &&& lines.len() == 8 + u + (if db_path is Some {
                2int
            } else {
                0
            })
        }),
{
    text::lemma_part_occurs(
        "  [!] Unsupported : "@,
        text::decimal(unsupported_ace_paths as nat),
        " path(s) had ACE types that could not be evaluated — results may be incomplete."@,
    );
}

/// A negative number is written as its absolute value behind a minus sign.
pub proof fn law_signed_numbers_have_a_sign(n: i64)
    ensures
        n >= 0 ==> signed_text(n) == text::decimal(n as nat),
        n < 0 ==> signed_text(n) == seq!['-'] + text::decimal((-(n as int)) as nat),
{
    reveal_strlit("-");
    assert("-"@ =~= seq!['-']);
}

} // verus!
