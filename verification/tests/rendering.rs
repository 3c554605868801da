use adpa::analysis::AnalysisResult;
use adpa::export::csv::{local_group_status_fields, share_status_label, write_csv};
use adpa::export::html::{
    applies_to_label, covers_trustees, escape_html, has_diagnostics, render_html, rights_badge,
    write_permissions_table, write_trustees_table,
};
use adpa::export::json::{diagnostics_to_json, quoted};
use adpa::model::access::{
    AccessMask, AceKind, EffectivePermission, LocalGroupEvalStatus, PermissionPath,
    ShareEvalStatus,
};
use adpa::model::diagnostic::PermissionDiagnostic;
use adpa::model::identity::{Identity, IdentityKind};
use adpa::model::rights::{covers_permissions, NormalizedRights, RightsTable};
use adpa::model::sid::{NormalizedPath, Sid};
use adpa::model::trustee::{PathTrustee, PathTrusteeEntry, PathTrustees, TrusteeCategory};

const READ: u32 = 0x0012_0089;

fn rights(full_control: bool, modify: bool, read: bool, write: bool) -> NormalizedRights {
    NormalizedRights {
        raw: READ,
        full_control,
        modify,
        read,
        write,
        display_name: "Read".to_owned(),
        description: "Read (0x00120089)".to_owned(),
    }
}

fn table() -> RightsTable {
    let mut t = RightsTable::new();
    t.insert(READ, rights(false, false, true, false));
    t
}

fn permission(path: &str, name: &str) -> EffectivePermission {
    EffectivePermission {
        identity: Identity {
            sid: Sid("S-1-5-21-1-2-3-1000".into()),
            name: Some(name.into()),
            domain: None,
            kind: IdentityKind::User,
            disabled: false,
            user_principal_name: None,
            sid_history_count: 0,
            sid_history: vec![],
        },
        path: NormalizedPath(path.into()),
        ntfs_mask: AccessMask(READ),
        share_mask: None,
        effective_mask: AccessMask(READ),
        path_explanation: PermissionPath { steps: vec![] },
        share_status: ShareEvalStatus::NotApplicable,
        local_group_status: LocalGroupEvalStatus::NotQueried,
        contributing_sids: vec![],
        unsupported_ace_count: 0,
        matched_aces: vec![],
        diagnostics: vec![],
    }
}

#[test]
fn a_quoted_text_reads_back() {
    for s in [
        "",
        "plain",
        "a \"quoted\" \\ path",
        "line\nbreak\ttab\r\u{8}\u{c}",
        "\u{0}\u{1f}\u{7f}",
        "Grüße — €𝄞",
        "</script>",
    ] {
        let q = quoted(s);
        assert_eq!(serde_json::from_str::<String>(&q).unwrap(), s, "{q}");
    }
    assert_eq!(quoted("a\"b\\\u{1}"), "\"a\\\"b\\\\\\u0001\"");
}

#[test]
fn a_reason_cannot_break_out_of_its_marker() {
    let json = diagnostics_to_json(&[
        PermissionDiagnostic::IdentityLookupFailed {
            reason: "\"}, {\"kind\": \"x".into(),
        },
        PermissionDiagnostic::IdentityDisabled,
    ]);
    let parsed: serde_json::Value = serde_json::from_str(&json).unwrap();
    let list = parsed.as_array().unwrap();
    assert_eq!(list.len(), 2);
    assert_eq!(list[0].get("reason").unwrap(), "\"}, {\"kind\": \"x");
}

#[test]
fn csv_fields_read_back_whatever_they_hold() {
    let paths = ["C:\\a,b", "C:\\say \"x\"", "two\nlines", "cr\rlf", " spaced ", "ünï"];
    let permissions: Vec<EffectivePermission> =
        paths.iter().map(|p| permission(p, "anna, \"the\" admin")).collect();
    assert!(covers_permissions(&table(), &permissions));
    let mut out = String::new();
    write_csv(&mut out, &permissions, &table()).unwrap();
    let mut reader = csv::Reader::from_reader(out.as_bytes());
    let columns = reader.headers().unwrap().len();
    let path_column = reader.headers().unwrap().iter().position(|h| h == "path").unwrap();
    let rows: Vec<csv::StringRecord> = reader.records().map(|r| r.unwrap()).collect();
    assert_eq!(rows.len(), paths.len());
    for (row, path) in rows.iter().zip(paths) {
        assert_eq!(row.len(), columns);
        assert_eq!(&row[path_column], path);
    }
}

#[test]
fn a_table_that_misses_a_mask_does_not_cover() {
    assert!(!covers_permissions(&RightsTable::new(), &[permission("C:\\", "anna")]));
    assert!(covers_permissions(&RightsTable::new(), &[]));
    let mut p = permission("C:\\", "anna");
    p.share_mask = Some(AccessMask(1));
    assert!(!covers_permissions(&table(), &[p]));
}

#[test]
fn statuses_have_words() {
    assert_eq!(share_status_label(&ShareEvalStatus::NotApplicable), "not_applicable");
    assert!(share_status_label(&ShareEvalStatus::ReadFailed("down".into())).contains("down"));
    assert_eq!(
        local_group_status_fields(&LocalGroupEvalStatus::NotAvailable("denied".into())).1,
        "denied"
    );
    assert_eq!(local_group_status_fields(&LocalGroupEvalStatus::Applied).1, "");
}

#[test]
fn markup_in_a_name_is_shown_as_text() {
    assert_eq!(escape_html("<a href=\"x\">&'"), "&lt;a href=&quot;x&quot;&gt;&amp;'");
    assert_eq!(escape_html("plain — ü"), "plain — ü");
    let mut s = String::new();
    write_permissions_table(&mut s, &[permission("C:\\<b>", "<script>")], &table()).unwrap();
    assert!(s.contains("C:\\&lt;b&gt;"));
    assert!(!s.contains("<script>"));
}

#[test]
fn rights_are_shown_by_the_strongest_combination() {
    let badge = |f, m, r, w| rights_badge(&rights(f, m, r, w));
    assert!(badge(true, true, true, true).contains("badge-fc\">Full Control<"));
    assert!(badge(false, true, true, true).contains("badge-modify\">Modify<"));
    assert!(badge(false, false, true, true).contains("badge-write\">Read+Write<"));
    assert!(badge(false, false, true, false).contains("badge-read\">Read<"));
    assert!(badge(false, false, false, true).contains("badge-write\">Write<"));
    assert!(badge(false, false, false, false).contains("badge-special\">Special<"));
    let mut none = rights(false, false, false, false);
    none.raw = 0;
    assert!(rights_badge(&none).contains("badge-none\">None<"));
}

#[test]
fn a_flagged_permission_shows_a_badge() {
    let mut p = permission("C:\\", "anna");
    assert!(!has_diagnostics(&p));
    p.unsupported_ace_count = 2;
    assert!(has_diagnostics(&p));
    let mut s = String::new();
    write_permissions_table(&mut s, &[p], &table()).unwrap();
    assert!(s.contains("2 unsupported ACE(s)"));
    let mut p = permission("C:\\", "anna");
    p.diagnostics = vec![PermissionDiagnostic::IdentityLookupFailed {
        reason: "<down>".into(),
    }];
    assert!(has_diagnostics(&p));
    let mut s = String::new();
    write_permissions_table(&mut s, &[p], &table()).unwrap();
    assert!(s.contains("<span class=\"badge badge-high\""));
    assert!(!s.contains("<down>"));
}

#[test]
fn inheritance_is_shown_as_what_it_applies_to() {
    let labels: Vec<String> = [(0, 0), (3, 0), (2, 0), (1, 0), (3, 8), (2, 8), (1, 8)]
        .iter()
        .map(|f| applies_to_label(f.0, f.1))
        .collect();
    for (i, a) in labels.iter().enumerate() {
        assert!(!a.is_empty());
        for b in &labels[i + 1..] {
            assert_ne!(a, b);
        }
    }
}

#[test]
fn trustees_of_both_layers_are_listed() {
    let entry = |category, sid: &str| {
        PathTrusteeEntry::Ace(PathTrustee {
            sid: Sid(sid.into()),
            display_name: None,
            kind: AceKind::Allow,
            mask: AccessMask(READ),
            inherited: false,
            inheritance_flags: 3,
            propagation_flags: 0,
            category,
        })
    };
    let paths = vec![PathTrustees {
        path: NormalizedPath("C:\\Data".into()),
        trustees: vec![
            entry(TrusteeCategory::Ntfs, "S-1-5-32-544"),
            entry(TrusteeCategory::Share, "S-1-1-0"),
            PathTrusteeEntry::diagnostic(TrusteeCategory::Share, "share <unreadable>"),
        ],
    }];
    assert!(covers_trustees(&table(), &paths));
    assert!(!covers_trustees(&RightsTable::new(), &paths));
    let mut s = String::new();
    write_trustees_table(&mut s, &paths, &table()).unwrap();
    assert!(s.contains("S-1-5-32-544") && s.contains("S-1-1-0"));
    assert!(s.contains("share &lt;unreadable&gt;"));
}

#[test]
fn a_page_is_closed() {
    let result = AnalysisResult {
        permissions: vec![permission("C:\\Data", "anna")],
        risk_findings: vec![],
        path_trustees: vec![],
    };
    let page = render_html(&result, &table(), &RightsTable::new(), "2026-01-01 00:00").unwrap();
    assert!(page.starts_with("<!DOCTYPE html>"));
    assert!(page.trim_end().ends_with("</html>"));
    assert!(page.contains("2026-01-01 00:00"));
}
