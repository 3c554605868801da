//! Permissions as CSV.

use vstd::prelude::*;

use crate::export::json;
use crate::export::json::{
    bool_str, contributing_sids_to_json, diagnostics_to_json, matched_aces_to_json,
};
use crate::model::access::{
    AceEntry, ContributingAce, EffectivePermission, LocalGroupEvalStatus, ShareEvalStatus,
};
use crate::model::diagnostic::PermissionDiagnostic;
use crate::model::rights;
use crate::model::rights::{rights_of, NormalizedRights, RightsTable};
use crate::text;

verus! {

/// An error of the `csv` crate, seen as a whole.
#[verifier::external_type_specification]
#[verifier::external_body]
pub struct ExCsvError(csv::Error);

/// Whether a character makes quotes necessary.
pub open spec fn is_special(c: char) -> bool {
    c == ',' || c == '"' || c == '\n' || c == '\r'
}

/// Whether a field has to stand in quotes.
pub open spec fn needs_quotes(s: Seq<char>) -> bool {
    exists|i: int| 0 <= i < s.len() && is_special(#[trigger] s[i])
}

/// `s` with every quote doubled.
pub open spec fn doubled(s: Seq<char>) -> Seq<char>
    decreases s.len(),
{
    if s.len() == 0 {
        Seq::empty()
    } else if s.last() == '"' {
        doubled(s.drop_last()) + seq!['"', '"']
    } else {
        doubled(s.drop_last()).push(s.last())
    }
}

/// A field as it stands in a line.
pub open spec fn csv_field(s: Seq<char>) -> Seq<char> {
    if needs_quotes(s) {
        seq!['"'] + doubled(s) + seq!['"']
    } else {
        s
    }
}

/// The line of a record.
pub open spec fn csv_line(fields: Seq<Seq<char>>) -> Seq<char> {
    text::joined(fields.map_values(|s: Seq<char>| csv_field(s)), ","@) + "\n"@
}

/// Calls `csv::Writer::write_record` of a fresh writer over a vector. The fields are
/// separated by commas, those that hold a comma, a quote or the end of a line stand
/// in quotes with their quotes doubled, and the line ends with a line feed. A record
/// of fewer than two fields is left out: an empty one is written with quotes. Writing
/// to a vector does not fail, and a fresh writer takes a record of any length.
#[verifier::external_body]
fn write_line(fields: &Vec<String>) -> (r: Result<String, csv::Error>)
    requires
        fields@.len() >= 2,
    ensures
        r is Ok,
        r->Ok_0@ == csv_line(text::texts(fields@)),
{
    let mut wtr = csv::Writer::from_writer(Vec::new());
    wtr.write_record(fields)?;
    wtr.flush()?;
    Ok(String::from_utf8_lossy(wtr.get_ref()).into_owned())
}

/// The names of the columns.
pub open spec fn headers() -> Seq<Seq<char>> {
    seq![
        "path"@,
        "user_sid"@,
        "user_name"@,
        "user_domain"@,
        "identity_kind"@,
        "disabled"@,
        "ntfs_mask_hex"@,
        "ntfs_rights"@,
        "share_mask_hex"@,
        "share_rights"@,
        "effective_mask_hex"@,
        "effective_rights"@,
        "explanation"@,
        "unsupported_aces"@,
        "share_status"@,
        "local_group_status"@,
        "local_group_error"@,
        "matched_aces_json"@,
        "contributing_sids_json"@,
        "diagnostics_json"@,
    ]
}

/// A text, or nothing.
pub open spec fn or_empty(o: Option<Seq<char>>) -> Seq<char> {
    match o {
        Some(s) => s,
        None => Seq::empty(),
    }
}

/// A text, or nothing.
fn text_or_empty(o: &Option<String>) -> (r: String)
    ensures
        r@ == or_empty(text::text_of(*o)),
{
    match o {
        Some(s) => s.clone(),
        None => {
            let r: String = String::new();
            assert(r@ =~= Seq::empty());
            r
        },
    }
}

/// The label of a share status.
pub open spec fn share_label(status: ShareEvalStatus) -> Seq<char> {
    match status {
        ShareEvalStatus::NotApplicable => "not_applicable"@,
        ShareEvalStatus::Applied => "applied"@,
        ShareEvalStatus::Unrestricted => "unrestricted"@,
        ShareEvalStatus::ReadFailed(reason) => "read_failed:"@ + reason@,
    }
}

/// Labels a share status.
pub fn share_status_label(status: &ShareEvalStatus) -> (r: String)
    ensures
        r@ == share_label(*status),
{
    match status {
        ShareEvalStatus::NotApplicable => "not_applicable".to_owned(),
        ShareEvalStatus::Applied => "applied".to_owned(),
        ShareEvalStatus::Unrestricted => "unrestricted".to_owned(),
        ShareEvalStatus::ReadFailed(reason) => "read_failed:".to_owned().concat(reason.as_str()),
    }
}

/// The label of a local group status, and its error.
pub open spec fn local_group_fields(status: LocalGroupEvalStatus) -> (Seq<char>, Seq<char>) {
    match status {
        LocalGroupEvalStatus::NotQueried => ("not_queried"@, ""@),
        LocalGroupEvalStatus::Applied => ("applied"@, ""@),
        LocalGroupEvalStatus::NotAvailable(reason) => ("not_available"@, reason@),
    }
}

/// Splits a local group status into a label and an error, so that the label can be
/// filtered by.
pub fn local_group_status_fields(status: &LocalGroupEvalStatus) -> (r: (String, String))
    ensures
        (r.0@, r.1@) == local_group_fields(*status),
{
    match status {
        LocalGroupEvalStatus::NotQueried => ("not_queried".to_owned(), "".to_owned()),
        LocalGroupEvalStatus::Applied => ("applied".to_owned(), "".to_owned()),
        LocalGroupEvalStatus::NotAvailable(reason) => ("not_available".to_owned(), reason.clone()),
    }
}

/// The record of a permission.
pub open spec fn record(p: EffectivePermission, rights: Map<u32, NormalizedRights>) -> Seq<Seq<char>> {
    seq![
        p.path@,
        p.identity.sid@,
        or_empty(text::text_of(p.identity.name)),
        or_empty(text::text_of(p.identity.domain)),
        p.identity.kind.name(),
        json::bool_text(p.identity.disabled),
        text::mask_text(p.ntfs_mask.0),
        rights[p.ntfs_mask.0].display_name@,
        match p.share_mask {
            Some(m) => text::mask_text(m.0),
            None => "(none)"@,
        },
        match p.share_mask {
            Some(m) => rights[m.0].display_name@,
            None => "(none)"@,
        },
        text::mask_text(p.effective_mask.0),
        rights[p.effective_mask.0].display_name@,
        text::joined(text::texts(p.path_explanation.steps@), " | "@),
        text::decimal(p.unsupported_ace_count as nat),
        share_label(p.share_status),
        local_group_fields(p.local_group_status).0,
        local_group_fields(p.local_group_status).1,
        json::json_list(p.matched_aces@.map_values(|a: AceEntry| json::ace_json(a))),
        json::json_list(
            p.contributing_sids@.map_values(|c: ContributingAce| json::contribution_json(c)),
        ),
        json::json_list(
            p.diagnostics@.map_values(|d: PermissionDiagnostic| json::marker_json(d)),
        ),
    ]
}

/// Makes the record of a permission.
pub fn record_for(p: &EffectivePermission, rights: &RightsTable) -> (r: Vec<String>)
    requires
        rights::covers(rights@, *p),
    ensures
        text::texts(r@) == record(*p, rights@),
{
    let (lg_status, lg_error) = local_group_status_fields(&p.local_group_status);
    let mut f: Vec<String> = Vec::new();
    f.push(p.path.0.clone());
    f.push(p.identity.sid.0.clone());
    f.push(text_or_empty(&p.identity.name));
    f.push(text_or_empty(&p.identity.domain));
    f.push(p.identity.kind.kind_name().to_owned());
    f.push(bool_str(p.identity.disabled).to_owned());
    f.push(text::mask_hex(p.ntfs_mask.0));
    f.push(rights_of(rights, p.ntfs_mask.0).display_name.clone());
    f.push(
        match p.share_mask {
            Some(m) => text::mask_hex(m.0),
            None => "(none)".to_owned(),
        },
    );
    f.push(
        match p.share_mask {
            Some(m) => rights_of(rights, m.0).display_name.clone(),
            None => "(none)".to_owned(),
        },
    );
    f.push(text::mask_hex(p.effective_mask.0));
    f.push(rights_of(rights, p.effective_mask.0).display_name.clone());
    f.push(text::join(&p.path_explanation.steps, " | "));
    f.push(text::decimal_text(p.unsupported_ace_count as u64));
    f.push(share_status_label(&p.share_status));
    f.push(lg_status);
    f.push(lg_error);
    f.push(matched_aces_to_json(p.matched_aces.as_slice()));
    f.push(contributing_sids_to_json(p.contributing_sids.as_slice()));
    f.push(diagnostics_to_json(p.diagnostics.as_slice()));
    assert(text::texts(f@) =~= record(*p, rights@));
    f
}

/// Adds the name of a column.
fn push_header(list: &mut Vec<String>, name: &str)
    ensures
        text::texts(final(list)@) == text::texts(old(list)@).push(name@),
{
    let ghost before = text::texts(list@);
    list.push(name.to_owned());
    assert(text::texts(list@) =~= before.push(name@));
}

/// Lists the names of the columns.
fn header_record() -> (r: Vec<String>)
    ensures
        text::texts(r@) == headers(),
{
    let mut f: Vec<String> = Vec::new();
    assert(text::texts(f@) =~= Seq::empty());
    push_header(&mut f, "path");
    push_header(&mut f, "user_sid");
    push_header(&mut f, "user_name");
    push_header(&mut f, "user_domain");
    push_header(&mut f, "identity_kind");
    push_header(&mut f, "disabled");
    push_header(&mut f, "ntfs_mask_hex");
    push_header(&mut f, "ntfs_rights");
    push_header(&mut f, "share_mask_hex");
    push_header(&mut f, "share_rights");
    push_header(&mut f, "effective_mask_hex");
    push_header(&mut f, "effective_rights");
    push_header(&mut f, "explanation");
    push_header(&mut f, "unsupported_aces");
    push_header(&mut f, "share_status");
    push_header(&mut f, "local_group_status");
    push_header(&mut f, "local_group_error");
    push_header(&mut f, "matched_aces_json");
    push_header(&mut f, "contributing_sids_json");
    push_header(&mut f, "diagnostics_json");
    assert(text::texts(f@) =~= headers());
    f
}

/// The lines of permissions.
pub open spec fn csv_rows(
    permissions: Seq<EffectivePermission>,
    rights: Map<u32, NormalizedRights>,
) -> Seq<char>
    decreases permissions.len(),
{
    if permissions.len() == 0 {
        Seq::empty()
    } else {
        csv_rows(permissions.drop_last(), rights) + csv_line(record(permissions.last(), rights))
    }
}

/// The CSV text of permissions: the names of the columns, then a line for each.
pub open spec fn csv_text(
    permissions: Seq<EffectivePermission>,
    rights: Map<u32, NormalizedRights>,
) -> Seq<char> {
    csv_line(headers()) + csv_rows(permissions, rights)
}

/// Writes permissions as CSV. `rights` names the masks of the permissions.
pub fn write_csv(out: &mut String, permissions: &[EffectivePermission], rights: &RightsTable) -> (r:
    Result<(), csv::Error>)
    requires
        rights::covers_all(rights@, permissions@),
    ensures
        r is Ok,
        final(out)@ == old(out)@ + csv_text(permissions@, rights@),
{
    let ghost start = out@;
    let columns: Vec<String> = header_record();
    assert(text::texts(columns@).len() == columns@.len());
    let head: String = write_line(&columns)?;
    out.append(head.as_str());
    assert(out@ =~= start + csv_text(permissions@.take(0), rights@));
    for i in 0..permissions.len()
        invariant
            rights::covers_all(rights@, permissions@),
            out@ == start + csv_text(permissions@.take(i as int), rights@),
    {
        assert(permissions@.take(i + 1).drop_last() =~= permissions@.take(i as int));
        let fields: Vec<String> = record_for(&permissions[i], rights);
        assert(text::texts(fields@).len() == fields@.len());
        let line: String = write_line(&fields)?;
        out.append(line.as_str());
        assert(out@ =~= start + csv_text(permissions@.take(i + 1), rights@));
    }
    assert(permissions@.take(permissions@.len() as int) =~= permissions@);
    Ok(())
}

/// A record has as many fields as there are columns.
pub proof fn law_records_fit_the_columns(
    p: EffectivePermission,
    rights: Map<u32, NormalizedRights>,
)
    ensures
        record(p, rights).len() == headers().len(),
{
}

/// What a reader makes of a field in quotes: the quotes around it go, and doubled
/// quotes are single ones.
pub open spec fn unquoted(s: Seq<char>) -> Seq<char>
    decreases s.len(),
{
    if s.len() == 0 {
        Seq::empty()
    } else if s.len() >= 2 && s.last() == '"' && s[s.len() - 2] == '"' {
        unquoted(s.take(s.len() - 2)).push('"')
    } else {
        unquoted(s.drop_last()).push(s.last())
    }
}

/// A field reads back as it was: bare where it needs no quotes, and by undoing the
/// doubling otherwise.
pub proof fn law_field_reads_back(s: Seq<char>)
    ensures
        !needs_quotes(s) ==> csv_field(s) == s,
        needs_quotes(s) ==> {
            let f = csv_field(s);
            &&& f.len() >= 2
            &&& f[0] == '"'
            &&& f.last() == '"'
            &&& unquoted(f.subrange(1, f.len() - 1)) == s
        },
{
    if needs_quotes(s) {
        let f = csv_field(s);
        assert(f.subrange(1, f.len() - 1) =~= doubled(s));
        lemma_doubled_reads_back(s);
    }
}

proof fn lemma_doubled_reads_back(s: Seq<char>)
    ensures
        unquoted(doubled(s)) == s,
    decreases s.len(),
{
    if s.len() > 0 {
        let d = doubled(s);
        lemma_doubled_reads_back(s.drop_last());
        if s.last() == '"' {
            assert(d.take(d.len() - 2) =~= doubled(s.drop_last()));
            assert(s =~= s.drop_last().push('"'));
        } else {
            assert(d.drop_last() =~= doubled(s.drop_last()));
            assert(s =~= s.drop_last().push(s.last()));
        }
    }
}

/// What stands in a column is what its name says: masks in their notation, rights by the
/// name of the mask in the same place, and everything else as the permission has it.
pub proof fn law_field_stands_under_its_column(
    p: EffectivePermission,
    rights: Map<u32, NormalizedRights>,
    n: int,
)
    requires
        0 <= n < headers().len(),
    ensures
        record(p, rights).len() == headers().len(),
        headers().contains("path"@)
            && headers().contains("user_sid"@)
            && headers().contains("user_name"@)
            && headers().contains("user_domain"@)
            && headers().contains("identity_kind"@)
            && headers().contains("disabled"@)
            && headers().contains("ntfs_mask_hex"@)
            && headers().contains("ntfs_rights"@)
            && headers().contains("share_mask_hex"@)
            && headers().contains("share_rights"@)
            && headers().contains("effective_mask_hex"@)
            && headers().contains("effective_rights"@)
            && headers().contains("explanation"@)
            && headers().contains("unsupported_aces"@)
            && headers().contains("share_status"@)
            && headers().contains("local_group_status"@)
            && headers().contains("local_group_error"@)
            && headers().contains("matched_aces_json"@)
            && headers().contains("contributing_sids_json"@)
            && headers().contains("diagnostics_json"@),
        ({
            let column = headers()[n];
            let field = record(p, rights)[n];
            &&& column == "path"@ ==> field == p.path@
            &&& column == "user_sid"@ ==> field == p.identity.sid@
            &&& column == "user_name"@ && p.identity.name is Some ==> field
                == p.identity.name->0@
            &&& column == "user_name"@ && p.identity.name is None ==> field.len() == 0
            &&& column == "user_domain"@ && p.identity.domain is Some ==> field
                == p.identity.domain->0@
            &&& column == "user_domain"@ && p.identity.domain is None ==> field.len() == 0
            &&& column == "identity_kind"@ ==> field == p.identity.kind.name()
            &&& column == "disabled"@ ==> field == (if p.identity.disabled {
                "true"@
            } else {
                "false"@
            })
            &&& column == "ntfs_mask_hex"@ ==> field == text::mask_text(p.ntfs_mask.0)
            &&& column == "ntfs_rights"@ ==> field == rights[p.ntfs_mask.0].display_name@
            &&& column == "share_mask_hex"@ && p.share_mask is Some ==> field == text::mask_text(
                (p.share_mask->0).0,
            )
            &&& column == "share_rights"@ && p.share_mask is Some ==> field == rights[(
            p.share_mask->0).0].display_name@
            &&& (column == "share_mask_hex"@ || column == "share_rights"@) && p.share_mask is None
                ==> field == "(none)"@
            &&& column == "effective_mask_hex"@ ==> field == text::mask_text(p.effective_mask.0)
            &&& column == "effective_rights"@ ==> field == rights[p.effective_mask.0].display_name@
            &&& column == "explanation"@ ==> field == text::joined(
                text::texts(p.path_explanation.steps@),
                " | "@,
            )
            &&& column == "unsupported_aces"@ ==> field == text::decimal(
                p.unsupported_ace_count as nat,
            )
            &&& column == "share_status"@ ==> match p.share_status {
                ShareEvalStatus::NotApplicable => field == "not_applicable"@,
                ShareEvalStatus::Applied => field == "applied"@,
                ShareEvalStatus::Unrestricted => field == "unrestricted"@,
                ShareEvalStatus::ReadFailed(reason) => field == "read_failed:"@ + reason@,
            }
            &&& column == "local_group_status"@ ==> match p.local_group_status {
                LocalGroupEvalStatus::NotQueried => field == "not_queried"@,
                LocalGroupEvalStatus::Applied => field == "applied"@,
                LocalGroupEvalStatus::NotAvailable(_) => field == "not_available"@,
            }
            &&& column == "local_group_error"@ ==> match p.local_group_status {
                LocalGroupEvalStatus::NotAvailable(reason) => field == reason@,
                _ => field.len() == 0,
            }
            &&& column == "matched_aces_json"@ ==> field == json::json_list(
                p.matched_aces@.map_values(|a: AceEntry| json::ace_json(a)),
            )
            &&& column == "contributing_sids_json"@ ==> field == json::json_list(
                p.contributing_sids@.map_values(|c: ContributingAce| json::contribution_json(c)),
            )
            &&& column == "diagnostics_json"@ ==> field == json::json_list(
                p.diagnostics@.map_values(|d: PermissionDiagnostic| json::marker_json(d)),
            )
        }),
{
    reveal_strlit("");
    reveal_strlit("path");
    reveal_strlit("user_sid");
    reveal_strlit("user_name");
    reveal_strlit("user_domain");
    reveal_strlit("identity_kind");
    reveal_strlit("disabled");
    reveal_strlit("ntfs_mask_hex");
    reveal_strlit("ntfs_rights");
    reveal_strlit("share_mask_hex");
    reveal_strlit("share_rights");
    reveal_strlit("effective_mask_hex");
    reveal_strlit("effective_rights");
    reveal_strlit("explanation");
    reveal_strlit("unsupported_aces");
    reveal_strlit("share_status");
    reveal_strlit("local_group_status");
    reveal_strlit("local_group_error");
    reveal_strlit("matched_aces_json");
    reveal_strlit("contributing_sids_json");
    reveal_strlit("diagnostics_json");
    let h = headers();
    assert(h[0] == "path"@);
    assert(h[1] == "user_sid"@);
    assert(h[2] == "user_name"@);
    assert(h[3] == "user_domain"@);
    assert(h[4] == "identity_kind"@);
    assert(h[5] == "disabled"@);
    assert(h[6] == "ntfs_mask_hex"@);
    assert(h[7] == "ntfs_rights"@);
    assert(h[8] == "share_mask_hex"@);
    assert(h[9] == "share_rights"@);
    assert(h[10] == "effective_mask_hex"@);
    assert(h[11] == "effective_rights"@);
    assert(h[12] == "explanation"@);
    assert(h[13] == "unsupported_aces"@);
    assert(h[14] == "share_status"@);
    assert(h[15] == "local_group_status"@);
    assert(h[16] == "local_group_error"@);
    assert(h[17] == "matched_aces_json"@);
    assert(h[18] == "contributing_sids_json"@);
    assert(h[19] == "diagnostics_json"@);
    assert(h[0].len() == 4
        && h[1].len() == 8
        && h[2].len() == 9
        && h[3].len() == 11
        && h[4].len() == 13
        && h[5].len() == 8
        && h[6].len() == 13
        && h[7].len() == 11
        && h[8].len() == 14
        && h[9].len() == 12
        && h[10].len() == 18
        && h[11].len() == 16
        && h[12].len() == 11
        && h[13].len() == 16
        && h[14].len() == 12
        && h[15].len() == 18
        && h[16].len() == 17
        && h[17].len() == 17
        && h[18].len() == 22
        && h[19].len() == 16);
    assert(h[1][0] == 'u' && h[5][0] == 'd');
    assert(h[3][0] == 'u' && h[7][0] == 'n');
    assert(h[3][0] == 'u' && h[12][0] == 'e');
    assert(h[4][0] == 'i' && h[6][0] == 'n');
    assert(h[7][0] == 'n' && h[12][0] == 'e');
    assert(h[9][6] == 'r' && h[14][6] == 's');
    assert(h[10][0] == 'e' && h[15][0] == 'l');
    assert(h[11][0] == 'e' && h[13][0] == 'u');
    assert(h[11][0] == 'e' && h[19][0] == 'd');
    assert(h[13][0] == 'u' && h[19][0] == 'd');
    assert(h[16][0] == 'l' && h[17][0] == 'm');
}

/// Every permission has its line, in their order and behind the names of the columns.
pub proof fn law_every_permission_has_a_line(
    a: Seq<EffectivePermission>,
    b: Seq<EffectivePermission>,
    rights: Map<u32, NormalizedRights>,
)
    ensures
        csv_rows(a + b, rights) == csv_rows(a, rights) + csv_rows(b, rights),
        forall|p: EffectivePermission| #[trigger]
            csv_rows(seq![p], rights) == csv_line(record(p, rights)),
        csv_line(headers()).is_prefix_of(csv_text(a, rights)),
        csv_text(a + b, rights) == csv_text(a, rights) + csv_rows(b, rights),
    decreases b.len(),
{
    reveal_with_fuel(csv_rows, 2);
    assert forall|p: EffectivePermission| #[trigger]
        csv_rows(seq![p], rights) == csv_line(record(p, rights)) by {
        assert(seq![p].drop_last() =~= Seq::empty());
        let line = csv_line(record(p, rights));
        assert(Seq::empty() + line =~= line);
    }
    if b.len() == 0 {
        assert(a + b =~= a);
        let rows = csv_rows(a, rights);
        assert(rows + Seq::empty() =~= rows);
    } else {
        law_every_permission_has_a_line(a, b.drop_last(), rights);
        assert((a + b).drop_last() =~= a + b.drop_last());
        text::lemma_assoc(
            csv_rows(a, rights),
            csv_rows(b.drop_last(), rights),
            csv_line(record(b.last(), rights)),
        );
    }
    text::lemma_assoc(csv_line(headers()), csv_rows(a, rights), csv_rows(b, rights));
    let head = csv_line(headers());
    let rows = csv_rows(a, rights);
    assert((head + rows).subrange(0, head.len() as int) =~= head);
}

/// A field stands in quotes exactly where it holds a comma, a quote or the end of a line.
pub proof fn law_only_special_fields_stand_in_quotes(s: Seq<char>)
    ensures
        needs_quotes(s) == (s.contains(',') || s.contains('"') || s.contains('\n') || s.contains(
            '\r',
        )),
        csv_field(s) == s || (csv_field(s).len() >= s.len() + 2 && needs_quotes(s)),
    decreases s.len(),
{
    if needs_quotes(s) {
        let i = choose|i: int| 0 <= i < s.len() && is_special(#[trigger] s[i]);
        assert(s.contains(s[i]));
        lemma_doubled_is_no_shorter(s);
    }
    if s.contains(',') || s.contains('"') || s.contains('\n') || s.contains('\r') {
        let i = choose|i: int|
            0 <= i < s.len() && (s[i] == ',' || s[i] == '"' || s[i] == '\n' || s[i] == '\r');
        assert(is_special(s[i]));
    }
}

proof fn lemma_doubled_is_no_shorter(s: Seq<char>)
    ensures
        doubled(s).len() >= s.len(),
    decreases s.len(),
{
    if s.len() > 0 {
        lemma_doubled_is_no_shorter(s.drop_last());
    }
}

} // verus!
