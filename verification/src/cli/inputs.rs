//! Inputs of a command: what is accepted, and where a report goes.

use vstd::prelude::*;

use crate::export::target::ExportTarget;
use crate::text;

verus! {

/// An input, and what its validation made of it: the normalized form, or the
/// reason for the refusal.
#[derive(Debug)]
pub struct Checked {
    pub raw: String,
    pub outcome: Result<String, String>,
}

/// The inputs of a connection, normalized.
#[derive(Debug)]
pub struct NormalizedConnectionInputs {
    pub server: Option<String>,
    pub base_dn: Option<String>,
    pub bind_dn: Option<String>,
    pub smb_server: Option<String>,
    pub share_name: Option<String>,
}

/// Why an input is refused.
pub open spec fn refusal(input: Option<Checked>) -> Option<Seq<char>> {
    match input {
        Some(c) => match c.outcome {
            Ok(_) => None,
            Err(e) => Some(e@),
        },
        None => None,
    }
}

/// The normalized form of an input.
pub open spec fn normalized(input: Option<Checked>) -> Option<Seq<char>> {
    match input {
        Some(c) => match c.outcome {
            Ok(v) => Some(v@),
            Err(_) => None,
        },
        None => None,
    }
}

/// Whether an input is given and not blank.
pub open spec fn is_set(input: Option<Checked>) -> bool {
    input matches Some(c) && text::trimmed(c.raw@).len() > 0
}

/// An input, where it is given and not blank.
pub open spec fn unless_blank(input: Option<Checked>) -> Option<Checked> {
    if is_set(input) {
        input
    } else {
        None
    }
}

/// What is wrong with the inputs of a connection: the first refusal, in the order of
/// the inputs. Of server and share of an SMB context, both or neither have to be
/// given.
pub open spec fn connection_fault(
    server: Option<Checked>,
    base_dn: Option<Checked>,
    bind_dn: Option<Checked>,
    smb_server: Option<Checked>,
    share_name: Option<Checked>,
) -> Option<Seq<char>> {
    if refusal(server) is Some {
        Some("Invalid LDAP server: "@ + refusal(server)->0)
    } else if refusal(base_dn) is Some {
        Some("Invalid base DN: "@ + refusal(base_dn)->0)
    } else if refusal(bind_dn) is Some {
        Some("Invalid bind DN: "@ + refusal(bind_dn)->0)
    } else if is_set(smb_server) && !is_set(share_name) {
        Some(
            "SMB context incomplete: --smb-server set but --share-name missing. Provide both or neither."@,
        )
    } else if !is_set(smb_server) && is_set(share_name) {
        Some(
            "SMB context incomplete: --share-name set but --smb-server missing. Provide both or neither."@,
        )
    } else if refusal(unless_blank(smb_server)) is Some {
        Some("Invalid SMB server: "@ + refusal(unless_blank(smb_server))->0)
    } else if refusal(unless_blank(share_name)) is Some {
        Some("Invalid share name: "@ + refusal(unless_blank(share_name))->0)
    } else {
        None
    }
}

/// Takes the normalized form of an input, or the reason for its refusal behind
/// `label`.
fn take(input: Option<Checked>, label: &str) -> (r: Result<Option<String>, String>)
    ensures
        refusal(input) is None ==> (r matches Ok(v) && text::text_of(v) == normalized(input)),
        refusal(input) matches Some(e) ==> (r matches Err(m) && m@ == label@ + e),
{
    match input {
        Some(c) => match c.outcome {
            Ok(v) => Ok(Some(v)),
            Err(e) => Err(label.to_owned().concat(e.as_str())),
        },
        None => Ok(None),
    }
}

/// Leaves an input out where it is blank.
fn drop_blank(input: Option<Checked>) -> (r: Option<Checked>)
    ensures
        r == unless_blank(input),
{
    match input {
        Some(c) => if text::trim(c.raw.as_str()).is_empty() {
            None
        } else {
            Some(c)
        },
        None => None,
    }
}

/// Checks the inputs of a connection together. `Err` says what is wrong.
pub fn validate_connection_inputs(
    server: Option<Checked>,
    base_dn: Option<Checked>,
    bind_dn: Option<Checked>,
    smb_server: Option<Checked>,
    share_name: Option<Checked>,
) -> (r: Result<NormalizedConnectionInputs, String>)
    ensures
        (match connection_fault(server, base_dn, bind_dn, smb_server, share_name) {
            Some(m) => r matches Err(e) && e@ == m,
            None => {
                &&& r matches Ok(c)
                &&& text::text_of(c.server) == normalized(server)
                &&& text::text_of(c.base_dn) == normalized(base_dn)
                &&& text::text_of(c.bind_dn) == normalized(bind_dn)
                &&& text::text_of(c.smb_server) == normalized(unless_blank(smb_server))
                &&& text::text_of(c.share_name) == normalized(unless_blank(share_name))
            },
        }),
{
    let server: Option<String> = match take(server, "Invalid LDAP server: ") {
        Ok(v) => v,
        Err(e) => {
            return Err(e);
        },
    };
    let base_dn: Option<String> = match take(base_dn, "Invalid base DN: ") {
        Ok(v) => v,
        Err(e) => {
            return Err(e);
        },
    };
    let bind_dn: Option<String> = match take(bind_dn, "Invalid bind DN: ") {
        Ok(v) => v,
        Err(e) => {
            return Err(e);
        },
    };
    let smb_server: Option<Checked> = drop_blank(smb_server);
    let share_name: Option<Checked> = drop_blank(share_name);
    if smb_server.is_some() && share_name.is_none() {
        return Err(
            "SMB context incomplete: --smb-server set but --share-name missing. Provide both or neither.".to_owned(),
        );
    }
    if smb_server.is_none() && share_name.is_some() {
        return Err(
            "SMB context incomplete: --share-name set but --smb-server missing. Provide both or neither.".to_owned(),
        );
    }
    let smb_server: Option<String> = match take(smb_server, "Invalid SMB server: ") {
        Ok(v) => v,
        Err(e) => {
            return Err(e);
        },
    };
    let share_name: Option<String> = match take(share_name, "Invalid share name: ") {
        Ok(v) => v,
        Err(e) => {
            return Err(e);
        },
    };
    Ok(NormalizedConnectionInputs { server, base_dn, bind_dn, smb_server, share_name })
}

/// An SMB context is complete or absent: never only a server, never only a share.
pub proof fn law_smb_context_is_complete(
    server: Option<Checked>,
    base_dn: Option<Checked>,
    bind_dn: Option<Checked>,
    smb_server: Option<Checked>,
    share_name: Option<Checked>,
)
    requires
        connection_fault(server, base_dn, bind_dn, smb_server, share_name) is None,
    ensures
        (normalized(unless_blank(smb_server)) is Some) == (normalized(unless_blank(share_name))
            is Some),
{
}

/// What the user gave to name a principal: a SID, or a name.
#[derive(Debug)]
pub enum UserInput {
    Sid(String),
    Name(String),
}

/// Tells a SID from a name, spaces around it aside.
pub fn classify_user(user: &str) -> (r: UserInput)
    ensures
        (match r {
            UserInput::Sid(s) => "S-1-"@.is_prefix_of(text::trimmed(user@)) && s@ == text::trimmed(
                user@,
            ),
            UserInput::Name(s) => !"S-1-"@.is_prefix_of(text::trimmed(user@)) && s@
                == text::trimmed(user@),
        }),
{
    let t: &str = text::trim(user);
    if text::starts_with(t, "S-1-") {
        UserInput::Sid(t.to_owned())
    } else {
        UserInput::Name(t.to_owned())
    }
}

/// Whether the file of a report exists.
#[derive(Debug)]
pub enum ExportPathStatus {
    New(String),
    Exists(String),
}

/// Decides whether a report may be written. A file that exists is replaced only
/// where that was asked for, with a warning: `Ok` carries it.
pub fn check_overwrite_policy(status: &ExportPathStatus, force: bool) -> (r: Result<
    Option<String>,
    String,
>)
    ensures
        (match *status {
            ExportPathStatus::New(_) => r matches Ok(None),
            ExportPathStatus::Exists(p) => if force {
                r matches Ok(Some(w)) && w@
                    == "[Warning] --force: overwriting existing export file: "@ + p@
            } else {
                r matches Err(m) && m@ == "Export file already exists: "@ + p@
                    + ". Pass --force to overwrite it."@
            },
        }),
{
    match status {
        ExportPathStatus::New(_) => Ok(None),
        ExportPathStatus::Exists(p) => if force {
            Ok(
                Some(
                    "[Warning] --force: overwriting existing export file: ".to_owned().concat(
                        p.as_str(),
                    ),
                ),
            )
        } else {
            Err(
                "Export file already exists: ".to_owned().concat(p.as_str()).concat(
                    ". Pass --force to overwrite it.",
                ),
            )
        },
    }
}

/// The format of a report.
#[derive(Debug, Clone, Copy, PartialEq, Eq, Structural)]
pub enum ExportFormat {
    Html,
    Json,
    Csv,
}

/// The format for a file with this extension: HTML and JSON by name, CSV otherwise.
pub open spec fn format_of(extension: Option<Seq<char>>) -> ExportFormat {
    match extension {
        Some(e) => if text::unicode_lower(e) == "html"@ {
            ExportFormat::Html
        } else if text::unicode_lower(e) == "json"@ {
            ExportFormat::Json
        } else {
            ExportFormat::Csv
        },
        None => ExportFormat::Csv,
    }
}

/// The text of an extension.
pub open spec fn extension_of(extension: Option<&str>) -> Option<Seq<char>> {
    match extension {
        Some(e) => Some(e@),
        None => None,
    }
}

/// Picks the format of a report by the extension of its file, regardless of case.
pub fn export_format(extension: Option<&str>) -> (r: ExportFormat)
    ensures
        r == format_of(extension_of(extension)),
{
    match extension {
        Some(e) => {
            let lower: String = text::lower(e);
            if text::same_text(lower.as_str(), "html") {
                ExportFormat::Html
            } else if text::same_text(lower.as_str(), "json") {
                ExportFormat::Json
            } else {
                ExportFormat::Csv
            }
        },
        None => ExportFormat::Csv,
    }
}

/// Picks the target of a report: only where it was asked for, a file is replaced.
pub fn export_target(path: String, force: bool) -> (r: ExportTarget)
    ensures
        r.location() == path@,
        r.may_replace() == force,
{
    if force {
        ExportTarget::FileOverwrite(path)
    } else {
        ExportTarget::File(path)
    }
}

/// The note for a report that leaves the risk findings out.
pub open spec fn csv_note_text() -> Seq<char> {
    "[Note] CSV export does not include risk findings — use a .html target for a readable report or .json for a full structured report (risks, matched ACEs, contributing SIDs with nested detail)."@
}

/// The note for a report in `format`: CSV leaves risk findings out.
pub fn export_note(format: ExportFormat, findings: usize) -> (r: Option<String>)
    ensures
        text::text_of(r) == (if format == ExportFormat::Csv && findings > 0 {
            Some(csv_note_text())
        } else {
            None
        }),
{
    match format {
        ExportFormat::Csv => if findings > 0 {
            Some(
                "[Note] CSV export does not include risk findings — use a .html target for a readable report or .json for a full structured report (risks, matched ACEs, contributing SIDs with nested detail).".to_owned(),
            )
        } else {
            None
        },
        _ => None,
    }
}

/// Whether an input is absent, or was accepted.
pub open spec fn is_acceptable(input: Option<Checked>) -> bool {
    input matches Some(c) ==> c.outcome is Ok
}

/// Inputs are taken exactly where each of them is acceptable and server and share of an SMB
/// context are both given or both not; a blank one counts as not given, whatever else is
/// said of it. Otherwise the message ends with a reason that was found.
pub proof fn law_inputs_are_taken_together(
    server: Option<Checked>,
    base_dn: Option<Checked>,
    bind_dn: Option<Checked>,
    smb_server: Option<Checked>,
    share_name: Option<Checked>,
)
    ensures
        ({
            let smb = smb_server is Some && text::trimmed(smb_server->0.raw@).len() > 0;
            let share = share_name is Some && text::trimmed(share_name->0.raw@).len() > 0;
            let fault = connection_fault(server, base_dn, bind_dn, smb_server, share_name);
            &&& (fault is None) == (is_acceptable(server) && is_acceptable(base_dn)
                && is_acceptable(bind_dn) && smb == share && (smb ==> is_acceptable(smb_server))
                && (share ==> is_acceptable(share_name)))
            &&& !is_acceptable(server) ==> server->0.outcome->Err_0@.is_suffix_of(fault->0)
            &&& is_acceptable(server) && !is_acceptable(base_dn)
                ==> base_dn->0.outcome->Err_0@.is_suffix_of(fault->0)
            &&& is_acceptable(server) && is_acceptable(base_dn) && !is_acceptable(bind_dn)
                ==> bind_dn->0.outcome->Err_0@.is_suffix_of(fault->0)
        }),
{
    if !is_acceptable(server) {
        lemma_reason_ends(("Invalid LDAP server: ")@, server->0.outcome->Err_0@);
    }
    if !is_acceptable(base_dn) {
        lemma_reason_ends("Invalid base DN: "@, base_dn->0.outcome->Err_0@);
    }
    if !is_acceptable(bind_dn) {
        lemma_reason_ends("Invalid bind DN: "@, bind_dn->0.outcome->Err_0@);
    }
}

proof fn lemma_reason_ends(label: Seq<char>, reason: Seq<char>)
    ensures
        reason.is_suffix_of(label + reason),
{
    let m = label + reason;
    assert(m.subrange(m.len() - reason.len(), m.len() as int) =~= reason);
}

/// What is taken of an input is its normalized form, and nothing of one that is absent,
/// refused or, for an SMB context, blank.
pub proof fn law_normalized_form_is_taken(input: Option<Checked>)
    ensures
        (normalized(input) is Some) == (input is Some && input->0.outcome is Ok),
        normalized(input) is Some ==> normalized(input)->0 == input->0.outcome->Ok_0@,
        (unless_blank(input) is Some) == (input is Some && text::trimmed(input->0.raw@).len() > 0),
        unless_blank(input) is Some ==> unless_blank(input) == input,
{
}

/// A report is HTML or JSON where the extension says so, in any case, and CSV otherwise.
pub proof fn law_extension_picks_the_format(extension: Option<Seq<char>>)
    ensures
        (format_of(extension) == ExportFormat::Html) == (extension is Some && text::unicode_lower(
            extension->0,
        ) == "html"@),
        (format_of(extension) == ExportFormat::Json) == (extension is Some && text::unicode_lower(
            extension->0,
        ) == "json"@),
{
    reveal_strlit("html");
    reveal_strlit("json");
    assert("html"@[0] == 'h' && "json"@[0] == 'j');
}

/// A new file may always be written, without a warning. A file that exists may be replaced
/// only by force, and then with a warning that names it; else the refusal names it.
pub proof fn law_files_are_replaced_by_force_only(
    status: &ExportPathStatus,
    force: bool,
    r: Result<Option<String>, String>,
)
    requires
        call_ensures(check_overwrite_policy, (status, force), r),
    ensures
        r is Ok == (status is New || force),
        status is New ==> r->Ok_0 is None,
        status matches ExportPathStatus::Exists(p) ==> {
            &&& force ==> (r->Ok_0 matches Some(w) && text::occurs_in(p@, w@))
            &&& !force ==> text::occurs_in(p@, r->Err_0@)
        },
{
    if let ExportPathStatus::Exists(p) = status {
        text::lemma_first_part_leads(
            "[Warning] --force: overwriting existing export file: "@,
            p@,
        );
        text::lemma_part_occurs(
            "Export file already exists: "@,
            p@,
            ". Pass --force to overwrite it."@,
        );
    }
}

} // verus!
