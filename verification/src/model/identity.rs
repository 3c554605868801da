//! Identities and the context in which they access an object.

use vstd::prelude::*;

use crate::model::diagnostic::PermissionDiagnostic;
use crate::model::sid;
use crate::model::sid::Sid;
use crate::text;

verus! {

/// Kind of an identity.
#[derive(Debug, Clone, Copy, PartialEq, Eq, Structural)]
pub enum IdentityKind {
    User,
    Group,
    Computer,
    WellKnown,
    /// A Foreign Security Principal object that stands in for a principal from
    /// a trusted forest and could not be enriched into the real principal type.
    ForeignSecurityPrincipal,
    Orphaned,
    Unknown,
}

impl IdentityKind {
    /// The name of the kind.
    pub open spec fn name(self) -> Seq<char> {
        match self {
            IdentityKind::User => "User"@,
            IdentityKind::Group => "Group"@,
            IdentityKind::Computer => "Computer"@,
            IdentityKind::WellKnown => "WellKnown"@,
            IdentityKind::ForeignSecurityPrincipal => "ForeignSecurityPrincipal"@,
            IdentityKind::Orphaned => "Orphaned"@,
            IdentityKind::Unknown => "Unknown"@,
        }
    }

    /// Names the kind.
    pub fn kind_name(self) -> (r: &'static str)
        ensures
            r@ == self.name(),
    {
        match self {
            IdentityKind::User => "User",
            IdentityKind::Group => "Group",
            IdentityKind::Computer => "Computer",
            IdentityKind::WellKnown => "WellKnown",
            IdentityKind::ForeignSecurityPrincipal => "ForeignSecurityPrincipal",
            IdentityKind::Orphaned => "Orphaned",
            IdentityKind::Unknown => "Unknown",
        }
    }
}

/// An AD user, group or computer.
#[derive(Debug)]
pub struct Identity {
    pub sid: Sid,
    pub name: Option<String>,
    pub domain: Option<String>,
    pub kind: IdentityKind,
    pub disabled: bool,
    /// `userPrincipalName`, preferred for account lookups on a server because
    /// the NetBIOS domain name cannot be derived reliably from a DN.
    pub user_principal_name: Option<String>,
    /// Number of historical SIDs (`sIDHistory`) the account carries.
    pub sid_history_count: usize,
    /// The historical SIDs that could be parsed; fewer than the count where a
    /// value is malformed.
    pub sid_history: Vec<Sid>,
}

/// What an [`Identity`] says.
pub struct IdentityView {
    pub sid: Seq<char>,
    pub name: Option<Seq<char>>,
    pub domain: Option<Seq<char>>,
    pub kind: IdentityKind,
    pub disabled: bool,
    pub user_principal_name: Option<Seq<char>>,
    pub sid_history_count: usize,
    pub sid_history: Seq<Seq<char>>,
}

impl View for Identity {
    type V = IdentityView;

    open spec fn view(&self) -> IdentityView {
        IdentityView {
            sid: self.sid@,
            name: text::text_of(self.name),
            domain: text::text_of(self.domain),
            kind: self.kind,
            disabled: self.disabled,
            user_principal_name: text::text_of(self.user_principal_name),
            sid_history_count: self.sid_history_count,
            sid_history: sid::sid_texts(self.sid_history@),
        }
    }
}

/// Copies an optional text.
pub fn clone_text(o: &Option<String>) -> (r: Option<String>)
    ensures
        r == *o,
{
    match o {
        Some(s) => Some(s.clone()),
        None => None,
    }
}

/// Copies a list of SIDs.
pub fn clone_sids(v: &Vec<Sid>) -> (r: Vec<Sid>)
    ensures
        r@ == v@,
{
    let mut out: Vec<Sid> = Vec::new();
    for i in 0..v.len()
        invariant
            out@ == v@.take(i as int),
    {
        out.push(v[i].clone());
        assert(out@ =~= v@.take(i + 1));
    }
    assert(v@.take(v@.len() as int) =~= v@);
    out
}

impl Clone for Identity {
    fn clone(&self) -> (r: Self)
        ensures
            r@ == self@,
    {
        Identity {
            sid: self.sid.clone(),
            name: clone_text(&self.name),
            domain: clone_text(&self.domain),
            kind: self.kind,
            disabled: self.disabled,
            user_principal_name: clone_text(&self.user_principal_name),
            sid_history_count: self.sid_history_count,
            sid_history: clone_sids(&self.sid_history),
        }
    }
}

/// An identity of which only the SID and a kind are known.
pub open spec fn bare_identity(sid: Seq<char>, kind: IdentityKind) -> IdentityView {
    IdentityView {
        sid,
        name: None,
        domain: None,
        kind,
        disabled: false,
        user_principal_name: None,
        sid_history_count: 0,
        sid_history: Seq::empty(),
    }
}

/// The markers for `evaluated` parsed historical SIDs out of `total`.
pub open spec fn sid_history_markers(evaluated: nat, total: nat) -> Seq<PermissionDiagnostic> {
    (if evaluated > 0 {
        seq![PermissionDiagnostic::SidHistoryEvaluated { count: evaluated as usize }]
    } else {
        Seq::empty()
    }) + (if total > evaluated {
        seq![PermissionDiagnostic::SidHistoryPresent { count: (total - evaluated) as usize }]
    } else {
        Seq::empty()
    })
}

/// Number of historical SIDs that markers speak of.
pub open spec fn marked_history(d: Seq<PermissionDiagnostic>) -> nat
    decreases d.len(),
{
    if d.len() == 0 {
        0
    } else {
        marked_history(d.drop_last()) + (match d.last() {
            PermissionDiagnostic::SidHistoryEvaluated { count } => count as nat,
            PermissionDiagnostic::SidHistoryPresent { count } => count as nat,
            _ => 0,
        })
    }
}

/// No historical SID goes unmentioned: the markers speak of all of them, and one of them
/// marks a gap exactly where some were not parsed.
pub proof fn law_history_is_accounted_for(evaluated: nat, total: nat)
    requires
        evaluated <= total <= usize::MAX,
    ensures
        marked_history(sid_history_markers(evaluated, total)) == total,
        (exists|i: int|
            0 <= i < sid_history_markers(evaluated, total).len() && (
            #[trigger] sid_history_markers(evaluated, total)[i]).marks_gap()) == (evaluated
            < total),
{
    let d = sid_history_markers(evaluated, total);
    reveal_with_fuel(marked_history, 3);
    if evaluated < total {
        assert(d.last().marks_gap());
        assert(d[d.len() - 1].marks_gap());
    }
    if evaluated > 0 && total > evaluated {
        assert(d.drop_last() =~= seq![
            PermissionDiagnostic::SidHistoryEvaluated { count: evaluated as usize },
        ]);
        assert(d.drop_last().drop_last() =~= Seq::<PermissionDiagnostic>::empty());
    } else if d.len() > 0 {
        assert(d.drop_last() =~= Seq::<PermissionDiagnostic>::empty());
    }
}

impl Identity {
    /// Classifies the `sIDHistory` of this identity: parsed values are
    /// evaluated into the token, the remainder is not.
    pub fn sid_history_diagnostics(&self) -> (r: Vec<PermissionDiagnostic>)
        ensures
            r@ == sid_history_markers(self.sid_history@.len(), self.sid_history_count as nat),
    {
        let mut d: Vec<PermissionDiagnostic> = Vec::new();
        let evaluated: usize = self.sid_history.len();
        if evaluated > 0 {
            d.push(PermissionDiagnostic::SidHistoryEvaluated { count: evaluated });
        }
        let unevaluated: usize = self.sid_history_count.saturating_sub(evaluated);
        if unevaluated > 0 {
            d.push(PermissionDiagnostic::SidHistoryPresent { count: unevaluated });
        }
        assert(d@ =~= sid_history_markers(evaluated as nat, self.sid_history_count as nat));
        d
    }

    /// The name to show: the account name where known, the SID otherwise.
    pub open spec fn shown_name(self) -> Seq<char> {
        match self.name {
            Some(n) => n@,
            None => self.sid@,
        }
    }

    /// Shows the account name where known, the SID otherwise.
    pub fn display(&self) -> (r: &str)
        ensures
            r@ == self.shown_name(),
    {
        match &self.name {
            Some(n) => n.as_str(),
            None => self.sid.0.as_str(),
        }
    }
}

/// How an access happens; decides which well-known SIDs belong to the token.
#[derive(Debug, Clone, Copy, PartialEq, Eq, Structural)]
pub enum AccessContext {
    /// Local logon: `INTERACTIVE` and `LOCAL` belong to the token.
    LocalInteractive,
    /// Access over SMB: `NETWORK` belongs to the token.
    RemoteSmb,
    /// No context given: only the universal well-known SIDs apply.
    Unspecified,
}

impl Default for AccessContext {
    fn default() -> (r: Self)
        ensures
            r == AccessContext::Unspecified,
    {
        AccessContext::Unspecified
    }
}

/// The access context that the shape of a path implies. UNC paths, in the
/// long-path form too, are remote.
pub open spec fn context_of_path(path: Seq<char>) -> AccessContext {
    if "\\\\?\\"@.is_prefix_of(path) {
        let rest = path.skip(4);
        if "UNC\\"@.is_prefix_of(rest) || "UNC/"@.is_prefix_of(rest) {
            AccessContext::RemoteSmb
        } else {
            AccessContext::LocalInteractive
        }
    } else if "\\\\"@.is_prefix_of(path) {
        AccessContext::RemoteSmb
    } else {
        AccessContext::LocalInteractive
    }
}

/// Whether an optional text is there and not empty.
pub open spec fn is_given(o: Option<&str>) -> bool {
    o matches Some(s) && s@.len() > 0
}

/// Decides whether an optional text is there and not empty.
fn given(o: Option<&str>) -> (r: bool)
    ensures
        r == is_given(o),
{
    match o {
        Some(s) => !s.is_empty(),
        None => false,
    }
}

impl AccessContext {
    /// Derives the context from the shape of a path.
    pub fn for_path(path: &str) -> (r: Self)
        ensures
            r == context_of_path(path@),
    {
        proof {
            reveal_strlit("\\\\?\\");
        }
        if text::starts_with(path, "\\\\?\\") {
            let n: usize = path.unicode_len();
            let rest: &str = path.substring_char(4, n);
            assert(rest@ =~= path@.skip(4));
            if text::starts_with(rest, "UNC\\") || text::starts_with(rest, "UNC/") {
                return AccessContext::RemoteSmb;
            }
            return AccessContext::LocalInteractive;
        }
        if text::starts_with(path, "\\\\") {
            return AccessContext::RemoteSmb;
        }
        AccessContext::LocalInteractive
    }

    /// Like [`AccessContext::for_path`], but remote as soon as a server or a
    /// share is named.
    pub fn for_path_with_smb(path: &str, smb_server: Option<&str>, share_name: Option<&str>) -> (r:
        Self)
        ensures
            r == (if is_given(smb_server) || is_given(share_name) {
                AccessContext::RemoteSmb
            } else {
                context_of_path(path@)
            }),
    {
        if given(smb_server) || given(share_name) {
            return AccessContext::RemoteSmb;
        }
        Self::for_path(path)
    }
}

/// Whether `path` starts like a long path: two backslashes, a question mark, a backslash.
pub open spec fn is_long_path(path: Seq<char>) -> bool {
    path.len() >= 4 && path[0] == '\\' && path[1] == '\\' && path[2] == '?' && path[3] == '\\'
}

/// An access is remote exactly where the path names a server: behind two backslashes, or
/// behind `UNC` and a separator in a long path. Everything else is local.
pub proof fn law_remote_paths_name_a_server(path: Seq<char>)
    ensures
        (context_of_path(path) == AccessContext::RemoteSmb) == (if is_long_path(path) {
            path.len() >= 8 && path[4] == 'U' && path[5] == 'N' && path[6] == 'C' && (path[7]
                == '\\' || path[7] == '/')
        } else {
            path.len() >= 2 && path[0] == '\\' && path[1] == '\\'
        }),
        context_of_path(path) != AccessContext::RemoteSmb ==> context_of_path(path)
            == AccessContext::LocalInteractive,
{
    reveal_strlit("\\\\?\\");
    reveal_strlit("UNC\\");
    reveal_strlit("UNC/");
    reveal_strlit("\\\\");
    let long = "\\\\?\\"@;
    let two = "\\\\"@;
    assert(long.is_prefix_of(path) == is_long_path(path)) by {
        if is_long_path(path) {
            assert(path.subrange(0, 4) =~= long);
        }
        if long.is_prefix_of(path) {
            assert(path.subrange(0, 4)[0] == path[0]);
            assert(path.subrange(0, 4)[1] == path[1]);
            assert(path.subrange(0, 4)[2] == path[2]);
            assert(path.subrange(0, 4)[3] == path[3]);
        }
    }
    assert(two.is_prefix_of(path) == (path.len() >= 2 && path[0] == '\\' && path[1] == '\\')) by {
        if path.len() >= 2 && path[0] == '\\' && path[1] == '\\' {
            assert(path.subrange(0, 2) =~= two);
        }
        if two.is_prefix_of(path) {
            assert(path.subrange(0, 2)[0] == path[0]);
            assert(path.subrange(0, 2)[1] == path[1]);
        }
    }
    if is_long_path(path) {
        let rest = path.skip(4);
        if rest.len() >= 4 {
            assert(rest[0] == path[4] && rest[1] == path[5] && rest[2] == path[6] && rest[3]
                == path[7]);
            let four = rest.subrange(0, 4);
            assert(four[0] == rest[0] && four[1] == rest[1] && four[2] == rest[2] && four[3]
                == rest[3]);
            if rest[0] == 'U' && rest[1] == 'N' && rest[2] == 'C' && rest[3] == '\\' {
                assert(four =~= "UNC\\"@);
            }
            if rest[0] == 'U' && rest[1] == 'N' && rest[2] == 'C' && rest[3] == '/' {
                assert(four =~= "UNC/"@);
            }
        }
    }
}

/// Of an identity of which only the SID is known nothing else is claimed: no name, no
/// domain, no history, and not that it is disabled.
pub proof fn law_bare_identity_claims_nothing(sid: Seq<char>, kind: IdentityKind)
    ensures
        ({
            let i = bare_identity(sid, kind);
            &&& i.sid == sid && i.kind == kind
            &&& i.name is None && i.domain is None && i.user_principal_name is None
            &&& !i.disabled
            &&& i.sid_history_count == 0 && i.sid_history.len() == 0
        }),
{
}

/// Kinds have the names of their variants, so that no two share one.
pub proof fn law_kinds_have_their_names(a: IdentityKind, b: IdentityKind)
    ensures
        a.name() == b.name() ==> a == b,
        a == IdentityKind::User ==> a.name() == "User"@,
        a == IdentityKind::Group ==> a.name() == "Group"@,
        a == IdentityKind::Computer ==> a.name() == "Computer"@,
        a == IdentityKind::WellKnown ==> a.name() == "WellKnown"@,
        a == IdentityKind::ForeignSecurityPrincipal ==> a.name() == "ForeignSecurityPrincipal"@,
        a == IdentityKind::Orphaned ==> a.name() == "Orphaned"@,
        a == IdentityKind::Unknown ==> a.name() == "Unknown"@,
{
    reveal_strlit("User");
    reveal_strlit("Group");
    reveal_strlit("Computer");
    reveal_strlit("WellKnown");
    reveal_strlit("ForeignSecurityPrincipal");
    reveal_strlit("Orphaned");
    reveal_strlit("Unknown");
    assert("User"@.len() == 4 && "Group"@.len() == 5 && "Computer"@.len() == 8
        && "WellKnown"@.len() == 9 && "ForeignSecurityPrincipal"@.len() == 24 && "Orphaned"@.len()
        == 8 && "Unknown"@.len() == 7);
    assert("Computer"@[0] == 'C' && "Orphaned"@[0] == 'O');
}

/// An identity says all that it holds.
pub proof fn law_identity_says_everything(i: Identity, k: int)
    ensures
        i@.sid == i.sid.0@,
        i@.name is Some == i.name is Some,
        i.name matches Some(s) ==> i@.name == Some(s@),
        i@.domain is Some == i.domain is Some,
        i.domain matches Some(s) ==> i@.domain == Some(s@),
        i@.kind == i.kind,
        i@.disabled == i.disabled,
        i@.user_principal_name is Some == i.user_principal_name is Some,
        i.user_principal_name matches Some(s) ==> i@.user_principal_name == Some(s@),
        i@.sid_history_count == i.sid_history_count,
        i@.sid_history.len() == i.sid_history@.len(),
        0 <= k < i.sid_history@.len() ==> i@.sid_history[k] == i.sid_history@[k].0@,
{
}

/// An identity is shown by its name, and by its SID where it has none.
pub proof fn law_name_is_shown(i: Identity)
    ensures
        i.name matches Some(n) ==> i.shown_name() == n@,
        i.name is None ==> i.shown_name() == i.sid.0@,
{
}

} // verus!
