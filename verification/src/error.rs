//! The error type of the analyzer.

use vstd::prelude::*;

verus! {

/// What can go wrong while resolving, scanning or exporting.
#[derive(Debug)]
pub enum CoreError {
    AdConnection(String),
    LdapQuery(String),
    SidResolution(String),
    AccessDenied(String),
    PathNotFound(String),
    InvalidSecurityDescriptor(String),
    UnsupportedAceType(String),
    ShareEnumeration(String),
    Database(String),
    Export(String),
    Cancelled,
    Validation(String),
    /// The target of a reparse point is an ancestor of the active traversal chain.
    ReparseCycle(String),
    /// The target of a reparse point was enumerated before under another path.
    ReparseDuplicateTarget(String),
}

impl CoreError {
    /// The text shown to an operator.
    pub open spec fn text(self) -> Seq<char> {
        match self {
            CoreError::AdConnection(m) => "AD connection error: "@ + m@,
            CoreError::LdapQuery(m) => "LDAP query error: "@ + m@,
            CoreError::SidResolution(m) => "SID resolution error: "@ + m@,
            CoreError::AccessDenied(m) => "Access denied: "@ + m@,
            CoreError::PathNotFound(m) => "Path not found: "@ + m@,
            CoreError::InvalidSecurityDescriptor(m) => "Invalid security descriptor: "@ + m@,
            CoreError::UnsupportedAceType(m) => "Unsupported ACE type: "@ + m@,
            CoreError::ShareEnumeration(m) => "Share enumeration error: "@ + m@,
            CoreError::Database(m) => "Database error: "@ + m@,
            CoreError::Export(m) => "Export error: "@ + m@,
            CoreError::Cancelled => "Cancellation requested"@,
            CoreError::Validation(m) => "Validation error: "@ + m@,
            CoreError::ReparseCycle(m) => "Reparse cycle: "@ + m@,
            CoreError::ReparseDuplicateTarget(m) => "Duplicate reparse target: "@ + m@,
        }
    }

    /// Renders the error for an operator.
    pub fn message(&self) -> (r: String)
        ensures
            r@ == self.text(),
    {
        match self {
            CoreError::AdConnection(m) => "AD connection error: ".to_owned().concat(m.as_str()),
            CoreError::LdapQuery(m) => "LDAP query error: ".to_owned().concat(m.as_str()),
            CoreError::SidResolution(m) => "SID resolution error: ".to_owned().concat(m.as_str()),
            CoreError::AccessDenied(m) => "Access denied: ".to_owned().concat(m.as_str()),
            CoreError::PathNotFound(m) => "Path not found: ".to_owned().concat(m.as_str()),
            CoreError::InvalidSecurityDescriptor(m) => "Invalid security descriptor: ".to_owned().concat(
                m.as_str(),
            ),
            CoreError::UnsupportedAceType(m) => "Unsupported ACE type: ".to_owned().concat(m.as_str()),
            CoreError::ShareEnumeration(m) => "Share enumeration error: ".to_owned().concat(
                m.as_str(),
            ),
            CoreError::Database(m) => "Database error: ".to_owned().concat(m.as_str()),
            CoreError::Export(m) => "Export error: ".to_owned().concat(m.as_str()),
            CoreError::Cancelled => "Cancellation requested".to_owned(),
            CoreError::Validation(m) => "Validation error: ".to_owned().concat(m.as_str()),
            CoreError::ReparseCycle(m) => "Reparse cycle: ".to_owned().concat(m.as_str()),
            CoreError::ReparseDuplicateTarget(m) => "Duplicate reparse target: ".to_owned().concat(
                m.as_str(),
            ),
        }
    }
}

/// What is shown of an error ends with what the error carries.
pub proof fn law_error_shows_its_details(e: CoreError)
    ensures
        match e {
            CoreError::AdConnection(m)
            | CoreError::LdapQuery(m)
            | CoreError::SidResolution(m)
            | CoreError::AccessDenied(m)
            | CoreError::PathNotFound(m)
            | CoreError::InvalidSecurityDescriptor(m)
            | CoreError::UnsupportedAceType(m)
            | CoreError::ShareEnumeration(m)
            | CoreError::Database(m)
            | CoreError::Export(m)
            | CoreError::Validation(m)
            | CoreError::ReparseCycle(m)
            | CoreError::ReparseDuplicateTarget(m) => m@.is_suffix_of(e.text()) && e.text().len()
                > m@.len(),
            CoreError::Cancelled => e.text().len() > 0,
        },
{
    reveal_strlit("AD connection error: ");
    reveal_strlit("LDAP query error: ");
    reveal_strlit("SID resolution error: ");
    reveal_strlit("Access denied: ");
    reveal_strlit("Path not found: ");
    reveal_strlit("Invalid security descriptor: ");
    reveal_strlit("Unsupported ACE type: ");
    reveal_strlit("Share enumeration error: ");
    reveal_strlit("Database error: ");
    reveal_strlit("Export error: ");
    reveal_strlit("Validation error: ");
    reveal_strlit("Reparse cycle: ");
    reveal_strlit("Duplicate reparse target: ");
    reveal_strlit("Cancellation requested");
    match e {
        CoreError::AdConnection(m)
        | CoreError::LdapQuery(m)
        | CoreError::SidResolution(m)
        | CoreError::AccessDenied(m)
        | CoreError::PathNotFound(m)
        | CoreError::InvalidSecurityDescriptor(m)
        | CoreError::UnsupportedAceType(m)
        | CoreError::ShareEnumeration(m)
        | CoreError::Database(m)
        | CoreError::Export(m)
        | CoreError::Validation(m)
        | CoreError::ReparseCycle(m)
        | CoreError::ReparseDuplicateTarget(m) => {
            let t = e.text();
            assert(t.subrange(t.len() - m@.len(), t.len() as int) =~= m@);
        },
        CoreError::Cancelled => {},
    }
}

/// What is shown of an error starts with the name of its kind.
pub proof fn law_error_names_its_kind(e: CoreError)
    ensures
        e is AdConnection ==> "AD connection error: "@.is_prefix_of(e.text()),
        e is LdapQuery ==> "LDAP query error: "@.is_prefix_of(e.text()),
        e is SidResolution ==> "SID resolution error: "@.is_prefix_of(e.text()),
        e is AccessDenied ==> "Access denied: "@.is_prefix_of(e.text()),
        e is PathNotFound ==> "Path not found: "@.is_prefix_of(e.text()),
        e is InvalidSecurityDescriptor ==> "Invalid security descriptor: "@.is_prefix_of(e.text()),
        e is UnsupportedAceType ==> "Unsupported ACE type: "@.is_prefix_of(e.text()),
        e is ShareEnumeration ==> "Share enumeration error: "@.is_prefix_of(e.text()),
        e is Database ==> "Database error: "@.is_prefix_of(e.text()),
        e is Export ==> "Export error: "@.is_prefix_of(e.text()),
        e is Validation ==> "Validation error: "@.is_prefix_of(e.text()),
        e is ReparseCycle ==> "Reparse cycle: "@.is_prefix_of(e.text()),
        e is ReparseDuplicateTarget ==> "Duplicate reparse target: "@.is_prefix_of(e.text()),
        e is Cancelled ==> e.text() == "Cancellation requested"@,
{
    match e {
        CoreError::AdConnection(m) => {
            lemma_label_leads("AD connection error: "@, m@);
        },
        CoreError::LdapQuery(m) => {
            lemma_label_leads("LDAP query error: "@, m@);
        },
        CoreError::SidResolution(m) => {
            lemma_label_leads("SID resolution error: "@, m@);
        },
        CoreError::AccessDenied(m) => {
            lemma_label_leads("Access denied: "@, m@);
        },
        CoreError::PathNotFound(m) => {
            lemma_label_leads("Path not found: "@, m@);
        },
        CoreError::InvalidSecurityDescriptor(m) => {
            lemma_label_leads("Invalid security descriptor: "@, m@);
        },
        CoreError::UnsupportedAceType(m) => {
            lemma_label_leads("Unsupported ACE type: "@, m@);
        },
        CoreError::ShareEnumeration(m) => {
            lemma_label_leads("Share enumeration error: "@, m@);
        },
        CoreError::Database(m) => {
            lemma_label_leads("Database error: "@, m@);
        },
        CoreError::Export(m) => {
            lemma_label_leads("Export error: "@, m@);
        },
        CoreError::Validation(m) => {
            lemma_label_leads("Validation error: "@, m@);
        },
        CoreError::ReparseCycle(m) => {
            lemma_label_leads("Reparse cycle: "@, m@);
        },
        CoreError::ReparseDuplicateTarget(m) => {
            lemma_label_leads("Duplicate reparse target: "@, m@);
        },
        CoreError::Cancelled => {},
    }
}

proof fn lemma_label_leads(a: Seq<char>, b: Seq<char>)
    ensures
        a.is_prefix_of(a + b),
{
    assert((a + b).subrange(0, a.len() as int) =~= a);
}

} // verus!
