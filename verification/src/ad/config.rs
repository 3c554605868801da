//! Connection settings for a directory server.

use vstd::prelude::*;

use crate::text;

verus! {

/// How the connection is protected.
#[derive(Debug, Clone, Copy, PartialEq, Eq, Structural)]
pub enum TlsMode {
    /// Encrypted from the first byte.
    Ldaps,
    /// Not protected: the bind password is transmitted in plain text.
    Insecure,
    /// Clear transport on which the bind installs a Kerberos layer that signs
    /// and seals.
    GssapiSign,
}

impl Default for TlsMode {
    fn default() -> (r: Self)
        ensures
            r == TlsMode::Ldaps,
    {
        TlsMode::Ldaps
    }
}

/// Connection settings for a directory server.
pub struct LdapConfig {
    /// Address of the server.
    pub server: String,
    pub port: u16,
    /// Base of all searches; may be empty for a Global Catalog.
    pub base_dn: String,
    pub bind_dn: String,
    /// Never shown.
    pub bind_password: String,
    /// Time limit of an operation in seconds.
    pub timeout_secs: u64,
    pub tls_mode: TlsMode,
    /// `true` where the server is a Global Catalog: lookups are forest-wide,
    /// but only universal group memberships are complete.
    pub global_catalog: bool,
}

impl Clone for LdapConfig {
    fn clone(&self) -> (r: Self)
        ensures
            r == *self,
    {
        LdapConfig {
            server: self.server.clone(),
            port: self.port,
            base_dn: self.base_dn.clone(),
            bind_dn: self.bind_dn.clone(),
            bind_password: self.bind_password.clone(),
            timeout_secs: self.timeout_secs,
            tls_mode: self.tls_mode,
            global_catalog: self.global_catalog,
        }
    }
}

/// Whether `c` holds these texts and settings, with the default time limit.
pub open spec fn is_config(
    c: LdapConfig,
    texts: (Seq<char>, Seq<char>, Seq<char>, Seq<char>),
    port: u16,
    tls_mode: TlsMode,
    global_catalog: bool,
) -> bool {
    &&& c.server@ == texts.0
    &&& c.base_dn@ == texts.1
    &&& c.bind_dn@ == texts.2
    &&& c.bind_password@ == texts.3
    &&& c.port == port
    &&& c.timeout_secs == 10
    &&& c.tls_mode == tls_mode
    &&& c.global_catalog == global_catalog
}

/// What is shown of a configuration for debugging.
pub open spec fn shown_config(c: LdapConfig) -> Seq<char> {
    "LdapConfig { server: "@ + text::debug_quoted(c.server@) + ", port: "@ + text::decimal(c.port as nat)
        + ", base_dn: "@ + text::debug_quoted(c.base_dn@) + ", bind_dn: "@ + text::debug_quoted(c.bind_dn@)
        + ", bind_password: "@ + text::debug_quoted(
        if c.bind_password@.len() == 0 {
            "<empty>"@
        } else {
            "***"@
        },
    ) + ", timeout_secs: "@ + text::decimal(c.timeout_secs as nat) + ", tls_mode: "@ + (
    match c.tls_mode {
        TlsMode::Ldaps => "Ldaps"@,
        TlsMode::Insecure => "Insecure"@,
        TlsMode::GssapiSign => "GssapiSign"@,
    }) + ", global_catalog: "@ + (if c.global_catalog {
        "true"@
    } else {
        "false"@
    }) + " }"@
}

/// What is shown of a configuration does not depend on the bind password,
/// beyond whether there is one.
pub proof fn law_password_is_not_shown(c: LdapConfig, other: String)
    requires
        (c.bind_password@.len() == 0) == (other@.len() == 0),
    ensures
        shown_config(c) == shown_config(LdapConfig { bind_password: other, ..c }),
{
}

impl LdapConfig {
    /// Over LDAPS, the secure default.
    pub fn new(server: &str, base_dn: &str, bind_dn: &str, bind_password: &str) -> (r: Self)
        ensures
            is_config(r, (server@, base_dn@, bind_dn@, bind_password@), 636, TlsMode::Ldaps, false),
    {
        LdapConfig {
            server: server.to_owned(),
            port: 636,
            base_dn: base_dn.to_owned(),
            bind_dn: bind_dn.to_owned(),
            bind_password: bind_password.to_owned(),
            timeout_secs: 10,
            tls_mode: TlsMode::Ldaps,
            global_catalog: false,
        }
    }

    /// Over an unencrypted connection, for test environments only.
    pub fn new_insecure(server: &str, base_dn: &str, bind_dn: &str, bind_password: &str) -> (r: Self)
        ensures
            is_config(r, (server@, base_dn@, bind_dn@, bind_password@), 389, TlsMode::Insecure, false),
    {
        LdapConfig {
            server: server.to_owned(),
            port: 389,
            base_dn: base_dn.to_owned(),
            bind_dn: bind_dn.to_owned(),
            bind_password: bind_password.to_owned(),
            timeout_secs: 10,
            tls_mode: TlsMode::Insecure,
            global_catalog: false,
        }
    }

    /// Global Catalog over LDAPS. The base may be empty: the search then covers the whole forest.
    pub fn new_global_catalog(server: &str, base_dn: &str, bind_dn: &str, bind_password: &str) -> (r: Self)
        ensures
            is_config(r, (server@, base_dn@, bind_dn@, bind_password@), 3269, TlsMode::Ldaps, true),
    {
        LdapConfig {
            server: server.to_owned(),
            port: 3269,
            base_dn: base_dn.to_owned(),
            bind_dn: bind_dn.to_owned(),
            bind_password: bind_password.to_owned(),
            timeout_secs: 10,
            tls_mode: TlsMode::Ldaps,
            global_catalog: true,
        }
    }

    /// Global Catalog over an unencrypted connection, for test environments only.
    pub fn new_global_catalog_insecure(server: &str, base_dn: &str, bind_dn: &str, bind_password: &str) -> (r: Self)
        ensures
            is_config(r, (server@, base_dn@, bind_dn@, bind_password@), 3268, TlsMode::Insecure, true),
    {
        LdapConfig {
            server: server.to_owned(),
            port: 3268,
            base_dn: base_dn.to_owned(),
            bind_dn: bind_dn.to_owned(),
            bind_password: bind_password.to_owned(),
            timeout_secs: 10,
            tls_mode: TlsMode::Insecure,
            global_catalog: true,
        }
    }

    /// Clear transport with a Kerberos layer that signs and seals; the credentials of the current logon are used, none are given.
    pub fn new_signed(server: &str, base_dn: &str) -> (r: Self)
        ensures
            is_config(r, (server@, base_dn@, Seq::empty(), Seq::empty()), 389, TlsMode::GssapiSign, false),
    {
        LdapConfig {
            server: server.to_owned(),
            port: 389,
            base_dn: base_dn.to_owned(),
            bind_dn: String::new(),
            bind_password: String::new(),
            timeout_secs: 10,
            tls_mode: TlsMode::GssapiSign,
            global_catalog: false,
        }
    }

    /// The URL of the server.
    pub fn url(&self) -> (r: String)
        ensures
            r@ == (if self.tls_mode == TlsMode::Ldaps {
                "ldaps://"@
            } else {
                "ldap://"@
            }) + self.server@ + ":"@ + text::decimal(self.port as nat),
    {
        let scheme: &str = match self.tls_mode {
            TlsMode::Ldaps => "ldaps://",
            TlsMode::Insecure | TlsMode::GssapiSign => "ldap://",
        };
        let mut out: String = scheme.to_owned();
        out.append(self.server.as_str());
        out.append(":");
        text::push_decimal(&mut out, self.port as u64);
        out
    }

    /// Shows the configuration for debugging, with the password masked.
    pub fn debug_text(&self) -> (r: String)
        ensures
            r@ == shown_config(*self),
    {
        let placeholder: &str = if self.bind_password.as_str().is_empty() {
            "<empty>"
        } else {
            "***"
        };
        let mode: &str = match self.tls_mode {
            TlsMode::Ldaps => "Ldaps",
            TlsMode::Insecure => "Insecure",
            TlsMode::GssapiSign => "GssapiSign",
        };
        let mut out: String = "LdapConfig { server: ".to_owned();
        out.append(text::quote_for_debug(self.server.as_str()).as_str());
        out.append(", port: ");
        text::push_decimal(&mut out, self.port as u64);
        out.append(", base_dn: ");
        out.append(text::quote_for_debug(self.base_dn.as_str()).as_str());
        out.append(", bind_dn: ");
        out.append(text::quote_for_debug(self.bind_dn.as_str()).as_str());
        out.append(", bind_password: ");
        out.append(text::quote_for_debug(placeholder).as_str());
        out.append(", timeout_secs: ");
        text::push_decimal(&mut out, self.timeout_secs);
        out.append(", tls_mode: ");
        out.append(mode);
        out.append(", global_catalog: ");
        out.append(if self.global_catalog {
            "true"
        } else {
            "false"
        });
        out.append(" }");
        out
    }
}

/// A configuration holds what it was made of, each text in its place, and waits ten seconds.
pub proof fn law_config_holds_what_was_given(
    c: LdapConfig,
    texts: (Seq<char>, Seq<char>, Seq<char>, Seq<char>),
    port: u16,
    tls_mode: TlsMode,
    global_catalog: bool,
)
    requires
        is_config(c, texts, port, tls_mode, global_catalog),
    ensures
        c.server@ == texts.0 && c.base_dn@ == texts.1 && c.bind_dn@ == texts.2 && c.bind_password@
            == texts.3,
        c.port == port && c.tls_mode == tls_mode && c.global_catalog == global_catalog,
        c.timeout_secs == 10,
{
}

/// A configuration is shown with its server, its port, its base and its bind name, whether it
/// is encrypted, and whether it is that of a Global Catalog.
pub proof fn law_config_is_shown(c: LdapConfig)
    ensures
        ({
            let s = shown_config(c);
            &&& text::occurs_in("server: "@ + text::debug_quoted(c.server@), s)
            &&& text::occurs_in(", port: "@ + text::decimal(c.port as nat), s)
            &&& text::occurs_in(", base_dn: "@ + text::debug_quoted(c.base_dn@), s)
            &&& text::occurs_in(", bind_dn: "@ + text::debug_quoted(c.bind_dn@), s)
            &&& c.global_catalog ==> ("true"@ + " }"@).is_suffix_of(s)
            &&& !c.global_catalog ==> ("false"@ + " }"@).is_suffix_of(s)
        }),
{
    reveal_strlit("LdapConfig { server: ");
    reveal_strlit("server: ");
    let password = text::debug_quoted(
        if c.bind_password@.len() == 0 {
            "<empty>"@
        } else {
            "***"@
        },
    );
    let tls = match c.tls_mode {
        TlsMode::Ldaps => "Ldaps"@,
        TlsMode::Insecure => "Insecure"@,
        TlsMode::GssapiSign => "GssapiSign"@,
    };
    let a = "LdapConfig { server: "@ + text::debug_quoted(c.server@);
    text::lemma_found_at("server: "@ + text::debug_quoted(c.server@), a, 13);
    let gc = if c.global_catalog {
        "true"@
    } else {
        "false"@
    };
    lemma_shown_parts(
        a,
        ", port: "@,
        text::decimal(c.port as nat),
        ", base_dn: "@,
        text::debug_quoted(c.base_dn@),
        ", bind_dn: "@,
        text::debug_quoted(c.bind_dn@),
        ", bind_password: "@ + password + ", timeout_secs: "@ + text::decimal(
            c.timeout_secs as nat,
        ) + ", tls_mode: "@ + tls + ", global_catalog: "@,
        gc,
        " }"@,
    );
    let head = a + ", port: "@ + text::decimal(c.port as nat) + ", base_dn: "@
        + text::debug_quoted(c.base_dn@) + ", bind_dn: "@ + text::debug_quoted(c.bind_dn@);
    let p = ", bind_password: "@;
    let t = ", timeout_secs: "@;
    let n = text::decimal(c.timeout_secs as nat);
    let m = ", tls_mode: "@;
    let g = ", global_catalog: "@;
    text::lemma_assoc(head, p, password);
    text::lemma_assoc(head, p + password, t);
    text::lemma_assoc(head, p + password + t, n);
    text::lemma_assoc(head, p + password + t + n, m);
    text::lemma_assoc(head, p + password + t + n + m, tls);
    text::lemma_assoc(head, p + password + t + n + m + tls, g);
    text::lemma_occurs_transitive(
        "server: "@ + text::debug_quoted(c.server@),
        a,
        shown_config(c),
    );
}

/// The parts of a text of ten parts.
proof fn lemma_shown_parts(
    a: Seq<char>,
    b: Seq<char>,
    c: Seq<char>,
    d: Seq<char>,
    e: Seq<char>,
    f: Seq<char>,
    g: Seq<char>,
    h: Seq<char>,
    i: Seq<char>,
    j: Seq<char>,
)
    ensures
        ({
            let s = a + b + c + d + e + f + g + h + i + j;
            &&& text::occurs_in(a, s)
            &&& text::occurs_in(b + c, s)
            &&& text::occurs_in(d + e, s)
            &&& text::occurs_in(f + g, s)
            &&& (i + j).is_suffix_of(s)
        }),
{
    let s = a + b + c + d + e + f + g + h + i + j;
    text::lemma_found_at(a, s, 0);
    text::lemma_found_at(b + c, s, a.len() as int);
    text::lemma_found_at(d + e, s, (a + b + c).len() as int);
    text::lemma_found_at(f + g, s, (a + b + c + d + e).len() as int);
    assert(s.subrange(s.len() - (i + j).len(), s.len() as int) =~= i + j);
}

} // verus!
