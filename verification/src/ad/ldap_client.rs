//! Directory entries and the filters they are searched with.

use vstd::prelude::*;

use crate::ad::config::LdapConfig;
use crate::ad::sid_util;
use crate::ad::sid_util::sid_str_to_ldap_filter;
use crate::error::CoreError;
use crate::text;

verus! {

/// Page size of a paged search.
pub const DEFAULT_PAGE_SIZE: i32 = 1000;

/// Number of hits after which a search by name stops.
pub const NAME_QUERY_LIMIT: usize = 50;

/// The matching rule that lets the directory resolve nested groups.
pub const LDAP_MATCHING_RULE_IN_CHAIN: &'static str = "1.2.840.113556.1.4.1941";

/// Directory entry as a search returns it. An attribute is there either as
/// text or as raw bytes; where a name occurs twice, the first one counts.
#[derive(Debug)]
pub struct RawEntry {
    pub dn: String,
    pub attrs: Vec<(String, Vec<String>)>,
    pub bin_attrs: Vec<(String, Vec<Vec<u8>>)>,
}

/// The position of the first attribute called `name`, from `from` on.
pub open spec fn attr_index<T>(attrs: Seq<(String, Vec<T>)>, name: Seq<char>, from: int) -> Option<
    int,
>
    decreases attrs.len() - from,
{
    if from < 0 || from >= attrs.len() {
        None
    } else if attrs[from].0@ == name {
        Some(from)
    } else {
        attr_index(attrs, name, from + 1)
    }
}

/// The values of the attribute called `name`; none where there is no such attribute.
pub open spec fn attr_values<T>(attrs: Seq<(String, Vec<T>)>, name: Seq<char>) -> Seq<T> {
    match attr_index(attrs, name, 0) {
        Some(i) => attrs[i].1@,
        None => Seq::empty(),
    }
}

/// Finds the first attribute called `name`.
fn find_attr<T>(attrs: &Vec<(String, Vec<T>)>, name: &str) -> (r: Option<usize>)
    ensures
        (match r {
            Some(i) => attr_index(attrs@, name@, 0) == Some(i as int) && i < attrs@.len(),
            None => attr_index(attrs@, name@, 0) is None,
        }),
{
    for i in 0..attrs.len()
        invariant
            attr_index(attrs@, name@, 0) == attr_index(attrs@, name@, i as int),
    {
        if text::same_text(attrs[i].0.as_str(), name) {
            return Some(i);
        }
    }
    None
}

/// The first text value of an attribute, as a text.
pub open spec fn first_text(entry: RawEntry, name: Seq<char>) -> Option<Seq<char>> {
    let values = attr_values(entry.attrs@, name);
    if values.len() > 0 {
        Some(values[0]@)
    } else {
        None
    }
}

/// The first raw value of an attribute.
pub open spec fn first_bytes(entry: RawEntry, name: Seq<char>) -> Option<Seq<u8>> {
    let values = attr_values(entry.bin_attrs@, name);
    if values.len() > 0 {
        Some(values[0]@)
    } else {
        None
    }
}

impl RawEntry {
    /// The first text value of an attribute.
    pub fn first_attr(&self, name: &str) -> (r: Option<&str>)
        ensures
            (match r {
                Some(s) => first_text(*self, name@) == Some(s@),
                None => first_text(*self, name@) is None,
            }),
    {
        let values: &[String] = self.all_attr(name);
        if values.len() > 0 {
            Some(values[0].as_str())
        } else {
            None
        }
    }

    /// The first raw value of an attribute.
    pub fn first_bin_attr(&self, name: &str) -> (r: Option<&[u8]>)
        ensures
            (match r {
                Some(b) => first_bytes(*self, name@) == Some(b@),
                None => first_bytes(*self, name@) is None,
            }),
    {
        let values: &[Vec<u8>] = self.all_bin_attr(name);
        if values.len() > 0 {
            Some(values[0].as_slice())
        } else {
            None
        }
    }

    /// All text values of an attribute.
    pub fn all_attr(&self, name: &str) -> (r: &[String])
        ensures
            r@ == attr_values(self.attrs@, name@),
    {
        match find_attr(&self.attrs, name) {
            Some(i) => self.attrs[i].1.as_slice(),
            None => &[],
        }
    }

    /// All raw values of an attribute.
    pub fn all_bin_attr(&self, name: &str) -> (r: &[Vec<u8>])
        ensures
            r@ == attr_values(self.bin_attrs@, name@),
    {
        match find_attr(&self.bin_attrs, name) {
            Some(i) => self.bin_attrs[i].1.as_slice(),
            None => &[],
        }
    }
}

/// How a character stands in the value of a filter.
pub open spec fn escaped_char(c: char) -> Seq<char> {
    if c == '*' {
        "\\2a"@
    } else if c == '(' {
        "\\28"@
    } else if c == ')' {
        "\\29"@
    } else if c == '\\' {
        "\\5c"@
    } else if c == '\0' {
        "\\00"@
    } else {
        seq![c]
    }
}

/// How a text stands in the value of a filter.
pub open spec fn escaped_value(s: Seq<char>) -> Seq<char>
    decreases s.len(),
{
    if s.len() == 0 {
        Seq::empty()
    } else {
        escaped_value(s.drop_last()) + escaped_char(s.last())
    }
}

/// Escapes the characters that are special in a filter (RFC 4515).
pub fn escape_filter_value(value: &str) -> (r: String)
    ensures
        r@ == escaped_value(value@),
{
    let chars: Vec<char> = text::chars_of(value);
    let mut out: String = String::new();
    for i in 0..chars.len()
        invariant
            out@ == escaped_value(chars@.take(i as int)),
    {
        let c: char = chars[i];
        let ghost before = out@;
        assert(chars@.take(i + 1).drop_last() =~= chars@.take(i as int));
        match c {
            '*' => out.append("\\2a"),
            '(' => out.append("\\28"),
            ')' => out.append("\\29"),
            '\\' => out.append("\\5c"),
            '\0' => out.append("\\00"),
            _ => {
                out.push(c);
                assert(out@ =~= before + seq![c]);
            },
        }
    }
    assert(chars@.take(chars@.len() as int) =~= value@);
    out
}

/// Escapes a distinguished name for a filter; commas and equal signs need none.
pub fn escape_dn_for_filter(dn: &str) -> (r: String)
    ensures
        r@ == escaped_value(dn@),
{
    escape_filter_value(dn)
}

/// Whether `c` has a meaning of its own in a filter.
pub open spec fn is_filter_syntax(c: char) -> bool {
    c == '*' || c == '(' || c == ')' || c == '\0'
}

/// An escaped value holds no wildcard, parenthesis or NUL, so that it cannot
/// change the filter it stands in.
pub proof fn law_escaped_value_is_inert(s: Seq<char>)
    ensures
        forall|i: int|
            0 <= i < escaped_value(s).len() ==> !is_filter_syntax(#[trigger] escaped_value(s)[i]),
    decreases s.len(),
{
    if s.len() > 0 {
        law_escaped_value_is_inert(s.drop_last());
        reveal_strlit("\\2a");
        reveal_strlit("\\28");
        reveal_strlit("\\29");
        reveal_strlit("\\5c");
        reveal_strlit("\\00");
        let init = escaped_value(s.drop_last());
        let tail = escaped_char(s.last());
        assert forall|i: int| 0 <= i < escaped_value(s).len() implies !is_filter_syntax(
            #[trigger] escaped_value(s)[i],
        ) by {
            if i < init.len() {
                assert(escaped_value(s)[i] == init[i]);
            } else {
                assert(escaped_value(s)[i] == tail[i - init.len()]);
            }
        }
    }
}

/// A text without characters that are special in a filter is left as it is.
pub proof fn law_plain_value_is_kept(s: Seq<char>)
    requires
        forall|i: int| 0 <= i < s.len() ==> !is_filter_syntax(#[trigger] s[i]) && s[i] != '\\',
    ensures
        escaped_value(s) == s,
    decreases s.len(),
{
    if s.len() > 0 {
        assert forall|i: int| 0 <= i < s.drop_last().len() implies !is_filter_syntax(
            #[trigger] s.drop_last()[i],
        ) && s.drop_last()[i] != '\\' by {
            assert(s.drop_last()[i] == s[i]);
        }
        law_plain_value_is_kept(s.drop_last());
        assert(!is_filter_syntax(s[s.len() - 1]));
        assert(s.drop_last() + seq![s.last()] =~= s);
    } else {
        assert(s =~= Seq::<char>::empty());
    }
}

/// Filter for the object with a SID.
pub fn filter_by_sid(sid: &str) -> (r: Result<String, CoreError>)
    ensures
        r matches Ok(f) ==> (sid_util::parsed_sid(sid@) matches Ok(p) && f@ == "(objectSid="@
            + sid_util::ldap_escaped(sid_util::sid_bytes(p)) + ")"@),
        r matches Err(e) ==> (e matches CoreError::SidResolution(m) && sid_util::parsed_sid(sid@)
            == Err::<sid_util::SidParts, Seq<char>>(m@)),
{
    match sid_str_to_ldap_filter(sid) {
        Ok(escaped) => Ok("(objectSid=".to_owned().concat(escaped.as_str()).concat(")")),
        Err(e) => Err(e),
    }
}

/// Filter for the object with a distinguished name.
pub fn filter_by_dn(dn: &str) -> (r: String)
    ensures
        r@ == "(distinguishedName="@ + escaped_value(dn@) + ")"@,
{
    "(distinguishedName=".to_owned().concat(escape_dn_for_filter(dn).as_str()).concat(")")
}

/// Filter for the objects with an account name.
pub fn filter_by_samaccount(sam: &str) -> (r: String)
    ensures
        r@ == "(sAMAccountName="@ + escaped_value(sam@) + ")"@,
{
    "(sAMAccountName=".to_owned().concat(escape_filter_value(sam).as_str()).concat(")")
}

/// Filter for the object with a user principal name.
pub fn filter_by_upn(upn: &str) -> (r: String)
    ensures
        r@ == "(userPrincipalName="@ + escaped_value(upn@) + ")"@,
{
    "(userPrincipalName=".to_owned().concat(escape_filter_value(upn).as_str()).concat(")")
}

/// Filter for the users and groups whose name holds `query`.
pub fn filter_by_query(query: &str) -> (r: String)
    ensures
        r@ == "(&(|(objectCategory=person)(objectClass=group))(|(sAMAccountName=*"@ + escaped_value(
            query@,
        ) + "*)(displayName=*"@ + escaped_value(query@) + "*)(cn=*"@ + escaped_value(query@)
            + "*)))"@,
{
    let escaped: String = escape_filter_value(query);
    let e: &str = escaped.as_str();
    "(&(|(objectCategory=person)(objectClass=group))(|(sAMAccountName=*".to_owned().concat(e).concat(
    "*)(displayName=*").concat(e).concat("*)(cn=*").concat(e).concat("*)))")
}

/// Filter for the groups that a member belongs to, directly or through other groups.
pub fn filter_transitive_groups(member_dn: &str) -> (r: String)
    ensures
        r@ == "(&(objectClass=group)(member:"@ + LDAP_MATCHING_RULE_IN_CHAIN@ + ":="@
            + escaped_value(member_dn@) + "))"@,
{
    "(&(objectClass=group)(member:".to_owned().concat(LDAP_MATCHING_RULE_IN_CHAIN).concat(":=").concat(
    escape_filter_value(member_dn).as_str()).concat("))")
}

/// Filter for the direct members of a group, by their back-link to it.
pub fn filter_members_by_backlink(group_dn: &str) -> (r: String)
    ensures
        r@ == "(memberOf="@ + escaped_value(group_dn@) + ")"@,
{
    "(memberOf=".to_owned().concat(escape_filter_value(group_dn).as_str()).concat(")")
}

/// Filter for the accounts whose primary group has the relative identifier `rid`.
pub fn filter_by_primary_group(rid: u32) -> (r: String)
    ensures
        r@ == "(primaryGroupID="@ + text::decimal(rid as nat) + ")"@,
{
    let mut out: String = "(primaryGroupID=".to_owned();
    text::push_decimal(&mut out, rid as u64);
    out.append(")");
    out
}

/// Decides whether a paged search has collected enough entries.
pub fn is_limit_reached(collected: usize, client_limit: Option<usize>) -> (r: bool)
    ensures
        r == (client_limit matches Some(limit) && collected >= limit),
{
    match client_limit {
        Some(limit) => collected >= limit,
        None => false,
    }
}

/// How long an operation on the directory may take, in seconds.
pub fn ldap_timeout(config: &LdapConfig) -> (r: u64)
    ensures
        r == config.timeout_secs,
{
    config.timeout_secs
}

/// The error for an operation that took longer than `seconds`.
pub fn timeout_error(operation: &str, seconds: u64) -> (r: CoreError)
    ensures
        r matches CoreError::LdapQuery(m) && m@ == "LDAP operation '"@ + operation@
            + "' timed out after "@ + text::decimal(seconds as nat) + "s"@,
{
    let mut m: String = "LDAP operation '".to_owned().concat(operation).concat(
        "' timed out after ",
    );
    text::push_decimal(&mut m, seconds);
    m.append("s");
    CoreError::LdapQuery(m)
}

/// Of attributes with one name the first counts, with all its values in their order. A name
/// that does not occur has no values.
pub proof fn law_first_attribute_counts<T>(attrs: Seq<(String, Vec<T>)>, name: Seq<char>, i: int)
    ensures
        0 <= i < attrs.len() && attrs[i].0@ == name && (forall|j: int|
            0 <= j < i ==> (#[trigger] attrs[j]).0@ != name) ==> attr_values(attrs, name)
            == attrs[i].1@,
        (forall|j: int| 0 <= j < attrs.len() ==> (#[trigger] attrs[j]).0@ != name) ==> attr_values(
            attrs,
            name,
        ).len() == 0,
{
    lemma_attr_index(attrs, name, 0);
}

proof fn lemma_attr_index<T>(attrs: Seq<(String, Vec<T>)>, name: Seq<char>, from: int)
    requires
        0 <= from <= attrs.len(),
    ensures
        attr_index(attrs, name, from) matches Some(i) ==> from <= i < attrs.len() && attrs[i].0@
            == name && forall|j: int| from <= j < i ==> (#[trigger] attrs[j]).0@ != name,
        attr_index(attrs, name, from) is None ==> forall|j: int|
            from <= j < attrs.len() ==> (#[trigger] attrs[j]).0@ != name,
    decreases attrs.len() - from,
{
    if from < attrs.len() && attrs[from].0@ != name {
        lemma_attr_index(attrs, name, from + 1);
    }
}

/// The first value of an attribute is there exactly where the attribute has values.
pub proof fn law_first_value_is_taken(entry: RawEntry, name: Seq<char>)
    ensures
        (first_text(entry, name) is Some) == (attr_values(entry.attrs@, name).len() > 0),
        first_text(entry, name) matches Some(s) ==> s == attr_values(entry.attrs@, name)[0]@,
        (first_bytes(entry, name) is Some) == (attr_values(entry.bin_attrs@, name).len() > 0),
        first_bytes(entry, name) matches Some(b) ==> b == attr_values(entry.bin_attrs@, name)[0]@,
{
}

/// What a server makes of the value in a filter: a backslash and two hexadecimal digits
/// stand for the character with that number.
pub open spec fn unescaped_value(s: Seq<char>) -> Seq<char>
    decreases s.len(),
{
    if s.len() == 0 {
        Seq::empty()
    } else if s.len() >= 3 && s[0] == '\\' {
        seq![text::hex_value(s.subrange(1, 3)) as char] + unescaped_value(s.skip(3))
    } else {
        seq![s[0]] + unescaped_value(s.skip(1))
    }
}

/// Escaping goes character by character.
proof fn lemma_escaped_from_front(s: Seq<char>)
    requires
        s.len() > 0,
    ensures
        escaped_value(s) == escaped_char(s[0]) + escaped_value(s.skip(1)),
    decreases s.len(),
{
    if s.len() == 1 {
        assert(s.drop_last() =~= Seq::empty());
        assert(s.skip(1) =~= Seq::empty());
        assert(escaped_value(s) =~= escaped_char(s[0]) + escaped_value(s.skip(1)));
    } else {
        lemma_escaped_from_front(s.drop_last());
        assert(s.drop_last().skip(1) =~= s.skip(1).drop_last());
        assert(s.skip(1).last() == s.last());
        assert(escaped_value(s) =~= escaped_char(s[0]) + escaped_value(s.skip(1)));
    }
}

/// The digits of an escaped character denote it.
proof fn lemma_escaped_char_reads_back(c: char)
    ensures
        escaped_char(c) != seq![c] || c == '\\' ==> escaped_char(c).len() == 3 && escaped_char(c)[0]
            == '\\' && text::hex_value(escaped_char(c).subrange(1, 3)) == c as int,
        escaped_char(c) == seq![c] ==> c != '\\',
{
    reveal_strlit("\\2a");
    reveal_strlit("\\28");
    reveal_strlit("\\29");
    reveal_strlit("\\5c");
    reveal_strlit("\\00");
    reveal_with_fuel(text::hex_value, 3);
    let e = escaped_char(c);
    if e.len() == 3 {
        let d = e.subrange(1, 3);
        assert(d.drop_last() =~= seq![e[1]]);
        assert(seq![e[1]].drop_last() =~= Seq::<char>::empty());
        assert(text::hex_value(d) == text::hex_digit_value(e[1]) * 16 + text::hex_digit_value(e[2]));
    }
}

/// A filter asks for exactly the text that was given: its value reads back as that text,
/// whatever its characters.
pub proof fn law_escaped_value_reads_back(s: Seq<char>)
    ensures
        unescaped_value(escaped_value(s)) == s,
    decreases s.len(),
{
    if s.len() > 0 {
        lemma_escaped_from_front(s);
        law_escaped_value_reads_back(s.skip(1));
        let c = s[0];
        lemma_escaped_char_reads_back(c);
        let head = escaped_char(c);
        let rest = escaped_value(s.skip(1));
        let all = head + rest;
        assert(all.skip(head.len() as int) =~= rest);
        assert(s =~= seq![c] + s.skip(1));
        if head.len() == 3 {
            assert(all.subrange(1, 3) =~= head.subrange(1, 3));
            assert(all[0] == '\\');
        } else {
            assert(all[0] == c);
        }
    }
}

/// A filter for one attribute asks for exactly the given value: the attribute by its name,
/// and the value so escaped that it reads back.
pub proof fn law_filter_asks_for_the_value(
    value: &str,
    by_dn: String,
    by_account: String,
    by_upn: String,
    members: String,
)
    requires
        call_ensures(filter_by_dn, (value,), by_dn),
        call_ensures(filter_by_samaccount, (value,), by_account),
        call_ensures(filter_by_upn, (value,), by_upn),
        call_ensures(filter_members_by_backlink, (value,), members),
    ensures
        is_equality(by_dn@, "distinguishedName"@, value@),
        is_equality(by_account@, "sAMAccountName"@, value@),
        is_equality(by_upn@, "userPrincipalName"@, value@),
        is_equality(members@, "memberOf"@, value@),
{
    reveal_strlit("(distinguishedName=");
    reveal_strlit("(sAMAccountName=");
    reveal_strlit("(userPrincipalName=");
    reveal_strlit("(memberOf=");
    reveal_strlit("distinguishedName");
    reveal_strlit("sAMAccountName");
    reveal_strlit("userPrincipalName");
    reveal_strlit("memberOf");
    reveal_strlit(")");
    lemma_is_equality(by_dn@, "(distinguishedName="@, "distinguishedName"@, value@);
    lemma_is_equality(by_account@, "(sAMAccountName="@, "sAMAccountName"@, value@);
    lemma_is_equality(by_upn@, "(userPrincipalName="@, "userPrincipalName"@, value@);
    lemma_is_equality(members@, "(memberOf="@, "memberOf"@, value@);
}

/// Whether a filter asks for the objects with one value in one attribute.
pub open spec fn is_equality(filter: Seq<char>, name: Seq<char>, value: Seq<char>) -> bool {
    &&& filter.len() >= name.len() + 3
    &&& filter.first() == '(' && filter.last() == ')'
    &&& filter.subrange(1, 1 + name.len() as int) == name
    &&& filter[1 + name.len() as int] == '='
    &&& unescaped_value(filter.subrange(2 + name.len() as int, filter.len() - 1)) == value
}

proof fn lemma_is_equality(
    filter: Seq<char>,
    front: Seq<char>,
    name: Seq<char>,
    value: Seq<char>,
)
    requires
        front =~= seq!['('] + name + seq!['='],
        filter =~= front + escaped_value(value) + seq![')'],
    ensures
        is_equality(filter, name, value),
{
    law_escaped_value_reads_back(value);
    assert(filter.subrange(1, 1 + name.len() as int) =~= name);
    assert(filter.subrange(2 + name.len() as int, filter.len() - 1) =~= escaped_value(value));
}

/// All groups of a member are asked for by the rule that follows memberships in a chain; the
/// accounts of a primary group by its number.
pub proof fn law_group_filters_ask_for_the_group(
    member_dn: &str,
    rid: u32,
    groups: String,
    accounts: String,
)
    requires
        call_ensures(filter_transitive_groups, (member_dn,), groups),
        call_ensures(filter_by_primary_group, (rid,), accounts),
    ensures
        groups@ == "(&(objectClass=group)(member:"@ + "1.2.840.113556.1.4.1941"@ + ":="@
            + escaped_value(member_dn@) + "))"@,
        text::occurs_in(escaped_value(member_dn@), groups@),
        "(primaryGroupID="@.is_prefix_of(accounts@),
        text::occurs_in(text::decimal(rid as nat), accounts@),
{
    text::lemma_part_occurs(
        "(&(objectClass=group)(member:"@ + "1.2.840.113556.1.4.1941"@ + ":="@,
        escaped_value(member_dn@),
        "))"@,
    );
    let a = "(primaryGroupID="@;
    let n = text::decimal(rid as nat);
    text::lemma_part_occurs(a, n, ")"@);
    text::lemma_assoc(a, n, ")"@);
    text::lemma_first_part_leads(a, n + ")"@);
}

/// A search by name asks for the given text inside the account name, the display name and the
/// common name.
pub proof fn law_query_is_looked_for_in_every_name(query: &str, r: String)
    requires
        call_ensures(filter_by_query, (query,), r),
    ensures
        text::occurs_in("(sAMAccountName=*"@ + escaped_value(query@) + "*)"@, r@),
        text::occurs_in("(displayName=*"@ + escaped_value(query@) + "*)"@, r@),
        text::occurs_in("(cn=*"@ + escaped_value(query@) + "*)"@, r@),
        text::occurs_in("(|(objectCategory=person)(objectClass=group))"@, r@),
{
    let q = escaped_value(query@);
    let a = "(&(|(objectCategory=person)(objectClass=group))(|(sAMAccountName=*"@;
    let b = "*)(displayName=*"@;
    let c = "*)(cn=*"@;
    let d = "*)))"@;
    reveal_strlit("(&(|(objectCategory=person)(objectClass=group))(|(sAMAccountName=*");
    reveal_strlit("*)(displayName=*");
    reveal_strlit("*)(cn=*");
    reveal_strlit("*)))");
    reveal_strlit("(sAMAccountName=*");
    reveal_strlit("(displayName=*");
    reveal_strlit("(cn=*");
    reveal_strlit("*)");
    reveal_strlit("(|(objectCategory=person)(objectClass=group))");
    let n = a.len() as int;
    let m = q.len() as int;
    text::lemma_found_at("(|(objectCategory=person)(objectClass=group))"@, r@, 2);
    text::lemma_found_at("(sAMAccountName=*"@ + q + "*)"@, r@, n - "(sAMAccountName=*"@.len());
    text::lemma_found_at("(displayName=*"@ + q + "*)"@, r@, n + m + 2);
    text::lemma_found_at("(cn=*"@ + q + "*)"@, r@, n + m + b.len() + m + 2);
}

/// A search stops exactly where it has a limit and that many entries; a search by name is
/// limited, and entries come in pages.
pub proof fn law_search_stops_at_its_limit(collected: usize, limit: Option<usize>, r: bool)
    requires
        call_ensures(is_limit_reached, (collected, limit), r),
    ensures
        limit is None ==> !r,
        limit matches Some(n) ==> r == (n <= collected),
        NAME_QUERY_LIMIT == 50,
        DEFAULT_PAGE_SIZE == 1000,
{
}

} // verus!
