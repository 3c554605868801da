//! Conversion of SIDs between text and the binary form of the directory.
//!
//! Text: `S-R-I-S1-...-Sn`. Binary: revision, number of sub-authorities,
//! identifier authority in six bytes (most significant first), then four bytes
//! per sub-authority (least significant first).

use vstd::prelude::*;

use crate::error::CoreError;
use crate::text;

verus! {

/// The parts of a SID.
pub struct SidParts {
    pub revision: nat,
    pub authority: nat,
    pub subs: Seq<u32>,
}

/// The numbers that the parts at the positions from 3 up to `n`, without `n`, denote;
/// `None` where one of them is not a number of at most 32 bits.
pub open spec fn sub_authorities(parts: Seq<Seq<char>>, n: int) -> Option<Seq<u32>>
    decreases n,
{
    if n <= 3 {
        Some(Seq::empty())
    } else {
        match (sub_authorities(parts, n - 1), text::unsigned_value(parts[n - 1], u32::MAX as nat)) {
            (Some(init), Some(v)) => Some(init.push(v as u32)),
            _ => None,
        }
    }
}

/// Why `sid` cannot be encoded, or its parts.
pub open spec fn parsed_sid(sid: Seq<char>) -> Result<SidParts, Seq<char>> {
    let parts = text::split_at_char(text::trimmed(sid), '-');
    if parts.len() < 3 || parts[0] != "S"@ {
        Err("Ungültiges SID-Format / Invalid SID format: "@ + sid)
    } else {
        match text::unsigned_value(parts[1], u8::MAX as nat) {
            None => Err("Ungültige Revision in SID / Invalid revision: "@ + sid),
            Some(revision) => match text::unsigned_value(parts[2], u64::MAX as nat) {
                None => Err(
                    "Ungültige Identifier Authority / Invalid identifier authority: "@ + sid,
                ),
                Some(authority) => match sub_authorities(parts, parts.len() as int) {
                    None => Err(
                        "Ungültige Sub-Authority / Invalid sub-authority in SID: "@ + sid,
                    ),
                    Some(subs) => Ok(SidParts { revision, authority, subs }),
                },
            },
        }
    }
}

/// Byte `i` of `n`, counted from the least significant.
pub open spec fn byte_of(n: nat, i: nat) -> u8
    decreases i,
{
    if i == 0 {
        (n % 256) as u8
    } else {
        byte_of(n / 256, (i - 1) as nat)
    }
}

/// The identifier authority: the low 48 bits, most significant byte first.
pub open spec fn authority_bytes(a: nat) -> Seq<u8> {
    seq![byte_of(a, 5), byte_of(a, 4), byte_of(a, 3), byte_of(a, 2), byte_of(a, 1), byte_of(a, 0)]
}

/// A sub-authority: four bytes, least significant first.
pub open spec fn sub_bytes(n: u32) -> Seq<u8> {
    seq![
        byte_of(n as nat, 0),
        byte_of(n as nat, 1),
        byte_of(n as nat, 2),
        byte_of(n as nat, 3),
    ]
}

/// The bytes of the sub-authorities, in order.
pub open spec fn all_sub_bytes(subs: Seq<u32>) -> Seq<u8>
    decreases subs.len(),
{
    if subs.len() == 0 {
        Seq::empty()
    } else {
        all_sub_bytes(subs.drop_last()) + sub_bytes(subs.last())
    }
}

/// The binary form of a SID. The count of sub-authorities is kept modulo 256.
pub open spec fn sid_bytes(p: SidParts) -> Seq<u8> {
    seq![p.revision as u8, (p.subs.len() % 256) as u8] + authority_bytes(p.authority)
        + all_sub_bytes(p.subs)
}

/// The canonical text of a SID.
pub open spec fn sid_text(p: SidParts) -> Seq<char>
    decreases p.subs.len(),
{
    if p.subs.len() == 0 {
        "S-"@ + text::decimal(p.revision) + "-"@ + text::decimal(p.authority)
    } else {
        sid_text(SidParts { subs: p.subs.drop_last(), ..p }) + "-"@ + text::decimal(
            p.subs.last() as nat,
        )
    }
}

/// The number that six bytes denote, most significant first.
pub open spec fn authority_of(b: Seq<u8>) -> nat {
    ((((b[0] as nat * 256 + b[1] as nat) * 256 + b[2] as nat) * 256 + b[3] as nat) * 256
        + b[4] as nat) * 256 + b[5] as nat
}

/// The number that four bytes of `b` from `at` on denote, least significant first.
pub open spec fn sub_at(b: Seq<u8>, at: int) -> u32 {
    (b[at] as nat + 256 * b[at + 1] as nat + 65536 * b[at + 2] as nat + 16777216 * b[at + 3] as nat) as u32
}

/// The parts that the bytes of a SID hold; bytes behind the announced number
/// of sub-authorities are not looked at.
pub open spec fn decoded_sid(b: Seq<u8>) -> Result<SidParts, Seq<char>> {
    if b.len() < 8 {
        Err("SID-Byte-Sequenz zu kurz / SID byte sequence too short"@)
    } else if b.len() < 8 + 4 * b[1] {
        Err(
            "SID-Daten unvollständig / SID data incomplete: expected "@ + text::decimal(
                (8 + 4 * b[1]) as nat,
            ) + " bytes, got "@ + text::decimal(b.len()),
        )
    } else {
        Ok(
            SidParts {
                revision: b[0] as nat,
                authority: authority_of(b.subrange(2, 8)),
                subs: Seq::new(b[1] as nat, |i: int| sub_at(b, 8 + 4 * i)),
            },
        )
    }
}

/// Each byte as `\` and two lower-case hexadecimal digits.
pub open spec fn ldap_escaped(b: Seq<u8>) -> Seq<char>
    decreases b.len(),
{
    if b.len() == 0 {
        Seq::empty()
    } else {
        ldap_escaped(b.drop_last()).push('\\') + text::hex(b.last() as nat, 2, false)
    }
}

/// Encodes the text of a SID for use in a search filter.
pub fn sid_str_to_ldap_filter(sid: &str) -> (r: Result<String, CoreError>)
    ensures
        r matches Ok(f) ==> (parsed_sid(sid@) matches Ok(p) && f@ == ldap_escaped(sid_bytes(p))),
        r matches Err(e) ==> (e matches CoreError::SidResolution(m) && parsed_sid(sid@) == Err::<
            SidParts,
            Seq<char>,
        >(m@)),
{
    match sid_str_to_bytes(sid) {
        Ok(bytes) => Ok(bytes_to_ldap_escape(&bytes)),
        Err(e) => Err(e),
    }
}

/// Bytes of a number by division.
#[verifier::rlimit(40)]
proof fn lemma_byte_of(n: nat)
    ensures
        byte_of(n, 0) == n % 256,
        byte_of(n, 1) == n / 256 % 256,
        byte_of(n, 2) == n / 65536 % 256,
        byte_of(n, 3) == n / 16777216 % 256,
        byte_of(n, 4) == n / 4294967296 % 256,
        byte_of(n, 5) == n / 1099511627776 % 256,
{
    reveal_with_fuel(byte_of, 7);
    assert(n / 256 / 256 == n / 65536);
    assert(n / 256 / 256 / 256 == n / 16777216);
    assert(n / 256 / 256 / 256 / 256 == n / 4294967296);
    assert(n / 256 / 256 / 256 / 256 / 256 == n / 1099511627776);
}

/// Appends the six bytes of an identifier authority.
fn push_authority(out: &mut Vec<u8>, a: u64)
    ensures
        final(out)@ == old(out)@ + authority_bytes(a as nat),
{
    proof {
        lemma_byte_of(a as nat);
    }
    out.push((a / 1099511627776 % 256) as u8);
    out.push((a / 4294967296 % 256) as u8);
    out.push((a / 16777216 % 256) as u8);
    out.push((a / 65536 % 256) as u8);
    out.push((a / 256 % 256) as u8);
    out.push((a % 256) as u8);
    assert(out@ =~= old(out)@ + authority_bytes(a as nat));
}

/// Appends the four bytes of a sub-authority.
fn push_sub(out: &mut Vec<u8>, n: u32)
    ensures
        final(out)@ == old(out)@ + sub_bytes(n),
{
    proof {
        lemma_byte_of(n as nat);
    }
    out.push((n % 256) as u8);
    out.push((n / 256 % 256) as u8);
    out.push((n / 65536 % 256) as u8);
    out.push((n / 16777216 % 256) as u8);
    assert(out@ =~= old(out)@ + sub_bytes(n));
}

/// Once a component is not a number, no longer list of components is.
proof fn lemma_sub_authorities_none(parts: Seq<Seq<char>>, i: int, n: int)
    requires
        3 <= i <= n,
        sub_authorities(parts, i) is None,
    ensures
        sub_authorities(parts, n) is None,
    decreases n,
{
    if i < n {
        lemma_sub_authorities_none(parts, i, n - 1);
    }
}

/// Encodes the text of a SID. Surrounding white space is ignored.
pub fn sid_str_to_bytes(sid: &str) -> (r: Result<Vec<u8>, CoreError>)
    ensures
        r matches Ok(b) ==> (parsed_sid(sid@) matches Ok(p) && b@ == sid_bytes(p)),
        r matches Err(e) ==> (e matches CoreError::SidResolution(m) && parsed_sid(sid@) == Err::<
            SidParts,
            Seq<char>,
        >(m@)),
{
    let parts: Vec<String> = text::split(text::trim(sid), '-');
    let ghost views = text::split_at_char(text::trimmed(sid@), '-');
    assert(forall|i: int| 0 <= i < parts@.len() ==> views[i] == (#[trigger] parts@[i])@);
    if parts.len() < 3 || !text::same_text(parts[0].as_str(), "S") {
        return Err(
            CoreError::SidResolution(
                "Ungültiges SID-Format / Invalid SID format: ".to_owned().concat(sid),
            ),
        );
    }
    let revision: u8 = match text::parse_unsigned(parts[1].as_str(), 255) {
        Some(v) => v as u8,
        None => {
            return Err(
                CoreError::SidResolution(
                    "Ungültige Revision in SID / Invalid revision: ".to_owned().concat(sid),
                ),
            );
        },
    };
    let authority: u64 = match text::parse_unsigned(parts[2].as_str(), u64::MAX) {
        Some(v) => v,
        None => {
            return Err(
                CoreError::SidResolution(
                    "Ungültige Identifier Authority / Invalid identifier authority: ".to_owned().concat(
                    sid),
                ),
            );
        },
    };
    let mut subs: Vec<u32> = Vec::new();
    assert(subs@ =~= Seq::<u32>::empty());
    for i in 3..parts.len()
        invariant
            3 <= i <= parts@.len(),
            views == text::split_at_char(text::trimmed(sid@), '-'),
            views == text::texts(parts@),
            views.len() >= 3,
            views[0] == "S"@,
            text::unsigned_value(views[1], u8::MAX as nat) == Some(revision as nat),
            text::unsigned_value(views[2], u64::MAX as nat) == Some(authority as nat),
            sub_authorities(views, i as int) == Some(subs@),
    {
        assert(views[i as int] == parts@[i as int]@);
        match text::parse_unsigned(parts[i].as_str(), 0xffff_ffff) {
            Some(v) => {
                subs.push(v as u32);
            },
            None => {
                proof {
                    lemma_sub_authorities_none(views, i + 1, views.len() as int);
                }
                return Err(
                    CoreError::SidResolution(
                        "Ungültige Sub-Authority / Invalid sub-authority in SID: ".to_owned().concat(
                        sid),
                    ),
                );
            },
        }
    }
    let mut bytes: Vec<u8> = Vec::new();
    bytes.push(revision);
    bytes.push((subs.len() % 256) as u8);
    push_authority(&mut bytes, authority);
    let ghost head = seq![revision, (subs@.len() % 256) as u8] + authority_bytes(authority as nat);
    assert(bytes@ =~= head + all_sub_bytes(subs@.take(0)));
    for i in 0..subs.len()
        invariant
            bytes@ == head + all_sub_bytes(subs@.take(i as int)),
    {
        push_sub(&mut bytes, subs[i]);
        assert(subs@.take(i + 1).drop_last() =~= subs@.take(i as int));
        assert(bytes@ =~= head + all_sub_bytes(subs@.take(i + 1)));
    }
    assert(subs@.take(subs@.len() as int) =~= subs@);
    Ok(bytes)
}

/// Decodes the bytes of a SID into its canonical text.
pub fn bytes_to_sid_str(bytes: &[u8]) -> (r: Result<String, CoreError>)
    ensures
        r matches Ok(s) ==> (decoded_sid(bytes@) matches Ok(p) && s@ == sid_text(p)),
        r matches Err(e) ==> (e matches CoreError::SidResolution(m) && decoded_sid(bytes@) == Err::<
            SidParts,
            Seq<char>,
        >(m@)),
{
    if bytes.len() < 8 {
        return Err(
            CoreError::SidResolution(
                "SID-Byte-Sequenz zu kurz / SID byte sequence too short".to_owned(),
            ),
        );
    }
    let count: usize = bytes[1] as usize;
    let expected: usize = 8 + count * 4;
    if bytes.len() < expected {
        let mut m: String =
            "SID-Daten unvollständig / SID data incomplete: expected ".to_owned();
        text::push_decimal(&mut m, expected as u64);
        m.append(" bytes, got ");
        text::push_decimal(&mut m, bytes.len() as u64);
        return Err(CoreError::SidResolution(m));
    }
    let a0: u64 = bytes[2] as u64 * 256 + bytes[3] as u64;
    let a1: u64 = (a0 * 256 + bytes[4] as u64) * 256 + bytes[5] as u64;
    let authority: u64 = (a1 * 256 + bytes[6] as u64) * 256 + bytes[7] as u64;
    let ghost p = decoded_sid(bytes@)->Ok_0;
    assert(authority == p.authority);
    let mut sid: String = "S-".to_owned();
    text::push_decimal(&mut sid, bytes[0] as u64);
    sid.append("-");
    text::push_decimal(&mut sid, authority);
    assert(p.subs.take(0) =~= Seq::<u32>::empty());
    for i in 0..count
        invariant
            count == bytes@[1],
            bytes@.len() >= 8 + count * 4,
            decoded_sid(bytes@) == Ok::<SidParts, Seq<char>>(p),
            sid@ == sid_text(SidParts { subs: p.subs.take(i as int), ..p }),
    {
        let at: usize = 8 + i * 4;
        let low: u32 = bytes[at] as u32 + 256 * bytes[at + 1] as u32;
        let sa: u32 = low + 65536 * bytes[at + 2] as u32 + 16777216 * bytes[at + 3] as u32;
        assert(p.subs[i as int] == sa);
        sid.append("-");
        text::push_decimal(&mut sid, sa as u64);
        assert(p.subs.take(i + 1).drop_last() =~= p.subs.take(i as int));
    }
    assert(p.subs.take(count as int) =~= p.subs);
    Ok(sid)
}

/// Escapes bytes for use in a search filter.
pub fn bytes_to_ldap_escape(bytes: &[u8]) -> (r: String)
    ensures
        r@ == ldap_escaped(bytes@),
{
    let mut out: String = String::new();
    for i in 0..bytes.len()
        invariant
            out@ == ldap_escaped(bytes@.take(i as int)),
    {
        out.push('\\');
        text::push_hex(&mut out, bytes[i] as u32, 2, false);
        assert(bytes@.take(i + 1).drop_last() =~= bytes@.take(i as int));
    }
    assert(bytes@.take(bytes@.len() as int) =~= bytes@);
    out
}

/// The pieces of the canonical text of a SID.
spec fn text_parts(p: SidParts) -> Seq<Seq<char>>
    decreases p.subs.len(),
{
    if p.subs.len() == 0 {
        seq!["S"@, text::decimal(p.revision), text::decimal(p.authority)]
    } else {
        text_parts(SidParts { subs: p.subs.drop_last(), ..p }).push(
            text::decimal(p.subs.last() as nat),
        )
    }
}

/// Decimal digits hold no dash.
proof fn lemma_decimal_has_no_dash(n: nat)
    ensures
        !text::decimal(n).contains('-'),
{
    text::lemma_decimal(n);
    if text::decimal(n).contains('-') {
        let i = choose|i: int| 0 <= i < text::decimal(n).len() && text::decimal(n)[i] == '-';
        assert('0' <= text::decimal(n)[i] <= '9');
    }
}

/// The canonical text of a SID splits into its numbers, starts with `S` and
/// ends with a digit.
proof fn lemma_sid_text_splits(p: SidParts)
    ensures
        text::split_at_char(sid_text(p), '-') == text_parts(p),
        text_parts(p).len() == 3 + p.subs.len(),
        sid_text(p).len() > 0,
        sid_text(p)[0] == 'S',
        '0' <= sid_text(p).last() <= '9',
    decreases p.subs.len(),
{
    reveal_strlit("S-");
    reveal_strlit("S");
    reveal_strlit("-");
    if p.subs.len() == 0 {
        let r = text::decimal(p.revision);
        let a = text::decimal(p.authority);
        lemma_decimal_has_no_dash(p.revision);
        lemma_decimal_has_no_dash(p.authority);
        text::lemma_decimal(p.authority);
        text::lemma_split_single("S"@, '-');
        text::lemma_split_behind("S"@, '-', r);
        let s1 = "S"@.push('-') + r;
        assert("S-"@ + r =~= s1);
        text::lemma_split_behind(s1, '-', a);
        assert(sid_text(p) =~= s1.push('-') + a);
        assert(text_parts(p) =~= seq!["S"@].push(r).push(a));
        assert('0' <= a[a.len() - 1] <= '9');
    } else {
        let q = SidParts { subs: p.subs.drop_last(), ..p };
        let d = text::decimal(p.subs.last() as nat);
        lemma_sid_text_splits(q);
        lemma_decimal_has_no_dash(p.subs.last() as nat);
        text::lemma_decimal(p.subs.last() as nat);
        text::lemma_split_behind(sid_text(q), '-', d);
        assert(sid_text(p) =~= sid_text(q).push('-') + d);
        assert('0' <= d[d.len() - 1] <= '9');
    }
}

/// Reading the first `k` sub-authorities of the canonical text gives them back.
proof fn lemma_text_parts(p: SidParts, k: int)
    requires
        0 <= k <= p.subs.len(),
    ensures
        text_parts(p)[0] == "S"@,
        text_parts(p)[1] == text::decimal(p.revision),
        text_parts(p)[2] == text::decimal(p.authority),
        text_parts(p).len() == 3 + p.subs.len(),
        sub_authorities(text_parts(p), 3 + k) == Some(p.subs.take(k)),
    decreases p.subs.len(), k,
{
    if p.subs.len() == 0 {
        assert(p.subs.take(k) =~= Seq::<u32>::empty());
    } else {
        let q = SidParts { subs: p.subs.drop_last(), ..p };
        lemma_text_parts(q, 0);
        if k == 0 {
            assert(p.subs.take(k) =~= Seq::<u32>::empty());
        } else {
            lemma_text_parts(p, k - 1);
            lemma_sub_at_index(p, k - 1);
            text::lemma_decimal_reads_back(p.subs[k - 1] as nat, u32::MAX as nat);
            assert(p.subs.take(k) =~= p.subs.take(k - 1).push(p.subs[k - 1]));
        }
    }
}

/// Piece `3 + k` of the canonical text is sub-authority `k`.
proof fn lemma_sub_at_index(p: SidParts, k: int)
    requires
        0 <= k < p.subs.len(),
    ensures
        text_parts(p).len() == 3 + p.subs.len(),
        text_parts(p)[3 + k] == text::decimal(p.subs[k] as nat),
    decreases p.subs.len(),
{
    let q = SidParts { subs: p.subs.drop_last(), ..p };
    lemma_sid_text_splits(q);
    if k < p.subs.len() - 1 {
        lemma_sub_at_index(q, k);
    }
}

/// Where the bytes of sub-authority `i` stand, and what they denote.
proof fn lemma_all_sub_bytes(subs: Seq<u32>, i: int)
    requires
        0 <= i < subs.len(),
    ensures
        all_sub_bytes(subs).len() == 4 * subs.len(),
        all_sub_bytes(subs).subrange(4 * i, 4 * i + 4) == sub_bytes(subs[i]),
    decreases subs.len(),
{
    lemma_all_sub_bytes_len(subs);
    lemma_all_sub_bytes_len(subs.drop_last());
    let init = all_sub_bytes(subs.drop_last());
    if i < subs.len() - 1 {
        lemma_all_sub_bytes(subs.drop_last(), i);
        assert(all_sub_bytes(subs).subrange(4 * i, 4 * i + 4) =~= init.subrange(4 * i, 4 * i + 4));
    } else {
        assert(all_sub_bytes(subs).subrange(4 * i, 4 * i + 4) =~= sub_bytes(subs[i]));
    }
}

/// Four bytes stand for each sub-authority.
proof fn lemma_all_sub_bytes_len(subs: Seq<u32>)
    ensures
        all_sub_bytes(subs).len() == 4 * subs.len(),
    decreases subs.len(),
{
    if subs.len() > 0 {
        lemma_all_sub_bytes_len(subs.drop_last());
    }
}

/// Reading a SID in its canonical text gives its parts back.
pub proof fn law_sid_text_reads_back(p: SidParts)
    requires
        p.revision <= u8::MAX,
        p.authority <= u64::MAX,
    ensures
        parsed_sid(sid_text(p)) == Ok::<SidParts, Seq<char>>(p),
{
    lemma_sid_text_splits(p);
    lemma_text_parts(p, p.subs.len() as int);
    text::lemma_trimmed_identity(sid_text(p));
    text::lemma_decimal_reads_back(p.revision, u8::MAX as nat);
    text::lemma_decimal_reads_back(p.authority, u64::MAX as nat);
    assert(p.subs.take(p.subs.len() as int) =~= p.subs);
}

/// The bytes of an authority denote it.
#[verifier::rlimit(40)]
proof fn lemma_authority_reads_back(n: nat)
    requires
        n < 0x1_0000_0000_0000,
    ensures
        authority_of(authority_bytes(n)) == n,
{
    lemma_byte_of(n);
}

/// The bytes of a sub-authority denote it.
proof fn lemma_sub_reads_back(b: Seq<u8>, at: int, n: u32)
    requires
        0 <= at,
        at + 4 <= b.len(),
        b.subrange(at, at + 4) == sub_bytes(n),
    ensures
        sub_at(b, at) == n,
{
    let part = b.subrange(at, at + 4);
    assert(part[0] == b[at]);
    assert(part[1] == b[at + 1]);
    assert(part[2] == b[at + 2]);
    assert(part[3] == b[at + 3]);
    lemma_byte_of(n as nat);
}

/// Decoding the bytes of a SID gives its parts back, where the authority fits
/// in six bytes and the number of sub-authorities in one.
#[verifier::rlimit(40)]
pub proof fn law_sid_bytes_decode_back(p: SidParts)
    requires
        p.revision <= u8::MAX,
        p.authority < 0x1_0000_0000_0000,
        p.subs.len() <= u8::MAX,
    ensures
        decoded_sid(sid_bytes(p)) == Ok::<SidParts, Seq<char>>(p),
        sid_bytes(p).len() == 8 + 4 * p.subs.len(),
{
    let b = sid_bytes(p);
    lemma_all_sub_bytes_len(p.subs);
    lemma_authority_reads_back(p.authority);
    assert(b.subrange(2, 8) =~= authority_bytes(p.authority));
    assert forall|i: int| 0 <= i < p.subs.len() implies #[trigger] sub_at(b, 8 + 4 * i)
        == p.subs[i] by {
        lemma_all_sub_bytes(p.subs, i);
        let part = all_sub_bytes(p.subs).subrange(4 * i, 4 * i + 4);
        assert(b.subrange(8 + 4 * i, 12 + 4 * i) =~= part);
        lemma_sub_reads_back(b, 8 + 4 * i, p.subs[i]);
    }
    let q = decoded_sid(b)->Ok_0;
    assert(q.subs =~= p.subs);
}

/// Text and bytes round-trip: the canonical text of a SID encodes to bytes
/// that decode to the same text.
pub proof fn law_sid_text_round_trip(p: SidParts)
    requires
        p.revision <= u8::MAX,
        p.authority < 0x1_0000_0000_0000,
        p.subs.len() <= u8::MAX,
    ensures
        parsed_sid(sid_text(p)) == Ok::<SidParts, Seq<char>>(p),
        decoded_sid(sid_bytes(p)) == Ok::<SidParts, Seq<char>>(p),
{
    law_sid_text_reads_back(p);
    law_sid_bytes_decode_back(p);
}

/// Appending a byte to a number shifts its other bytes up.
proof fn lemma_byte_shift(high: nat, low: u8)
    ensures
        byte_of(high * 256 + low as nat, 0) == low,
        forall|i: nat| #[trigger] byte_of(high * 256 + low as nat, i + 1) == byte_of(high, i),
{
    let n = high * 256 + low as nat;
    assert(n % 256 == low);
    assert(n / 256 == high);
    assert forall|i: nat| #[trigger] byte_of(n, i + 1) == byte_of(high, i) by {
        assert(((i + 1) - 1) as nat == i);
    }
}

/// Four bytes denote a number of 32 bits whose bytes they are.
proof fn lemma_sub_at(b: Seq<u8>, at: int)
    ensures
        sub_bytes(sub_at(b, at)) == seq![b[at], b[at + 1], b[at + 2], b[at + 3]],
{
    let a0 = b[at + 3] as nat;
    let a1 = a0 * 256 + b[at + 2] as nat;
    let a2 = a1 * 256 + b[at + 1] as nat;
    let a3 = a2 * 256 + b[at] as nat;
    assert(a3 == sub_at(b, at));
    assert(byte_of(a0, 0) == b[at + 3]);
    lemma_byte_shift(a0, b[at + 2]);
    lemma_byte_shift(a1, b[at + 1]);
    lemma_byte_shift(a2, b[at]);
    assert(byte_of(a1, (0nat + 1)) == b[at + 3]);
    assert(byte_of(a2, (0nat + 1)) == b[at + 2]);
    assert(byte_of(a2, (1nat + 1)) == b[at + 3]);
    assert(byte_of(a3, (0nat + 1)) == b[at + 1]);
    assert(byte_of(a3, (1nat + 1)) == b[at + 2]);
    assert(byte_of(a3, (2nat + 1)) == b[at + 3]);
    assert(sub_bytes(sub_at(b, at)) =~= seq![b[at], b[at + 1], b[at + 2], b[at + 3]]);
}

/// The sub-authorities read from bytes encode to those bytes.
proof fn lemma_subs_of_bytes(b: Seq<u8>, n: nat)
    requires
        b.len() >= 8 + 4 * n,
    ensures
        all_sub_bytes(Seq::new(n, |i: int| sub_at(b, 8 + 4 * i))) == b.subrange(8, 8 + 4 * n as int),
    decreases n,
{
    let subs = Seq::new(n, |i: int| sub_at(b, 8 + 4 * i));
    if n > 0 {
        let m = (n - 1) as nat;
        lemma_subs_of_bytes(b, m);
        assert(subs.drop_last() =~= Seq::new(m, |i: int| sub_at(b, 8 + 4 * i)));
        lemma_sub_at(b, 8 + 4 * m as int);
        assert(all_sub_bytes(subs) =~= b.subrange(8, 8 + 4 * n as int));
    } else {
        assert(all_sub_bytes(subs) =~= b.subrange(8, 8));
    }
}

/// Six bytes denote a number whose bytes they are.
#[verifier::rlimit(40)]
proof fn lemma_authority_of(c: Seq<u8>)
    requires
        c.len() == 6,
    ensures
        authority_bytes(authority_of(c)) == c,
{
    let a0 = c[0] as nat;
    let a1 = a0 * 256 + c[1] as nat;
    let a2 = a1 * 256 + c[2] as nat;
    let a3 = a2 * 256 + c[3] as nat;
    let a4 = a3 * 256 + c[4] as nat;
    let a5 = a4 * 256 + c[5] as nat;
    assert(byte_of(a0, 0) == c[0]);
    lemma_byte_shift(a0, c[1]);
    lemma_byte_shift(a1, c[2]);
    lemma_byte_shift(a2, c[3]);
    lemma_byte_shift(a3, c[4]);
    lemma_byte_shift(a4, c[5]);
    assert(byte_of(a1, (0nat + 1)) == c[0]);
    assert(byte_of(a2, (0nat + 1)) == c[1]);
    assert(byte_of(a2, (1nat + 1)) == c[0]);
    assert(byte_of(a3, (0nat + 1)) == c[2]);
    assert(byte_of(a3, (1nat + 1)) == c[1]);
    assert(byte_of(a3, (2nat + 1)) == c[0]);
    assert(byte_of(a4, (0nat + 1)) == c[3]);
    assert(byte_of(a4, (1nat + 1)) == c[2]);
    assert(byte_of(a4, (2nat + 1)) == c[1]);
    assert(byte_of(a4, (3nat + 1)) == c[0]);
    assert(byte_of(a5, (0nat + 1)) == c[4]);
    assert(byte_of(a5, (1nat + 1)) == c[3]);
    assert(byte_of(a5, (2nat + 1)) == c[2]);
    assert(byte_of(a5, (3nat + 1)) == c[1]);
    assert(byte_of(a5, (4nat + 1)) == c[0]);
    assert(authority_bytes(a5) =~= c);
}

/// Bytes and text round-trip: the text decoded from bytes encodes to those
/// bytes again, up to the announced number of sub-authorities.
pub proof fn law_sid_bytes_round_trip(b: Seq<u8>)
    requires
        decoded_sid(b) is Ok,
    ensures
        parsed_sid(sid_text(decoded_sid(b)->Ok_0)) == decoded_sid(b),
        sid_bytes(decoded_sid(b)->Ok_0) == b.take(8 + 4 * b[1]),
{
    let p = decoded_sid(b)->Ok_0;
    law_sid_text_reads_back(p);
    lemma_authority_of(b.subrange(2, 8));
    lemma_subs_of_bytes(b, b[1] as nat);
    assert(sid_bytes(p) =~= b.take(8 + 4 * b[1]));
}

/// An escaped value is three characters per byte.
pub proof fn law_escape_length(b: Seq<u8>)
    ensures
        ldap_escaped(b).len() == 3 * b.len(),
    decreases b.len(),
{
    if b.len() > 0 {
        law_escape_length(b.drop_last());
        reveal_with_fuel(text::hex, 3);
    }
}

/// The bytes of a SID hold its parts at their places: the revision, the number of
/// sub-authorities, the authority with its most significant byte first, and each
/// sub-authority with its least significant byte first. They are read exactly where there
/// are as many bytes as announced.
pub proof fn law_bytes_hold_the_parts(b: Seq<u8>, i: int)
    ensures
        (decoded_sid(b) is Ok) == (b.len() >= 8 && b.len() >= 8 + 4 * b[1]),
        decoded_sid(b) matches Ok(p) ==> {
            &&& p.revision == b[0]
            &&& p.subs.len() == b[1]
            &&& p.authority == b[7] + 0x100 * b[6] + 0x1_0000 * b[5] + 0x100_0000 * b[4]
                + 0x1_0000_0000 * b[3] + 0x100_0000_0000 * b[2]
            &&& 0 <= i < p.subs.len() ==> p.subs[i] == b[8 + 4 * i] + 0x100 * b[9 + 4 * i]
                + 0x1_0000 * b[10 + 4 * i] + 0x100_0000 * b[11 + 4 * i]
        },
{
    if b.len() >= 8 {
        let a = b.subrange(2, 8);
        assert(a[0] == b[2] && a[1] == b[3] && a[2] == b[4] && a[3] == b[5] && a[4] == b[6] && a[5]
            == b[7]);
    }
}

/// The text of a SID starts with `S-`, its revision and its authority; each sub-authority
/// follows behind a hyphen.
pub proof fn law_text_lists_the_parts(p: SidParts, sub: u32)
    ensures
        p.subs.len() == 0 ==> sid_text(p) == seq!['S', '-'] + text::decimal(p.revision) + seq!['-']
            + text::decimal(p.authority),
        sid_text(SidParts { subs: p.subs.push(sub), ..p }) == sid_text(p) + seq!['-']
            + text::decimal(sub as nat),
{
    reveal_strlit("S-");
    reveal_strlit("-");
    assert("S-"@ =~= seq!['S', '-']);
    assert("-"@ =~= seq!['-']);
    assert(p.subs.push(sub).drop_last() =~= p.subs);
}

/// An escaped byte stands as a backslash and two digits, which read back as the byte.
pub proof fn law_escaped_bytes_read_back(b: Seq<u8>, i: int)
    requires
        0 <= i < b.len(),
    ensures
        ldap_escaped(b).len() == 3 * b.len(),
        ldap_escaped(b)[3 * i] == '\\',
        text::hex_value(ldap_escaped(b).subrange(3 * i + 1, 3 * i + 3)) == b[i],
    decreases b.len(),
{
    law_escape_length(b);
    law_escape_length(b.drop_last());
    let n = b.len() - 1;
    let init = ldap_escaped(b.drop_last());
    let all = ldap_escaped(b);
    if i < n {
        law_escaped_bytes_read_back(b.drop_last(), i);
        assert(all.subrange(3 * i + 1, 3 * i + 3) =~= init.subrange(3 * i + 1, 3 * i + 3));
        assert(all[3 * i] == init[3 * i]);
    } else {
        assert(vstd::arithmetic::power::pow(16, 2) == 256) by {
            reveal_with_fuel(vstd::arithmetic::power::pow, 3);
        }
        text::law_hex_reads_back(b.last() as nat, 2, false);
        assert(all.subrange(3 * i + 1, 3 * i + 3) =~= text::hex(b.last() as nat, 2, false));
    }
}

} // verus!
