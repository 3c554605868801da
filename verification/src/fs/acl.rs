//! Security descriptors: what their raw parts mean, and a cache of parsed ones.

use std::collections::HashMap;

use vstd::prelude::*;

use crate::error::CoreError;
use crate::fs::path;
use crate::fs::path::strip_long_path_prefix;
use crate::model::access::{AccessMask, AceEntry, AceKind, FileSystemObject, UnsupportedAce};
use crate::model::sid::{NormalizedPath, Sid};
use crate::text;

verus! {

broadcast use vstd::std_specs::hash::group_hash_axioms;

/// Type of an entry that grants access.
pub const ACCESS_ALLOWED_ACE_TYPE: u8 = 0;

/// Type of an entry that denies access.
pub const ACCESS_DENIED_ACE_TYPE: u8 = 1;

/// Files below inherit the entry.
pub const OBJECT_INHERIT_ACE: u8 = 0x01;

/// Directories below inherit the entry.
pub const CONTAINER_INHERIT_ACE: u8 = 0x02;

/// Only direct children inherit the entry.
pub const NO_PROPAGATE_INHERIT_ACE: u8 = 0x04;

/// The entry does not apply to the object itself.
pub const INHERIT_ONLY_ACE: u8 = 0x08;

/// The entry was inherited.
pub const INHERITED_ACE: u8 = 0x10;

/// Inheritance from above is disabled.
pub const SE_DACL_PROTECTED: u16 = 0x1000;

/// The object is a directory.
pub const FILE_ATTRIBUTE_DIRECTORY: u32 = 0x10;

/// The object is a reparse point.
pub const FILE_ATTRIBUTE_REPARSE_POINT: u32 = 0x400;

/// Windows error: the file does not exist.
pub const ERROR_FILE_NOT_FOUND: u32 = 2;

/// Windows error: the directory does not exist.
pub const ERROR_PATH_NOT_FOUND: u32 = 3;

/// Windows error: access is denied.
pub const ERROR_ACCESS_DENIED: u32 = 5;

/// Splits the flags of an entry: which children inherit it, and how it
/// propagates.
pub fn split_ace_flags(ace_flags: u8) -> (r: (u32, u32))
    ensures
        r.0 == ace_flags & (OBJECT_INHERIT_ACE | CONTAINER_INHERIT_ACE),
        r.1 == ace_flags & (NO_PROPAGATE_INHERIT_ACE | INHERIT_ONLY_ACE),
{
    let inheritance: u8 = ace_flags & (OBJECT_INHERIT_ACE | CONTAINER_INHERIT_ACE);
    let propagation: u8 = ace_flags & (NO_PROPAGATE_INHERIT_ACE | INHERIT_ONLY_ACE);
    (inheritance as u32, propagation as u32)
}

/// An entry as the system hands it out. `sid` is `None` where the trustee could
/// not be read.
#[derive(Debug)]
pub struct RawAce {
    pub ace_type: u8,
    pub ace_flags: u8,
    pub mask: u32,
    pub sid: Option<String>,
}

/// A security descriptor as the system hands it out.
#[derive(Debug)]
pub struct RawSecurity {
    /// The descriptor itself.
    pub bytes: Vec<u8>,
    /// The owner, where there is one and it could be read.
    pub owner: Option<String>,
    /// The entries that could be fetched; `None` where the DACL is NULL.
    pub dacl: Option<Vec<RawAce>>,
    /// The control bits, where they could be read.
    pub control: Option<u16>,
}

/// What became of an entry.
#[derive(Debug)]
pub enum ParseAceOutcome {
    /// The entry grants or denies access.
    Entry(AceEntry),
    /// The entry cannot be evaluated: its type is not supported, or its trustee could not
    /// be read.
    Unsupported(UnsupportedAce),
}

/// The record of an entry that cannot be evaluated.
pub open spec fn not_evaluated(ace: RawAce) -> ParseAceOutcome {
    ParseAceOutcome::Unsupported(
        UnsupportedAce { ace_type: ace.ace_type, flags: ace.ace_flags, mask: ace.mask },
    )
}

/// What the raw entry `ace` says. One whose trustee could not be read may hide a deny, so
/// it is recorded like one of an unknown type.
pub open spec fn outcome_of(ace: RawAce) -> ParseAceOutcome {
    if ace.ace_type != ACCESS_ALLOWED_ACE_TYPE && ace.ace_type != ACCESS_DENIED_ACE_TYPE {
        not_evaluated(ace)
    } else {
        match ace.sid {
            None => not_evaluated(ace),
            Some(sid) => ParseAceOutcome::Entry(
                AceEntry {
                    kind: if ace.ace_type == ACCESS_ALLOWED_ACE_TYPE {
                        AceKind::Allow
                    } else {
                        AceKind::Deny
                    },
                    sid: Sid(sid),
                    mask: AccessMask(ace.mask),
                    inherited: ace.ace_flags & INHERITED_ACE != 0,
                    inheritance_flags: (ace.ace_flags & (OBJECT_INHERIT_ACE
                        | CONTAINER_INHERIT_ACE)) as u32,
                    propagation_flags: (ace.ace_flags & (NO_PROPAGATE_INHERIT_ACE
                        | INHERIT_ONLY_ACE)) as u32,
                },
            ),
        }
    }
}

/// Interprets a single entry. What cannot be evaluated is recorded, not dropped.
pub fn parse_ace(ace: &RawAce) -> (r: ParseAceOutcome)
    ensures
        r == outcome_of(*ace),
{
    let (inheritance_flags, propagation_flags) = split_ace_flags(ace.ace_flags);
    let unsupported: UnsupportedAce = UnsupportedAce {
        ace_type: ace.ace_type,
        flags: ace.ace_flags,
        mask: ace.mask,
    };
    let kind: AceKind = if ace.ace_type == ACCESS_ALLOWED_ACE_TYPE {
        AceKind::Allow
    } else if ace.ace_type == ACCESS_DENIED_ACE_TYPE {
        AceKind::Deny
    } else {
        return ParseAceOutcome::Unsupported(unsupported);
    };
    match &ace.sid {
        None => ParseAceOutcome::Unsupported(unsupported),
        Some(sid) => ParseAceOutcome::Entry(
            AceEntry {
                kind,
                sid: Sid(sid.clone()),
                mask: AccessMask(ace.mask),
                inherited: ace.ace_flags & INHERITED_ACE != 0,
                inheritance_flags,
                propagation_flags,
            },
        ),
    }
}

/// The entries that grant or deny access, in their order.
pub open spec fn supported_aces(aces: Seq<RawAce>) -> Seq<AceEntry>
    decreases aces.len(),
{
    if aces.len() == 0 {
        Seq::empty()
    } else {
        let init = supported_aces(aces.drop_last());
        match outcome_of(aces.last()) {
            ParseAceOutcome::Entry(e) => init.push(e),
            ParseAceOutcome::Unsupported(_) => init,
        }
    }
}

/// The entries that cannot be evaluated, in their order.
pub open spec fn unsupported_aces(aces: Seq<RawAce>) -> Seq<UnsupportedAce>
    decreases aces.len(),
{
    if aces.len() == 0 {
        Seq::empty()
    } else {
        let init = unsupported_aces(aces.drop_last());
        match outcome_of(aces.last()) {
            ParseAceOutcome::Unsupported(u) => init.push(u),
            ParseAceOutcome::Entry(_) => init,
        }
    }
}

/// Interprets the entries of a DACL.
pub fn parse_dacl(aces: &Vec<RawAce>) -> (r: (Vec<AceEntry>, Vec<UnsupportedAce>))
    ensures
        r.0@ == supported_aces(aces@),
        r.1@ == unsupported_aces(aces@),
{
    let mut entries: Vec<AceEntry> = Vec::new();
    let mut unsupported: Vec<UnsupportedAce> = Vec::new();
    for i in 0..aces.len()
        invariant
            entries@ == supported_aces(aces@.take(i as int)),
            unsupported@ == unsupported_aces(aces@.take(i as int)),
    {
        assert(aces@.take(i + 1).drop_last() =~= aces@.take(i as int));
        match parse_ace(&aces[i]) {
            ParseAceOutcome::Entry(e) => entries.push(e),
            ParseAceOutcome::Unsupported(u) => unsupported.push(u),
        }
    }
    assert(aces@.take(aces@.len() as int) =~= aces@);
    (entries, unsupported)
}

/// A parsed security descriptor, with the bytes that it was parsed from.
#[derive(Debug)]
pub struct ParsedSecurity {
    pub sd_bytes: Vec<u8>,
    pub owner_sid: Option<Sid>,
    pub dacl: Vec<AceEntry>,
    pub unsupported_aces: Vec<UnsupportedAce>,
    pub null_dacl: bool,
    pub inheritance_disabled: bool,
}

/// What a security descriptor says.
pub struct SecurityView {
    pub bytes: Seq<u8>,
    pub owner: Option<Sid>,
    pub dacl: Seq<AceEntry>,
    pub unsupported: Seq<UnsupportedAce>,
    pub null_dacl: bool,
    pub inheritance_disabled: bool,
}

impl View for ParsedSecurity {
    type V = SecurityView;

    open spec fn view(&self) -> SecurityView {
        SecurityView {
            bytes: self.sd_bytes@,
            owner: self.owner_sid,
            dacl: self.dacl@,
            unsupported: self.unsupported_aces@,
            null_dacl: self.null_dacl,
            inheritance_disabled: self.inheritance_disabled,
        }
    }
}

impl Clone for ParsedSecurity {
    fn clone(&self) -> (r: Self)
        ensures
            r@ == self@,
    {
        let r: ParsedSecurity = ParsedSecurity {
            sd_bytes: self.sd_bytes.clone(),
            owner_sid: match &self.owner_sid {
                Some(s) => Some(s.clone()),
                None => None,
            },
            dacl: self.dacl.clone(),
            unsupported_aces: self.unsupported_aces.clone(),
            null_dacl: self.null_dacl,
            inheritance_disabled: self.inheritance_disabled,
        };
        assert(r.sd_bytes@ =~= self.sd_bytes@);
        assert(r.dacl@ =~= self.dacl@);
        assert(r.unsupported_aces@ =~= self.unsupported_aces@);
        r
    }
}

/// What the raw security descriptor `raw` says. A NULL DACL is not an empty one.
pub open spec fn security_of(raw: RawSecurity) -> SecurityView {
    SecurityView {
        bytes: raw.bytes@,
        owner: match raw.owner {
            Some(s) => Some(Sid(s)),
            None => None,
        },
        dacl: match raw.dacl {
            Some(aces) => supported_aces(aces@),
            None => Seq::empty(),
        },
        unsupported: match raw.dacl {
            Some(aces) => unsupported_aces(aces@),
            None => Seq::empty(),
        },
        null_dacl: raw.dacl is None,
        inheritance_disabled: match raw.control {
            Some(c) => c & SE_DACL_PROTECTED != 0,
            None => false,
        },
    }
}

/// Interprets a security descriptor.
pub fn parse_security(raw: RawSecurity) -> (r: ParsedSecurity)
    ensures
        r@ == security_of(raw),
{
    let (dacl, unsupported, null_dacl) = match &raw.dacl {
        Some(aces) => {
            let (d, u) = parse_dacl(aces);
            (d, u, false)
        },
        None => (Vec::new(), Vec::new(), true),
    };
    ParsedSecurity {
        sd_bytes: raw.bytes,
        owner_sid: match raw.owner {
            Some(s) => Some(Sid(s)),
            None => None,
        },
        dacl,
        unsupported_aces: unsupported,
        null_dacl,
        inheritance_disabled: match raw.control {
            Some(c) => c & SE_DACL_PROTECTED != 0,
            None => false,
        },
    }
}

/// Start value of the hash.
pub const FNV_OFFSET: u64 = 0xcbf2_9ce4_8422_2325;

/// Multiplier of the hash.
pub const FNV_PRIME: u64 = 0x0000_0100_0000_01b3;

/// One step of the hash: the byte is mixed in, then the product is cut to 64
/// bits.
pub open spec fn fnv_step(hash: u64, b: u8) -> u64 {
    (((hash ^ (b as u64)) * FNV_PRIME) % 0x1_0000_0000_0000_0000) as u64
}

/// The 64-bit FNV-1a hash of `bytes`.
pub open spec fn fnv1a(bytes: Seq<u8>) -> u64
    decreases bytes.len(),
{
    if bytes.len() == 0 {
        FNV_OFFSET
    } else {
        fnv_step(fnv1a(bytes.drop_last()), bytes.last())
    }
}

/// Computes the 64-bit FNV-1a hash. It has no seed: equal bytes have equal
/// hashes in every run.
pub fn fnv1a_64(bytes: &[u8]) -> (r: u64)
    ensures
        r == fnv1a(bytes@),
{
    let mut hash: u64 = FNV_OFFSET;
    for i in 0..bytes.len()
        invariant
            hash == fnv1a(bytes@.take(i as int)),
    {
        assert(bytes@.take(i + 1).drop_last() =~= bytes@.take(i as int));
        hash = (hash ^ (bytes[i] as u64)).wrapping_mul(FNV_PRIME);
    }
    assert(bytes@.take(bytes@.len() as int) =~= bytes@);
    hash
}

/// Parsed security descriptors by the hash of their bytes.
pub type SdCache = HashMap<u64, ParsedSecurity>;

/// The parsed descriptor that `cache` holds for exactly these bytes.
pub open spec fn cached(cache: Map<u64, ParsedSecurity>, bytes: Seq<u8>) -> Option<SecurityView> {
    let key = fnv1a(bytes);
    if cache.contains_key(key) && cache[key]@.bytes == bytes {
        Some(cache[key]@)
    } else {
        None
    }
}

/// Whether two byte strings are equal.
fn same_bytes(a: &Vec<u8>, b: &Vec<u8>) -> (r: bool)
    ensures
        r == (a@ == b@),
{
    if a.len() != b.len() {
        return false;
    }
    for i in 0..a.len()
        invariant
            a@.len() == b@.len(),
            forall|j: int| 0 <= j < i ==> a@[j] == b@[j],
    {
        if a[i] != b[i] {
            return false;
        }
    }
    assert(a@ =~= b@);
    true
}

/// Whether `cache` holds a parsed descriptor for exactly these bytes.
pub fn sd_cache_holds(cache: &SdCache, bytes: &Vec<u8>) -> (r: bool)
    ensures
        r == (cached(cache@, bytes@) is Some),
{
    match cache.get(&fnv1a_64(bytes.as_slice())) {
        Some(p) => same_bytes(&p.sd_bytes, bytes),
        None => false,
    }
}

/// What the system says about a path.
#[derive(Debug)]
pub enum RawObject {
    /// The attributes could not be read, with this error.
    NoAttributes(u32),
    /// The attributes; the security descriptor could not be read, with this error.
    NoSecurity(u32, u32),
    /// The attributes and the security descriptor.
    Read(u32, RawSecurity),
}

/// What the object at `path` is, where its descriptor says `s`.
pub open spec fn is_object(
    o: FileSystemObject,
    path: Seq<char>,
    attributes: u32,
    s: SecurityView,
) -> bool {
    &&& o.path@ == path::display_form(path)
    &&& o.is_directory == (attributes & FILE_ATTRIBUTE_DIRECTORY != 0)
    &&& o.is_reparse_point == (attributes & FILE_ATTRIBUTE_REPARSE_POINT != 0)
    &&& o.owner_sid == s.owner
    &&& o.dacl@ == s.dacl
    &&& o.unsupported_aces@ == s.unsupported
    &&& o.null_dacl == s.null_dacl
    &&& o.inheritance_disabled == s.inheritance_disabled
    &&& o.sd_hash == Some(fnv1a(s.bytes))
}

/// The error for attributes that could not be read.
pub open spec fn is_attribute_error(e: CoreError, path: Seq<char>, code: u32) -> bool {
    if code == ERROR_FILE_NOT_FOUND || code == ERROR_PATH_NOT_FOUND {
        e matches CoreError::PathNotFound(m) && m@ == path
    } else if code == ERROR_ACCESS_DENIED {
        e matches CoreError::AccessDenied(m) && m@ == path
    } else {
        e matches CoreError::InvalidSecurityDescriptor(m) && m@ == "GetFileAttributesW("@ + path
            + ") failed: error "@ + text::decimal(code as nat)
    }
}

/// The error for a security descriptor that could not be read.
pub open spec fn is_security_error(e: CoreError, path: Seq<char>, code: u32) -> bool {
    if code == ERROR_ACCESS_DENIED {
        e matches CoreError::AccessDenied(m) && m@ == path
    } else {
        e matches CoreError::InvalidSecurityDescriptor(m) && m@ == "GetNamedSecurityInfoW("@ + path
            + ") failed: error "@ + text::decimal(code as nat)
    }
}

/// The error for attributes that could not be read.
fn attribute_error(path: &str, code: u32) -> (r: CoreError)
    ensures
        is_attribute_error(r, path@, code),
{
    if code == ERROR_FILE_NOT_FOUND || code == ERROR_PATH_NOT_FOUND {
        CoreError::PathNotFound(path.to_owned())
    } else if code == ERROR_ACCESS_DENIED {
        CoreError::AccessDenied(path.to_owned())
    } else {
        let mut m: String = "GetFileAttributesW(".to_owned().concat(path).concat(
            ") failed: error ",
        );
        text::push_decimal(&mut m, code as u64);
        CoreError::InvalidSecurityDescriptor(m)
    }
}

/// The error for a security descriptor that could not be read.
fn security_error(path: &str, code: u32) -> (r: CoreError)
    ensures
        is_security_error(r, path@, code),
{
    if code == ERROR_ACCESS_DENIED {
        CoreError::AccessDenied(path.to_owned())
    } else {
        let mut m: String = "GetNamedSecurityInfoW(".to_owned().concat(path).concat(
            ") failed: error ",
        );
        text::push_decimal(&mut m, code as u64);
        CoreError::InvalidSecurityDescriptor(m)
    }
}

/// What an object is read as: from the cache where it holds a descriptor for
/// exactly these bytes, from the raw parts otherwise.
pub open spec fn security_via(
    cache: Map<u64, ParsedSecurity>,
    raw: RawSecurity,
) -> SecurityView {
    match cached(cache, raw.bytes@) {
        Some(s) => s,
        None => security_of(raw),
    }
}

/// Whether `after` is `before` with `raw` kept. A descriptor that is in the
/// cache stays there, even where another one has the same hash.
pub open spec fn is_kept(
    before: Map<u64, ParsedSecurity>,
    after: Map<u64, ParsedSecurity>,
    raw: RawSecurity,
) -> bool {
    let key = fnv1a(raw.bytes@);
    if before.contains_key(key) {
        after == before
    } else {
        &&& after.dom() == before.dom().insert(key)
        &&& after[key]@ == security_of(raw)
        &&& forall|k: u64| #[trigger] before.contains_key(k) ==> after[k] == before[k]
    }
}

/// Takes the parsed descriptor for these bytes from the cache, or parses and
/// keeps it.
fn security_cached(raw: RawSecurity, cache: &mut SdCache) -> (r: ParsedSecurity)
    ensures
        r@ == security_via(old(cache)@, raw),
        is_kept(old(cache)@, final(cache)@, raw),
{
    let key: u64 = fnv1a_64(raw.bytes.as_slice());
    let is_free: bool = match cache.get(&key) {
        Some(p) => {
            if same_bytes(&p.sd_bytes, &raw.bytes) {
                return p.clone();
            }
            false
        },
        None => true,
    };
    let parsed: ParsedSecurity = parse_security(raw);
    if is_free {
        cache.insert(key, parsed.clone());
        assert(cache@.dom() =~= old(cache)@.dom().insert(key));
    }
    parsed
}

/// Reads an object, with a cache of parsed security descriptors. A descriptor
/// is taken from the cache only where its bytes are the same.
pub fn read_file_system_object_cached(path: &str, raw: RawObject, cache: &mut SdCache) -> (r: Result<
    FileSystemObject,
    CoreError,
>)
    ensures
        (match raw {
            RawObject::NoAttributes(code) => {
                &&& final(cache)@ == old(cache)@
                &&& r matches Err(e) && is_attribute_error(e, path@, code)
            },
            RawObject::NoSecurity(_, code) => {
                &&& final(cache)@ == old(cache)@
                &&& r matches Err(e) && is_security_error(e, path@, code)
            },
            RawObject::Read(attributes, security) => {
                &&& is_kept(old(cache)@, final(cache)@, security)
                &&& r matches Ok(o) && is_object(
                    o,
                    path@,
                    attributes,
                    security_via(old(cache)@, security),
                )
            },
        }),
{
    match raw {
        RawObject::NoAttributes(code) => Err(attribute_error(path, code)),
        RawObject::NoSecurity(_, code) => Err(security_error(path, code)),
        RawObject::Read(attributes, security) => {
            let sd_hash: u64 = fnv1a_64(security.bytes.as_slice());
            let parsed: ParsedSecurity = security_cached(security, cache);
            Ok(
                FileSystemObject {
                    path: NormalizedPath(strip_long_path_prefix(path)),
                    is_directory: attributes & FILE_ATTRIBUTE_DIRECTORY != 0,
                    owner_sid: parsed.owner_sid,
                    dacl: parsed.dacl,
                    inheritance_disabled: parsed.inheritance_disabled,
                    is_reparse_point: attributes & FILE_ATTRIBUTE_REPARSE_POINT != 0,
                    unsupported_aces: parsed.unsupported_aces,
                    null_dacl: parsed.null_dacl,
                    sd_hash: Some(sd_hash),
                },
            )
        },
    }
}

/// Whether `r` is what the system's replies say of the object at `path`.
pub open spec fn is_reading(
    path: Seq<char>,
    raw: RawObject,
    r: Result<FileSystemObject, CoreError>,
) -> bool {
    match raw {
        RawObject::NoAttributes(code) => r matches Err(e) && is_attribute_error(e, path, code),
        RawObject::NoSecurity(_, code) => r matches Err(e) && is_security_error(e, path, code),
        RawObject::Read(attributes, security) => r matches Ok(o) && is_object(
            o,
            path,
            attributes,
            security_of(security),
        ),
    }
}

/// Reads a single object, without a cache.
pub fn read_file_system_object(path: &str, raw: RawObject) -> (r: Result<
    FileSystemObject,
    CoreError,
>)
    ensures
        is_reading(path@, raw, r),
{
    let mut cache: SdCache = HashMap::new();
    read_file_system_object_cached(path, raw, &mut cache)
}

/// Whether every descriptor in the cache is what `meaning` says of its bytes.
pub open spec fn is_faithful(
    cache: Map<u64, ParsedSecurity>,
    meaning: spec_fn(Seq<u8>) -> SecurityView,
) -> bool {
    forall|k: u64| #[trigger] cache.contains_key(k) ==> cache[k]@ == meaning(cache[k]@.bytes)
}

/// The cache never changes a result: as long as the bytes of a descriptor
/// determine what it says, an object is read with the cache as without it, and
/// the cache stays faithful.
pub proof fn law_cache_is_transparent(
    before: Map<u64, ParsedSecurity>,
    after: Map<u64, ParsedSecurity>,
    raw: RawSecurity,
    meaning: spec_fn(Seq<u8>) -> SecurityView,
)
    requires
        is_faithful(before, meaning),
        security_of(raw) == meaning(raw.bytes@),
        is_kept(before, after, raw),
    ensures
        security_via(before, raw) == security_of(raw),
        is_faithful(after, meaning),
{
    let key = fnv1a(raw.bytes@);
    assert forall|k: u64| #[trigger] after.contains_key(k) implies after[k]@ == meaning(
        after[k]@.bytes,
    ) by {
        if !before.contains_key(key) && k != key {
            assert(after.dom().contains(k));
            assert(before.contains_key(k));
        }
    }
}

/// Once an object was read, its descriptor is in the cache, unless another
/// descriptor with the same hash was there before.
pub proof fn law_descriptor_is_kept(
    before: Map<u64, ParsedSecurity>,
    after: Map<u64, ParsedSecurity>,
    raw: RawSecurity,
)
    requires
        is_kept(before, after, raw),
        before.contains_key(fnv1a(raw.bytes@)) ==> before[fnv1a(raw.bytes@)]@.bytes == raw.bytes@,
    ensures
        cached(after, raw.bytes@) == Some(security_via(before, raw)),
{
    let key = fnv1a(raw.bytes@);
    if !before.contains_key(key) {
        assert(after.dom().contains(key));
    }
}

/// The two parts of the flags of an entry have no bit in common, and neither
/// holds the bit that marks an inherited entry.
pub proof fn law_flag_parts_are_disjoint(ace_flags: u8)
    ensures
        (ace_flags & (OBJECT_INHERIT_ACE | CONTAINER_INHERIT_ACE)) & (ace_flags & (
        NO_PROPAGATE_INHERIT_ACE | INHERIT_ONLY_ACE)) == 0,
        (ace_flags & (OBJECT_INHERIT_ACE | CONTAINER_INHERIT_ACE)) & INHERITED_ACE == 0,
        (ace_flags & (NO_PROPAGATE_INHERIT_ACE | INHERIT_ONLY_ACE)) & INHERITED_ACE == 0,
{
    assert((ace_flags & (0x01u8 | 0x02u8)) & (ace_flags & (0x04u8 | 0x08u8)) == 0 && (ace_flags & (
    0x01u8 | 0x02u8)) & 0x10u8 == 0 && (ace_flags & (0x04u8 | 0x08u8)) & 0x10u8 == 0) by (bit_vector);
}

/// No entry of a DACL is dropped: each one is either evaluated or recorded as one that
/// could not be.
pub proof fn law_no_ace_is_dropped(aces: Seq<RawAce>)
    ensures
        supported_aces(aces).len() + unsupported_aces(aces).len() == aces.len(),
    decreases aces.len(),
{
    if aces.len() > 0 {
        law_no_ace_is_dropped(aces.drop_last());
    }
}

/// Two byte strings that differ in their last byte only have different hashes.
pub proof fn law_hash_tells_last_byte_apart(bytes: Seq<u8>, a: u8, b: u8)
    requires
        a != b,
    ensures
        fnv1a(bytes.push(a)) != fnv1a(bytes.push(b)),
{
    assert(bytes.push(a).drop_last() =~= bytes);
    assert(bytes.push(b).drop_last() =~= bytes);
    let h = fnv1a(bytes);
    let x = h ^ (a as u64);
    let y = h ^ (b as u64);
    assert(x != y) by (bit_vector)
        requires
            x == h ^ (a as u64),
            y == h ^ (b as u64),
            a != b,
    ;
    lemma_product_is_injective(x as int, y as int);
}

/// The multiplier of the hash is odd, so that no two values have the same
/// product in 64 bits.
proof fn lemma_product_is_injective(x: int, y: int)
    requires
        0 <= x < 0x1_0000_0000_0000_0000,
        0 <= y < 0x1_0000_0000_0000_0000,
        x != y,
    ensures
        (x * FNV_PRIME) % 0x1_0000_0000_0000_0000 != (y * FNV_PRIME) % 0x1_0000_0000_0000_0000,
{
    let m: int = 0x1_0000_0000_0000_0000;
    let p: int = FNV_PRIME as int;
    let inv: int = 0xce96_5057_aff6_957b;
    if (x * p) % m == (y * p) % m {
        assert((p * inv) % m == 1);
        vstd::arithmetic::div_mod::lemma_mul_mod_noop_left(x * p, inv, m);
        vstd::arithmetic::div_mod::lemma_mul_mod_noop_left(y * p, inv, m);
        vstd::arithmetic::mul::lemma_mul_is_associative(x, p, inv);
        vstd::arithmetic::mul::lemma_mul_is_associative(y, p, inv);
        vstd::arithmetic::div_mod::lemma_mul_mod_noop_right(x, p * inv, m);
        vstd::arithmetic::div_mod::lemma_mul_mod_noop_right(y, p * inv, m);
        assert(x % m == y % m);
        vstd::arithmetic::div_mod::lemma_small_mod(x as nat, m as nat);
        vstd::arithmetic::div_mod::lemma_small_mod(y as nat, m as nat);
    }
}

/// Whether a raw entry can be evaluated: it grants (type 0) or denies (type 1), and its
/// trustee is known.
pub open spec fn can_be_evaluated(ace: RawAce) -> bool {
    (ace.ace_type == 0 || ace.ace_type == 1) && ace.sid is Some
}

/// Whether `e` says exactly what the raw entry `ace` says, field by field.
pub open spec fn agrees_with_raw(e: AceEntry, ace: RawAce) -> bool {
    &&& (e.kind == AceKind::Allow) == (ace.ace_type == 0)
    &&& (e.kind == AceKind::Deny) == (ace.ace_type == 1)
    &&& ace.sid is Some && e.sid@ == ace.sid->0@
    &&& e.mask.0 == ace.mask
    &&& e.inherited == (ace.ace_flags & 0x10u8 != 0)
    &&& e.inheritance_flags == (ace.ace_flags & 0x03u8) as u32
    &&& e.propagation_flags == (ace.ace_flags & 0x0cu8) as u32
}

/// Whether `u` records exactly what the raw entry `ace` holds.
pub open spec fn records_raw(u: UnsupportedAce, ace: RawAce) -> bool {
    u.ace_type == ace.ace_type && u.flags == ace.ace_flags && u.mask == ace.mask
}

/// A single entry is read field by field: nothing of its type, trustee, mask and flags is
/// lost or altered, and exactly what cannot be evaluated is set aside.
pub proof fn law_ace_is_read_in_full(ace: RawAce)
    ensures
        (outcome_of(ace) is Entry) == can_be_evaluated(ace),
        outcome_of(ace) matches ParseAceOutcome::Entry(e) ==> agrees_with_raw(e, ace),
        outcome_of(ace) matches ParseAceOutcome::Unsupported(u) ==> records_raw(u, ace),
{
    let f = ace.ace_flags;
    assert(f & (0x01u8 | 0x02u8) == f & 0x03u8 && f & (0x04u8 | 0x08u8) == f & 0x0cu8)
        by (bit_vector);
}

/// The entries of a DACL are read one by one and in their order: the entry that comes
/// after `n` others of its sort stands at position `n` of the list of that sort, and says
/// what its raw form says.
pub proof fn law_dacl_is_read_in_full(aces: Seq<RawAce>, i: int)
    requires
        0 <= i < aces.len(),
    ensures
        supported_aces(aces).len() == aces.filter(|a: RawAce| can_be_evaluated(a)).len(),
        unsupported_aces(aces).len() == aces.filter(|a: RawAce| !can_be_evaluated(a)).len(),
        ({
            let before = aces.take(i).filter(|a: RawAce| can_be_evaluated(a)).len() as int;
            can_be_evaluated(aces[i]) ==> before < supported_aces(aces).len() && agrees_with_raw(
                supported_aces(aces)[before],
                aces[i],
            )
        }),
        ({
            let before = aces.take(i).filter(|a: RawAce| !can_be_evaluated(a)).len() as int;
            !can_be_evaluated(aces[i]) ==> before < unsupported_aces(aces).len() && records_raw(
                unsupported_aces(aces)[before],
                aces[i],
            )
        }),
    decreases aces.len(),
{
    let init = aces.drop_last();
    law_ace_is_read_in_full(aces.last());
    lemma_counts(aces);
    lemma_counts(init);
    if i < init.len() {
        law_dacl_is_read_in_full(init, i);
        assert(init.take(i) =~= aces.take(i));
    } else {
        assert(aces.take(i) =~= init);
    }
}

/// Number of entries of either sort.
proof fn lemma_counts(aces: Seq<RawAce>)
    ensures
        supported_aces(aces).len() == aces.filter(|a: RawAce| can_be_evaluated(a)).len(),
        unsupported_aces(aces).len() == aces.filter(|a: RawAce| !can_be_evaluated(a)).len(),
    decreases aces.len(),
{
    reveal(Seq::filter);
    if aces.len() > 0 {
        lemma_counts(aces.drop_last());
        law_ace_is_read_in_full(aces.last());
    }
}

/// An object is read in full: its kind from the attributes, its owner, entries and
/// protection from the security descriptor. A DACL that is missing is told apart from
/// one without entries.
pub proof fn law_object_is_read_in_full(
    path: Seq<char>,
    attributes: u32,
    security: RawSecurity,
    o: FileSystemObject,
)
    requires
        is_reading(path, RawObject::Read(attributes, security), Ok(o)),
    ensures
        o.is_directory == (attributes & 0x10u32 != 0),
        o.is_reparse_point == (attributes & 0x400u32 != 0),
        o.owner_sid is Some == security.owner is Some,
        o.owner_sid matches Some(s) ==> s@ == security.owner->0@,
        o.null_dacl == (security.dacl is None),
        security.dacl is None ==> o.dacl@.len() == 0 && o.unsupported_aces@.len() == 0,
        security.dacl matches Some(aces) ==> o.dacl@.len() + o.unsupported_aces@.len()
            == aces@.len() && o.dacl@ == supported_aces(aces@) && o.unsupported_aces@
            == unsupported_aces(aces@),
        o.inheritance_disabled == (security.control matches Some(c) && c & 0x1000u16 != 0),
{
    if let Some(aces) = security.dacl {
        law_no_ace_is_dropped(aces@);
    }
}

/// Why an object could not be read is told by the code of the system: what does not exist
/// (2 and 3), what is denied (5), and everything else with its number.
pub proof fn law_failed_reading_tells_why(
    path: Seq<char>,
    attributes: u32,
    code: u32,
    a: Result<FileSystemObject, CoreError>,
    s: Result<FileSystemObject, CoreError>,
)
    requires
        is_reading(path, RawObject::NoAttributes(code), a),
        is_reading(path, RawObject::NoSecurity(attributes, code), s),
    ensures
        a is Err && s is Err,
        (a->Err_0 is PathNotFound) == (code == 2 || code == 3),
        (a->Err_0 is AccessDenied) == (code == 5),
        (s->Err_0 is AccessDenied) == (code == 5),
        code != 5 ==> s->Err_0 is InvalidSecurityDescriptor,
        code != 2 && code != 3 && code != 5 ==> a->Err_0 is InvalidSecurityDescriptor,
        a->Err_0 matches CoreError::PathNotFound(m) ==> m@ == path,
        a->Err_0 matches CoreError::AccessDenied(m) ==> m@ == path,
        s->Err_0 matches CoreError::AccessDenied(m) ==> m@ == path,
{
}

/// The flags of an entry are split without a loss: the two parts and the bit for inherited
/// entries give back the low five bits.
pub proof fn law_flags_are_split_without_loss(ace_flags: u8)
    ensures
        (ace_flags & (OBJECT_INHERIT_ACE | CONTAINER_INHERIT_ACE)) | (ace_flags & (
        NO_PROPAGATE_INHERIT_ACE | INHERIT_ONLY_ACE)) | (ace_flags & INHERITED_ACE) == ace_flags
            & 0x1fu8,
        ace_flags & (OBJECT_INHERIT_ACE | CONTAINER_INHERIT_ACE) == ace_flags & 0x03u8,
{
    assert((ace_flags & (0x01u8 | 0x02u8)) | (ace_flags & (0x04u8 | 0x08u8)) | (ace_flags & 0x10u8)
        == ace_flags & 0x1fu8 && ace_flags & (0x01u8 | 0x02u8) == ace_flags & 0x03u8)
        by (bit_vector);
}

/// The hash is the 64-bit FNV-1a hash: it starts from the offset basis, and each byte is
/// mixed in before the product with the prime is cut to 64 bits.
pub proof fn law_hash_is_fnv1a(bytes: Seq<u8>, b: u8)
    ensures
        fnv1a(Seq::empty()) == 14695981039346656037,
        fnv1a(bytes.push(b)) as int == ((fnv1a(bytes) ^ (b as u64)) as int * 1099511628211)
            % 18446744073709551616,
{
    assert(bytes.push(b).drop_last() =~= bytes);
    let x = (fnv1a(bytes) ^ (b as u64)) as int * FNV_PRIME;
    assert(0 <= x % 18446744073709551616 < 18446744073709551616);
}

/// A parsed descriptor says all that it holds.
pub proof fn law_descriptor_says_everything(p: ParsedSecurity)
    ensures
        p@.bytes == p.sd_bytes@,
        p@.owner == p.owner_sid,
        p@.dacl == p.dacl@,
        p@.unsupported == p.unsupported_aces@,
        p@.null_dacl == p.null_dacl,
        p@.inheritance_disabled == p.inheritance_disabled,
{
}

} // verus!
