//! Security identifiers and normalized paths.

use vstd::prelude::*;

use crate::error::CoreError;
use crate::text;

verus! {

/// A security identifier in its textual form.
///
/// The field is public for values that come from a trusted source; text from
/// outside should go through [`Sid::try_new`].
#[derive(Debug, PartialEq, Eq, Hash)]
pub struct Sid(pub String);

impl View for Sid {
    type V = Seq<char>;

    open spec fn view(&self) -> Seq<char> {
        self.0@
    }
}

impl Clone for Sid {
    fn clone(&self) -> (r: Self)
        ensures
            r == *self,
    {
        Sid(self.0.clone())
    }
}

/// The views of a sequence of SIDs.
pub open spec fn sid_texts(s: Seq<Sid>) -> Seq<Seq<char>> {
    s.map_values(|x: Sid| x@)
}

/// Whether a component of a SID is a number of at most 64 bits.
pub open spec fn is_numeric(part: Seq<char>) -> bool {
    text::unsigned_value(part, u64::MAX as nat) is Some
}

/// The first component from position `from` on that is not numeric.
pub open spec fn first_non_numeric(parts: Seq<Seq<char>>, from: int) -> Option<Seq<char>>
    decreases parts.len() - from,
{
    if from < 0 || from >= parts.len() {
        None
    } else if !is_numeric(parts[from]) {
        Some(parts[from])
    } else {
        first_non_numeric(parts, from + 1)
    }
}

/// Why the trimmed text `t` is not a SID; `None` where it is one.
pub open spec fn sid_fault(t: Seq<char>) -> Option<Seq<char>> {
    let parts = text::split_at_char(t, '-');
    if t.len() == 0 {
        Some("SID must not be empty"@)
    } else if !"S-1-"@.is_prefix_of(t) {
        Some("Invalid SID format (must start with 'S-1-'): "@ + t)
    } else if parts.len() < 4 {
        Some("SID has too few components (minimum S-1-X-Y): "@ + t)
    } else {
        match first_non_numeric(parts, 1) {
            Some(part) => Some("SID contains non-numeric component '"@ + part + "': "@ + t),
            None => None,
        }
    }
}

/// Whether the trimmed text `t` has the form `S-1-<authority>(-<sub-authority>)+`.
pub open spec fn is_sid_syntax(t: Seq<char>) -> bool {
    let parts = text::split_at_char(t, '-');
    &&& "S-1-"@.is_prefix_of(t)
    &&& parts.len() >= 4
    &&& forall|i: int| 1 <= i < parts.len() ==> is_numeric(#[trigger] parts[i])
}

impl Sid {
    /// Reads a SID: after trimming, `S-1-` followed by at least two numeric
    /// components.
    pub fn try_new(input: &str) -> (r: Result<Self, CoreError>)
        ensures
            r matches Ok(sid) ==> sid_fault(text::trimmed(input@)) is None && sid@
                == text::trimmed(input@),
            r matches Err(e) ==> (e matches CoreError::Validation(m) && sid_fault(
                text::trimmed(input@),
            ) == Some(m@)),
    {
        let t: &str = text::trim(input);
        if t.is_empty() {
            return Err(CoreError::Validation("SID must not be empty".to_owned()));
        }
        if !text::starts_with(t, "S-1-") {
            return Err(
                CoreError::Validation(
                    "Invalid SID format (must start with 'S-1-'): ".to_owned().concat(t),
                ),
            );
        }
        let parts: Vec<String> = text::split(t, '-');
        if parts.len() < 4 {
            return Err(
                CoreError::Validation(
                    "SID has too few components (minimum S-1-X-Y): ".to_owned().concat(t),
                ),
            );
        }
        let ghost views = text::split_at_char(t@, '-');
        for i in 1..parts.len()
            invariant
                views == text::texts(parts@),
                views == text::split_at_char(t@, '-'),
                t@ == text::trimmed(input@),
                t@.len() > 0,
                "S-1-"@.is_prefix_of(t@),
                parts@.len() >= 4,
                first_non_numeric(views, 1) == first_non_numeric(views, i as int),
        {
            assert(views[i as int] == parts@[i as int]@);
            if text::parse_unsigned(parts[i].as_str(), u64::MAX).is_none() {
                return Err(
                    CoreError::Validation(
                        "SID contains non-numeric component '".to_owned().concat(
                            parts[i].as_str(),
                        ).concat("': ").concat(t),
                    ),
                );
            }
        }
        Ok(Sid(t.to_owned()))
    }

    /// Wraps a SID from a trusted source without looking at it.
    pub fn new_unchecked(value: &str) -> (r: Self)
        ensures
            r@ == value@,
    {
        Sid(value.to_owned())
    }

    /// Decides whether [`Sid::try_new`] accepts `input`.
    pub fn is_valid_syntax(input: &str) -> (r: bool)
        ensures
            r == (sid_fault(text::trimmed(input@)) is None),
    {
        Self::try_new(input).is_ok()
    }
}

/// `first_non_numeric` finds nothing exactly when every component from `from`
/// on is numeric.
proof fn lemma_first_non_numeric(parts: Seq<Seq<char>>, from: int)
    requires
        0 <= from <= parts.len(),
    ensures
        (first_non_numeric(parts, from) is None) == (forall|i: int|
            from <= i < parts.len() ==> is_numeric(#[trigger] parts[i])),
    decreases parts.len() - from,
{
    if from < parts.len() {
        lemma_first_non_numeric(parts, from + 1);
        assert(first_non_numeric(parts, from) is None ==> forall|i: int|
            from <= i < parts.len() ==> is_numeric(#[trigger] parts[i])) by {
            if first_non_numeric(parts, from) is None {
                assert forall|i: int| from <= i < parts.len() implies is_numeric(
                    #[trigger] parts[i],
                ) by {
                    if i > from {
                        assert(is_numeric(parts[i]));
                    }
                }
            }
        }
    }
}

/// A text is accepted as a SID exactly when, trimmed, it starts with `S-1-`,
/// has at least four components and every component after the first is numeric.
pub proof fn law_sid_syntax(input: Seq<char>)
    ensures
        (sid_fault(text::trimmed(input)) is None) == is_sid_syntax(text::trimmed(input)),
{
    let t = text::trimmed(input);
    lemma_first_non_numeric(text::split_at_char(t, '-'), 1);
    reveal_strlit("S-1-");
}

/// Reading an accepted SID again changes nothing: what [`Sid::try_new`] returns
/// is its own trimmed form, and is accepted.
pub proof fn law_sid_is_stable(input: Seq<char>)
    ensures
        text::trimmed(text::trimmed(input)) == text::trimmed(input),
        sid_fault(text::trimmed(input)) is None ==> sid_fault(
            text::trimmed(text::trimmed(input)),
        ) is None,
{
    text::lemma_trimmed_is_stable(input);
}

/// A path that is not empty and holds no control character.
///
/// The field is public for values that come from a trusted source; text from
/// outside should go through [`NormalizedPath::try_new`].
#[derive(Debug, PartialEq, Eq, Hash)]
pub struct NormalizedPath(pub String);

impl View for NormalizedPath {
    type V = Seq<char>;

    open spec fn view(&self) -> Seq<char> {
        self.0@
    }
}

impl Clone for NormalizedPath {
    fn clone(&self) -> (r: Self)
        ensures
            r == *self,
    {
        NormalizedPath(self.0.clone())
    }
}

/// The first control character of `t` from position `from` on.
pub open spec fn first_control(t: Seq<char>, from: int) -> Option<char>
    decreases t.len() - from,
{
    if from < 0 || from >= t.len() {
        None
    } else if text::is_control_char(t[from]) {
        Some(t[from])
    } else {
        first_control(t, from + 1)
    }
}

/// Why the trimmed text `t` is not a path; `None` where it is one.
pub open spec fn path_fault(t: Seq<char>) -> Option<Seq<char>> {
    if t.len() == 0 {
        Some("Path must not be empty"@)
    } else {
        match first_control(t, 0) {
            Some(c) => Some(
                "Path contains an invalid control character (U+"@ + text::hex(c as nat, 4, true)
                    + ")"@,
            ),
            None => None,
        }
    }
}

impl NormalizedPath {
    /// Reads a path: trimmed, not empty, free of control characters.
    pub fn try_new(input: &str) -> (r: Result<Self, CoreError>)
        ensures
            r matches Ok(p) ==> path_fault(text::trimmed(input@)) is None && p@ == text::trimmed(
                input@,
            ),
            r matches Err(e) ==> (e matches CoreError::Validation(m) && path_fault(
                text::trimmed(input@),
            ) == Some(m@)),
    {
        let t: &str = text::trim(input);
        if t.is_empty() {
            return Err(CoreError::Validation("Path must not be empty".to_owned()));
        }
        let chars: Vec<char> = text::chars_of(t);
        for i in 0..chars.len()
            invariant
                chars@ == t@,
                t@ == text::trimmed(input@),
                t@.len() > 0,
                first_control(t@, 0) == first_control(t@, i as int),
        {
            let c: char = chars[i];
            if ('\0' <= c && c <= '\u{1f}') || ('\u{7f}' <= c && c <= '\u{9f}') {
                let mut m: String =
                    "Path contains an invalid control character (U+".to_owned();
                text::push_hex(&mut m, c as u32, 4, true);
                m.append(")");
                return Err(CoreError::Validation(m));
            }
        }
        Ok(NormalizedPath(t.to_owned()))
    }

    /// Wraps a path from a trusted source without looking at it.
    pub fn new_unchecked(value: &str) -> (r: Self)
        ensures
            r@ == value@,
    {
        NormalizedPath(value.to_owned())
    }
}

/// `first_control` finds nothing exactly when no character from `from` on is a
/// control character.
proof fn lemma_first_control(t: Seq<char>, from: int)
    requires
        0 <= from <= t.len(),
    ensures
        (first_control(t, from) is None) == (forall|i: int|
            from <= i < t.len() ==> !text::is_control_char(#[trigger] t[i])),
    decreases t.len() - from,
{
    if from < t.len() {
        lemma_first_control(t, from + 1);
        if first_control(t, from) is None {
            assert forall|i: int| from <= i < t.len() implies !text::is_control_char(
                #[trigger] t[i],
            ) by {
                if i > from {
                    assert(!text::is_control_char(t[i]));
                }
            }
        }
    }
}

/// A text is accepted as a path exactly when, trimmed, it is not empty and
/// holds no control character.
pub proof fn law_path_has_no_control_character(input: Seq<char>)
    ensures
        (path_fault(text::trimmed(input)) is None) == (text::trimmed(input).len() > 0 && forall|
            i: int,
        |
            0 <= i < text::trimmed(input).len() ==> !text::is_control_char(
                #[trigger] text::trimmed(input)[i],
            )),
{
    lemma_first_control(text::trimmed(input), 0);
}

/// A component of a SID may be any number of 64 bits, and no larger one.
pub proof fn law_component_is_any_64_bit_number(n: nat)
    ensures
        is_numeric(text::decimal(n)) == (n <= u64::MAX),
{
    text::law_decimal_reads_back(n, u64::MAX as nat);
}

/// A text that is refused as a SID is named in the message, unless it is empty. Where its
/// start and the number of components are right, the message names one that is no number.
pub proof fn law_refused_sid_is_named(t: Seq<char>)
    requires
        sid_fault(t) is Some,
    ensures
        text::occurs_in(t, sid_fault(t)->0),
        "S-1-"@.is_prefix_of(t) && text::split_at_char(t, '-').len() >= 4 ==> exists|i: int|
            1 <= i < text::split_at_char(t, '-').len() && !is_numeric(
                #[trigger] text::split_at_char(t, '-')[i],
            ) && text::occurs_in(text::split_at_char(t, '-')[i], sid_fault(t)->0),
{
    reveal_strlit("S-1-");
    let parts = text::split_at_char(t, '-');
    if t.len() == 0 {
        text::lemma_found_at(t, sid_fault(t)->0, 0);
    } else if !"S-1-"@.is_prefix_of(t) {
        text::lemma_first_part_leads("Invalid SID format (must start with 'S-1-'): "@, t);
    } else if parts.len() < 4 {
        text::lemma_first_part_leads("SID has too few components (minimum S-1-X-Y): "@, t);
    } else {
        let i = lemma_non_numeric_is_there(parts, 1);
        let front = "SID contains non-numeric component '"@;
        text::lemma_part_occurs(front, parts[i], "': "@ + t);
        text::lemma_assoc(front + parts[i], "': "@, t);
        text::lemma_first_part_leads(front + parts[i] + "': "@, t);
    }
}

/// Where the first component that is not numeric stands.
proof fn lemma_non_numeric_is_there(parts: Seq<Seq<char>>, from: int) -> (i: int)
    requires
        0 <= from,
        first_non_numeric(parts, from) is Some,
    ensures
        from <= i < parts.len(),
        !is_numeric(parts[i]),
        first_non_numeric(parts, from) == Some(parts[i]),
    decreases parts.len() - from,
{
    if !is_numeric(parts[from]) {
        from
    } else {
        lemma_non_numeric_is_there(parts, from + 1)
    }
}

/// A path that is refused for a control character names the code of the first one.
pub proof fn law_refused_path_names_the_character(t: Seq<char>, i: int)
    requires
        0 <= i < t.len(),
        text::is_control_char(t[i]),
        forall|j: int| 0 <= j < i ==> !text::is_control_char(#[trigger] t[j]),
    ensures
        path_fault(t) is Some,
        text::occurs_in(text::hex(t[i] as nat, 4, true), path_fault(t)->0),
{
    lemma_first_control_is_there(t, 0, i);
    text::lemma_part_occurs(
        "Path contains an invalid control character (U+"@,
        text::hex(t[i] as nat, 4, true),
        ")"@,
    );
}

/// The first control character is the one that has none in front.
proof fn lemma_first_control_is_there(t: Seq<char>, from: int, i: int)
    requires
        0 <= from <= i < t.len(),
        text::is_control_char(t[i]),
        forall|j: int| from <= j < i ==> !text::is_control_char(#[trigger] t[j]),
    ensures
        first_control(t, from) == Some(t[i]),
    decreases i - from,
{
    if from < i {
        assert(!text::is_control_char(t[from]));
        lemma_first_control_is_there(t, from + 1, i);
    }
}

} // verus!
