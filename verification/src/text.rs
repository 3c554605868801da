//! Text primitives: trimming, splitting, joining, numbers and case.
//!
//! A string is modelled by the sequence of its characters.

use vstd::prelude::*;

verus! {

/// `String::push` appends one character.
pub assume_specification[ String::push ](s: &mut String, c: char)
    ensures
        final(s)@ == old(s)@.push(c),
;

/// The characters with the Unicode property `White_Space`.
pub open spec fn is_white_space(c: char) -> bool {
    ||| '\u{9}' <= c <= '\u{d}'
    ||| c == ' '
    ||| c == '\u{85}'
    ||| c == '\u{a0}'
    ||| c == '\u{1680}'
    ||| '\u{2000}' <= c <= '\u{200a}'
    ||| c == '\u{2028}'
    ||| c == '\u{2029}'
    ||| c == '\u{202f}'
    ||| c == '\u{205f}'
    ||| c == '\u{3000}'
}

/// The characters of the Unicode general category `Cc`.
pub open spec fn is_control_char(c: char) -> bool {
    '\0' <= c <= '\u{1f}' || '\u{7f}' <= c <= '\u{9f}'
}

/// `s` without its leading white space.
pub open spec fn without_leading_space(s: Seq<char>) -> Seq<char>
    decreases s.len(),
{
    if s.len() > 0 && is_white_space(s[0]) {
        without_leading_space(s.drop_first())
    } else {
        s
    }
}

/// `s` without its trailing white space.
pub open spec fn without_trailing_space(s: Seq<char>) -> Seq<char>
    decreases s.len(),
{
    if s.len() > 0 && is_white_space(s.last()) {
        without_trailing_space(s.drop_last())
    } else {
        s
    }
}

/// `s` without white space at either end.
pub open spec fn trimmed(s: Seq<char>) -> Seq<char> {
    without_trailing_space(without_leading_space(s))
}

/// The pieces of `s` between occurrences of `sep`; there is always at least one.
pub open spec fn split_at_char(s: Seq<char>, sep: char) -> Seq<Seq<char>>
    decreases s.len(),
{
    if s.len() == 0 {
        seq![Seq::empty()]
    } else {
        let init = split_at_char(s.drop_last(), sep);
        if s.last() == sep {
            init.push(Seq::empty())
        } else {
            init.drop_last().push(init.last().push(s.last()))
        }
    }
}

/// `parts` with `sep` between each two of them.
pub open spec fn joined(parts: Seq<Seq<char>>, sep: Seq<char>) -> Seq<char>
    decreases parts.len(),
{
    if parts.len() == 0 {
        Seq::empty()
    } else if parts.len() == 1 {
        parts[0]
    } else {
        joined(parts.drop_last(), sep) + sep + parts.last()
    }
}

/// The views of a sequence of strings.
pub open spec fn texts(v: Seq<String>) -> Seq<Seq<char>> {
    v.map_values(|s: String| s@)
}

/// The view of an optional string.
pub open spec fn text_of(o: Option<String>) -> Option<Seq<char>> {
    match o {
        Some(s) => Some(s@),
        None => None,
    }
}

/// Decides whether `c` is white space.
pub fn char_is_white_space(c: char) -> (r: bool)
    ensures
        r == is_white_space(c),
{
    ('\u{9}' <= c && c <= '\u{d}') || c == ' ' || c == '\u{85}' || c == '\u{a0}' || c == '\u{1680}'
        || ('\u{2000}' <= c && c <= '\u{200a}') || c == '\u{2028}' || c == '\u{2029}' || c
        == '\u{202f}' || c == '\u{205f}' || c == '\u{3000}'
}

/// The characters of `s`, in order.
pub fn chars_of(s: &str) -> (r: Vec<char>)
    ensures
        r@ == s@,
{
    let mut out: Vec<char> = Vec::new();
    for c in it: s.chars()
        invariant
            it.seq() == s@,
            out@ == s@.take(it.index()),
    {
        out.push(c);
    }
    out
}

/// The string made of `chars[from..to]`.
pub fn string_of(chars: &Vec<char>, from: usize, to: usize) -> (r: String)
    requires
        from <= to <= chars@.len(),
    ensures
        r@ == chars@.subrange(from as int, to as int),
{
    let mut out: String = String::new();
    for i in from..to
        invariant
            from <= i <= to <= chars@.len(),
            out@ == chars@.subrange(from as int, i as int),
    {
        out.push(chars[i]);
    }
    out
}

/// The character for the decimal digit `d`.
pub open spec fn digit_char(d: nat) -> char {
    ('0' as nat + d) as char
}

/// The decimal notation of `n`, without leading zeros.
pub open spec fn decimal(n: nat) -> Seq<char>
    decreases n,
{
    if n < 10 {
        seq![digit_char(n)]
    } else {
        decimal(n / 10).push(digit_char(n % 10))
    }
}

/// The character for the hexadecimal digit `d`.
pub open spec fn hex_char(d: nat, upper: bool) -> char {
    if d < 10 {
        digit_char(d)
    } else if upper {
        ('A' as nat + (d - 10)) as char
    } else {
        ('a' as nat + (d - 10)) as char
    }
}

/// The last `width` hexadecimal digits of `n`, with leading zeros.
pub open spec fn hex(n: nat, width: nat, upper: bool) -> Seq<char>
    decreases width,
{
    if width == 0 {
        Seq::empty()
    } else {
        hex(n / 16, (width - 1) as nat, upper).push(hex_char(n % 16, upper))
    }
}

/// `0x` and eight upper-case hexadecimal digits.
pub open spec fn mask_text(n: u32) -> Seq<char> {
    seq!['0', 'x'] + hex(n as nat, 8, true)
}

/// Whether `s` holds decimal digits only.
pub open spec fn all_digits(s: Seq<char>) -> bool {
    forall|i: int| 0 <= i < s.len() ==> '0' <= #[trigger] s[i] <= '9'
}

/// The number that the digits of `s` denote.
pub open spec fn digits_value(s: Seq<char>) -> nat
    decreases s.len(),
{
    if s.len() == 0 {
        0
    } else {
        (digits_value(s.drop_last()) * 10 + (s.last() as int - '0' as int)) as nat
    }
}

/// The unsigned number that `s` denotes: digits, after an optional `+`, with a
/// value of at most `max`.
pub open spec fn unsigned_value(s: Seq<char>, max: nat) -> Option<nat> {
    let digits = if s.len() > 0 && s[0] == '+' {
        s.drop_first()
    } else {
        s
    };
    if digits.len() > 0 && all_digits(digits) && digits_value(digits) <= max {
        Some(digits_value(digits))
    } else {
        None
    }
}

/// `c` with an ASCII upper-case letter made lower-case.
pub open spec fn ascii_lower_char(c: char) -> char {
    if 'A' <= c <= 'Z' {
        (c as nat + 32) as char
    } else {
        c
    }
}

/// `s` with its ASCII upper-case letters made lower-case.
pub open spec fn ascii_lower(s: Seq<char>) -> Seq<char> {
    s.map_values(|c: char| ascii_lower_char(c))
}

/// Whether `part` occurs in `s`.
pub open spec fn occurs_in(part: Seq<char>, s: Seq<char>) -> bool {
    exists|i: int| occurs_at(part, s, i)
}

/// Whether `part` occurs in `s` at position `i`.
pub open spec fn occurs_at(part: Seq<char>, s: Seq<char>, i: int) -> bool {
    0 <= i && i + part.len() <= s.len() && s.subrange(i, i + part.len()) == part
}

/// The lower-case form of a text under the Unicode case mapping.
pub uninterp spec fn unicode_lower(s: Seq<char>) -> Seq<char>;

/// Calls `str::to_lowercase`, whose result is named by [`unicode_lower`].
#[verifier::external_body]
pub(crate) fn lower(s: &str) -> (r: String)
    ensures
        r@ == unicode_lower(s@),
{
    s.to_lowercase()
}

/// How a text is shown for debugging: in quotes, with special characters escaped.
pub uninterp spec fn debug_quoted(s: Seq<char>) -> Seq<char>;

/// Shows a text through the `Debug` form of `str`, whose result is named by
/// [`debug_quoted`].
#[verifier::external_body]
pub(crate) fn quote_for_debug(s: &str) -> (r: String)
    ensures
        r@ == debug_quoted(s@),
{
    format!("{s:?}")
}

/// Decides whether two texts are the same.
pub fn same_text(a: &str, b: &str) -> (r: bool)
    ensures
        r == (a@ == b@),
{
    a.to_owned() == b.to_owned()
}

/// Removes white space from both ends of `s`.
pub fn trim(s: &str) -> (r: &str)
    ensures
        r@ == trimmed(s@),
{
    let chars: Vec<char> = chars_of(s);
    let n: usize = chars.len();
    let mut from: usize = 0;
    assert(chars@.skip(0) =~= chars@);
    while from < n && char_is_white_space(chars[from])
        invariant
            from <= n == chars@.len(),
            without_leading_space(chars@) == without_leading_space(chars@.skip(from as int)),
        decreases n - from,
    {
        assert(chars@.skip(from as int).drop_first() =~= chars@.skip(from + 1));
        from = from + 1;
    }
    let mut to: usize = n;
    let ghost rest = chars@.skip(from as int);
    assert(rest =~= chars@.subrange(from as int, to as int));
    while from < to && char_is_white_space(chars[to - 1])
        invariant
            from <= to <= n == chars@.len(),
            rest == chars@.skip(from as int),
            without_trailing_space(rest) == without_trailing_space(
                chars@.subrange(from as int, to as int),
            ),
        decreases to,
    {
        assert(chars@.subrange(from as int, to as int).drop_last() =~= chars@.subrange(
            from as int,
            to - 1,
        ));
        to = to - 1;
    }
    assert(without_leading_space(chars@) == rest);
    assert(without_trailing_space(rest) == chars@.subrange(from as int, to as int));
    s.substring_char(from, to)
}

/// Removing leading space leaves a text that does not start with a space, and
/// that ends as before.
proof fn lemma_without_leading_space(s: Seq<char>)
    ensures
        without_leading_space(s).len() <= s.len(),
        without_leading_space(s).len() > 0 ==> !is_white_space(without_leading_space(s)[0])
            && without_leading_space(s).last() == s.last(),
    decreases s.len(),
{
    if s.len() > 0 && is_white_space(s[0]) {
        lemma_without_leading_space(s.drop_first());
    }
}

/// Removing trailing space leaves a text that does not end with a space, and
/// that starts as before.
proof fn lemma_without_trailing_space(s: Seq<char>)
    ensures
        without_trailing_space(s).len() <= s.len(),
        without_trailing_space(s).len() > 0 ==> !is_white_space(without_trailing_space(s).last())
            && without_trailing_space(s)[0] == s[0],
    decreases s.len(),
{
    if s.len() > 0 && is_white_space(s.last()) {
        lemma_without_trailing_space(s.drop_last());
    }
}

/// Trimming a trimmed text changes nothing.
pub proof fn lemma_trimmed_is_stable(s: Seq<char>)
    ensures
        trimmed(trimmed(s)) == trimmed(s),
{
    lemma_without_leading_space(s);
    lemma_without_trailing_space(without_leading_space(s));
}

/// Splits `s` at every `sep`.
pub fn split(s: &str, sep: char) -> (r: Vec<String>)
    ensures
        texts(r@) == split_at_char(s@, sep),
        r@.len() > 0,
{
    let chars: Vec<char> = chars_of(s);
    let mut done: Vec<String> = Vec::new();
    let mut piece: String = String::new();
    assert(chars@.take(0) =~= Seq::<char>::empty());
    assert(texts(done@).push(piece@) =~= seq![Seq::<char>::empty()]);
    for i in 0..chars.len()
        invariant
            texts(done@).push(piece@) == split_at_char(chars@.take(i as int), sep),
    {
        let c: char = chars[i];
        let ghost before = texts(done@).push(piece@);
        assert(chars@.take(i + 1).drop_last() =~= chars@.take(i as int));
        if c == sep {
            done.push(piece);
            piece = String::new();
            assert(texts(done@).push(piece@) =~= before.push(Seq::empty()));
        } else {
            piece.push(c);
            assert(texts(done@).push(piece@) =~= before.drop_last().push(before.last().push(c)));
        }
    }
    let ghost before = texts(done@).push(piece@);
    done.push(piece);
    assert(texts(done@) =~= before);
    assert(chars@.take(chars@.len() as int) =~= s@);
    done
}

/// Joins `parts` with `sep`.
pub fn join(parts: &Vec<String>, sep: &str) -> (r: String)
    ensures
        r@ == joined(texts(parts@), sep@),
{
    let mut out: String = String::new();
    for i in 0..parts.len()
        invariant
            out@ == joined(texts(parts@.take(i as int)), sep@),
    {
        if i > 0 {
            out.append(sep);
        }
        out.append(parts[i].as_str());
        let ghost now = texts(parts@.take(i + 1));
        assert(now.drop_last() =~= texts(parts@.take(i as int)));
        assert(now.last() == parts@[i as int]@);
        if i == 0 {
            assert(out@ =~= parts@[0]@);
        }
    }
    assert(parts@.take(parts@.len() as int) =~= parts@);
    out
}

/// Decides whether `s` begins with `prefix`.
pub fn starts_with(s: &str, prefix: &str) -> (r: bool)
    ensures
        r == prefix@.is_prefix_of(s@),
{
    let n: usize = prefix.unicode_len();
    if n <= s.unicode_len() {
        same_text(s.substring_char(0, n), prefix)
    } else {
        false
    }
}

/// Decides whether `c` occurs in `s`.
pub fn contains_char(s: &str, c: char) -> (r: bool)
    ensures
        r == s@.contains(c),
{
    let chars: Vec<char> = chars_of(s);
    for i in 0..chars.len()
        invariant
            chars@ == s@,
            forall|j: int| 0 <= j < i ==> chars@[j] != c,
    {
        if chars[i] == c {
            assert(chars@[i as int] == c);
            return true;
        }
    }
    false
}

/// Decides whether `part` occurs in `s`.
pub fn contains(s: &str, part: &str) -> (r: bool)
    ensures
        r == occurs_in(part@, s@),
{
    let n: usize = s.unicode_len();
    let m: usize = part.unicode_len();
    if m > n {
        return false;
    }
    let mut i: usize = 0;
    while i < n - m
        invariant
            n == s@.len(),
            m == part@.len(),
            i <= n - m,
            forall|j: int| 0 <= j < i ==> !occurs_at(part@, s@, j),
        decreases n - m - i,
    {
        if same_text(s.substring_char(i, i + m), part) {
            assert(occurs_at(part@, s@, i as int));
            return true;
        }
        i = i + 1;
    }
    let r: bool = same_text(s.substring_char(i, i + m), part);
    assert(r == occurs_at(part@, s@, i as int));
    r
}

/// The character for a decimal digit.
fn digit(d: u64) -> (c: char)
    requires
        d < 10,
    ensures
        c == digit_char(d as nat),
{
    (48 + d as u8) as char
}

/// Appends the decimal notation of `n`.
pub fn push_decimal(out: &mut String, n: u64)
    ensures
        final(out)@ == old(out)@ + decimal(n as nat),
    decreases n,
{
    if n < 10 {
        out.push(digit(n));
        assert(old(out)@.push(digit_char(n as nat)) =~= old(out)@ + decimal(n as nat));
    } else {
        push_decimal(out, n / 10);
        out.push(digit(n % 10));
        assert((old(out)@ + decimal(n as nat / 10)).push(digit_char(n as nat % 10)) =~= old(out)@
            + decimal(n as nat));
    }
}

/// The decimal notation of `n`.
pub fn decimal_text(n: u64) -> (r: String)
    ensures
        r@ == decimal(n as nat),
{
    let mut out: String = String::new();
    push_decimal(&mut out, n);
    assert(Seq::<char>::empty() + decimal(n as nat) =~= decimal(n as nat));
    out
}

/// Appends the last `width` hexadecimal digits of `n`.
pub fn push_hex(out: &mut String, n: u32, width: u32, upper: bool)
    ensures
        final(out)@ == old(out)@ + hex(n as nat, width as nat, upper),
    decreases width,
{
    if width > 0 {
        push_hex(out, n / 16, width - 1, upper);
        let d: u8 = (n % 16) as u8;
        let c: char = if d < 10 {
            digit(d as u64)
        } else if upper {
            (55 + d) as char
        } else {
            (87 + d) as char
        };
        out.push(c);
        assert(c == hex_char(n as nat % 16, upper));
        assert((old(out)@ + hex(n as nat / 16, (width - 1) as nat, upper)).push(c) =~= old(out)@
            + hex(n as nat, width as nat, upper));
    } else {
        assert(old(out)@ + hex(n as nat, 0, upper) =~= old(out)@);
    }
}

/// The text of an access mask: `0x` and eight upper-case digits.
pub fn mask_hex(n: u32) -> (r: String)
    ensures
        r@ == mask_text(n),
{
    let mut out: String = String::new();
    out.push('0');
    out.push('x');
    assert(out@ =~= seq!['0', 'x']);
    push_hex(&mut out, n, 8, true);
    out
}

/// More digits denote no smaller number.
proof fn lemma_digits_value_grows(s: Seq<char>, n: int)
    requires
        all_digits(s),
        0 <= n <= s.len(),
    ensures
        digits_value(s.take(n)) <= digits_value(s),
    decreases s.len(),
{
    if n < s.len() {
        assert(s.drop_last().take(n) =~= s.take(n));
        assert forall|i: int| 0 <= i < s.drop_last().len() implies '0' <= #[trigger] s.drop_last()[i]
            <= '9' by {
            assert(s.drop_last()[i] == s[i]);
        }
        lemma_digits_value_grows(s.drop_last(), n);
        assert('0' <= s[s.len() - 1] <= '9');
    } else {
        assert(s.take(n) =~= s);
    }
}

/// Reads an unsigned decimal number of at most `max`.
pub fn parse_unsigned(s: &str, max: u64) -> (r: Option<u64>)
    ensures
        (match r {
            Some(v) => unsigned_value(s@, max as nat) == Some(v as nat),
            None => unsigned_value(s@, max as nat) is None,
        }),
{
    let chars: Vec<char> = chars_of(s);
    let n: usize = chars.len();
    let start: usize = if n > 0 && chars[0] == '+' {
        1
    } else {
        0
    };
    let ghost digits = chars@.skip(start as int);
    assert(start == 1 ==> digits =~= s@.drop_first());
    assert(start == 0 ==> digits =~= s@);
    if start == n {
        return None;
    }
    let mut value: u64 = 0;
    assert(digits.take(0) =~= Seq::<char>::empty());
    for i in start..n
        invariant
            start <= i <= n == chars@.len(),
            digits == chars@.skip(start as int),
            digits == (if s@.len() > 0 && s@[0] == '+' {
                s@.drop_first()
            } else {
                s@
            }),
            value <= max,
            forall|j: int| 0 <= j < i - start ==> '0' <= #[trigger] digits[j] <= '9',
            value == digits_value(digits.take(i - start)),
    {
        let c: char = chars[i];
        assert(digits[i - start] == c);
        if c < '0' || c > '9' {
            return None;
        }
        let d: u64 = (c as u32 - 48) as u64;
        let ghost next = digits.take(i - start + 1);
        assert(next.drop_last() =~= digits.take(i - start));
        assert(digits_value(next) == value * 10 + d);
        if value > max / 10 || d > max - value * 10 {
            proof {
                if all_digits(digits) {
                    lemma_digits_value_grows(digits, i - start + 1);
                }
            }
            return None;
        }
        value = value * 10 + d;
    }
    assert(digits.take(n - start) =~= digits);
    Some(value)
}

/// Makes the ASCII letters of `s` lower-case.
pub fn to_ascii_lower(s: &str) -> (r: String)
    ensures
        r@ == ascii_lower(s@),
{
    let chars: Vec<char> = chars_of(s);
    let mut out: String = String::new();
    for i in 0..chars.len()
        invariant
            out@ == ascii_lower(chars@.take(i as int)),
    {
        let c: char = chars[i];
        let lc: char = if 'A' <= c && c <= 'Z' {
            (c as u8 + 32) as char
        } else {
            c
        };
        assert(lc == ascii_lower_char(c));
        out.push(lc);
        assert(out@ =~= ascii_lower(chars@.take(i + 1)));
    }
    assert(chars@.take(chars@.len() as int) =~= s@);
    out
}

/// The decimal notation of `n` is made of digits, and they denote `n`.
pub proof fn lemma_decimal(n: nat)
    ensures
        decimal(n).len() > 0,
        all_digits(decimal(n)),
        digits_value(decimal(n)) == n,
    decreases n,
{
    if n < 10 {
        assert(decimal(n).drop_last() =~= Seq::<char>::empty());
        reveal_with_fuel(digits_value, 2);
    } else {
        lemma_decimal(n / 10);
        let s = decimal(n);
        assert(s.drop_last() =~= decimal(n / 10));
        assert forall|i: int| 0 <= i < s.len() implies '0' <= #[trigger] s[i] <= '9' by {
            if i < s.len() - 1 {
                assert(s[i] == decimal(n / 10)[i]);
            }
        }
    }
}

/// Reading the decimal notation of `n` gives `n` back, where it is not above `max`.
pub proof fn lemma_decimal_reads_back(n: nat, max: nat)
    ensures
        unsigned_value(decimal(n), max) == (if n <= max {
            Some(n)
        } else {
            None
        }),
{
    lemma_decimal(n);
    assert('0' <= decimal(n)[0] <= '9');
}

/// A piece without separators behind a separator is split off as the last piece.
pub proof fn lemma_split_behind(s: Seq<char>, sep: char, d: Seq<char>)
    requires
        !d.contains(sep),
    ensures
        split_at_char(s.push(sep) + d, sep) == split_at_char(s, sep).push(d),
    decreases d.len(),
{
    let whole = s.push(sep) + d;
    if d.len() == 0 {
        assert(whole =~= s.push(sep));
        assert(whole.drop_last() =~= s);
        assert(d =~= Seq::<char>::empty());
    } else {
        assert(whole.drop_last() =~= s.push(sep) + d.drop_last());
        assert(whole.last() == d.last());
        assert(d.contains(d.last()));
        assert(!d.drop_last().contains(sep)) by {
            if d.drop_last().contains(sep) {
                let i = choose|i: int| 0 <= i < d.drop_last().len() && d.drop_last()[i] == sep;
                assert(d[i] == sep);
            }
        }
        lemma_split_behind(s, sep, d.drop_last());
        let init = split_at_char(s, sep).push(d.drop_last());
        assert(d.drop_last().push(d.last()) =~= d);
        assert(init.drop_last().push(init.last().push(d.last())) =~= split_at_char(s, sep).push(d));
    }
}

/// A text without separators is its own only piece.
pub proof fn lemma_split_single(d: Seq<char>, sep: char)
    requires
        !d.contains(sep),
    ensures
        split_at_char(d, sep) == seq![d],
    decreases d.len(),
{
    if d.len() == 0 {
        assert(d =~= Seq::<char>::empty());
    } else {
        assert(d.contains(d.last()));
        assert(!d.drop_last().contains(sep)) by {
            if d.drop_last().contains(sep) {
                let i = choose|i: int| 0 <= i < d.drop_last().len() && d.drop_last()[i] == sep;
                assert(d[i] == sep);
            }
        }
        lemma_split_single(d.drop_last(), sep);
        assert(d.drop_last().push(d.last()) =~= d);
        assert(seq![d.drop_last()].drop_last().push(seq![d.drop_last()].last().push(d.last()))
            =~= seq![d]);
    }
}

/// A text that starts and ends with something else than white space is its own
/// trimmed form.
pub proof fn lemma_trimmed_identity(s: Seq<char>)
    requires
        s.len() > 0,
        !is_white_space(s[0]),
        !is_white_space(s.last()),
    ensures
        trimmed(s) == s,
{
}

/// Decides whether a text is among `list`.
pub fn is_listed(list: &Vec<String>, s: &str) -> (r: bool)
    ensures
        r == texts(list@).contains(s@),
{
    for i in 0..list.len()
        invariant
            forall|j: int| 0 <= j < i ==> texts(list@)[j] != s@,
    {
        if same_text(list[i].as_str(), s) {
            assert(texts(list@)[i as int] == s@);
            return true;
        }
    }
    false
}

/// `c`, `n` times.
pub open spec fn repeated(c: char, n: nat) -> Seq<char> {
    Seq::new(n, |i: int| c)
}

/// Repeats a character.
pub fn repeat_char(c: char, n: usize) -> (r: String)
    ensures
        r@ == repeated(c, n as nat),
{
    let mut out: String = String::new();
    assert(out@ =~= repeated(c, 0));
    for i in 0..n
        invariant
            out@ == repeated(c, i as nat),
    {
        out.push(c);
        assert(out@ =~= repeated(c, (i + 1) as nat));
    }
    out
}

/// `s` with spaces behind it, up to `width` characters.
pub open spec fn padded(s: Seq<char>, width: nat) -> Seq<char> {
    if s.len() >= width {
        s
    } else {
        s + repeated(' ', (width - s.len()) as nat)
    }
}

/// Puts spaces behind a text, up to `width` characters.
pub fn pad(s: &str, width: usize) -> (r: String)
    ensures
        r@ == padded(s@, width as nat),
{
    let count: usize = chars_of(s).len();
    if count >= width {
        s.to_owned()
    } else {
        s.to_owned().concat(repeat_char(' ', width - count).as_str())
    }
}

/// Adds a line.
pub fn push_line(lines: &mut Vec<String>, line: String)
    ensures
        texts(final(lines)@) == texts(old(lines)@).push(line@),
{
    let ghost before = texts(lines@);
    lines.push(line);
    assert(texts(lines@) =~= before.push(line@));
}

/// Adds lines.
pub fn add_lines(lines: &mut Vec<String>, more: Vec<String>)
    ensures
        texts(final(lines)@) == texts(old(lines)@) + texts(more@),
{
    let ghost before = lines@;
    let ghost added = more@;
    let mut more: Vec<String> = more;
    lines.append(&mut more);
    assert(texts(lines@) =~= texts(before) + texts(added));
}

/// A part occurs in what it is put together with.
pub proof fn lemma_part_occurs(a: Seq<char>, part: Seq<char>, b: Seq<char>)
    ensures
        occurs_in(part, a + part + b),
{
    let s = a + part + b;
    let at = a.len() as int;
    assert(s.subrange(at, at + part.len()) =~= part);
    assert(occurs_at(part, s, at));
}

/// Two parts in a row occur in what they are put together with.
pub proof fn lemma_pair_occurs(a: Seq<char>, x: Seq<char>, y: Seq<char>, b: Seq<char>)
    ensures
        occurs_in(x + y, a + x + y + b),
{
    lemma_part_occurs(a, x + y, b);
    assert(a + (x + y) + b =~= a + x + y + b);
}

/// A part of a part is a part of the whole.
pub proof fn lemma_occurs_transitive(part: Seq<char>, mid: Seq<char>, whole: Seq<char>)
    requires
        occurs_in(part, mid),
        occurs_in(mid, whole),
    ensures
        occurs_in(part, whole),
{
    let i = choose|i: int| #[trigger] occurs_at(part, mid, i);
    let j = choose|j: int| #[trigger] occurs_at(mid, whole, j);
    assert(whole.subrange(j, j + mid.len()).subrange(i, i + part.len()) =~= whole.subrange(
        j + i,
        j + i + part.len(),
    ));
    assert(occurs_at(part, whole, j + i));
}

/// Putting together is associative.
pub proof fn lemma_assoc(a: Seq<char>, b: Seq<char>, c: Seq<char>)
    ensures
        a + b + c == a + (b + c),
{
    assert(a + b + c =~= a + (b + c));
}

/// What occurs in a text can be cut out of it.
pub proof fn law_occurrence_can_be_cut_out(part: Seq<char>, s: Seq<char>) -> (r: (Seq<char>, Seq<
    char,
>))
    requires
        occurs_in(part, s),
    ensures
        s == r.0 + part + r.1,
{
    let i = choose|i: int| #[trigger] occurs_at(part, s, i);
    let a = s.take(i);
    let b = s.skip(i + part.len());
    assert(s =~= a + s.subrange(i, i + part.len()) + b);
    (a, b)
}

/// Making a text lower-case keeps its length and every character but the letters from `A`
/// to `Z`, which become those from `a` to `z`. Doing it again changes nothing.
pub proof fn law_lower_case_keeps_the_rest(s: Seq<char>, i: int)
    requires
        0 <= i < s.len(),
    ensures
        ascii_lower(s).len() == s.len(),
        'A' <= s[i] <= 'Z' ==> ascii_lower(s)[i] as int - 'a' as int == s[i] as int - 'A' as int,
        !('A' <= s[i] <= 'Z') ==> ascii_lower(s)[i] == s[i],
        ascii_lower(ascii_lower(s)) == ascii_lower(s),
{
    assert(ascii_lower(ascii_lower(s)) =~= ascii_lower(s));
}

/// Trimming takes white space away from both ends, all of it, and nothing else.
pub proof fn law_trimming_takes_white_space_only(s: Seq<char>) -> (r: (Seq<char>, Seq<char>))
    ensures
        s == r.0 + trimmed(s) + r.1,
        forall|i: int| 0 <= i < r.0.len() ==> is_white_space(#[trigger] r.0[i]),
        forall|i: int| 0 <= i < r.1.len() ==> is_white_space(#[trigger] r.1[i]),
        trimmed(s).len() > 0 ==> !is_white_space(trimmed(s)[0]) && !is_white_space(
            trimmed(s).last(),
        ),
{
    let a = lemma_leading_space(s);
    let rest = without_leading_space(s);
    let b = lemma_trailing_space(rest);
    let t = trimmed(s);
    assert(s =~= a + t + b);
    if t.len() > 0 {
        assert(t[0] == rest[0]);
    }
    (a, b)
}

proof fn lemma_leading_space(s: Seq<char>) -> (r: Seq<char>)
    ensures
        s == r + without_leading_space(s),
        forall|i: int| 0 <= i < r.len() ==> is_white_space(#[trigger] r[i]),
        without_leading_space(s).len() > 0 ==> !is_white_space(without_leading_space(s)[0]),
    decreases s.len(),
{
    if s.len() > 0 && is_white_space(s[0]) {
        let q = lemma_leading_space(s.drop_first());
        let r = seq![s[0]] + q;
        assert(s =~= seq![s[0]] + s.drop_first());
        assert(s =~= r + without_leading_space(s));
        r
    } else {
        assert(s =~= Seq::empty() + s);
        Seq::empty()
    }
}

proof fn lemma_trailing_space(s: Seq<char>) -> (r: Seq<char>)
    ensures
        s == without_trailing_space(s) + r,
        forall|i: int| 0 <= i < r.len() ==> is_white_space(#[trigger] r[i]),
        without_trailing_space(s).len() > 0 ==> !is_white_space(without_trailing_space(s).last()),
    decreases s.len(),
{
    if s.len() > 0 && is_white_space(s.last()) {
        let q = lemma_trailing_space(s.drop_last());
        let r = q.push(s.last());
        assert(s =~= s.drop_last().push(s.last()));
        assert(s =~= without_trailing_space(s) + r);
        r
    } else {
        assert(s =~= s + Seq::empty());
        Seq::empty()
    }
}

/// Splitting loses nothing but the separators: no piece holds one, and the pieces with a
/// separator between each two of them are the text.
pub proof fn law_split_pieces_join_again(s: Seq<char>, sep: char)
    ensures
        split_at_char(s, sep).len() > 0,
        joined(split_at_char(s, sep), seq![sep]) == s,
        forall|i: int|
            0 <= i < split_at_char(s, sep).len() ==> !(#[trigger] split_at_char(s, sep)[i]).contains(
                sep,
            ),
    decreases s.len(),
{
    let pieces = split_at_char(s, sep);
    if s.len() == 0 {
        assert(joined(pieces, seq![sep]) =~= s);
    } else {
        law_split_pieces_join_again(s.drop_last(), sep);
        let init = split_at_char(s.drop_last(), sep);
        let c = s.last();
        assert(s =~= s.drop_last().push(c));
        assert forall|i: int| 0 <= i < pieces.len() implies !(#[trigger] pieces[i]).contains(
            sep,
        ) by {
            if i < pieces.len() - 1 {
                assert(pieces[i] == init[i]);
            } else if c != sep && pieces[i].contains(sep) {
                let k = choose|k: int| 0 <= k < pieces[i].len() && pieces[i][k] == sep;
                assert(init.last()[k] == sep);
                assert(init[init.len() - 1].contains(sep));
            }
        }
        if c == sep {
            assert(pieces.drop_last() =~= init);
            assert(joined(pieces, seq![sep]) =~= s);
        } else if init.len() == 1 {
            assert(joined(pieces, seq![sep]) =~= s);
        } else {
            assert(pieces.drop_last() =~= init.drop_last());
            assert(joined(pieces, seq![sep]) =~= s);
        }
    }
}

/// Joining puts the separator between two lists of parts, and a single part stands alone.
pub proof fn law_joining_separates(a: Seq<Seq<char>>, b: Seq<Seq<char>>, sep: Seq<char>)
    requires
        a.len() > 0,
        b.len() > 0,
    ensures
        joined(a + b, sep) == joined(a, sep) + sep + joined(b, sep),
        joined(seq![a[0]], sep) == a[0],
        joined(Seq::empty(), sep).len() == 0,
    decreases b.len(),
{
    assert((a + b).drop_last() =~= a + b.drop_last());
    assert((a + b).last() == b.last());
    if b.len() == 1 {
        assert(a + b.drop_last() =~= a);
    } else {
        law_joining_separates(a, b.drop_last(), sep);
        assert(joined(a + b, sep) =~= joined(a, sep) + sep + joined(b, sep));
    }
}

/// The notation of a number in decimal: a digit for each below ten, and one more digit
/// behind for each factor of ten.
pub proof fn law_decimal_notation(n: nat, d: nat)
    requires
        d < 10,
    ensures
        decimal(d).len() == 1,
        decimal(d)[0] as int == '0' as int + d,
        n > 0 ==> decimal(n * 10 + d) == decimal(n) + decimal(d),
{
    if n > 0 {
        assert((n * 10 + d) / 10 == n && (n * 10 + d) % 10 == d);
        assert(decimal(n * 10 + d) =~= decimal(n) + decimal(d));
    }
}

/// The value of a hexadecimal digit.
pub open spec fn hex_digit_value(c: char) -> int {
    if '0' <= c <= '9' {
        c as int - '0' as int
    } else if 'A' <= c <= 'F' {
        c as int - 'A' as int + 10
    } else {
        c as int - 'a' as int + 10
    }
}

/// The number that hexadecimal digits denote.
pub open spec fn hex_value(s: Seq<char>) -> int
    decreases s.len(),
{
    if s.len() == 0 {
        0
    } else {
        hex_value(s.drop_last()) * 16 + hex_digit_value(s.last())
    }
}

/// The digits of a number read back as the number, where there is room for them.
pub proof fn law_hex_reads_back(n: nat, width: nat, upper: bool)
    requires
        n < vstd::arithmetic::power::pow(16, width),
    ensures
        hex(n, width, upper).len() == width,
        hex_value(hex(n, width, upper)) == n,
        forall|i: int|
            0 <= i < width ==> {
                let c = #[trigger] hex(n, width, upper)[i];
                ('0' <= c <= '9') || (upper && 'A' <= c <= 'F') || (!upper && 'a' <= c <= 'f')
            },
    decreases width,
{
    reveal(vstd::arithmetic::power::pow);
    if width > 0 {
        let w = (width - 1) as nat;
        assert(n / 16 < vstd::arithmetic::power::pow(16, w)) by (nonlinear_arith)
            requires
                n < 16 * vstd::arithmetic::power::pow(16, w),
        ;
        law_hex_reads_back(n / 16, w, upper);
        let s = hex(n, width, upper);
        assert(s.drop_last() =~= hex(n / 16, w, upper));
        assert forall|i: int| 0 <= i < width implies {
            let c = #[trigger] s[i];
            ('0' <= c <= '9') || (upper && 'A' <= c <= 'F') || (!upper && 'a' <= c <= 'f')
        } by {
            if i < w {
                assert(s[i] == hex(n / 16, w, upper)[i]);
            }
        }
    }
}

/// A mask is written as `0x` and eight upper-case digits, and these read back as the mask.
pub proof fn law_mask_reads_back(n: u32)
    ensures
        mask_text(n).len() == 10,
        mask_text(n)[0] == '0' && mask_text(n)[1] == 'x',
        hex_value(mask_text(n).skip(2)) == n,
        forall|i: int|
            2 <= i < 10 ==> {
                let c = #[trigger] mask_text(n)[i];
                ('0' <= c <= '9') || ('A' <= c <= 'F')
            },
{
    assert(vstd::arithmetic::power::pow(16, 8) == 0x1_0000_0000) by {
        reveal_with_fuel(vstd::arithmetic::power::pow, 9);
    }
    law_hex_reads_back(n as nat, 8, true);
    assert(mask_text(n).skip(2) =~= hex(n as nat, 8, true));
    assert forall|i: int| 2 <= i < 10 implies {
        let c = #[trigger] mask_text(n)[i];
        ('0' <= c <= '9') || ('A' <= c <= 'F')
    } by {
        assert(mask_text(n)[i] == hex(n as nat, 8, true)[i - 2]);
    }
}

/// Padding keeps the text in front, fills up with spaces, and never cuts anything off.
pub proof fn law_padding_keeps_the_text(s: Seq<char>, width: nat)
    ensures
        s.is_prefix_of(padded(s, width)),
        padded(s, width).len() == (if s.len() < width {
            width
        } else {
            s.len()
        }),
        forall|i: int| s.len() <= i < padded(s, width).len() ==> #[trigger] padded(s, width)[i] == ' ',
{
    assert(padded(s, width).subrange(0, s.len() as int) =~= s);
}

/// What stands in one of two lists of lines stands in both together.
pub proof fn lemma_line_in_both(a: Seq<Seq<char>>, b: Seq<Seq<char>>, line: Seq<char>)
    ensures
        (a + b).contains(line) == (a.contains(line) || b.contains(line)),
{
    if a.contains(line) {
        let i = choose|i: int| 0 <= i < a.len() && a[i] == line;
        assert((a + b)[i] == line);
    }
    if b.contains(line) {
        let i = choose|i: int| 0 <= i < b.len() && b[i] == line;
        assert((a + b)[a.len() + i] == line);
    }
    if (a + b).contains(line) {
        let i = choose|i: int| 0 <= i < (a + b).len() && (a + b)[i] == line;
        if i < a.len() {
            assert(a[i] == line);
        } else {
            assert(b[i - a.len()] == line);
        }
    }
}

/// A text starts with its first part.
pub proof fn lemma_first_part_leads(a: Seq<char>, b: Seq<char>)
    ensures
        a.is_prefix_of(a + b),
        b.is_suffix_of(a + b),
        occurs_in(a, a + b),
        occurs_in(b, a + b),
{
    let s = a + b;
    assert(s.subrange(0, a.len() as int) =~= a);
    assert(s.subrange(s.len() - b.len(), s.len() as int) =~= b);
    lemma_part_occurs(Seq::empty(), a, b);
    assert(Seq::empty() + a + b =~= s);
    lemma_part_occurs(a, b, Seq::empty());
    assert(a + b + Seq::empty() =~= s);
}

/// A padded text holds the text, at its start.
pub proof fn lemma_padded_occurs(s: Seq<char>, width: nat)
    ensures
        occurs_in(s, padded(s, width)),
        s.is_prefix_of(padded(s, width)),
{
    law_padding_keeps_the_text(s, width);
    let wide = padded(s, width);
    assert(wide =~= s + wide.skip(s.len() as int));
    lemma_first_part_leads(s, wide.skip(s.len() as int));
}

/// What stands at a place in a text occurs in it.
pub proof fn lemma_found_at(part: Seq<char>, whole: Seq<char>, at: int)
    requires
        0 <= at,
        at + part.len() <= whole.len(),
        forall|i: int| 0 <= i < part.len() ==> #[trigger] part[i] == whole[at + i],
    ensures
        occurs_in(part, whole),
{
    assert(whole.subrange(at, at + part.len()) =~= part);
    assert(occurs_at(part, whole, at));
}

/// A number in decimal notation is all digits, and reads back as the number.
proof fn lemma_decimal_digits(n: nat)
    ensures
        decimal(n).len() > 0,
        all_digits(decimal(n)),
        digits_value(decimal(n)) == n,
    decreases n,
{
    reveal_with_fuel(digits_value, 2);
    let d = (n % 10) as nat;
    let rest = n / 10;
    law_decimal_notation(rest, d);
    if n < 10 {
        let s = decimal(n);
        assert(s.drop_last() =~= Seq::empty());
        assert(s.last() == s[0]);
    } else {
        lemma_decimal_digits(rest);
        assert(rest * 10 + d == n);
        let s = decimal(n);
        assert(s == decimal(rest) + decimal(d));
        assert(s.drop_last() =~= decimal(rest));
        assert(s.last() == decimal(d)[0]);
    }
}

/// A number that does not exceed the limit reads back from its decimal notation, with or
/// without a plus sign; one that does is not read.
pub proof fn law_decimal_reads_back(n: nat, max: nat)
    ensures
        n <= max ==> unsigned_value(decimal(n), max) == Some(n),
        n <= max ==> unsigned_value(seq!['+'] + decimal(n), max) == Some(n),
        n > max ==> unsigned_value(decimal(n), max) is None,
{
    lemma_decimal_digits(n);
    let s = decimal(n);
    assert('0' <= s[0] <= '9');
    assert((seq!['+'] + s).drop_first() =~= s);
}

/// Only digits are read as a number, behind an optional plus sign, and never one beyond the
/// limit.
pub proof fn law_number_is_made_of_digits(s: Seq<char>, max: nat, i: int)
    requires
        unsigned_value(s, max) is Some,
    ensures
        unsigned_value(s, max)->0 <= max,
        s.len() > 0,
        0 <= i < s.len() ==> '0' <= s[i] <= '9' || (i == 0 && s[i] == '+' && s.len() > 1),
{
    if s[0] == '+' && 0 < i < s.len() {
        assert(s.drop_first()[i - 1] == s[i]);
    }
}

/// The control characters are those below the space, and those from the delete character up
/// to the one before the no-break space.
pub proof fn law_control_characters(c: char)
    ensures
        is_control_char(c) == ((c as int) < 32 || 127 <= (c as int) < 160),
{
}

/// Of the ASCII characters, white space are the space, the tabs, the line breaks and the form
/// feed.
pub proof fn law_ascii_white_space(c: char)
    requires
        (c as int) < 128,
    ensures
        is_white_space(c) == (c as int == 32 || 9 <= (c as int) <= 13),
{
}

} // verus!
