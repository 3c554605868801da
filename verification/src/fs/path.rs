//! Windows paths and their long form.

use vstd::prelude::*;

use crate::text;

verus! {

/// Whether a path already carries the long-path prefix.
pub open spec fn is_long(p: Seq<char>) -> bool {
    "\\\\?\\"@.is_prefix_of(p)
}

/// Whether a path is absolute on a drive.
pub open spec fn is_on_drive(p: Seq<char>) -> bool {
    p.len() >= 3 && ('a' <= p[0] <= 'z' || 'A' <= p[0] <= 'Z') && p[1] == ':' && p[2] == '\\'
}

/// The long form of a path: absolute paths on a drive or a share get the
/// long-path prefix, others stay.
pub open spec fn long_form(p: Seq<char>) -> Seq<char> {
    if is_long(p) {
        p
    } else if "\\\\"@.is_prefix_of(p) {
        "\\\\?\\UNC\\"@ + p.skip(2)
    } else if is_on_drive(p) {
        "\\\\?\\"@ + p
    } else {
        p
    }
}

/// The readable form of a path: without the long-path prefix.
pub open spec fn display_form(p: Seq<char>) -> Seq<char> {
    if "\\\\?\\UNC\\"@.is_prefix_of(p) {
        "\\\\"@ + p.skip(8)
    } else if is_long(p) {
        p.skip(4)
    } else {
        p
    }
}

/// The text from position `from` on.
fn suffix(s: &str, from: usize) -> (r: String)
    requires
        from <= s@.len(),
    ensures
        r@ == s@.skip(from as int),
{
    let chars: Vec<char> = text::chars_of(s);
    let r: String = text::string_of(&chars, from, chars.len());
    assert(s@.subrange(from as int, s@.len() as int) =~= s@.skip(from as int));
    r
}

/// Gives a path the long-path prefix, so that it may be longer than 260
/// characters. A path that has the prefix stays as it is.
pub fn to_windows_api_path(path: &str) -> (r: String)
    ensures
        r@ == long_form(path@),
{
    if text::starts_with(path, "\\\\?\\") {
        return path.to_owned();
    }
    if text::starts_with(path, "\\\\") {
        proof {
            reveal_strlit("\\\\");
        }
        return "\\\\?\\UNC\\".to_owned().concat(suffix(path, 2).as_str());
    }
    let chars: Vec<char> = text::chars_of(path);
    if chars.len() >= 3 && (('a' <= chars[0] && chars[0] <= 'z') || ('A' <= chars[0] && chars[0]
        <= 'Z')) && chars[1] == ':' && chars[2] == '\\' {
        return "\\\\?\\".to_owned().concat(path);
    }
    path.to_owned()
}

/// Takes the long-path prefix off a path, so that reports stay readable.
pub fn strip_long_path_prefix(path: &str) -> (r: String)
    ensures
        r@ == display_form(path@),
{
    proof {
        reveal_strlit("\\\\?\\UNC\\");
        reveal_strlit("\\\\?\\");
    }
    if text::starts_with(path, "\\\\?\\UNC\\") {
        "\\\\".to_owned().concat(suffix(path, 8).as_str())
    } else if text::starts_with(path, "\\\\?\\") {
        suffix(path, 4)
    } else {
        path.to_owned()
    }
}

/// The long form of a path is its own long form.
pub proof fn law_long_form_is_stable(p: Seq<char>)
    ensures
        long_form(long_form(p)) == long_form(p),
{
    reveal_strlit("\\\\?\\UNC\\");
    reveal_strlit("\\\\?\\");
    reveal_strlit("\\\\");
    let q = long_form(p);
    if is_long(p) {
    } else if "\\\\"@.is_prefix_of(p) {
        assert(q.take(4) =~= "\\\\?\\"@);
        assert(is_long(q));
    } else if is_on_drive(p) {
        assert(q.take(4) =~= "\\\\?\\"@);
        assert(is_long(q));
    }
}

/// Taking the prefix off the long form gives the path back.
pub proof fn law_long_form_reads_back(p: Seq<char>)
    requires
        !is_long(p),
    ensures
        display_form(long_form(p)) == p,
{
    reveal_strlit("\\\\?\\UNC\\");
    reveal_strlit("\\\\?\\");
    reveal_strlit("\\\\");
    let q = long_form(p);
    if "\\\\"@.is_prefix_of(p) {
        assert(q.take(8) =~= "\\\\?\\UNC\\"@);
        assert("\\\\?\\UNC\\"@.is_prefix_of(q));
        assert(display_form(q) =~= p);
    } else if is_on_drive(p) {
        assert(q[5] == ':');
        assert(!"\\\\?\\UNC\\"@.is_prefix_of(q)) by {
            if "\\\\?\\UNC\\"@.is_prefix_of(q) {
                assert("\\\\?\\UNC\\"@[5] == q[5]);
            }
        }
        assert(q.take(4) =~= "\\\\?\\"@);
        assert(is_long(q));
        assert(display_form(q) =~= p);
    } else {
        assert(!"\\\\?\\UNC\\"@.is_prefix_of(p)) by {
            if "\\\\?\\UNC\\"@.is_prefix_of(p) {
                assert(p.take(4) =~= "\\\\?\\"@);
            }
        }
    }
}

/// A path on a drive gets the four characters of the prefix in front, a path to a server gets
/// the prefix and `UNC` in place of its first backslash, and every other path stays as it is.
pub proof fn law_absolute_paths_get_the_prefix(p: Seq<char>)
    ensures
        ({
            let q = long_form(p);
            let prefix = seq!['\\', '\\', '?', '\\'];
            let unc = seq!['\\', '\\', '?', '\\', 'U', 'N', 'C'];
            let server = p.len() >= 2 && p[0] == '\\' && p[1] == '\\';
            let long = server && p.len() >= 4 && p[2] == '?' && p[3] == '\\';
            let drive = p.len() >= 3 && ('a' <= p[0] <= 'z' || 'A' <= p[0] <= 'Z') && p[1] == ':'
                && p[2] == '\\';
            &&& server && !long ==> q == unc + p.skip(1)
            &&& drive ==> q == prefix + p
            &&& long || (!server && !drive) ==> q == p
        }),
{
    reveal_strlit("\\\\?\\UNC\\");
    reveal_strlit("\\\\?\\");
    reveal_strlit("\\\\");
    let unc = seq!['\\', '\\', '?', '\\', 'U', 'N', 'C'];
    let server = p.len() >= 2 && p[0] == '\\' && p[1] == '\\';
    if server {
        assert(p.subrange(0, 2) =~= "\\\\"@);
        assert("\\\\?\\UNC\\"@ + p.skip(2) =~= unc + p.skip(1));
    }
    if "\\\\"@.is_prefix_of(p) {
        let two = p.subrange(0, 2);
        assert(two[0] == p[0] && two[1] == p[1]);
    }
    if is_long(p) {
        let four = p.subrange(0, 4);
        assert(four[0] == p[0] && four[1] == p[1] && four[2] == p[2] && four[3] == p[3]);
    }
    if server && p.len() >= 4 && p[2] == '?' && p[3] == '\\' {
        assert(p.subrange(0, 4) =~= "\\\\?\\"@);
    }
    assert("\\\\?\\"@ =~= seq!['\\', '\\', '?', '\\']);
}

/// The readable form drops the four characters of the prefix; of a path to a server it drops
/// the prefix and `UNC` and keeps two backslashes. Every other path is readable as it is.
pub proof fn law_prefix_is_dropped(p: Seq<char>)
    ensures
        ({
            let prefix = seq!['\\', '\\', '?', '\\'];
            let unc = seq!['\\', '\\', '?', '\\', 'U', 'N', 'C', '\\'];
            &&& display_form(unc + p) == seq!['\\', '\\'] + p
            &&& !(p.len() >= 4 && p[0] == 'U' && p[1] == 'N' && p[2] == 'C' && p[3] == '\\')
                ==> display_form(prefix + p) == p
            &&& !(p.len() >= 4 && p[0] == '\\' && p[1] == '\\' && p[2] == '?' && p[3] == '\\')
                ==> display_form(p) == p
        }),
{
    reveal_strlit("\\\\?\\UNC\\");
    reveal_strlit("\\\\?\\");
    reveal_strlit("\\\\");
    let prefix = seq!['\\', '\\', '?', '\\'];
    let unc = seq!['\\', '\\', '?', '\\', 'U', 'N', 'C', '\\'];
    let a = unc + p;
    assert(a.subrange(0, 8) =~= "\\\\?\\UNC\\"@);
    assert(display_form(a) =~= seq!['\\', '\\'] + p);
    let b = prefix + p;
    assert(b.subrange(0, 4) =~= "\\\\?\\"@);
    if "\\\\?\\UNC\\"@.is_prefix_of(b) {
        let eight = b.subrange(0, 8);
        assert(eight[4] == b[4] && eight[5] == b[5] && eight[6] == b[6] && eight[7] == b[7]);
        assert(b[4] == p[0] && b[5] == p[1] && b[6] == p[2] && b[7] == p[3]);
    } else {
        assert(display_form(b) =~= p);
    }
    if is_long(p) {
        let four = p.subrange(0, 4);
        assert(four[0] == p[0] && four[1] == p[1] && four[2] == p[2] && four[3] == p[3]);
    }
    if "\\\\?\\UNC\\"@.is_prefix_of(p) {
        let four = p.subrange(0, 8);
        assert(four[0] == p[0] && four[1] == p[1] && four[2] == p[2] && four[3] == p[3]);
    }
}

} // verus!
