//! Reading the package manager's answer to `pm path <package>`.

use vstd::prelude::*;
use vstd::string::*;

verus! {

/// The line that names an installed package's file, its path captured.
pub const PACKAGE_LINE: &'static str = "^package:(.*)";

/// The file name that the package manager reports inside a package's directory.
pub const PACKAGE_FILE: &'static str = "base.apk";

/// The text of the first capture group of the leftmost match of `pattern` in
/// `haystack`; `None` where the pattern does not compile, does not match, or
/// its first group takes no part in the match.
pub uninterp spec fn regex_first_capture(pattern: Seq<char>, haystack: Seq<char>) -> Option<
    Seq<char>,
>;

/// Relies on regex's `Regex::new`, `Regex::captures`, `Captures::get` and
/// `Match::as_str`: the text of group 1 of the leftmost match.
#[verifier::external_body]
fn first_capture(pattern: &str, haystack: &str) -> (r: Option<String>)
    ensures
        match r {
            Some(s) => regex_first_capture(pattern@, haystack@) == Some(s@),
            None => regex_first_capture(pattern@, haystack@) is None,
        },
{
    let re = match regex::Regex::new(pattern) {
        Ok(re) => re,
        Err(_) => return None,
    };
    let caps = re.captures(haystack)?;
    let group = caps.get(1)?;
    Some(group.as_str().to_string())
}

/// A character with the Unicode `White_Space` property.
pub open spec fn is_white_space(c: char) -> bool {
    let v = c as u32;
    (9 <= v <= 13) || v == 32 || v == 0x85 || v == 0xa0 || v == 0x1680 || (0x2000 <= v <= 0x200a)
        || v == 0x2028 || v == 0x2029 || v == 0x202f || v == 0x205f || v == 0x3000
}

/// Returns whether `c` has the Unicode `White_Space` property.
pub fn white_space(c: char) -> (r: bool)
    ensures
        r == is_white_space(c),
{
    let v = c as u32;
    (9 <= v && v <= 13) || v == 32 || v == 0x85 || v == 0xa0 || v == 0x1680 || (0x2000 <= v && v
        <= 0x200a) || v == 0x2028 || v == 0x2029 || v == 0x202f || v == 0x205f || v == 0x3000
}

/// `s` without its trailing white space.
pub open spec fn trim_white_end(s: Seq<char>) -> Seq<char>
    decreases s.len(),
{
    if s.len() > 0 && is_white_space(s.last()) {
        trim_white_end(s.drop_last())
    } else {
        s
    }
}

/// `s` with every trailing repetition of `suffix` removed.
pub open spec fn strip_suffixes(s: Seq<char>, suffix: Seq<char>) -> Seq<char>
    decreases s.len(),
{
    if 0 < suffix.len() <= s.len() && s.subrange(s.len() - suffix.len(), s.len() as int)
        == suffix {
        strip_suffixes(s.subrange(0, s.len() - suffix.len()), suffix)
    } else {
        s
    }
}

/// The directory that a captured package line names: trailing white space
/// and the package file name taken off.
pub open spec fn package_dir_of(captured: Seq<char>) -> Seq<char> {
    strip_suffixes(trim_white_end(captured), PACKAGE_FILE@)
}

/// The installed path given by a captured package line; none where nothing
/// was captured or nothing is left of it.
pub open spec fn resolved_path_of(captured: Option<Seq<char>>) -> Option<Seq<char>> {
    match captured {
        Some(c) => if package_dir_of(c).len() > 0 {
            Some(package_dir_of(c))
        } else {
            None
        },
        None => None,
    }
}

/// The view of an optional string.
pub open spec fn opt_view(o: Option<String>) -> Option<Seq<char>> {
    match o {
        Some(s) => Some(s@),
        None => None,
    }
}

/// The end of `s.subrange(0, end)` once trailing white space is taken off.
fn white_end(s: &str, end: usize) -> (r: usize)
    requires
        end <= s@.len(),
    ensures
        r <= end,
        s@.subrange(0, r as int) == trim_white_end(s@.subrange(0, end as int)),
{
    let mut e = end;
    while e > 0 && white_space(s.get_char(e - 1))
        invariant
            e <= end <= s@.len(),
            trim_white_end(s@.subrange(0, e as int)) == trim_white_end(s@.subrange(0, end as int)),
        decreases e,
    {
        assert(s@.subrange(0, e as int).drop_last() =~= s@.subrange(0, e - 1));
        e = e - 1;
    }
    e
}

/// Whether `s.subrange(0, end)` ends with `suffix`.
fn ends_with_at(s: &str, end: usize, suffix: &str) -> (r: bool)
    requires
        end <= s@.len(),
    ensures
        r == (suffix@.len() <= end && s@.subrange(end - suffix@.len(), end as int) == suffix@),
{
    let k = suffix.unicode_len();
    if k > end {
        return false;
    }
    let mut m: usize = 0;
    while m < k
        invariant
            k == suffix@.len(),
            k <= end <= s@.len(),
            m <= k,
            forall|j: int| 0 <= j < m ==> s@[end - k + j] == suffix@[j],
        decreases k - m,
    {
        if s.get_char(end - k + m) != suffix.get_char(m) {
            assert(s@.subrange(end - k, end as int)[m as int] != suffix@[m as int]);
            return false;
        }
        m = m + 1;
    }
    assert(s@.subrange(end - k, end as int) =~= suffix@);
    true
}

/// The directory named by a captured package line: trailing white space and
/// trailing package file names taken off.
pub fn package_dir(captured: &str) -> (r: String)
    ensures
        r@ == package_dir_of(captured@),
{
    let t = white_end(captured, captured.unicode_len());
    assert(captured@.subrange(0, captured@.len() as int) =~= captured@);
    let k = PACKAGE_FILE.unicode_len();
    let ghost trimmed = captured@.subrange(0, t as int);
    let mut e = t;
    while k > 0 && ends_with_at(captured, e, PACKAGE_FILE)
        invariant
            e <= t <= captured@.len(),
            k == PACKAGE_FILE@.len(),
            trimmed == captured@.subrange(0, t as int),
            strip_suffixes(captured@.subrange(0, e as int), PACKAGE_FILE@) == strip_suffixes(
                trimmed,
                PACKAGE_FILE@,
            ),
        decreases e,
    {
        assert(captured@.subrange(0, e as int).subrange(0, e - k) =~= captured@.subrange(
            0,
            e - k,
        ));
        assert(captured@.subrange(0, e as int).subrange(e - k, e as int) =~= captured@.subrange(
            e - k,
            e as int,
        ));
        e = e - k;
    }
    proof {
        if k > 0 && k <= e {
            assert(captured@.subrange(0, e as int).subrange(e - k, e as int) =~= captured@.subrange(
                e - k,
                e as int,
            ));
        }
        let sub = captured@.subrange(0, e as int);
        assert(strip_suffixes(sub, PACKAGE_FILE@) == sub);
    }
    String::from_str(captured.substring_char(0, e))
}

/// The installed path given by what the package line captured, if anything.
pub fn package_path_from_capture(captured: Option<String>) -> (r: Option<String>)
    ensures
        opt_view(r) == resolved_path_of(opt_view(captured)),
{
    match captured {
        Some(c) => {
            let dir = package_dir(c.as_str());
            if dir.unicode_len() > 0 {
                Some(dir)
            } else {
                None
            }
        },
        None => None,
    }
}

/// Reads the output of `pm path <package>`: the installed directory of the
/// package, or `None` where the package is not installed.
pub fn parse_package_path(output: &str) -> (r: Option<String>)
    ensures
        opt_view(r) == resolved_path_of(regex_first_capture(PACKAGE_LINE@, output@)),
{
    let captured = first_capture(PACKAGE_LINE, output);
    package_path_from_capture(captured)
}

} // verus!
