//! Version strings in the `semver.org` notation.
//!
//! Accepted forms are `X.Y.Z`, `X.Y` (read as `X.Y.0`), `X.Y.Z-PRE` and
//! `X.Y-PRE` (read as `X.Y.0-PRE`), where `X`, `Y`, `Z` are runs of decimal
//! digits; the pre-release part runs to the end of the line. The normalized
//! text is then parsed by the `semver` crate.

use vstd::prelude::*;
use crate::patch::{chars_of, extend, replace_all, replace_chars, string_of};

verus! {

/// A version: major, minor and patch numbers, pre-release and build metadata.
#[derive(Debug, Clone, PartialEq, Eq)]
pub struct Version {
    pub major: u64,
    pub minor: u64,
    pub patch: u64,
    pub pre: String,
    pub build: String,
}

/// A version as plain values.
pub type VersionView = (u64, u64, u64, Seq<char>, Seq<char>);

impl View for Version {
    type V = VersionView;

    open spec fn view(&self) -> VersionView {
        (self.major, self.minor, self.patch, self.pre@, self.build@)
    }
}

impl Version {
    /// The version `major.minor.patch`, without pre-release or build metadata.
    pub fn new(major: u64, minor: u64, patch: u64) -> (r: Version)
        ensures
            r@ == (major, minor, patch, Seq::<char>::empty(), Seq::<char>::empty()),
    {
        Version { major, minor, patch, pre: String::new(), build: String::new() }
    }
}

/// Why a version string was not read.
#[derive(Debug, Clone, Copy, PartialEq, Eq, Structural)]
pub enum VersionError {
    /// The text has none of the accepted forms, or the pattern captured no version.
    NoMatch,
    /// The normalized text is not a valid semantic version.
    Invalid,
    /// The capture pattern is not a valid regular expression.
    Pattern,
}

/// The version that `semver::Version::parse` reads from `text`, if any.
pub uninterp spec fn semver_of(text: Seq<char>) -> Option<VersionView>;

#[verifier::external_type_specification]
#[verifier::external_body]
pub struct ExSemverError(semver::Error);

/// Relies on `semver::Version::parse`: the version written in `text`, with
/// its pre-release and build metadata as text.
#[verifier::external_body]
fn parse_semver(text: &str) -> (r: Result<Version, semver::Error>)
    ensures
        match r {
            Ok(v) => semver_of(text@) == Some(v@),
            Err(_) => semver_of(text@) is None,
        },
{
    semver::Version::parse(text).map(|v| Version {
        major: v.major,
        minor: v.minor,
        patch: v.patch,
        pre: v.pre.as_str().to_string(),
        build: v.build.as_str().to_string(),
    })
}

/// What the regular expression `pattern` captures in `text`: `None` where the
/// pattern is invalid, `Some(None)` where it does not match, else the text of
/// each group (group 0 being the whole match).
pub uninterp spec fn regex_groups_of(pattern: Seq<char>, text: Seq<char>) -> Option<
    Option<Seq<Option<Seq<char>>>>,
>;

#[verifier::external_type_specification]
#[verifier::external_body]
pub struct ExRegexError(regex::Error);

/// Relies on `regex::Regex::new` and `regex::Regex::captures`: the groups of
/// the leftmost match of `pattern` in `text`.
#[verifier::external_body]
fn capture_groups(pattern: &str, text: &str) -> (r: Result<
    Option<Vec<Option<String>>>,
    regex::Error,
>)
    ensures
        match r {
            Ok(None) => regex_groups_of(pattern@, text@) == Some(None::<Seq<Option<Seq<char>>>>),
            Ok(Some(g)) => regex_groups_of(pattern@, text@) == Some(
                Some(g@.map_values(|x: Option<String>| opt_string_view(x))),
            ),
            Err(_) => regex_groups_of(pattern@, text@) is None,
        },
{
    let re = regex::Regex::new(pattern)?;
    Ok(re.captures(text).map(|c| c.iter().map(|m| m.map(|m| m.as_str().to_string())).collect()))
}

/// The view of an optional string.
pub open spec fn opt_string_view(o: Option<String>) -> Option<Seq<char>> {
    match o {
        Some(s) => Some(s@),
        None => None,
    }
}

pub open spec fn is_digit(c: char) -> bool {
    '0' <= c <= '9'
}

/// The end of the run of digits that starts at `i`.
pub open spec fn digit_end(s: Seq<char>, i: int) -> int
    decreases s.len() - i,
{
    if 0 <= i < s.len() && is_digit(s[i]) {
        digit_end(s, i + 1)
    } else {
        i
    }
}

/// The index of the first line break at or after `i`, or the length.
pub open spec fn line_end(s: Seq<char>, i: int) -> int
    decreases s.len() - i,
{
    if 0 <= i < s.len() && s[i] != '\n' {
        line_end(s, i + 1)
    } else {
        i
    }
}

/// The full version text that `s` stands for, where it has an accepted form.
pub open spec fn version_text(s: Seq<char>) -> Option<Seq<char>> {
    let e1 = digit_end(s, 0);
    if e1 == 0 || e1 >= s.len() || s[e1] != '.' {
        None
    } else {
        let e2 = digit_end(s, e1 + 1);
        if e2 == e1 + 1 {
            None
        } else if e2 == s.len() {
            Some(s + seq!['.', '0'])
        } else if s[e2] == '.' {
            let e3 = digit_end(s, e2 + 1);
            if e3 == e2 + 1 {
                None
            } else if e3 == s.len() {
                Some(s)
            } else if s[e3] == '-' {
                Some(s.subrange(0, line_end(s, e3 + 1)))
            } else {
                None
            }
        } else if s[e2] == '-' {
            Some(s.subrange(0, e2) + seq!['.', '0', '-'] + s.subrange(e2 + 1, line_end(s, e2 + 1)))
        } else {
            None
        }
    }
}

/// What reading `s` as a version gives.
pub open spec fn parse_result(s: Seq<char>) -> Result<VersionView, VersionError> {
    match version_text(s) {
        None => Err(VersionError::NoMatch),
        Some(t) => match semver_of(t) {
            None => Err(VersionError::Invalid),
            Some(v) => Ok(v),
        },
    }
}

proof fn lemma_digit_end_bounds(s: Seq<char>, i: int)
    requires
        0 <= i <= s.len(),
    ensures
        i <= digit_end(s, i) <= s.len(),
        forall|j: int| i <= j < digit_end(s, i) ==> is_digit(#[trigger] s[j]),
        digit_end(s, i) < s.len() ==> !is_digit(s[digit_end(s, i)]),
    decreases s.len() - i,
{
    if i < s.len() && is_digit(s[i]) {
        lemma_digit_end_bounds(s, i + 1);
    }
}

proof fn lemma_line_end_bounds(s: Seq<char>, i: int)
    requires
        0 <= i <= s.len(),
    ensures
        i <= line_end(s, i) <= s.len(),
    decreases s.len() - i,
{
    if i < s.len() && s[i] != '\n' {
        lemma_line_end_bounds(s, i + 1);
    }
}

fn digit_end_exec(s: &Vec<char>, i: usize) -> (r: usize)
    requires
        i <= s@.len(),
    ensures
        r == digit_end(s@, i as int),
        i <= r <= s@.len(),
{
    proof {
        lemma_digit_end_bounds(s@, i as int);
    }
    let mut j = i;
    while j < s.len() && '0' <= s[j] && s[j] <= '9'
        invariant
            i <= j <= s@.len(),
            digit_end(s@, j as int) == digit_end(s@, i as int),
        decreases s@.len() - j,
    {
        j = j + 1;
    }
    j
}

fn line_end_exec(s: &Vec<char>, i: usize) -> (r: usize)
    requires
        i <= s@.len(),
    ensures
        r == line_end(s@, i as int),
        i <= r <= s@.len(),
{
    proof {
        lemma_line_end_bounds(s@, i as int);
    }
    let mut j = i;
    while j < s.len() && s[j] != '\n'
        invariant
            i <= j <= s@.len(),
            line_end(s@, j as int) == line_end(s@, i as int),
        decreases s@.len() - j,
    {
        j = j + 1;
    }
    j
}

/// Characters `from..to` of `s`.
fn slice_chars(s: &Vec<char>, from: usize, to: usize) -> (r: Vec<char>)
    requires
        from <= to <= s@.len(),
    ensures
        r@ == s@.subrange(from as int, to as int),
{
    let mut out: Vec<char> = Vec::new();
    let mut i = from;
    while i < to
        invariant
            from <= i <= to <= s@.len(),
            out@ == s@.subrange(from as int, i as int),
        decreases to - i,
    {
        out.push(s[i]);
        i = i + 1;
        assert(out@ =~= s@.subrange(from as int, i as int));
    }
    out
}

/// The full version text that `s` stands for: `X.Y.Z` as it is, `X.Y` as
/// `X.Y.0`, `X.Y.Z-PRE` and `X.Y-PRE` (as `X.Y.0-PRE`) up to the end of the
/// line; `None` for any other form.
pub fn normalize_version(s: &str) -> (r: Option<String>)
    ensures
        match r {
            Some(t) => version_text(s@) == Some(t@),
            None => version_text(s@) is None,
        },
{
    let c = chars_of(s);
    let n = c.len();
    let e1 = digit_end_exec(&c, 0);
    if e1 == 0 || e1 >= n || c[e1] != '.' {
        return None;
    }
    let e2 = digit_end_exec(&c, e1 + 1);
    if e2 == e1 + 1 {
        return None;
    }
    if e2 == n {
        let mut t = slice_chars(&c, 0, n);
        t.push('.');
        t.push('0');
        assert(c@.subrange(0, n as int) =~= c@);
        assert(t@ =~= s@ + seq!['.', '0']);
        return Some(string_of(&t));
    }
    if c[e2] == '.' {
        let e3 = digit_end_exec(&c, e2 + 1);
        if e3 == e2 + 1 {
            return None;
        }
        if e3 == n {
            assert(c@ == s@);
            return Some(string_of(&c));
        }
        if c[e3] == '-' {
            let end = line_end_exec(&c, e3 + 1);
            let t = slice_chars(&c, 0, end);
            return Some(string_of(&t));
        }
        return None;
    }
    if c[e2] == '-' {
        let end = line_end_exec(&c, e2 + 1);
        let mut t = slice_chars(&c, 0, e2);
        t.push('.');
        t.push('0');
        t.push('-');
        let rest = slice_chars(&c, e2 + 1, end);
        extend(&mut t, &rest);
        assert(t@ =~= s@.subrange(0, e2 as int) + seq!['.', '0', '-'] + s@.subrange(
            e2 + 1,
            end as int,
        ));
        return Some(string_of(&t));
    }
    None
}

/// Reads a version from `str` (see `normalize_version` for the accepted forms).
pub fn semver_parse(str: &str) -> (r: Result<Version, VersionError>)
    ensures
        match r {
            Ok(v) => parse_result(str@) == Ok::<VersionView, VersionError>(v@),
            Err(e) => parse_result(str@) == Err::<VersionView, VersionError>(e),
        },
{
    match normalize_version(str) {
        None => Err(VersionError::NoMatch),
        Some(t) => match parse_semver(t.as_str()) {
            Ok(v) => Ok(v),
            Err(_) => Err(VersionError::Invalid),
        },
    }
}

/// Reads a version from `str`, or 0.0.0 where it cannot be read.
pub fn semver_parse_or_default(str: &str) -> (r: Version)
    ensures
        match parse_result(str@) {
            Ok(v) => r@ == v,
            Err(_) => r@ == (0u64, 0u64, 0u64, Seq::<char>::empty(), Seq::<char>::empty()),
        },
{
    match semver_parse(str) {
        Ok(v) => v,
        Err(_) => Version::new(0, 0, 0),
    }
}

/// The version text in the capture groups of a match: group 1, with each
/// `delimiter` replaced by a dot. There must be exactly one group besides the
/// whole match, and it must have matched.
pub fn version_capture(groups: &Vec<Option<String>>, delimiter: &str) -> (r: Result<
    String,
    VersionError,
>)
    ensures
        ({
            let g = groups@.map_values(|x: Option<String>| opt_string_view(x));
            match r {
                Ok(t) => g.len() == 2 && g[1] is Some && t@ == replace_all(
                    g[1]->Some_0,
                    delimiter@,
                    seq!['.'],
                ),
                Err(e) => e == VersionError::NoMatch && (g.len() != 2 || g[1] is None),
            }
        }),
{
    if groups.len() != 2 {
        return Err(VersionError::NoMatch);
    }
    match &groups[1] {
        None => Err(VersionError::NoMatch),
        Some(cap) => {
            let c = chars_of(cap.as_str());
            let d = chars_of(delimiter);
            let mut dot: Vec<char> = Vec::new();
            dot.push('.');
            let t = replace_chars(&c, &d, &dot);
            assert(dot@ =~= seq!['.']);
            Ok(string_of(&t))
        },
    }
}

/// Reads a version from what the first group of the regular expression
/// `pattern` captures in `str`, with each `delimiter` replaced by a dot
/// (pattern `fw_v_(.*).hex` and delimiter `_` read `fw_v_0_9.hex` as 0.9.0).
pub fn semver_parse_regex(str: &str, pattern: &str, delimiter: &str) -> (r: Result<
    Version,
    VersionError,
>)
    ensures
        match regex_groups_of(pattern@, str@) {
            None => r == Err::<Version, VersionError>(VersionError::Pattern),
            Some(None) => r == Err::<Version, VersionError>(VersionError::NoMatch),
            Some(Some(g)) => if g.len() == 2 && g[1] is Some {
                match r {
                    Ok(v) => parse_result(replace_all(g[1]->Some_0, delimiter@, seq!['.']))
                        == Ok::<VersionView, VersionError>(v@),
                    Err(e) => parse_result(replace_all(g[1]->Some_0, delimiter@, seq!['.']))
                        == Err::<VersionView, VersionError>(e),
                }
            } else {
                r == Err::<Version, VersionError>(VersionError::NoMatch)
            },
        },
{
    match capture_groups(pattern, str) {
        Err(_) => Err(VersionError::Pattern),
        Ok(None) => Err(VersionError::NoMatch),
        Ok(Some(groups)) => {
            let t = version_capture(&groups, delimiter)?;
            semver_parse(t.as_str())
        },
    }
}

} // verus!
