//! What the library takes from other crates and from `std` without proof.

use toml::de::Error as DeError;
use toml::ser::Error as SerError;
use vstd::prelude::*;

verus! {

/// What `shell_words::split` makes of `line`: its words, or `None` where a quote is left open.
pub uninterp spec fn shell_words_of(line: Seq<char>) -> Option<Seq<Seq<char>>>;

/// Calls `shell_words::split`.
///
/// Trusted: the words depend on `line` alone, and are what [`shell_words_of`] stands for; an
/// error comes back as `None`. Nothing more is said of the words.
#[verifier::external_body]
pub(crate) fn shell_split(line: &str) -> (r: Option<Vec<String>>)
    ensures
        r.deep_view() == shell_words_of(line@),
{
    match shell_words::split(line) {
        Ok(words) => Some(words),
        Err(_) => None,
    }
}

/// Whether `regex::Regex::is_match` finds `pattern` in `text`; `None` where
/// `regex::Regex::new` does not accept `pattern`.
pub uninterp spec fn regex_match(pattern: Seq<char>, text: Seq<char>) -> Option<bool>;

/// Compiles `pattern` with `regex::Regex::new` and asks `regex::Regex::is_match` about `text`.
///
/// Trusted: the answer depends on the two texts alone, and is what [`regex_match`] stands for.
/// Nothing is said of which patterns are accepted or of what they match. The crate refuses a
/// pattern whose compiled form takes too much memory; for one right at that limit, which machines
/// accept it depends on the size of their pointers, and no two calls in one program differ.
#[verifier::external_body]
pub(crate) fn regex_search(pattern: &str, text: &str) -> (r: Option<bool>)
    ensures
        r == regex_match(pattern@, text@),
{
    match regex::Regex::new(pattern) {
        Ok(re) => Some(re.is_match(text)),
        Err(_) => None,
    }
}

/// Asks `std::path::is_separator` whether this platform takes a backslash for a separator.
///
/// Nothing is said of the answer: it depends on the platform.
#[verifier::external_body]
fn backslash_separates() -> bool {
    std::path::is_separator('\\')
}

/// The platform that the program runs on, as far as paths go.
///
/// There is one way to come by it, which is to ask the platform: so what it says is so.
#[derive(Debug, Clone, Copy)]
pub struct Platform {
    backslash: bool,
}

impl Platform {
    /// Whether a backslash separates path components as a slash does, as on Windows.
    pub closed spec fn windows(&self) -> bool {
        self.backslash
    }

    /// The platform that the program runs on.
    pub fn here() -> Platform {
        Platform { backslash: backslash_separates() }
    }
}

/// Whether `glob::Pattern::matches` holds of `pattern` and `path`; `None` where
/// `glob::Pattern::new` does not accept `pattern`. `windows` tells whether that is on Windows,
/// where a backslash separates path components as a slash does, or on a platform where only a
/// slash does.
pub uninterp spec fn glob_match(pattern: Seq<char>, path: Seq<char>, windows: bool) -> Option<bool>;

/// Whether `s` holds two asterisks side by side.
pub open spec fn has_double_star(s: Seq<char>) -> bool {
    exists|i: int| 0 <= i < s.len() - 1 && #[trigger] s[i] == '*' && s[i + 1] == '*'
}

/// Whether no separator in `pattern` or in `path` is taken differently on Windows: there is no
/// backslash, or `pattern` has no `**` and a slash in the one never meets a backslash in the
/// other.
pub open spec fn same_everywhere(pattern: Seq<char>, path: Seq<char>) -> bool {
    ||| !pattern.contains('\\') && !path.contains('\\')
    ||| {
        &&& !has_double_star(pattern)
        &&& !(pattern.contains('/') && path.contains('\\'))
        &&& !(pattern.contains('\\') && path.contains('/'))
    }
}

/// Compiles `pattern` with `glob::Pattern::new` and asks `glob::Pattern::matches` about `path`.
///
/// Trusted: the answer depends on the two texts and on whether the platform takes a backslash for
/// a separator: it is what [`glob_match`] stands for on the platform that the program runs on,
/// which `platform` is. A separator matters to the crate in two places: a `**` must stand between
/// separators and matches up to one, and on Windows a slash and a backslash match each other.
/// Where neither comes into play, the answer is that of either platform.
#[verifier::external_body]
pub(crate) fn glob_search(platform: &Platform, pattern: &str, path: &str) -> (r: Option<bool>)
    ensures
        r == glob_match(pattern@, path@, platform.windows()),
        same_everywhere(pattern@, path@) ==> r == glob_match(pattern@, path@, false) && r
            == glob_match(pattern@, path@, true),
{
    match glob::Pattern::new(pattern) {
        Ok(p) => Some(p.matches(path)),
        Err(_) => None,
    }
}

/// Why `toml::from_str` does not accept `content` as a `toml::Value`, in the words of its error;
/// `None` where it does.
pub uninterp spec fn toml_fault(content: Seq<char>) -> Option<Seq<char>>;

/// Parses `content` with `toml::from_str` as a `toml::Value` and drops the value.
///
/// Trusted: whether it parses, and the text of the error where it does not, depend on `content`
/// alone, and are what [`toml_fault`] stands for.
#[verifier::external_body]
pub(crate) fn toml_check(content: &str) -> (r: Option<String>)
    ensures
        r.deep_view() == toml_fault(content@),
{
    match toml::from_str::<toml::Value>(content) {
        Ok(_) => None,
        Err(e) => Some(e.to_string()),
    }
}

/// Asks `std::time::SystemTime::elapsed` how many whole seconds have passed since the Unix
/// epoch; `None` where the clock stands before it.
///
/// Nothing is said of the answer: it depends on the time.
#[verifier::external_body]
pub(crate) fn unix_seconds() -> Option<u64> {
    match std::time::UNIX_EPOCH.elapsed() {
        Ok(since) => Some(since.as_secs()),
        Err(_) => None,
    }
}

/// What the clock showed when it was asked.
///
/// There is one way to come by it, which is to ask the clock: so a time that is said to be of a
/// reading was read, and not made up.
#[derive(Debug, Clone, Copy)]
pub struct Reading {
    shown: Option<u64>,
}

impl Reading {
    /// The seconds since the Unix epoch; `None` where the clock stood before it.
    pub closed spec fn shown(&self) -> Option<u64> {
        self.shown
    }

    /// What the clock shows now.
    pub fn now() -> Reading {
        Reading { shown: unix_seconds() }
    }

    /// The seconds since the Unix epoch; `None` where the clock stood before it.
    pub fn seconds(&self) -> (r: Option<u64>)
        ensures
            r == self.shown(),
    {
        self.shown
    }
}

/// `std::path::PathBuf`, carried as it is.
#[verifier::external_type_specification]
#[verifier::external_body]
pub struct ExPathBuf(std::path::PathBuf);

/// `<std::path::PathBuf as Clone>::clone` returns the same path.
pub assume_specification[ <std::path::PathBuf as Clone>::clone ](path: &std::path::PathBuf) -> (r:
    std::path::PathBuf)
    ensures
        r == *path,
;

/// `std::io::Error`, carried as it is.
#[verifier::external_type_specification]
#[verifier::external_body]
pub struct ExIoError(std::io::Error);

/// `toml::ser::Error`, carried as it is.
#[verifier::external_type_specification]
#[verifier::external_body]
pub struct ExTomlSerError(SerError);

/// `toml::de::Error`, carried as it is.
#[verifier::external_type_specification]
#[verifier::external_body]
pub struct ExTomlDeError(DeError);

} // verus!
