//! Config-backed resources. The schedule and the survival guide are stored
//! as `mode::path` strings where the mode is `file` or `url`; the core
//! resolves such a string into a locator and leaves content retrieval to the
//! transport. The module also fixes which day's safety roster is on duty:
//! before six in the morning, the previous day's.

use vstd::prelude::*;
use vstd::string::StrSliceExecFns;
use vstd::string::StringExecFns;

use crate::store::{config_lookup, Store};

verus! {

#[verifier::external_type_specification]
#[verifier::external_body]
pub struct ExUrl(url::Url);

#[verifier::external_type_specification]
#[verifier::external_body]
pub struct ExParseError(url::ParseError);

/// Whether the URL parser accepts this text. The outcome is a function of
/// the characters alone.
pub uninterp spec fn url_parse_ok(s: Seq<char>) -> bool;

/// Relies on url::Url::parse: a pure parser of its input alone, returning
/// Ok exactly where the text is a valid absolute URL.
#[verifier::external_body]
fn parse_url(s: &str) -> (r: Result<url::Url, url::ParseError>)
    ensures
        r is Ok <==> url_parse_ok(s@),
{
    url::Url::parse(s)
}

/// Where a resolved resource lives: on disk beside the process, or behind a
/// parsed URL.
pub enum Locator {
    LocalFile(String),
    Remote(url::Url),
}


/// The first mode separator at or after position `i`.
pub open spec fn first_msep_from(s: Seq<char>, i: int) -> Option<int>
    decreases s.len() - i,
{
    if i < 0 || i + 2 > s.len() {
        None
    } else if s[i] == ':' && s[i + 1] == ':' {
        Some(i)
    } else {
        first_msep_from(s, i + 1)
    }
}

/// The mode of a `mode::path` string: what stands before the first
/// separator, where one exists.
pub open spec fn mode_of(s: Seq<char>) -> Option<Seq<char>> {
    match first_msep_from(s, 0) {
        None => None,
        Some(i) => Some(s.subrange(0, i)),
    }
}

/// The path of a `mode::path` string: the segment between the first
/// separator and the next one, or everything after the first where no other
/// follows.
pub open spec fn path_of(s: Seq<char>) -> Option<Seq<char>> {
    match first_msep_from(s, 0) {
        None => None,
        Some(i) => {
            let tail = s.subrange(i + 2, s.len() as int);
            match first_msep_from(tail, 0) {
                None => Some(tail),
                Some(j) => Some(tail.subrange(0, j)),
            }
        },
    }
}

/// How a locator answers for a stored `mode::path` string: a `file` mode
/// yields the path as a local file, a `url` mode yields the parsed URL
/// exactly where the parser accepts the path, and anything else — a missing
/// separator or an unknown mode — yields nothing.
pub open spec fn locator_resolves(r: Option<Locator>, s: Seq<char>) -> bool {
    match mode_of(s) {
        None => r is None,
        Some(mode) => {
            let path = path_of(s)->Some_0;
            if mode == "file"@ {
                r matches Some(Locator::LocalFile(p)) && p@ == path
            } else if mode == "url"@ {
                if url_parse_ok(path) {
                    r matches Some(Locator::Remote(_))
                } else {
                    r is None
                }
            } else {
                r is None
            }
        },
    }
}

/// Find the first mode separator.
fn find_msep(s: &str) -> (r: Option<usize>)
    ensures
        match r {
            Some(i) => first_msep_from(s@, 0) == Some(i as int) && i + 2 <= s@.len() && s@[i as int]
                == ':' && s@[i + 1] == ':',
            None => first_msep_from(s@, 0) is None,
        },
{
    let n = s.unicode_len();
    if n < 2 {
        return None;
    }
    let end = n - 1;
    for i in 0..end
        invariant
            n == s@.len(),
            n >= 2,
            end == n - 1,
            first_msep_from(s@, 0) == first_msep_from(s@, i as int),
    {
        if s.get_char(i) == ':' && s.get_char(i + 1) == ':' {
            return Some(i);
        }
    }
    None
}

/// Resolve a stored `mode::path` string into a locator: the path as a local
/// file for the `file` mode, the parsed URL for the `url` mode. A string
/// with no separator, an unknown mode, or a path the URL parser rejects
/// resolves to nothing.
pub fn resolve_locator(value: &str) -> (r: Option<Locator>)
    ensures
        locator_resolves(r, value@),
{
    let n = value.unicode_len();
    let first = match find_msep(value) {
        None => {
            return None;
        },
        Some(i) => i,
    };
    let mode = value.substring_char(0, first);
    let tail = value.substring_char(first + 2, n);
    let path = match find_msep(tail) {
        None => tail,
        Some(j) => tail.substring_char(0, j),
    };
    let mode_name = mode.to_owned();
    let file_mode = String::from_str("file");
    let url_mode = String::from_str("url");
    if mode_name == file_mode {
        Some(Locator::LocalFile(path.to_owned()))
    } else if mode_name == url_mode {
        match parse_url(path) {
            Ok(u) => Some(Locator::Remote(u)),
            Err(_) => None,
        }
    } else {
        None
    }
}

impl Store {
    /// The schedule's locator: the `schedule_source` configuration row, or
    /// the packaged schedule image where none is stored.
    pub fn schedule_source(&self) -> (r: Option<Locator>)
        ensures
            locator_resolves(
                r,
                match config_lookup(self.config@, "schedule_source"@) {
                    Some(v) => v,
                    None => "file::assets/schedule.png"@,
                },
            ),
    {
        let name = String::from_str("schedule_source");
        let fallback = String::from_str("file::assets/schedule.png");
        let value = self.config_value(&name, fallback);
        resolve_locator(value.as_str())
    }

    /// The survival guide's locator: the `city_guide` configuration row, or
    /// the packaged guide document where none is stored.
    pub fn city_guide_source(&self) -> (r: Option<Locator>)
        ensures
            locator_resolves(
                r,
                match config_lookup(self.config@, "city_guide"@) {
                    Some(v) => v,
                    None => "file::assets/survival_guide.pdf"@,
                },
            ),
    {
        let name = String::from_str("city_guide");
        let fallback = String::from_str("file::assets/survival_guide.pdf");
        let value = self.config_value(&name, fallback);
        resolve_locator(value.as_str())
    }
}

/// Which day's safety roster is on duty at the given hour: before six in the
/// morning the previous day's roster still stands. Days count from a fixed
/// epoch; the hour is of a twenty-four hour clock.
pub fn safety_roster_day(day: i64, hour: u8) -> (r: i64)
    requires
        hour < 24,
        day > i64::MIN,
    ensures
        r == (if hour < 6 {
            day - 1
        } else {
            day as int
        }),
{
    if hour < 6 {
        day - 1
    } else {
        day
    }
}

} // verus!
