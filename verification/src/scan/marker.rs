//! The marker matcher: builds one pattern from the configured marker
//! prefixes and extracts the identifiers it matches from a text.

use crate::scan::error::ScanError;
use crate::text::{join, string_views};
use vstd::prelude::*;
use vstd::string::StringExecFns;

verus! {

/// Trusted: `regex::Regex`, a compiled pattern, carried as an opaque value.
#[verifier::external_type_specification]
#[verifier::external_body]
pub struct ExRegex(regex::Regex);

/// Trusted: `regex::Error`, carried as an opaque value.
#[verifier::external_type_specification]
#[verifier::external_body]
pub struct ExRegexError(regex::Error);

/// Whether the pattern compiler accepts `pattern`.
pub uninterp spec fn regex_accepts(pattern: Seq<char>) -> bool;

/// The successive non-overlapping matches of `pattern` in `text`, in order,
/// each as the text it covers.
pub uninterp spec fn regex_matches(pattern: Seq<char>, text: Seq<char>) -> Seq<Seq<char>>;

/// Whether `c` has a special meaning in a pattern.
pub open spec fn is_meta(c: char) -> bool {
    ||| c == '\\'
    ||| c == '.'
    ||| c == '+'
    ||| c == '*'
    ||| c == '?'
    ||| c == '('
    ||| c == ')'
    ||| c == '|'
    ||| c == '['
    ||| c == ']'
    ||| c == '{'
    ||| c == '}'
    ||| c == '^'
    ||| c == '$'
    ||| c == '#'
    ||| c == '&'
    ||| c == '-'
    ||| c == '~'
}

/// `s` with a backslash before each character that has a special meaning,
/// so that the result matches `s` literally.
pub open spec fn escaped(s: Seq<char>) -> Seq<char>
    decreases s.len(),
{
    if s.len() == 0 {
        Seq::empty()
    } else if is_meta(s.last()) {
        escaped(s.drop_last()).push('\\').push(s.last())
    } else {
        escaped(s.drop_last()).push(s.last())
    }
}

/// The alternatives of the pattern: each marker prefix, escaped.
pub open spec fn alternatives(markers: Seq<Seq<char>>) -> Seq<Seq<char>> {
    markers.map_values(|m: Seq<char>| escaped(m))
}

/// The source of the pattern for a set of marker prefixes: any one of the
/// prefixes, taken literally, then a hyphen and one or more digits.
pub open spec fn pattern_source(markers: Seq<Seq<char>>) -> Seq<char> {
    "(?:"@ + join(alternatives(markers), "|"@) + ")-\\d+"@
}

/// A compiled marker pattern together with the source it was compiled
/// from.
pub struct MarkerPattern {
    source: String,
    regex: regex::Regex,
}

impl View for MarkerPattern {
    type V = Seq<char>;

    closed spec fn view(&self) -> Seq<char> {
        self.source@
    }
}

/// Escapes a marker prefix for literal use in a pattern.
///
/// Trusted: `regex::escape`, which copies its argument and puts a backslash
/// before each of the meta characters listed in [`is_meta`].
#[verifier::external_body]
fn escape(marker: &str) -> (r: String)
    ensures
        r@ == escaped(marker@),
{
    regex::escape(marker)
}

/// Compiles a pattern.
///
/// Trusted: `regex::Regex::new`. Whether it accepts a source is a function
/// of the source alone; the compiled pattern is kept with its source.
#[verifier::external_body]
fn compile(source: String) -> (r: Result<MarkerPattern, regex::Error>)
    ensures
        r is Ok == regex_accepts(source@),
        r matches Ok(p) ==> p@ == source@,
{
    match regex::Regex::new(&source) {
        Ok(regex) => Ok(MarkerPattern { source, regex }),
        Err(e) => Err(e),
    }
}

/// The text of every match of `pattern` in `text`.
///
/// Trusted: `regex::Regex::find_iter` and `regex::Match::as_str`. The
/// matches are those of the pattern compiled from `pattern`'s source.
#[verifier::external_body]
fn find_all(pattern: &MarkerPattern, text: &str) -> (r: Vec<String>)
    ensures
        string_views(r@) == regex_matches(pattern@, text@),
{
    pattern.regex.find_iter(text).map(|m| m.as_str().to_string()).collect()
}

/// The message of a pattern error.
///
/// Trusted: the `Display` text of `regex::Error`; nothing is claimed of it.
#[verifier::external_body]
fn error_message(e: &regex::Error) -> String {
    e.to_string()
}

/// Builds the pattern for a set of marker prefixes.
///
/// An empty set is refused. Otherwise the result is whatever the pattern
/// compiler makes of [`pattern_source`]: the compiled pattern, or
/// `InvalidPattern` with the compiler's message.
pub fn compile_markers(markers: &Vec<String>) -> (r: Result<MarkerPattern, ScanError>)
    ensures
        markers.len() == 0 ==> r matches Err(ScanError::NoMarkers),
        markers.len() > 0 ==> match r {
            Ok(p) => regex_accepts(pattern_source(string_views(markers@))) && p@ == pattern_source(
                string_views(markers@),
            ),
            Err(e) => !regex_accepts(pattern_source(string_views(markers@)))
                && e is InvalidPattern,
        },
{
    if markers.len() == 0 {
        return Err(ScanError::NoMarkers);
    }
    let ghost alts = alternatives(string_views(markers@));
    let mut source = "(?:".to_owned();
    let mut i: usize = 0;
    assert(alts.take(0) == Seq::<Seq<char>>::empty());
    assert(source@ == "(?:"@ + join(alts.take(0), "|"@));
    while i < markers.len()
        invariant
            i <= markers.len(),
            alts == alternatives(string_views(markers@)),
            source@ == "(?:"@ + join(alts.take(i as int), "|"@),
        decreases markers.len() - i,
    {
        if i > 0 {
            source.append("|");
        }
        let part = escape(markers[i].as_str());
        source.append(part.as_str());
        assert(alts.take(i as int + 1).drop_last() == alts.take(i as int));
        assert(alts.take(i as int + 1).last() == part@);
        assert(source@ == "(?:"@ + join(alts.take(i as int + 1), "|"@));
        i = i + 1;
    }
    assert(alts.take(markers.len() as int) == alts);
    source.append(")-\\d+");
    match compile(source) {
        Ok(pattern) => Ok(pattern),
        Err(e) => Err(ScanError::InvalidPattern { message: error_message(&e) }),
    }
}

/// The identifiers that `pattern` matches in `text`, in order of
/// occurrence. Matches do not overlap. An identifier is kept as it stands
/// in the text: its digits are not read as a number.
pub fn find_slugs(pattern: &MarkerPattern, text: &str) -> (r: Vec<String>)
    ensures
        string_views(r@) == regex_matches(pattern@, text@),
{
    find_all(pattern, text)
}

} // verus!
