//! The file filter: which of the files found under the scan root are left
//! out of a scan.

pub mod args;
pub mod error;

pub use args::FilterArgs;
pub use error::FilterError;

use crate::path::{below_root, strip_root};
use crate::text::{
    chars_of, contains, contains_chars, fields, lines, option_view, split_fields, split_lines,
    string_of, string_views, trim, trim_chars, views,
};
use vstd::prelude::*;

verus! {

/// Trusted: `glob::Pattern`, a compiled glob, carried as an opaque value.
#[verifier::external_type_specification]
#[verifier::external_body]
pub struct ExGlobPattern(glob::Pattern);

/// Trusted: `glob::PatternError`, carried as an opaque value.
#[verifier::external_type_specification]
#[verifier::external_body]
pub struct ExGlobPatternError(glob::PatternError);

/// Whether `pattern` is a valid glob.
pub uninterp spec fn glob_accepts(pattern: Seq<char>) -> bool;

/// Whether the glob `pattern` matches `path`.
pub uninterp spec fn glob_matches(pattern: Seq<char>, path: Seq<char>) -> bool;

/// A compiled glob together with the source it was compiled from.
#[derive(Debug)]
pub struct PathPattern {
    source: String,
    pattern: glob::Pattern,
}

impl View for PathPattern {
    type V = Seq<char>;

    /// The source of the glob.
    closed spec fn view(&self) -> Seq<char> {
        self.source@
    }
}

/// The views of a list of patterns.
pub open spec fn pattern_views(patterns: Seq<PathPattern>) -> Seq<Seq<char>> {
    Seq::new(patterns.len(), |i: int| patterns[i]@)
}

/// Compiles a glob.
///
/// Trusted: `glob::Pattern::new`. Whether it accepts a source is a function
/// of the source alone; the compiled glob is kept with its source.
#[verifier::external_body]
fn compile(source: String) -> (r: Result<PathPattern, glob::PatternError>)
    ensures
        r is Ok == glob_accepts(source@),
        r matches Ok(p) ==> p@ == source@,
{
    match glob::Pattern::new(&source) {
        Ok(pattern) => Ok(PathPattern { source, pattern }),
        Err(e) => Err(e),
    }
}

/// Whether a glob matches a path.
///
/// Trusted: `glob::Pattern::matches`, for the glob compiled from the
/// pattern's source.
#[verifier::external_body]
fn glob_match(pattern: &PathPattern, path: &str) -> (r: bool)
    ensures
        r == glob_matches(pattern@, path@),
{
    pattern.pattern.matches(path)
}

/// The message of a glob error.
///
/// Trusted: the `Display` text of `glob::PatternError`; nothing is claimed
/// of it.
#[verifier::external_body]
fn error_message(e: &glob::PatternError) -> String {
    e.to_string()
}

impl PathPattern {
    /// Compiles the glob `source`, or returns `None` when it is no valid
    /// glob.
    pub fn new(source: &str) -> (r: Option<PathPattern>)
        ensures
            match r {
                Some(p) => glob_accepts(source@) && p@ == source@,
                None => !glob_accepts(source@),
            },
    {
        match compile(source.to_owned()) {
            Ok(p) => Some(p),
            Err(_) => None,
        }
    }

    /// Whether the glob matches `path`.
    pub fn matches(&self, path: &str) -> (r: bool)
        ensures
            r == glob_matches(self@, path@),
    {
        glob_match(self, path)
    }

    /// The source of the glob.
    pub fn source(&self) -> (r: &str)
        ensures
            r@ == self@,
    {
        self.source.as_str()
    }
}

/// Whether one of `patterns` matches `path`.
pub open spec fn any_matches(patterns: Seq<Seq<char>>, path: Seq<char>) -> bool {
    exists|i: int| 0 <= i < patterns.len() && glob_matches(#[trigger] patterns[i], path)
}

/// Whether one of `patterns` matches `path`.
pub fn matches_any(patterns: &Vec<PathPattern>, path: &str) -> (r: bool)
    ensures
        r == any_matches(pattern_views(patterns@), path@),
{
    let mut i: usize = 0;
    while i < patterns.len()
        invariant
            i <= patterns.len(),
            forall|k: int|
                0 <= k < i ==> !glob_matches(#[trigger] pattern_views(patterns@)[k], path@),
        decreases patterns.len() - i,
    {
        if patterns[i].matches(path) {
            assert(glob_matches(pattern_views(patterns@)[i as int], path@));
            return true;
        }
        i = i + 1;
    }
    false
}

/// The globs that mark files as vendored and as generated.
#[derive(Debug)]
pub struct Excludes {
    pub vendored: Vec<PathPattern>,
    pub generated: Vec<PathPattern>,
}

/// The glob that an attribute line opens with, if the line sets
/// attributes: the first field of a line that is neither blank nor a
/// comment, provided it is a valid glob.
pub open spec fn line_pattern(line: Seq<char>) -> Option<Seq<char>> {
    let t = trim(line);
    if t.len() == 0 || t[0] == '#' || fields(t).len() == 0 || !glob_accepts(fields(t)[0]) {
        None
    } else {
        Some(fields(t)[0])
    }
}

/// The globs of the attribute lines that carry the attribute `mark`, in the
/// order of the lines.
pub open spec fn marked_patterns(input: Seq<Seq<char>>, mark: Seq<char>) -> Seq<Seq<char>>
    decreases input.len(),
{
    if input.len() == 0 {
        Seq::empty()
    } else {
        let front = marked_patterns(input.drop_last(), mark);
        match line_pattern(input.last()) {
            Some(p) => if contains(trim(input.last()), mark) {
                front.push(p)
            } else {
                front
            },
            None => front,
        }
    }
}

/// Reads the attribute file of a repository: the globs of the lines that
/// mark files as `linguist-vendored`, and of those that mark files as
/// `linguist-generated`. Without an attribute file there are none.
pub fn parse_gitattributes(content: Option<&str>) -> (r: Excludes)
    ensures
        match content {
            Some(text) => pattern_views(r.vendored@) == marked_patterns(
                lines(text@),
                "linguist-vendored"@,
            ) && pattern_views(r.generated@) == marked_patterns(
                lines(text@),
                "linguist-generated"@,
            ),
            None => r.vendored.len() == 0 && r.generated.len() == 0,
        },
{
    let mut vendored: Vec<PathPattern> = Vec::new();
    let mut generated: Vec<PathPattern> = Vec::new();
    let text = match content {
        Some(text) => text,
        None => {
            return Excludes { vendored, generated };
        },
    };
    let chars = chars_of(text);
    let input = split_lines(&chars);
    let vendored_mark = chars_of("linguist-vendored");
    let generated_mark = chars_of("linguist-generated");
    let ghost all = views(input@);
    let mut i: usize = 0;
    assert(all.take(0) == Seq::<Seq<char>>::empty());
    assert(pattern_views(vendored@) =~= Seq::<Seq<char>>::empty());
    assert(pattern_views(generated@) =~= Seq::<Seq<char>>::empty());
    while i < input.len()
        invariant
            i <= input.len(),
            all == views(input@),
            vendored_mark@ == "linguist-vendored"@,
            generated_mark@ == "linguist-generated"@,
            pattern_views(vendored@) == marked_patterns(all.take(i as int), vendored_mark@),
            pattern_views(generated@) == marked_patterns(all.take(i as int), generated_mark@),
        decreases input.len() - i,
    {
        assert(all.take(i as int + 1).drop_last() == all.take(i as int));
        assert(all.take(i as int + 1).last() == input@[i as int]@);
        let line = trim_chars(&input[i]);
        if line.len() > 0 && line[0] != '#' {
            let parts = split_fields(&line);
            if parts.len() > 0 {
                assert(views(parts@)[0] == parts@[0]@);
                let source = string_of(&parts[0]);
                if contains_chars(&line, &vendored_mark) {
                    match PathPattern::new(source.as_str()) {
                        Some(pattern) => {
                            let ghost before = pattern_views(vendored@);
                            vendored.push(pattern);
                            assert(pattern_views(vendored@) =~= before.push(pattern@));
                        },
                        None => {},
                    }
                }
                if contains_chars(&line, &generated_mark) {
                    match PathPattern::new(source.as_str()) {
                        Some(pattern) => {
                            let ghost before = pattern_views(generated@);
                            generated.push(pattern);
                            assert(pattern_views(generated@) =~= before.push(pattern@));
                        },
                        None => {},
                    }
                }
            }
        }
        i = i + 1;
    }
    assert(all.take(input.len() as int) == all);
    Excludes { vendored, generated }
}

/// Whether a file with the path `relative` below the scan root is left out
/// as vendored or generated. A file that does not lie below the root is
/// never left out.
pub open spec fn excluded(relative: Option<Seq<char>>, excludes: Excludes, args: FilterArgs) -> bool {
    match relative {
        Some(path) => (!args.include_vendored && any_matches(
            pattern_views(excludes.vendored@),
            path,
        )) || (!args.include_generated && any_matches(pattern_views(excludes.generated@), path)),
        None => false,
    }
}

/// Whether a file is left out as vendored or generated. `relative` is the
/// file's path below the scan root; a file that does not lie below the
/// root is never left out.
pub fn is_excluded(relative: Option<&str>, excludes: &Excludes, args: &FilterArgs) -> (r: bool)
    ensures
        r == excluded(option_str_view(relative), *excludes, *args),
{
    let path = match relative {
        Some(path) => path,
        None => {
            return false;
        },
    };
    if !args.include_vendored && matches_any(&excludes.vendored, path) {
        return true;
    }
    if !args.include_generated && matches_any(&excludes.generated, path) {
        return true;
    }
    false
}

/// The globs among `sources` up to the first that is no valid glob.
pub open spec fn valid_prefix(sources: Seq<Seq<char>>, k: int) -> bool {
    forall|i: int| 0 <= i < k ==> glob_accepts(#[trigger] sources[i])
}

/// Compiles the globs of the settings. The first source that is no valid
/// glob is an error.
pub fn compile_patterns(sources: &Vec<String>) -> (r: Result<Vec<PathPattern>, FilterError>)
    ensures
        match r {
            Ok(patterns) => valid_prefix(string_views(sources@), sources.len() as int)
                && pattern_views(patterns@) == string_views(sources@),
            Err(FilterError::Pattern { pattern, .. }) => exists|k: int|
                0 <= k < sources.len() && valid_prefix(string_views(sources@), k) && !glob_accepts(
                    #[trigger] string_views(sources@)[k],
                ) && pattern@ == sources@[k]@,
            Err(FilterError::Walk { .. }) => false,
        },
{
    let mut patterns: Vec<PathPattern> = Vec::new();
    let mut i: usize = 0;
    while i < sources.len()
        invariant
            i <= sources.len(),
            patterns.len() == i,
            valid_prefix(string_views(sources@), i as int),
            forall|k: int| 0 <= k < i ==> (#[trigger] patterns@[k])@ == sources@[k]@,
        decreases sources.len() - i,
    {
        match compile(sources[i].clone()) {
            Ok(pattern) => {
                patterns.push(pattern);
            },
            Err(e) => {
                assert(!glob_accepts(string_views(sources@)[i as int]));
                return Err(
                    FilterError::Pattern { pattern: sources[i].clone(), message: error_message(&e) },
                );
            },
        }
        assert(string_views(sources@)[i as int] == sources@[i as int]@);
        i = i + 1;
    }
    assert(pattern_views(patterns@) =~= string_views(sources@));
    Ok(patterns)
}

/// The view of a path that may be missing.
pub open spec fn option_str_view(path: Option<&str>) -> Option<Seq<char>> {
    match path {
        Some(path) => Some(path@),
        None => None,
    }
}

/// Whether a path is taken in by the globs of the settings: it matches one
/// of `wanted`, unless there are none, and it matches none of `unwanted`.
pub open spec fn selected(path: Seq<char>, wanted: Seq<Seq<char>>, unwanted: Seq<Seq<char>>) -> bool {
    (wanted.len() == 0 || any_matches(wanted, path)) && !any_matches(unwanted, path)
}

/// Whether a file is taken in by the globs of the settings: it matches one
/// of `wanted`, unless there are none, and it matches none of `unwanted`.
pub fn is_selected(path: &str, wanted: &Vec<PathPattern>, unwanted: &Vec<PathPattern>) -> (r: bool)
    ensures
        r == selected(path@, pattern_views(wanted@), pattern_views(unwanted@)),
{
    if wanted.len() > 0 && !matches_any(wanted, path) {
        return false;
    }
    !matches_any(unwanted, path)
}

/// What the walk of the scan root found at one place: the path, the path
/// below the root if it lies below it, and whether it is a regular file.
#[derive(Debug)]
pub struct WalkedFile {
    pub path: String,
    pub relative: Option<String>,
    pub is_file: bool,
}

impl WalkedFile {
    /// The entry at `path`, found by a walk of `root`.
    pub fn new(root: &str, path: &str, is_file: bool) -> (r: WalkedFile)
        ensures
            r.path@ == path@,
            option_view(r.relative) == below_root(root@, path@),
            r.is_file == is_file,
    {
        WalkedFile { path: path.to_owned(), relative: strip_root(root, path), is_file }
    }
}

/// Whether a scan takes in what the walk found at one place: it is a
/// regular file, it is not left out as vendored or generated, and, where
/// it lies below the root, its path below the root is selected by the
/// globs.
pub open spec fn takes(
    entry: WalkedFile,
    excludes: Excludes,
    args: FilterArgs,
    wanted: Seq<Seq<char>>,
    unwanted: Seq<Seq<char>>,
) -> bool {
    &&& entry.is_file
    &&& !excluded(option_view(entry.relative), excludes, args)
    &&& match entry.relative {
        Some(relative) => selected(relative@, wanted, unwanted),
        None => true,
    }
}

/// The paths of the entries that a scan takes in, in the order of the
/// entries.
pub open spec fn selected_paths(
    entries: Seq<WalkedFile>,
    excludes: Excludes,
    args: FilterArgs,
    wanted: Seq<Seq<char>>,
    unwanted: Seq<Seq<char>>,
) -> Seq<Seq<char>>
    decreases entries.len(),
{
    if entries.len() == 0 {
        Seq::empty()
    } else {
        let before = selected_paths(entries.drop_last(), excludes, args, wanted, unwanted);
        if takes(entries.last(), excludes, args, wanted, unwanted) {
            before.push(entries.last().path@)
        } else {
            before
        }
    }
}

/// The files to scan among what the walk found: the paths of the entries
/// that are regular files, are not left out as vendored or generated, and
/// are selected by the globs, in the order in which the walk found them.
pub fn select_files(
    entries: &Vec<WalkedFile>,
    excludes: &Excludes,
    args: &FilterArgs,
    wanted: &Vec<PathPattern>,
    unwanted: &Vec<PathPattern>,
) -> (r: Vec<String>)
    ensures
        string_views(r@) == selected_paths(
            entries@,
            *excludes,
            *args,
            pattern_views(wanted@),
            pattern_views(unwanted@),
        ),
{
    let mut files: Vec<String> = Vec::new();
    let mut i: usize = 0;
    assert(string_views(files@) =~= Seq::<Seq<char>>::empty());
    while i < entries.len()
        invariant
            i <= entries.len(),
            string_views(files@) == selected_paths(
                entries@.take(i as int),
                *excludes,
                *args,
                pattern_views(wanted@),
                pattern_views(unwanted@),
            ),
        decreases entries.len() - i,
    {
        let entry = &entries[i];
        assert(entries@.take(i as int + 1).drop_last() == entries@.take(i as int));
        assert(entries@.take(i as int + 1).last() == *entry);
        let relative = match &entry.relative {
            Some(relative) => Some(relative.as_str()),
            None => None,
        };
        let kept = entry.is_file && !is_excluded(relative, excludes, args) && match relative {
            Some(relative) => is_selected(relative, wanted, unwanted),
            None => true,
        };
        if kept {
            let ghost before = string_views(files@);
            files.push(entry.path.clone());
            assert(string_views(files@) =~= before.push(entry.path@));
        }
        i = i + 1;
    }
    assert(entries@.take(entries.len() as int) == entries@);
    files
}

} // verus!
