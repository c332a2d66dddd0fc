//! The scanner: finds marker occurrences in the comments of source files.

pub mod args;
pub mod comments;
pub mod context;
pub mod dedup;
pub mod entry;
pub mod error;
pub mod language;
pub mod marker;
pub mod result;
pub mod scope;
pub mod tree;

pub use args::ScanArgs;
pub use entry::Entry;
pub use error::ScanError;
pub use result::ScanResult;

use crate::path::{relative, relative_to};
use crate::scan::comments::{
    comment_at, comment_views, comments_of, lemma_comments_upto, locate_comments, CommentView,
};
use crate::scan::context::{above_node, below_node, context_at, inline_node, Extractor};
use crate::scan::dedup::{lemma_places_push, places, Deduplicator};
use crate::scan::entry::EntryView;
use crate::scan::language::{
    detect_language, name_fields_of, parse_tree, parsed_nodes, path_language, profile_for,
    profile_of, LanguageProfile, ProfileView, SourceLanguage,
};
use crate::scan::marker::{
    compile_markers, find_slugs, pattern_source, regex_accepts, regex_matches, MarkerPattern,
};
use crate::scan::result::{absorb_all, Occurrence};
use crate::scan::scope::{resolve_scopes, scope_chain};
use crate::scan::tree::{tree_of, valid_raw, NodeView, SyntaxTree};
use crate::text::string_views;
use vstd::prelude::*;

verus! {

/// The occurrence record for a marker found in the comment node `c`.
pub open spec fn entry_at(tree: Seq<NodeView>, profile: ProfileView, file: Seq<char>, c: int) -> EntryView {
    EntryView {
        file,
        line: tree[c].first_line + 1,
        comment_text: tree[c].text,
        above: context_at(tree, above_node(tree, profile, c)),
        below: context_at(tree, below_node(tree, profile, c)),
        inline: context_at(tree, inline_node(tree, profile, c)),
        scope: scope_chain(tree, profile, c),
        blame: None,
    }
}

/// What a comment contributes: one occurrence for each match of the
/// pattern in its text.
pub open spec fn found_by(
    tree: Seq<NodeView>,
    profile: ProfileView,
    pattern: Seq<char>,
    file: Seq<char>,
    comment: CommentView,
) -> Seq<Occurrence> {
    regex_matches(pattern, comment.text).map_values(
        |slug: Seq<char>| Occurrence { slug, entry: entry_at(tree, profile, file, comment.node) },
    )
}

/// What a list of comments contributes, in the order of the list.
pub open spec fn found_among(
    tree: Seq<NodeView>,
    profile: ProfileView,
    pattern: Seq<char>,
    file: Seq<char>,
    comments: Seq<CommentView>,
) -> Seq<Occurrence>
    decreases comments.len(),
{
    if comments.len() == 0 {
        Seq::empty()
    } else {
        found_among(tree, profile, pattern, file, comments.drop_last()) + found_by(
            tree,
            profile,
            pattern,
            file,
            comments.last(),
        )
    }
}

/// Whether two occurrences in one file name the same identifier on the same
/// line.
pub open spec fn same_place(a: Occurrence, b: Occurrence) -> bool {
    a.slug == b.slug && a.entry.line == b.entry.line
}

/// Whether `o` repeats an earlier element of `os`.
pub open spec fn repeats(os: Seq<Occurrence>, o: Occurrence) -> bool {
    exists|i: int| 0 <= i < os.len() && same_place(#[trigger] os[i], o)
}

/// `os` without the elements that repeat the place of an earlier one.
pub open spec fn first_of_each(os: Seq<Occurrence>) -> Seq<Occurrence>
    decreases os.len(),
{
    if os.len() == 0 {
        Seq::empty()
    } else if repeats(os.drop_last(), os.last()) {
        first_of_each(os.drop_last())
    } else {
        first_of_each(os.drop_last()).push(os.last())
    }
}

/// The occurrences of one file: for each identifier and line, the first
/// match in document order.
pub open spec fn occurrences(
    tree: Seq<NodeView>,
    profile: ProfileView,
    pattern: Seq<char>,
    file: Seq<char>,
) -> Seq<Occurrence> {
    first_of_each(found_among(tree, profile, pattern, file, comments_of(tree, profile)))
}

/// Deduplication: what `first_of_each` keeps comes from its argument, and no
/// two elements kept name the same identifier on the same line.
pub proof fn lemma_first_of_each(os: Seq<Occurrence>)
    ensures
        forall|k: int|
            0 <= k < first_of_each(os).len() ==> os.contains(#[trigger] first_of_each(os)[k]),
        forall|i: int, j: int|
            0 <= i < j < first_of_each(os).len() ==> !same_place(
                #[trigger] first_of_each(os)[i],
                #[trigger] first_of_each(os)[j],
            ),
        forall|k: int| 0 <= k < os.len() ==> repeats(first_of_each(os), #[trigger] os[k]),
    decreases os.len(),
{
    if os.len() > 0 {
        let front = os.drop_last();
        let kept = first_of_each(front);
        let out = first_of_each(os);
        lemma_first_of_each(front);
        assert forall|k: int| 0 <= k < out.len() implies os.contains(#[trigger] out[k]) by {
            if k < kept.len() {
                assert(out[k] == kept[k]);
                assert(front.contains(kept[k]));
                let w = choose|w: int| 0 <= w < front.len() && front[w] == kept[k];
                assert(os[w] == kept[k]);
            } else {
                assert(os[os.len() - 1] == out[k]);
            }
        }
        assert forall|i: int, j: int| 0 <= i < j < out.len() implies !same_place(
            #[trigger] out[i],
            #[trigger] out[j],
        ) by {
            if j < kept.len() {
                assert(out[i] == kept[i] && out[j] == kept[j]);
            } else {
                assert(out[i] == kept[i]);
                assert(front.contains(kept[i]));
                let w = choose|w: int| 0 <= w < front.len() && front[w] == kept[i];
                assert(!repeats(front, os.last()));
                assert(!same_place(front[w], os.last()));
            }
        }
        assert forall|k: int| 0 <= k < os.len() implies repeats(out, #[trigger] os[k]) by {
            if k < front.len() {
                assert(front[k] == os[k]);
                assert(repeats(kept, front[k]));
                let w = choose|w: int| 0 <= w < kept.len() && same_place(kept[w], front[k]);
                assert(out[w] == kept[w]);
            } else if repeats(front, os.last()) {
                let p = choose|p: int| 0 <= p < front.len() && same_place(front[p], os.last());
                assert(repeats(kept, front[p]));
                let w = choose|w: int| 0 <= w < kept.len() && same_place(kept[w], front[p]);
                assert(out[w] == kept[w]);
                assert(same_place(out[w], os[k]));
            } else {
                assert(same_place(out[out.len() - 1], os[k]));
            }
        }
    }
}

/// The dedup invariant for one file: no two occurrences of a file name the
/// same identifier on the same line.
pub proof fn lemma_no_repeated_place(
    tree: Seq<NodeView>,
    profile: ProfileView,
    pattern: Seq<char>,
    file: Seq<char>,
)
    ensures
        forall|i: int, j: int|
            0 <= i < j < occurrences(tree, profile, pattern, file).len() ==> !same_place(
                #[trigger] occurrences(tree, profile, pattern, file)[i],
                #[trigger] occurrences(tree, profile, pattern, file)[j],
            ),
{
    lemma_first_of_each(found_among(tree, profile, pattern, file, comments_of(tree, profile)));
}

/// Records the occurrence of `slug` described by `template`, unless the
/// identifier was already seen on that line.
fn record_once(
    seen: &mut Deduplicator,
    results: &mut ScanResult,
    slug: &String,
    template: &Entry,
    Ghost(initial): Ghost<Map<Seq<char>, Seq<EntryView>>>,
    Ghost(processed): Ghost<Seq<Occurrence>>,
)
    requires
        old(results).wf(),
        old(seen)@ == places(processed),
        old(results)@ == absorb_all(initial, first_of_each(processed)),
    ensures
        final(results).wf(),
        final(seen)@ == places(processed.push(Occurrence { slug: slug@, entry: template@ })),
        final(results)@ == absorb_all(
            initial,
            first_of_each(processed.push(Occurrence { slug: slug@, entry: template@ })),
        ),
{
    let ghost occ = Occurrence { slug: slug@, entry: template@ };
    assert(processed.push(occ).drop_last() == processed);
    proof {
        lemma_places_push(processed, occ);
    }
    if seen.insert(slug, template.line) {
        let ghost kept = first_of_each(processed);
        assert(kept.push(occ).drop_last() == kept);
        results.push(slug.clone(), template.clone());
    }
}

/// Scans one parse tree: every comment node is searched for marker
/// identifiers, and each identifier found is recorded with the comment's
/// line, text, contexts and scope chain, unless the same identifier was
/// already recorded for the same line of this tree.
pub fn scan_tree(
    file: &str,
    tree: &SyntaxTree,
    profile: &LanguageProfile,
    pattern: &MarkerPattern,
    results: &mut ScanResult,
)
    requires
        tree.wf(),
        old(results).wf(),
    ensures
        final(results).wf(),
        final(results)@ == absorb_all(
            old(results)@,
            occurrences(tree@, profile@, pattern@, file@),
        ),
{
    let ghost initial = results@;
    let ghost t = tree@;
    let ghost p = profile@;
    let extractor = Extractor::new(tree, profile);
    let comments = locate_comments(tree, profile);
    let ghost all = comment_views(comments@);
    proof {
        lemma_comments_upto(t, p, t.len() as int);
    }
    let mut seen = Deduplicator::new();
    let mut i: usize = 0;
    assert(all.take(0) == Seq::<CommentView>::empty());
    assert(seen@ =~= places(found_among(t, p, pattern@, file@, all.take(0))));
    while i < comments.len()
        invariant
            extractor.wf(),
            extractor.tree() == t,
            extractor.profile() == p,
            results.wf(),
            i <= comments.len(),
            all == comment_views(comments@),
            all == comments_of(t, p),
            forall|k: int|
                0 <= k < all.len() ==> 0 <= (#[trigger] all[k]).node < t.len() && all[k]
                    == comment_at(t, all[k].node),
            seen@ == places(found_among(t, p, pattern@, file@, all.take(i as int))),
            results@ == absorb_all(
                initial,
                first_of_each(found_among(t, p, pattern@, file@, all.take(i as int))),
            ),
        decreases comments.len() - i,
    {
        let comment = &comments[i];
        let c = comment.node;
        assert(all[i as int] == comment@);
        let ghost before = found_among(t, p, pattern@, file@, all.take(i as int));
        let ghost here = found_by(t, p, pattern@, file@, all[i as int]);
        assert(all.take(i as int + 1).drop_last() == all.take(i as int));
        assert(all.take(i as int + 1).last() == all[i as int]);
        let slugs = find_slugs(pattern, comment.text.as_str());
        if slugs.len() > 0 {
            let template = Entry {
                file: file.to_owned(),
                line: comment.line,
                comment_text: comment.text.clone(),
                above: extractor.above(c),
                below: extractor.below(c),
                inline: extractor.inline(c),
                scope: resolve_scopes(&extractor, c),
                blame: None,
            };
            assert(template@ == entry_at(t, p, file@, c as int));
            let mut j: usize = 0;
            assert(before + here.take(0) == before);
            while j < slugs.len()
                invariant
                    results.wf(),
                    j <= slugs.len(),
                    here.len() == slugs.len(),
                    forall|k: int|
                        0 <= k < slugs.len() ==> #[trigger] here[k] == (Occurrence {
                            slug: slugs@[k]@,
                            entry: template@,
                        }),
                    seen@ == places(before + here.take(j as int)),
                    results@ == absorb_all(initial, first_of_each(before + here.take(j as int))),
                decreases slugs.len() - j,
            {
                let ghost processed = before + here.take(j as int);
                assert(before + here.take(j as int + 1) == processed.push(here[j as int]));
                record_once(
                    &mut seen,
                    results,
                    &slugs[j],
                    &template,
                    Ghost(initial),
                    Ghost(processed),
                );
                j = j + 1;
            }
            assert(here.take(slugs.len() as int) == here);
        } else {
            assert(here =~= Seq::<Occurrence>::empty());
            assert(before + here == before);
        }
        i = i + 1;
    }
    assert(all.take(comments.len() as int) == all);
}

/// The mapping after the source text `source`, written in the language
/// named `language`, has been scanned as the file `file`. A source of which
/// the parser yields no tree leaves the mapping as it is.
pub open spec fn scan_source_result(
    results: Map<Seq<char>, Seq<EntryView>>,
    file: Seq<char>,
    language: Seq<char>,
    source: Seq<char>,
    pattern: Seq<char>,
) -> Map<Seq<char>, Seq<EntryView>> {
    match parsed_nodes(language, source, name_fields_of(language)) {
        Some(raw) => if valid_raw(raw) {
            absorb_all(
                results,
                occurrences(tree_of(raw), profile_of(language), pattern, file),
            )
        } else {
            results
        },
        None => results,
    }
}

/// The mapping after the file at `path` with the text `source` has been
/// scanned for a scan of `root`. The language is judged by the path, and
/// the occurrences are recorded under the path relative to `root`. A file
/// of no supported language leaves the mapping as it is.
pub open spec fn scan_file_result(
    results: Map<Seq<char>, Seq<EntryView>>,
    root: Seq<char>,
    path: Seq<char>,
    source: Seq<char>,
    pattern: Seq<char>,
) -> Map<Seq<char>, Seq<EntryView>> {
    match path_language(path) {
        Some(language) => scan_source_result(
            results,
            relative(root, path),
            language,
            source,
            pattern,
        ),
        None => results,
    }
}

/// Whether the file at `path` is written in a supported language. Only
/// such files are read and scanned.
pub fn is_supported(path: &str) -> (r: bool)
    ensures
        r == path_language(path@) is Some,
{
    detect_language(path).is_some()
}

/// Scans the source text `source`, written in `language`, and records its
/// occurrences under the file name `file`.
pub fn scan_source(
    file: &str,
    language: &SourceLanguage,
    source: &str,
    pattern: &MarkerPattern,
    results: &mut ScanResult,
)
    requires
        old(results).wf(),
    ensures
        final(results).wf(),
        final(results)@ == scan_source_result(
            old(results)@,
            file@,
            language@,
            source@,
            pattern@,
        ),
{
    let profile = profile_for(language.name());
    match parse_tree(language, source, &profile) {
        Some(tree) => {
            scan_tree(file, &tree, &profile, pattern, results);
        },
        None => {},
    }
}

/// Scans one file of a scan of `root`, given by its path and its text. The
/// language is judged by the path; a file of no supported language is
/// skipped. The occurrences are recorded under the path relative to
/// `root`.
pub fn scan_file(
    root: &str,
    path: &str,
    source: &str,
    pattern: &MarkerPattern,
    results: &mut ScanResult,
)
    requires
        old(results).wf(),
    ensures
        final(results).wf(),
        final(results)@ == scan_file_result(old(results)@, root@, path@, source@, pattern@),
{
    match detect_language(path) {
        Some(language) => {
            let file = relative_to(root, path);
            scan_source(file.as_str(), &language, source, pattern, results);
        },
        None => {},
    }
}

/// A file handed to the scanner: its path, and what reading it gave: the
/// text, or the message of the failure.
#[derive(Debug)]
pub struct SourceFile {
    pub path: String,
    pub contents: Result<String, String>,
}

/// The mathematical content of a [`SourceFile`].
pub struct SourceFileView {
    pub path: Seq<char>,
    pub contents: Result<Seq<char>, Seq<char>>,
}

impl View for SourceFile {
    type V = SourceFileView;

    open spec fn view(&self) -> SourceFileView {
        SourceFileView { path: self.path@, contents: contents_view(self.contents) }
    }
}

/// The view of what reading a file gave.
pub open spec fn contents_view(contents: Result<String, String>) -> Result<Seq<char>, Seq<char>> {
    match contents {
        Ok(text) => Ok(text@),
        Err(message) => Err(message@),
    }
}

/// The views of a list of files.
pub open spec fn file_views(files: Seq<SourceFile>) -> Seq<SourceFileView> {
    Seq::new(files.len(), |i: int| files[i]@)
}

/// A file that could not be read: its path and the message.
pub struct ReadFailure {
    pub path: Seq<char>,
    pub message: Seq<char>,
}

/// What one file does to the mapping. A file of no supported language is
/// skipped, read or not. A file of a supported language is scanned, or, if
/// it could not be read, fails the scan.
pub open spec fn read_step(
    results: Map<Seq<char>, Seq<EntryView>>,
    root: Seq<char>,
    file: SourceFileView,
    pattern: Seq<char>,
) -> Result<Map<Seq<char>, Seq<EntryView>>, ReadFailure> {
    if path_language(file.path) is None {
        Ok(results)
    } else {
        match file.contents {
            Ok(source) => Ok(scan_file_result(results, root, file.path, source, pattern)),
            Err(message) => Err(ReadFailure { path: file.path, message }),
        }
    }
}

/// The outcome of scanning the first `k` files in order, starting from the
/// empty mapping. The first file that fails ends the scan.
pub open spec fn scan_all(
    root: Seq<char>,
    files: Seq<SourceFileView>,
    pattern: Seq<char>,
    k: int,
) -> Result<Map<Seq<char>, Seq<EntryView>>, ReadFailure>
    decreases k,
{
    if k <= 0 {
        Ok(Map::empty())
    } else {
        match scan_all(root, files, pattern, k - 1) {
            Err(e) => Err(e),
            Ok(results) => read_step(results, root, files[k - 1], pattern),
        }
    }
}

/// Once the scan has failed, later files change nothing.
proof fn lemma_scan_all_failed(
    root: Seq<char>,
    files: Seq<SourceFileView>,
    pattern: Seq<char>,
    k: int,
    n: int,
)
    requires
        0 <= k <= n,
        scan_all(root, files, pattern, k) is Err,
    ensures
        scan_all(root, files, pattern, n) == scan_all(root, files, pattern, k),
    decreases n - k,
{
    if k < n {
        lemma_scan_all_failed(root, files, pattern, k + 1, n);
    }
}

/// Takes one file of a scan of `root` into the mapping, given what reading
/// it gave. A file of no supported language is skipped, read or not. A
/// file of a supported language that could not be read is an error, and
/// leaves the mapping as it is.
pub fn scan_read(
    root: &str,
    path: &str,
    contents: &Result<String, String>,
    pattern: &MarkerPattern,
    results: &mut ScanResult,
) -> (r: Result<(), ScanError>)
    requires
        old(results).wf(),
    ensures
        final(results).wf(),
        match r {
            Ok(_) => read_step(
                old(results)@,
                root@,
                SourceFileView { path: path@, contents: contents_view(*contents) },
                pattern@,
            ) == Ok::<Map<Seq<char>, Seq<EntryView>>, ReadFailure>(final(results)@),
            Err(ScanError::ReadFile { path: failed, message }) => {
                &&& read_step(
                    old(results)@,
                    root@,
                    SourceFileView { path: path@, contents: contents_view(*contents) },
                    pattern@,
                ) == Err::<Map<Seq<char>, Seq<EntryView>>, ReadFailure>(
                    ReadFailure { path: failed@, message: message@ },
                )
                &&& final(results).groups() == old(results).groups()
            },
            Err(_) => false,
        },
{
    if !is_supported(path) {
        return Ok(());
    }
    match contents {
        Ok(source) => {
            scan_file(root, path, source.as_str(), pattern, results);
            Ok(())
        },
        Err(message) => Err(ScanError::ReadFile { path: path.to_owned(), message: message.clone() }),
    }
}

/// Whether `r` is the outcome of scanning `files` in order for the marker
/// prefixes `prefixes`, for a scan of `root`.
///
/// The scan is refused with `NoMarkers` when no prefix is given, and with
/// `InvalidPattern` when the prefixes make no pattern. A file of a
/// supported language that could not be read fails the scan with
/// `ReadFile`. Otherwise the outcome is the mapping that the files give in
/// order.
pub open spec fn is_scan_outcome(
    root: Seq<char>,
    files: Seq<SourceFileView>,
    prefixes: Seq<Seq<char>>,
    r: Result<ScanResult, ScanError>,
) -> bool {
    match r {
        Ok(results) => {
            &&& results.wf()
            &&& prefixes.len() > 0
            &&& regex_accepts(pattern_source(prefixes))
            &&& scan_all(root, files, pattern_source(prefixes), files.len() as int) == Ok::<
                Map<Seq<char>, Seq<EntryView>>,
                ReadFailure,
            >(results@)
        },
        Err(ScanError::NoMarkers) => prefixes.len() == 0,
        Err(ScanError::InvalidPattern { .. }) => prefixes.len() > 0 && !regex_accepts(
            pattern_source(prefixes),
        ),
        Err(ScanError::ReadFile { path, message }) => {
            &&& prefixes.len() > 0
            &&& regex_accepts(pattern_source(prefixes))
            &&& scan_all(root, files, pattern_source(prefixes), files.len() as int) == Err::<
                Map<Seq<char>, Seq<EntryView>>,
                ReadFailure,
            >(ReadFailure { path: path@, message: message@ })
        },
    }
}

/// Scans the given files in order for the marker prefixes of `args`, and
/// records the occurrences under paths relative to `root`.
///
/// The prefixes are compiled before any file is taken up: the scan is
/// refused when no prefix is given or the prefixes make no pattern. Files
/// of no supported language are skipped. A file of a supported language
/// that could not be read ends the scan with `ReadFile`. Otherwise the
/// result is the mapping that the files give in order.
pub fn scan_files(root: &str, files: &Vec<SourceFile>, args: &ScanArgs) -> (r: Result<
    ScanResult,
    ScanError,
>)
    ensures
        is_scan_outcome(root@, file_views(files@), string_views(args.slug@), r),
{
    let pattern = match compile_markers(&args.slug) {
        Ok(pattern) => pattern,
        Err(e) => {
            return Err(e);
        },
    };
    let ghost fv = file_views(files@);
    let mut results = ScanResult::new();
    let mut i: usize = 0;
    while i < files.len()
        invariant
            i <= files.len(),
            fv == file_views(files@),
            results.wf(),
            args.slug.len() > 0,
            regex_accepts(pattern_source(string_views(args.slug@))),
            pattern@ == pattern_source(string_views(args.slug@)),
            scan_all(root@, fv, pattern@, i as int) == Ok::<
                Map<Seq<char>, Seq<EntryView>>,
                ReadFailure,
            >(results@),
        decreases files.len() - i,
    {
        let file = &files[i];
        assert(fv[i as int] == file@);
        match scan_read(root, file.path.as_str(), &file.contents, &pattern, &mut results) {
            Ok(_) => {},
            Err(e) => {
                proof {
                    lemma_scan_all_failed(root@, fv, pattern@, i as int + 1, files.len() as int);
                }
                return Err(e);
            },
        }
        i = i + 1;
    }
    Ok(results)
}

/// Determinism: two scans of the same files in the same order, for the same
/// prefixes and the same root, end alike. If one gives a mapping, the other
/// gives the same mapping, with its keys and occurrences in the same
/// order; if one fails, the other fails in the same way, on the same file.
pub proof fn lemma_scan_is_deterministic(
    root: Seq<char>,
    files: Seq<SourceFileView>,
    prefixes: Seq<Seq<char>>,
    first: Result<ScanResult, ScanError>,
    second: Result<ScanResult, ScanError>,
)
    requires
        is_scan_outcome(root, files, prefixes, first),
        is_scan_outcome(root, files, prefixes, second),
    ensures
        match (first, second) {
            (Ok(a), Ok(b)) => a@ == b@ && a.groups() == b.groups(),
            (Err(ScanError::NoMarkers), Err(ScanError::NoMarkers)) => true,
            (Err(ScanError::InvalidPattern { .. }), Err(ScanError::InvalidPattern { .. })) => true,
            (
                Err(ScanError::ReadFile { path: p1, message: m1 }),
                Err(ScanError::ReadFile { path: p2, message: m2 }),
            ) => p1@ == p2@ && m1@ == m2@,
            _ => false,
        },
{
    match (first, second) {
        (Ok(a), Ok(b)) => {
            a.lemma_same_view_same_order(&b);
        },
        _ => {},
    }
}

} // verus!
