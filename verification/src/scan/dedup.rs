//! The deduplicator, and the dedup invariant of the result mapping: no
//! identifier is recorded twice for the same line of the same file.

use crate::path::relative;
use crate::scan::{
    entry_at, found_among, found_by, lemma_first_of_each, occurrences, same_place, scan_all,
    scan_file_result, SourceFileView,
};
use crate::scan::comments::{comments_of, CommentView};
use crate::scan::entry::EntryView;
use crate::scan::language::{name_fields_of, parsed_nodes, path_language, profile_of, ProfileView};
use crate::scan::result::{absorb, absorb_all, entries_of, Occurrence};
use crate::scan::tree::{tree_of, valid_raw, NodeView};
use vstd::prelude::*;

verus! {

/// An identifier on a line of the file being scanned.
pub struct Place {
    pub slug: Seq<char>,
    pub line: nat,
}

/// The place of an occurrence.
pub open spec fn place_of(o: Occurrence) -> Place {
    Place { slug: o.slug, line: o.entry.line }
}

/// The places of a list of occurrences.
pub open spec fn places(os: Seq<Occurrence>) -> Set<Place> {
    Set::new(|p: Place| exists|i: int| 0 <= i < os.len() && place_of(#[trigger] os[i]) == p)
}

/// The places of a list with one more occurrence are those of the list and
/// the place of the new occurrence.
pub proof fn lemma_places_push(os: Seq<Occurrence>, o: Occurrence)
    ensures
        places(os.push(o)) == places(os).insert(place_of(o)),
        places(os).contains(place_of(o)) <==> exists|i: int|
            0 <= i < os.len() && same_place(#[trigger] os[i], o),
{
    let more = os.push(o);
    assert forall|p: Place| places(more).contains(p) == places(os).insert(place_of(o)).contains(
        p,
    ) by {
        if places(more).contains(p) {
            let i = choose|i: int| 0 <= i < more.len() && place_of(#[trigger] more[i]) == p;
            if i < os.len() {
                assert(place_of(os[i]) == p);
            }
        }
        if places(os).contains(p) {
            let i = choose|i: int| 0 <= i < os.len() && place_of(#[trigger] os[i]) == p;
            assert(place_of(more[i]) == p);
        }
        if p == place_of(o) {
            assert(place_of(more[os.len() as int]) == p);
        }
    }
    assert(places(more) =~= places(os).insert(place_of(o)));
    if places(os).contains(place_of(o)) {
        let i = choose|i: int| 0 <= i < os.len() && place_of(#[trigger] os[i]) == place_of(o);
        assert(same_place(os[i], o));
    }
    if exists|i: int| 0 <= i < os.len() && same_place(#[trigger] os[i], o) {
        let i = choose|i: int| 0 <= i < os.len() && same_place(#[trigger] os[i], o);
        assert(place_of(os[i]) == place_of(o));
    }
}

/// The deduplicator of one file: the places at which an identifier has
/// been found so far.
pub struct Deduplicator {
    seen: Vec<(String, usize)>,
}

impl View for Deduplicator {
    type V = Set<Place>;

    closed spec fn view(&self) -> Set<Place> {
        Set::new(
            |p: Place|
                exists|k: int|
                    0 <= k < self.seen@.len() && (#[trigger] self.seen@[k]).0@ == p.slug
                        && self.seen@[k].1 == p.line,
        )
    }
}

impl Deduplicator {
    /// The deduplicator of a file of which nothing has been seen.
    pub fn new() -> (r: Deduplicator)
        ensures
            r@ == Set::<Place>::empty(),
    {
        let r = Deduplicator { seen: Vec::new() };
        assert(r@ =~= Set::<Place>::empty());
        r
    }

    /// Whether the identifier `slug` was seen on `line`.
    pub fn contains(&self, slug: &String, line: usize) -> (r: bool)
        ensures
            r == self@.contains(Place { slug: slug@, line: line as nat }),
    {
        let mut k: usize = 0;
        while k < self.seen.len()
            invariant
                k <= self.seen.len(),
                forall|m: int|
                    0 <= m < k ==> !((#[trigger] self.seen@[m]).0@ == slug@ && self.seen@[m].1
                        == line),
            decreases self.seen.len() - k,
        {
            if self.seen[k].1 == line && self.seen[k].0 == *slug {
                return true;
            }
            k = k + 1;
        }
        false
    }

    /// Takes note of the identifier `slug` on `line`, and tells whether it
    /// is seen there for the first time.
    pub fn insert(&mut self, slug: &String, line: usize) -> (fresh: bool)
        ensures
            fresh == !old(self)@.contains(Place { slug: slug@, line: line as nat }),
            final(self)@ == old(self)@.insert(Place { slug: slug@, line: line as nat }),
    {
        let ghost place = Place { slug: slug@, line: line as nat };
        if self.contains(slug, line) {
            assert(self@ =~= self@.insert(place));
            return false;
        }
        let ghost before = self.seen@;
        self.seen.push((slug.clone(), line));
        assert forall|p: Place| self@.contains(p) == old(self)@.insert(place).contains(p) by {
            if self@.contains(p) {
                let k = choose|k: int|
                    0 <= k < self.seen@.len() && (#[trigger] self.seen@[k]).0@ == p.slug
                        && self.seen@[k].1 == p.line;
                if k < before.len() {
                    assert(before[k] == self.seen@[k]);
                }
            }
            if old(self)@.contains(p) {
                let k = choose|k: int|
                    0 <= k < before.len() && (#[trigger] before[k]).0@ == p.slug && before[k].1
                        == p.line;
                assert(self.seen@[k] == before[k]);
            }
            if p == place {
                assert(self.seen@[before.len() as int].0@ == p.slug);
            }
        }
        assert(self@ =~= old(self)@.insert(place));
        true
    }
}

/// Whether no identifier has two occurrences on the same line of the same
/// file.
pub open spec fn no_repeats(map: Map<Seq<char>, Seq<EntryView>>) -> bool {
    forall|slug: Seq<char>, i: int, j: int|
        map.contains_key(slug) && 0 <= i < j < map[slug].len() ==> !((#[trigger] map[slug][i]).file
            == (#[trigger] map[slug][j]).file && map[slug][i].line == map[slug][j].line)
}

/// The path under which the occurrences of a file are recorded.
pub open spec fn recorded(root: Seq<char>, file: SourceFileView) -> Seq<char> {
    relative(root, file.path)
}

/// Whether no two of the files are recorded under the same path.
pub open spec fn distinct_paths(root: Seq<char>, files: Seq<SourceFileView>) -> bool {
    forall|i: int, j: int|
        0 <= i < j < files.len() ==> recorded(root, #[trigger] files[i]) != recorded(
            root,
            #[trigger] files[j],
        )
}

/// Whether one of the first `k` files is recorded under `path`.
pub open spec fn among_paths(
    root: Seq<char>,
    files: Seq<SourceFileView>,
    k: int,
    path: Seq<char>,
) -> bool {
    exists|i: int| 0 <= i < k && i < files.len() && recorded(root, #[trigger] files[i]) == path
}

/// Whether every occurrence of the mapping lies in one of the first `k`
/// files.
pub open spec fn from_files(
    map: Map<Seq<char>, Seq<EntryView>>,
    root: Seq<char>,
    files: Seq<SourceFileView>,
    k: int,
) -> bool {
    forall|slug: Seq<char>, i: int|
        map.contains_key(slug) && 0 <= i < map[slug].len() ==> among_paths(
            root,
            files,
            k,
            (#[trigger] map[slug][i]).file,
        )
}

/// The records of the occurrences that name `slug`, in order.
pub open spec fn entries_for(os: Seq<Occurrence>, slug: Seq<char>) -> Seq<EntryView>
    decreases os.len(),
{
    if os.len() == 0 {
        Seq::empty()
    } else if os.last().slug == slug {
        entries_for(os.drop_last(), slug).push(os.last().entry)
    } else {
        entries_for(os.drop_last(), slug)
    }
}

/// Absorbing occurrences appends, for each identifier, the records of the
/// occurrences that name it to the list the identifier had.
pub proof fn lemma_absorb_all(map: Map<Seq<char>, Seq<EntryView>>, os: Seq<Occurrence>, slug: Seq<char>)
    ensures
        entries_of(absorb_all(map, os), slug) == entries_of(map, slug) + entries_for(os, slug),
        absorb_all(map, os).contains_key(slug) ==> map.contains_key(slug) || entries_for(
            os,
            slug,
        ).len() > 0,
    decreases os.len(),
{
    if os.len() > 0 {
        lemma_absorb_all(map, os.drop_last(), slug);
        let before = absorb_all(map, os.drop_last());
        if os.last().slug == slug {
            assert(entries_of(absorb(before, os.last()), slug) == entries_of(before, slug).push(
                os.last().entry,
            ));
            assert((entries_of(map, slug) + entries_for(os.drop_last(), slug)).push(os.last().entry)
                == entries_of(map, slug) + entries_for(os.drop_last(), slug).push(
                os.last().entry,
            ));
        } else {
            assert(entries_of(absorb(before, os.last()), slug) == entries_of(before, slug));
        }
    } else {
        assert(entries_of(map, slug) + Seq::<EntryView>::empty() == entries_of(map, slug));
    }
}

/// The records for an identifier come from occurrences that name it, in the
/// order of the occurrences.
pub proof fn lemma_entries_for(os: Seq<Occurrence>, slug: Seq<char>)
    ensures
        forall|a: int|
            0 <= a < entries_for(os, slug).len() ==> exists|i: int|
                0 <= i < os.len() && (#[trigger] os[i]).slug == slug && os[i].entry
                    == #[trigger] entries_for(os, slug)[a],
        forall|a: int, b: int|
            0 <= a < b < entries_for(os, slug).len() ==> exists|i: int, j: int|
                0 <= i < j < os.len() && (#[trigger] os[i]).slug == slug && (
                #[trigger] os[j]).slug == slug && os[i].entry == #[trigger] entries_for(os, slug)[a]
                    && os[j].entry == #[trigger] entries_for(os, slug)[b],
    decreases os.len(),
{
    if os.len() > 0 {
        let front = os.drop_last();
        let prev = entries_for(front, slug);
        let out = entries_for(os, slug);
        lemma_entries_for(front, slug);
        assert forall|a: int| 0 <= a < out.len() implies exists|i: int|
            0 <= i < os.len() && (#[trigger] os[i]).slug == slug && os[i].entry
                == #[trigger] out[a] by {
            if a < prev.len() {
                assert(out[a] == prev[a]);
                let i = choose|i: int|
                    0 <= i < front.len() && (#[trigger] front[i]).slug == slug && front[i].entry
                        == prev[a];
                assert(os[i] == front[i]);
            } else {
                let z = os.len() - 1;
                assert(os[z].slug == slug && os[z].entry == out[a]);
            }
        }
        assert forall|a: int, b: int| 0 <= a < b < out.len() implies exists|i: int, j: int|
            0 <= i < j < os.len() && (#[trigger] os[i]).slug == slug && (#[trigger] os[j]).slug
                == slug && os[i].entry == #[trigger] out[a] && os[j].entry
                == #[trigger] out[b] by {
            if b < prev.len() {
                assert(out[a] == prev[a] && out[b] == prev[b]);
                let (i, j) = choose|i: int, j: int|
                    0 <= i < j < front.len() && (#[trigger] front[i]).slug == slug && (
                    #[trigger] front[j]).slug == slug && front[i].entry == prev[a]
                        && front[j].entry == prev[b];
                assert(os[i] == front[i] && os[j] == front[j]);
            } else {
                assert(out[a] == prev[a]);
                let i = choose|i: int|
                    0 <= i < front.len() && (#[trigger] front[i]).slug == slug && front[i].entry
                        == prev[a];
                let z = os.len() - 1;
                assert(os[i] == front[i]);
                assert(os[z].slug == slug && os[z].entry == out[b]);
            }
        }
    }
}

/// Every occurrence found in a file is recorded under that file.
pub proof fn lemma_found_in_file(
    tree: Seq<NodeView>,
    profile: ProfileView,
    pattern: Seq<char>,
    file: Seq<char>,
    comments: Seq<CommentView>,
)
    ensures
        forall|i: int|
            0 <= i < found_among(tree, profile, pattern, file, comments).len() ==> (
            #[trigger] found_among(tree, profile, pattern, file, comments)[i]).entry.file == file,
    decreases comments.len(),
{
    if comments.len() > 0 {
        lemma_found_in_file(tree, profile, pattern, file, comments.drop_last());
        let before = found_among(tree, profile, pattern, file, comments.drop_last());
        let here = found_by(tree, profile, pattern, file, comments.last());
        let all = found_among(tree, profile, pattern, file, comments);
        assert forall|i: int| 0 <= i < all.len() implies (#[trigger] all[i]).entry.file == file by {
            if i < before.len() {
                assert(all[i] == before[i]);
            } else {
                assert(all[i] == here[i - before.len()]);
                assert(here[i - before.len()].entry == entry_at(
                    tree,
                    profile,
                    file,
                    comments.last().node,
                ));
            }
        }
    }
}

/// Absorbing the occurrences of a file that the mapping does not hold yet
/// keeps the mapping free of repeats.
pub proof fn lemma_absorb_keeps_no_repeats(
    map: Map<Seq<char>, Seq<EntryView>>,
    os: Seq<Occurrence>,
    file: Seq<char>,
)
    requires
        no_repeats(map),
        forall|slug: Seq<char>, i: int|
            map.contains_key(slug) && 0 <= i < map[slug].len() ==> (#[trigger] map[slug][i]).file
                != file,
        forall|i: int| 0 <= i < os.len() ==> (#[trigger] os[i]).entry.file == file,
        forall|i: int, j: int|
            0 <= i < j < os.len() ==> !same_place(#[trigger] os[i], #[trigger] os[j]),
    ensures
        no_repeats(absorb_all(map, os)),
        forall|slug: Seq<char>, i: int|
            absorb_all(map, os).contains_key(slug) && 0 <= i < absorb_all(map, os)[slug].len()
                ==> (exists|k: int|
                map.contains_key(slug) && 0 <= k < map[slug].len() && #[trigger] map[slug][k]
                    == absorb_all(map, os)[slug][i]) || (#[trigger] absorb_all(
                map,
                os,
            )[slug][i]).file == file,
{
    let out = absorb_all(map, os);
    assert forall|slug: Seq<char>, i: int, j: int|
        out.contains_key(slug) && 0 <= i < j < out[slug].len() implies !((
    #[trigger] out[slug][i]).file == (#[trigger] out[slug][j]).file && out[slug][i].line
        == out[slug][j].line) by {
        lemma_absorb_all(map, os, slug);
        lemma_entries_for(os, slug);
        let old = entries_of(map, slug);
        let new = entries_for(os, slug);
        assert(out[slug] == old + new);
        if j < old.len() {
            assert(out[slug][i] == map[slug][i] && out[slug][j] == map[slug][j]);
        } else if i < old.len() {
            assert(out[slug][i] == map[slug][i]);
            assert(out[slug][j] == new[j - old.len()]);
            let w = choose|w: int|
                0 <= w < os.len() && (#[trigger] os[w]).slug == slug && os[w].entry == new[j
                    - old.len()];
            assert(os[w].entry.file == file);
        } else {
            let a = i - old.len();
            let b = j - old.len();
            assert(out[slug][i] == new[a] && out[slug][j] == new[b]);
            let (p, q) = choose|p: int, q: int|
                0 <= p < q < os.len() && (#[trigger] os[p]).slug == slug && (#[trigger] os[q]).slug
                    == slug && os[p].entry == new[a] && os[q].entry == new[b];
            assert(!same_place(os[p], os[q]));
        }
    }
    assert forall|slug: Seq<char>, i: int|
        out.contains_key(slug) && 0 <= i < out[slug].len() implies (exists|k: int|
        map.contains_key(slug) && 0 <= k < map[slug].len() && #[trigger] map[slug][k]
            == out[slug][i]) || (#[trigger] out[slug][i]).file == file by {
        lemma_absorb_all(map, os, slug);
        lemma_entries_for(os, slug);
        let old = entries_of(map, slug);
        let new = entries_for(os, slug);
        assert(out[slug] == old + new);
        if i < old.len() {
            assert(map[slug][i] == out[slug][i]);
        } else {
            assert(out[slug][i] == new[i - old.len()]);
            let w = choose|w: int|
                0 <= w < os.len() && (#[trigger] os[w]).slug == slug && os[w].entry == new[i
                    - old.len()];
            assert(os[w].entry.file == file);
        }
    }
}

/// Scanning one more file, which is recorded under a path of its own,
/// keeps the mapping free of repeats.
pub proof fn lemma_scan_file_keeps_no_repeats(
    map: Map<Seq<char>, Seq<EntryView>>,
    root: Seq<char>,
    files: Seq<SourceFileView>,
    k: int,
    source: Seq<char>,
    pattern: Seq<char>,
)
    requires
        distinct_paths(root, files),
        0 <= k < files.len(),
        no_repeats(map),
        from_files(map, root, files, k),
    ensures
        no_repeats(scan_file_result(map, root, files[k].path, source, pattern)),
        from_files(scan_file_result(map, root, files[k].path, source, pattern), root, files, k + 1),
{
    let file = recorded(root, files[k]);
    let out = scan_file_result(map, root, files[k].path, source, pattern);
    assert forall|slug: Seq<char>, i: int|
        map.contains_key(slug) && 0 <= i < map[slug].len() implies (#[trigger] map[slug][i]).file
        != file by {
        assert(among_paths(root, files, k, map[slug][i].file));
        let w = choose|w: int|
            0 <= w < k && w < files.len() && recorded(root, #[trigger] files[w])
                == map[slug][i].file;
        assert(recorded(root, files[w]) != recorded(root, files[k]));
    }
    assert forall|slug: Seq<char>, i: int|
        map.contains_key(slug) && 0 <= i < map[slug].len() implies among_paths(
        root,
        files,
        k + 1,
        (#[trigger] map[slug][i]).file,
    ) by {
        assert(among_paths(root, files, k, map[slug][i].file));
        let w = choose|w: int|
            0 <= w < k && w < files.len() && recorded(root, #[trigger] files[w])
                == map[slug][i].file;
        assert(0 <= w < k + 1 && recorded(root, files[w]) == map[slug][i].file);
    }
    if let Some(language) = path_language(files[k].path) {
        if let Some(raw) = parsed_nodes(language, source, name_fields_of(language)) {
            if valid_raw(raw) {
                let tree = tree_of(raw);
                let profile = profile_of(language);
                let os = occurrences(tree, profile, pattern, file);
                let found = found_among(tree, profile, pattern, file, comments_of(tree, profile));
                lemma_first_of_each(found);
                lemma_found_in_file(tree, profile, pattern, file, comments_of(tree, profile));
                assert forall|i: int| 0 <= i < os.len() implies (#[trigger] os[i]).entry.file
                    == file by {
                    assert(found.contains(os[i]));
                    let w = choose|w: int| 0 <= w < found.len() && found[w] == os[i];
                    assert(found[w].entry.file == file);
                }
                lemma_absorb_keeps_no_repeats(map, os, file);
                assert(out == absorb_all(map, os));
                assert forall|slug: Seq<char>, i: int|
                    out.contains_key(slug) && 0 <= i < out[slug].len() implies among_paths(
                    root,
                    files,
                    k + 1,
                    (#[trigger] out[slug][i]).file,
                ) by {
                    if out[slug][i].file == file {
                        assert(recorded(root, files[k]) == out[slug][i].file);
                    } else {
                        let w = choose|w: int|
                            map.contains_key(slug) && 0 <= w < map[slug].len()
                                && #[trigger] map[slug][w] == out[slug][i];
                        assert(among_paths(root, files, k + 1, map[slug][w].file));
                    }
                }
            }
        }
    }
}

/// The dedup invariant: when no two of the files scanned are recorded under
/// the same path, the result mapping holds no identifier twice for the same
/// line of the same file.
pub proof fn lemma_scan_has_no_repeats(
    root: Seq<char>,
    files: Seq<SourceFileView>,
    pattern: Seq<char>,
    k: int,
)
    requires
        distinct_paths(root, files),
        0 <= k <= files.len(),
        scan_all(root, files, pattern, k) is Ok,
    ensures
        no_repeats(scan_all(root, files, pattern, k)->Ok_0),
        from_files(scan_all(root, files, pattern, k)->Ok_0, root, files, k),
    decreases k,
{
    if k > 0 {
        lemma_scan_has_no_repeats(root, files, pattern, k - 1);
        let before = scan_all(root, files, pattern, k - 1)->Ok_0;
        if path_language(files[k - 1].path) is None {
            assert forall|slug: Seq<char>, i: int|
                before.contains_key(slug) && 0 <= i < before[slug].len() implies among_paths(
                root,
                files,
                k,
                (#[trigger] before[slug][i]).file,
            ) by {
                assert(among_paths(root, files, k - 1, before[slug][i].file));
                let w = choose|w: int|
                    0 <= w < k - 1 && w < files.len() && recorded(root, #[trigger] files[w])
                        == before[slug][i].file;
                assert(0 <= w < k && recorded(root, files[w]) == before[slug][i].file);
            }
        } else {
            lemma_scan_file_keeps_no_repeats(
                before,
                root,
                files,
                k - 1,
                files[k - 1].contents->Ok_0,
                pattern,
            );
        }
    }
}

} // verus!
