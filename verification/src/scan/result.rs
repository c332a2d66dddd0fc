//! The result mapping: from each identifier to its occurrences.

use crate::git::BlameInfo;
use crate::scan::entry::{blame_view, entry_views, Entry, EntryView};
use crate::text::{
    chars_of, lemma_lex_irreflexive, lemma_lex_total, lemma_lex_transitive, lex_less,
    lex_less_chars,
};
use vstd::prelude::*;

verus! {

/// One key of the result mapping with its occurrences.
pub struct GroupView {
    pub slug: Seq<char>,
    pub entries: Seq<EntryView>,
}

/// One occurrence on its way into the result mapping.
pub struct Occurrence {
    pub slug: Seq<char>,
    pub entry: EntryView,
}

/// Whether the groups are in key order: keys rise strictly in the
/// lexicographic order of strings, so no key occurs twice, and no group is
/// empty.
pub open spec fn sorted_groups(groups: Seq<GroupView>) -> bool {
    &&& forall|i: int, j: int|
        0 <= i < j < groups.len() ==> lex_less(
            (#[trigger] groups[i]).slug,
            (#[trigger] groups[j]).slug,
        )
    &&& forall|i: int| 0 <= i < groups.len() ==> (#[trigger] groups[i]).entries.len() > 0
}

/// Whether `groups` has a group for `slug` at index `i`.
pub open spec fn group_at(groups: Seq<GroupView>, slug: Seq<char>, i: int) -> bool {
    0 <= i < groups.len() && groups[i].slug == slug
}

/// The mapping that a list of groups denotes.
pub open spec fn group_map(groups: Seq<GroupView>) -> Map<Seq<char>, Seq<EntryView>> {
    Map::new(
        |slug: Seq<char>| exists|i: int| group_at(groups, slug, i),
        |slug: Seq<char>| groups[choose|i: int| group_at(groups, slug, i)].entries,
    )
}

/// The occurrences recorded for `slug`; none for a key that the mapping
/// lacks.
pub open spec fn entries_of(map: Map<Seq<char>, Seq<EntryView>>, slug: Seq<char>) -> Seq<
    EntryView,
> {
    if map.contains_key(slug) {
        map[slug]
    } else {
        Seq::empty()
    }
}

/// The mapping after one more occurrence: it is appended to the list of its
/// identifier.
pub open spec fn absorb(map: Map<Seq<char>, Seq<EntryView>>, o: Occurrence) -> Map<
    Seq<char>,
    Seq<EntryView>,
> {
    map.insert(o.slug, entries_of(map, o.slug).push(o.entry))
}

/// The mapping after a list of occurrences, absorbed in order.
pub open spec fn absorb_all(map: Map<Seq<char>, Seq<EntryView>>, os: Seq<Occurrence>) -> Map<
    Seq<char>,
    Seq<EntryView>,
>
    decreases os.len(),
{
    if os.len() == 0 {
        map
    } else {
        absorb(absorb_all(map, os.drop_last()), os.last())
    }
}

/// In sorted groups, the group of a key is the only one with that key.
pub proof fn lemma_group_unique(groups: Seq<GroupView>, i: int, j: int)
    requires
        sorted_groups(groups),
        0 <= i < groups.len(),
        0 <= j < groups.len(),
        groups[i].slug == groups[j].slug,
    ensures
        i == j,
{
    lemma_lex_irreflexive(groups[i].slug);
}

/// What `group_map` holds for sorted groups.
pub proof fn lemma_group_map(groups: Seq<GroupView>)
    requires
        sorted_groups(groups),
    ensures
        forall|i: int|
            0 <= i < groups.len() ==> group_map(groups).contains_key((#[trigger] groups[i]).slug)
                && group_map(groups)[groups[i].slug] == groups[i].entries,
        forall|slug: Seq<char>|
            group_map(groups).contains_key(slug) <==> exists|i: int| group_at(groups, slug, i),
{
    assert forall|i: int| 0 <= i < groups.len() implies group_map(groups).contains_key(
        (#[trigger] groups[i]).slug,
    ) && group_map(groups)[groups[i].slug] == groups[i].entries by {
        assert(group_at(groups, groups[i].slug, i));
        let w = choose|w: int| group_at(groups, groups[i].slug, w);
        lemma_group_unique(groups, i, w);
    }
}

/// One key of a [`ScanResult`] with its occurrences.
#[derive(Debug)]
pub struct SlugGroup {
    slug: String,
    key: Vec<char>,
    entries: Vec<Entry>,
}

impl View for SlugGroup {
    type V = GroupView;

    closed spec fn view(&self) -> GroupView {
        GroupView { slug: self.slug@, entries: entry_views(self.entries@) }
    }
}

/// The mapping from each identifier found to its occurrences. Keys are kept
/// in the lexicographic order of strings; the occurrences of a key are kept
/// in the order in which they were found.
#[derive(Debug)]
pub struct ScanResult {
    groups: Vec<SlugGroup>,
}

impl View for ScanResult {
    type V = Map<Seq<char>, Seq<EntryView>>;

    open spec fn view(&self) -> Map<Seq<char>, Seq<EntryView>> {
        group_map(self.groups())
    }
}

impl ScanResult {
    /// The keys with their occurrences, in key order.
    pub closed spec fn groups(&self) -> Seq<GroupView> {
        Seq::new(self.groups@.len(), |i: int| self.groups@[i]@)
    }

    /// Whether the mapping is in a consistent state. Every mapping that
    /// this library hands out is.
    pub closed spec fn wf(&self) -> bool {
        &&& sorted_groups(self.groups())
        &&& forall|i: int|
            0 <= i < self.groups@.len() ==> (#[trigger] self.groups@[i]).key@
                == self.groups@[i].slug@
    }

    /// The groups of a consistent mapping are in key order.
    pub proof fn lemma_sorted(&self)
        requires
            self.wf(),
        ensures
            sorted_groups(self.groups()),
    {
    }

    /// The mapping without any key.
    pub fn new() -> (r: ScanResult)
        ensures
            r.wf(),
            r.groups() == Seq::<GroupView>::empty(),
            r@ == Map::<Seq<char>, Seq<EntryView>>::empty(),
    {
        let r = ScanResult { groups: Vec::new() };
        assert(r.groups() =~= Seq::<GroupView>::empty());
        assert(r@ =~= Map::<Seq<char>, Seq<EntryView>>::empty());
        r
    }

    /// The number of keys.
    pub fn len(&self) -> (n: usize)
        ensures
            n == self.groups().len(),
    {
        self.groups.len()
    }

    /// Whether the mapping has no key.
    pub fn is_empty(&self) -> (r: bool)
        ensures
            r == (self.groups().len() == 0),
    {
        self.groups.len() == 0
    }

    /// The key at position `i` of the key order.
    pub fn slug(&self, i: usize) -> (r: &String)
        requires
            i < self.groups().len(),
        ensures
            r@ == self.groups()[i as int].slug,
    {
        &self.groups[i].slug
    }

    /// The occurrences of the key at position `i` of the key order.
    pub fn entries(&self, i: usize) -> (r: &Vec<Entry>)
        requires
            i < self.groups().len(),
        ensures
            entry_views(r@) == self.groups()[i as int].entries,
    {
        &self.groups[i].entries
    }

    /// The position of the key `slug` in the key order.
    pub fn position(&self, slug: &str) -> (r: Option<usize>)
        requires
            self.wf(),
        ensures
            match r {
                Some(i) => group_at(self.groups(), slug@, i as int),
                None => !self@.contains_key(slug@),
            },
    {
        let key = chars_of(slug);
        let mut i: usize = 0;
        while i < self.groups.len()
            invariant
                self.wf(),
                i <= self.groups.len(),
                key@ == slug@,
                forall|k: int| 0 <= k < i ==> (#[trigger] self.groups()[k]).slug != slug@,
            decreases self.groups.len() - i,
        {
            if !lex_less_chars(&self.groups[i].key, &key) && !lex_less_chars(
                &key,
                &self.groups[i].key,
            ) {
                proof {
                    lemma_lex_total(self.groups@[i as int].key@, key@);
                }
                return Some(i);
            }
            proof {
                lemma_lex_irreflexive(key@);
            }
            i = i + 1;
        }
        None
    }

    /// Whether the mapping has the key `slug`.
    pub fn contains_key(&self, slug: &str) -> (r: bool)
        requires
            self.wf(),
        ensures
            r == self@.contains_key(slug@),
    {
        let found = self.position(slug);
        proof {
            lemma_group_map(self.groups());
        }
        found.is_some()
    }

    /// The occurrences of the key `slug`.
    pub fn get(&self, slug: &str) -> (r: Option<&Vec<Entry>>)
        requires
            self.wf(),
        ensures
            match r {
                Some(entries) => self@.contains_key(slug@) && entry_views(entries@) == self@[slug@],
                None => !self@.contains_key(slug@),
            },
    {
        proof {
            lemma_group_map(self.groups());
        }
        match self.position(slug) {
            Some(i) => Some(&self.groups[i].entries),
            None => None,
        }
    }

    /// Records one more occurrence of the identifier `slug`.
    pub fn push(&mut self, slug: String, entry: Entry)
        requires
            old(self).wf(),
        ensures
            final(self).wf(),
            final(self)@ == absorb(old(self)@, Occurrence { slug: slug@, entry: entry@ }),
    {
        let key = chars_of(slug.as_str());
        let ghost before = self.groups();
        let mut i: usize = 0;
        while i < self.groups.len() && lex_less_chars(&self.groups[i].key, &key)
            invariant
                self.wf(),
                self.groups() == before,
                i <= self.groups.len(),
                key@ == slug@,
                forall|k: int| 0 <= k < i ==> lex_less((#[trigger] before[k]).slug, slug@),
            decreases self.groups.len() - i,
        {
            i = i + 1;
        }
        proof {
            lemma_group_map(before);
        }
        if i < self.groups.len() && self.groups[i].slug == slug {
            let ghost added = entry@;
            let ghost prior = self.groups@;
            self.groups[i].entries.push(entry);
            assert(self.groups@.len() == prior.len());
            assert(forall|k: int| 0 <= k < prior.len() && k != i ==> self.groups@[k] == prior[k]);
            assert(self.groups@[i as int].slug == prior[i as int].slug);
            assert(self.groups@[i as int].key == prior[i as int].key);
            assert(self.groups@[i as int].entries@ == prior[i as int].entries@.push(entry));
            assert(entry_views(self.groups@[i as int].entries@) =~= entry_views(
                prior[i as int].entries@,
            ).push(added));
            assert(self.groups() =~= before.update(
                i as int,
                GroupView { slug: slug@, entries: before[i as int].entries.push(added) },
            ));
            proof {
                lemma_group_map(self.groups());
                assert(self@ =~= absorb(group_map(before), Occurrence { slug: slug@, entry: added }))
                    by {
                    assert forall|s: Seq<char>| self@.contains_key(s) implies absorb(
                        group_map(before),
                        Occurrence { slug: slug@, entry: added },
                    ).contains_key(s) && self@[s] == absorb(
                        group_map(before),
                        Occurrence { slug: slug@, entry: added },
                    )[s] by {
                        let w = choose|w: int| group_at(self.groups(), s, w);
                        assert(group_at(before, s, w));
                    }
                    assert forall|s: Seq<char>|
                        absorb(
                            group_map(before),
                            Occurrence { slug: slug@, entry: added },
                        ).contains_key(s) implies self@.contains_key(s) by {
                        if s == slug@ {
                            assert(group_at(self.groups(), s, i as int));
                        } else {
                            let w = choose|w: int| group_at(before, s, w);
                            assert(group_at(self.groups(), s, w));
                        }
                    }
                }
            }
        } else {
            let ghost added = entry@;
            proof {
                if i < before.len() {
                    lemma_lex_total(before[i as int].slug, slug@);
                    assert forall|j: int| i < j < before.len() implies lex_less(
                        slug@,
                        (#[trigger] before[j]).slug,
                    ) by {
                        lemma_lex_transitive(slug@, before[i as int].slug, before[j].slug);
                    }
                }
                assert forall|j: int| 0 <= j < before.len() implies (#[trigger] before[j]).slug
                    != slug@ by {
                    lemma_lex_irreflexive(slug@);
                }
            }
            let mut entries: Vec<Entry> = Vec::new();
            entries.push(entry);
            assert(entry_views(entries@) =~= seq![added]);
            self.groups.insert(i, SlugGroup { slug, key, entries });
            assert(self.groups() =~= before.insert(
                i as int,
                GroupView { slug: slug@, entries: seq![added] },
            ));
            proof {
                lemma_group_map(self.groups());
                assert(!group_map(before).contains_key(slug@));
                assert(Seq::<EntryView>::empty().push(added) =~= seq![added]);
                assert(self@ =~= absorb(group_map(before), Occurrence { slug: slug@, entry: added }))
                    by {
                    assert forall|s: Seq<char>| self@.contains_key(s) implies absorb(
                        group_map(before),
                        Occurrence { slug: slug@, entry: added },
                    ).contains_key(s) && self@[s] == absorb(
                        group_map(before),
                        Occurrence { slug: slug@, entry: added },
                    )[s] by {
                        let w = choose|w: int| group_at(self.groups(), s, w);
                        if w < i {
                            assert(group_at(before, s, w));
                        } else if w > i {
                            assert(group_at(before, s, w - 1));
                        }
                    }
                    assert forall|s: Seq<char>|
                        absorb(
                            group_map(before),
                            Occurrence { slug: slug@, entry: added },
                        ).contains_key(s) implies self@.contains_key(s) by {
                        if s == slug@ {
                            assert(group_at(self.groups(), s, i as int));
                        } else {
                            let w = choose|w: int| group_at(before, s, w);
                            if w < i {
                                assert(group_at(self.groups(), s, w));
                            } else {
                                assert(group_at(self.groups(), s, w + 1));
                            }
                        }
                    }
                }
            }
        }
    }
}

impl ScanResult {
    /// Sets the attribution of the occurrence at position `j` of the key at
    /// position `i`. Nothing else changes.
    pub fn set_blame(&mut self, i: usize, j: usize, blame: Option<BlameInfo>)
        requires
            old(self).wf(),
            i < old(self).groups().len(),
            j < old(self).groups()[i as int].entries.len(),
        ensures
            final(self).wf(),
            final(self).groups() == old(self).groups().update(
                i as int,
                GroupView {
                    slug: old(self).groups()[i as int].slug,
                    entries: old(self).groups()[i as int].entries.update(
                        j as int,
                        EntryView {
                            blame: blame_view(blame),
                            ..old(self).groups()[i as int].entries[j as int]
                        },
                    ),
                },
            ),
    {
        let ghost prior = self.groups@;
        let ghost before = self.groups();
        self.groups[i].entries[j].blame = blame;
        assert(self.groups@.len() == prior.len());
        assert(forall|k: int| 0 <= k < prior.len() && k != i ==> self.groups@[k] == prior[k]);
        assert(self.groups@[i as int].slug == prior[i as int].slug);
        assert(self.groups@[i as int].key == prior[i as int].key);
        assert(self.groups@[i as int].entries@.len() == prior[i as int].entries@.len());
        assert(forall|k: int|
            0 <= k < prior[i as int].entries@.len() && k != j ==> self.groups@[i as int].entries@[k]
                == prior[i as int].entries@[k]);
        assert(entry_views(self.groups@[i as int].entries@) =~= before[i as int].entries.update(
            j as int,
            EntryView { blame: blame_view(blame), ..before[i as int].entries[j as int] },
        ));
        assert(self.groups() =~= before.update(
            i as int,
            GroupView {
                slug: before[i as int].slug,
                entries: before[i as int].entries.update(
                    j as int,
                    EntryView { blame: blame_view(blame), ..before[i as int].entries[j as int] },
                ),
            },
        ));
    }
}

/// In sorted groups, the groups after the first denote the mapping without
/// the first key.
proof fn lemma_group_map_rest(groups: Seq<GroupView>)
    requires
        sorted_groups(groups),
        groups.len() > 0,
    ensures
        sorted_groups(groups.drop_first()),
        group_map(groups.drop_first()) == group_map(groups).remove(groups[0].slug),
{
    let rest = groups.drop_first();
    assert forall|i: int, j: int| 0 <= i < j < rest.len() implies lex_less(
        (#[trigger] rest[i]).slug,
        (#[trigger] rest[j]).slug,
    ) by {
        assert(rest[i] == groups[i + 1] && rest[j] == groups[j + 1]);
    }
    assert forall|i: int| 0 <= i < rest.len() implies (#[trigger] rest[i]).entries.len() > 0 by {
        assert(rest[i] == groups[i + 1]);
    }
    lemma_group_map(groups);
    lemma_group_map(rest);
    let whole = group_map(groups).remove(groups[0].slug);
    assert forall|slug: Seq<char>| #[trigger]
        group_map(rest).dom().contains(slug) == whole.dom().contains(slug) by {
        if group_map(rest).dom().contains(slug) {
            let w = choose|w: int| group_at(rest, slug, w);
            assert(rest[w] == groups[w + 1]);
            assert(group_at(groups, slug, w + 1));
            lemma_lex_irreflexive(slug);
            assert(lex_less(groups[0].slug, groups[w + 1].slug));
        }
        if whole.dom().contains(slug) {
            let w = choose|w: int| group_at(groups, slug, w);
            assert(w > 0);
            assert(rest[w - 1] == groups[w]);
            assert(group_at(rest, slug, w - 1));
        }
    }
    assert forall|slug: Seq<char>| #[trigger]
        group_map(rest).dom().contains(slug) implies group_map(rest)[slug] == whole[slug] by {
        let w = choose|w: int| group_at(rest, slug, w);
        assert(rest[w] == groups[w + 1]);
        assert(group_map(rest)[rest[w].slug] == rest[w].entries);
        assert(group_map(groups)[groups[w + 1].slug] == groups[w + 1].entries);
        lemma_lex_irreflexive(slug);
        assert(lex_less(groups[0].slug, groups[w + 1].slug));
    }
    assert(group_map(rest).dom() =~= whole.dom());
    assert(group_map(rest) =~= whole);
}

/// The least key of sorted groups is the first.
proof fn lemma_first_is_least(groups: Seq<GroupView>, i: int)
    requires
        sorted_groups(groups),
        0 <= i < groups.len(),
    ensures
        i == 0 || lex_less(groups[0].slug, groups[i].slug),
{
}

/// Key order: a mapping has one listing in key order only. Two listings in
/// key order that denote the same mapping are the same listing.
pub proof fn lemma_groups_determined(a: Seq<GroupView>, b: Seq<GroupView>)
    requires
        sorted_groups(a),
        sorted_groups(b),
        group_map(a) == group_map(b),
    ensures
        a == b,
    decreases a.len(),
{
    lemma_group_map(a);
    lemma_group_map(b);
    if a.len() == 0 {
        if b.len() > 0 {
            assert(group_map(b).contains_key(b[0].slug));
            let w = choose|w: int| group_at(a, b[0].slug, w);
            assert(false);
        }
        assert(a =~= b);
    } else if b.len() == 0 {
        assert(group_map(a).contains_key(a[0].slug));
        let w = choose|w: int| group_at(b, a[0].slug, w);
        assert(false);
    } else {
        assert(group_map(a).contains_key(a[0].slug));
        assert(group_map(b).contains_key(b[0].slug));
        let j = choose|j: int| group_at(b, a[0].slug, j);
        let i = choose|i: int| group_at(a, b[0].slug, i);
        lemma_first_is_least(b, j);
        lemma_first_is_least(a, i);
        if j != 0 {
            lemma_lex_irreflexive(a[0].slug);
            if i != 0 {
                lemma_lex_transitive(a[0].slug, b[0].slug, a[0].slug);
            }
        }
        assert(a[0].slug == b[0].slug);
        assert(a[0].entries == b[0].entries);
        assert(a[0] == b[0]);
        lemma_group_map_rest(a);
        lemma_group_map_rest(b);
        lemma_groups_determined(a.drop_first(), b.drop_first());
        assert(a =~= seq![a[0]] + a.drop_first());
        assert(b =~= seq![b[0]] + b.drop_first());
    }
}

impl ScanResult {
    /// Two consistent mappings with the same content list their keys and
    /// occurrences in the same order.
    pub proof fn lemma_same_view_same_order(&self, other: &ScanResult)
        requires
            self.wf(),
            other.wf(),
            self@ == other@,
        ensures
            self.groups() == other.groups(),
    {
        lemma_groups_determined(self.groups(), other.groups());
    }
}

} // verus!
