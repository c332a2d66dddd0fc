//! The attribution engine: which queries attribute the occurrences of a
//! result mapping, and how their outcomes are taken into it.

use crate::git::GitError;
use crate::git::porcelain::{blame_table, parse_blame_porcelain, BlameMap, BlameRecord};
use crate::scan::entry::{blame_view, EntryView};
use crate::scan::result::{GroupView, ScanResult};
use crate::search::{first_where, lemma_first_where_is, lemma_first_where_none};
use crate::text::{decimal, push_decimal, string_of, string_views};
use vstd::prelude::*;

verus! {

/// One query to the history tool: the attribution of the lines of `file`
/// from `start_line` to `end_line`, both included.
#[derive(Debug, PartialEq, Eq)]
pub struct BlameRequest {
    pub file: String,
    pub start_line: usize,
    pub end_line: usize,
}

/// The mathematical content of a [`BlameRequest`].
pub struct RequestView {
    pub file: Seq<char>,
    pub start_line: nat,
    pub end_line: nat,
}

impl View for BlameRequest {
    type V = RequestView;

    open spec fn view(&self) -> RequestView {
        RequestView {
            file: self.file@,
            start_line: self.start_line as nat,
            end_line: self.end_line as nat,
        }
    }
}

/// The views of a list of requests.
pub open spec fn request_views(requests: Seq<BlameRequest>) -> Seq<RequestView> {
    Seq::new(requests.len(), |i: int| requests[i]@)
}

/// All occurrences of a result mapping: those of the first key in their
/// order, then those of the second key, and so on.
pub open spec fn all_entries(groups: Seq<GroupView>) -> Seq<EntryView>
    decreases groups.len(),
{
    if groups.len() == 0 {
        Seq::empty()
    } else {
        all_entries(groups.drop_last()) + groups.last().entries
    }
}

/// Whether `requests` has a request for `file` at index `i`.
pub open spec fn request_at(requests: Seq<RequestView>, file: Seq<char>, i: int) -> bool {
    0 <= i < requests.len() && requests[i].file == file
}

/// The requests after one more occurrence: the request of the occurrence's
/// file is widened to take in its line, or a request for that line alone is
/// added at the end.
pub open spec fn note_line(requests: Seq<RequestView>, file: Seq<char>, line: nat) -> Seq<
    RequestView,
> {
    if exists|i: int| request_at(requests, file, i) {
        let i = choose|i: int| request_at(requests, file, i);
        requests.update(
            i,
            RequestView {
                file,
                start_line: if line < requests[i].start_line {
                    line
                } else {
                    requests[i].start_line
                },
                end_line: if line > requests[i].end_line {
                    line
                } else {
                    requests[i].end_line
                },
            },
        )
    } else {
        requests.push(RequestView { file, start_line: line, end_line: line })
    }
}

/// The queries that attribute a list of occurrences: one for each file, in
/// the order in which the files first occur, each for the least range of
/// lines that holds all occurrences of its file.
pub open spec fn requests_for(entries: Seq<EntryView>) -> Seq<RequestView>
    decreases entries.len(),
{
    if entries.len() == 0 {
        Seq::empty()
    } else {
        note_line(requests_for(entries.drop_last()), entries.last().file, entries.last().line)
    }
}

/// Whether no two requests name the same file.
pub open spec fn distinct_files(requests: Seq<RequestView>) -> bool {
    forall|i: int, j: int|
        0 <= i < j < requests.len() ==> (#[trigger] requests[i]).file != (
        #[trigger] requests[j]).file
}

/// Whether some occurrence of `file` stands on `line`.
pub open spec fn occurs_on(entries: Seq<EntryView>, file: Seq<char>, line: nat) -> bool {
    exists|k: int|
        0 <= k < entries.len() && (#[trigger] entries[k]).file == file && entries[k].line == line
}

/// Whether `requests` has a request for `file` whose range holds `line`.
pub open spec fn covered(requests: Seq<RequestView>, file: Seq<char>, line: nat) -> bool {
    exists|i: int|
        0 <= i < requests.len() && (#[trigger] requests[i]).file == file && requests[i].start_line
            <= line <= requests[i].end_line
}

/// Whether both ends of every request are lines on which its file has an
/// occurrence.
pub open spec fn ends_attained(requests: Seq<RequestView>, entries: Seq<EntryView>) -> bool {
    forall|i: int|
        0 <= i < requests.len() ==> occurs_on(
            entries,
            (#[trigger] requests[i]).file,
            requests[i].start_line,
        ) && occurs_on(entries, requests[i].file, requests[i].end_line)
}

/// Whether every occurrence lies in the range of the request of its file.
pub open spec fn all_covered(requests: Seq<RequestView>, entries: Seq<EntryView>) -> bool {
    forall|k: int|
        0 <= k < entries.len() ==> covered(requests, (#[trigger] entries[k]).file, entries[k].line)
}

/// What `note_line` does to the request of the file, when there is one.
proof fn lemma_note_line_shape(requests: Seq<RequestView>, file: Seq<char>, line: nat)
    requires
        distinct_files(requests),
    ensures
        forall|w: int|
            request_at(requests, file, w) ==> note_line(requests, file, line) == requests.update(
                w,
                RequestView {
                    file,
                    start_line: if line < requests[w].start_line {
                        line
                    } else {
                        requests[w].start_line
                    },
                    end_line: if line > requests[w].end_line {
                        line
                    } else {
                        requests[w].end_line
                    },
                },
            ),
        (forall|w: int| !request_at(requests, file, w)) ==> note_line(requests, file, line)
            == requests.push(RequestView { file, start_line: line, end_line: line }),
{
    assert forall|w: int| request_at(requests, file, w) implies note_line(requests, file, line)
        == requests.update(
        w,
        RequestView {
            file,
            start_line: if line < requests[w].start_line {
                line
            } else {
                requests[w].start_line
            },
            end_line: if line > requests[w].end_line {
                line
            } else {
                requests[w].end_line
            },
        },
    ) by {
        let c = choose|i: int| request_at(requests, file, i);
        assert(request_at(requests, file, c));
        if c < w {
            assert(requests[c].file != requests[w].file);
        } else if w < c {
            assert(requests[w].file != requests[c].file);
        }
    }
}

/// Taking one more line in keeps the files of the requests distinct.
proof fn lemma_note_line_distinct(requests: Seq<RequestView>, file: Seq<char>, line: nat)
    requires
        distinct_files(requests),
    ensures
        distinct_files(note_line(requests, file, line)),
{
    lemma_note_line_shape(requests, file, line);
    let out = note_line(requests, file, line);
    if exists|w: int| request_at(requests, file, w) {
        let w = choose|w: int| request_at(requests, file, w);
        assert forall|i: int, j: int| 0 <= i < j < out.len() implies (#[trigger] out[i]).file != (
        #[trigger] out[j]).file by {
            assert(out[i].file == requests[i].file && out[j].file == requests[j].file);
        }
    } else {
        assert forall|i: int, j: int| 0 <= i < j < out.len() implies (#[trigger] out[i]).file != (
        #[trigger] out[j]).file by {
            if j < requests.len() {
                assert(out[i] == requests[i] && out[j] == requests[j]);
            } else {
                assert(out[i] == requests[i]);
                assert(!request_at(requests, file, i));
            }
        }
    }
}

/// Taking the line of one more occurrence in keeps every occurrence
/// covered.
proof fn lemma_note_line_covers(requests: Seq<RequestView>, entries: Seq<EntryView>, e: EntryView)
    requires
        distinct_files(requests),
        all_covered(requests, entries),
    ensures
        all_covered(note_line(requests, e.file, e.line), entries.push(e)),
{
    lemma_note_line_shape(requests, e.file, e.line);
    let out = note_line(requests, e.file, e.line);
    let more = entries.push(e);
    if exists|w: int| request_at(requests, e.file, w) {
        let w = choose|w: int| request_at(requests, e.file, w);
        assert forall|k: int| 0 <= k < more.len() implies covered(
            out,
            (#[trigger] more[k]).file,
            more[k].line,
        ) by {
            if k < entries.len() {
                assert(more[k] == entries[k]);
                assert(covered(requests, entries[k].file, entries[k].line));
                let i = choose|i: int|
                    0 <= i < requests.len() && (#[trigger] requests[i]).file == entries[k].file
                        && requests[i].start_line <= entries[k].line <= requests[i].end_line;
                assert(out[i].file == more[k].file && out[i].start_line <= more[k].line
                    <= out[i].end_line);
            } else {
                assert(out[w].file == more[k].file && out[w].start_line <= more[k].line
                    <= out[w].end_line);
            }
        }
    } else {
        assert forall|k: int| 0 <= k < more.len() implies covered(
            out,
            (#[trigger] more[k]).file,
            more[k].line,
        ) by {
            if k < entries.len() {
                assert(more[k] == entries[k]);
                assert(covered(requests, entries[k].file, entries[k].line));
                let i = choose|i: int|
                    0 <= i < requests.len() && (#[trigger] requests[i]).file == entries[k].file
                        && requests[i].start_line <= entries[k].line <= requests[i].end_line;
                assert(out[i] == requests[i]);
            } else {
                let i = out.len() - 1;
                assert(out[i].file == more[k].file && out[i].start_line <= more[k].line
                    <= out[i].end_line);
            }
        }
    }
}

/// An occurrence of a list is still one of the list with one more.
proof fn lemma_occurs_on_push(entries: Seq<EntryView>, e: EntryView, file: Seq<char>, line: nat)
    requires
        occurs_on(entries, file, line) || (e.file == file && e.line == line),
    ensures
        occurs_on(entries.push(e), file, line),
{
    let more = entries.push(e);
    if occurs_on(entries, file, line) {
        let k = choose|k: int|
            0 <= k < entries.len() && (#[trigger] entries[k]).file == file && entries[k].line
                == line;
        assert(more[k].file == file && more[k].line == line);
    } else {
        let z = more.len() - 1;
        assert(more[z].file == file && more[z].line == line);
    }
}

/// Taking the line of one more occurrence in keeps the ends of every
/// request attained.
proof fn lemma_note_line_attains(requests: Seq<RequestView>, entries: Seq<EntryView>, e: EntryView)
    requires
        distinct_files(requests),
        ends_attained(requests, entries),
    ensures
        ends_attained(note_line(requests, e.file, e.line), entries.push(e)),
{
    lemma_note_line_shape(requests, e.file, e.line);
    let out = note_line(requests, e.file, e.line);
    let more = entries.push(e);
    if exists|w: int| request_at(requests, e.file, w) {
        let w = choose|w: int| request_at(requests, e.file, w);
        assert forall|i: int| 0 <= i < out.len() implies occurs_on(
            more,
            (#[trigger] out[i]).file,
            out[i].start_line,
        ) && occurs_on(more, out[i].file, out[i].end_line) by {
            assert(occurs_on(entries, requests[i].file, requests[i].start_line));
            assert(occurs_on(entries, requests[i].file, requests[i].end_line));
            assert(out[i].file == requests[i].file);
            lemma_occurs_on_push(entries, e, out[i].file, out[i].start_line);
            lemma_occurs_on_push(entries, e, out[i].file, out[i].end_line);
        }
    } else {
        assert forall|i: int| 0 <= i < out.len() implies occurs_on(
            more,
            (#[trigger] out[i]).file,
            out[i].start_line,
        ) && occurs_on(more, out[i].file, out[i].end_line) by {
            if i < requests.len() {
                assert(out[i] == requests[i]);
                assert(occurs_on(entries, requests[i].file, requests[i].start_line));
                assert(occurs_on(entries, requests[i].file, requests[i].end_line));
            }
            lemma_occurs_on_push(entries, e, out[i].file, out[i].start_line);
            lemma_occurs_on_push(entries, e, out[i].file, out[i].end_line);
        }
    }
}

/// One query per file, for the least range: no two requests name the same
/// file, every occurrence lies in the range of the request of its file, and
/// both ends of every request are lines on which its file has an
/// occurrence.
pub proof fn lemma_requests(entries: Seq<EntryView>)
    ensures
        distinct_files(requests_for(entries)),
        all_covered(requests_for(entries), entries),
        ends_attained(requests_for(entries), entries),
    decreases entries.len(),
{
    if entries.len() > 0 {
        let front = entries.drop_last();
        let last = entries.last();
        lemma_requests(front);
        assert(front.push(last) == entries);
        lemma_note_line_distinct(requests_for(front), last.file, last.line);
        lemma_note_line_covers(requests_for(front), front, last);
        lemma_note_line_attains(requests_for(front), front, last);
    }
}

/// Takes the line `line` of `file` into the requests.
fn note(requests: &mut Vec<BlameRequest>, file: &String, line: usize, Ghost(entries): Ghost<Seq<EntryView>>)
    requires
        request_views(old(requests)@) == requests_for(entries),
    ensures
        request_views(final(requests)@) == note_line(requests_for(entries), file@, line as nat),
{
    let ghost before = request_views(requests@);
    proof {
        lemma_requests(entries);
    }
    let mut i: usize = 0;
    while i < requests.len()
        invariant
            i <= requests.len(),
            before == request_views(requests@),
            before == requests_for(entries),
            distinct_files(before),
            forall|k: int| 0 <= k < i ==> !request_at(before, file@, k),
        decreases requests.len() - i,
    {
        if requests[i].file == *file {
            assert(request_at(before, file@, i as int));
            proof {
                lemma_note_line_shape(before, file@, line as nat);
            }
            if line < requests[i].start_line {
                requests[i].start_line = line;
            }
            if line > requests[i].end_line {
                requests[i].end_line = line;
            }
            assert(request_views(requests@) =~= note_line(before, file@, line as nat));
            return ;
        }
        i = i + 1;
    }
    proof {
        lemma_note_line_shape(before, file@, line as nat);
    }
    requests.push(BlameRequest { file: file.clone(), start_line: line, end_line: line });
    assert(request_views(requests@) =~= note_line(before, file@, line as nat));
}

/// The queries by which the occurrences of `results` are attributed: one
/// query for each file that has an occurrence, in the order in which the
/// files first occur, each for the least range of lines that holds all
/// occurrences of its file.
pub fn blame_requests(results: &ScanResult) -> (r: Vec<BlameRequest>)
    ensures
        request_views(r@) == requests_for(all_entries(results.groups())),
{
    let ghost groups = results.groups();
    let mut requests: Vec<BlameRequest> = Vec::new();
    let mut i: usize = 0;
    assert(groups.take(0) == Seq::<GroupView>::empty());
    assert(request_views(requests@) =~= Seq::<RequestView>::empty());
    while i < results.len()
        invariant
            i <= groups.len(),
            groups == results.groups(),
            request_views(requests@) == requests_for(all_entries(groups.take(i as int))),
        decreases groups.len() - i,
    {
        let entries = results.entries(i);
        let ghost before = all_entries(groups.take(i as int));
        let ghost here = groups[i as int].entries;
        let mut j: usize = 0;
        assert(before + here.take(0) == before);
        while j < entries.len()
            invariant
                j <= entries.len(),
                here.len() == entries.len(),
                forall|k: int| 0 <= k < entries.len() ==> #[trigger] here[k] == entries@[k]@,
                request_views(requests@) == requests_for(before + here.take(j as int)),
            decreases entries.len() - j,
        {
            let ghost seen = before + here.take(j as int);
            assert(before + here.take(j as int + 1) == seen.push(here[j as int]));
            assert(seen.push(here[j as int]).drop_last() == seen);
            note(&mut requests, &entries[j].file, entries[j].line, Ghost(seen));
            j = j + 1;
        }
        assert(here.take(entries.len() as int) == here);
        assert(groups.take(i as int + 1).drop_last() == groups.take(i as int));
        assert(groups.take(i as int + 1).last() == groups[i as int]);
        i = i + 1;
    }
    assert(groups.take(groups.len() as int) == groups);
    requests
}

/// The range of a request as the history tool takes it: the first line, a
/// comma, the last line.
pub open spec fn range_text(start_line: nat, end_line: nat) -> Seq<char> {
    decimal(start_line) + seq![','] + decimal(end_line)
}

/// The arguments of the query that a request stands for.
pub open spec fn blame_arguments(request: RequestView) -> Seq<Seq<char>> {
    seq![
        "blame"@,
        "--line-porcelain"@,
        "-L"@,
        range_text(request.start_line, request.end_line),
        "--"@,
        request.file,
    ]
}

/// The arguments with which the history tool is asked for the attribution
/// of the lines of a request.
pub fn blame_args(request: &BlameRequest) -> (r: Vec<String>)
    ensures
        string_views(r@) == blame_arguments(request@),
{
    let mut range: Vec<char> = Vec::new();
    push_decimal(&mut range, request.start_line);
    range.push(',');
    push_decimal(&mut range, request.end_line);
    assert(range@ == range_text(request.start_line as nat, request.end_line as nat));
    let mut r: Vec<String> = Vec::new();
    r.push("blame".to_owned());
    r.push("--line-porcelain".to_owned());
    r.push("-L".to_owned());
    r.push(string_of(&range));
    r.push("--".to_owned());
    r.push(request.file.clone());
    assert(string_views(r@) =~= blame_arguments(request@));
    r
}

/// What the outcome of a query for a range of lines gives: the table read
/// from the tool's output, or the failure of the query.
pub fn blame_range(outcome: Result<String, GitError>) -> (r: Result<BlameMap, GitError>)
    ensures
        match outcome {
            Ok(output) => r matches Ok(table) && table@ == blame_table(output@),
            Err(e) => r == Err::<BlameMap, GitError>(e),
        },
{
    match outcome {
        Ok(output) => Ok(parse_blame_porcelain(output.as_str())),
        Err(e) => Err(e),
    }
}

/// What a query gave: the file that was asked about, and the tool's output
/// if the query succeeded.
pub struct ResponseView {
    pub file: Seq<char>,
    pub output: Option<Seq<char>>,
}

/// The outputs of the queries that succeeded, in the order of the queries.
pub open spec fn outcome_views(outcomes: Seq<Result<String, GitError>>) -> Seq<Option<Seq<char>>> {
    Seq::new(
        outcomes.len(),
        |i: int|
            match outcomes[i] {
                Ok(text) => Some(text@),
                Err(_) => None,
            },
    )
}

/// The responses to a list of requests: each request with the outcome at
/// its position. A request without an outcome counts as failed.
pub open spec fn responses_of(requests: Seq<RequestView>, outputs: Seq<Option<Seq<char>>>) -> Seq<
    ResponseView,
> {
    Seq::new(
        requests.len(),
        |i: int|
            ResponseView {
                file: requests[i].file,
                output: if i < outputs.len() {
                    outputs[i]
                } else {
                    None
                },
            },
    )
}

/// Whether the response at index `i` answers for `file`: it is about that
/// file and its query succeeded.
pub open spec fn answers(responses: Seq<ResponseView>, file: Seq<char>, i: int) -> bool {
    0 <= i < responses.len() && responses[i].file == file && responses[i].output is Some
}

/// The attribution table of `file`: that of the first response that answers
/// for it. A file whose queries all failed, or for which none was made, has
/// no table.
pub open spec fn attribution_for(responses: Seq<ResponseView>, file: Seq<char>) -> Option<
    Map<nat, BlameRecord>,
> {
    match first_where(responses.len() as int, |i: int| answers(responses, file, i)) {
        Some(i) => Some(blame_table(responses[i].output->0)),
        None => None,
    }
}

/// Among requests of which no two name the same file, the table of a
/// request's file is that of the outcome at the request's own position.
proof fn lemma_answer_at(requests: Seq<RequestView>, outputs: Seq<Option<Seq<char>>>, i: int)
    requires
        distinct_files(requests),
        0 <= i < requests.len(),
    ensures
        attribution_for(responses_of(requests, outputs), requests[i].file) == (if i < outputs.len()
            && outputs[i] is Some {
            Some(blame_table(outputs[i]->0))
        } else {
            None
        }),
{
    let responses = responses_of(requests, outputs);
    let file = requests[i].file;
    let pred = |k: int| answers(responses, file, k);
    assert forall|k: int| 0 <= k < responses.len() && k != i implies !#[trigger] pred(k) by {
        if k < i {
            assert(requests[k].file != requests[i].file);
        } else {
            assert(requests[i].file != requests[k].file);
        }
    }
    if i < outputs.len() && outputs[i] is Some {
        assert(pred(i));
        lemma_first_where_is(responses.len() as int, pred, i);
    } else {
        assert(!pred(i));
        lemma_first_where_none(responses.len() as int, pred);
    }
}

/// One query decides for one file. Among the requests made for a list of
/// occurrences no two name the same file, so the table of a request's file
/// is that of the outcome at the request's own position, and the file has
/// no table when that query failed or was not made.
pub proof fn lemma_one_query_decides(
    entries: Seq<EntryView>,
    outputs: Seq<Option<Seq<char>>>,
    i: int,
)
    requires
        0 <= i < requests_for(entries).len(),
    ensures
        distinct_files(requests_for(entries)),
        attribution_for(responses_of(requests_for(entries), outputs), requests_for(entries)[i].file)
            == (if i < outputs.len() && outputs[i] is Some {
            Some(blame_table(outputs[i]->0))
        } else {
            None
        }),
{
    lemma_requests(entries);
    lemma_answer_at(requests_for(entries), outputs, i);
}

/// An occurrence after attribution. If its file has a table, the occurrence
/// gets the record of its line, or none if the table has no such line. If
/// its file has no table, the occurrence stays as it is.
pub open spec fn blamed(entry: EntryView, responses: Seq<ResponseView>) -> EntryView {
    match attribution_for(responses, entry.file) {
        Some(table) => EntryView {
            blame: if table.contains_key(entry.line) {
                Some(table[entry.line])
            } else {
                None
            },
            ..entry
        },
        None => entry,
    }
}

/// A key with its occurrences after attribution.
pub open spec fn blamed_group(group: GroupView, responses: Seq<ResponseView>) -> GroupView {
    GroupView {
        slug: group.slug,
        entries: Seq::new(group.entries.len(), |j: int| blamed(group.entries[j], responses)),
    }
}

/// A result mapping after attribution.
pub open spec fn blamed_groups(groups: Seq<GroupView>, responses: Seq<ResponseView>) -> Seq<
    GroupView,
> {
    Seq::new(groups.len(), |i: int| blamed_group(groups[i], responses))
}

/// Whether every query failed.
pub open spec fn all_failed(outputs: Seq<Option<Seq<char>>>) -> bool {
    forall|i: int| 0 <= i < outputs.len() ==> (#[trigger] outputs[i]) is None
}

/// Where every query failed, attribution leaves the mapping as it is.
pub proof fn lemma_failed_queries_change_nothing(
    groups: Seq<GroupView>,
    requests: Seq<RequestView>,
    outputs: Seq<Option<Seq<char>>>,
)
    requires
        all_failed(outputs),
    ensures
        blamed_groups(groups, responses_of(requests, outputs)) == groups,
{
    let responses = responses_of(requests, outputs);
    assert forall|file: Seq<char>| #[trigger] attribution_for(responses, file) is None by {
        let pred = |k: int| answers(responses, file, k);
        assert forall|k: int| 0 <= k < responses.len() implies !#[trigger] pred(k) by {
            if k < outputs.len() {
                assert(outputs[k] is None);
            }
        }
        lemma_first_where_none(responses.len() as int, pred);
    }
    assert forall|i: int| 0 <= i < groups.len() implies #[trigger] blamed_groups(
        groups,
        responses,
    )[i] == groups[i] by {
        assert(blamed_group(groups[i], responses).entries =~= groups[i].entries);
    }
    assert(blamed_groups(groups, responses) =~= groups);
}

/// Attribution changes nothing but the attribution: the keys, the number
/// and order of the occurrences of each key, and every other field of every
/// occurrence stay as they were.
pub proof fn lemma_blame_keeps_structure(groups: Seq<GroupView>, responses: Seq<ResponseView>)
    ensures
        blamed_groups(groups, responses).len() == groups.len(),
        forall|i: int|
            0 <= i < groups.len() ==> (#[trigger] blamed_groups(groups, responses)[i]).slug
                == groups[i].slug && blamed_groups(groups, responses)[i].entries.len()
                == groups[i].entries.len(),
        forall|i: int, j: int|
            0 <= i < groups.len() && 0 <= j < groups[i].entries.len() ==> (EntryView {
                blame: groups[i].entries[j].blame,
                ..#[trigger] blamed_groups(groups, responses)[i].entries[j]
            }) == groups[i].entries[j],
{
}

/// The tables of the queries: for each of the first `count` queries that
/// succeeded, the table read from its output.
fn read_tables(count: usize, outcomes: &Vec<Result<String, GitError>>) -> (tables: Vec<
    Option<BlameMap>,
>)
    ensures
        tables.len() == count,
        forall|k: int|
            0 <= k < count ==> match #[trigger] tables@[k] {
                Some(table) => k < outcomes.len() && outcome_views(outcomes@)[k] is Some
                    && table@ == blame_table(outcome_views(outcomes@)[k]->0),
                None => k >= outcomes.len() || outcome_views(outcomes@)[k] is None,
            },
{
    let mut tables: Vec<Option<BlameMap>> = Vec::new();
    let mut k: usize = 0;
    while k < count
        invariant
            k <= count,
            tables.len() == k,
            forall|m: int|
                0 <= m < k ==> match #[trigger] tables@[m] {
                    Some(table) => m < outcomes.len() && outcome_views(outcomes@)[m] is Some
                        && table@ == blame_table(outcome_views(outcomes@)[m]->0),
                    None => m >= outcomes.len() || outcome_views(outcomes@)[m] is None,
                },
        decreases count - k,
    {
        if k < outcomes.len() {
            match &outcomes[k] {
                Ok(text) => {
                    tables.push(Some(parse_blame_porcelain(text.as_str())));
                },
                Err(_) => {
                    tables.push(None);
                },
            }
        } else {
            tables.push(None);
        }
        k = k + 1;
    }
    tables
}

/// The index of the first request for `file` whose query succeeded.
fn first_answer(
    requests: &Vec<BlameRequest>,
    tables: &Vec<Option<BlameMap>>,
    file: &String,
    Ghost(responses): Ghost<Seq<ResponseView>>,
) -> (r: Option<usize>)
    requires
        tables.len() == requests.len(),
        responses.len() == requests.len(),
        forall|k: int|
            0 <= k < requests.len() ==> (#[trigger] responses[k]).file == requests@[k].file@ && (
            responses[k].output is Some <==> tables@[k] is Some),
    ensures
        match r {
            Some(i) => i < requests.len() && answers(responses, file@, i as int) && first_where(
                responses.len() as int,
                |i: int| answers(responses, file@, i),
            ) == Some(i as int),
            None => first_where(responses.len() as int, |i: int| answers(responses, file@, i))
                is None,
        },
{
    let ghost pred = |i: int| answers(responses, file@, i);
    let mut k: usize = 0;
    while k < requests.len()
        invariant
            k <= requests.len(),
            tables.len() == requests.len(),
            responses.len() == requests.len(),
            forall|m: int|
                0 <= m < requests.len() ==> (#[trigger] responses[m]).file == requests@[m].file@
                    && (responses[m].output is Some <==> tables@[m] is Some),
            pred == |i: int| answers(responses, file@, i),
            forall|m: int| 0 <= m < k ==> !#[trigger] pred(m),
        decreases requests.len() - k,
    {
        assert(responses[k as int].file == requests@[k as int].file@);
        if tables[k].is_some() && requests[k].file == *file {
            proof {
                assert(pred(k as int));
                lemma_first_where_is(responses.len() as int, pred, k as int);
            }
            return Some(k);
        }
        assert(!pred(k as int));
        k = k + 1;
    }
    proof {
        lemma_first_where_none(responses.len() as int, pred);
    }
    None
}

/// Attributes the occurrences of `results` from the outcomes of the queries
/// made for them.
///
/// The queries are those of [`blame_requests`]: one for each file with an
/// occurrence, for the least range of lines that holds the file's
/// occurrences. `outcomes` holds what each query gave, in the order of the
/// requests; a request without an outcome counts as failed. `probe` is the
/// outcome of asking the history tool whether the scan root lies in a
/// working tree.
///
/// No failure is surfaced: the call always succeeds. If the probe failed,
/// nothing is attributed. Otherwise every occurrence of a file whose query
/// succeeded gets the record that the query's output gives for its line,
/// and the occurrences of a file whose query failed stay as they are. If
/// every query failed, the mapping is as it was. No occurrence is added,
/// removed or reordered.
pub fn add_blame(
    probe: Result<String, GitError>,
    results: &mut ScanResult,
    outcomes: &Vec<Result<String, GitError>>,
) -> (r: Result<(), GitError>)
    requires
        old(results).wf(),
    ensures
        final(results).wf(),
        r is Ok,
        final(results).groups() == match probe {
            Err(_) => old(results).groups(),
            Ok(_) => blamed_groups(
                old(results).groups(),
                responses_of(
                    requests_for(all_entries(old(results).groups())),
                    outcome_views(outcomes@),
                ),
            ),
        },
        all_failed(outcome_views(outcomes@)) ==> final(results).groups() == old(results).groups(),
{
    match probe {
        Err(_) => {
            return Ok(());
        },
        Ok(_) => {},
    }
    let ghost initial = results.groups();
    proof {
        if all_failed(outcome_views(outcomes@)) {
            lemma_failed_queries_change_nothing(
                initial,
                requests_for(all_entries(initial)),
                outcome_views(outcomes@),
            );
        }
    }
    let requests = blame_requests(results);
    let tables = read_tables(requests.len(), outcomes);
    let ghost rv = responses_of(requests_for(all_entries(initial)), outcome_views(outcomes@));
    assert(rv.len() == requests.len());
    assert forall|k: int| 0 <= k < requests.len() implies (#[trigger] rv[k]).file
        == requests@[k].file@ && (rv[k].output is Some <==> tables@[k] is Some) by {
        assert(request_views(requests@)[k] == requests@[k]@);
    }
    let mut i: usize = 0;
    while i < results.len()
        invariant
            results.wf(),
            i <= initial.len(),
            rv == responses_of(requests_for(all_entries(initial)), outcome_views(outcomes@)),
            tables.len() == requests.len(),
            rv.len() == requests.len(),
            forall|k: int|
                0 <= k < requests.len() ==> (#[trigger] rv[k]).file == requests@[k].file@ && (
                rv[k].output is Some <==> tables@[k] is Some),
            forall|k: int|
                0 <= k < requests.len() ==> match #[trigger] tables@[k] {
                    Some(table) => rv[k].output is Some && table@ == blame_table(rv[k].output->0),
                    None => rv[k].output is None,
                },
            results.groups().len() == initial.len(),
            forall|g: int| 0 <= g < i ==> #[trigger] results.groups()[g] == blamed_group(
                initial[g],
                rv,
            ),
            forall|g: int| i <= g < initial.len() ==> #[trigger] results.groups()[g] == initial[g],
        decreases initial.len() - i,
    {
        let count = results.entries(i).len();
        let mut j: usize = 0;
        while j < count
            invariant
                results.wf(),
                i < initial.len(),
                j <= count,
                count == initial[i as int].entries.len(),
                tables.len() == requests.len(),
                rv.len() == requests.len(),
                forall|k: int|
                    0 <= k < requests.len() ==> (#[trigger] rv[k]).file == requests@[k].file@ && (
                    rv[k].output is Some <==> tables@[k] is Some),
                forall|k: int|
                    0 <= k < requests.len() ==> match #[trigger] tables@[k] {
                        Some(table) => rv[k].output is Some && table@ == blame_table(
                            rv[k].output->0,
                        ),
                        None => rv[k].output is None,
                    },
                results.groups().len() == initial.len(),
                forall|g: int|
                    0 <= g < initial.len() && g != i ==> #[trigger] results.groups()[g] == (if g
                        < i {
                        blamed_group(initial[g], rv)
                    } else {
                        initial[g]
                    }),
                results.groups()[i as int].slug == initial[i as int].slug,
                results.groups()[i as int].entries.len() == count,
                forall|e: int|
                    0 <= e < count ==> #[trigger] results.groups()[i as int].entries[e] == (if e
                        < j {
                        blamed(initial[i as int].entries[e], rv)
                    } else {
                        initial[i as int].entries[e]
                    }),
            decreases count - j,
        {
            let entry = &results.entries(i)[j];
            let ghost before = results.groups();
            assert(entry@ == before[i as int].entries[j as int]);
            let ghost untouched = initial[i as int].entries[j as int];
            assert(entry@ == untouched);
            let answer = first_answer(&requests, &tables, &entry.file, Ghost(rv));
            assert(attribution_for(rv, untouched.file) == match answer {
                Some(k) => Some(blame_table(rv[k as int].output->0)),
                None => None,
            });
            match answer {
                Some(k) => {
                    let line = entry.line;
                    let blame = match &tables[k] {
                        Some(table) => match table.get(line) {
                            Some(info) => Some(info.clone()),
                            None => None,
                        },
                        None => None,
                    };
                    assert(tables@[k as int] is Some);
                    assert(blame_view(blame) == blamed(untouched, rv).blame);
                    results.set_blame(i, j, blame);
                    assert(results.groups()[i as int].entries[j as int] == blamed(untouched, rv));
                },
                None => {},
            }
            j = j + 1;
        }
        assert(results.groups()[i as int] =~= blamed_group(initial[i as int], rv)) by {
            assert(results.groups()[i as int].entries =~= blamed_group(initial[i as int], rv).entries);
        }
        i = i + 1;
    }
    assert(results.groups() =~= blamed_groups(initial, rv));
    Ok(())
}

} // verus!
