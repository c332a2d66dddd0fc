//! The per-line history format and the attribution records read from it.

use crate::text::{
    chars_of, clone_option_string, equals_str, fields, find_char, first_index_of, lines,
    option_view, parse_signed, parse_signed_chars, parse_unsigned, parse_unsigned_chars,
    slice_chars, split_fields, split_lines, string_of, strip_ends, strip_leading, strip_trailing,
    trim, trim_chars, views,
};
use vstd::prelude::*;

verus! {

/// Who last changed a line, as the history tool reports it.
#[derive(Debug, PartialEq, Eq)]
pub struct BlameInfo {
    pub commit: String,
    pub author: Option<String>,
    pub author_mail: Option<String>,
    pub author_time: Option<i64>,
    pub summary: Option<String>,
}

/// The mathematical content of a [`BlameInfo`].
pub struct BlameRecord {
    pub commit: Seq<char>,
    pub author: Option<Seq<char>>,
    pub author_mail: Option<Seq<char>>,
    pub author_time: Option<i64>,
    pub summary: Option<Seq<char>>,
}

impl View for BlameInfo {
    type V = BlameRecord;

    open spec fn view(&self) -> BlameRecord {
        BlameRecord {
            commit: self.commit@,
            author: option_view(self.author),
            author_mail: option_view(self.author_mail),
            author_time: self.author_time,
            summary: option_view(self.summary),
        }
    }
}

impl Clone for BlameInfo {
    fn clone(&self) -> (r: Self)
        ensures
            r@ == self@,
    {
        BlameInfo {
            commit: self.commit.clone(),
            author: clone_option_string(&self.author),
            author_mail: clone_option_string(&self.author_mail),
            author_time: self.author_time,
            summary: clone_option_string(&self.summary),
        }
    }
}

/// The record of a revision about which nothing but its identifier is
/// known.
pub open spec fn bare_record(commit: Seq<char>) -> BlameRecord {
    BlameRecord { commit, author: None, author_mail: None, author_time: None, summary: None }
}

/// The header that opens a block: the revision, the line number in the
/// final file, and the number of consecutive lines the block stands for.
pub struct BlockHeader {
    pub commit: Seq<char>,
    pub final_line: nat,
    pub run_length: nat,
}

/// Reads a block header: a revision identifier, the line's number in that
/// revision, its number in the final file and an optional run length,
/// separated by white space.
/// A line with fewer than three fields, or whose third field is no number,
/// is no header. An absent or unreadable run length counts as one.
pub open spec fn parse_header(line: Seq<char>) -> Option<BlockHeader> {
    let f = fields(line);
    if f.len() >= 3 && parse_unsigned(f[2]) is Some {
        Some(
            BlockHeader {
                commit: f[0],
                final_line: parse_unsigned(f[2])->0 as nat,
                run_length: if f.len() >= 4 && parse_unsigned(f[3]) is Some {
                    parse_unsigned(f[3])->0 as nat
                } else {
                    1
                },
            },
        )
    } else {
        None
    }
}

/// The e-mail address in the value of an `author-mail` line: surrounding
/// white space and enclosing angle brackets are removed.
pub open spec fn mail_address(value: Seq<char>) -> Seq<char> {
    strip_trailing(strip_leading(trim(value), '<'), '>')
}

/// The record after one metadata line. A line is a key, a space, and a
/// value; lines of another shape, and keys other than `author`,
/// `author-mail`, `author-time` and `summary`, leave the record as it is.
pub open spec fn apply_metadata(info: BlameRecord, line: Seq<char>) -> BlameRecord {
    match first_index_of(line, ' ') {
        None => info,
        Some(k) => {
            let key = line.take(k);
            let value = line.skip(k + 1);
            if key == "author"@ {
                BlameRecord { author: Some(value), ..info }
            } else if key == "author-mail"@ {
                BlameRecord { author_mail: Some(mail_address(value)), ..info }
            } else if key == "author-time"@ {
                BlameRecord { author_time: parse_signed(value), ..info }
            } else if key == "summary"@ {
                BlameRecord { summary: Some(value), ..info }
            } else {
                info
            }
        },
    }
}

/// The table after a run of `count` lines starting at `first` has been
/// attributed to `info`.
pub open spec fn record_run(
    table: Map<nat, BlameRecord>,
    first: nat,
    count: nat,
    info: BlameRecord,
) -> Map<nat, BlameRecord> {
    Map::new(
        |l: nat| table.contains_key(l) || first <= l < first + count,
        |l: nat|
            if first <= l < first + count {
                info
            } else {
                table[l]
            },
    )
}

/// The state of the block parser.
pub struct ParserState {
    /// The latest resolved record of each revision seen so far.
    pub known: Map<Seq<char>, BlameRecord>,
    /// The block whose metadata is being read; `None` while a header is
    /// awaited.
    pub pending: Option<(BlockHeader, BlameRecord)>,
    /// The attribution of each line resolved so far.
    pub table: Map<nat, BlameRecord>,
}

/// The state before any input.
pub open spec fn initial_state() -> ParserState {
    ParserState { known: Map::empty(), pending: None, table: Map::empty() }
}

/// Whether `line` holds literal source text, which ends a block.
pub open spec fn is_content_line(line: Seq<char>) -> bool {
    line.len() > 0 && line[0] == '\t'
}

/// Ends the pending block: its record is remembered for its revision and
/// attributed to every line of its run.
pub open spec fn close_block(state: ParserState) -> ParserState {
    match state.pending {
        None => state,
        Some((header, info)) => ParserState {
            known: state.known.insert(header.commit, info),
            pending: None,
            table: record_run(state.table, header.final_line, header.run_length, info),
        },
    }
}

/// The state after one more line of input.
///
/// While a header is awaited, a line that is no header is skipped. A header
/// opens a block, which starts from what is remembered of its revision. In
/// a block, a content line closes the block and any other line is read as
/// metadata.
pub open spec fn step(state: ParserState, line: Seq<char>) -> ParserState {
    match state.pending {
        None => match parse_header(line) {
            None => state,
            Some(header) => {
                let base = if state.known.contains_key(header.commit) {
                    state.known[header.commit]
                } else {
                    bare_record(header.commit)
                };
                ParserState { pending: Some((header, base)), ..state }
            },
        },
        Some((header, info)) => if is_content_line(line) {
            close_block(state)
        } else {
            ParserState { pending: Some((header, apply_metadata(info, line))), ..state }
        },
    }
}

/// The state after all of `input`, read line by line.
pub open spec fn run(input: Seq<Seq<char>>) -> ParserState
    decreases input.len(),
{
    if input.len() == 0 {
        initial_state()
    } else {
        step(run(input.drop_last()), input.last())
    }
}

/// The attribution of each line that `output` describes. A block still
/// open when the input ends is closed there.
pub open spec fn blame_table(output: Seq<char>) -> Map<nat, BlameRecord> {
    close_block(run(lines(output))).table
}

/// Run-length expansion: when a content line closes a block, every line of
/// the block's run, from its final line on, is attributed to the block's
/// resolved record, and the attribution of every other line stays as it
/// was.
pub proof fn lemma_run_length_expansion(state: ParserState, line: Seq<char>)
    requires
        state.pending is Some,
        is_content_line(line),
    ensures
        ({
            let (header, info) = state.pending->0;
            let after = step(state, line).table;
            &&& forall|l: nat|
                header.final_line <= l < header.final_line + header.run_length
                    ==> after.contains_key(l) && after[l] == info
            &&& forall|l: nat|
                !(header.final_line <= l < header.final_line + header.run_length)
                    ==> after.contains_key(l) == state.table.contains_key(l) && (
                state.table.contains_key(l) ==> after[l] == state.table[l])
        }),
{
}

/// Retention: a block that gives no metadata of its own resolves to the
/// record of the latest earlier block of the same revision.
pub proof fn lemma_metadata_retained(state: ParserState, header_line: Seq<char>)
    requires
        state.pending is None,
        parse_header(header_line) is Some,
        state.known.contains_key(parse_header(header_line)->0.commit),
    ensures
        step(state, header_line).pending == Some(
            (parse_header(header_line)->0, state.known[parse_header(header_line)->0.commit]),
        ),
{
}

/// Malformed and blank lines are skipped while a header is awaited.
pub proof fn lemma_malformed_header_skipped(state: ParserState, line: Seq<char>)
    requires
        state.pending is None,
        parse_header(line) is None,
    ensures
        step(state, line) == state,
{
}

/// A run of consecutive lines with one attribution.
pub struct BlameSpan {
    pub first: usize,
    pub count: usize,
    pub info: BlameInfo,
}

/// The attribution of lines, as a list of runs in which a later run
/// overrides an earlier one.
pub struct BlameMap {
    pub spans: Vec<BlameSpan>,
}

/// The table that a list of runs denotes.
pub open spec fn table_of(spans: Seq<BlameSpan>) -> Map<nat, BlameRecord>
    decreases spans.len(),
{
    if spans.len() == 0 {
        Map::empty()
    } else {
        record_run(
            table_of(spans.drop_last()),
            spans.last().first as nat,
            spans.last().count as nat,
            spans.last().info@,
        )
    }
}

impl View for BlameMap {
    type V = Map<nat, BlameRecord>;

    open spec fn view(&self) -> Map<nat, BlameRecord> {
        table_of(self.spans@)
    }
}

impl BlameMap {
    /// The table without any attribution.
    pub fn new() -> (r: BlameMap)
        ensures
            r@ == Map::<nat, BlameRecord>::empty(),
    {
        BlameMap { spans: Vec::new() }
    }

    /// Attributes the `count` lines from `first` on to `info`.
    pub fn record(&mut self, first: usize, count: usize, info: BlameInfo)
        ensures
            final(self)@ == record_run(old(self)@, first as nat, count as nat, info@),
    {
        self.spans.push(BlameSpan { first, count, info });
        assert(self.spans@.drop_last() == old(self).spans@);
    }

    /// The attribution of `line`, if the table has one.
    pub fn get(&self, line: usize) -> (r: Option<&BlameInfo>)
        ensures
            match r {
                Some(info) => self@.contains_key(line as nat) && self@[line as nat] == info@,
                None => !self@.contains_key(line as nat),
            },
    {
        let mut i: usize = self.spans.len();
        assert(self.spans@.take(i as int) == self.spans@);
        while i > 0
            invariant
                i <= self.spans.len(),
                self@.contains_key(line as nat) == table_of(
                    self.spans@.take(i as int),
                ).contains_key(line as nat),
                self@.contains_key(line as nat) ==> self@[line as nat] == table_of(
                    self.spans@.take(i as int),
                )[line as nat],
            decreases i,
        {
            let span = &self.spans[i - 1];
            assert(self.spans@.take(i as int).drop_last() == self.spans@.take(i as int - 1));
            if span.first <= line && line - span.first < span.count {
                return Some(&span.info);
            }
            i = i - 1;
        }
        None
    }
}

/// The records remembered per revision, as a list: a later entry overrides
/// an earlier one for the same revision.
spec fn known_map(known: Seq<BlameInfo>) -> Map<Seq<char>, BlameRecord>
    decreases known.len(),
{
    if known.len() == 0 {
        Map::empty()
    } else {
        known_map(known.drop_last()).insert(known.last().commit@, known.last()@)
    }
}

/// Whether no two entries of `known` speak of the same revision.
spec fn distinct_commits(known: Seq<BlameInfo>) -> bool {
    forall|i: int, j: int|
        0 <= i < j < known.len() ==> (#[trigger] known[i]).commit@ != (#[trigger] known[j]).commit@
}

/// What `known_map` holds for a list without repeated revisions.
proof fn lemma_known_map(known: Seq<BlameInfo>)
    requires
        distinct_commits(known),
    ensures
        forall|i: int|
            0 <= i < known.len() ==> known_map(known).contains_key(
                (#[trigger] known[i]).commit@,
            ) && known_map(known)[known[i].commit@] == known[i]@,
        forall|c: Seq<char>|
            known_map(known).contains_key(c) ==> exists|i: int|
                0 <= i < known.len() && (#[trigger] known[i]).commit@ == c,
    decreases known.len(),
{
    if known.len() > 0 {
        let front = known.drop_last();
        assert forall|i: int, j: int| 0 <= i < j < front.len() implies (#[trigger] front[i]).commit@
            != (#[trigger] front[j]).commit@ by {
            assert(front[i] == known[i] && front[j] == known[j]);
        }
        lemma_known_map(front);
        assert forall|i: int| 0 <= i < known.len() implies known_map(known).contains_key(
            (#[trigger] known[i]).commit@,
        ) && known_map(known)[known[i].commit@] == known[i]@ by {
            if i < known.len() - 1 {
                assert(front[i] == known[i]);
                assert(known[i].commit@ != known[known.len() - 1].commit@);
            }
        }
        assert forall|c: Seq<char>| known_map(known).contains_key(c) implies exists|i: int|
            0 <= i < known.len() && (#[trigger] known[i]).commit@ == c by {
            if c == known.last().commit@ {
                assert(known[known.len() - 1].commit@ == c);
            } else {
                assert(known_map(front).contains_key(c));
                let i = choose|i: int| 0 <= i < front.len() && (#[trigger] front[i]).commit@ == c;
                assert(known[i] == front[i]);
            }
        }
    }
}

/// Replacing the entry of a revision replaces what is remembered of it.
proof fn lemma_known_map_update(known: Seq<BlameInfo>, k: int, info: BlameInfo)
    requires
        distinct_commits(known),
        0 <= k < known.len(),
        known[k].commit@ == info.commit@,
    ensures
        known_map(known.update(k, info)) == known_map(known).insert(info.commit@, info@),
        distinct_commits(known.update(k, info)),
    decreases known.len(),
{
    let front = known.drop_last();
    let updated = known.update(k, info);
    assert forall|i: int, j: int| 0 <= i < j < updated.len() implies (#[trigger] updated[i]).commit@
        != (#[trigger] updated[j]).commit@ by {
        assert(updated[i].commit@ == known[i].commit@);
        assert(updated[j].commit@ == known[j].commit@);
    }
    if k == known.len() - 1 {
        assert(updated.drop_last() == front);
        assert(known_map(updated) =~= known_map(known).insert(info.commit@, info@));
    } else {
        assert forall|i: int, j: int| 0 <= i < j < front.len() implies (#[trigger] front[i]).commit@
            != (#[trigger] front[j]).commit@ by {
            assert(front[i] == known[i] && front[j] == known[j]);
        }
        lemma_known_map_update(front, k, info);
        assert(updated.drop_last() == front.update(k, info));
        assert(updated.last() == known.last());
        assert(known[k].commit@ != known[known.len() - 1].commit@);
        assert(known_map(updated) =~= known_map(known).insert(info.commit@, info@));
    }
}

/// The index at which `known` holds the revision `commit`.
fn find_known(known: &Vec<BlameInfo>, commit: &String) -> (r: Option<usize>)
    ensures
        match r {
            Some(i) => i < known.len() && known[i as int].commit@ == commit@,
            None => forall|i: int| 0 <= i < known.len() ==> (#[trigger] known[i]).commit@ != commit@,
        },
{
    let mut i: usize = 0;
    while i < known.len()
        invariant
            i <= known.len(),
            forall|k: int| 0 <= k < i ==> (#[trigger] known[k]).commit@ != commit@,
        decreases known.len() - i,
    {
        if known[i].commit == *commit {
            return Some(i);
        }
        i = i + 1;
    }
    None
}

/// Remembers `info` as the latest record of its revision.
fn remember(known: &mut Vec<BlameInfo>, info: BlameInfo)
    requires
        distinct_commits(old(known)@),
    ensures
        distinct_commits(final(known)@),
        known_map(final(known)@) == known_map(old(known)@).insert(info.commit@, info@),
{
    match find_known(known, &info.commit) {
        Some(k) => {
            proof {
                lemma_known_map_update(known@, k as int, info);
            }
            known.set(k, info);
        },
        None => {
            known.push(info);
            assert(known@.drop_last() == old(known)@);
        },
    }
}

/// What is remembered of the revision `commit`, or its bare record.
fn recall(known: &Vec<BlameInfo>, commit: String) -> (r: BlameInfo)
    requires
        distinct_commits(known@),
    ensures
        r@ == if known_map(known@).contains_key(commit@) {
            known_map(known@)[commit@]
        } else {
            bare_record(commit@)
        },
        r.commit@ == commit@,
{
    proof {
        lemma_known_map(known@);
    }
    match find_known(known, &commit) {
        Some(k) => known[k].clone(),
        None => BlameInfo {
            commit,
            author: None,
            author_mail: None,
            author_time: None,
            summary: None,
        },
    }
}

/// A block header as the parser holds it.
struct Header {
    commit: String,
    final_line: usize,
    run_length: usize,
}

impl Header {
    spec fn model(&self) -> BlockHeader {
        BlockHeader {
            commit: self.commit@,
            final_line: self.final_line as nat,
            run_length: self.run_length as nat,
        }
    }
}

/// The view of an optional header.
spec fn header_view(h: Option<Header>) -> Option<BlockHeader> {
    match h {
        Some(h) => Some(h.model()),
        None => None,
    }
}

/// Reads `line` as a block header.
fn read_header(line: &Vec<char>) -> (r: Option<Header>)
    ensures
        header_view(r) == parse_header(line@),
{
    let parts = split_fields(line);
    if parts.len() < 3 {
        return None;
    }
    assert(views(parts@)[2] == parts@[2]@);
    assert(views(parts@)[0] == parts@[0]@);
    let final_line = match parse_unsigned_chars(&parts[2]) {
        Some(n) => n,
        None => {
            return None;
        },
    };
    let mut run_length: usize = 1;
    if parts.len() >= 4 {
        assert(views(parts@)[3] == parts@[3]@);
        match parse_unsigned_chars(&parts[3]) {
            Some(n) => {
                run_length = n;
            },
            None => {},
        }
    }
    Some(Header { commit: string_of(&parts[0]), final_line, run_length })
}

/// Applies one metadata line to `info`.
fn read_metadata(info: &mut BlameInfo, line: &Vec<char>)
    ensures
        final(info)@ == apply_metadata(old(info)@, line@),
{
    let k = match find_char(line, ' ') {
        Some(k) => k,
        None => {
            return ;
        },
    };
    let key = slice_chars(line, 0, k);
    let value = slice_chars(line, k + 1, line.len());
    assert(key@ == line@.take(k as int));
    assert(value@ == line@.skip(k + 1));
    if equals_str(&key, "author") {
        info.author = Some(string_of(&value));
    } else if equals_str(&key, "author-mail") {
        let trimmed = trim_chars(&value);
        let address = strip_ends(&trimmed, '<', '>');
        info.author_mail = Some(string_of(&address));
    } else if equals_str(&key, "author-time") {
        info.author_time = parse_signed_chars(&value);
    } else if equals_str(&key, "summary") {
        info.summary = Some(string_of(&value));
    }
}

/// The block parser: what it remembers, the block being read, and the
/// table built so far.
struct Parser {
    known: Vec<BlameInfo>,
    pending: Option<(Header, BlameInfo)>,
    table: BlameMap,
}

impl Parser {
    spec fn wf(&self) -> bool {
        &&& distinct_commits(self.known@)
        &&& match self.pending {
            Some((header, info)) => header.commit@ == info.commit@,
            None => true,
        }
    }

    spec fn state(&self) -> ParserState {
        ParserState {
            known: known_map(self.known@),
            pending: match self.pending {
                Some((header, info)) => Some((header.model(), info@)),
                None => None,
            },
            table: self.table@,
        }
    }

    fn new() -> (r: Parser)
        ensures
            r.wf(),
            r.state() == initial_state(),
    {
        Parser { known: Vec::new(), pending: None, table: BlameMap::new() }
    }

    /// Closes the block being read, if there is one.
    fn close(&mut self)
        requires
            old(self).wf(),
        ensures
            final(self).wf(),
            final(self).state() == close_block(old(self).state()),
    {
        let pending = self.pending.take();
        match pending {
            Some((header, info)) => {
                self.table.record(header.final_line, header.run_length, info.clone());
                remember(&mut self.known, info);
            },
            None => {},
        }
    }

    /// Reads one more line.
    fn advance(&mut self, line: &Vec<char>)
        requires
            old(self).wf(),
        ensures
            final(self).wf(),
            final(self).state() == step(old(self).state(), line@),
    {
        if self.pending.is_none() {
            match read_header(line) {
                Some(header) => {
                    let base = recall(&self.known, header.commit.clone());
                    self.pending = Some((header, base));
                },
                None => {},
            }
        } else if line.len() > 0 && line[0] == '\t' {
            self.close();
        } else {
            let pending = self.pending.take();
            match pending {
                Some((header, info)) => {
                    let mut info = info;
                    read_metadata(&mut info, line);
                    self.pending = Some((header, info));
                },
                None => {},
            }
        }
    }
}

/// Reads the per-line history format into a table from line numbers to
/// attribution records.
///
/// The input is a sequence of blocks. A block opens with a header and ends
/// with a content line, which begins with a tab. Metadata given in a block
/// replaces what was remembered of the block's revision; metadata that a
/// block omits is taken from the latest earlier block of the same revision.
/// The resolved record is attributed to each line of the block's run. Lines
/// that are no header are skipped while a header is awaited.
pub fn parse_blame_porcelain(output: &str) -> (table: BlameMap)
    ensures
        table@ == blame_table(output@),
{
    let chars = chars_of(output);
    let input = split_lines(&chars);
    let mut parser = Parser::new();
    let mut i: usize = 0;
    assert(views(input@).take(0) == Seq::<Seq<char>>::empty());
    while i < input.len()
        invariant
            i <= input.len(),
            parser.wf(),
            parser.state() == run(views(input@).take(i as int)),
        decreases input.len() - i,
    {
        parser.advance(&input[i]);
        assert(views(input@).take(i as int + 1).drop_last() == views(input@).take(i as int));
        assert(views(input@).take(i as int + 1).last() == input@[i as int]@);
        i = i + 1;
    }
    assert(views(input@).take(input.len() as int) == views(input@));
    parser.close();
    parser.table
}

} // verus!
