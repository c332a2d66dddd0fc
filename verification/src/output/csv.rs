//! The report as CSV: a header and one row for each occurrence.

use crate::git::{BlameRecord, GitMeta, GitMetaView};
use crate::json::{
    bool_text, render, rendered, token_views, OutputError, Token, TokenView,
};
use crate::output::records::{
    blame_to_tokens, blame_tokens, context_to_tokens, context_tokens, meta_view, scope_list_tokens,
    scope_to_tokens,
};
use crate::scan::context::{context_view, CodeContext, ContextView};
use crate::scan::entry::{Entry, EntryView};
use crate::scan::result::{GroupView, ScanResult};
use crate::scan::scope::ScopeView;
use crate::text::{chars_of, decimal, decimal_chars, join, join_strings, string_of, string_views};
use vstd::prelude::*;

verus! {

/// Whether a CSV cell must be put between quotes: it holds a comma, a
/// double quote, a line feed or a carriage return.
pub open spec fn needs_quotes(value: Seq<char>) -> bool {
    exists|i: int|
        0 <= i < value.len() && (#[trigger] value[i] == ',' || value[i] == '"' || value[i] == '\n'
            || value[i] == '\r')
}

/// `value` with every double quote doubled.
pub open spec fn doubled(value: Seq<char>) -> Seq<char>
    decreases value.len(),
{
    if value.len() == 0 {
        Seq::empty()
    } else if value.last() == '"' {
        doubled(value.drop_last()).push('"').push('"')
    } else {
        doubled(value.drop_last()).push(value.last())
    }
}

/// A CSV cell: the value as it is, or, if it needs quotes, between double
/// quotes with every double quote in it doubled.
pub open spec fn csv_escaped(value: Seq<char>) -> Seq<char> {
    if needs_quotes(value) {
        seq!['"'] + doubled(value) + seq!['"']
    } else {
        value
    }
}

/// Writes `value` as a CSV cell.
pub fn csv_escape(value: &str) -> (r: String)
    ensures
        r@ == csv_escaped(value@),
{
    let chars = chars_of(value);
    let mut special = false;
    let mut i: usize = 0;
    while i < chars.len()
        invariant
            i <= chars.len(),
            special == exists|k: int|
                0 <= k < i && (#[trigger] chars@[k] == ',' || chars@[k] == '"' || chars@[k] == '\n'
                    || chars@[k] == '\r'),
        decreases chars.len() - i,
    {
        let c = chars[i];
        if c == ',' || c == '"' || c == '\n' || c == '\r' {
            special = true;
        }
        i = i + 1;
    }
    if !special {
        return string_of(&chars);
    }
    let mut out: Vec<char> = Vec::new();
    out.push('"');
    let mut j: usize = 0;
    assert(chars@.take(0) == Seq::<char>::empty());
    while j < chars.len()
        invariant
            j <= chars.len(),
            out@ == seq!['"'] + doubled(chars@.take(j as int)),
        decreases chars.len() - j,
    {
        let c = chars[j];
        assert(chars@.take(j as int + 1).drop_last() == chars@.take(j as int));
        if c == '"' {
            out.push('"');
            out.push('"');
        } else {
            out.push(c);
        }
        j = j + 1;
    }
    assert(chars@.take(chars.len() as int) == chars@);
    out.push('"');
    string_of(&out)
}

/// The CSV cell for an optional JSON document: its compact text, or
/// nothing.
pub open spec fn json_cell(tokens: Option<Seq<TokenView>>) -> Seq<char> {
    match tokens {
        Some(t) => rendered(t, false),
        None => Seq::empty(),
    }
}

/// The document of an optional context.
pub open spec fn context_document(c: Option<ContextView>) -> Option<Seq<TokenView>> {
    match c {
        Some(c) => Some(context_tokens(c)),
        None => None,
    }
}

/// The document of a scope chain; none for an empty chain.
pub open spec fn scope_document(items: Seq<ScopeView>) -> Option<Seq<TokenView>> {
    if items.len() > 0 {
        Some(scope_list_tokens(items))
    } else {
        None
    }
}

/// The document of an optional attribution.
pub open spec fn blame_document(b: Option<BlameRecord>) -> Option<Seq<TokenView>> {
    match b {
        Some(b) => Some(blame_tokens(b)),
        None => None,
    }
}

/// The cells that the repository state adds to a row.
pub open spec fn meta_cells(meta: Option<GitMetaView>) -> Seq<Seq<char>> {
    match meta {
        Some(m) => seq![
            m.repo_root,
            m.head_sha,
            match m.head_ref {
                Some(r) => r,
                None => Seq::empty(),
            },
            bool_text(m.is_dirty),
        ],
        None => Seq::empty(),
    }
}

/// The cells of the CSV row of one occurrence: the identifier, the file,
/// the line, the comment text, the three contexts, the scope chain and the
/// attribution as compact JSON where present, and the repository state if
/// it is given.
pub open spec fn row_cells(slug: Seq<char>, e: EntryView, meta: Option<GitMetaView>) -> Seq<
    Seq<char>,
> {
    seq![
        slug,
        e.file,
        decimal(e.line),
        e.comment_text,
        json_cell(context_document(e.above)),
        json_cell(context_document(e.below)),
        json_cell(context_document(e.inline)),
        json_cell(scope_document(e.scope)),
        json_cell(blame_document(e.blame)),
    ] + meta_cells(meta)
}

/// A CSV row: the escaped cells, separated by commas.
pub open spec fn row_text(cells: Seq<Seq<char>>) -> Seq<char> {
    join(cells.map_values(|c: Seq<char>| csv_escaped(c)), ","@)
}

/// The header of the CSV report.
pub open spec fn csv_header(meta: Option<GitMetaView>) -> Seq<char> {
    match meta {
        Some(_) =>
            "requirement_id,file,line,comment_text,above,below,inline,scope,blame,repo_root,head_sha,head_ref,is_dirty"@,
        None => "requirement_id,file,line,comment_text,above,below,inline,scope,blame"@,
    }
}

/// The rows for the occurrences of one key.
pub open spec fn group_rows(slug: Seq<char>, entries: Seq<EntryView>, meta: Option<GitMetaView>) -> Seq<
    Seq<char>,
>
    decreases entries.len(),
{
    if entries.len() == 0 {
        Seq::empty()
    } else {
        group_rows(slug, entries.drop_last(), meta).push(
            row_text(row_cells(slug, entries.last(), meta)),
        )
    }
}

/// The rows for all occurrences, key by key.
pub open spec fn all_rows(groups: Seq<GroupView>, meta: Option<GitMetaView>) -> Seq<Seq<char>>
    decreases groups.len(),
{
    if groups.len() == 0 {
        Seq::empty()
    } else {
        all_rows(groups.drop_last(), meta) + group_rows(
            groups.last().slug,
            groups.last().entries,
            meta,
        )
    }
}

/// The lines of the CSV report: the header, then one row for each
/// occurrence.
pub open spec fn csv_lines(meta: Option<GitMetaView>, groups: Seq<GroupView>) -> Seq<Seq<char>> {
    seq![csv_header(meta)] + all_rows(groups, meta)
}

/// The cell for an optional document.
fn write_cell(tokens: Option<Vec<Token>>) -> (r: Result<String, OutputError>)
    ensures
        r is Ok,
        r->Ok_0@ == json_cell(
            match tokens {
                Some(t) => Some(token_views(t@)),
                None => None,
            },
        ),
{
    match tokens {
        Some(t) => render(&t, false),
        None => Ok(String::new()),
    }
}

/// The document of an optional context.
fn context_cell(c: &Option<CodeContext>) -> (r: Option<Vec<Token>>)
    ensures
        (match r {
            Some(t) => Some(token_views(t@)),
            None => None,
        }) == context_document(context_view(*c)),
{
    match c {
        Some(c) => Some(context_to_tokens(c)),
        None => None,
    }
}

/// The escaped text of a row of cells.
fn write_row(cells: &Vec<String>) -> (r: String)
    ensures
        r@ == row_text(string_views(cells@)),
{
    let ghost all = string_views(cells@);
    let mut escaped: Vec<String> = Vec::new();
    let mut i: usize = 0;
    while i < cells.len()
        invariant
            i <= cells.len(),
            escaped.len() == i,
            forall|k: int| 0 <= k < i ==> (#[trigger] escaped@[k])@ == csv_escaped(cells@[k]@),
        decreases cells.len() - i,
    {
        escaped.push(csv_escape(cells[i].as_str()));
        i = i + 1;
    }
    assert(string_views(escaped@) =~= all.map_values(|c: Seq<char>| csv_escaped(c)));
    join_strings(&escaped, ",")
}

/// The CSV row of one occurrence.
fn csv_row(slug: &String, e: &Entry, meta: Option<&GitMeta>) -> (r: Result<String, OutputError>)
    ensures
        r is Ok,
        r->Ok_0@ == row_text(row_cells(slug@, e@, meta_view(meta))),
{
    let above = match write_cell(context_cell(&e.above)) {
        Ok(text) => text,
        Err(err) => {
            return Err(err);
        },
    };
    let below = match write_cell(context_cell(&e.below)) {
        Ok(text) => text,
        Err(err) => {
            return Err(err);
        },
    };
    let inline = match write_cell(context_cell(&e.inline)) {
        Ok(text) => text,
        Err(err) => {
            return Err(err);
        },
    };
    let scope_tokens = if e.scope.len() > 0 {
        Some(scope_to_tokens(&e.scope))
    } else {
        None
    };
    let scope = match write_cell(scope_tokens) {
        Ok(text) => text,
        Err(err) => {
            return Err(err);
        },
    };
    let blame_tokens = match &e.blame {
        Some(b) => Some(blame_to_tokens(b)),
        None => None,
    };
    let blame = match write_cell(blame_tokens) {
        Ok(text) => text,
        Err(err) => {
            return Err(err);
        },
    };
    let mut cells: Vec<String> = Vec::new();
    cells.push(slug.clone());
    cells.push(e.file.clone());
    cells.push(string_of(&decimal_chars(e.line)));
    cells.push(e.comment_text.clone());
    cells.push(above);
    cells.push(below);
    cells.push(inline);
    cells.push(scope);
    cells.push(blame);
    match meta {
        Some(m) => {
            cells.push(m.repo_root.clone());
            cells.push(m.head_sha.clone());
            match &m.head_ref {
                Some(r) => {
                    cells.push(r.clone());
                },
                None => {
                    cells.push(String::new());
                },
            }
            if m.is_dirty {
                cells.push("true".to_owned());
            } else {
                cells.push("false".to_owned());
            }
        },
        None => {},
    }
    assert(string_views(cells@) =~= row_cells(slug@, e@, meta_view(meta)));
    Ok(write_row(&cells))
}

/// The CSV report: a header, then one row for each occurrence.
pub fn format_csv(meta: Option<&GitMeta>, results: &ScanResult) -> (r: Result<String, OutputError>)
    ensures
        r is Ok,
        r->Ok_0@ == join(csv_lines(meta_view(meta), results.groups()), "\n"@),
{
    let ghost groups = results.groups();
    let ghost mv = meta_view(meta);
    let mut out: Vec<String> = Vec::new();
    match meta {
        Some(_) => {
            out.push(
                "requirement_id,file,line,comment_text,above,below,inline,scope,blame,repo_root,head_sha,head_ref,is_dirty".to_owned(),
            );
        },
        None => {
            out.push("requirement_id,file,line,comment_text,above,below,inline,scope,blame".to_owned());
        },
    }
    let ghost head = seq![csv_header(mv)];
    assert(string_views(out@) =~= head);
    let mut i: usize = 0;
    assert(groups.take(0) == Seq::<GroupView>::empty());
    assert(head + all_rows(groups.take(0), mv) == head);
    while i < results.len()
        invariant
            i <= groups.len(),
            groups == results.groups(),
            mv == meta_view(meta),
            head == seq![csv_header(mv)],
            string_views(out@) == head + all_rows(groups.take(i as int), mv),
        decreases groups.len() - i,
    {
        let ghost before = string_views(out@);
        let ghost here = groups[i as int].entries;
        let ghost slug = groups[i as int].slug;
        let entries = results.entries(i);
        let mut j: usize = 0;
        assert(here.take(0) == Seq::<EntryView>::empty());
        assert(before + group_rows(slug, here.take(0), mv) == before);
        while j < entries.len()
            invariant
                i < groups.len(),
                groups == results.groups(),
                mv == meta_view(meta),
                j <= entries.len(),
                here == groups[i as int].entries,
                slug == groups[i as int].slug,
                here.len() == entries.len(),
                forall|k: int| 0 <= k < entries.len() ==> #[trigger] here[k] == entries@[k]@,
                string_views(out@) == before + group_rows(slug, here.take(j as int), mv),
            decreases entries.len() - j,
        {
            match csv_row(results.slug(i), &entries[j], meta) {
                Ok(line) => {
                    let ghost lines_before = string_views(out@);
                    out.push(line);
                    assert(string_views(out@) =~= lines_before.push(line@));
                },
                Err(e) => {
                    return Err(e);
                },
            }
            assert(here.take(j as int + 1).drop_last() == here.take(j as int));
            assert(here.take(j as int + 1).last() == here[j as int]);
            assert(string_views(out@) =~= before + group_rows(slug, here.take(j as int + 1), mv));
            j = j + 1;
        }
        assert(here.take(entries.len() as int) == here);
        assert(groups.take(i as int + 1).drop_last() == groups.take(i as int));
        assert(groups.take(i as int + 1).last() == groups[i as int]);
        assert(string_views(out@) =~= head + all_rows(groups.take(i as int + 1), mv));
        i = i + 1;
    }
    assert(groups.take(groups.len() as int) == groups);
    Ok(join_strings(&out, "\n"))
}

} // verus!
