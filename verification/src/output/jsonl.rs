//! The report as JSON lines: one compact document to a line.

use crate::git::{GitMeta, GitMetaView};
use crate::json::{
    push_key, push_member, push_token, push_tokens, render, rendered, token_views,
    OutputError, Token, TokenView,
};
use crate::output::records::{entry_to_tokens, entry_tokens, meta_to_tokens, meta_tokens, meta_view};
use crate::scan::entry::EntryView;
use crate::scan::result::{GroupView, ScanResult};
use crate::text::{join, join_strings, string_views};
use vstd::prelude::*;

verus! {

/// The first line of the JSON-lines report: the repository state.
pub open spec fn meta_line_tokens(m: GitMetaView) -> Seq<TokenView> {
    seq![
        TokenView::BeginObject,
        TokenView::Key("type"@),
        TokenView::Text("meta"@),
        TokenView::Key("meta"@),
    ] + meta_tokens(m) + seq![TokenView::EndObject]
}

/// A line of the JSON-lines report for one occurrence.
pub open spec fn match_line_tokens(slug: Seq<char>, e: EntryView) -> Seq<TokenView> {
    seq![
        TokenView::BeginObject,
        TokenView::Key("type"@),
        TokenView::Text("match"@),
        TokenView::Key("requirement_id"@),
        TokenView::Text(slug),
        TokenView::Key("entry"@),
    ] + entry_tokens(e) + seq![TokenView::EndObject]
}

/// The lines for the occurrences of one key.
pub open spec fn match_lines(slug: Seq<char>, entries: Seq<EntryView>) -> Seq<Seq<char>>
    decreases entries.len(),
{
    if entries.len() == 0 {
        Seq::empty()
    } else {
        match_lines(slug, entries.drop_last()).push(
            rendered(match_line_tokens(slug, entries.last()), false),
        )
    }
}

/// The lines for all occurrences, key by key.
pub open spec fn all_match_lines(groups: Seq<GroupView>) -> Seq<Seq<char>>
    decreases groups.len(),
{
    if groups.len() == 0 {
        Seq::empty()
    } else {
        all_match_lines(groups.drop_last()) + match_lines(groups.last().slug, groups.last().entries)
    }
}

/// The lines of the JSON-lines report: the repository state, if it is
/// given, then one line for each occurrence.
pub open spec fn jsonl_lines(meta: Option<GitMetaView>, groups: Seq<GroupView>) -> Seq<Seq<char>> {
    (match meta {
        Some(m) => seq![rendered(meta_line_tokens(m), false)],
        None => Seq::empty(),
    }) + all_match_lines(groups)
}

/// The JSON-lines report: one compact document to a line.
pub fn format_jsonl(meta: Option<&GitMeta>, results: &ScanResult) -> (r: Result<String, OutputError>)
    ensures
        r is Ok,
        r->Ok_0@ == join(
            jsonl_lines(meta_view(meta), results.groups()),
            "\n"@,
        ),
{
    let ghost groups = results.groups();
    let ghost head: Seq<Seq<char>> = match meta_view(meta) {
        Some(m) => seq![rendered(meta_line_tokens(m), false)],
        None => Seq::empty(),
    };
    let mut out: Vec<String> = Vec::new();
    match meta {
        Some(m) => {
            let mut tokens: Vec<Token> = Vec::new();
            assert(token_views(tokens@) =~= Seq::<TokenView>::empty());
            push_token(&mut tokens, Token::BeginObject);
            push_member(&mut tokens, "type", "meta");
            push_key(&mut tokens, "meta");
            push_tokens(&mut tokens, meta_to_tokens(m));
            push_token(&mut tokens, Token::EndObject);
            assert(token_views(tokens@) =~= meta_line_tokens(m@));
            match render(&tokens, false) {
                Ok(line) => {
                    out.push(line);
                },
                Err(e) => {
                    return Err(e);
                },
            }
        },
        None => {},
    }
    assert(string_views(out@) =~= head);
    let mut i: usize = 0;
    assert(groups.take(0) == Seq::<GroupView>::empty());
    assert(head + all_match_lines(groups.take(0)) == head);
    while i < results.len()
        invariant
            i <= groups.len(),
            groups == results.groups(),
            head == match meta_view(meta) {
                Some(m) => seq![rendered(meta_line_tokens(m), false)],
                None => Seq::<Seq<char>>::empty(),
            },
            string_views(out@) == head + all_match_lines(groups.take(i as int)),
        decreases groups.len() - i,
    {
        let ghost before = string_views(out@);
        let ghost here = groups[i as int].entries;
        let ghost slug = groups[i as int].slug;
        let entries = results.entries(i);
        let mut j: usize = 0;
        assert(here.take(0) == Seq::<EntryView>::empty());
        assert(before + match_lines(slug, here.take(0)) == before);
        while j < entries.len()
            invariant
                i < groups.len(),
                groups == results.groups(),
                j <= entries.len(),
                here == groups[i as int].entries,
                slug == groups[i as int].slug,
                here.len() == entries.len(),
                forall|k: int| 0 <= k < entries.len() ==> #[trigger] here[k] == entries@[k]@,
                string_views(out@) == before + match_lines(slug, here.take(j as int)),
            decreases entries.len() - j,
        {
            let mut tokens: Vec<Token> = Vec::new();
            assert(token_views(tokens@) =~= Seq::<TokenView>::empty());
            push_token(&mut tokens, Token::BeginObject);
            push_member(&mut tokens, "type", "match");
            push_member(&mut tokens, "requirement_id", results.slug(i).as_str());
            push_key(&mut tokens, "entry");
            push_tokens(&mut tokens, entry_to_tokens(&entries[j]));
            push_token(&mut tokens, Token::EndObject);
            assert(token_views(tokens@) =~= match_line_tokens(slug, here[j as int]));
            match render(&tokens, false) {
                Ok(line) => {
                    let ghost lines_before = string_views(out@);
                    out.push(line);
                    assert(string_views(out@) =~= lines_before.push(line@));
                },
                Err(e) => {
                    return Err(e);
                },
            }
            assert(here.take(j as int + 1).drop_last() == here.take(j as int));
            assert(here.take(j as int + 1).last() == here[j as int]);
            assert(string_views(out@) =~= before + match_lines(slug, here.take(j as int + 1)));
            j = j + 1;
        }
        assert(here.take(entries.len() as int) == here);
        assert(groups.take(i as int + 1).drop_last() == groups.take(i as int));
        assert(groups.take(i as int + 1).last() == groups[i as int]);
        assert(string_views(out@) =~= head + all_match_lines(groups.take(i as int + 1)));
        i = i + 1;
    }
    assert(groups.take(groups.len() as int) == groups);
    Ok(join_strings(&out, "\n"))
}

} // verus!
