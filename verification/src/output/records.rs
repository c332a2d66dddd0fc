//! The records of a report as JSON documents.

use crate::git::{BlameInfo, BlameRecord, GitMeta, GitMetaView};
use crate::json::{
    bool_text, bool_token, count_token, integer_token, push_key, push_member, push_token,
    push_tokens, render, rendered, signed_decimal, token_views, OutputError, Token,
    TokenView,
};
use crate::scan::context::{context_view, CodeContext, ContextView};
use crate::scan::entry::{Entry, EntryView};
use crate::scan::result::{GroupView, ScanResult};
use crate::scan::scope::{scope_views, ScopeItem, ScopeView};
use crate::text::{decimal, option_view};
use vstd::prelude::*;

verus! {

/// A member with a string value, if there is a value.
pub open spec fn optional_member(key: Seq<char>, value: Option<Seq<char>>) -> Seq<TokenView> {
    match value {
        Some(v) => seq![TokenView::Key(key), TokenView::Text(v)],
        None => Seq::empty(),
    }
}

/// A context object: its kind, its name if it has one, and its text.
pub open spec fn context_tokens(c: ContextView) -> Seq<TokenView> {
    seq![TokenView::BeginObject, TokenView::Key("kind"@), TokenView::Text(c.kind)]
        + optional_member("name"@, c.name) + seq![
        TokenView::Key("text"@),
        TokenView::Text(c.text),
        TokenView::EndObject,
    ]
}

/// A member that holds a context object, if there is one.
pub open spec fn optional_context(key: Seq<char>, c: Option<ContextView>) -> Seq<TokenView> {
    match c {
        Some(c) => seq![TokenView::Key(key)] + context_tokens(c),
        None => Seq::empty(),
    }
}

/// A scope item: its kind, and its name if it has one.
pub open spec fn scope_tokens(s: ScopeView) -> Seq<TokenView> {
    seq![TokenView::BeginObject, TokenView::Key("kind"@), TokenView::Text(s.kind)]
        + optional_member("name"@, s.name) + seq![TokenView::EndObject]
}

/// The scope items of a chain, one after the other.
pub open spec fn scopes_flat(items: Seq<ScopeView>) -> Seq<TokenView>
    decreases items.len(),
{
    if items.len() == 0 {
        Seq::empty()
    } else {
        scopes_flat(items.drop_last()) + scope_tokens(items.last())
    }
}

/// A scope chain as a list.
pub open spec fn scope_list_tokens(items: Seq<ScopeView>) -> Seq<TokenView> {
    seq![TokenView::BeginList] + scopes_flat(items) + seq![TokenView::EndList]
}

/// A member with a number, if there is one.
pub open spec fn optional_number(key: Seq<char>, value: Option<i64>) -> Seq<TokenView> {
    match value {
        Some(n) => seq![TokenView::Key(key), TokenView::Plain(signed_decimal(n as int))],
        None => Seq::empty(),
    }
}

/// An attribution record: the revision, and what is known of its author,
/// time and summary.
pub open spec fn blame_tokens(b: BlameRecord) -> Seq<TokenView> {
    seq![TokenView::BeginObject, TokenView::Key("commit"@), TokenView::Text(b.commit)]
        + optional_member("author"@, b.author) + optional_member("author_mail"@, b.author_mail)
        + optional_number("author_time"@, b.author_time) + optional_member("summary"@, b.summary)
        + seq![TokenView::EndObject]
}

/// A member that holds an attribution record, if there is one.
pub open spec fn optional_blame(key: Seq<char>, b: Option<BlameRecord>) -> Seq<TokenView> {
    match b {
        Some(b) => seq![TokenView::Key(key)] + blame_tokens(b),
        None => Seq::empty(),
    }
}

/// A member that holds a scope chain, unless the chain is empty.
pub open spec fn optional_scope(key: Seq<char>, items: Seq<ScopeView>) -> Seq<TokenView> {
    if items.len() > 0 {
        seq![TokenView::Key(key)] + scope_list_tokens(items)
    } else {
        Seq::empty()
    }
}

/// An occurrence record: file, line and comment text, then the contexts,
/// the scope chain and the attribution as far as they are present.
pub open spec fn entry_tokens(e: EntryView) -> Seq<TokenView> {
    seq![
        TokenView::BeginObject,
        TokenView::Key("file"@),
        TokenView::Text(e.file),
        TokenView::Key("line"@),
        TokenView::Plain(decimal(e.line)),
        TokenView::Key("comment_text"@),
        TokenView::Text(e.comment_text),
    ] + optional_context("above"@, e.above) + optional_context("below"@, e.below)
        + optional_context("inline"@, e.inline) + optional_scope("scope"@, e.scope)
        + optional_blame("blame"@, e.blame) + seq![TokenView::EndObject]
}

/// The occurrence records of a list, one after the other.
pub open spec fn entries_flat(entries: Seq<EntryView>) -> Seq<TokenView>
    decreases entries.len(),
{
    if entries.len() == 0 {
        Seq::empty()
    } else {
        entries_flat(entries.drop_last()) + entry_tokens(entries.last())
    }
}

/// One key of the mapping with the list of its occurrences.
pub open spec fn group_tokens(g: GroupView) -> Seq<TokenView> {
    seq![TokenView::Key(g.slug), TokenView::BeginList] + entries_flat(g.entries) + seq![
        TokenView::EndList,
    ]
}

/// The keys of a mapping with their lists, one after the other.
pub open spec fn groups_flat(groups: Seq<GroupView>) -> Seq<TokenView>
    decreases groups.len(),
{
    if groups.len() == 0 {
        Seq::empty()
    } else {
        groups_flat(groups.drop_last()) + group_tokens(groups.last())
    }
}

/// The result mapping as an object: each key with the list of its
/// occurrences, in key order.
pub open spec fn results_tokens(groups: Seq<GroupView>) -> Seq<TokenView> {
    seq![TokenView::BeginObject] + groups_flat(groups) + seq![TokenView::EndObject]
}

/// The repository state as an object.
pub open spec fn meta_tokens(m: GitMetaView) -> Seq<TokenView> {
    seq![
        TokenView::BeginObject,
        TokenView::Key("repo_root"@),
        TokenView::Text(m.repo_root),
        TokenView::Key("head_sha"@),
        TokenView::Text(m.head_sha),
    ] + optional_member("head_ref"@, m.head_ref) + seq![
        TokenView::Key("is_dirty"@),
        TokenView::Plain(bool_text(m.is_dirty)),
        TokenView::EndObject,
    ]
}

/// The JSON report: the result mapping alone, or, with the repository
/// state, an object that holds the state as `meta` and the mapping as
/// `results`.
pub open spec fn report_tokens(meta: Option<GitMetaView>, groups: Seq<GroupView>) -> Seq<
    TokenView,
> {
    match meta {
        Some(m) => seq![TokenView::BeginObject, TokenView::Key("meta"@)] + meta_tokens(m) + seq![
            TokenView::Key("results"@),
        ] + results_tokens(groups) + seq![TokenView::EndObject],
        None => results_tokens(groups),
    }
}

/// The view of an optional repository state.
pub open spec fn meta_view(meta: Option<&GitMeta>) -> Option<GitMetaView> {
    match meta {
        Some(m) => Some(m@),
        None => None,
    }
}

/// Appends a member with a string value, if there is a value.
fn push_optional_member(out: &mut Vec<Token>, key: &str, value: &Option<String>)
    ensures
        token_views(final(out)@) == token_views(old(out)@) + optional_member(
            key@,
            option_view(*value),
        ),
{
    match value {
        Some(v) => {
            push_member(out, key, v.as_str());
        },
        None => {
            assert(token_views(out@) + Seq::<TokenView>::empty() == token_views(out@));
        },
    }
}

/// The tokens of a context object.
pub fn context_to_tokens(c: &CodeContext) -> (r: Vec<Token>)
    ensures
        token_views(r@) == context_tokens(c@),
{
    let mut out: Vec<Token> = Vec::new();
    assert(token_views(out@) =~= Seq::<TokenView>::empty());
    push_token(&mut out, Token::BeginObject);
    push_member(&mut out, "kind", c.kind.as_str());
    push_optional_member(&mut out, "name", &c.name);
    push_member(&mut out, "text", c.text.as_str());
    push_token(&mut out, Token::EndObject);
    assert(token_views(out@) =~= context_tokens(c@));
    out
}

/// Appends a member that holds a context object, if there is one.
fn push_optional_context(out: &mut Vec<Token>, key: &str, c: &Option<CodeContext>)
    ensures
        token_views(final(out)@) == token_views(old(out)@) + optional_context(
            key@,
            context_view(*c),
        ),
{
    match c {
        Some(c) => {
            push_key(out, key);
            push_tokens(out, context_to_tokens(c));
            assert(token_views(out@) =~= token_views(old(out)@) + (seq![TokenView::Key(key@)]
                + context_tokens(c@)));
        },
        None => {
            assert(token_views(out@) + Seq::<TokenView>::empty() == token_views(out@));
        },
    }
}

/// The tokens of a scope chain.
pub fn scope_to_tokens(items: &Vec<ScopeItem>) -> (r: Vec<Token>)
    ensures
        token_views(r@) == scope_list_tokens(scope_views(items@)),
{
    let ghost all = scope_views(items@);
    let mut out: Vec<Token> = Vec::new();
    assert(token_views(out@) =~= Seq::<TokenView>::empty());
    push_token(&mut out, Token::BeginList);
    let mut i: usize = 0;
    assert(all.take(0) == Seq::<ScopeView>::empty());
    assert(token_views(out@) =~= seq![TokenView::BeginList] + scopes_flat(all.take(0)));
    while i < items.len()
        invariant
            i <= items.len(),
            all == scope_views(items@),
            token_views(out@) == seq![TokenView::BeginList] + scopes_flat(all.take(i as int)),
        decreases items.len() - i,
    {
        let item = &items[i];
        let ghost before = token_views(out@);
        push_token(&mut out, Token::BeginObject);
        push_member(&mut out, "kind", item.kind.as_str());
        push_optional_member(&mut out, "name", &item.name);
        push_token(&mut out, Token::EndObject);
        assert(token_views(out@) =~= before + scope_tokens(item@));
        assert(all.take(i as int + 1).drop_last() == all.take(i as int));
        assert(all.take(i as int + 1).last() == item@);
        assert(token_views(out@) =~= seq![TokenView::BeginList] + scopes_flat(
            all.take(i as int + 1),
        ));
        i = i + 1;
    }
    assert(all.take(items.len() as int) == all);
    push_token(&mut out, Token::EndList);
    out
}

/// The tokens of an attribution record.
pub fn blame_to_tokens(b: &BlameInfo) -> (r: Vec<Token>)
    ensures
        token_views(r@) == blame_tokens(b@),
{
    let mut out: Vec<Token> = Vec::new();
    assert(token_views(out@) =~= Seq::<TokenView>::empty());
    push_token(&mut out, Token::BeginObject);
    push_member(&mut out, "commit", b.commit.as_str());
    push_optional_member(&mut out, "author", &b.author);
    push_optional_member(&mut out, "author_mail", &b.author_mail);
    match b.author_time {
        Some(t) => {
            push_key(&mut out, "author_time");
            push_token(&mut out, integer_token(t));
        },
        None => {},
    }
    assert(token_views(out@) =~= seq![
        TokenView::BeginObject,
        TokenView::Key("commit"@),
        TokenView::Text(b@.commit),
    ] + optional_member("author"@, b@.author) + optional_member("author_mail"@, b@.author_mail)
        + optional_number("author_time"@, b@.author_time));
    push_optional_member(&mut out, "summary", &b.summary);
    push_token(&mut out, Token::EndObject);
    out
}

/// The tokens of an occurrence record.
pub fn entry_to_tokens(e: &Entry) -> (r: Vec<Token>)
    ensures
        token_views(r@) == entry_tokens(e@),
{
    let mut out: Vec<Token> = Vec::new();
    assert(token_views(out@) =~= Seq::<TokenView>::empty());
    push_token(&mut out, Token::BeginObject);
    push_member(&mut out, "file", e.file.as_str());
    push_key(&mut out, "line");
    push_token(&mut out, count_token(e.line));
    push_member(&mut out, "comment_text", e.comment_text.as_str());
    assert(token_views(out@) =~= seq![
        TokenView::BeginObject,
        TokenView::Key("file"@),
        TokenView::Text(e@.file),
        TokenView::Key("line"@),
        TokenView::Plain(decimal(e@.line)),
        TokenView::Key("comment_text"@),
        TokenView::Text(e@.comment_text),
    ]);
    push_optional_context(&mut out, "above", &e.above);
    push_optional_context(&mut out, "below", &e.below);
    push_optional_context(&mut out, "inline", &e.inline);
    let ghost before_scope = token_views(out@);
    if e.scope.len() > 0 {
        push_key(&mut out, "scope");
        push_tokens(&mut out, scope_to_tokens(&e.scope));
    }
    assert(token_views(out@) =~= before_scope + optional_scope("scope"@, e@.scope));
    let ghost before_blame = token_views(out@);
    match &e.blame {
        Some(b) => {
            push_key(&mut out, "blame");
            push_tokens(&mut out, blame_to_tokens(b));
        },
        None => {},
    }
    assert(token_views(out@) =~= before_blame + optional_blame("blame"@, e@.blame));
    push_token(&mut out, Token::EndObject);
    out
}

/// The tokens of the repository state.
pub fn meta_to_tokens(m: &GitMeta) -> (r: Vec<Token>)
    ensures
        token_views(r@) == meta_tokens(m@),
{
    let mut out: Vec<Token> = Vec::new();
    assert(token_views(out@) =~= Seq::<TokenView>::empty());
    push_token(&mut out, Token::BeginObject);
    push_member(&mut out, "repo_root", m.repo_root.as_str());
    push_member(&mut out, "head_sha", m.head_sha.as_str());
    push_optional_member(&mut out, "head_ref", &m.head_ref);
    push_key(&mut out, "is_dirty");
    push_token(&mut out, bool_token(m.is_dirty));
    push_token(&mut out, Token::EndObject);
    assert(token_views(out@) =~= meta_tokens(m@));
    out
}

/// The tokens of the result mapping.
pub fn results_to_tokens(results: &ScanResult) -> (r: Vec<Token>)
    ensures
        token_views(r@) == results_tokens(results.groups()),
{
    let ghost groups = results.groups();
    let mut out: Vec<Token> = Vec::new();
    assert(token_views(out@) =~= Seq::<TokenView>::empty());
    push_token(&mut out, Token::BeginObject);
    let mut i: usize = 0;
    assert(groups.take(0) == Seq::<GroupView>::empty());
    assert(token_views(out@) =~= seq![TokenView::BeginObject] + groups_flat(groups.take(0)));
    while i < results.len()
        invariant
            i <= groups.len(),
            groups == results.groups(),
            token_views(out@) == seq![TokenView::BeginObject] + groups_flat(groups.take(i as int)),
        decreases groups.len() - i,
    {
        let ghost before = token_views(out@);
        let ghost here = groups[i as int].entries;
        push_key(&mut out, results.slug(i).as_str());
        push_token(&mut out, Token::BeginList);
        let entries = results.entries(i);
        let mut j: usize = 0;
        assert(here.take(0) == Seq::<EntryView>::empty());
        assert(token_views(out@) =~= before + seq![
            TokenView::Key(groups[i as int].slug),
            TokenView::BeginList,
        ] + entries_flat(here.take(0)));
        while j < entries.len()
            invariant
                j <= entries.len(),
                here.len() == entries.len(),
                forall|k: int| 0 <= k < entries.len() ==> #[trigger] here[k] == entries@[k]@,
                token_views(out@) == before + seq![
                    TokenView::Key(groups[i as int].slug),
                    TokenView::BeginList,
                ] + entries_flat(here.take(j as int)),
            decreases entries.len() - j,
        {
            push_tokens(&mut out, entry_to_tokens(&entries[j]));
            assert(here.take(j as int + 1).drop_last() == here.take(j as int));
            assert(here.take(j as int + 1).last() == entries@[j as int]@);
            assert(token_views(out@) =~= before + seq![
                TokenView::Key(groups[i as int].slug),
                TokenView::BeginList,
            ] + entries_flat(here.take(j as int + 1)));
            j = j + 1;
        }
        assert(here.take(entries.len() as int) == here);
        push_token(&mut out, Token::EndList);
        assert(token_views(out@) =~= before + group_tokens(groups[i as int]));
        assert(groups.take(i as int + 1).drop_last() == groups.take(i as int));
        assert(groups.take(i as int + 1).last() == groups[i as int]);
        assert(token_views(out@) =~= seq![TokenView::BeginObject] + groups_flat(
            groups.take(i as int + 1),
        ));
        i = i + 1;
    }
    assert(groups.take(groups.len() as int) == groups);
    push_token(&mut out, Token::EndObject);
    out
}

/// The tokens of the JSON report.
pub fn report_to_tokens(meta: Option<&GitMeta>, results: &ScanResult) -> (r: Vec<Token>)
    ensures
        token_views(r@) == report_tokens(meta_view(meta), results.groups()),
{
    match meta {
        Some(m) => {
            let mut out: Vec<Token> = Vec::new();
            assert(token_views(out@) =~= Seq::<TokenView>::empty());
            push_token(&mut out, Token::BeginObject);
            push_key(&mut out, "meta");
            push_tokens(&mut out, meta_to_tokens(m));
            push_key(&mut out, "results");
            push_tokens(&mut out, results_to_tokens(results));
            push_token(&mut out, Token::EndObject);
            assert(token_views(out@) =~= report_tokens(meta_view(meta), results.groups()));
            out
        },
        None => results_to_tokens(results),
    }
}

/// The JSON report, indented.
pub fn format_json(meta: Option<&GitMeta>, results: &ScanResult) -> (r: Result<String, OutputError>)
    ensures
        r is Ok,
        r->Ok_0@ == rendered(
            report_tokens(meta_view(meta), results.groups()),
            true,
        ),
{
    let tokens = report_to_tokens(meta, results);
    render(&tokens, true)
}

} // verus!
