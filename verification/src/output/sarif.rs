//! The report as a SARIF log.

use crate::git::{GitMeta, GitMetaView};
use crate::json::{
    count_token, push_key, push_member, push_token, push_tokens, render, rendered, token_views, OutputError, Token, TokenView,
};
use crate::output::records::{
    blame_to_tokens, meta_to_tokens, meta_tokens, meta_view, optional_blame,
};
use crate::scan::entry::{Entry, EntryView};
use crate::scan::result::{GroupView, ScanResult};
use crate::text::{chars_of, decimal, string_of};
use vstd::prelude::*;
use vstd::string::StringExecFns;

verus! {

/// `path` with every backslash replaced by a slash.
pub open spec fn slashed(path: Seq<char>) -> Seq<char> {
    Seq::new(
        path.len(),
        |i: int|
            if path[i] == '\\' {
                '/'
            } else {
                path[i]
            },
    )
}

/// The file of an occurrence as a URI reference.
pub fn file_uri(path: &str) -> (r: String)
    ensures
        r@ == slashed(path@),
{
    let chars = chars_of(path);
    let mut out: Vec<char> = Vec::new();
    let mut i: usize = 0;
    while i < chars.len()
        invariant
            i <= chars.len(),
            out.len() == i,
            forall|k: int| 0 <= k < i ==> #[trigger] out@[k] == slashed(chars@)[k],
        decreases chars.len() - i,
    {
        if chars[i] == '\\' {
            out.push('/');
        } else {
            out.push(chars[i]);
        }
        i = i + 1;
    }
    assert(out@ =~= slashed(chars@));
    string_of(&out)
}

/// The opening of the SARIF log: the schema, the version, and the one run
/// with its tool and the rule that all results refer to, up to the start of
/// the list of results.
pub open spec fn sarif_head() -> Seq<TokenView> {
    seq![
        TokenView::BeginObject,
        TokenView::Key("$schema"@),
        TokenView::Text("https://schemastore.azurewebsites.net/schemas/json/sarif-2.1.0.json"@),
        TokenView::Key("version"@),
        TokenView::Text("2.1.0"@),
        TokenView::Key("runs"@),
        TokenView::BeginList,
        TokenView::BeginObject,
        TokenView::Key("tool"@),
        TokenView::BeginObject,
        TokenView::Key("driver"@),
        TokenView::BeginObject,
        TokenView::Key("name"@),
        TokenView::Text("tracy"@),
        TokenView::Key("version"@),
        TokenView::Text("0.1.0"@),
        TokenView::Key("rules"@),
        TokenView::BeginList,
        TokenView::BeginObject,
        TokenView::Key("id"@),
        TokenView::Text("traceability.requirement_ref"@),
        TokenView::Key("name"@),
        TokenView::Text("Requirement reference"@),
        TokenView::Key("shortDescription"@),
        TokenView::BeginObject,
        TokenView::Key("text"@),
        TokenView::Text("Requirement references found in comments"@),
        TokenView::EndObject,
        TokenView::EndObject,
        TokenView::EndList,
        TokenView::EndObject,
        TokenView::EndObject,
        TokenView::Key("results"@),
        TokenView::BeginList,
    ]
}

/// One SARIF result: a note that refers to the rule, names the identifier
/// in its message, locates the occurrence by file and line, and carries
/// the identifier, the comment text and the attribution as properties.
pub open spec fn sarif_result(slug: Seq<char>, e: EntryView) -> Seq<TokenView> {
    seq![
        TokenView::BeginObject,
        TokenView::Key("ruleId"@),
        TokenView::Text("traceability.requirement_ref"@),
        TokenView::Key("level"@),
        TokenView::Text("note"@),
        TokenView::Key("message"@),
        TokenView::BeginObject,
        TokenView::Key("text"@),
        TokenView::Text("Requirement reference: "@ + slug),
        TokenView::EndObject,
        TokenView::Key("locations"@),
        TokenView::BeginList,
        TokenView::BeginObject,
        TokenView::Key("physicalLocation"@),
        TokenView::BeginObject,
        TokenView::Key("artifactLocation"@),
        TokenView::BeginObject,
        TokenView::Key("uri"@),
        TokenView::Text(slashed(e.file)),
        TokenView::EndObject,
        TokenView::Key("region"@),
        TokenView::BeginObject,
        TokenView::Key("startLine"@),
        TokenView::Plain(decimal(e.line)),
        TokenView::EndObject,
        TokenView::EndObject,
        TokenView::EndObject,
        TokenView::EndList,
        TokenView::Key("properties"@),
        TokenView::BeginObject,
        TokenView::Key("requirement_id"@),
        TokenView::Text(slug),
        TokenView::Key("comment_text"@),
        TokenView::Text(e.comment_text),
    ] + optional_blame("blame"@, e.blame) + seq![TokenView::EndObject, TokenView::EndObject]
}

/// The results for the occurrences of one key.
pub open spec fn sarif_group(slug: Seq<char>, entries: Seq<EntryView>) -> Seq<TokenView>
    decreases entries.len(),
{
    if entries.len() == 0 {
        Seq::empty()
    } else {
        sarif_group(slug, entries.drop_last()) + sarif_result(slug, entries.last())
    }
}

/// The results for all occurrences, key by key.
pub open spec fn sarif_results(groups: Seq<GroupView>) -> Seq<TokenView>
    decreases groups.len(),
{
    if groups.len() == 0 {
        Seq::empty()
    } else {
        sarif_results(groups.drop_last()) + sarif_group(groups.last().slug, groups.last().entries)
    }
}

/// The end of the SARIF log: the list of results is closed, the repository
/// state follows as the run's properties if it is given, and the run, the
/// list of runs and the log are closed.
pub open spec fn sarif_tail(meta: Option<GitMetaView>) -> Seq<TokenView> {
    seq![TokenView::EndList] + (match meta {
        Some(m) => seq![TokenView::Key("properties"@)] + meta_tokens(m),
        None => Seq::empty(),
    }) + seq![TokenView::EndObject, TokenView::EndList, TokenView::EndObject]
}

/// The SARIF log.
pub open spec fn sarif_tokens(meta: Option<GitMetaView>, groups: Seq<GroupView>) -> Seq<
    TokenView,
> {
    sarif_head() + sarif_results(groups) + sarif_tail(meta)
}

/// The tokens with which the SARIF log opens.
fn sarif_head_tokens() -> (r: Vec<Token>)
    ensures
        token_views(r@) == sarif_head(),
{
    let mut out: Vec<Token> = Vec::new();
    assert(token_views(out@) =~= Seq::<TokenView>::empty());
    push_token(&mut out, Token::BeginObject);
    push_member(
        &mut out,
        "$schema",
        "https://schemastore.azurewebsites.net/schemas/json/sarif-2.1.0.json",
    );
    push_member(&mut out, "version", "2.1.0");
    push_key(&mut out, "runs");
    push_token(&mut out, Token::BeginList);
    push_token(&mut out, Token::BeginObject);
    push_key(&mut out, "tool");
    push_token(&mut out, Token::BeginObject);
    push_key(&mut out, "driver");
    push_token(&mut out, Token::BeginObject);
    push_member(&mut out, "name", "tracy");
    push_member(&mut out, "version", "0.1.0");
    push_key(&mut out, "rules");
    push_token(&mut out, Token::BeginList);
    push_token(&mut out, Token::BeginObject);
    push_member(&mut out, "id", "traceability.requirement_ref");
    push_member(&mut out, "name", "Requirement reference");
    push_key(&mut out, "shortDescription");
    push_token(&mut out, Token::BeginObject);
    push_member(&mut out, "text", "Requirement references found in comments");
    push_token(&mut out, Token::EndObject);
    push_token(&mut out, Token::EndObject);
    push_token(&mut out, Token::EndList);
    push_token(&mut out, Token::EndObject);
    push_token(&mut out, Token::EndObject);
    push_key(&mut out, "results");
    push_token(&mut out, Token::BeginList);
    assert(token_views(out@) =~= sarif_head());
    out
}

/// The tokens of one SARIF result.
fn sarif_result_tokens(slug: &String, e: &Entry) -> (r: Vec<Token>)
    ensures
        token_views(r@) == sarif_result(slug@, e@),
{
    let mut message = "Requirement reference: ".to_owned();
    message.append(slug.as_str());
    let uri = file_uri(e.file.as_str());
    let mut out: Vec<Token> = Vec::new();
    assert(token_views(out@) =~= Seq::<TokenView>::empty());
    push_token(&mut out, Token::BeginObject);
    push_member(&mut out, "ruleId", "traceability.requirement_ref");
    push_member(&mut out, "level", "note");
    push_key(&mut out, "message");
    push_token(&mut out, Token::BeginObject);
    push_member(&mut out, "text", message.as_str());
    push_token(&mut out, Token::EndObject);
    push_key(&mut out, "locations");
    push_token(&mut out, Token::BeginList);
    push_token(&mut out, Token::BeginObject);
    push_key(&mut out, "physicalLocation");
    push_token(&mut out, Token::BeginObject);
    push_key(&mut out, "artifactLocation");
    push_token(&mut out, Token::BeginObject);
    push_member(&mut out, "uri", uri.as_str());
    push_token(&mut out, Token::EndObject);
    push_key(&mut out, "region");
    push_token(&mut out, Token::BeginObject);
    push_key(&mut out, "startLine");
    push_token(&mut out, count_token(e.line));
    push_token(&mut out, Token::EndObject);
    push_token(&mut out, Token::EndObject);
    push_token(&mut out, Token::EndObject);
    push_token(&mut out, Token::EndList);
    push_key(&mut out, "properties");
    push_token(&mut out, Token::BeginObject);
    push_member(&mut out, "requirement_id", slug.as_str());
    push_member(&mut out, "comment_text", e.comment_text.as_str());
    let ghost before_blame = token_views(out@);
    match &e.blame {
        Some(b) => {
            push_key(&mut out, "blame");
            push_tokens(&mut out, blame_to_tokens(b));
        },
        None => {},
    }
    assert(token_views(out@) =~= before_blame + optional_blame("blame"@, e@.blame));
    push_token(&mut out, Token::EndObject);
    push_token(&mut out, Token::EndObject);
    assert(token_views(out@) =~= sarif_result(slug@, e@));
    out
}

/// The tokens of the SARIF log.
pub fn sarif_to_tokens(meta: Option<&GitMeta>, results: &ScanResult) -> (r: Vec<Token>)
    ensures
        token_views(r@) == sarif_tokens(meta_view(meta), results.groups()),
{
    let ghost groups = results.groups();
    let mut out = sarif_head_tokens();
    let mut i: usize = 0;
    assert(groups.take(0) == Seq::<GroupView>::empty());
    assert(sarif_head() + sarif_results(groups.take(0)) == sarif_head());
    while i < results.len()
        invariant
            i <= groups.len(),
            groups == results.groups(),
            token_views(out@) == sarif_head() + sarif_results(groups.take(i as int)),
        decreases groups.len() - i,
    {
        let ghost before = token_views(out@);
        let ghost here = groups[i as int].entries;
        let ghost slug = groups[i as int].slug;
        let entries = results.entries(i);
        let mut j: usize = 0;
        assert(here.take(0) == Seq::<EntryView>::empty());
        assert(before + sarif_group(slug, here.take(0)) == before);
        while j < entries.len()
            invariant
                i < groups.len(),
                groups == results.groups(),
                j <= entries.len(),
                slug == groups[i as int].slug,
                here.len() == entries.len(),
                forall|k: int| 0 <= k < entries.len() ==> #[trigger] here[k] == entries@[k]@,
                token_views(out@) == before + sarif_group(slug, here.take(j as int)),
            decreases entries.len() - j,
        {
            push_tokens(&mut out, sarif_result_tokens(results.slug(i), &entries[j]));
            assert(here.take(j as int + 1).drop_last() == here.take(j as int));
            assert(here.take(j as int + 1).last() == here[j as int]);
            assert(token_views(out@) =~= before + sarif_group(slug, here.take(j as int + 1)));
            j = j + 1;
        }
        assert(here.take(entries.len() as int) == here);
        assert(groups.take(i as int + 1).drop_last() == groups.take(i as int));
        assert(groups.take(i as int + 1).last() == groups[i as int]);
        assert(token_views(out@) =~= sarif_head() + sarif_results(groups.take(i as int + 1)));
        i = i + 1;
    }
    assert(groups.take(groups.len() as int) == groups);
    let ghost body = token_views(out@);
    push_token(&mut out, Token::EndList);
    match meta {
        Some(m) => {
            push_key(&mut out, "properties");
            push_tokens(&mut out, meta_to_tokens(m));
        },
        None => {},
    }
    push_token(&mut out, Token::EndObject);
    push_token(&mut out, Token::EndList);
    push_token(&mut out, Token::EndObject);
    assert(token_views(out@) =~= body + sarif_tail(meta_view(meta)));
    out
}

/// The SARIF report, indented.
pub fn format_sarif(meta: Option<&GitMeta>, results: &ScanResult) -> (r: Result<
    String,
    OutputError,
>)
    ensures
        r is Ok,
        r->Ok_0@ == rendered(
            sarif_tokens(meta_view(meta), results.groups()),
            true,
        ),
{
    let tokens = sarif_to_tokens(meta, results);
    render(&tokens, true)
}

} // verus!
