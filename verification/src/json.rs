//! JSON documents as flat sequences of tokens, and their text.

use crate::text::{decimal, push_decimal, string_of};
use vstd::prelude::*;
use vstd::string::StringExecFns;

verus! {

/// Trusted: `serde_json::Error`, carried as an opaque value.
#[verifier::external_type_specification]
#[verifier::external_body]
pub struct ExJsonError(serde_json::Error);

/// The hexadecimal digit, in lower case, for a value below sixteen.
pub open spec fn hex_digit(d: nat) -> char {
    if d == 0 {
        '0'
    } else if d == 1 {
        '1'
    } else if d == 2 {
        '2'
    } else if d == 3 {
        '3'
    } else if d == 4 {
        '4'
    } else if d == 5 {
        '5'
    } else if d == 6 {
        '6'
    } else if d == 7 {
        '7'
    } else if d == 8 {
        '8'
    } else if d == 9 {
        '9'
    } else if d == 10 {
        'a'
    } else if d == 11 {
        'b'
    } else if d == 12 {
        'c'
    } else if d == 13 {
        'd'
    } else if d == 14 {
        'e'
    } else {
        'f'
    }
}

/// How a character stands in a JSON string literal: the double quote and
/// the backslash behind a backslash; backspace, tab, line feed, form feed
/// and carriage return as `\b`, `\t`, `\n`, `\f` and `\r`; every other
/// control character below U+0020 as `\u00` and two hexadecimal digits;
/// every other character as it is.
pub open spec fn escaped_char(c: char) -> Seq<char> {
    if c == '"' {
        seq!['\\', '"']
    } else if c == '\\' {
        seq!['\\', '\\']
    } else if c == '\u{8}' {
        seq!['\\', 'b']
    } else if c == '\t' {
        seq!['\\', 't']
    } else if c == '\n' {
        seq!['\\', 'n']
    } else if c == '\u{c}' {
        seq!['\\', 'f']
    } else if c == '\r' {
        seq!['\\', 'r']
    } else if (c as u32) < 0x20 {
        seq![
            '\\',
            'u',
            '0',
            '0',
            hex_digit((c as u32 / 16) as nat),
            hex_digit((c as u32 % 16) as nat),
        ]
    } else {
        seq![c]
    }
}

/// The characters of `text` as they stand in a JSON string literal.
pub open spec fn escaped_text(text: Seq<char>) -> Seq<char>
    decreases text.len(),
{
    if text.len() == 0 {
        Seq::empty()
    } else {
        escaped_text(text.drop_last()) + escaped_char(text.last())
    }
}

/// The JSON string literal for `text`: the escaped text between double
/// quotes.
pub open spec fn quoted(text: Seq<char>) -> Seq<char> {
    seq!['"'] + escaped_text(text) + seq!['"']
}

/// The JSON string literal for `text`.
///
/// Trusted: `serde_json::to_string` on a string slice. It writes into a
/// byte vector, which cannot fail, and gives the string between double
/// quotes with the escapes of its escape table, as [`escaped_char`] lists
/// them.
#[verifier::external_body]
fn quote(text: &str) -> (r: Result<String, serde_json::Error>)
    ensures
        r is Ok,
        r->Ok_0@ == quoted(text@),
{
    serde_json::to_string(text)
}

/// The message of a serialisation error.
///
/// Trusted: the `Display` text of `serde_json::Error`; nothing is claimed of
/// it.
#[verifier::external_body]
fn error_message(e: &serde_json::Error) -> String {
    e.to_string()
}

/// A report could not be written.
#[derive(Debug)]
pub struct OutputError {
    pub message: String,
}

/// One token of a JSON document.
#[derive(Debug)]
pub enum Token {
    BeginObject,
    EndObject,
    BeginList,
    EndList,
    /// The key of an object member.
    Key(String),
    /// A string value.
    Text(String),
    /// A value written as it stands: a number, `true`, `false` or `null`.
    Plain(String),
}

/// The mathematical content of a [`Token`].
pub enum TokenView {
    BeginObject,
    EndObject,
    BeginList,
    EndList,
    Key(Seq<char>),
    Text(Seq<char>),
    Plain(Seq<char>),
}

impl View for Token {
    type V = TokenView;

    open spec fn view(&self) -> TokenView {
        match self {
            Token::BeginObject => TokenView::BeginObject,
            Token::EndObject => TokenView::EndObject,
            Token::BeginList => TokenView::BeginList,
            Token::EndList => TokenView::EndList,
            Token::Key(k) => TokenView::Key(k@),
            Token::Text(s) => TokenView::Text(s@),
            Token::Plain(s) => TokenView::Plain(s@),
        }
    }
}

/// The views of a list of tokens.
pub open spec fn token_views(tokens: Seq<Token>) -> Seq<TokenView> {
    Seq::new(tokens.len(), |i: int| tokens[i]@)
}

/// Where the writer stands: before anything, just inside a container, just
/// after a key, or just after a value.
#[derive(Clone, Copy, Debug, PartialEq, Eq, Structural)]
pub enum Position {
    Start,
    AfterOpen,
    AfterKey,
    AfterValue,
}

/// What has been written of a document.
pub struct RenderState {
    pub text: Seq<char>,
    pub depth: nat,
    pub position: Position,
}

/// The indentation at nesting depth `depth`: two spaces for each level.
pub open spec fn indent(depth: nat) -> Seq<char>
    decreases depth,
{
    if depth == 0 {
        Seq::empty()
    } else {
        indent((depth - 1) as nat) + "  "@
    }
}

/// What is written before a key or a value: nothing at the start and after
/// a key; inside a container a comma after a preceding element and, in
/// the indented form, a line break and the indentation.
pub open spec fn element_prefix(position: Position, depth: nat, pretty: bool) -> Seq<char> {
    match position {
        Position::Start => Seq::empty(),
        Position::AfterKey => Seq::empty(),
        Position::AfterOpen => if pretty {
            "\n"@ + indent(depth)
        } else {
            Seq::empty()
        },
        Position::AfterValue => if pretty {
            ",\n"@ + indent(depth)
        } else {
            ","@
        },
    }
}

/// What is written before the bracket that closes a container at nesting
/// depth `depth`: in the indented form a line break and the indentation,
/// unless the container is empty.
pub open spec fn closing_prefix(position: Position, depth: nat, pretty: bool) -> Seq<char> {
    if pretty && position != Position::AfterOpen {
        "\n"@ + indent(depth)
    } else {
        Seq::empty()
    }
}

/// What separates a key from its value.
pub open spec fn key_separator(pretty: bool) -> Seq<char> {
    if pretty {
        ": "@
    } else {
        ":"@
    }
}

/// The state after one more token.
pub open spec fn write_token(state: RenderState, token: TokenView, pretty: bool) -> RenderState {
    let prefix = element_prefix(state.position, state.depth, pretty);
    let outer = if state.depth > 0 {
        (state.depth - 1) as nat
    } else {
        0
    };
    match token {
        TokenView::BeginObject => RenderState {
            text: state.text + prefix + "{"@,
            depth: state.depth + 1,
            position: Position::AfterOpen,
        },
        TokenView::BeginList => RenderState {
            text: state.text + prefix + "["@,
            depth: state.depth + 1,
            position: Position::AfterOpen,
        },
        TokenView::EndObject => RenderState {
            text: state.text + closing_prefix(state.position, outer, pretty) + "}"@,
            depth: outer,
            position: Position::AfterValue,
        },
        TokenView::EndList => RenderState {
            text: state.text + closing_prefix(state.position, outer, pretty) + "]"@,
            depth: outer,
            position: Position::AfterValue,
        },
        TokenView::Key(k) => RenderState {
            text: state.text + prefix + quoted(k) + key_separator(pretty),
            depth: state.depth,
            position: Position::AfterKey,
        },
        TokenView::Text(s) => RenderState {
            text: state.text + prefix + quoted(s),
            depth: state.depth,
            position: Position::AfterValue,
        },
        TokenView::Plain(s) => RenderState {
            text: state.text + prefix + s,
            depth: state.depth,
            position: Position::AfterValue,
        },
    }
}

/// The state after a sequence of tokens.
pub open spec fn write_all(tokens: Seq<TokenView>, pretty: bool) -> RenderState
    decreases tokens.len(),
{
    if tokens.len() == 0 {
        RenderState { text: Seq::empty(), depth: 0, position: Position::Start }
    } else {
        write_token(write_all(tokens.drop_last(), pretty), tokens.last(), pretty)
    }
}

/// The text of the document that `tokens` spell: compact, or, if `pretty`,
/// with one element to a line and two spaces of indentation for each level
/// of nesting.
pub open spec fn rendered(tokens: Seq<TokenView>, pretty: bool) -> Seq<char> {
    write_all(tokens, pretty).text
}

/// Appends the indentation at nesting depth `depth`.
fn push_indent(out: &mut String, depth: usize)
    ensures
        final(out)@ == old(out)@ + indent(depth as nat),
{
    let mut i: usize = 0;
    while i < depth
        invariant
            i <= depth,
            out@ == old(out)@ + indent(i as nat),
        decreases depth - i,
    {
        out.append("  ");
        i = i + 1;
    }
}

/// Appends what stands before a key or a value.
fn push_element_prefix(out: &mut String, position: Position, depth: usize, pretty: bool)
    ensures
        final(out)@ == old(out)@ + element_prefix(position, depth as nat, pretty),
{
    match position {
        Position::Start => {},
        Position::AfterKey => {},
        Position::AfterOpen => {
            if pretty {
                out.append("\n");
                push_indent(out, depth);
            }
        },
        Position::AfterValue => {
            if pretty {
                out.append(",\n");
                push_indent(out, depth);
            } else {
                out.append(",");
            }
        },
    }
}

/// Appends what stands before a closing bracket.
fn push_closing_prefix(out: &mut String, position: Position, depth: usize, pretty: bool)
    ensures
        final(out)@ == old(out)@ + closing_prefix(position, depth as nat, pretty),
{
    if pretty && position != Position::AfterOpen {
        out.append("\n");
        push_indent(out, depth);
    }
}

/// Writes the document that `tokens` spell. Writing never fails.
pub fn render(tokens: &Vec<Token>, pretty: bool) -> (r: Result<String, OutputError>)
    ensures
        r is Ok,
        r->Ok_0@ == rendered(token_views(tokens@), pretty),
{
    let ghost all = token_views(tokens@);
    let mut out = String::new();
    let mut depth: usize = 0;
    let mut position = Position::Start;
    let mut i: usize = 0;
    assert(all.take(0) == Seq::<TokenView>::empty());
    while i < tokens.len()
        invariant
            i <= tokens.len(),
            all == token_views(tokens@),
            depth <= i,
            write_all(all.take(i as int), pretty) == (RenderState {
                text: out@,
                depth: depth as nat,
                position,
            }),
        decreases tokens.len() - i,
    {
        assert(all.take(i as int + 1).drop_last() == all.take(i as int));
        assert(all.take(i as int + 1).last() == tokens@[i as int]@);
        let outer: usize = if depth > 0 {
            depth - 1
        } else {
            0
        };
        match &tokens[i] {
            Token::BeginObject => {
                push_element_prefix(&mut out, position, depth, pretty);
                out.append("{");
                depth = depth + 1;
                position = Position::AfterOpen;
            },
            Token::BeginList => {
                push_element_prefix(&mut out, position, depth, pretty);
                out.append("[");
                depth = depth + 1;
                position = Position::AfterOpen;
            },
            Token::EndObject => {
                push_closing_prefix(&mut out, position, outer, pretty);
                out.append("}");
                depth = outer;
                position = Position::AfterValue;
            },
            Token::EndList => {
                push_closing_prefix(&mut out, position, outer, pretty);
                out.append("]");
                depth = outer;
                position = Position::AfterValue;
            },
            Token::Key(k) => {
                let literal = match quote(k.as_str()) {
                    Ok(literal) => literal,
                    Err(e) => {
                        return Err(OutputError { message: error_message(&e) });
                    },
                };
                push_element_prefix(&mut out, position, depth, pretty);
                out.append(literal.as_str());
                if pretty {
                    out.append(": ");
                } else {
                    out.append(":");
                }
                position = Position::AfterKey;
            },
            Token::Text(s) => {
                let literal = match quote(s.as_str()) {
                    Ok(literal) => literal,
                    Err(e) => {
                        return Err(OutputError { message: error_message(&e) });
                    },
                };
                push_element_prefix(&mut out, position, depth, pretty);
                out.append(literal.as_str());
                position = Position::AfterValue;
            },
            Token::Plain(s) => {
                push_element_prefix(&mut out, position, depth, pretty);
                out.append(s.as_str());
                position = Position::AfterValue;
            },
        }
        i = i + 1;
    }
    assert(all.take(tokens.len() as int) == all);
    Ok(out)
}

/// The decimal text of an integer.
pub open spec fn signed_decimal(n: int) -> Seq<char> {
    if n < 0 {
        seq!['-'] + decimal((-n) as nat)
    } else {
        decimal(n as nat)
    }
}

/// The token for a line number or a count.
pub fn count_token(n: usize) -> (r: Token)
    ensures
        r@ == TokenView::Plain(decimal(n as nat)),
{
    let mut digits: Vec<char> = Vec::new();
    push_decimal(&mut digits, n);
    Token::Plain(string_of(&digits))
}

/// The decimal digits of `n`.
fn push_decimal_wide(out: &mut Vec<char>, n: u64)
    ensures
        final(out)@ == old(out)@ + decimal(n as nat),
    decreases n,
{
    if n >= 10 {
        push_decimal_wide(out, n / 10);
    }
    let d = n % 10;
    let c = if d == 0 {
        '0'
    } else if d == 1 {
        '1'
    } else if d == 2 {
        '2'
    } else if d == 3 {
        '3'
    } else if d == 4 {
        '4'
    } else if d == 5 {
        '5'
    } else if d == 6 {
        '6'
    } else if d == 7 {
        '7'
    } else if d == 8 {
        '8'
    } else {
        '9'
    };
    out.push(c);
}

/// The token for a signed number.
pub fn integer_token(n: i64) -> (r: Token)
    ensures
        r@ == TokenView::Plain(signed_decimal(n as int)),
{
    let mut digits: Vec<char> = Vec::new();
    if n < 0 {
        digits.push('-');
        let magnitude: u64 = if n == i64::MIN {
            0x8000_0000_0000_0000u64
        } else {
            (0 - n) as u64
        };
        push_decimal_wide(&mut digits, magnitude);
    } else {
        push_decimal_wide(&mut digits, n as u64);
    }
    Token::Plain(string_of(&digits))
}

/// The text of a truth value.
pub open spec fn bool_text(b: bool) -> Seq<char> {
    if b {
        "true"@
    } else {
        "false"@
    }
}

/// The token for a truth value.
pub fn bool_token(b: bool) -> (r: Token)
    ensures
        r@ == TokenView::Plain(bool_text(b)),
{
    if b {
        Token::Plain("true".to_owned())
    } else {
        Token::Plain("false".to_owned())
    }
}

/// Appends a member with a string value.
pub fn push_member(out: &mut Vec<Token>, key: &str, value: &str)
    ensures
        token_views(final(out)@) == token_views(old(out)@) + seq![
            TokenView::Key(key@),
            TokenView::Text(value@),
        ],
{
    out.push(Token::Key(key.to_owned()));
    out.push(Token::Text(value.to_owned()));
    assert(token_views(out@) =~= token_views(old(out)@) + seq![
        TokenView::Key(key@),
        TokenView::Text(value@),
    ]);
}

/// Appends one token.
pub fn push_token(out: &mut Vec<Token>, token: Token)
    ensures
        token_views(final(out)@) == token_views(old(out)@) + seq![token@],
{
    out.push(token);
    assert(token_views(out@) =~= token_views(old(out)@) + seq![token@]);
}

/// Appends a key.
pub fn push_key(out: &mut Vec<Token>, key: &str)
    ensures
        token_views(final(out)@) == token_views(old(out)@) + seq![TokenView::Key(key@)],
{
    push_token(out, Token::Key(key.to_owned()));
}

/// Appends the tokens of `part`.
pub fn push_tokens(out: &mut Vec<Token>, part: Vec<Token>)
    ensures
        token_views(final(out)@) == token_views(old(out)@) + token_views(part@),
{
    let mut part = part;
    let ghost added = token_views(part@);
    out.append(&mut part);
    assert(token_views(out@) =~= token_views(old(out)@) + added);
}

} // verus!
