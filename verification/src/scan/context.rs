//! The context extractor: the code that shares a comment's line, the code
//! that precedes the comment, and the code that follows the block of
//! comments it belongs to.

use crate::scan::language::{is_comment_kind, is_scope_kind, LanguageProfile, ProfileView};
use crate::scan::tree::{ancestors, well_formed, NodeView, SyntaxNode, SyntaxTree};
use crate::search::{first_where, lemma_first_where, lemma_first_where_is, lemma_first_where_none};
use crate::text::{
    chars_of, clone_option_string, find_char, first_index_of, option_view, slice_chars, string_of,
    without_carriage_return,
};
use vstd::prelude::*;

verus! {

/// A construct near a comment.
#[derive(Debug, PartialEq, Eq)]
pub struct CodeContext {
    /// The kind tag of the construct.
    pub kind: String,
    /// The declared name of the construct, if its shape exposes one.
    pub name: Option<String>,
    /// The first line of the construct's source text.
    pub text: String,
}

/// The mathematical content of a [`CodeContext`].
pub struct ContextView {
    pub kind: Seq<char>,
    pub name: Option<Seq<char>>,
    pub text: Seq<char>,
}

impl View for CodeContext {
    type V = ContextView;

    open spec fn view(&self) -> ContextView {
        ContextView { kind: self.kind@, name: option_view(self.name), text: self.text@ }
    }
}

impl Clone for CodeContext {
    fn clone(&self) -> (r: Self)
        ensures
            r@ == self@,
    {
        CodeContext {
            kind: self.kind.clone(),
            name: clone_option_string(&self.name),
            text: self.text.clone(),
        }
    }
}

/// The view of an optional context.
pub open spec fn context_view(context: Option<CodeContext>) -> Option<ContextView> {
    match context {
        Some(c) => Some(c@),
        None => None,
    }
}

/// The first line of `text`, without its line ending.
pub open spec fn snippet(text: Seq<char>) -> Seq<char> {
    without_carriage_return(
        match first_index_of(text, '\n') {
            Some(k) => text.take(k),
            None => text,
        },
    )
}

/// The context object for node `n`.
pub open spec fn context_of(tree: Seq<NodeView>, n: int) -> ContextView {
    ContextView { kind: tree[n].kind, name: tree[n].name, text: snippet(tree[n].text) }
}

/// The context object for an optional node.
pub open spec fn context_at(tree: Seq<NodeView>, n: Option<int>) -> Option<ContextView> {
    match n {
        Some(n) => Some(context_of(tree, n)),
        None => None,
    }
}

/// Whether node `i` is comment material: a comment, or a part of one.
pub open spec fn in_comment(tree: Seq<NodeView>, profile: ProfileView, i: int) -> bool
    decreases i,
{
    0 <= i < tree.len() && (is_comment_kind(profile, tree[i].kind) || match tree[i].parent {
        Some(p) => 0 <= p < i && in_comment(tree, profile, p),
        None => false,
    })
}

/// Whether node `i` is a construct of code: a node that is no comment
/// material.
pub open spec fn is_code(tree: Seq<NodeView>, profile: ProfileView, i: int) -> bool {
    0 <= i < tree.len() && !in_comment(tree, profile, i)
}

/// Whether the construct `n` lies at `line`: it is code, it is not the root
/// of the tree, and it starts or ends on `line`.
pub open spec fn lies_at(tree: Seq<NodeView>, profile: ProfileView, n: int, line: nat) -> bool {
    &&& is_code(tree, profile, n)
    &&& tree[n].parent is Some
    &&& (tree[n].first_line == line || tree[n].last_line == line)
}

/// Whether the construct `n` shares the line of the comment `c`: it lies at
/// the line on which `c` starts.
pub open spec fn shares_line(tree: Seq<NodeView>, profile: ProfileView, n: int, c: int) -> bool {
    lies_at(tree, profile, n, tree[c].first_line)
}

/// The node of the inline context of the comment `c`: the first construct,
/// in document order, that shares the comment's line.
pub open spec fn inline_node(tree: Seq<NodeView>, profile: ProfileView, c: int) -> Option<int> {
    first_where(tree.len() as int, |n: int| shares_line(tree, profile, n, c))
}

/// Whether the comment `c` stands alone on its line.
pub open spec fn stands_alone(tree: Seq<NodeView>, profile: ProfileView, c: int) -> bool {
    inline_node(tree, profile, c) is None
}

/// Whether `n` continues the block of comments that `c` belongs to: `n` is
/// a comment that starts on the line after the last line of `c` and stands
/// alone there.
pub open spec fn continues_block(tree: Seq<NodeView>, profile: ProfileView, c: int, n: int) -> bool {
    &&& 0 <= n < tree.len()
    &&& is_comment_kind(profile, tree[n].kind)
    &&& tree[n].first_line == tree[c].last_line + 1
    &&& stands_alone(tree, profile, n)
}

/// The comment that continues the block of `c` on the next line, if there
/// is one.
pub open spec fn next_in_block(tree: Seq<NodeView>, profile: ProfileView, c: int) -> Option<int> {
    first_where(tree.len() as int, |n: int| continues_block(tree, profile, c, n))
}

/// The last line of the block of comments that `c` belongs to: the block
/// runs on while the next line holds a comment and nothing else.
pub open spec fn block_end(tree: Seq<NodeView>, profile: ProfileView, c: int) -> nat
    decreases usize::MAX - tree[c].last_line,
{
    match next_in_block(tree, profile, c) {
        Some(next) => if tree[c].last_line < tree[next].last_line < usize::MAX {
            block_end(tree, profile, next)
        } else {
            tree[c].last_line
        },
        None => tree[c].last_line,
    }
}

/// Whether the construct `n` follows the block of comments of `c`.
pub open spec fn follows_block(tree: Seq<NodeView>, profile: ProfileView, c: int, n: int) -> bool {
    is_code(tree, profile, n) && tree[n].first_line > block_end(tree, profile, c)
}

/// The node of the below context of the comment `c`: the first construct,
/// in document order, that starts after the block of comments of `c`.
pub open spec fn below_node(tree: Seq<NodeView>, profile: ProfileView, c: int) -> Option<int> {
    first_where(tree.len() as int, |n: int| follows_block(tree, profile, c, n))
}

/// The last line before the comment `c` at which the construct `n` lies:
/// the line on which it ends, if that is before the comment's line, else
/// the line on which it starts, if that is.
pub open spec fn reach_before(tree: Seq<NodeView>, profile: ProfileView, n: int, c: int) -> Option<
    nat,
> {
    if !is_code(tree, profile, n) || tree[n].parent is None {
        None
    } else if tree[n].last_line < tree[c].first_line {
        Some(tree[n].last_line)
    } else if tree[n].first_line < tree[c].first_line {
        Some(tree[n].first_line)
    } else {
        None
    }
}

/// The last line before the comment `c` at which one of the first `k` nodes
/// lies.
pub open spec fn above_line_among(tree: Seq<NodeView>, profile: ProfileView, c: int, k: int) -> Option<
    nat,
>
    decreases k,
{
    if k <= 0 {
        None
    } else {
        let best = above_line_among(tree, profile, c, k - 1);
        match reach_before(tree, profile, k - 1, c) {
            Some(line) => if best is None || best->0 < line {
                Some(line)
            } else {
                best
            },
            None => best,
        }
    }
}

/// The nearest line of code above the comment `c`: the last line before the
/// comment's at which a construct lies. Blank lines and lines of comments
/// are passed over.
pub open spec fn above_line(tree: Seq<NodeView>, profile: ProfileView, c: int) -> Option<nat> {
    above_line_among(tree, profile, c, tree.len() as int)
}

/// The node of the above context of the comment `c`: the first construct,
/// in document order, that lies at the nearest line of code above the
/// comment. That is the construct before the comment if the line ends one,
/// and the enclosing construct if the line is its opening.
pub open spec fn above_node(tree: Seq<NodeView>, profile: ProfileView, c: int) -> Option<int> {
    match above_line(tree, profile, c) {
        Some(line) => first_where(tree.len() as int, |n: int| lies_at(tree, profile, n, line)),
        None => None,
    }
}

/// What `above_line_among` yields.
pub proof fn lemma_above_line_among(tree: Seq<NodeView>, profile: ProfileView, c: int, k: int)
    requires
        well_formed(tree),
        0 <= c < tree.len(),
        0 <= k <= tree.len(),
    ensures
        match above_line_among(tree, profile, c, k) {
            Some(line) => line < tree[c].first_line && (exists|n: int|
                0 <= n < k && #[trigger] lies_at(tree, profile, n, line)) && forall|m: int, l: nat|
                0 <= m < k && l < tree[c].first_line && #[trigger] lies_at(tree, profile, m, l)
                    ==> l <= line,
            None => forall|m: int, l: nat|
                0 <= m < k && l < tree[c].first_line ==> !#[trigger] lies_at(tree, profile, m, l),
        },
    decreases k,
{
    if k > 0 {
        lemma_above_line_among(tree, profile, c, k - 1);
        let best = above_line_among(tree, profile, c, k - 1);
        let here = reach_before(tree, profile, k - 1, c);
        if here is Some {
            assert(lies_at(tree, profile, k - 1, here->0));
        }
        if best is Some {
            let n = choose|n: int| 0 <= n < k - 1 && #[trigger] lies_at(tree, profile, n, best->0);
            assert(0 <= n < k && lies_at(tree, profile, n, best->0));
        }
    }
}

/// The nearest line of code above a comment is the last line before the
/// comment's at which a construct lies; there is none exactly when no
/// construct lies at a line before the comment's.
pub proof fn lemma_above_line(tree: Seq<NodeView>, profile: ProfileView, c: int)
    requires
        well_formed(tree),
        0 <= c < tree.len(),
    ensures
        match above_line(tree, profile, c) {
            Some(line) => line < tree[c].first_line && (exists|n: int| #[trigger]
                lies_at(tree, profile, n, line)) && forall|m: int, l: nat|
                l < tree[c].first_line && #[trigger] lies_at(tree, profile, m, l) ==> l <= line,
            None => forall|m: int, l: nat|
                l < tree[c].first_line ==> !#[trigger] lies_at(tree, profile, m, l),
        },
{
    lemma_above_line_among(tree, profile, c, tree.len() as int);
}

/// The above context is the first construct that lies at the nearest line
/// of code above the comment, and is absent exactly when there is no such
/// line.
pub proof fn lemma_above_is_first(tree: Seq<NodeView>, profile: ProfileView, c: int)
    requires
        well_formed(tree),
        0 <= c < tree.len(),
    ensures
        above_node(tree, profile, c) is Some <==> above_line(tree, profile, c) is Some,
        above_node(tree, profile, c) matches Some(n) ==> lies_at(
            tree,
            profile,
            n,
            above_line(tree, profile, c)->0,
        ) && forall|m: int|
            0 <= m < n ==> !lies_at(tree, profile, m, above_line(tree, profile, c)->0),
{
    lemma_above_line(tree, profile, c);
    if let Some(line) = above_line(tree, profile, c) {
        let pred = |n: int| lies_at(tree, profile, n, line);
        lemma_first_where(tree.len() as int, pred);
        let w = choose|n: int| #[trigger] lies_at(tree, profile, n, line);
        assert(pred(w));
        if let Some(n) = above_node(tree, profile, c) {
            assert(pred(n));
            assert forall|m: int| 0 <= m < n implies !lies_at(tree, profile, m, line) by {
                assert(!pred(m));
            }
        }
    }
}

/// Inline presence: a comment has an inline context if and only if some
/// construct shares its line, and the context is the first such construct.
pub proof fn lemma_inline_presence(tree: Seq<NodeView>, profile: ProfileView, c: int)
    ensures
        inline_node(tree, profile, c) is Some <==> exists|n: int|
            shares_line(tree, profile, n, c),
        inline_node(tree, profile, c) matches Some(n) ==> shares_line(tree, profile, n, c)
            && forall|m: int| 0 <= m < n ==> !shares_line(tree, profile, m, c),
{
    let pred = |n: int| shares_line(tree, profile, n, c);
    lemma_first_where(tree.len() as int, pred);
    if inline_node(tree, profile, c) is Some {
        assert(pred(inline_node(tree, profile, c)->0));
    } else {
        assert forall|n: int| !shares_line(tree, profile, n, c) by {
            if 0 <= n < tree.len() {
                assert(!pred(n));
            }
        }
    }
    if let Some(n) = inline_node(tree, profile, c) {
        assert forall|m: int| 0 <= m < n implies !shares_line(tree, profile, m, c) by {
            assert(!pred(m));
        }
    }
}

/// The below context is the first construct that starts after the comment's
/// block, and is absent exactly when no construct starts after it.
pub proof fn lemma_below_is_first(tree: Seq<NodeView>, profile: ProfileView, c: int)
    ensures
        match below_node(tree, profile, c) {
            Some(n) => follows_block(tree, profile, c, n) && forall|m: int|
                0 <= m < n ==> !follows_block(tree, profile, c, m),
            None => forall|m: int| !follows_block(tree, profile, c, m),
        },
{
    let pred = |n: int| follows_block(tree, profile, c, n);
    lemma_first_where(tree.len() as int, pred);
    match below_node(tree, profile, c) {
        Some(n) => {
            assert(pred(n));
            assert forall|m: int| 0 <= m < n implies !follows_block(tree, profile, c, m) by {
                assert(!pred(m));
            }
        },
        None => {
            assert forall|m: int| !follows_block(tree, profile, c, m) by {
                if 0 <= m < tree.len() {
                    assert(!pred(m));
                }
            }
        },
    }
}

/// Stacked comments, one step: a comment and the comment that continues its
/// block on the next line have the same below context.
pub proof fn lemma_stacked_pair(tree: Seq<NodeView>, profile: ProfileView, c: int)
    requires
        well_formed(tree),
        0 <= c < tree.len(),
        next_in_block(tree, profile, c) is Some,
    ensures
        block_end(tree, profile, c) == block_end(tree, profile, next_in_block(tree, profile, c)->0),
        below_node(tree, profile, c) == below_node(
            tree,
            profile,
            next_in_block(tree, profile, c)->0,
        ),
{
    let next = next_in_block(tree, profile, c)->0;
    let pred = |n: int| continues_block(tree, profile, c, n);
    lemma_first_where(tree.len() as int, pred);
    assert(pred(next));
    assert(tree[next].first_line <= tree[next].last_line);
    let f1 = |n: int| follows_block(tree, profile, c, n);
    let f2 = |n: int| follows_block(tree, profile, next, n);
    assert(f1 =~= f2);
}

/// Whether each comment of `run` but the first continues the block of the
/// one before it.
pub open spec fn is_stack(tree: Seq<NodeView>, profile: ProfileView, run: Seq<int>) -> bool {
    &&& forall|k: int| 0 <= k < run.len() ==> 0 <= #[trigger] run[k] < tree.len()
    &&& forall|k: int|
        0 <= k < run.len() - 1 ==> next_in_block(tree, profile, #[trigger] run[k]) == Some(
            run[k + 1],
        )
}

/// Stacked comments: the comments on consecutive lines of one block all
/// have the same below context, so its kind and name are the same for each
/// of them.
pub proof fn lemma_stacked_comments(
    tree: Seq<NodeView>,
    profile: ProfileView,
    run: Seq<int>,
    i: int,
    j: int,
)
    requires
        well_formed(tree),
        is_stack(tree, profile, run),
        0 <= i <= j < run.len(),
    ensures
        below_node(tree, profile, run[i]) == below_node(tree, profile, run[j]),
        context_at(tree, below_node(tree, profile, run[i])) == context_at(
            tree,
            below_node(tree, profile, run[j]),
        ),
    decreases j - i,
{
    if i < j {
        lemma_stacked_comments(tree, profile, run, i, j - 1);
        lemma_stacked_pair(tree, profile, run[j - 1]);
    }
}

/// The first line of `text`.
pub fn first_line(text: &str) -> (r: String)
    ensures
        r@ == snippet(text@),
{
    let chars = chars_of(text);
    let mut end: usize = match find_char(&chars, '\n') {
        Some(k) => k,
        None => chars.len(),
    };
    assert(chars@.take(chars.len() as int) == chars@);
    if end > 0 && chars[end - 1] == '\r' {
        end = end - 1;
    }
    let line = slice_chars(&chars, 0, end);
    string_of(&line)
}

/// Reads the contexts of comments off one tree.
pub struct Extractor<'a> {
    tree: &'a SyntaxTree,
    profile: &'a LanguageProfile,
    comment_part: Vec<bool>,
}

impl<'a> Extractor<'a> {
    /// The tree that is read.
    pub closed spec fn tree(&self) -> Seq<NodeView> {
        self.tree@
    }

    /// The language table that is applied.
    pub closed spec fn profile(&self) -> ProfileView {
        self.profile@
    }

    /// Whether the extractor is in a consistent state. Every extractor
    /// built by [`Extractor::new`] is.
    pub closed spec fn wf(&self) -> bool {
        &&& self.tree.wf()
        &&& self.comment_part.len() == self.tree@.len()
        &&& forall|i: int|
            0 <= i < self.comment_part.len() ==> #[trigger] self.comment_part@[i] == in_comment(
                self.tree@,
                self.profile@,
                i,
            )
    }

    /// An extractor for `tree`, read by the rules of `profile`.
    pub fn new(tree: &'a SyntaxTree, profile: &'a LanguageProfile) -> (r: Self)
        requires
            tree.wf(),
        ensures
            r.wf(),
            r.tree() == tree@,
            r.profile() == profile@,
    {
        let mut comment_part: Vec<bool> = Vec::new();
        let mut i: usize = 0;
        while i < tree.len()
            invariant
                tree.wf(),
                i <= tree@.len(),
                comment_part.len() == i,
                forall|k: int|
                    0 <= k < i ==> #[trigger] comment_part@[k] == in_comment(tree@, profile@, k),
            decreases tree@.len() - i,
        {
            let node = tree.node(i);
            let own = profile.is_comment(node.kind.as_str());
            let inherited = match node.parent {
                Some(p) => {
                    assert(tree@[i as int].parent == Some(p as int));
                    comment_part[p]
                },
                None => false,
            };
            comment_part.push(own || inherited);
            i = i + 1;
        }
        Extractor { tree, profile, comment_part }
    }

    /// The number of nodes of the tree.
    pub fn len(&self) -> (n: usize)
        ensures
            n == self.tree().len(),
    {
        self.tree.len()
    }

    /// The node at index `i`.
    pub fn node(&self, i: usize) -> (n: &SyntaxNode)
        requires
            i < self.tree().len(),
        ensures
            n@ == self.tree()[i as int],
    {
        self.tree.node(i)
    }

    /// The ancestors of node `i`, from its parent up to the root.
    pub fn enclosing(&self, i: usize) -> (r: Vec<usize>)
        requires
            self.wf(),
            i < self.tree().len(),
        ensures
            r@.map_values(|a: usize| a as int) == ancestors(self.tree(), i as int),
            forall|k: int| 0 <= k < r.len() ==> #[trigger] r@[k] < i,
    {
        self.tree.ancestors(i)
    }

    /// Whether node `i` is a named scope.
    pub fn is_scope(&self, i: usize) -> (r: bool)
        requires
            i < self.tree().len(),
        ensures
            r == is_scope_kind(self.profile(), self.tree()[i as int].kind),
    {
        self.profile.is_scope(&self.tree.node(i).kind)
    }

    /// A well-formed extractor reads a well-formed tree.
    pub proof fn lemma_tree_well_formed(&self)
        requires
            self.wf(),
        ensures
            well_formed(self.tree()),
    {
    }

    /// Whether node `i` is a comment.
    pub fn is_comment(&self, i: usize) -> (r: bool)
        requires
            self.wf(),
            i < self.tree().len(),
        ensures
            r == is_comment_kind(self.profile(), self.tree()[i as int].kind),
    {
        self.profile.is_comment(self.tree.node(i).kind.as_str())
    }

    /// The context object of node `n`.
    pub fn context(&self, n: usize) -> (r: CodeContext)
        requires
            self.wf(),
            n < self.tree().len(),
        ensures
            r@ == context_of(self.tree(), n as int),
    {
        let node = self.tree.node(n);
        CodeContext {
            kind: node.kind.clone(),
            name: clone_option_string(&node.name),
            text: first_line(node.text.as_str()),
        }
    }

    /// The context object of an optional node.
    fn context_for(&self, n: Option<usize>) -> (r: Option<CodeContext>)
        requires
            self.wf(),
            n matches Some(i) ==> i < self.tree().len(),
        ensures
            context_view(r) == context_at(
                self.tree(),
                match n {
                    Some(i) => Some(i as int),
                    None => None,
                },
            ),
    {
        match n {
            Some(i) => Some(self.context(i)),
            None => None,
        }
    }

    /// The node of the inline context of the comment `c`.
    fn inline_index(&self, c: usize) -> (r: Option<usize>)
        requires
            self.wf(),
            c < self.tree().len(),
        ensures
            match r {
                Some(n) => n < self.tree().len() && inline_node(self.tree(), self.profile(), c as int)
                    == Some(n as int),
                None => inline_node(self.tree(), self.profile(), c as int) is None,
            },
    {
        let ghost pred = |n: int| shares_line(self.tree(), self.profile(), n, c as int);
        let line = self.tree.node(c).first_line;
        let mut n: usize = 0;
        while n < self.tree.len()
            invariant
                self.wf(),
                c < self.tree().len(),
                n <= self.tree().len(),
                line == self.tree()[c as int].first_line,
                pred == |n: int| shares_line(self.tree(), self.profile(), n, c as int),
                forall|m: int| 0 <= m < n ==> !#[trigger] pred(m),
            decreases self.tree().len() - n,
        {
            let node = self.tree.node(n);
            if !self.comment_part[n] && node.parent.is_some() && (node.first_line == line
                || node.last_line == line) {
                proof {
                    assert(pred(n as int));
                    lemma_first_where_is(self.tree().len() as int, pred, n as int);
                }
                return Some(n);
            }
            assert(!pred(n as int));
            n = n + 1;
        }
        proof {
            lemma_first_where_none(self.tree().len() as int, pred);
        }
        None
    }

    /// The comment that continues the block of `c` on the next line.
    fn next_index(&self, c: usize) -> (r: Option<usize>)
        requires
            self.wf(),
            c < self.tree().len(),
        ensures
            match r {
                Some(n) => n < self.tree().len() && next_in_block(
                    self.tree(),
                    self.profile(),
                    c as int,
                ) == Some(n as int),
                None => next_in_block(self.tree(), self.profile(), c as int) is None,
            },
    {
        let ghost pred = |n: int| continues_block(self.tree(), self.profile(), c as int, n);
        let line = self.tree.node(c).last_line + 1;
        let mut n: usize = 0;
        while n < self.tree.len()
            invariant
                self.wf(),
                c < self.tree().len(),
                n <= self.tree().len(),
                line == self.tree()[c as int].last_line + 1,
                pred == |n: int| continues_block(self.tree(), self.profile(), c as int, n),
                forall|m: int| 0 <= m < n ==> !#[trigger] pred(m),
            decreases self.tree().len() - n,
        {
            let node = self.tree.node(n);
            if node.first_line == line && self.is_comment(n) && self.inline_index(n).is_none() {
                proof {
                    assert(pred(n as int));
                    lemma_first_where_is(self.tree().len() as int, pred, n as int);
                }
                return Some(n);
            }
            assert(!pred(n as int));
            n = n + 1;
        }
        proof {
            lemma_first_where_none(self.tree().len() as int, pred);
        }
        None
    }

    /// The last line of the block of comments that `c` belongs to.
    fn block_end_line(&self, c: usize) -> (r: usize)
        requires
            self.wf(),
            c < self.tree().len(),
        ensures
            r == block_end(self.tree(), self.profile(), c as int),
    {
        let mut current: usize = c;
        loop
            invariant
                self.wf(),
                current < self.tree().len(),
                block_end(self.tree(), self.profile(), current as int) == block_end(
                    self.tree(),
                    self.profile(),
                    c as int,
                ),
            decreases usize::MAX - self.tree()[current as int].last_line,
        {
            match self.next_index(current) {
                Some(next) => {
                    proof {
                        let pred = |n: int|
                            continues_block(self.tree(), self.profile(), current as int, n);
                        lemma_first_where(self.tree().len() as int, pred);
                        assert(pred(next as int));
                    }
                    current = next;
                },
                None => {
                    return self.tree.node(current).last_line;
                },
            }
        }
    }

    /// The node of the below context of the comment `c`.
    fn below_index(&self, c: usize) -> (r: Option<usize>)
        requires
            self.wf(),
            c < self.tree().len(),
        ensures
            match r {
                Some(n) => n < self.tree().len() && below_node(self.tree(), self.profile(), c as int)
                    == Some(n as int),
                None => below_node(self.tree(), self.profile(), c as int) is None,
            },
    {
        let ghost pred = |n: int| follows_block(self.tree(), self.profile(), c as int, n);
        let end = self.block_end_line(c);
        let mut n: usize = 0;
        while n < self.tree.len()
            invariant
                self.wf(),
                c < self.tree().len(),
                n <= self.tree().len(),
                end == block_end(self.tree(), self.profile(), c as int),
                pred == |n: int| follows_block(self.tree(), self.profile(), c as int, n),
                forall|m: int| 0 <= m < n ==> !#[trigger] pred(m),
            decreases self.tree().len() - n,
        {
            if !self.comment_part[n] && self.tree.node(n).first_line > end {
                proof {
                    assert(pred(n as int));
                    lemma_first_where_is(self.tree().len() as int, pred, n as int);
                }
                return Some(n);
            }
            assert(!pred(n as int));
            n = n + 1;
        }
        proof {
            lemma_first_where_none(self.tree().len() as int, pred);
        }
        None
    }

    /// The nearest line of code above the comment `c`.
    fn above_line_index(&self, c: usize) -> (r: Option<usize>)
        requires
            self.wf(),
            c < self.tree().len(),
        ensures
            match r {
                Some(line) => above_line(self.tree(), self.profile(), c as int) == Some(line as nat),
                None => above_line(self.tree(), self.profile(), c as int) is None,
            },
    {
        let line = self.tree.node(c).first_line;
        let mut best: Option<usize> = None;
        let mut k: usize = 0;
        while k < self.tree.len()
            invariant
                self.wf(),
                c < self.tree().len(),
                k <= self.tree().len(),
                line == self.tree()[c as int].first_line,
                match best {
                    Some(l) => above_line_among(self.tree(), self.profile(), c as int, k as int)
                        == Some(l as nat),
                    None => above_line_among(self.tree(), self.profile(), c as int, k as int)
                        is None,
                },
            decreases self.tree().len() - k,
        {
            let node = self.tree.node(k);
            if !self.comment_part[k] && node.parent.is_some() {
                let reach = if node.last_line < line {
                    Some(node.last_line)
                } else if node.first_line < line {
                    Some(node.first_line)
                } else {
                    None
                };
                match reach {
                    Some(l) => {
                        let better = match best {
                            Some(b) => b < l,
                            None => true,
                        };
                        if better {
                            best = Some(l);
                        }
                    },
                    None => {},
                }
            }
            k = k + 1;
        }
        best
    }

    /// The node of the above context of the comment `c`.
    fn above_index(&self, c: usize) -> (r: Option<usize>)
        requires
            self.wf(),
            c < self.tree().len(),
        ensures
            match r {
                Some(n) => n < self.tree().len() && above_node(self.tree(), self.profile(), c as int)
                    == Some(n as int),
                None => above_node(self.tree(), self.profile(), c as int) is None,
            },
    {
        let line = match self.above_line_index(c) {
            Some(line) => line,
            None => {
                return None;
            },
        };
        let ghost pred = |n: int| lies_at(self.tree(), self.profile(), n, line as nat);
        let mut n: usize = 0;
        while n < self.tree.len()
            invariant
                self.wf(),
                n <= self.tree().len(),
                above_line(self.tree(), self.profile(), c as int) == Some(line as nat),
                pred == |n: int| lies_at(self.tree(), self.profile(), n, line as nat),
                forall|m: int| 0 <= m < n ==> !#[trigger] pred(m),
            decreases self.tree().len() - n,
        {
            let node = self.tree.node(n);
            if !self.comment_part[n] && node.parent.is_some() && (node.first_line == line
                || node.last_line == line) {
                proof {
                    assert(pred(n as int));
                    lemma_first_where_is(self.tree().len() as int, pred, n as int);
                }
                return Some(n);
            }
            assert(!pred(n as int));
            n = n + 1;
        }
        proof {
            lemma_first_where_none(self.tree().len() as int, pred);
        }
        None
    }

    /// The inline context of the comment `c`: the first construct that
    /// shares the comment's line.
    pub fn inline(&self, c: usize) -> (r: Option<CodeContext>)
        requires
            self.wf(),
            c < self.tree().len(),
        ensures
            context_view(r) == context_at(
                self.tree(),
                inline_node(self.tree(), self.profile(), c as int),
            ),
    {
        let n = self.inline_index(c);
        self.context_for(n)
    }

    /// The above context of the comment `c`: the first construct that lies
    /// at the nearest line of code above the comment.
    pub fn above(&self, c: usize) -> (r: Option<CodeContext>)
        requires
            self.wf(),
            c < self.tree().len(),
        ensures
            context_view(r) == context_at(
                self.tree(),
                above_node(self.tree(), self.profile(), c as int),
            ),
    {
        let n = self.above_index(c);
        self.context_for(n)
    }

    /// The below context of the comment `c`: the first construct that
    /// starts after the block of comments that `c` belongs to.
    pub fn below(&self, c: usize) -> (r: Option<CodeContext>)
        requires
            self.wf(),
            c < self.tree().len(),
        ensures
            context_view(r) == context_at(
                self.tree(),
                below_node(self.tree(), self.profile(), c as int),
            ),
    {
        let n = self.below_index(c);
        self.context_for(n)
    }
}

} // verus!
