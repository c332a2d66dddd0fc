//! The comment locator: the comment nodes of a tree, in document order.

use crate::scan::language::{is_comment_kind, LanguageProfile, ProfileView};
use crate::scan::tree::{NodeView, SyntaxTree};
use vstd::prelude::*;

verus! {

/// A comment node: where it stands in the tree, the line on which it
/// starts, counted from one, and its text with its delimiters.
#[derive(Debug, PartialEq, Eq)]
pub struct Comment {
    pub node: usize,
    pub line: usize,
    pub text: String,
}

/// The mathematical content of a [`Comment`].
pub struct CommentView {
    pub node: int,
    pub line: nat,
    pub text: Seq<char>,
}

impl View for Comment {
    type V = CommentView;

    open spec fn view(&self) -> CommentView {
        CommentView { node: self.node as int, line: self.line as nat, text: self.text@ }
    }
}

/// The views of a list of comments.
pub open spec fn comment_views(comments: Seq<Comment>) -> Seq<CommentView> {
    Seq::new(comments.len(), |i: int| comments[i]@)
}

/// The comment of node `c`.
pub open spec fn comment_at(tree: Seq<NodeView>, c: int) -> CommentView {
    CommentView { node: c, line: tree[c].first_line + 1, text: tree[c].text }
}

/// The comments among the first `k` nodes, in document order. A node is a
/// comment when its kind tag contains the language's comment token.
pub open spec fn comments_upto(tree: Seq<NodeView>, profile: ProfileView, k: int) -> Seq<
    CommentView,
>
    decreases k,
{
    if k <= 0 {
        Seq::empty()
    } else if is_comment_kind(profile, tree[k - 1].kind) {
        comments_upto(tree, profile, k - 1).push(comment_at(tree, k - 1))
    } else {
        comments_upto(tree, profile, k - 1)
    }
}

/// The comments of a tree, in document order.
pub open spec fn comments_of(tree: Seq<NodeView>, profile: ProfileView) -> Seq<CommentView> {
    comments_upto(tree, profile, tree.len() as int)
}

/// What the locator finds: every comment node and nothing else, each once,
/// in the order of the nodes.
pub proof fn lemma_comments_upto(tree: Seq<NodeView>, profile: ProfileView, k: int)
    requires
        0 <= k <= tree.len(),
    ensures
        forall|i: int|
            0 <= i < comments_upto(tree, profile, k).len() ==> {
                let c = #[trigger] comments_upto(tree, profile, k)[i];
                0 <= c.node < k && is_comment_kind(profile, tree[c.node].kind) && c == comment_at(
                    tree,
                    c.node,
                )
            },
        forall|n: int|
            0 <= n < k && is_comment_kind(profile, (#[trigger] tree[n]).kind) ==> comments_upto(
                tree,
                profile,
                k,
            ).contains(comment_at(tree, n)),
        forall|i: int, j: int|
            0 <= i < j < comments_upto(tree, profile, k).len() ==> (#[trigger] comments_upto(
                tree,
                profile,
                k,
            )[i]).node < (#[trigger] comments_upto(tree, profile, k)[j]).node,
    decreases k,
{
    if k > 0 {
        lemma_comments_upto(tree, profile, k - 1);
        let prev = comments_upto(tree, profile, k - 1);
        let out = comments_upto(tree, profile, k);
        assert forall|n: int|
            0 <= n < k && is_comment_kind(profile, (#[trigger] tree[n]).kind) implies out.contains(
            comment_at(tree, n),
        ) by {
            if n < k - 1 {
                assert(prev.contains(comment_at(tree, n)));
                let w = choose|w: int| 0 <= w < prev.len() && prev[w] == comment_at(tree, n);
                assert(out[w] == prev[w]);
            } else {
                assert(out[out.len() - 1] == comment_at(tree, n));
            }
        }
        assert forall|i: int, j: int| 0 <= i < j < out.len() implies (#[trigger] out[i]).node < (
        #[trigger] out[j]).node by {
            if j < prev.len() {
                assert(out[i] == prev[i] && out[j] == prev[j]);
            } else {
                assert(out[i] == prev[i]);
            }
        }
    }
}

/// The comment nodes of `tree`, in document order, each with the line on
/// which it starts and its text.
pub fn locate_comments(tree: &SyntaxTree, profile: &LanguageProfile) -> (r: Vec<Comment>)
    requires
        tree.wf(),
    ensures
        comment_views(r@) == comments_of(tree@, profile@),
{
    let mut found: Vec<Comment> = Vec::new();
    let mut k: usize = 0;
    assert(comment_views(found@) =~= comments_upto(tree@, profile@, 0));
    while k < tree.len()
        invariant
            tree.wf(),
            k <= tree@.len(),
            comment_views(found@) == comments_upto(tree@, profile@, k as int),
        decreases tree@.len() - k,
    {
        let node = tree.node(k);
        if profile.is_comment(node.kind.as_str()) {
            let ghost before = comment_views(found@);
            found.push(Comment { node: k, line: node.first_line + 1, text: node.text.clone() });
            assert(comment_views(found@) =~= before.push(comment_at(tree@, k as int)));
        }
        k = k + 1;
    }
    found
}

} // verus!
