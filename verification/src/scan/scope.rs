//! The scope resolver: the named constructs that enclose a comment.

use crate::scan::context::Extractor;
use crate::scan::language::{is_scope_kind, ProfileView};
use crate::scan::tree::{ancestors, is_ancestor, well_formed, NodeView};
use crate::text::{clone_option_string, option_view};
use vstd::prelude::*;

verus! {

/// One named construct that encloses an occurrence.
#[derive(Debug, PartialEq, Eq)]
pub struct ScopeItem {
    /// The kind tag of the construct.
    pub kind: String,
    /// The declared name of the construct, if its shape exposes one.
    pub name: Option<String>,
}

/// The mathematical content of a [`ScopeItem`].
pub struct ScopeView {
    pub kind: Seq<char>,
    pub name: Option<Seq<char>>,
}

impl View for ScopeItem {
    type V = ScopeView;

    open spec fn view(&self) -> ScopeView {
        ScopeView { kind: self.kind@, name: option_view(self.name) }
    }
}

impl Clone for ScopeItem {
    fn clone(&self) -> (r: Self)
        ensures
            r@ == self@,
    {
        ScopeItem { kind: self.kind.clone(), name: clone_option_string(&self.name) }
    }
}

/// The views of a list of scope items.
pub open spec fn scope_views(items: Seq<ScopeItem>) -> Seq<ScopeView> {
    Seq::new(items.len(), |i: int| items[i]@)
}

/// The nodes of `path` that are named scopes, in the order of `path`.
pub open spec fn scopes_along(tree: Seq<NodeView>, profile: ProfileView, path: Seq<int>) -> Seq<
    int,
>
    decreases path.len(),
{
    if path.len() == 0 {
        Seq::empty()
    } else if is_scope_kind(profile, tree[path.last()].kind) {
        scopes_along(tree, profile, path.drop_last()).push(path.last())
    } else {
        scopes_along(tree, profile, path.drop_last())
    }
}

/// The named scopes that enclose node `c`, innermost first: those of its
/// ancestors whose kind is a scope kind of the language.
pub open spec fn scope_nodes(tree: Seq<NodeView>, profile: ProfileView, c: int) -> Seq<int> {
    scopes_along(tree, profile, ancestors(tree, c))
}

/// The scope item of node `n`.
pub open spec fn scope_of(tree: Seq<NodeView>, n: int) -> ScopeView {
    ScopeView { kind: tree[n].kind, name: tree[n].name }
}

/// The scope chain of node `c`: one item for each enclosing named scope,
/// innermost first. It is empty for a node at the top level.
pub open spec fn scope_chain(tree: Seq<NodeView>, profile: ProfileView, c: int) -> Seq<ScopeView> {
    scope_nodes(tree, profile, c).map_values(|n: int| scope_of(tree, n))
}

/// What `scopes_along` selects: exactly the scope nodes of `path`, in the
/// order in which `path` holds them.
pub proof fn lemma_scopes_along(tree: Seq<NodeView>, profile: ProfileView, path: Seq<int>)
    ensures
        forall|k: int|
            0 <= k < scopes_along(tree, profile, path).len() ==> path.contains(
                #[trigger] scopes_along(tree, profile, path)[k],
            ) && is_scope_kind(profile, tree[scopes_along(tree, profile, path)[k]].kind),
        forall|k: int|
            0 <= k < path.len() && is_scope_kind(profile, tree[#[trigger] path[k]].kind)
                ==> scopes_along(tree, profile, path).contains(path[k]),
        forall|i: int, j: int|
            0 <= i < j < scopes_along(tree, profile, path).len() ==> exists|a: int, b: int|
                0 <= a < b < path.len() && path[a] == #[trigger] scopes_along(
                    tree,
                    profile,
                    path,
                )[i] && path[b] == #[trigger] scopes_along(tree, profile, path)[j],
    decreases path.len(),
{
    let out = scopes_along(tree, profile, path);
    if path.len() > 0 {
        let front = path.drop_last();
        let prev = scopes_along(tree, profile, front);
        lemma_scopes_along(tree, profile, front);
        assert forall|k: int| 0 <= k < out.len() implies path.contains(#[trigger] out[k])
            && is_scope_kind(profile, tree[out[k]].kind) by {
            if k < prev.len() {
                assert(out[k] == prev[k]);
                assert(front.contains(prev[k]));
                let w = choose|w: int| 0 <= w < front.len() && front[w] == prev[k];
                assert(path[w] == prev[k]);
            } else {
                assert(path[path.len() - 1] == out[k]);
            }
        }
        assert forall|k: int|
            0 <= k < path.len() && is_scope_kind(
                profile,
                tree[#[trigger] path[k]].kind,
            ) implies out.contains(path[k]) by {
            if k < front.len() {
                assert(front[k] == path[k]);
                assert(prev.contains(front[k]));
                let w = choose|w: int| 0 <= w < prev.len() && prev[w] == front[k];
                assert(out[w] == path[k]);
            } else {
                assert(out[out.len() - 1] == path[k]);
            }
        }
        assert forall|i: int, j: int| 0 <= i < j < out.len() implies exists|a: int, b: int|
            0 <= a < b < path.len() && path[a] == #[trigger] out[i] && path[b]
                == #[trigger] out[j] by {
            if j < prev.len() {
                assert(out[i] == prev[i] && out[j] == prev[j]);
                let (a, b) = choose|a: int, b: int|
                    0 <= a < b < front.len() && front[a] == prev[i] && front[b] == prev[j];
                assert(path[a] == out[i] && path[b] == out[j]);
            } else {
                assert(out[i] == prev[i]);
                assert(front.contains(prev[i]));
                let a = choose|a: int| 0 <= a < front.len() && front[a] == prev[i];
                assert(path[a] == out[i] && path[path.len() - 1] == out[j]);
            }
        }
    }
}

/// The ancestors of an ancestor are the ancestors that come after it.
pub proof fn lemma_ancestors_suffix(tree: Seq<NodeView>, c: int, k: int)
    requires
        well_formed(tree),
        0 <= c < tree.len(),
        0 <= k < ancestors(tree, c).len(),
    ensures
        0 <= ancestors(tree, c)[k] < c,
        ancestors(tree, ancestors(tree, c)[k]) == ancestors(tree, c).skip(k + 1),
    decreases k,
{
    let p = tree[c].parent->0;
    assert(ancestors(tree, c) == seq![p] + ancestors(tree, p));
    if k == 0 {
        assert(ancestors(tree, c).skip(1) == ancestors(tree, p));
    } else {
        lemma_ancestors_suffix(tree, p, k - 1);
        assert(ancestors(tree, c)[k] == ancestors(tree, p)[k - 1]);
        assert(ancestors(tree, c).skip(k + 1) == ancestors(tree, p).skip(k));
    }
}

/// Scope ordering: every item of the scope chain stands for an enclosing
/// named scope, every enclosing named scope has its item, and the items
/// run from the innermost scope outwards: each later item's construct
/// encloses the constructs of all items before it.
pub proof fn lemma_scope_ordering(tree: Seq<NodeView>, profile: ProfileView, c: int)
    requires
        well_formed(tree),
        0 <= c < tree.len(),
    ensures
        forall|k: int|
            0 <= k < scope_nodes(tree, profile, c).len() ==> is_ancestor(
                tree,
                #[trigger] scope_nodes(tree, profile, c)[k],
                c,
            ) && is_scope_kind(profile, tree[scope_nodes(tree, profile, c)[k]].kind),
        forall|a: int|
            is_ancestor(tree, a, c) && is_scope_kind(profile, tree[a].kind) ==> scope_nodes(
                tree,
                profile,
                c,
            ).contains(a),
        forall|i: int, j: int|
            0 <= i < j < scope_nodes(tree, profile, c).len() ==> is_ancestor(
                tree,
                #[trigger] scope_nodes(tree, profile, c)[j],
                #[trigger] scope_nodes(tree, profile, c)[i],
            ),
{
    let path = ancestors(tree, c);
    let out = scope_nodes(tree, profile, c);
    lemma_scopes_along(tree, profile, path);
    assert forall|a: int|
        is_ancestor(tree, a, c) && is_scope_kind(profile, tree[a].kind) implies out.contains(
        a,
    ) by {
        let k = choose|k: int| 0 <= k < path.len() && path[k] == a;
        assert(is_scope_kind(profile, tree[path[k]].kind));
    }
    assert forall|i: int, j: int| 0 <= i < j < out.len() implies is_ancestor(
        tree,
        #[trigger] out[j],
        #[trigger] out[i],
    ) by {
        let (a, b) = choose|a: int, b: int|
            0 <= a < b < path.len() && path[a] == out[i] && path[b] == out[j];
        lemma_ancestors_suffix(tree, c, a);
        assert(path.skip(a + 1)[b - a - 1] == path[b]);
    }
}

/// The scope chain of the node `c`: one item for each enclosing named
/// scope, innermost first.
pub fn resolve_scopes(extractor: &Extractor, c: usize) -> (r: Vec<ScopeItem>)
    requires
        extractor.wf(),
        c < extractor.tree().len(),
    ensures
        scope_views(r@) == scope_chain(extractor.tree(), extractor.profile(), c as int),
{
    let ghost tree = extractor.tree();
    let ghost profile = extractor.profile();
    let path = extractor.enclosing(c);
    let ghost ints = path@.map_values(|a: usize| a as int);
    let mut items: Vec<ScopeItem> = Vec::new();
    let mut i: usize = 0;
    assert(ints.take(0) == Seq::<int>::empty());
    assert(scope_views(items@) == scopes_along(tree, profile, ints.take(0)).map_values(
        |n: int| scope_of(tree, n),
    ));
    while i < path.len()
        invariant
            i <= path.len(),
            c < tree.len(),
            tree == extractor.tree(),
            profile == extractor.profile(),
            ints == path@.map_values(|a: usize| a as int),
            forall|k: int| 0 <= k < path.len() ==> #[trigger] path@[k] < c,
            scope_views(items@) == scopes_along(tree, profile, ints.take(i as int)).map_values(
                |n: int| scope_of(tree, n),
            ),
        decreases path.len() - i,
    {
        let n = path[i];
        assert(ints.take(i as int + 1).drop_last() == ints.take(i as int));
        assert(ints.take(i as int + 1).last() == n as int);
        if extractor.is_scope(n) {
            let node = extractor.node(n);
            let ghost before = scope_views(items@);
            items.push(ScopeItem { kind: node.kind.clone(), name: clone_option_string(&node.name) });
            assert(scope_views(items@) == before.push(scope_of(tree, n as int)));
            assert(scopes_along(tree, profile, ints.take(i as int + 1)).map_values(
                |n: int| scope_of(tree, n),
            ) == scopes_along(tree, profile, ints.take(i as int)).map_values(
                |n: int| scope_of(tree, n),
            ).push(scope_of(tree, n as int)));
        }
        i = i + 1;
    }
    assert(ints.take(path.len() as int) == ints);
    items
}

} // verus!
