//! The parse tree that the scanner reads: an arena of nodes in depth-first
//! order, each with the index of its parent.

use crate::text::{clone_option_string, option_view};
use vstd::prelude::*;

verus! {

/// One node as a parser reports it. A tree is given as the list of its
/// nodes in depth-first order, parents before children, each with its
/// depth below the root.
#[derive(Debug)]
pub struct RawNode {
    /// The kind tag of the node.
    pub kind: String,
    /// The source text that the node spans.
    pub text: String,
    /// The number of ancestors of the node.
    pub depth: usize,
    /// The line on which the node starts, counted from zero.
    pub start_line: usize,
    /// The line of the position at which the node ends, counted from zero.
    pub end_line: usize,
    /// The column of the position at which the node ends.
    pub end_column: usize,
    /// For each field in which a name is looked for, in the order of the
    /// language's list, the text of the node's child in that field, if the
    /// node has one.
    pub names: Vec<Option<String>>,
}

/// The mathematical content of a [`RawNode`].
pub struct RawNodeView {
    pub kind: Seq<char>,
    pub text: Seq<char>,
    pub depth: nat,
    pub start_line: nat,
    pub end_line: nat,
    pub end_column: nat,
    pub names: Seq<Option<Seq<char>>>,
}

impl View for RawNode {
    type V = RawNodeView;

    open spec fn view(&self) -> RawNodeView {
        RawNodeView {
            kind: self.kind@,
            text: self.text@,
            depth: self.depth as nat,
            start_line: self.start_line as nat,
            end_line: self.end_line as nat,
            end_column: self.end_column as nat,
            names: option_views(self.names@),
        }
    }
}

/// The views of a list of optional strings.
pub open spec fn option_views(list: Seq<Option<String>>) -> Seq<Option<Seq<char>>> {
    Seq::new(list.len(), |i: int| option_view(list[i]))
}

/// The first value that a list of optional values holds.
pub open spec fn first_present(list: Seq<Option<Seq<char>>>) -> Option<Seq<char>>
    decreases list.len(),
{
    if list.len() == 0 {
        None
    } else if list[0] is Some {
        list[0]
    } else {
        first_present(list.drop_first())
    }
}

/// The views of a list of raw nodes.
pub open spec fn raw_views(raw: Seq<RawNode>) -> Seq<RawNodeView> {
    Seq::new(raw.len(), |i: int| raw[i]@)
}

/// One node of a tree.
pub struct NodeView {
    /// The kind tag of the node.
    pub kind: Seq<char>,
    /// The source text that the node spans.
    pub text: Seq<char>,
    /// The first line on which the node has text, counted from zero.
    pub first_line: nat,
    /// The last line on which the node has text, counted from zero.
    pub last_line: nat,
    /// The index of the parent; `None` for the root.
    pub parent: Option<int>,
    /// The declared name of the node, if its shape exposes one.
    pub name: Option<Seq<char>>,
}

/// Whether `tree` is an arena in depth-first order: the root comes first
/// and has no parent, every other node comes after its parent, and no node
/// ends before it starts.
pub open spec fn well_formed(tree: Seq<NodeView>) -> bool {
    forall|i: int|
        0 <= i < tree.len() ==> {
            &&& (#[trigger] tree[i]).first_line <= tree[i].last_line
            &&& tree[i].last_line < usize::MAX
            &&& match tree[i].parent {
                Some(p) => 0 <= p < i,
                None => i == 0,
            }
        }
}

/// The ancestors of node `i`, from its parent up to the root.
pub open spec fn ancestors(tree: Seq<NodeView>, i: int) -> Seq<int>
    decreases i,
{
    if 0 <= i < tree.len() {
        match tree[i].parent {
            Some(p) => if 0 <= p < i {
                seq![p] + ancestors(tree, p)
            } else {
                Seq::empty()
            },
            None => Seq::empty(),
        }
    } else {
        Seq::empty()
    }
}

/// Whether node `a` is an ancestor of node `i`.
pub open spec fn is_ancestor(tree: Seq<NodeView>, a: int, i: int) -> bool {
    ancestors(tree, i).contains(a)
}

/// Whether a list of raw nodes describes a tree: the first node has depth
/// zero, every other node lies at most one level below its predecessor and
/// never at the root's level, and no node ends before it starts.
pub open spec fn valid_raw(raw: Seq<RawNodeView>) -> bool {
    forall|i: int|
        0 <= i < raw.len() ==> {
            &&& (#[trigger] raw[i]).start_line <= raw[i].end_line
            &&& raw[i].end_line < usize::MAX
            &&& if i == 0 {
                raw[i].depth == 0
            } else {
                1 <= raw[i].depth <= raw[i - 1].depth + 1
            }
        }
}

/// The index of the last node before `i` that has depth `d`, or `-1` when
/// there is none.
pub open spec fn last_at_depth(raw: Seq<RawNodeView>, i: int, d: nat) -> int
    decreases i,
{
    if i <= 0 {
        -1
    } else if raw[i - 1].depth == d {
        i - 1
    } else {
        last_at_depth(raw, i - 1, d)
    }
}

/// The last line on which a raw node has text. A node that ends at the
/// very start of a line has no text on that line.
pub open spec fn last_text_line(n: RawNodeView) -> nat {
    if n.end_column == 0 && n.end_line > n.start_line {
        (n.end_line - 1) as nat
    } else {
        n.end_line
    }
}

/// The tree node for the raw node at index `i`: its parent is the nearest
/// earlier node one level higher, and its name is the text of its child in
/// the first of the name fields that it has.
pub open spec fn node_of(raw: Seq<RawNodeView>, i: int) -> NodeView {
    NodeView {
        kind: raw[i].kind,
        text: raw[i].text,
        first_line: raw[i].start_line,
        last_line: last_text_line(raw[i]),
        parent: if raw[i].depth == 0 {
            None
        } else {
            Some(last_at_depth(raw, i, (raw[i].depth - 1) as nat))
        },
        name: first_present(raw[i].names),
    }
}

/// The tree that a list of raw nodes describes.
pub open spec fn tree_of(raw: Seq<RawNodeView>) -> Seq<NodeView> {
    Seq::new(raw.len(), |i: int| node_of(raw, i))
}

/// In a valid list, every level down to that of a node's predecessor has a
/// node before it.
proof fn lemma_last_at_depth(raw: Seq<RawNodeView>, i: int, d: nat)
    requires
        valid_raw(raw),
        1 <= i <= raw.len(),
        d <= raw[i - 1].depth,
    ensures
        0 <= last_at_depth(raw, i, d) < i,
        raw[last_at_depth(raw, i, d)].depth == d,
    decreases i,
{
    if raw[i - 1].depth != d {
        assert(raw[0].depth == 0);
        assert(i >= 2);
        assert(raw[i - 1].depth <= raw[i - 2].depth + 1);
        lemma_last_at_depth(raw, i - 1, d);
    }
}

/// A valid list of raw nodes describes a well-formed tree.
pub proof fn lemma_tree_of_well_formed(raw: Seq<RawNodeView>)
    requires
        valid_raw(raw),
    ensures
        well_formed(tree_of(raw)),
{
    let tree = tree_of(raw);
    assert forall|i: int| 0 <= i < tree.len() implies {
        &&& (#[trigger] tree[i]).first_line <= tree[i].last_line
        &&& tree[i].last_line < usize::MAX
        &&& match tree[i].parent {
            Some(p) => 0 <= p < i,
            None => i == 0,
        }
    } by {
        assert(tree[i] == node_of(raw, i));
        assert(raw[i].start_line <= raw[i].end_line);
        if raw[i].depth > 0 {
            assert(i > 0);
            lemma_last_at_depth(raw, i, (raw[i].depth - 1) as nat);
        }
    }
}

/// A copy of the first name that `names` holds.
fn first_name(names: &Vec<Option<String>>) -> (r: Option<String>)
    ensures
        option_view(r) == first_present(option_views(names@)),
{
    let ghost all = option_views(names@);
    let mut i: usize = 0;
    assert(all.skip(0) == all);
    while i < names.len()
        invariant
            i <= names.len(),
            all == option_views(names@),
            first_present(all) == first_present(all.skip(i as int)),
        decreases names.len() - i,
    {
        assert(all.skip(i as int)[0] == option_view(names@[i as int]));
        match &names[i] {
            Some(name) => {
                return Some(name.clone());
            },
            None => {},
        }
        assert(all.skip(i as int).drop_first() == all.skip(i as int + 1));
        i = i + 1;
    }
    None
}

/// A node of a [`SyntaxTree`].
#[derive(Debug)]
pub struct SyntaxNode {
    pub kind: String,
    pub text: String,
    pub first_line: usize,
    pub last_line: usize,
    pub parent: Option<usize>,
    pub name: Option<String>,
}

impl View for SyntaxNode {
    type V = NodeView;

    open spec fn view(&self) -> NodeView {
        NodeView {
            kind: self.kind@,
            text: self.text@,
            first_line: self.first_line as nat,
            last_line: self.last_line as nat,
            parent: match self.parent {
                Some(p) => Some(p as int),
                None => None,
            },
            name: option_view(self.name),
        }
    }
}

/// A parse tree as an arena of nodes in depth-first order.
#[derive(Debug)]
pub struct SyntaxTree {
    nodes: Vec<SyntaxNode>,
}

impl View for SyntaxTree {
    type V = Seq<NodeView>;

    closed spec fn view(&self) -> Seq<NodeView> {
        Seq::new(self.nodes@.len(), |i: int| self.nodes@[i]@)
    }
}

impl SyntaxTree {
    /// Whether the tree is well formed. Every tree built by
    /// [`SyntaxTree::from_raw`] is.
    pub open spec fn wf(&self) -> bool {
        well_formed(self@)
    }

    /// Builds the tree that `raw` describes, or `None` when `raw` describes
    /// no tree.
    pub fn from_raw(raw: &Vec<RawNode>) -> (r: Option<SyntaxTree>)
        ensures
            match r {
                Some(tree) => valid_raw(raw_views(raw@)) && tree@ == tree_of(raw_views(raw@))
                    && tree.wf(),
                None => !valid_raw(raw_views(raw@)),
            },
    {
        let ghost rv = raw_views(raw@);
        let mut nodes: Vec<SyntaxNode> = Vec::new();
        let mut path: Vec<usize> = Vec::new();
        let mut i: usize = 0;
        while i < raw.len()
            invariant
                i <= raw.len(),
                rv == raw_views(raw@),
                nodes.len() == i,
                forall|k: int| 0 <= k < i ==> (#[trigger] nodes@[k])@ == node_of(rv, k),
                forall|k: int|
                    0 <= k < i ==> {
                        &&& (#[trigger] rv[k]).start_line <= rv[k].end_line
                        &&& rv[k].end_line < usize::MAX
                        &&& if k == 0 {
                            rv[k].depth == 0
                        } else {
                            1 <= rv[k].depth <= rv[k - 1].depth + 1
                        }
                    },
                forall|k: int|
                    0 <= k < i ==> match (#[trigger] node_of(rv, k)).parent {
                        Some(p) => 0 <= p < k,
                        None => k == 0,
                    },
                path.len() == if i == 0 {
                    0
                } else {
                    rv[i - 1].depth + 1
                },
                forall|d: int|
                    0 <= d < path.len() ==> 0 <= #[trigger] path@[d] < i && path@[d]
                        == last_at_depth(rv, i as int, d as nat),
            decreases raw.len() - i,
        {
            let n = &raw[i];
            assert(rv[i as int] == n@);
            let depth = n.depth;
            let fits = n.start_line <= n.end_line && n.end_line < usize::MAX && if i == 0 {
                depth == 0
            } else {
                1 <= depth && depth <= path.len()
            };
            if !fits {
                return None;
            }
            let parent = if depth == 0 {
                None
            } else {
                Some(path[depth - 1])
            };
            let last_line = if n.end_column == 0 && n.end_line > n.start_line {
                n.end_line - 1
            } else {
                n.end_line
            };
            path.truncate(depth);
            path.push(i);
            nodes.push(
                SyntaxNode {
                    kind: n.kind.clone(),
                    text: n.text.clone(),
                    first_line: n.start_line,
                    last_line,
                    parent,
                    name: first_name(&n.names),
                },
            );
            assert forall|d: int| 0 <= d < path.len() implies 0 <= #[trigger] path@[d] < i + 1
                && path@[d] == last_at_depth(rv, i as int + 1, d as nat) by {
                if d < depth {
                    assert(rv[i as int].depth != d);
                }
            }
            i = i + 1;
        }
        let tree = SyntaxTree { nodes };
        assert(tree@ =~= tree_of(rv));
        Some(tree)
    }

    /// The number of nodes.
    pub fn len(&self) -> (n: usize)
        ensures
            n == self@.len(),
    {
        self.nodes.len()
    }

    /// The node at index `i`.
    pub fn node(&self, i: usize) -> (n: &SyntaxNode)
        requires
            i < self@.len(),
        ensures
            n@ == self@[i as int],
    {
        &self.nodes[i]
    }

    /// The ancestors of node `i`, from its parent up to the root.
    pub fn ancestors(&self, i: usize) -> (r: Vec<usize>)
        requires
            self.wf(),
            i < self@.len(),
        ensures
            r@.map_values(|a: usize| a as int) == ancestors(self@, i as int),
            forall|k: int| 0 <= k < r.len() ==> #[trigger] r@[k] < i,
    {
        let mut r: Vec<usize> = Vec::new();
        let mut current: usize = i;
        assert(r@.map_values(|a: usize| a as int) + ancestors(self@, current as int) == ancestors(
            self@,
            i as int,
        ));
        loop
            invariant
                self.wf(),
                current <= i < self@.len(),
                r@.map_values(|a: usize| a as int) + ancestors(self@, current as int)
                    == ancestors(self@, i as int),
                forall|k: int| 0 <= k < r.len() ==> #[trigger] r@[k] < i,
            decreases current,
        {
            match self.nodes[current].parent {
                Some(p) => {
                    assert(self@[current as int].parent == Some(p as int));
                    let ghost before = r@.map_values(|a: usize| a as int);
                    r.push(p);
                    assert(r@.map_values(|a: usize| a as int) == before.push(p as int));
                    assert(before.push(p as int) + ancestors(self@, p as int) == before + (
                    seq![p as int] + ancestors(self@, p as int)));
                    current = p;
                },
                None => {
                    assert(self@[current as int].parent is None);
                    assert(ancestors(self@, current as int) == Seq::<int>::empty());
                    assert(r@.map_values(|a: usize| a as int) + Seq::<int>::empty()
                        == r@.map_values(|a: usize| a as int));
                    return r;
                },
            }
        }
    }
}

} // verus!
