//! The occurrence record.

use crate::git::{BlameInfo, BlameRecord};
use crate::scan::context::{context_view, CodeContext, ContextView};
use crate::scan::scope::{scope_views, ScopeItem, ScopeView};
use vstd::prelude::*;

verus! {

/// One occurrence of a marker identifier in a comment.
#[derive(Debug)]
pub struct Entry {
    /// The file of the occurrence, relative to the root of the scan.
    pub file: String,
    /// The line on which the comment starts, counted from one.
    pub line: usize,
    /// The text of the comment node that holds the identifier, with its
    /// delimiters. Only that node's own text is recorded, not that of
    /// neighbouring comments.
    pub comment_text: String,
    /// The nearest construct before the comment.
    pub above: Option<CodeContext>,
    /// The first construct after the block of comments.
    pub below: Option<CodeContext>,
    /// The construct that shares the comment's line.
    pub inline: Option<CodeContext>,
    /// The named scopes that enclose the comment, innermost first.
    pub scope: Vec<ScopeItem>,
    /// Who last changed the line, once attribution has run.
    pub blame: Option<BlameInfo>,
}

/// The mathematical content of an [`Entry`].
pub struct EntryView {
    pub file: Seq<char>,
    pub line: nat,
    pub comment_text: Seq<char>,
    pub above: Option<ContextView>,
    pub below: Option<ContextView>,
    pub inline: Option<ContextView>,
    pub scope: Seq<ScopeView>,
    pub blame: Option<BlameRecord>,
}

/// The view of an optional attribution.
pub open spec fn blame_view(blame: Option<BlameInfo>) -> Option<BlameRecord> {
    match blame {
        Some(b) => Some(b@),
        None => None,
    }
}

impl View for Entry {
    type V = EntryView;

    open spec fn view(&self) -> EntryView {
        EntryView {
            file: self.file@,
            line: self.line as nat,
            comment_text: self.comment_text@,
            above: context_view(self.above),
            below: context_view(self.below),
            inline: context_view(self.inline),
            scope: scope_views(self.scope@),
            blame: blame_view(self.blame),
        }
    }
}

/// A copy of an optional context.
pub fn clone_context(context: &Option<CodeContext>) -> (r: Option<CodeContext>)
    ensures
        context_view(r) == context_view(*context),
{
    match context {
        Some(c) => Some(c.clone()),
        None => None,
    }
}

/// A copy of an optional attribution.
pub fn clone_blame(blame: &Option<BlameInfo>) -> (r: Option<BlameInfo>)
    ensures
        blame_view(r) == blame_view(*blame),
{
    match blame {
        Some(b) => Some(b.clone()),
        None => None,
    }
}

/// A copy of a scope chain.
pub fn clone_scope(scope: &Vec<ScopeItem>) -> (r: Vec<ScopeItem>)
    ensures
        scope_views(r@) == scope_views(scope@),
{
    let mut r: Vec<ScopeItem> = Vec::new();
    let mut i: usize = 0;
    while i < scope.len()
        invariant
            i <= scope.len(),
            r.len() == i,
            forall|k: int| 0 <= k < i ==> (#[trigger] r@[k])@ == scope@[k]@,
        decreases scope.len() - i,
    {
        r.push(scope[i].clone());
        i = i + 1;
    }
    assert(scope_views(r@) =~= scope_views(scope@));
    r
}

impl Clone for Entry {
    fn clone(&self) -> (r: Self)
        ensures
            r@ == self@,
    {
        Entry {
            file: self.file.clone(),
            line: self.line,
            comment_text: self.comment_text.clone(),
            above: clone_context(&self.above),
            below: clone_context(&self.below),
            inline: clone_context(&self.inline),
            scope: clone_scope(&self.scope),
            blame: clone_blame(&self.blame),
        }
    }
}

/// The views of a list of entries.
pub open spec fn entry_views(entries: Seq<Entry>) -> Seq<EntryView> {
    Seq::new(entries.len(), |i: int| entries[i]@)
}

} // verus!
