//! What the language server hands back: looked-up files and expanded macros.

use vstd::prelude::*;

use crate::text::TextRange;

verus! {

/// The number that the language server knows a file by.
#[derive(Clone, Copy, Debug, PartialEq, Eq, Structural)]
pub struct FileId(pub u32);

/// Whether a known file is left out of the analysis.
#[derive(Clone, Copy, Debug, PartialEq, Eq, Structural)]
pub enum FileExcluded {
    Yes,
    No,
}

/// The file that a lookup gave, if it is known and takes part in the analysis.
pub fn file_id(lookup: Option<(FileId, FileExcluded)>) -> (id: Option<FileId>)
    ensures
        match lookup {
            Some((known, FileExcluded::No)) => id == Some(known),
            Some((_, FileExcluded::Yes)) => id is None,
            None => id is None,
        },
{
    match lookup {
        Some((id, FileExcluded::No)) => Some(id),
        None | Some((_, FileExcluded::Yes)) => None,
    }
}

/// A node of a syntax tree, as far as macro expansion goes.
#[derive(Clone, Copy, Debug, PartialEq, Eq, Structural)]
pub enum SyntaxNode {
    /// A macro call. `proc_macro` says whether it calls a function-like
    /// procedural macro, `range` is where the call stands in the file, and
    /// `expansion` is the number of nodes that it expands to, if it can be
    /// expanded.
    MacroCall { proc_macro: bool, range: TextRange, expansion: Option<usize> },
    /// Any other node.
    Other,
}

impl SyntaxNode {
    /// The node is a function-like proc-macro call that was expanded. Calls of
    /// declarative and built-in macros are none.
    pub open spec fn is_expanded(self) -> bool {
        self matches SyntaxNode::MacroCall { proc_macro: true, expansion: Some(_), .. }
    }
}

/// The number of expanded proc-macro calls among the nodes of a file.
pub open spec fn expanded_count(nodes: Seq<SyntaxNode>) -> nat {
    nodes.filter(|node: SyntaxNode| node.is_expanded()).len()
}

/// Where the first expanded proc-macro call among the nodes of a file stands.
pub open spec fn first_call(nodes: Seq<SyntaxNode>) -> Option<TextRange>
    decreases nodes.len(),
{
    if nodes.len() == 0 {
        None
    } else if nodes[0].is_expanded() {
        Some(nodes[0]->range)
    } else {
        first_call(nodes.drop_first())
    }
}

/// How many function-like proc-macro calls among the nodes of a file were
/// expanded.
pub fn expand_proc_macros_in(descendants: &Vec<SyntaxNode>) -> (count: usize)
    ensures
        count == expanded_count(descendants@),
        count == descendants@.filter(|node: SyntaxNode| node.is_expanded()).len(),
{
    let mut count: usize = 0;
    let mut i: usize = 0;
    let ghost expanded = |node: SyntaxNode| node.is_expanded();
    proof {
        reveal(Seq::filter);
        assert(descendants@.take(0).filter(expanded).len() == 0);
    }
    while i < descendants.len()
        invariant
            i <= descendants@.len(),
            count <= i,
            count == descendants@.take(i as int).filter(expanded).len(),
            expanded == (|node: SyntaxNode| node.is_expanded()),
        decreases descendants@.len() - i,
    {
        proof {
            reveal(Seq::filter);
            assert(descendants@.take(i + 1).drop_last() == descendants@.take(i as int));
        }
        match descendants[i] {
            SyntaxNode::MacroCall { proc_macro: true, expansion: Some(_), .. } => {
                count += 1;
            },
            _ => {},
        }
        i += 1;
    }
    assert(descendants@.take(i as int) == descendants@);
    count
}

/// Where the first expanded proc-macro call among the nodes of a file stands,
/// if any was expanded.
pub fn first_expanded(descendants: &Vec<SyntaxNode>) -> (range: Option<TextRange>)
    ensures
        range == first_call(descendants@),
        match range {
            Some(r) => exists|k: int|
                {
                    &&& 0 <= k < descendants@.len()
                    &&& (#[trigger] descendants@[k]).is_expanded()
                    &&& descendants@[k]->range == r
                    &&& forall|j: int| 0 <= j < k ==> !(#[trigger] descendants@[j]).is_expanded()
                },
            None => forall|j: int|
                0 <= j < descendants@.len() ==> !(#[trigger] descendants@[j]).is_expanded(),
        },
{
    let mut i: usize = 0;
    assert(descendants@.skip(0) == descendants@);
    while i < descendants.len()
        invariant
            i <= descendants@.len(),
            first_call(descendants@.skip(i as int)) == first_call(descendants@),
            forall|j: int| 0 <= j < i ==> !(#[trigger] descendants@[j]).is_expanded(),
        decreases descendants@.len() - i,
    {
        proof {
            assert(descendants@.skip(i as int)[0] == descendants@[i as int]);
            assert(descendants@.skip(i as int).drop_first() == descendants@.skip(i + 1));
        }
        match descendants[i] {
            SyntaxNode::MacroCall { proc_macro: true, range, expansion: Some(_) } => {
                assert(descendants@[i as int].is_expanded());
                return Some(range);
            },
            _ => {},
        }
        i += 1;
    }
    None
}

/// Every function-like proc-macro call that was expanded counts one, wherever
/// it stands, however large its expansion is and whatever surrounds it. No other
/// node counts.
pub proof fn law_every_expanded_call_counts_one(
    before: Seq<SyntaxNode>,
    node: SyntaxNode,
    after: Seq<SyntaxNode>,
)
    ensures
        expanded_count(Seq::<SyntaxNode>::empty()) == 0,
        expanded_count(before + seq![node] + after) == expanded_count(before) + expanded_count(
            after,
        ) + (match node {
            SyntaxNode::MacroCall { proc_macro, range, expansion } => if proc_macro
                && expansion is Some {
                1nat
            } else {
                0nat
            },
            SyntaxNode::Other => 0nat,
        }),
{
    let expanded = |node: SyntaxNode| node.is_expanded();
    Seq::filter_distributes_over_add(before, seq![node], expanded);
    Seq::filter_distributes_over_add(before + seq![node], after, expanded);
    reveal(Seq::filter);
    assert(seq![node].drop_last() == Seq::<SyntaxNode>::empty());
    assert(seq![node].drop_last().filter(expanded) == Seq::<SyntaxNode>::empty());
    assert(seq![node].last() == node);
}

/// The call that is taken is the first one that is a function-like proc-macro
/// call and was expanded, however large its expansion is.
pub proof fn law_the_first_expanded_call_is_taken(
    before: Seq<SyntaxNode>,
    range: TextRange,
    size: usize,
    after: Seq<SyntaxNode>,
)
    requires
        forall|j: int|
            0 <= j < before.len() ==> match #[trigger] before[j] {
                SyntaxNode::MacroCall { proc_macro, range, expansion } => !proc_macro
                    || expansion is None,
                SyntaxNode::Other => true,
            },
    ensures
        first_call(before) is None,
        first_call(
            before + seq![SyntaxNode::MacroCall { proc_macro: true, range, expansion: Some(size) }]
                + after,
        ) == Some(range),
    decreases before.len(),
{
    let call = SyntaxNode::MacroCall { proc_macro: true, range, expansion: Some(size) };
    let nodes = before + seq![call] + after;
    if before.len() > 0 {
        let rest = before.drop_first();
        assert forall|j: int| 0 <= j < rest.len() implies match #[trigger] rest[j] {
            SyntaxNode::MacroCall { proc_macro, range, expansion } => !proc_macro
                || expansion is None,
            SyntaxNode::Other => true,
        } by {
            assert(rest[j] == before[j + 1]);
        }
        law_the_first_expanded_call_is_taken(rest, range, size, after);
        assert(nodes[0] == before[0]);
        assert(nodes.drop_first() == rest + seq![call] + after);
    } else {
        assert(nodes[0] == call);
    }
}

/// A first expanded proc-macro call is there exactly if the count is not zero.
pub proof fn law_first_is_there_if_counted(descendants: Seq<SyntaxNode>)
    ensures
        (descendants.filter(|node: SyntaxNode| node.is_expanded()).len() > 0) <==> (exists|k: int|
            0 <= k < descendants.len() && (#[trigger] descendants[k]).is_expanded()),
    decreases descendants.len(),
{
    reveal(Seq::filter);
    if descendants.len() > 0 {
        let rest = descendants.drop_last();
        law_first_is_there_if_counted(rest);
        if descendants.last().is_expanded() {
            assert(descendants[descendants.len() - 1].is_expanded());
        }
        if exists|k: int| 0 <= k < rest.len() && (#[trigger] rest[k]).is_expanded() {
            let k = choose|k: int| 0 <= k < rest.len() && (#[trigger] rest[k]).is_expanded();
            assert(descendants[k].is_expanded());
        }
        if exists|k: int| 0 <= k < descendants.len() && (#[trigger] descendants[k]).is_expanded() {
            let k = choose|k: int|
                0 <= k < descendants.len() && (#[trigger] descendants[k]).is_expanded();
            if k < rest.len() {
                assert(rest[k].is_expanded());
            }
        }
    }
}

} // verus!
