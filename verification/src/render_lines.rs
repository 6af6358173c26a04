//! One line per node: the rendered text of a tree holds exactly as many
//! newlines as the tree has nodes, provided no name carries a newline itself.

use vstd::prelude::*;
use crate::tree::{spec_connector, spec_prefix_extension, spec_render, spec_render_children,
    RouteNode};

verus! {

/// How many newline characters `s` holds.
pub open spec fn count_newlines(s: Seq<char>) -> int
    decreases s.len(),
{
    if s.len() == 0 {
        0
    } else {
        (if s[0] == '\n' {
            1int
        } else {
            0int
        }) + count_newlines(s.skip(1))
    }
}

/// The text holds no newline.
pub open spec fn newline_free(s: Seq<char>) -> bool {
    forall|k: int| 0 <= k < s.len() ==> s[k] != '\n'
}

/// The number of nodes of the subtree rooted here.
pub open spec fn node_count(node: RouteNode) -> int
    decreases node, 0nat,
{
    1 + node_count_from(node.children@, 0)
}

/// The number of nodes of the subtrees rooted at the children from position
/// `i` on.
pub open spec fn node_count_from(children: Seq<RouteNode>, i: int) -> int
    decreases children, children.len() - i,
{
    if 0 <= i < children.len() {
        node_count(children[i]) + node_count_from(children, i + 1)
    } else {
        0
    }
}

/// No name anywhere in the subtree carries a newline.
pub open spec fn names_newline_free(node: RouteNode) -> bool
    decreases node, 0nat,
{
    newline_free(node.name@) && names_newline_free_from(node.children@, 0)
}

/// No name in the subtrees of the children from position `i` on carries a
/// newline.
pub open spec fn names_newline_free_from(children: Seq<RouteNode>, i: int) -> bool
    decreases children, children.len() - i,
{
    if 0 <= i < children.len() {
        names_newline_free(children[i]) && names_newline_free_from(children, i + 1)
    } else {
        true
    }
}

/// Newlines are counted piece by piece over a concatenation.
proof fn lemma_count_newlines_add(a: Seq<char>, b: Seq<char>)
    ensures
        count_newlines(a + b) == count_newlines(a) + count_newlines(b),
    decreases a.len(),
{
    if a.len() == 0 {
        assert(a + b =~= b);
    } else {
        assert((a + b).skip(1) =~= a.skip(1) + b);
        lemma_count_newlines_add(a.skip(1), b);
    }
}

/// A newline-free text counts no newline.
proof fn lemma_count_newline_free(s: Seq<char>)
    requires
        newline_free(s),
    ensures
        count_newlines(s) == 0,
    decreases s.len(),
{
    if s.len() > 0 {
        lemma_count_newline_free(s.skip(1));
    }
}

/// A single newline counts one.
proof fn lemma_count_single_newline()
    ensures
        count_newlines("\n"@) == 1,
{
    reveal_strlit("\n");
    assert("\n"@.skip(1) =~= Seq::<char>::empty());
    assert(count_newlines(Seq::<char>::empty()) == 0);
}

/// The connector and prefix-extension glyphs carry no newline.
proof fn lemma_glyphs_newline_free(is_last: bool)
    ensures
        newline_free(spec_connector(is_last)),
        newline_free(spec_prefix_extension(is_last)),
{
    reveal_strlit("└── ");
    reveal_strlit("├── ");
    reveal_strlit("    ");
    reveal_strlit("│   ");
}

/// Law: rendering writes exactly one line — one newline — per node of the
/// subtree, for any prefix without newlines of its own.
pub proof fn lemma_render_one_line_per_node(node: RouteNode, prefix: Seq<char>, is_last: bool)
    requires
        names_newline_free(node),
        newline_free(prefix),
    ensures
        count_newlines(spec_render(node, prefix, is_last)) == node_count(node),
    decreases node, 0nat,
{
    let own = prefix + spec_connector(is_last) + node.name@ + "\n"@;
    let child_prefix = prefix + spec_prefix_extension(is_last);
    lemma_glyphs_newline_free(is_last);
    lemma_count_newlines_add(prefix, spec_connector(is_last));
    lemma_count_newlines_add(prefix + spec_connector(is_last), node.name@);
    lemma_count_newlines_add(prefix + spec_connector(is_last) + node.name@, "\n"@);
    lemma_count_newlines_add(own, spec_render_children(node.children@, child_prefix, 0));
    lemma_count_newline_free(prefix);
    lemma_count_newline_free(spec_connector(is_last));
    lemma_count_newline_free(node.name@);
    lemma_count_single_newline();
    assert forall|k: int| 0 <= k < child_prefix.len() implies child_prefix[k] != '\n' by {
        if k < prefix.len() {
            assert(child_prefix[k] == prefix[k]);
        } else {
            assert(child_prefix[k] == spec_prefix_extension(is_last)[k - prefix.len()]);
        }
    }
    lemma_render_children_lines(node.children@, child_prefix, 0);
}

/// The children's rendering from position `i` on writes one newline per node
/// of their subtrees.
proof fn lemma_render_children_lines(children: Seq<RouteNode>, prefix: Seq<char>, i: int)
    requires
        names_newline_free_from(children, i),
        newline_free(prefix),
    ensures
        count_newlines(spec_render_children(children, prefix, i)) == node_count_from(children, i),
    decreases children, children.len() - i,
{
    if 0 <= i < children.len() {
        lemma_count_newlines_add(
            spec_render(children[i], prefix, i == children.len() - 1),
            spec_render_children(children, prefix, i + 1),
        );
        lemma_render_one_line_per_node(children[i], prefix, i == children.len() - 1);
        lemma_render_children_lines(children, prefix, i + 1);
    }
}

} // verus!
