//! The route tree: an aggregation structure that merges segment sequences
//! into a shared labeled hierarchy and renders it as an indented diagram.

use vstd::prelude::*;
use vstd::slice::{slice_index_get, slice_subrange};
use crate::classify::views_of;
use crate::segment::str_equal;

verus! {

/// One level of the route tree: a segment name and one child per distinct
/// next segment among the routes inserted so far.
pub struct RouteNode {
    pub name: String,
    pub children: Vec<RouteNode>,
}

/// Some child in the list carries the given name.
pub open spec fn has_child(children: Seq<RouteNode>, name: Seq<char>) -> bool {
    exists|i: int| 0 <= i < children.len() && children[i].name@ == name
}

/// An index of a child carrying the given name (the index is unique when the
/// names are distinct).
pub open spec fn child_at(children: Seq<RouteNode>, name: Seq<char>) -> int {
    choose|i: int| 0 <= i < children.len() && children[i].name@ == name
}

/// The chain of names `segs` can be followed downward from `node`, meeting a
/// node named after each segment in order.
pub open spec fn has_path(node: RouteNode, segs: Seq<Seq<char>>) -> bool
    decreases node,
{
    segs.len() == 0 || {
        &&& has_child(node.children@, segs[0])
        &&& has_path(node.children@[child_at(node.children@, segs[0])], segs.skip(1))
    }
}

/// `p` is a prefix of `q`.
pub open spec fn is_prefix_of(p: Seq<Seq<char>>, q: Seq<Seq<char>>) -> bool {
    p.len() <= q.len() && p == q.take(p.len() as int)
}

impl RouteNode {
    /// Well-formed: at every level, no two children share a name.
    pub open spec fn wf(self) -> bool
        decreases self,
    {
        &&& (forall|i: int, j: int|
            0 <= i < j < self.children@.len() ==> self.children@[i].name@
                != self.children@[j].name@)
        &&& (forall|i: int|
            0 <= i < self.children@.len() ==> (#[trigger] self.children@[i]).wf())
    }

    /// A node with the given name and no children.
    pub fn new(name: &str) -> (node: RouteNode)
        ensures
            node.name@ == name@,
            node.children@.len() == 0,
            node.wf(),
    {
        RouteNode { name: name.to_owned(), children: Vec::new() }
    }

    /// The synthetic root: its name is the fixed sentinel, never a path
    /// segment.
    pub fn new_root() -> (node: RouteNode)
        ensures
            node.name@ == "root"@,
            node.children@.len() == 0,
            node.wf(),
    {
        RouteNode::new("root")
    }

    /// Merges one segment sequence into the tree: it follows the existing
    /// child wherever the next name already occurs and creates a new child
    /// where it does not, so the paths afterwards are exactly the old paths
    /// plus every prefix of the inserted sequence. No node is renamed or
    /// removed, and no two siblings ever share a name.
    pub fn add_route(&mut self, parts: &[String])
        requires
            old(self).wf(),
        ensures
            final(self).wf(),
            final(self).name == old(self).name,
            forall|p: Seq<Seq<char>>|
                has_path(*final(self), p) <==> has_path(*old(self), p) || is_prefix_of(
                    p,
                    views_of(parts@),
                ),
            has_path(*final(self), views_of(parts@)),
        decreases parts@.len(),
    {
        let ghost segs = views_of(parts@);
        proof {
            lemma_prefix_refl(segs);
        }
        if parts.len() == 0 {
            proof {
                assert forall|p: Seq<Seq<char>>|
                    has_path(*self, p) <==> has_path(*old(self), p) || is_prefix_of(
                        p,
                        segs,
                    ) by {
                    if is_prefix_of(p, segs) {
                        assert(p.len() == 0);
                    }
                }
            }
            return ;
        }
        let first = slice_index_get(parts, 0);
        let ghost s0 = first@;
        let rest = slice_subrange(parts, 1, parts.len());
        proof {
            assert(segs[0] == s0);
            assert(views_of(rest@) =~= segs.skip(1));
        }
        if let Some(idx) = find_child(&self.children, first.as_str()) {
            proof {
                assert(old(self).children@[idx as int].wf());
            }
            let mut child = self.children.remove(idx);
            child.add_route(rest);
            let ghost newch = child;
            self.children.insert(idx, child);
            proof {
                assert(self.children@ =~= old(self).children@.update(idx as int, newch));
                lemma_insert_existing(*old(self), *self, idx as int, newch, segs);
            }
        } else {
            let mut child = RouteNode::new(first.as_str());
            let ghost fresh = child;
            child.add_route(rest);
            let ghost newch = child;
            self.children.push(child);
            proof {
                assert forall|q: Seq<Seq<char>>|
                    has_path(newch, q) <==> q.len() == 0 || is_prefix_of(
                        q,
                        segs.skip(1),
                    ) by {
                    if q.len() > 0 {
                        assert(!has_child(fresh.children@, q[0]));
                        assert(!has_path(fresh, q));
                    }
                }
                lemma_insert_new(*old(self), *self, newch, segs);
            }
        }
    }
}

/// The connector drawn before a node's name: the terminal branch glyph for a
/// last child, the mid branch glyph otherwise.
pub open spec fn spec_connector(is_last: bool) -> Seq<char> {
    if is_last {
        "└── "@
    } else {
        "├── "@
    }
}

/// What a node adds to the prefix of its children's lines: blank continuation
/// below a last child, a vertical bar otherwise.
pub open spec fn spec_prefix_extension(is_last: bool) -> Seq<char> {
    if is_last {
        "    "@
    } else {
        "│   "@
    }
}

/// The rendered text of a subtree: the node's own line, then every child's
/// rendering in order under an extended prefix.
pub open spec fn spec_render(node: RouteNode, prefix: Seq<char>, is_last: bool) -> Seq<char>
    decreases node, 0nat,
{
    prefix + spec_connector(is_last) + node.name@ + "\n"@ + spec_render_children(
        node.children@,
        prefix + spec_prefix_extension(is_last),
        0,
    )
}

/// The rendered text of the children from position `i` on; only the final
/// child counts as last.
pub open spec fn spec_render_children(children: Seq<RouteNode>, prefix: Seq<char>, i: int) -> Seq<
    char,
>
    decreases children, children.len() - i,
{
    if 0 <= i < children.len() {
        spec_render(children[i], prefix, i == children.len() - 1) + spec_render_children(
            children,
            prefix,
            i + 1,
        )
    } else {
        Seq::empty()
    }
}

impl RouteNode {
    /// Renders the subtree as text, one line per node: the node's line is
    /// `prefix`, then the connector for its position, then its name; children
    /// follow in order, the last one under the terminal connector.
    pub fn render(&self, prefix: &str, is_last: bool) -> (out: String)
        ensures
            out@ == spec_render(*self, prefix@, is_last),
        decreases *self,
    {
        let mut out = prefix.to_owned();
        out.append(if is_last { "└── " } else { "├── " });
        out.append(self.name.as_str());
        out.append("\n");
        let mut child_prefix = prefix.to_owned();
        child_prefix.append(if is_last { "    " } else { "│   " });
        proof {
            assert(child_prefix@ == prefix@ + spec_prefix_extension(is_last));
            assert(out@ =~= prefix@ + spec_connector(is_last) + self.name@ + "\n"@);
        }
        let n = self.children.len();
        let mut i: usize = 0;
        while i < n
            invariant
                n == self.children@.len(),
                i <= n,
                child_prefix@ == prefix@ + spec_prefix_extension(is_last),
                out@ + spec_render_children(self.children@, child_prefix@, i as int)
                    == spec_render(*self, prefix@, is_last),
            decreases n - i,
        {
            let ghost out0 = out@;
            let line = self.children[i].render(child_prefix.as_str(), i == n - 1);
            out.append(line.as_str());
            proof {
                assert(out@ + spec_render_children(self.children@, child_prefix@, i + 1) =~= out0
                    + spec_render_children(self.children@, child_prefix@, i as int));
            }
            i = i + 1;
        }
        proof {
            assert(out@ + spec_render_children(self.children@, child_prefix@, n as int) =~= out@);
        }
        out
    }
}

/// The position of the child carrying `name`, if any child does.
fn find_child(children: &Vec<RouteNode>, name: &str) -> (r: Option<usize>)
    ensures
        match r {
            Some(i) => i < children@.len() && children@[i as int].name@ == name@,
            None => forall|j: int| 0 <= j < children@.len() ==> children@[j].name@ != name@,
        },
{
    let mut idx: usize = 0;
    while idx < children.len()
        invariant
            idx <= children@.len(),
            forall|j: int| 0 <= j < idx ==> children@[j].name@ != name@,
        decreases children@.len() - idx,
    {
        if str_equal(children[idx].name.as_str(), name) {
            return Some(idx);
        }
        idx = idx + 1;
    }
    None
}

/// The empty sequence is a prefix of every sequence.
proof fn lemma_empty_prefix(q: Seq<Seq<char>>)
    ensures
        is_prefix_of(Seq::empty(), q),
{
    assert(Seq::<Seq<char>>::empty() =~= q.take(0));
}

/// Every sequence is a prefix of itself, so an inserted sequence can always
/// be followed in the tree afterwards.
pub proof fn lemma_prefix_refl(q: Seq<Seq<char>>)
    ensures
        is_prefix_of(q, q),
{
    assert(q.take(q.len() as int) =~= q);
}

/// For non-empty sequences, being a prefix means sharing the head and being a
/// prefix behind it.
proof fn lemma_prefix_unfold(p: Seq<Seq<char>>, q: Seq<Seq<char>>)
    requires
        p.len() > 0,
        q.len() > 0,
    ensures
        is_prefix_of(p, q) <==> (p[0] == q[0] && is_prefix_of(p.skip(1), q.skip(1))),
{
    if is_prefix_of(p, q) {
        assert(p[0] == q.take(p.len() as int)[0]);
        assert(p.skip(1) =~= q.skip(1).take(p.len() - 1));
    }
    if p[0] == q[0] && is_prefix_of(p.skip(1), q.skip(1)) {
        assert(p =~= q.take(p.len() as int)) by {
            assert(forall|k: int|
                1 <= k < p.len() ==> p[k] == p.skip(1)[k - 1] && p.skip(1)[k - 1] == q.skip(
                    1,
                ).take(p.len() - 1)[k - 1]);
        };
    }
}

/// Replacing the child at `idx` by one of the same name, whose paths are the
/// old ones plus the prefixes of `segs.skip(1)`, gives a node whose paths are
/// the old ones plus the prefixes of `segs`.
proof fn lemma_insert_existing(oldn: RouteNode, newn: RouteNode, idx: int, newch: RouteNode, segs: Seq<Seq<char>>)
    requires
        oldn.wf(),
        segs.len() > 0,
        0 <= idx < oldn.children@.len(),
        oldn.children@[idx].name@ == segs[0],
        newn.name == oldn.name,
        newn.children@ == oldn.children@.update(idx, newch),
        newch.name@ == segs[0],
        newch.wf(),
        forall|q: Seq<Seq<char>>|
            has_path(newch, q) <==> has_path(oldn.children@[idx], q) || is_prefix_of(
                q,
                segs.skip(1),
            ),
    ensures
        newn.wf(),
        forall|p: Seq<Seq<char>>|
            has_path(newn, p) <==> has_path(oldn, p) || is_prefix_of(p, segs),
{
    let oldc = oldn.children@;
    let newc = newn.children@;
    assert forall|i: int, j: int|
        0 <= i < j < newc.len() implies newc[i].name@ != newc[j].name@ by {
        assert(newc[i].name@ == oldc[i].name@);
        assert(newc[j].name@ == oldc[j].name@);
    }
    assert forall|i: int| 0 <= i < newc.len() implies #[trigger] newc[i].wf() by {
        if i != idx {
            assert(newc[i] == oldc[i]);
            assert(oldc[i].wf());
        }
    }
    assert forall|p: Seq<Seq<char>>|
        has_path(newn, p) <==> has_path(oldn, p) || is_prefix_of(p, segs) by {
        if p.len() > 0 {
            lemma_prefix_unfold(p, segs);
            if p[0] == segs[0] {
                lemma_child_at_unique(newc, segs[0], idx);
                lemma_child_at_unique(oldc, segs[0], idx);
                assert(has_path(newn, p) == has_path(newch, p.skip(1)));
                assert(has_path(oldn, p) == has_path(oldc[idx], p.skip(1)));
            } else {
                if has_child(oldc, p[0]) {
                    let k = child_at(oldc, p[0]);
                    assert(k != idx);
                    lemma_child_at_unique(newc, p[0], k);
                    assert(newc[k] == oldc[k]);
                    assert(has_path(newn, p) == has_path(newc[k], p.skip(1)));
                    assert(has_path(oldn, p) == has_path(oldc[k], p.skip(1)));
                } else if has_child(newc, p[0]) {
                    let k = child_at(newc, p[0]);
                    assert(newc[k].name@ == oldc[k].name@);
                    assert(has_child(oldc, p[0]));
                }
            }
        }
    }
}

/// Appending a fresh child named `segs[0]`, whose paths are exactly the
/// prefixes of `segs.skip(1)`, gives a node whose paths are the old ones plus
/// the prefixes of `segs`.
proof fn lemma_insert_new(oldn: RouteNode, newn: RouteNode, newch: RouteNode, segs: Seq<Seq<char>>)
    requires
        oldn.wf(),
        segs.len() > 0,
        forall|j: int| 0 <= j < oldn.children@.len() ==> oldn.children@[j].name@ != segs[0],
        newn.name == oldn.name,
        newn.children@ == oldn.children@.push(newch),
        newch.name@ == segs[0],
        newch.wf(),
        forall|q: Seq<Seq<char>>| has_path(newch, q) <==> q.len() == 0 || is_prefix_of(q, segs.skip(1)),
    ensures
        newn.wf(),
        forall|p: Seq<Seq<char>>|
            has_path(newn, p) <==> has_path(oldn, p) || is_prefix_of(p, segs),
{
    let oldc = oldn.children@;
    let newc = newn.children@;
    let last = oldc.len() as int;
    assert forall|i: int, j: int|
        0 <= i < j < newc.len() implies newc[i].name@ != newc[j].name@ by {
        if j < last {
            assert(oldc[i].name@ != oldc[j].name@);
        } else {
            assert(oldc[i].name@ != segs[0]);
        }
    }
    assert forall|i: int| 0 <= i < newc.len() implies #[trigger] newc[i].wf() by {
        if i < last {
            assert(newc[i] == oldc[i]);
            assert(oldc[i].wf());
        }
    }
    assert forall|p: Seq<Seq<char>>|
        has_path(newn, p) <==> has_path(oldn, p) || is_prefix_of(p, segs) by {
        if p.len() > 0 {
            lemma_prefix_unfold(p, segs);
            if p[0] == segs[0] {
                lemma_child_at_unique(newc, segs[0], last);
                assert(newc[last] == newch);
                assert(has_path(newn, p) == has_path(newch, p.skip(1)));
                assert(!has_child(oldc, p[0]));
                assert(!has_path(oldn, p));
                if p.skip(1).len() == 0 {
                    lemma_empty_prefix(segs.skip(1));
                    assert(p.skip(1) =~= Seq::<Seq<char>>::empty());
                }
            } else {
                if has_child(oldc, p[0]) {
                    let k = child_at(oldc, p[0]);
                    lemma_child_at_unique(newc, p[0], k);
                    assert(newc[k] == oldc[k]);
                    assert(has_path(newn, p) == has_path(newc[k], p.skip(1)));
                    assert(has_path(oldn, p) == has_path(oldc[k], p.skip(1)));
                } else if has_child(newc, p[0]) {
                    let k = child_at(newc, p[0]);
                    assert(newc[last] == newch);
                    if k < last {
                        assert(oldc[k].name@ == p[0]);
                        assert(has_child(oldc, p[0]));
                    }
                }
            }
        }
    }
}

/// Law: inserting a sequence a second time changes no structure. A tree that
/// already holds every prefix of `segs` as a path has exactly the same paths
/// after an insertion of `segs`.
pub proof fn lemma_insert_idempotent(before: RouteNode, after: RouteNode, segs: Seq<Seq<char>>)
    requires
        forall|p: Seq<Seq<char>>| is_prefix_of(p, segs) ==> has_path(before, p),
        forall|p: Seq<Seq<char>>|
            has_path(after, p) <==> has_path(before, p) || is_prefix_of(p, segs),
    ensures
        forall|p: Seq<Seq<char>>| has_path(after, p) <==> has_path(before, p),
{
}

/// Under distinct names, `child_at` finds exactly the index whose child
/// carries the name.
proof fn lemma_child_at_unique(children: Seq<RouteNode>, name: Seq<char>, i: int)
    requires
        forall|a: int, b: int|
            0 <= a < b < children.len() ==> children[a].name@ != children[b].name@,
        0 <= i < children.len(),
        children[i].name@ == name,
    ensures
        has_child(children, name),
        child_at(children, name) == i,
{
    assert(has_child(children, name));
    let j = child_at(children, name);
    assert(0 <= j < children.len() && children[j].name@ == name);
    if j < i {
        assert(children[j].name@ != children[i].name@);
    }
    if i < j {
        assert(children[i].name@ != children[j].name@);
    }
}

/// Law: in a well-formed tree a name occurs on at most one child, so repeated
/// or prefix-sharing insertions never create duplicate siblings.
pub proof fn lemma_unique_child(node: RouteNode, name: Seq<char>)
    requires
        node.wf(),
    ensures
        forall|i: int, j: int|
            (0 <= i < node.children@.len() && node.children@[i].name@ == name && 0 <= j
                < node.children@.len() && node.children@[j].name@ == name) ==> i == j,
{
    assert forall|i: int, j: int|
        (0 <= i < node.children@.len() && node.children@[i].name@ == name && 0 <= j
            < node.children@.len() && node.children@[j].name@ == name) implies i == j by {
        if i < j {
            assert(node.children@[i].name@ != node.children@[j].name@);
        }
        if j < i {
            assert(node.children@[j].name@ != node.children@[i].name@);
        }
    }
}

} // verus!
