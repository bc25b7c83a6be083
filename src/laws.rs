//! Properties of the markup that a tree produces.
use vstd::prelude::*;

use crate::escape::{escape_text, is_escaped, lemma_escape_is_escaped, lemma_unescape_escape, unescape_text};
use crate::model::{
    arena_wf, children_markup, children_of, close_tag, lemma_render_frame,
    lemma_with_child_wf, open_tag, render, render_children, render_content, with_child, with_text,
    ContentView, NodeView,
};

verus! {

/// A node with no content renders as its opening tag followed at once by
/// its closing tag.
pub proof fn lemma_empty_node_markup(ns: Seq<NodeView>, i: nat)
    requires
        i < ns.len(),
        ns[i as int].content is None,
    ensures
        render(ns, i) == open_tag(ns[i as int].tag) + close_tag(ns[i as int].tag),
{
    assert(render_content(ns, i) =~= Seq::empty());
    assert(render(ns, i) =~= open_tag(ns[i as int].tag) + close_tag(ns[i as int].tag));
}

/// After text is set on a node, the node renders as its tags around the
/// escaped text; that text holds no `<`, `>`, `"` or `'`, each `&` in it
/// opens an entity, and reading the entities back gives the text that was
/// set.
pub proof fn lemma_text_markup(ns: Seq<NodeView>, i: nat, v: Seq<char>)
    requires
        i < ns.len(),
    ensures
        render(with_text(ns, i as int, escape_text(v)), i) == open_tag(ns[i as int].tag)
            + escape_text(v) + close_tag(ns[i as int].tag),
        is_escaped(escape_text(v)),
        unescape_text(escape_text(v)) == v,
{
    lemma_escape_is_escaped(v);
    lemma_unescape_escape(v);
}

proof fn lemma_children_prefix(
    ns: Seq<NodeView>,
    ns2: Seq<NodeView>,
    p: nat,
    cs2: Seq<nat>,
    k: nat,
)
    requires
        arena_wf(ns),
        p < ns.len() <= ns2.len(),
        k <= children_of(ns[p as int]).len(),
        k <= cs2.len(),
        forall|m: int| 0 <= m < k ==> #[trigger] cs2[m] == children_of(ns[p as int])[m],
        forall|x: int| p < x < ns.len() ==> #[trigger] ns2[x] == ns[x],
    ensures
        render_children(ns2, p, cs2, k) == render_children(ns, p, children_of(ns[p as int]), k),
    decreases k,
{
    if k > 0 {
        let cs = children_of(ns[p as int]);
        lemma_children_prefix(ns, ns2, p, cs2, (k - 1) as nat);
        let c = cs[k - 1];
        assert(p < children_of(ns[p as int])[k - 1] < ns.len());
        assert(cs2[k - 1] == c);
        lemma_render_frame(ns, ns2, c);
    }
}

/// Node `p` of `ns2` holds the children of node `p` of `ns` and then one
/// more, at the first index past `ns`; the nodes between are as they were.
proof fn lemma_content_after_append(ns: Seq<NodeView>, ns2: Seq<NodeView>, p: nat)
    requires
        arena_wf(ns),
        p < ns.len() < ns2.len(),
        ns2[p as int].content == Some(
            ContentView::Children(children_of(ns[p as int]).push(ns.len())),
        ),
        forall|x: int| p < x < ns.len() ==> #[trigger] ns2[x] == ns[x],
    ensures
        render_content(ns2, p) == children_markup(ns, p) + render(ns2, ns.len()),
{
    let cs = children_of(ns[p as int]);
    let cs2 = cs.push(ns.len());
    lemma_children_prefix(ns, ns2, p, cs2, cs.len());
    assert(cs2[cs.len() as int] == ns.len());
}

/// Adding a child to node `p` appends the child's markup after the markup of
/// the children `p` already had; text that `p` held is gone from its markup.
pub proof fn lemma_add_child_markup(ns: Seq<NodeView>, p: nat, t: Seq<char>)
    requires
        arena_wf(ns),
        p < ns.len(),
    ensures
        render(with_child(ns, p as int, t), p) == open_tag(ns[p as int].tag) + children_markup(
            ns,
            p,
        ) + open_tag(t) + close_tag(t) + close_tag(ns[p as int].tag),
{
    let ns2 = with_child(ns, p as int, t);
    lemma_content_after_append(ns, ns2, p);
    lemma_empty_node_markup(ns2, ns.len());
    assert(render(ns2, p) =~= open_tag(ns[p as int].tag) + children_markup(ns, p) + open_tag(t)
        + close_tag(t) + close_tag(ns[p as int].tag));
}

/// Adding a child to a node that holds text drops the text: the node's
/// markup is then its tags around the new child's empty element alone.
pub proof fn lemma_child_replaces_text(ns: Seq<NodeView>, i: nat, x: Seq<char>, t: Seq<char>)
    requires
        arena_wf(ns),
        i < ns.len(),
    ensures
        render(with_child(with_text(ns, i as int, x), i as int, t), i) == open_tag(
            ns[i as int].tag,
        ) + open_tag(t) + close_tag(t) + close_tag(ns[i as int].tag),
{
    let ns1 = with_text(ns, i as int, x);
    assert(arena_wf(ns1)) by {
        assert forall|j: int, m: int|
            0 <= j < ns1.len() && 0 <= m < children_of(ns1[j]).len() implies j
            < #[trigger] children_of(ns1[j])[m] < ns1.len() by {
            assert(ns1[j] == ns[j]);
        }
    }
    lemma_add_child_markup(ns1, i, t);
    assert(children_markup(ns1, i) =~= Seq::empty());
}

/// Children render inside their parent's tags in the order they were added,
/// each right after the one before.
pub proof fn lemma_children_in_order(
    ns: Seq<NodeView>,
    p: nat,
    t1: Seq<char>,
    t2: Seq<char>,
    t3: Seq<char>,
)
    requires
        arena_wf(ns),
        p < ns.len(),
        children_of(ns[p as int]).len() == 0,
    ensures
        ({
            let n = ns.len();
            let ns3 = with_child(with_child(with_child(ns, p as int, t1), p as int, t2), p as int, t3);
            &&& children_of(ns3[p as int]) == seq![n, n + 1, n + 2]
            &&& render(ns3, p) == open_tag(ns[p as int].tag) + render(ns3, n) + render(ns3, n + 1)
                + render(ns3, n + 2) + close_tag(ns[p as int].tag)
            &&& render(ns3, n) == open_tag(t1) + close_tag(t1)
            &&& render(ns3, n + 1) == open_tag(t2) + close_tag(t2)
            &&& render(ns3, n + 2) == open_tag(t3) + close_tag(t3)
        }),
{
    let n = ns.len();
    let ns1 = with_child(ns, p as int, t1);
    let ns2 = with_child(ns1, p as int, t2);
    let ns3 = with_child(ns2, p as int, t3);
    lemma_with_child_wf(ns, p as int, t1);
    lemma_with_child_wf(ns1, p as int, t2);
    lemma_content_after_append(ns, ns1, p);
    lemma_content_after_append(ns1, ns2, p);
    lemma_content_after_append(ns2, ns3, p);
    assert(children_of(ns3[p as int]) =~= seq![n, n + 1, n + 2]);
    lemma_empty_node_markup(ns1, n);
    lemma_empty_node_markup(ns2, n + 1);
    lemma_empty_node_markup(ns3, n);
    lemma_empty_node_markup(ns3, n + 1);
    lemma_empty_node_markup(ns3, n + 2);
    assert(children_markup(ns, p) =~= Seq::empty());
    assert(children_markup(ns1, p) == render_content(ns1, p));
    assert(children_markup(ns2, p) == render_content(ns2, p));
    assert(render(ns3, p) =~= open_tag(ns[p as int].tag) + render(ns3, n) + render(ns3, n + 1)
        + render(ns3, n + 2) + close_tag(ns[p as int].tag));
}

/// A handle returned when a child is added names the parent's newest child:
/// text set through the handle is what the parent's markup shows for that
/// child.
pub proof fn lemma_handle_shares_node(ns: Seq<NodeView>, p: nat, t: Seq<char>, v: Seq<char>)
    requires
        arena_wf(ns),
        p < ns.len(),
    ensures
        ({
            let n = ns.len();
            let ns2 = with_text(with_child(ns, p as int, t), n as int, escape_text(v));
            &&& children_of(ns2[p as int]).last() == n
            &&& render(ns2, p) == open_tag(ns[p as int].tag) + children_markup(ns, p) + open_tag(t)
                + escape_text(v) + close_tag(t) + close_tag(ns[p as int].tag)
        }),
{
    let n = ns.len();
    let ns1 = with_child(ns, p as int, t);
    let ns2 = with_text(ns1, n as int, escape_text(v));
    assert(ns2[p as int] == ns1[p as int]);
    lemma_content_after_append(ns, ns2, p);
    assert(render(ns2, n) == open_tag(t) + escape_text(v) + close_tag(t));
    assert(render(ns2, p) =~= open_tag(ns[p as int].tag) + children_markup(ns, p) + open_tag(t)
        + escape_text(v) + close_tag(t) + close_tag(ns[p as int].tag));
}

/// Serialising is repeatable: the markup of node `j` (the root when `j` is
/// 0) comes out the same again as long as neither `j` nor any node after it
/// in the arena was changed in between, even where nodes were added at the
/// end since.
pub proof fn lemma_build_repeatable(before: Seq<NodeView>, after: Seq<NodeView>, j: nat)
    requires
        arena_wf(before),
        j < before.len() <= after.len(),
        forall|k: int| j <= k < before.len() ==> #[trigger] after[k] == before[k],
    ensures
        render(after, j) == render(before, j),
{
    lemma_render_frame(before, after, j);
}

} // verus!
