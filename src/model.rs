//! The mathematical model of a tree: an arena of nodes addressed by index.
use vstd::prelude::*;

verus! {

/// What a node holds between its tags.
pub enum ContentView {
    Text(Seq<char>),
    Children(Seq<nat>),
}

/// One node of the arena.
pub struct NodeView {
    pub tag: Seq<char>,
    pub attr: Option<Seq<char>>,
    pub content: Option<ContentView>,
}

/// A node with a tag and nothing else.
pub open spec fn empty_node(tag: Seq<char>) -> NodeView {
    NodeView { tag, attr: None, content: None }
}

/// The children of a node, empty unless it holds a list of children.
pub open spec fn children_of(n: NodeView) -> Seq<nat> {
    match n.content {
        Some(ContentView::Children(cs)) => cs,
        _ => Seq::empty(),
    }
}

/// Every child index names a node that comes later in the arena.
pub open spec fn arena_wf(ns: Seq<NodeView>) -> bool {
    forall|i: int, m: int|
        0 <= i < ns.len() && 0 <= m < children_of(ns[i]).len() ==> i < #[trigger] children_of(
            ns[i],
        )[m] < ns.len()
}

pub open spec fn open_tag(tag: Seq<char>) -> Seq<char> {
    seq!['<'] + tag + seq!['>']
}

pub open spec fn close_tag(tag: Seq<char>) -> Seq<char> {
    seq!['<', '/'] + tag + seq!['>']
}

/// The markup of node `i` and everything below it.
pub open spec fn render(ns: Seq<NodeView>, i: nat) -> Seq<char>
    decreases ns.len() - i, 2nat, 0nat,
{
    if i < ns.len() {
        open_tag(ns[i as int].tag) + render_content(ns, i) + close_tag(ns[i as int].tag)
    } else {
        Seq::empty()
    }
}

/// The markup between the tags of node `i`.
pub open spec fn render_content(ns: Seq<NodeView>, i: nat) -> Seq<char>
    decreases ns.len() - i, 1nat, 0nat,
{
    if i < ns.len() {
        match ns[i as int].content {
            None => Seq::empty(),
            Some(ContentView::Text(t)) => t,
            Some(ContentView::Children(cs)) => render_children(ns, i, cs, cs.len()),
        }
    } else {
        Seq::empty()
    }
}

/// The markup of the first `k` children `cs` of node `i`, one after another.
pub open spec fn render_children(ns: Seq<NodeView>, i: nat, cs: Seq<nat>, k: nat) -> Seq<char>
    decreases ns.len() - i, 0nat, k,
{
    if 0 < k <= cs.len() && i < ns.len() {
        let c = cs[k - 1];
        let prev = render_children(ns, i, cs, (k - 1) as nat);
        if i < c < ns.len() {
            prev + render(ns, c)
        } else {
            prev
        }
    } else {
        Seq::empty()
    }
}

/// The markup of all children of node `p`, one after another; empty when it
/// holds none.
pub open spec fn children_markup(ns: Seq<NodeView>, p: nat) -> Seq<char> {
    render_children(ns, p, children_of(ns[p as int]), children_of(ns[p as int]).len())
}

/// Node `i` with `content` in place of what it held.
pub open spec fn with_content(ns: Seq<NodeView>, i: int, content: ContentView) -> Seq<NodeView> {
    ns.update(i, NodeView { tag: ns[i].tag, attr: ns[i].attr, content: Some(content) })
}

/// A new empty node tagged `tag` at the end of the arena, appended to the
/// children of node `p`; text that `p` held is dropped.
pub open spec fn with_child(ns: Seq<NodeView>, p: int, tag: Seq<char>) -> Seq<NodeView> {
    let id = ns.len();
    let kids = match ns[p].content {
        Some(ContentView::Children(cs)) => cs.push(id),
        _ => seq![id],
    };
    with_content(ns, p, ContentView::Children(kids)).push(empty_node(tag))
}

/// Node `i` holding the text `text` in place of what it held.
pub open spec fn with_text(ns: Seq<NodeView>, i: int, text: Seq<char>) -> Seq<NodeView> {
    with_content(ns, i, ContentView::Text(text))
}

/// Node `i` with the attribute `attr`.
pub open spec fn with_attr(ns: Seq<NodeView>, i: int, attr: Seq<char>) -> Seq<NodeView> {
    ns.update(i, NodeView { tag: ns[i].tag, attr: Some(attr), content: ns[i].content })
}

/// Adding a child keeps the arena well formed.
pub proof fn lemma_with_child_wf(ns: Seq<NodeView>, p: int, tag: Seq<char>)
    requires
        arena_wf(ns),
        0 <= p < ns.len(),
    ensures
        arena_wf(with_child(ns, p, tag)),
{
    let ns2 = with_child(ns, p, tag);
    assert forall|i: int, m: int|
        0 <= i < ns2.len() && 0 <= m < children_of(ns2[i]).len() implies i < #[trigger] children_of(
        ns2[i],
    )[m] < ns2.len() by {
        if i == p {
            if m < children_of(ns[p]).len() {
                assert(children_of(ns2[i])[m] == children_of(ns[p])[m]);
            }
        } else if i < ns.len() {
            assert(ns2[i] == ns[i]);
        }
    }
}

/// Setting text keeps the arena well formed.
pub proof fn lemma_with_text_wf(ns: Seq<NodeView>, i: int, text: Seq<char>)
    requires
        arena_wf(ns),
        0 <= i < ns.len(),
    ensures
        arena_wf(with_text(ns, i, text)),
{
    let ns2 = with_text(ns, i, text);
    assert forall|j: int, m: int|
        0 <= j < ns2.len() && 0 <= m < children_of(ns2[j]).len() implies j < #[trigger] children_of(
        ns2[j],
    )[m] < ns2.len() by {
        assert(ns2[j] == ns[j]);
    }
}

/// Setting an attribute keeps the arena well formed and the markup unchanged.
pub proof fn lemma_with_attr(ns: Seq<NodeView>, i: int, attr: Seq<char>)
    requires
        arena_wf(ns),
        0 <= i < ns.len(),
    ensures
        arena_wf(with_attr(ns, i, attr)),
        forall|j: nat| render(with_attr(ns, i, attr), j) == render(ns, j),
{
    let ns2 = with_attr(ns, i, attr);
    assert forall|j: int, m: int|
        0 <= j < ns2.len() && 0 <= m < children_of(ns2[j]).len() implies j < #[trigger] children_of(
        ns2[j],
    )[m] < ns2.len() by {
        assert(children_of(ns2[j]) == children_of(ns[j]));
    }
    assert forall|j: nat| render(ns2, j) == render(ns, j) by {
        lemma_render_same_shape(ns, ns2, j);
    }
}

/// Arenas whose nodes agree in tag and content render alike.
proof fn lemma_render_same_shape(a: Seq<NodeView>, b: Seq<NodeView>, j: nat)
    requires
        a.len() == b.len(),
        forall|x: int| #![trigger a[x]] 0 <= x < a.len() ==> a[x].tag == b[x].tag && a[x].content == b[x].content,
    ensures
        render(a, j) == render(b, j),
        render_content(a, j) == render_content(b, j),
    decreases a.len() - j, 1nat,
{
    if j < a.len() {
        match a[j as int].content {
            Some(ContentView::Children(cs)) => {
                lemma_render_children_same_shape(a, b, j, cs, cs.len());
            },
            _ => {},
        }
    }
}

proof fn lemma_render_children_same_shape(
    a: Seq<NodeView>,
    b: Seq<NodeView>,
    j: nat,
    cs: Seq<nat>,
    k: nat,
)
    requires
        a.len() == b.len(),
        forall|x: int| #![trigger a[x]] 0 <= x < a.len() ==> a[x].tag == b[x].tag && a[x].content == b[x].content,
    ensures
        render_children(a, j, cs, k) == render_children(b, j, cs, k),
    decreases a.len() - j, 0nat, k,
{
    if 0 < k <= cs.len() && j < a.len() {
        lemma_render_children_same_shape(a, b, j, cs, (k - 1) as nat);
        let c = cs[k - 1];
        if j < c < a.len() {
            lemma_render_same_shape(a, b, c);
        }
    }
}

/// The markup of node `j` depends only on nodes `j` onwards: an arena that
/// agrees with a well-formed `a` there, and is at least as long, renders `j`
/// alike.
pub proof fn lemma_render_frame(a: Seq<NodeView>, b: Seq<NodeView>, j: nat)
    requires
        arena_wf(a),
        a.len() <= b.len(),
        forall|x: int| j <= x < a.len() ==> #[trigger] b[x] == a[x],
        j < a.len(),
    ensures
        render(b, j) == render(a, j),
        render_content(b, j) == render_content(a, j),
    decreases a.len() - j, 1nat,
{
    match a[j as int].content {
        Some(ContentView::Children(cs)) => {
            lemma_render_children_frame(a, b, j, cs, cs.len());
        },
        _ => {},
    }
}

proof fn lemma_render_children_frame(a: Seq<NodeView>, b: Seq<NodeView>, j: nat, cs: Seq<nat>, k: nat)
    requires
        arena_wf(a),
        a.len() <= b.len(),
        forall|x: int| j <= x < a.len() ==> #[trigger] b[x] == a[x],
        j < a.len(),
        cs == children_of(a[j as int]),
    ensures
        render_children(b, j, cs, k) == render_children(a, j, cs, k),
    decreases a.len() - j, 0nat, k,
{
    if 0 < k <= cs.len() {
        lemma_render_children_frame(a, b, j, cs, (k - 1) as nat);
        let c = cs[k - 1];
        assert(j < children_of(a[j as int])[k - 1] < a.len());
        lemma_render_frame(a, b, c);
    }
}

} // verus!
