//! The tree builder: an arena of nodes and handles into it.
use vstd::prelude::*;

use crate::escape::{encode_quoted, escape_text};
use crate::model::{
    arena_wf, children_of, empty_node, lemma_with_attr, lemma_with_child_wf,
    lemma_with_text_wf, open_tag, render, render_children, render_content, with_attr, with_child,
    with_text, ContentView, NodeView,
};

verus! {

/// What a node holds between its tags: escaped text, or the arena indices
/// of its children in the order they were added.
enum TagValue {
    Value(String),
    TagChildren(Vec<usize>),
}

struct Node {
    tag_type: String,
    attr: Option<String>,
    value: Option<TagValue>,
}

impl View for TagValue {
    type V = ContentView;

    closed spec fn view(&self) -> ContentView {
        match self {
            TagValue::Value(s) => ContentView::Text(s@),
            TagValue::TagChildren(cs) => ContentView::Children(cs@.map_values(|c: usize| c as nat)),
        }
    }
}

impl View for Node {
    type V = NodeView;

    closed spec fn view(&self) -> NodeView {
        NodeView {
            tag: self.tag_type@,
            attr: match self.attr {
                Some(a) => Some(a@),
                None => None,
            },
            content: match self.value {
                Some(v) => Some(v@),
                None => None,
            },
        }
    }
}

/// A tree of markup elements. The root is the node at index 0 of the arena.
pub struct Html {
    nodes: Vec<Node>,
}

/// A handle to one node of an [`Html`] tree, through which that node can be
/// changed after it was added.
#[derive(Clone, Copy)]
pub struct Tag(usize);

impl View for Html {
    type V = Seq<NodeView>;

    closed spec fn view(&self) -> Seq<NodeView> {
        self.nodes@.map_values(|n: Node| n@)
    }
}

impl View for Tag {
    type V = nat;

    closed spec fn view(&self) -> nat {
        self.0 as nat
    }
}

impl Html {
    /// The arena holds the root, and every child index points forward.
    pub open spec fn wf(&self) -> bool {
        self@.len() > 0 && arena_wf(self@)
    }

    /// A tree of one node tagged `tag_type`, with no attribute and no content.
    pub fn new(tag_type: &str) -> (r: Html)
        ensures
            r.wf(),
            r@ == seq![empty_node(tag_type@)],
    {
        let mut nodes: Vec<Node> = Vec::new();
        nodes.push(Node { tag_type: tag_type.to_owned(), attr: None, value: None });
        let r = Html { nodes };
        assert(r@ =~= seq![empty_node(tag_type@)]);
        r
    }

    /// The markup of the whole tree.
    pub fn build(&self) -> (r: String)
        requires
            self.wf(),
        ensures
            r@ == render(self@, 0),
    {
        let mut s = String::new();
        self.write_node(0, &mut s);
        assert(s@ =~= render(self@, 0));
        s
    }

    /// Appends the markup of node `i` and its descendants to `out`.
    fn write_node(&self, i: usize, out: &mut String)
        requires
            self.wf(),
            i < self@.len(),
        ensures
            final(out)@ == old(out)@ + render(self@, i as nat),
        decreases self@.len() - i,
    {
        proof {
            reveal_strlit("<");
            reveal_strlit(">");
            reveal_strlit("</");
        }
        let ghost start = out@;
        let node = &self.nodes[i];
        let ghost tag = self@[i as int].tag;
        assert(node.tag_type@ == tag);
        out.append("<");
        out.append(node.tag_type.as_str());
        out.append(">");
        assert(out@ =~= start + open_tag(tag));
        match &node.value {
            None => {},
            Some(TagValue::Value(v)) => {
                out.append(v.as_str());
            },
            Some(TagValue::TagChildren(cs)) => {
                let ghost kids = children_of(self@[i as int]);
                assert(kids =~= cs@.map_values(|c: usize| c as nat));
                let mut k: usize = 0;
                while k < cs.len()
                    invariant
                        self.wf(),
                        i < self@.len(),
                        kids == children_of(self@[i as int]),
                        kids == cs@.map_values(|c: usize| c as nat),
                        k <= cs.len(),
                        out@ == start + open_tag(tag) + render_children(
                            self@,
                            i as nat,
                            kids,
                            k as nat,
                        ),
                    decreases cs.len() - k,
                {
                    let c = cs[k];
                    assert(i < kids[k as int] < self@.len());
                    self.write_node(c, out);
                    k = k + 1;
                    assert(render_children(self@, i as nat, kids, k as nat) == render_children(
                        self@,
                        i as nat,
                        kids,
                        (k - 1) as nat,
                    ) + render(self@, c as nat));
                    assert(out@ =~= start + open_tag(tag) + render_children(
                        self@,
                        i as nat,
                        kids,
                        k as nat,
                    ));
                }
            },
        }
        assert(out@ =~= start + open_tag(tag) + render_content(self@, i as nat));
        out.append("</");
        out.append(node.tag_type.as_str());
        out.append(">");
        assert(out@ =~= start + render(self@, i as nat));
    }

    /// Adds a new empty node tagged `tag_type` as the last child of node `p`.
    fn push_child(&mut self, p: usize, tag_type: &str) -> (r: Tag)
        requires
            old(self).wf(),
            p < old(self)@.len(),
        ensures
            final(self).wf(),
            final(self)@ == with_child(old(self)@, p as int, tag_type@),
            r@ == old(self)@.len(),
    {
        let id = self.nodes.len();
        let mut node = Node { tag_type: String::new(), attr: None, value: None };
        self.nodes.set_and_swap(p, &mut node);
        let kids = match node.value {
            Some(TagValue::TagChildren(cs)) => {
                let mut cs = cs;
                cs.push(id);
                cs
            },
            _ => {
                let mut cs: Vec<usize> = Vec::new();
                cs.push(id);
                cs
            },
        };
        self.nodes.set(
            p,
            Node { tag_type: node.tag_type, attr: node.attr, value: Some(TagValue::TagChildren(kids)) },
        );
        self.nodes.push(Node { tag_type: tag_type.to_owned(), attr: None, value: None });
        proof {
            lemma_with_child_wf(old(self)@, p as int, tag_type@);
            let want = with_child(old(self)@, p as int, tag_type@);
            assert(self@[p as int].content == want[p as int].content) by {
                assert(kids@.map_values(|c: usize| c as nat) =~= children_of(want[p as int]));
            }
            assert(self@ =~= want);
        }
        Tag(id)
    }

    /// Node `i` holds `value`, escaped, in place of what it held.
    fn set_value(&mut self, i: usize, value: &str)
        requires
            old(self).wf(),
            i < old(self)@.len(),
        ensures
            final(self).wf(),
            final(self)@ == with_text(old(self)@, i as int, escape_text(value@)),
    {
        let text = encode_quoted(value);
        let mut node = Node { tag_type: String::new(), attr: None, value: None };
        self.nodes.set_and_swap(i, &mut node);
        self.nodes.set(
            i,
            Node { tag_type: node.tag_type, attr: node.attr, value: Some(TagValue::Value(text)) },
        );
        proof {
            lemma_with_text_wf(old(self)@, i as int, escape_text(value@));
            assert(self@ =~= with_text(old(self)@, i as int, escape_text(value@)));
        }
    }

    /// Node `i` has the attribute `attr`.
    fn set_attribute(&mut self, i: usize, attr: &str)
        requires
            old(self).wf(),
            i < old(self)@.len(),
        ensures
            final(self).wf(),
            final(self)@ == with_attr(old(self)@, i as int, attr@),
    {
        let mut node = Node { tag_type: String::new(), attr: None, value: None };
        self.nodes.set_and_swap(i, &mut node);
        self.nodes.set(i, Node { tag_type: node.tag_type, attr: Some(attr.to_owned()), value: node.value });
        proof {
            lemma_with_attr(old(self)@, i as int, attr@);
            assert(self@ =~= with_attr(old(self)@, i as int, attr@));
        }
    }

    /// Adds a new empty node tagged `tag_type` as the last child of the root
    /// and returns a handle to it. Text that the root held is dropped.
    pub fn add_child(&mut self, tag_type: &str) -> (r: Tag)
        requires
            old(self).wf(),
        ensures
            final(self).wf(),
            final(self)@ == with_child(old(self)@, 0, tag_type@),
            r@ == old(self)@.len(),
    {
        self.push_child(0, tag_type)
    }

    /// The root holds `value`, escaped, in place of its text or children.
    pub fn add_value(&mut self, value: &str)
        requires
            old(self).wf(),
        ensures
            final(self).wf(),
            final(self)@ == with_text(old(self)@, 0, escape_text(value@)),
    {
        self.set_value(0, value)
    }

    /// The root has the attribute `attr`, kept verbatim.
    pub fn add_attribute(&mut self, attr: &str)
        requires
            old(self).wf(),
        ensures
            final(self).wf(),
            final(self)@ == with_attr(old(self)@, 0, attr@),
    {
        self.set_attribute(0, attr)
    }
}

impl Tag {
    /// Adds a new empty node tagged `tag_type` as the last child of this
    /// node of `html`, and returns a handle to it. Text that this node held
    /// is dropped.
    pub fn add_child(&self, html: &mut Html, tag_type: &str) -> (r: Tag)
        requires
            old(html).wf(),
            self@ < old(html)@.len(),
        ensures
            final(html).wf(),
            final(html)@ == with_child(old(html)@, self@ as int, tag_type@),
            r@ == old(html)@.len(),
    {
        html.push_child(self.0, tag_type)
    }

    /// This node of `html` holds `value`, escaped, in place of its text or
    /// children.
    pub fn add_value(&self, html: &mut Html, value: &str)
        requires
            old(html).wf(),
            self@ < old(html)@.len(),
        ensures
            final(html).wf(),
            final(html)@ == with_text(old(html)@, self@ as int, escape_text(value@)),
    {
        html.set_value(self.0, value)
    }

    /// This node of `html` has the attribute `attr`, kept verbatim.
    pub fn add_attribute(&self, html: &mut Html, attr: &str)
        requires
            old(html).wf(),
            self@ < old(html)@.len(),
        ensures
            final(html).wf(),
            final(html)@ == with_attr(old(html)@, self@ as int, attr@),
    {
        html.set_attribute(self.0, attr)
    }
}

} // verus!
