use html_builder::html::{Html, Tag};

#[test]
fn list_items_are_escaped_in_order() {
    let mut root = Html::new("ul");
    let c1 = root.add_child("li");
    c1.add_value(&mut root, "A & B");
    let c2 = root.add_child("li");
    c2.add_value(&mut root, "<x>");
    assert_eq!(root.build(), "<ul><li>A &amp; B</li><li>&lt;x&gt;</li></ul>");
}

#[test]
fn attribute_is_not_emitted() {
    let mut root = Html::new("div");
    root.add_attribute("class=\"x\"");
    assert_eq!(root.build(), "<div></div>");
}

#[test]
fn attribute_on_handle_is_not_emitted() {
    let mut root = Html::new("div");
    let p = root.add_child("p");
    p.add_attribute(&mut root, "id=\"a\"");
    p.add_attribute(&mut root, "id=\"b\"");
    assert_eq!(root.build(), "<div><p></p></div>");
}

#[test]
fn empty_node_has_both_tags() {
    for t in ["div", "span", "x", "my-tag"] {
        assert_eq!(Html::new(t).build(), format!("<{t}></{t}>"));
    }
}

#[test]
fn empty_tag_name_is_accepted() {
    assert_eq!(Html::new("").build(), "<></>");
}

#[test]
fn text_is_escaped_and_decodes_back() {
    let v = "a > b && a < c";
    let mut root = Html::new("p");
    root.add_value(v);
    let out = root.build();
    assert_eq!(out, "<p>a &gt; b &amp;&amp; a &lt; c</p>");
    let inner = &out["<p>".len()..out.len() - "</p>".len()];
    assert!(!inner.contains('<') && !inner.contains('>'));
    assert_eq!(html_escape::decode_html_entities(inner), v);
}

#[test]
fn quotes_are_escaped_and_other_text_kept() {
    let mut root = Html::new("p");
    root.add_value("say \"hi\" it's é");
    assert_eq!(root.build(), "<p>say &quot;hi&quot; it&#x27;s é</p>");
}

#[test]
fn single_quote_alone_is_escaped() {
    let mut root = Html::new("p");
    let c = root.add_child("q");
    c.add_value(&mut root, "'");
    assert_eq!(root.build(), "<p><q>&#x27;</q></p>");
}

#[test]
fn escaped_quotes_decode_back() {
    let v = "\"a\" & 'b' <c>";
    let mut root = Html::new("p");
    root.add_value(v);
    let out = root.build();
    let inner = &out["<p>".len()..out.len() - "</p>".len()];
    assert_eq!(inner, "&quot;a&quot; &amp; &#x27;b&#x27; &lt;c&gt;");
    assert!(!inner.contains('"') && !inner.contains('\''));
    assert_eq!(html_escape::decode_html_entities(inner), v);
}

#[test]
fn value_replaces_earlier_value() {
    let mut root = Html::new("p");
    root.add_value("one");
    root.add_value("two");
    assert_eq!(root.build(), "<p>two</p>");
}

#[test]
fn children_follow_insertion_order() {
    let mut root = Html::new("ol");
    let c1 = root.add_child("a");
    let c2 = root.add_child("b");
    let c3 = root.add_child("c");
    c1.add_value(&mut root, "1");
    let inner = c2.add_child(&mut root, "i");
    inner.add_value(&mut root, "2");
    c3.add_value(&mut root, "3");
    assert_eq!(root.build(), "<ol><a>1</a><b><i>2</i></b><c>3</c></ol>");
}

#[test]
fn build_twice_gives_same_markup() {
    let mut root = Html::new("div");
    let c = root.add_child("span");
    c.add_value(&mut root, "x < y");
    let first = root.build();
    let second = root.build();
    assert_eq!(first, second);
    assert_eq!(first, "<div><span>x &lt; y</span></div>");
}

#[test]
fn child_discards_text() {
    let mut root = Html::new("a");
    root.add_value("x");
    root.add_child("b");
    let out = root.build();
    assert!(!out.contains('x'));
    assert!(out.contains("<b></b>"));
    assert_eq!(out, "<a><b></b></a>");
}

#[test]
fn child_through_handle_discards_text() {
    let mut root = Html::new("div");
    let p = root.add_child("p");
    p.add_value(&mut root, "x");
    p.add_child(&mut root, "b");
    assert_eq!(root.build(), "<div><p><b></b></p></div>");
}

#[test]
fn value_discards_children() {
    let mut root = Html::new("div");
    root.add_child("p");
    root.add_child("q");
    root.add_value("t");
    assert_eq!(root.build(), "<div>t</div>");
}

#[test]
fn handle_mutation_shows_in_parent() {
    let mut root = Html::new("div");
    let c = root.add_child("p");
    assert_eq!(root.build(), "<div><p></p></div>");
    c.add_value(&mut root, "hello");
    assert_eq!(root.build(), "<div><p>hello</p></div>");
    let copy: Tag = c.clone();
    copy.add_value(&mut root, "bye");
    assert_eq!(root.build(), "<div><p>bye</p></div>");
}

#[test]
fn orphaned_handle_stays_usable() {
    let mut root = Html::new("div");
    let c = root.add_child("p");
    root.add_value("text");
    c.add_value(&mut root, "gone");
    c.add_child(&mut root, "q");
    assert_eq!(root.build(), "<div>text</div>");
}

#[test]
fn deep_nesting() {
    let mut root = Html::new("a");
    let mut t = root.add_child("b");
    for _ in 0..3 {
        t = t.add_child(&mut root, "c");
    }
    t.add_value(&mut root, "&");
    assert_eq!(root.build(), "<a><b><c><c><c>&amp;</c></c></c></b></a>");
}
