//! Escaping of text content.
use vstd::prelude::*;

verus! {

/// The entity that stands for `&`.
pub open spec fn amp_entity() -> Seq<char> {
    seq!['&', 'a', 'm', 'p', ';']
}

/// The entity that stands for `<`.
pub open spec fn lt_entity() -> Seq<char> {
    seq!['&', 'l', 't', ';']
}

/// The entity that stands for `>`.
pub open spec fn gt_entity() -> Seq<char> {
    seq!['&', 'g', 't', ';']
}

/// The entity that stands for `"`.
pub open spec fn quot_entity() -> Seq<char> {
    seq!['&', 'q', 'u', 'o', 't', ';']
}

/// The entity that stands for `'`.
pub open spec fn apos_entity() -> Seq<char> {
    seq!['&', '#', 'x', '2', '7', ';']
}

/// How one character of text is written in markup.
pub open spec fn escape_char(c: char) -> Seq<char> {
    if c == '&' {
        amp_entity()
    } else if c == '<' {
        lt_entity()
    } else if c == '>' {
        gt_entity()
    } else if c == '"' {
        quot_entity()
    } else if c == '\'' {
        apos_entity()
    } else {
        seq![c]
    }
}

/// Text with every `&`, `<`, `>`, `"` and `'` replaced by its entity.
pub open spec fn escape_text(s: Seq<char>) -> Seq<char>
    decreases s.len(),
{
    if s.len() == 0 {
        Seq::empty()
    } else {
        escape_char(s[0]) + escape_text(s.drop_first())
    }
}

/// Reads the five entities back as the characters they stand for.
pub open spec fn unescape_text(s: Seq<char>) -> Seq<char>
    decreases s.len(),
{
    if s.len() == 0 {
        Seq::empty()
    } else if s.len() >= 5 && s.take(5) == amp_entity() {
        seq!['&'] + unescape_text(s.skip(5))
    } else if s.len() >= 4 && s.take(4) == lt_entity() {
        seq!['<'] + unescape_text(s.skip(4))
    } else if s.len() >= 4 && s.take(4) == gt_entity() {
        seq!['>'] + unescape_text(s.skip(4))
    } else if s.len() >= 6 && s.take(6) == quot_entity() {
        seq!['"'] + unescape_text(s.skip(6))
    } else if s.len() >= 6 && s.take(6) == apos_entity() {
        seq!['\''] + unescape_text(s.skip(6))
    } else {
        seq![s[0]] + unescape_text(s.drop_first())
    }
}

/// An entity starts at position `k` of `e`.
pub open spec fn entity_at(e: Seq<char>, k: int) -> bool {
    ||| (k + 5 <= e.len() && e.subrange(k, k + 5) == amp_entity())
    ||| (k + 4 <= e.len() && e.subrange(k, k + 4) == lt_entity())
    ||| (k + 4 <= e.len() && e.subrange(k, k + 4) == gt_entity())
    ||| (k + 6 <= e.len() && e.subrange(k, k + 6) == quot_entity())
    ||| (k + 6 <= e.len() && e.subrange(k, k + 6) == apos_entity())
}

/// `e` holds no `<`, `>`, `"` or `'`, and each `&` in it opens an entity.
pub open spec fn is_escaped(e: Seq<char>) -> bool {
    forall|k: int|
        0 <= k < e.len() ==> #[trigger] e[k] != '<' && e[k] != '>' && e[k] != '"' && e[k] != '\''
            && (e[k] == '&' ==> entity_at(e, k))
}

/// Relies on html_escape::encode_quoted_attribute: `&`, `<`, `>`, `"` and
/// `'` become `&amp;`, `&lt;`, `&gt;`, `&quot;` and `&#x27;`, and every other
/// character is kept as it is.
#[verifier::external_body]
pub(crate) fn encode_quoted(value: &str) -> (r: String)
    ensures
        r@ == escape_text(value@),
{
    html_escape::encode_quoted_attribute(value).into_owned()
}

/// Unescaping escaped text gives the text back.
pub proof fn lemma_unescape_escape(s: Seq<char>)
    ensures
        unescape_text(escape_text(s)) == s,
    decreases s.len(),
{
    if s.len() > 0 {
        let c = s[0];
        let t = escape_text(s.drop_first());
        lemma_unescape_escape(s.drop_first());
        let e = escape_text(s);
        let h = escape_char(c);
        assert(e == h + t);
        if h.len() > 1 {
            assert(e.skip(h.len() as int) =~= t);
            assert(e.take(h.len() as int) =~= h);
            assert(e[1] == h[1]);
            assert(e.len() >= 4 ==> e.take(4)[1] == e[1]);
            assert(e.len() >= 5 ==> e.take(5)[1] == e[1]);
            assert(e.len() >= 6 ==> e.take(6)[1] == e[1]);
        } else {
            assert(e[0] == c);
            assert(e.len() >= 4 ==> e.take(4)[0] == c);
            assert(e.len() >= 5 ==> e.take(5)[0] == c);
            assert(e.len() >= 6 ==> e.take(6)[0] == c);
            assert(e.drop_first() =~= t);
        }
        assert(seq![c] + s.drop_first() =~= s);
    }
}

/// Escaped text holds no `<`, `>`, `"` or `'`, and each `&` in it opens an
/// entity.
pub proof fn lemma_escape_is_escaped(s: Seq<char>)
    ensures
        is_escaped(escape_text(s)),
    decreases s.len(),
{
    if s.len() > 0 {
        let c = s[0];
        let h = escape_char(c);
        let t = escape_text(s.drop_first());
        lemma_escape_is_escaped(s.drop_first());
        let e = escape_text(s);
        assert(e == h + t);
        assert forall|k: int| 0 <= k < e.len() implies #[trigger] e[k] != '<' && e[k] != '>'
            && e[k] != '"' && e[k] != '\'' && (e[k] == '&' ==> entity_at(e, k)) by {
            if k < h.len() {
                if e[k] == '&' {
                    assert(k == 0);
                    assert(e.subrange(0, h.len() as int) =~= h);
                }
            } else {
                let j = k - h.len();
                assert(e[k] == t[j]);
                if e[k] == '&' {
                    assert(entity_at(t, j));
                    if j + 4 <= t.len() {
                        assert(e.subrange(k, k + 4) =~= t.subrange(j, j + 4));
                    }
                    if j + 5 <= t.len() {
                        assert(e.subrange(k, k + 5) =~= t.subrange(j, j + 5));
                    }
                    if j + 6 <= t.len() {
                        assert(e.subrange(k, k + 6) =~= t.subrange(j, j + 6));
                    }
                }
            }
        }
    }
}

} // verus!
