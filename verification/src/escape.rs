//! Text placed in HTML content and attribute values.

use vstd::prelude::*;

verus! {

/// What stands for `c` in escaped text.
pub open spec fn escaped_char(c: char) -> Seq<char> {
    if c == '&' {
        "&amp;"@
    } else if c == '<' {
        "&lt;"@
    } else if c == '>' {
        "&gt;"@
    } else if c == '"' {
        "&quot;"@
    } else if c == '\'' {
        "&#39;"@
    } else {
        seq![c]
    }
}

/// `text` with each character replaced by what stands for it.
pub open spec fn escaped(text: Seq<char>) -> Seq<char>
    decreases text.len(),
{
    if text.len() == 0 {
        Seq::empty()
    } else {
        escaped_char(text[0]) + escaped(text.skip(1))
    }
}

/// Characters that end text content or a quoted attribute value, or start a tag.
pub open spec fn is_markup(c: char) -> bool {
    c == '<' || c == '>' || c == '"' || c == '\''
}

/// The markup characters of `text`, in order.
pub open spec fn markup_in(text: Seq<char>) -> Seq<char>
    decreases text.len(),
{
    if text.len() == 0 {
        Seq::empty()
    } else if is_markup(text.last()) {
        markup_in(text.drop_last()).push(text.last())
    } else {
        markup_in(text.drop_last())
    }
}

/// Whether `text` begins with what stands for `c`.
pub open spec fn begins_with(text: Seq<char>, c: char) -> bool {
    let head = escaped_char(c);
    0 < head.len() <= text.len() && text.take(head.len() as int) == head
}

/// What follows what stands for `c` at the beginning of `text`.
pub open spec fn after(text: Seq<char>, c: char) -> Seq<char> {
    text.skip(escaped_char(c).len() as int)
}

/// `text` with the five character references that escaping writes read back.
#[verifier::opaque]
pub open spec fn unescaped(text: Seq<char>) -> Seq<char>
    decreases text.len(),
{
    if text.len() == 0 {
        Seq::empty()
    } else if begins_with(text, '&') {
        seq!['&'] + unescaped(after(text, '&'))
    } else if begins_with(text, '<') {
        seq!['<'] + unescaped(after(text, '<'))
    } else if begins_with(text, '>') {
        seq!['>'] + unescaped(after(text, '>'))
    } else if begins_with(text, '"') {
        seq!['"'] + unescaped(after(text, '"'))
    } else if begins_with(text, '\'') {
        seq!['\''] + unescaped(after(text, '\''))
    } else {
        seq![text[0]] + unescaped(text.skip(1))
    }
}

/// The five special characters become the references that stand for them in HTML.
pub proof fn lemma_special_characters_become_references()
    ensures
        escaped(seq!['&']) == seq!['&', 'a', 'm', 'p', ';'],
        escaped(seq!['<']) == seq!['&', 'l', 't', ';'],
        escaped(seq!['>']) == seq!['&', 'g', 't', ';'],
        escaped(seq!['"']) == seq!['&', 'q', 'u', 'o', 't', ';'],
        escaped(seq!['\'']) == seq!['&', '#', '3', '9', ';'],
{
    lemma_references();
    lemma_escaped_char('&');
    lemma_escaped_char('<');
    lemma_escaped_char('>');
    lemma_escaped_char('"');
    lemma_escaped_char('\'');
}

proof fn lemma_escaped_char(c: char)
    ensures
        escaped(seq![c]) == escaped_char(c),
{
    assert(seq![c].skip(1) =~= Seq::<char>::empty());
    assert(escaped(Seq::<char>::empty()) =~= Seq::<char>::empty());
    assert(escaped(seq![c]) =~= escaped_char(c));
}

/// The characters of the five references.
proof fn lemma_references()
    ensures
        escaped_char('&') =~= seq!['&', 'a', 'm', 'p', ';'],
        escaped_char('<') =~= seq!['&', 'l', 't', ';'],
        escaped_char('>') =~= seq!['&', 'g', 't', ';'],
        escaped_char('"') =~= seq!['&', 'q', 'u', 'o', 't', ';'],
        escaped_char('\'') =~= seq!['&', '#', '3', '9', ';'],
{
    reveal_strlit("&amp;");
    reveal_strlit("&lt;");
    reveal_strlit("&gt;");
    reveal_strlit("&quot;");
    reveal_strlit("&#39;");
}

/// Escaped text holds no character that could end the content or attribute
/// value it is placed in.
pub proof fn lemma_escaped_has_no_markup(text: Seq<char>)
    ensures
        forall|i: int| 0 <= i < escaped(text).len() ==> !is_markup(#[trigger] escaped(text)[i]),
    decreases text.len(),
{
    if text.len() > 0 {
        lemma_references();
        lemma_escaped_has_no_markup(text.skip(1));
        let head = escaped_char(text[0]);
        let rest = escaped(text.skip(1));
        assert forall|i: int| 0 <= i < escaped(text).len() implies !is_markup(
            #[trigger] escaped(text)[i],
        ) by {
            if i < head.len() {
                assert(escaped(text)[i] == head[i]);
            } else {
                assert(escaped(text)[i] == rest[i - head.len()]);
            }
        }
    }
}

/// Reading the references of an escaped text gives the text back.
pub proof fn lemma_unescape_inverts_escape(text: Seq<char>)
    ensures
        unescaped(escaped(text)) == text,
    decreases text.len(),
{
    reveal(unescaped);
    if text.len() > 0 {
        lemma_references();
        lemma_unescape_inverts_escape(text.skip(1));
        let head = escaped_char(text[0]);
        let rest = escaped(text.skip(1));
        let whole = escaped(text);
        assert(whole.take(head.len() as int) =~= head);
        assert(whole.skip(head.len() as int) =~= rest);
        assert forall|c: char| #[trigger] escaped_char(c).len() > 1 && begins_with(
            whole,
            c,
        ) implies c == text[0] by {
            assert(whole.take(escaped_char(c).len() as int)[0] == escaped_char(c)[0]);
            assert(whole.take(escaped_char(c).len() as int)[1] == escaped_char(c)[1]);
            if text[0] == '&' || text[0] == '<' || text[0] == '>' || text[0] == '"' || text[0]
                == '\'' {
                assert(whole[1] == head[1]);
            } else {
                assert(whole[0] == text[0]);
            }
        }
        assert(seq![text[0]] + text.skip(1) =~= text);
    } else {
        assert(text =~= Seq::<char>::empty());
    }
}

/// Two texts with the same escaped form are the same text.
pub proof fn lemma_escape_is_injective(a: Seq<char>, b: Seq<char>)
    requires
        escaped(a) == escaped(b),
    ensures
        a == b,
{
    lemma_unescape_inverts_escape(a);
    lemma_unescape_inverts_escape(b);
}

/// The parts of a text are escaped independently of each other.
pub proof fn lemma_escaped_concat(a: Seq<char>, b: Seq<char>)
    ensures
        escaped(a + b) == escaped(a) + escaped(b),
    decreases a.len(),
{
    if a.len() == 0 {
        assert(a + b =~= b);
        assert(escaped(a) + escaped(b) =~= escaped(b));
    } else {
        lemma_escaped_concat(a.skip(1), b);
        assert((a + b).skip(1) =~= a.skip(1) + b);
        assert(escaped(a + b) =~= escaped_char(a[0]) + (escaped(a.skip(1)) + escaped(b)));
        assert(escaped(a) + escaped(b) =~= escaped_char(a[0]) + (escaped(a.skip(1)) + escaped(b)));
    }
}

/// The markup of a text is that of its parts.
pub proof fn lemma_markup_concat(a: Seq<char>, b: Seq<char>)
    ensures
        markup_in(a + b) == markup_in(a) + markup_in(b),
    decreases b.len(),
{
    if b.len() == 0 {
        assert(a + b =~= a);
        assert(markup_in(a) + markup_in(b) =~= markup_in(a));
    } else {
        lemma_markup_concat(a, b.drop_last());
        assert((a + b).drop_last() =~= a + b.drop_last());
        assert(markup_in(a + b) =~= markup_in(a) + markup_in(b));
    }
}

/// A text without markup characters has no markup.
pub proof fn lemma_no_markup(text: Seq<char>)
    requires
        forall|i: int| 0 <= i < text.len() ==> !is_markup(#[trigger] text[i]),
    ensures
        markup_in(text) == Seq::<char>::empty(),
    decreases text.len(),
{
    if text.len() > 0 {
        lemma_no_markup(text.drop_last());
    }
}

/// Text without `&` and markup characters is left as it is.
pub proof fn lemma_plain_text_is_unchanged(text: Seq<char>)
    requires
        forall|i: int| 0 <= i < text.len() ==> #[trigger] text[i] != '&' && !is_markup(text[i]),
    ensures
        escaped(text) == text,
    decreases text.len(),
{
    if text.len() > 0 {
        assert forall|i: int| 0 <= i < text.skip(1).len() implies #[trigger] text.skip(1)[i] != '&'
            && !is_markup(text.skip(1)[i]) by {
            assert(text.skip(1)[i] == text[i + 1]);
        }
        lemma_plain_text_is_unchanged(text.skip(1));
        assert(seq![text[0]] + text.skip(1) =~= text);
    } else {
        assert(escaped(text) =~= text);
    }
}

/// Escapes `value` for HTML content and quoted attribute values: `&`, `<`,
/// `>`, `"` and `'` become character references, every other character stays.
pub fn escape_html(value: &str) -> (result: String)
    ensures
        result@ == escaped(value@),
{
    let mut result = String::new();
    assert(value@.skip(0) =~= value@);
    for c in it: value.chars()
        invariant
            it.seq() == value@,
            result@ + escaped(value@.skip(it.index())) == escaped(value@),
    {
        let ghost before = result@;
        let ghost rest = value@.skip(it.index());
        if c == '&' {
            result.append("&amp;");
        } else if c == '<' {
            result.append("&lt;");
        } else if c == '>' {
            result.append("&gt;");
        } else if c == '"' {
            result.append("&quot;");
        } else if c == '\'' {
            result.append("&#39;");
        } else {
            result.push(c);
        }
        proof {
            assert(rest[0] == c);
            assert(result@ =~= before + escaped_char(c));
            assert(rest.skip(1) =~= value@.skip(it.index() + 1));
            assert(result@ + escaped(rest.skip(1)) =~= before + escaped(rest));
        }
    }
    assert(value@.skip(value@.len() as int) =~= Seq::empty());
    assert(result@ + escaped(Seq::empty()) =~= result@);
    result
}

} // verus!
