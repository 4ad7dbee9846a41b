//! Texts made safe for where they are put.

use crate::json;
use crate::json::json_quoted;
use crate::text;
use crate::text::{contains_text, occurs_at, replaced, Text};
use vstd::prelude::*;

verus! {

/// A character inside a `data:` URL in an attribute.
pub open spec fn url_char(c: char) -> Text {
    if c == '%' {
        "%25"@
    } else if c == '#' {
        "%23"@
    } else if c == '<' {
        "%3C"@
    } else if c == '>' {
        "%3E"@
    } else if c == '"' {
        "%22"@
    } else {
        seq![c]
    }
}

/// A text inside a `data:` URL in an attribute.
pub open spec fn url_encoded(s: Text) -> Text
    decreases s.len(),
{
    if s.len() == 0 {
        Seq::empty()
    } else {
        url_encoded(s.drop_last()) + url_char(s.last())
    }
}

/// A character inside HTML.
pub open spec fn html_char(c: char) -> Text {
    if c == '&' {
        "&amp;"@
    } else if c == '<' {
        "&lt;"@
    } else if c == '>' {
        "&gt;"@
    } else if c == '"' {
        "&quot;"@
    } else if c == '\'' {
        "&#39;"@
    } else {
        seq![c]
    }
}

/// A text inside HTML.
pub open spec fn html_escaped(s: Text) -> Text
    decreases s.len(),
{
    if s.len() == 0 {
        Seq::empty()
    } else {
        html_escaped(s.drop_last()) + html_char(s.last())
    }
}

/// A character of a name inside the id of a node.
pub open spec fn id_char(c: char) -> Text {
    if c == '-' || c == '/' {
        seq!['_']
    } else if c == '@' {
        Seq::empty()
    } else {
        seq![c]
    }
}

/// The id of the node for a name.
pub open spec fn node_id(s: Text) -> Text
    decreases s.len(),
{
    if s.len() == 0 {
        Seq::empty()
    } else {
        node_id(s.drop_last()) + id_char(s.last())
    }
}

/// A text inside a script, unable to end it.
pub open spec fn script_safe(s: Text) -> Text {
    replaced(s, "</"@, "<\\/"@)
}

/// A text as a string literal inside a script.
pub open spec fn script_string(s: Text) -> Text {
    script_safe(json_quoted(s))
}

/// The text for a `data:` URL in an attribute.
pub fn url_encode_svg(svg: &str) -> (r: String)
    ensures
        r@ == url_encoded(svg@),
{
    let chars = text::chars_of(svg);
    let mut out: String = String::new();
    let mut i: usize = 0;
    assert(chars@.take(0) =~= Seq::<char>::empty());
    while i < chars.len()
        invariant
            i <= chars.len(),
            out@ == url_encoded(chars@.take(i as int)),
        decreases chars.len() - i,
    {
        assert(chars@.take(i + 1).drop_last() =~= chars@.take(i as int));
        let c = chars[i];
        if c == '%' {
            out.append("%25");
        } else if c == '#' {
            out.append("%23");
        } else if c == '<' {
            out.append("%3C");
        } else if c == '>' {
            out.append("%3E");
        } else if c == '"' {
            out.append("%22");
        } else {
            let ghost before = out@;
            out.push(c);
            assert(out@ =~= before + seq![c]);
        }
        i += 1;
    }
    assert(chars@.take(i as int) =~= chars@);
    out
}

/// The text for HTML.
pub fn html_escape(s: &str) -> (r: String)
    ensures
        r@ == html_escaped(s@),
{
    let chars = text::chars_of(s);
    let mut out: String = String::new();
    let mut i: usize = 0;
    assert(chars@.take(0) =~= Seq::<char>::empty());
    while i < chars.len()
        invariant
            i <= chars.len(),
            out@ == html_escaped(chars@.take(i as int)),
        decreases chars.len() - i,
    {
        assert(chars@.take(i + 1).drop_last() =~= chars@.take(i as int));
        let c = chars[i];
        if c == '&' {
            out.append("&amp;");
        } else if c == '<' {
            out.append("&lt;");
        } else if c == '>' {
            out.append("&gt;");
        } else if c == '"' {
            out.append("&quot;");
        } else if c == '\'' {
            out.append("&#39;");
        } else {
            let ghost before = out@;
            out.push(c);
            assert(out@ =~= before + seq![c]);
        }
        i += 1;
    }
    assert(chars@.take(i as int) =~= chars@);
    out
}

/// The id of the node for a name.
pub fn sanitize_node_id(name: &str) -> (r: String)
    ensures
        r@ == node_id(name@),
{
    let chars = text::chars_of(name);
    let mut out: String = String::new();
    let mut i: usize = 0;
    assert(chars@.take(0) =~= Seq::<char>::empty());
    while i < chars.len()
        invariant
            i <= chars.len(),
            out@ == node_id(chars@.take(i as int)),
        decreases chars.len() - i,
    {
        assert(chars@.take(i + 1).drop_last() =~= chars@.take(i as int));
        let c = chars[i];
        let ghost before = out@;
        if c == '-' || c == '/' {
            out.push('_');
            assert(out@ =~= before + seq!['_']);
        } else if c == '@' {
            assert(out@ =~= before + Seq::<char>::empty());
        } else {
            out.push(c);
            assert(out@ =~= before + seq![c]);
        }
        i += 1;
    }
    assert(chars@.take(i as int) =~= chars@);
    out
}

/// The text, unable to end a script.
pub fn escape_script_close(json: &str) -> (r: String)
    ensures
        r@ == script_safe(json@),
{
    proof {
        reveal_strlit("</");
    }
    text::replace(json, "</", "<\\/")
}

/// The text as a string literal inside a script.
pub fn js_str(s: &str) -> (r: String)
    ensures
        r@ == script_string(s@),
{
    escape_script_close(json::quote_json(s).as_str())
}

/// A character that ends an attribute, a tag or a URL before its fragment.
pub open spec fn breaks_url(c: char) -> bool {
    c == '#' || c == '<' || c == '>' || c == '"'
}

/// A text in a `data:` URL ends neither the URL nor its attribute.
pub proof fn lemma_url_encoded_safe(s: Text)
    ensures
        forall|i: int| 0 <= i < url_encoded(s).len() ==> !breaks_url(#[trigger] url_encoded(s)[i]),
    decreases s.len(),
{
    if s.len() > 0 {
        lemma_url_encoded_safe(s.drop_last());
        reveal_strlit("%25");
        reveal_strlit("%23");
        reveal_strlit("%3C");
        reveal_strlit("%3E");
        reveal_strlit("%22");
        let before = url_encoded(s.drop_last());
        assert forall|i: int| 0 <= i < url_encoded(s).len() implies !breaks_url(
            #[trigger] url_encoded(s)[i],
        ) by {
            if i < before.len() {
                assert(url_encoded(s)[i] == before[i]);
            } else {
                assert(url_encoded(s)[i] == url_char(s.last())[i - before.len()]);
            }
        }
    }
}

/// A character that ends a text or an attribute in HTML.
pub open spec fn breaks_html(c: char) -> bool {
    c == '<' || c == '>' || c == '"' || c == '\''
}

/// A text in HTML opens no tag and ends no attribute.
pub proof fn lemma_html_escaped_safe(s: Text)
    ensures
        forall|i: int|
            0 <= i < html_escaped(s).len() ==> !breaks_html(#[trigger] html_escaped(s)[i]),
    decreases s.len(),
{
    if s.len() > 0 {
        lemma_html_escaped_safe(s.drop_last());
        reveal_strlit("&amp;");
        reveal_strlit("&lt;");
        reveal_strlit("&gt;");
        reveal_strlit("&quot;");
        reveal_strlit("&#39;");
        let before = html_escaped(s.drop_last());
        assert forall|i: int| 0 <= i < html_escaped(s).len() implies !breaks_html(
            #[trigger] html_escaped(s)[i],
        ) by {
            if i < before.len() {
                assert(html_escaped(s)[i] == before[i]);
            } else {
                assert(html_escaped(s)[i] == html_char(s.last())[i - before.len()]);
            }
        }
    }
}

/// A text inside a script holds no `</`, and so cannot end the script.
pub proof fn lemma_script_safe(s: Text)
    ensures
        !contains_text(script_safe(s), "</"@),
        script_safe(s).len() > 0 && script_safe(s)[0] == '/' ==> s.len() > 0 && s[0] == '/',
    decreases s.len(),
{
    let p = "</"@;
    let q = "<\\/"@;
    reveal_strlit("</");
    reveal_strlit("<\\/");
    let all = script_safe(s);
    if s.len() < 2 {
    } else if s.subrange(0, 2) == p {
        let rest = script_safe(s.skip(2));
        lemma_script_safe(s.skip(2));
        assert(all == q + rest);
        assert forall|k: int| !#[trigger] occurs_at(all, p, k) by {
            if occurs_at(all, p, k) {
                assert(all[k] == all.subrange(k, k + 2)[0]);
                assert(all[k + 1] == all.subrange(k, k + 2)[1]);
                assert(k >= 3);
                assert(rest.subrange(k - 3, k - 1) =~= p);
                assert(occurs_at(rest, p, k - 3));
            }
        }
    } else {
        let rest = script_safe(s.skip(1));
        lemma_script_safe(s.skip(1));
        assert(all == seq![s[0]] + rest);
        assert forall|k: int| !#[trigger] occurs_at(all, p, k) by {
            if occurs_at(all, p, k) {
                assert(all[k] == all.subrange(k, k + 2)[0]);
                assert(all[k + 1] == all.subrange(k, k + 2)[1]);
                if k == 0 {
                    assert(rest[0] == '/');
                    assert(s.subrange(0, 2) =~= p);
                } else {
                    assert(rest.subrange(k - 1, k + 1) =~= p);
                    assert(occurs_at(rest, p, k - 1));
                }
            }
        }
    }
}

} // verus!
