//! Discovery-protocol helpers: XML headers and escaping.
use crate::text::str_chars;
use crate::text::string_from_chars;
use vstd::prelude::*;

verus! {

/// The XML declaration, newline-terminated.
pub fn xml_header() -> (r: &'static str)
    ensures
        r@ == "<?xml version=\"1.0\" encoding=\"UTF-8\"?>\n"@,
{
    "<?xml version=\"1.0\" encoding=\"UTF-8\"?>\n"
}

/// The XML entity for a character: the five special characters escape, all
/// others stand for themselves.
pub open spec fn xml_entity(c: char) -> Seq<char> {
    if c == '&' {
        "&amp;"@
    } else if c == '<' {
        "&lt;"@
    } else if c == '>' {
        "&gt;"@
    } else if c == '"' {
        "&quot;"@
    } else if c == '\'' {
        "&apos;"@
    } else {
        seq![c]
    }
}

/// The text with every special character escaped.
pub open spec fn spec_escape_xml(s: Seq<char>) -> Seq<char>
    decreases s.len(),
{
    if s.len() == 0 {
        Seq::empty()
    } else {
        xml_entity(s.first()) + spec_escape_xml(s.drop_first())
    }
}

proof fn lemma_escape_xml_push(s: Seq<char>, x: char)
    ensures
        spec_escape_xml(s.push(x)) == spec_escape_xml(s) + xml_entity(x),
    decreases s.len(),
{
    if s.len() == 0 {
        assert(s.push(x).first() == x);
        assert(s.push(x).drop_first() =~= Seq::<char>::empty());
        assert(spec_escape_xml(Seq::<char>::empty()) == Seq::<char>::empty());
        assert(xml_entity(x) + Seq::<char>::empty() =~= xml_entity(x));
        assert(spec_escape_xml(s) + xml_entity(x) =~= xml_entity(x));
    } else {
        assert(s.push(x).first() == s.first());
        assert(s.push(x).drop_first() =~= s.drop_first().push(x));
        lemma_escape_xml_push(s.drop_first(), x);
        assert(xml_entity(s.first()) + (spec_escape_xml(s.drop_first()) + xml_entity(x)) =~= (
        xml_entity(s.first()) + spec_escape_xml(s.drop_first())) + xml_entity(x));
    }
}

/// Escape text for embedding in XML.
pub fn escape_xml(s: &str) -> (r: String)
    ensures
        r@ == spec_escape_xml(s@),
{
    let v = str_chars(s);
    let amp = str_chars("&amp;");
    let lt = str_chars("&lt;");
    let gt = str_chars("&gt;");
    let quot = str_chars("&quot;");
    let apos = str_chars("&apos;");
    let mut out: Vec<char> = Vec::new();
    let mut i: usize = 0;
    while i < v.len()
        invariant
            i <= v@.len(),
            amp@ == "&amp;"@,
            lt@ == "&lt;"@,
            gt@ == "&gt;"@,
            quot@ == "&quot;"@,
            apos@ == "&apos;"@,
            out@ == spec_escape_xml(v@.take(i as int)),
        decreases v@.len() - i,
    {
        let c = v[i];
        if c == '&' {
            crate::text::push_all(&mut out, &amp);
        } else if c == '<' {
            crate::text::push_all(&mut out, &lt);
        } else if c == '>' {
            crate::text::push_all(&mut out, &gt);
        } else if c == '"' {
            crate::text::push_all(&mut out, &quot);
        } else if c == '\'' {
            crate::text::push_all(&mut out, &apos);
        } else {
            out.push(c);
        }
        proof {
            lemma_escape_xml_push(v@.take(i as int), v@[i as int]);
            assert(v@.take(i + 1) =~= v@.take(i as int).push(v@[i as int]));
            if !(c == '&' || c == '<' || c == '>' || c == '"' || c == '\'') {
                assert(out@ =~= spec_escape_xml(v@.take(i as int)) + xml_entity(c));
            }
        }
        i += 1;
    }
    proof {
        assert(v@.take(v@.len() as int) =~= v@);
    }
    string_from_chars(&out)
}

} // verus!
