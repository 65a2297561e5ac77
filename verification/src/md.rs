//! Markdown-related helpers: rendering through the markdown engine, and
//! byte-aware truncation of extracted text.
use crate::text::spec_trim;
use crate::text::str_chars;
use crate::text::string_from_chars;
use crate::text::trim_chars;
use vstd::prelude::*;

verus! {

/// A link to an introduction to Markdown, for settings descriptions.
pub fn markdown_link() -> (r: &'static str)
    ensures
        r@ == "<a href='https://www.markdownguide.org/'>Markdown</a>"@,
{
    "<a href='https://www.markdownguide.org/'>Markdown</a>"
}

/// What the markdown engine renders for a content string, under this
/// crate's fixed options: a function of the content alone.
pub uninterp spec fn markdown_html(content: Seq<char>) -> Seq<char>;

/// Relies on `markdown::to_html_with_options` with fixed options — GFM
/// tables and footnotes, math, dangerous HTML allowed: the rendered HTML is
/// a function of the content alone, and with these options the call cannot
/// fail (only MDX options can).
#[verifier::external_body]
pub fn content_to_html(content: &str) -> (r: String)
    ensures
        r@ == markdown_html(content@),
{
    let mut parse = markdown::ParseOptions::default();
    parse.constructs.gfm_table = true;
    parse.constructs.math_flow = true;
    parse.constructs.math_text = true;
    parse.constructs.gfm_footnote_definition = true;
    parse.constructs.gfm_label_start_footnote = true;
    let mut options = markdown::Options::default();
    options.compile.allow_dangerous_html = true;
    options.parse = parse;
    markdown::to_html_with_options(content, &options).unwrap()
}

/// How many bytes a character occupies in UTF-8.
pub open spec fn len_utf8(c: char) -> int {
    if (c as int) < 0x80 {
        1
    } else if (c as int) < 0x800 {
        2
    } else if (c as int) < 0x10000 {
        3
    } else {
        4
    }
}

/// The total UTF-8 byte length of a string.
pub open spec fn utf8_len(s: Seq<char>) -> int
    decreases s.len(),
{
    if s.len() == 0 {
        0
    } else {
        len_utf8(s.first()) + utf8_len(s.drop_first())
    }
}

/// The longest prefix whose UTF-8 form fits in `max` bytes.
pub open spec fn take_bytes(s: Seq<char>, max: int) -> Seq<char>
    decreases s.len(),
{
    if s.len() == 0 || len_utf8(s.first()) > max {
        Seq::empty()
    } else {
        seq![s.first()] + take_bytes(s.drop_first(), max - len_utf8(s.first()))
    }
}

/// What truncation leaves: text over `max` UTF-8 bytes is cut at the last
/// character boundary within `max`, and the result is trimmed.
pub open spec fn spec_truncate(s: Seq<char>, max: int) -> Seq<char> {
    if utf8_len(s) > max {
        spec_trim(take_bytes(s, max))
    } else {
        spec_trim(s)
    }
}

fn len_utf8_exec(c: char) -> (r: usize)
    ensures
        r == len_utf8(c),
        1 <= r <= 4,
{
    let v = c as u32;
    if v < 0x80 {
        1
    } else if v < 0x800 {
        2
    } else if v < 0x10000 {
        3
    } else {
        4
    }
}

/// How many leading characters fit in `max` UTF-8 bytes: the count, and
/// whether the whole string fits.
pub fn utf8_prefix(v: &Vec<char>, max: usize) -> (r: (usize, bool))
    ensures
        r.1 == (utf8_len(v@) <= max as int),
        r.0 <= v@.len(),
        !r.1 ==> v@.take(r.0 as int) == take_bytes(v@, max as int),
{
    let n = v.len();
    let mut k: usize = 0;
    let mut used: usize = 0;
    proof {
        assert(v@.skip(0) =~= v@);
        assert(v@.take(0) =~= Seq::<char>::empty());
        assert(utf8_len(Seq::<char>::empty()) == 0);
        assert(v@.take(0) + take_bytes(v@, max as int) =~= take_bytes(v@, max as int));
    }
    while k < n && len_utf8_exec(v[k]) <= max - used
        invariant
            k <= n,
            n == v@.len(),
            used <= max,
            take_bytes(v@, max as int) == v@.take(k as int) + take_bytes(
                v@.skip(k as int),
                max - used,
            ),
            utf8_len(v@) == utf8_len(v@.take(k as int)) + utf8_len(v@.skip(k as int)),
            used == utf8_len(v@.take(k as int)),
        decreases n - k,
    {
        let l = len_utf8_exec(v[k]);
        proof {
            let rest = v@.skip(k as int);
            assert(rest.first() == v@[k as int]);
            assert(rest.drop_first() =~= v@.skip(k + 1));
            assert(take_bytes(rest, max - used) == seq![rest.first()] + take_bytes(
                v@.skip(k + 1),
                max - used - len_utf8(rest.first()),
            ));
            assert(v@.take(k as int) + seq![rest.first()] =~= v@.take(k + 1));
            assert((v@.take(k as int) + seq![rest.first()]) + take_bytes(
                v@.skip(k + 1),
                max - used - len_utf8(rest.first()),
            ) =~= v@.take(k as int) + (seq![rest.first()] + take_bytes(
                v@.skip(k + 1),
                max - used - len_utf8(rest.first()),
            )));
            assert(utf8_len(rest) == len_utf8(rest.first()) + utf8_len(v@.skip(k + 1)));
            assert(v@.take(k + 1) =~= v@.take(k as int).push(v@[k as int]));
            lemma_utf8_len_push(v@.take(k as int), v@[k as int]);
        }
        used += l;
        k += 1;
    }
    if k == n {
        proof {
            assert(v@.skip(k as int).len() == 0);
            assert(utf8_len(v@.skip(k as int)) == 0);
            assert(v@.take(k as int) =~= v@);
        }
        (k, true)
    } else {
        proof {
            let rest = v@.skip(k as int);
            assert(rest.first() == v@[k as int]);
            assert(take_bytes(rest, max - used) =~= Seq::<char>::empty());
            lemma_utf8_len_nonneg(v@.skip(k + 1));
            assert(rest.drop_first() =~= v@.skip(k + 1));
            assert(utf8_len(rest) >= len_utf8(rest.first()));
            assert(utf8_len(v@) > max);
            assert(v@.take(k as int) + Seq::<char>::empty() =~= v@.take(k as int));
        }
        (k, false)
    }
}

/// Shorten text to at most `max_length` UTF-8 bytes, cutting only at
/// character boundaries, and trim the result.
pub fn truncate(text: &str, max_length: usize) -> (r: String)
    ensures
        r@ == spec_truncate(text@, max_length as int),
{
    let v = str_chars(text);
    let (k, fits) = utf8_prefix(&v, max_length);
    if fits {
        let t = trim_chars(&v);
        string_from_chars(&t)
    } else {
        let mut prefix: Vec<char> = Vec::new();
        let mut i: usize = 0;
        while i < k
            invariant
                i <= k <= v@.len(),
                prefix@ == v@.take(i as int),
            decreases k - i,
        {
            prefix.push(v[i]);
            proof {
                assert(v@.take(i + 1) =~= v@.take(i as int).push(v@[i as int]));
            }
            i += 1;
        }
        let t = trim_chars(&prefix);
        string_from_chars(&t)
    }
}

/// Byte length distributes over appending one character.
proof fn lemma_utf8_len_push(s: Seq<char>, c: char)
    ensures
        utf8_len(s.push(c)) == utf8_len(s) + len_utf8(c),
    decreases s.len(),
{
    if s.len() == 0 {
        assert(s.push(c).first() == c);
        assert(s.push(c).drop_first() =~= Seq::<char>::empty());
        assert(utf8_len(Seq::<char>::empty()) == 0);
    } else {
        assert(s.push(c).first() == s.first());
        assert(s.push(c).drop_first() =~= s.drop_first().push(c));
        lemma_utf8_len_push(s.drop_first(), c);
    }
}

/// Byte length is never negative.
proof fn lemma_utf8_len_nonneg(s: Seq<char>)
    ensures
        utf8_len(s) >= 0,
    decreases s.len(),
{
    if s.len() > 0 {
        lemma_utf8_len_nonneg(s.drop_first());
    }
}

} // verus!
