//! The data model: posts, key-value entries, and content cleanup.
//!
//! Reading and writing these to storage is the host application's business;
//! the types and the content normalisation live here.
use crate::date::DateTime;
use crate::text::first_nl;
use crate::text::lemma_first_nl;
use crate::text::spec_trim;
use crate::text::spec_trim_end;
use crate::text::str_chars;
use crate::text::string_from_chars;
use crate::text::trim_chars;
use crate::text::trim_end_chars;
use vstd::prelude::*;

verus! {

/// A key-value entry.
#[derive(Clone, Debug)]
pub struct Kv {
    pub key: String,
    pub value: Vec<u8>,
}

/// A weblog post.
#[derive(Clone, Debug)]
pub struct Post {
    /// The id of the post.
    pub id: i64,
    /// The date and time the post was created.
    pub created: DateTime,
    /// The date and time the post was last updated.
    pub updated: DateTime,
    /// The content of the post.
    pub content: String,
}

/// Each line with its trailing whitespace removed, lines joined back with
/// single newlines; a final newline terminates the last line rather than
/// opening an empty one.
pub open spec fn cleaned_lines(s: Seq<char>) -> Seq<char>
    decreases s.len(),
{
    if s.len() == 0 {
        Seq::empty()
    } else {
        let i = first_nl(s);
        if !(0 <= i < s.len()) {
            spec_trim_end(s)
        } else if s.skip(i + 1).len() == 0 {
            spec_trim_end(s.take(i))
        } else {
            spec_trim_end(s.take(i)) + seq!['\n'] + cleaned_lines(s.skip(i + 1))
        }
    }
}

/// What cleanup produces: trailing whitespace gone from every line, leading
/// and trailing blank space gone from the whole, one final newline.
pub open spec fn spec_cleanup_content(s: Seq<char>) -> Seq<char> {
    spec_trim(cleaned_lines(s)).push('\n')
}

/// Cleanup user-provided content before storing it.
///
/// Removes trailing whitespace and trailing empty lines.
pub fn cleanup_content(content: &str) -> (r: String)
    ensures
        r@ == spec_cleanup_content(content@),
{
    let v = str_chars(content);
    let n: usize = v.len();
    let mut joined: Vec<char> = Vec::new();
    let mut pos: usize = 0;
    proof {
        assert(v@.skip(0) =~= v@);
    }
    while pos < n
        invariant
            0 <= pos <= n,
            n == v@.len(),
            cleaned_lines(v@) == joined@ + cleaned_lines(v@.skip(pos as int)),
        decreases n - pos,
    {
        let ghost rest = v@.skip(pos as int);
        // Find the end of the current line.
        let mut i: usize = pos;
        while i < n && v[i] != '\n'
            invariant
                pos <= i <= n,
                n == v@.len(),
                forall|k: int| pos <= k < i ==> v@[k] != '\n',
            decreases n - i,
        {
            i += 1;
        }
        proof {
            assert(forall|k: int| 0 <= k < i - pos ==> rest[k] != '\n');
            if i < n {
                assert(rest[i - pos] == '\n');
            }
            lemma_first_nl(rest, i - pos);
        }
        let mut line: Vec<char> = Vec::new();
        let mut k: usize = pos;
        while k < i
            invariant
                pos <= k <= i <= n,
                n == v@.len(),
                line@ == v@.subrange(pos as int, k as int),
            decreases i - k,
        {
            line.push(v[k]);
            proof {
                assert(v@.subrange(pos as int, k + 1) == v@.subrange(pos as int, k as int).push(
                    v@[k as int],
                ));
            }
            k += 1;
        }
        let trimmed = trim_end_chars(&line);
        proof {
            assert(line@ =~= rest.take(i - pos));
        }
        crate::text::push_all(&mut joined, &trimmed);
        if i < n && i + 1 < n {
            joined.push('\n');
            proof {
                assert(rest.skip(i - pos + 1) =~= v@.skip(i + 1));
                assert(rest.skip(i - pos + 1).len() > 0);
                assert(cleaned_lines(rest) == spec_trim_end(rest.take(i - pos)) + seq!['\n']
                    + cleaned_lines(v@.skip(i + 1)));
            }
            pos = i + 1;
        } else {
            proof {
                if i < n {
                    assert(rest.skip(i - pos + 1) =~= v@.skip(i + 1));
                    assert(rest.skip(i - pos + 1).len() == 0);
                    assert(cleaned_lines(rest) == spec_trim_end(rest.take(i - pos)));
                } else {
                    assert(rest.take(i - pos) =~= rest);
                    assert(cleaned_lines(rest) == spec_trim_end(rest));
                    assert(spec_trim_end(rest.take(i - pos)) == spec_trim_end(rest));
                }
                assert(v@.skip(n as int).len() == 0);
                assert(cleaned_lines(v@.skip(n as int)) == Seq::<char>::empty());
            }
            pos = n;
        }
    }
    proof {
        assert(v@.skip(0) =~= v@);
        assert(cleaned_lines(v@.skip(n as int)) == Seq::<char>::empty());
        assert(joined@ == cleaned_lines(v@));
    }
    let mut out = trim_chars(&joined);
    out.push('\n');
    string_from_chars(&out)
}

} // verus!
