//! HTML fragments and page chrome, built by plain string assembly.
use crate::data::Post;
use crate::date::DateTime;
use crate::date::epoch_seconds;
use crate::date::spec_format_date;
use crate::date::spec_format_datetime;
use crate::date::valid_datetime;
use crate::text::dec_int;
use crate::text::dec_nat;
use crate::text::push_all;
use crate::text::push_i64;
use crate::text::push_u64;
use crate::text::str_chars;
use crate::text::string_from_chars;
use crate::text::chomp_cr;
use crate::text::contains_chars;
use crate::text::find_chars;
use crate::text::find_chars_from;
use crate::text::first_at;
use crate::text::first_nl;
use crate::text::lemma_first_at;
use crate::text::lemma_first_nl;
use crate::text::lemma_spec_find;
use crate::text::match_at;
use crate::text::spec_contains;
use crate::text::spec_find;
use crate::text::spec_starts_with;
use crate::text::spec_trim;
use crate::text::starts_with_chars;
use crate::text::trim_chars;
use vstd::prelude::*;
use vstd::string::StringExecFns;

verus! {

/// The decimal text of a natural number.
pub fn u64_string(n: u64) -> (r: String)
    ensures
        r@ == dec_nat(n as nat),
{
    let mut out: Vec<char> = Vec::new();
    push_u64(&mut out, n);
    string_from_chars(&out)
}

/// The decimal text of an integer, sign included.
pub fn i64_string(n: i64) -> (r: String)
    ensures
        r@ == dec_int(n as int),
{
    let mut out: Vec<char> = Vec::new();
    push_i64(&mut out, n);
    string_from_chars(&out)
}

/// The bottom border used to separate front-page previews.
pub open spec fn spec_border_style(width: nat) -> Seq<char> {
    "border-bottom: "@ + dec_nat(width) + "px solid var(--border); border-radius: 0px;"@
}

pub fn border_style(width: u64) -> (r: String)
    ensures
        r@ == spec_border_style(width as nat),
{
    let r = String::from_str("border-bottom: ").concat(u64_string(width).as_str()).concat(
        "px solid var(--border); border-radius: 0px;",
    );
    r
}

/// Every single quote replaced by its HTML entity.
pub open spec fn spec_escape_single_quote(s: Seq<char>) -> Seq<char>
    decreases s.len(),
{
    if s.len() == 0 {
        Seq::empty()
    } else if s.first() == '\'' {
        "&#39;"@ + spec_escape_single_quote(s.drop_first())
    } else {
        seq![s.first()] + spec_escape_single_quote(s.drop_first())
    }
}

proof fn lemma_escape_single_quote_push(s: Seq<char>, x: char)
    ensures
        spec_escape_single_quote(s.push(x)) == spec_escape_single_quote(s)
            + spec_escape_single_quote(seq![x]),
    decreases s.len(),
{
    if s.len() == 0 {
        assert(s.push(x).drop_first() =~= Seq::<char>::empty());
        assert(spec_escape_single_quote(s) =~= Seq::<char>::empty());
        assert(s.push(x) =~= seq![x]);
    } else {
        lemma_escape_single_quote_push(s.drop_first(), x);
        assert(s.push(x).drop_first() =~= s.drop_first().push(x));
        if s.first() == '\'' {
            assert("&#39;"@ + (spec_escape_single_quote(s.drop_first())
                + spec_escape_single_quote(seq![x])) =~= ("&#39;"@ + spec_escape_single_quote(
                s.drop_first(),
            )) + spec_escape_single_quote(seq![x]));
        } else {
            assert(seq![s.first()] + (spec_escape_single_quote(s.drop_first())
                + spec_escape_single_quote(seq![x])) =~= (seq![s.first()]
                + spec_escape_single_quote(s.drop_first())) + spec_escape_single_quote(seq![x]));
        }
    }
}

/// Escape single quotes for embedding in single-quoted HTML attributes.
pub fn escape_single_quote(s: &str) -> (r: String)
    ensures
        r@ == spec_escape_single_quote(s@),
{
    let v = str_chars(s);
    let entity = str_chars("&#39;");
    let mut out: Vec<char> = Vec::new();
    let mut i: usize = 0;
    while i < v.len()
        invariant
            i <= v@.len(),
            entity@ == "&#39;"@,
            out@ == spec_escape_single_quote(v@.take(i as int)),
        decreases v@.len() - i,
    {
        let c = v[i];
        if c == '\'' {
            push_all(&mut out, &entity);
        } else {
            out.push(c);
        }
        proof {
            lemma_escape_single_quote_push(v@.take(i as int), v@[i as int]);
            assert(v@.take(i + 1) =~= v@.take(i as int).push(v@[i as int]));
            assert(v@.take(i as int).push(v@[i as int]).drop_first() =~= if i == 0 {
                Seq::<char>::empty()
            } else {
                v@.take(i as int).drop_first().push(v@[i as int])
            });
            assert(seq![c].drop_first() =~= Seq::<char>::empty());
            assert(spec_escape_single_quote(Seq::<char>::empty()) =~= Seq::<char>::empty());
            if c == '\'' {
                assert(spec_escape_single_quote(seq![c]) =~= "&#39;"@);
            } else {
                assert(spec_escape_single_quote(seq![c]) =~= seq![c]);
            }
        }
        i += 1;
    }
    proof {
        assert(v@.take(v@.len() as int) =~= v@);
    }
    string_from_chars(&out)
}

/// How a timestamp is shown relative to the current time: recent ones as an
/// age in minutes or hours, anything a day or more old as its date.
pub open spec fn spec_show_date(now: DateTime, dt: DateTime) -> Seq<char> {
    let dur = epoch_seconds(now) - epoch_seconds(dt);
    if 0 <= dur < 86400 {
        let hours = dur / 3600;
        if hours == 0 {
            let minutes = dur / 60;
            if minutes == 0 {
                "just now"@
            } else if minutes == 1 {
                "1 minute ago"@
            } else {
                dec_nat(minutes as nat) + " minutes ago"@
            }
        } else if hours == 1 {
            "1 hour ago"@
        } else {
            dec_nat(hours as nat) + " hours ago"@
        }
    } else {
        spec_format_date(dt.date)
    }
}

/// Show a timestamp relative to `now`.
pub fn show_date(now: &DateTime, datetime: &DateTime) -> (r: String)
    requires
        valid_datetime(*now),
        valid_datetime(*datetime),
    ensures
        r@ == spec_show_date(*now, *datetime),
{
    let duration: i64 = now.to_epoch_seconds() - datetime.to_epoch_seconds();
    if 0 <= duration && duration < 86400 {
        let hours = duration / 3600;
        if hours == 0 {
            let minutes = duration / 60;
            if minutes == 0 {
                String::from_str("just now")
            } else if minutes == 1 {
                String::from_str("1 minute ago")
            } else {
                u64_string(minutes as u64).concat(" minutes ago")
            }
        } else if hours == 1 {
            String::from_str("1 hour ago")
        } else {
            u64_string(hours as u64).concat(" hours ago")
        }
    } else {
        let chars = crate::date::format_date(&datetime.date);
        string_from_chars(&chars)
    }
}

/// The kinds of top section a page can carry.
pub enum Top {
    /// Show the top section for the homepage.
    Homepage,
    /// A button that goes back to the homepage.
    GoHome,
    /// A button that goes back to the previous page.
    GoBack,
}

/// How a page is rendered around its body.
pub struct PageSettings {
    pub title: String,
    /// Whether the user is logged in; `None` hides the login and logout
    /// buttons.
    pub is_logged_in: Option<bool>,
    pub show_about: bool,
    pub top: Top,
    pub extra_head: String,
}

impl PageSettings {
    pub fn new(
        title: &str,
        is_logged_in: Option<bool>,
        show_about: bool,
        top: Top,
        extra_head: &str,
    ) -> (r: PageSettings)
        ensures
            r.title@ == title@,
            r.is_logged_in == is_logged_in,
            r.show_about == show_about,
            r.top == top,
            r.extra_head@ == extra_head@,
    {
        PageSettings {
            title: title.to_owned(),
            is_logged_in,
            show_about,
            top,
            extra_head: extra_head.to_owned(),
        }
    }
}

/// The edit and delete buttons shown above a post to its author.
pub open spec fn spec_edit_post_buttons(id: int) -> Seq<char> {
    "<div style=\"margin-left: auto; display: flex; align-items: center;\">\n    <a class=\"button\" href=\"/posts/edit/"@
        + dec_int(id)
        + "\">\n        edit\n    </a>\n    <a class=\"button\" href=\"/posts/delete/"@ + dec_int(
        id,
    ) + "\">\n        delete\n    </a>\n</div>\n"@
}

pub fn edit_post_buttons(post: &Post) -> (r: String)
    ensures
        r@ == spec_edit_post_buttons(post.id as int),
{
    let id = i64_string(post.id);
    String::from_str(
        "<div style=\"margin-left: auto; display: flex; align-items: center;\">\n    <a class=\"button\" href=\"/posts/edit/",
    ).concat(id.as_str()).concat(
        "\">\n        edit\n    </a>\n    <a class=\"button\" href=\"/posts/delete/",
    ).concat(id.as_str()).concat("\">\n        delete\n    </a>\n</div>\n")
}

/// Clone a character vector.
fn copy_chars(v: &Vec<char>) -> (r: Vec<char>)
    ensures
        r@ == v@,
{
    let mut out: Vec<char> = Vec::new();
    crate::text::push_all(&mut out, v);
    out
}

/// What `str::to_lowercase` returns: a function of the characters alone.
pub uninterp spec fn lower_of(s: Seq<char>) -> Seq<char>;

/// Relies on `str::to_lowercase`: Unicode lowercasing, a function of the
/// characters alone.
#[verifier::external_body]
fn lowercase(s: &str) -> (r: String)
    ensures
        r@ == lower_of(s@),
{
    s.to_lowercase()
}

/// Every space turned into a dash, as in generated header ids.
pub open spec fn dashed(s: Seq<char>) -> Seq<char> {
    s.map_values(
        |c: char|
            if c == ' ' {
                '-'
            } else {
                c
            },
    )
}

fn dash_spaces(v: &Vec<char>) -> (r: Vec<char>)
    ensures
        r@ == dashed(v@),
{
    let mut out: Vec<char> = Vec::new();
    let mut i: usize = 0;
    while i < v.len()
        invariant
            i <= v@.len(),
            out@ == dashed(v@.take(i as int)),
        decreases v@.len() - i,
    {
        let c = v[i];
        if c == ' ' {
            out.push('-');
        } else {
            out.push(c);
        }
        proof {
            assert(dashed(v@.take(i + 1)) =~= dashed(v@.take(i as int)).push(
                if v@[i as int] == ' ' {
                    '-'
                } else {
                    v@[i as int]
                },
            ));
        }
        i += 1;
    }
    proof {
        assert(v@.take(v@.len() as int) =~= v@);
    }
    out
}

/// How one line fares under header-id assignment: a header line without an
/// `id` gets one derived from its lowercased title, spaces dashed; anything
/// else passes through unchanged, as do headers the transformation cannot
/// take apart.
pub open spec fn spec_header_line(line: Seq<char>) -> Seq<char> {
    let t = spec_trim(line);
    if !spec_starts_with(t, "<h"@) {
        line
    } else if spec_contains(line, " id="@) {
        line
    } else if spec_contains(line, "<hr />"@) {
        line
    } else {
        let j = first_at(line, '>');
        if !(2 <= j < line.len()) {
            line
        } else {
            let e = spec_find(line, "</h"@);
            if !(j + 1 <= e < line.len()) {
                line
            } else {
                let level = line.subrange(2, j);
                let title = line.subrange(j + 1, e);
                "<h"@ + level + " id='"@ + dashed(lower_of(title)) + "'>"@ + title + "</h"@ + level
                    + ">"@
            }
        }
    }
}

/// Copy the given range of `v`.
fn subrange_chars(v: &Vec<char>, from: usize, to: usize) -> (r: Vec<char>)
    requires
        from <= to <= v@.len(),
    ensures
        r@ == v@.subrange(from as int, to as int),
{
    let mut out: Vec<char> = Vec::new();
    let mut k: usize = from;
    while k < to
        invariant
            from <= k <= to <= v@.len(),
            out@ == v@.subrange(from as int, k as int),
        decreases to - k,
    {
        out.push(v[k]);
        proof {
            assert(v@.subrange(from as int, k + 1) == v@.subrange(from as int, k as int).push(
                v@[k as int],
            ));
        }
        k += 1;
    }
    out
}

/// Apply [`spec_header_line`] to one line.
fn transform_header_line(line: &Vec<char>) -> (r: Vec<char>)
    ensures
        r@ == spec_header_line(line@),
{
    let t = trim_chars(line);
    let open = str_chars("<h");
    if !starts_with_chars(&t, &open) {
        return copy_chars(line);
    }
    let id_pat = str_chars(" id=");
    if contains_chars(line, &id_pat) {
        return copy_chars(line);
    }
    let hr_pat = str_chars("<hr />");
    if contains_chars(line, &hr_pat) {
        return copy_chars(line);
    }
    // The first '>' closes the opening tag.
    let n = line.len();
    let mut j: usize = 0;
    while j < n && line[j] != '>'
        invariant
            j <= n,
            n == line@.len(),
            forall|k: int| 0 <= k < j ==> line@[k] != '>',
        decreases n - j,
    {
        j += 1;
    }
    proof {
        lemma_first_at(line@, '>', j as int);
    }
    if !(2 <= j && j < n) {
        return copy_chars(line);
    }
    let close_pat = str_chars("</h");
    let e = match find_chars(line, &close_pat) {
        Some(e) => {
            proof {
                reveal_strlit("</h");
                lemma_spec_find(line@, "</h"@, e as int);
            }
            e
        },
        None => {
            proof {
                lemma_spec_find(line@, "</h"@, line@.len() as int);
            }
            return copy_chars(line);
        },
    };
    if !(j + 1 <= e && e < n) {
        return copy_chars(line);
    }
    let level = subrange_chars(line, 2, j);
    let title = subrange_chars(line, j + 1, e);
    let title_str = string_from_chars(&title);
    let lowered = lowercase(title_str.as_str());
    let lowered_chars = str_chars(lowered.as_str());
    let id = dash_spaces(&lowered_chars);
    let mut out = str_chars("<h");
    push_all(&mut out, &level);
    let mid = str_chars(" id='");
    push_all(&mut out, &mid);
    push_all(&mut out, &id);
    let mid2 = str_chars("'>");
    push_all(&mut out, &mid2);
    push_all(&mut out, &title);
    let mid3 = str_chars("</h");
    push_all(&mut out, &mid3);
    push_all(&mut out, &level);
    let endgt = str_chars(">");
    push_all(&mut out, &endgt);
    proof {
        assert(out@ =~= spec_header_line(line@));
    }
    out
}

/// The whole text transformed line by line, lines joined back with single
/// newlines; a final newline terminates the last line.
pub open spec fn spec_set_header_id(s: Seq<char>) -> Seq<char>
    decreases s.len(),
{
    if s.len() == 0 {
        Seq::empty()
    } else {
        let i = first_nl(s);
        if !(0 <= i < s.len()) {
            spec_header_line(chomp_cr(s))
        } else if s.skip(i + 1).len() == 0 {
            spec_header_line(chomp_cr(s.take(i))) + seq!['\n']
        } else {
            spec_header_line(chomp_cr(s.take(i))) + seq!['\n'] + spec_set_header_id(s.skip(i + 1))
        }
    }
}

/// Automatically set the `id` attribute for headers that lack one.
pub fn set_header_id(html: &str) -> (r: String)
    ensures
        r@ == spec_set_header_id(html@),
{
    let v = str_chars(html);
    let n: usize = v.len();
    let mut out: Vec<char> = Vec::new();
    let mut pos: usize = 0;
    proof {
        assert(v@.skip(0) =~= v@);
    }
    while pos < n
        invariant
            0 <= pos <= n,
            n == v@.len(),
            spec_set_header_id(v@) == out@ + spec_set_header_id(v@.skip(pos as int)),
        decreases n - pos,
    {
        let ghost rest = v@.skip(pos as int);
        let mut i: usize = pos;
        while i < n && v[i] != '\n'
            invariant
                pos <= i <= n,
                n == v@.len(),
                forall|k: int| pos <= k < i ==> v@[k] != '\n',
            decreases n - i,
        {
            i += 1;
        }
        proof {
            assert(forall|k: int| 0 <= k < i - pos ==> rest[k] != '\n');
            if i < n {
                assert(rest[i - pos] == '\n');
            }
            lemma_first_nl(rest, i - pos);
        }
        let mut line = subrange_chars(&v, pos, i);
        if line.len() > 0 && line[line.len() - 1] == '\r' {
            line.pop();
        }
        proof {
            if i < n {
                assert(line@ =~= chomp_cr(rest.take(i - pos)));
            } else {
                assert(rest.take(i - pos) =~= rest);
                assert(line@ =~= chomp_cr(rest));
            }
        }
        let transformed = transform_header_line(&line);
        push_all(&mut out, &transformed);
        if i < n {
            out.push('\n');
            proof {
                assert(rest.skip(i - pos + 1) =~= v@.skip(i + 1));
                if i + 1 < n {
                    assert(spec_set_header_id(rest) == spec_header_line(chomp_cr(rest.take(
                        i - pos,
                    ))) + seq!['\n'] + spec_set_header_id(v@.skip(i + 1)));
                } else {
                    assert(spec_set_header_id(rest) == spec_header_line(chomp_cr(rest.take(
                        i - pos,
                    ))) + seq!['\n']);
                    assert(spec_set_header_id(v@.skip(n as int)) == Seq::<char>::empty());
                }
            }
            pos = i + 1;
        } else {
            proof {
                assert(spec_set_header_id(rest) == spec_header_line(chomp_cr(rest)));
                assert(spec_set_header_id(v@.skip(n as int)) == Seq::<char>::empty());
            }
            pos = n;
        }
    }
    proof {
        assert(spec_set_header_id(v@.skip(n as int)) == Seq::<char>::empty());
    }
    string_from_chars(&out)
}

/// Lines joined with single newlines.
pub open spec fn join_nl(ls: Seq<Seq<char>>) -> Seq<char>
    decreases ls.len(),
{
    if ls.len() == 0 {
        Seq::empty()
    } else if ls.len() == 1 {
        ls[0]
    } else {
        ls[0] + seq!['\n'] + join_nl(ls.drop_first())
    }
}

proof fn lemma_join_nl_push(ls: Seq<Seq<char>>, l: Seq<char>)
    ensures
        ls.len() == 0 ==> join_nl(ls.push(l)) == l,
        ls.len() > 0 ==> join_nl(ls.push(l)) == join_nl(ls) + seq!['\n'] + l,
    decreases ls.len(),
{
    if ls.len() == 0 {
        assert(ls.push(l)[0] == l);
    } else if ls.len() == 1 {
        assert(ls.push(l).drop_first() =~= seq![l]);
        assert(join_nl(seq![l]) == l);
    } else {
        lemma_join_nl_push(ls.drop_first(), l);
        assert(ls.push(l).drop_first() =~= ls.drop_first().push(l));
        assert(ls[0] + seq!['\n'] + (join_nl(ls.drop_first()) + seq!['\n'] + l) =~= (ls[0]
            + seq!['\n'] + join_nl(ls.drop_first())) + seq!['\n'] + l);
    }
}

/// Which lines survive minification, given whether the scan stands inside a
/// `textarea` or a code block: text inside either is kept as is, other
/// lines are trimmed, and blank lines outside both are dropped.
pub open spec fn spec_minify_lines(s: Seq<char>, in_ta: bool, in_code: bool) -> Seq<Seq<char>>
    decreases s.len(),
{
    if s.len() == 0 {
        Seq::empty()
    } else {
        let i = first_nl(s);
        let raw = if !(0 <= i < s.len()) {
            chomp_cr(s)
        } else {
            chomp_cr(s.take(i))
        };
        let rest = if !(0 <= i < s.len()) {
            Seq::<char>::empty()
        } else {
            s.skip(i + 1)
        };
        let t = spec_trim(raw);
        if spec_starts_with(t, "<textarea "@) {
            seq![t] + spec_minify_lines(rest, true, in_code)
        } else if spec_starts_with(t, "<pre><code"@) {
            seq![t] + spec_minify_lines(rest, in_ta, true)
        } else if spec_starts_with(t, "</code></pre>"@) {
            seq![t] + spec_minify_lines(rest, in_ta, false)
        } else {
            let ta2 = if spec_starts_with(t, "</textarea>"@) {
                false
            } else {
                in_ta
            };
            if ta2 || in_code {
                seq![raw] + spec_minify_lines(rest, ta2, in_code)
            } else if t.len() > 0 {
                seq![t] + spec_minify_lines(rest, ta2, in_code)
            } else {
                spec_minify_lines(rest, ta2, in_code)
            }
        }
    }
}

/// What minification produces.
pub open spec fn spec_minify(s: Seq<char>) -> Seq<char> {
    join_nl(spec_minify_lines(s, false, false))
}

/// Return formatted HTML/CSS that is small and readable: every line
/// trimmed and blank lines dropped, except inside `textarea` and code
/// blocks, whose content is kept byte for byte.
pub fn minify(page: &str) -> (r: String)
    ensures
        r@ == spec_minify(page@),
{
    let v = str_chars(page);
    let n: usize = v.len();
    let ta_open = str_chars("<textarea ");
    let code_open = str_chars("<pre><code");
    let code_close = str_chars("</code></pre>");
    let ta_close = str_chars("</textarea>");
    let mut out: Vec<char> = Vec::new();
    let mut pushed_any = false;
    let mut in_ta = false;
    let mut in_code = false;
    let ghost mut done: Seq<Seq<char>> = Seq::empty();
    let mut pos: usize = 0;
    proof {
        assert(v@.skip(0) =~= v@);
    }
    while pos < n
        invariant
            0 <= pos <= n,
            n == v@.len(),
            ta_open@ == "<textarea "@,
            code_open@ == "<pre><code"@,
            code_close@ == "</code></pre>"@,
            ta_close@ == "</textarea>"@,
            pushed_any == (done.len() > 0),
            out@ == join_nl(done),
            spec_minify_lines(v@, false, false) == done + spec_minify_lines(
                v@.skip(pos as int),
                in_ta,
                in_code,
            ),
        decreases n - pos,
    {
        let ghost rest = v@.skip(pos as int);
        let mut i: usize = pos;
        while i < n && v[i] != '\n'
            invariant
                pos <= i <= n,
                n == v@.len(),
                forall|k: int| pos <= k < i ==> v@[k] != '\n',
            decreases n - i,
        {
            i += 1;
        }
        proof {
            assert(forall|k: int| 0 <= k < i - pos ==> rest[k] != '\n');
            if i < n {
                assert(rest[i - pos] == '\n');
            }
            lemma_first_nl(rest, i - pos);
        }
        let mut line = subrange_chars(&v, pos, i);
        if line.len() > 0 && line[line.len() - 1] == '\r' {
            line.pop();
        }
        proof {
            if i < n {
                assert(line@ =~= chomp_cr(rest.take(i - pos)));
            } else {
                assert(rest.take(i - pos) =~= rest);
                assert(line@ =~= chomp_cr(rest));
            }
            if i < n {
                assert(rest.skip(i - pos + 1) =~= v@.skip(i + 1));
            }
            assert(v@.skip(n as int) =~= Seq::<char>::empty());
        }
        let t = trim_chars(&line);
        // Decide what this line contributes and the next state.
        let mut push_line: bool = true;
        let mut push_raw: bool = false;
        if starts_with_chars(&t, &ta_open) {
            in_ta = true;
        } else if starts_with_chars(&t, &code_open) {
            in_code = true;
        } else if starts_with_chars(&t, &code_close) {
            in_code = false;
        } else {
            if starts_with_chars(&t, &ta_close) {
                in_ta = false;
            }
            if in_ta || in_code {
                push_raw = true;
            } else if t.len() == 0 {
                push_line = false;
            }
        }
        if push_line {
            if pushed_any {
                out.push('\n');
            }
            if push_raw {
                push_all(&mut out, &line);
                proof {
                    lemma_join_nl_push(done, line@);
                    done = done.push(line@);
                }
            } else {
                push_all(&mut out, &t);
                proof {
                    lemma_join_nl_push(done, t@);
                    done = done.push(t@);
                }
            }
            pushed_any = true;
        }
        if i < n {
            pos = i + 1;
        } else {
            pos = n;
        }
    }
    proof {
        assert(spec_minify_lines(v@.skip(n as int), in_ta, in_code) =~= Seq::<Seq<char>>::empty());
        assert(done =~= spec_minify_lines(v@, false, false));
    }
    string_from_chars(&out)
}

/// A fenced code block opening in `body` at `k`, with its language segment
/// running up to the first closing quote at `j`.
pub open spec fn code_span(body: Seq<char>, k: int, j: int) -> bool {
    &&& match_at(body, "<code class=\"language-"@, k)
    &&& k + "<code class=\"language-"@.len() <= j < body.len()
    &&& body[j] == '"'
    &&& forall|t: int| k + "<code class=\"language-"@.len() <= t < j ==> body[t] != '"'
}

/// Whether `body` holds a fenced code block in a language other than math.
pub open spec fn spec_has_code(body: Seq<char>) -> bool {
    exists|k: int, j: int|
        code_span(body, k, j) && !spec_contains(body.subrange(k, j + 1), "math"@)
}

/// Whether highlighting is needed: some code block whose language is not
/// math.
pub fn has_code(body: &str) -> (r: bool)
    ensures
        r == spec_has_code(body@),
{
    let v = str_chars(body);
    let open = str_chars("<code class=\"language-");
    let math = str_chars("math");
    let n: usize = v.len();
    let mut p: usize = 0;
    loop
        invariant
            p <= n,
            n == v@.len(),
            v@ == body@,
            open@ == "<code class=\"language-"@,
            math@ == "math"@,
            forall|k: int, j: int|
                (0 <= k < p && #[trigger] code_span(v@, k, j)) ==> spec_contains(
                    v@.subrange(k, j + 1),
                    "math"@,
                ),
        decreases n - p,
    {
        let k = match find_chars_from(&v, &open, p) {
            Some(k) => k,
            None => {
                proof {
                    assert forall|k: int, j: int|
                        #[trigger] code_span(v@, k, j) implies spec_contains(
                        v@.subrange(k, j + 1),
                        "math"@,
                    ) by {
                        if k >= p {
                            assert(!match_at(v@, open@, k));
                            assert(!match_at(v@, "<code class=\"language-"@, k));
                        }
                    }
                    assert(!spec_has_code(v@));
                }
                return false;
            },
        };
        proof {
            assert(k + open@.len() <= n);
        }
        let mut q: usize = k + open.len();
        while q < n && v[q] != '"'
            invariant
                k + open@.len() <= q <= n,
                n == v@.len(),
                open@ == "<code class=\"language-"@,
                forall|t: int| k + open@.len() <= t < q ==> v@[t] != '"',
            decreases n - q,
        {
            q += 1;
        }
        if q >= n {
            proof {
                assert forall|k2: int, j2: int|
                    #[trigger] code_span(v@, k2, j2) implies spec_contains(
                    v@.subrange(k2, j2 + 1),
                    "math"@,
                ) by {
                    if k2 >= p {
                        if k2 < k {
                            assert(!match_at(v@, open@, k2));
                            assert(!match_at(v@, "<code class=\"language-"@, k2));
                        } else {
                            assert(j2 >= k2 + open@.len());
                            assert(j2 >= k + open@.len());
                            assert(v@[j2] != '"');
                        }
                    }
                }
                assert(!spec_has_code(v@));
            }
            return false;
        }
        let span = subrange_chars(&v, k, q + 1);
        if !contains_chars(&span, &math) {
            proof {
                assert(code_span(v@, k as int, q as int));
                assert(!spec_contains(v@.subrange(k as int, q + 1), "math"@));
                assert(spec_has_code(v@));
            }
            return true;
        }
        proof {
            assert(v@[q as int] == '"');
            assert forall|j2: int| #[trigger] code_span(v@, k as int, j2) implies spec_contains(
                v@.subrange(k as int, j2 + 1),
                "math"@,
            ) by {
                if j2 > q {
                    assert(v@[q as int] != '"');
                }
                if j2 < q {
                    assert(v@[j2] != '"');
                }
                assert(j2 == q);
            }
            assert forall|k2: int, j2: int|
                (0 <= k2 < k + 1 && #[trigger] code_span(v@, k2, j2)) implies spec_contains(
                v@.subrange(k2, j2 + 1),
                "math"@,
            ) by {
                if k2 >= p && k2 < k {
                    assert(!match_at(v@, open@, k2));
                    assert(!match_at(v@, "<code class=\"language-"@, k2));
                }
            }
        }
        p = k + 1;
    }
}

/// The form for adding a new post, shown to the logged-in author on the
/// homepage.
pub fn add_post_form() -> (r: String)
    ensures
        r@
            == "\n    <form style='width: 100%;' action='/posts/add' method='post'>\n        <textarea style='display: block; width: 100%; height: 180px; margin-top: 10px;' class='boxsizing-border' oninput='disable_form_submit_if_empty(this);' onchange='window.onbeforeunload = () => true;' id='content' name='content' placeholder='Your Markdown text..' required>\n        </textarea>\n        <br>\n        <div style='display: flex; justify-content: flex-end;'>\n            <input type='submit' onclick='window.onbeforeunload = null;' name='preview' value='Preview'/>\n            <input type='submit' onclick='window.onbeforeunload = null;' name='publish' value='Publish'/>\n        </div>\n    </form>\n    "@,
{
    String::from_str(
        "\n    <form style='width: 100%;' action='/posts/add' method='post'>\n        <textarea style='display: block; width: 100%; height: 180px; margin-top: 10px;' class='boxsizing-border' oninput='disable_form_submit_if_empty(this);' onchange='window.onbeforeunload = () => true;' id='content' name='content' placeholder='Your Markdown text..' required>\n        </textarea>\n        <br>\n        <div style='display: flex; justify-content: flex-end;'>\n            <input type='submit' onclick='window.onbeforeunload = null;' name='preview' value='Preview'/>\n            <input type='submit' onclick='window.onbeforeunload = null;' name='publish' value='Publish'/>\n        </div>\n    </form>\n    ",
    )
}

/// The form for editing an existing post.
pub open spec fn spec_edit_post_form(id: int, content: Seq<char>) -> Seq<char> {
    "\n    <form style='width: 100%;' action='/posts/edit/"@ + dec_int(id)
        + "' method='post' onchange='window.onbeforeunload = () => true;'>\n        <textarea style='display: block; width: 100%; height: 60vh; margin-top: 10px;' class='boxsizing-border' oninput='disable_form_submit_if_empty(this);' id='content' name='content' placeholder='Your text..'>\n"@
        + content
        + "\n        </textarea>\n        <br>\n        <div style='display: flex; justify-content: flex-end;'>\n            <input type='submit' onclick='window.onbeforeunload = null;' name='preview' value='Preview'/>\n            <input type='submit' onclick='window.onbeforeunload = null;' name='publish' value='Publish'/>\n        </div>\n    </form>\n    "@
}

pub fn edit_post_form(post: &Post) -> (r: String)
    ensures
        r@ == spec_edit_post_form(post.id as int, post.content@),
{
    String::from_str("\n    <form style='width: 100%;' action='/posts/edit/").concat(
        i64_string(post.id).as_str(),
    ).concat(
        "' method='post' onchange='window.onbeforeunload = () => true;'>\n        <textarea style='display: block; width: 100%; height: 60vh; margin-top: 10px;' class='boxsizing-border' oninput='disable_form_submit_if_empty(this);' id='content' name='content' placeholder='Your text..'>\n",
    ).concat(post.content.as_str()).concat(
        "\n        </textarea>\n        <br>\n        <div style='display: flex; justify-content: flex-end;'>\n            <input type='submit' onclick='window.onbeforeunload = null;' name='preview' value='Preview'/>\n            <input type='submit' onclick='window.onbeforeunload = null;' name='publish' value='Publish'/>\n        </div>\n    </form>\n    ",
    )
}

/// The stylesheet and scripts KaTeX needs, when the body holds math.
pub open spec fn spec_katex_head(body: Seq<char>) -> Seq<char> {
    if spec_contains(body, "<code class=\"language-math"@) {
        "\n            <link rel='stylesheet' href='https://cdn.jsdelivr.net/npm/katex@0.16.22/dist/katex.min.css' crossorigin='anonymous'>\n            <script defer src='https://cdn.jsdelivr.net/npm/katex@0.16.22/dist/katex.min.js' crossorigin='anonymous'>\n            </script>\n            <script defer src='https://cdn.jsdelivr.net/npm/katex@0.16.22/dist/contrib/auto-render.min.js' crossorigin='anonymous'>\n            </script>\n            <script defer src='/static/katex.js'>\n            </script>\n            "@
    } else {
        Seq::empty()
    }
}

pub fn katex_head(body: &str) -> (r: String)
    ensures
        r@ == spec_katex_head(body@),
{
    let v = str_chars(body);
    let pat = str_chars("<code class=\"language-math");
    if contains_chars(&v, &pat) {
        String::from_str(
            "\n            <link rel='stylesheet' href='https://cdn.jsdelivr.net/npm/katex@0.16.22/dist/katex.min.css' crossorigin='anonymous'>\n            <script defer src='https://cdn.jsdelivr.net/npm/katex@0.16.22/dist/katex.min.js' crossorigin='anonymous'>\n            </script>\n            <script defer src='https://cdn.jsdelivr.net/npm/katex@0.16.22/dist/contrib/auto-render.min.js' crossorigin='anonymous'>\n            </script>\n            <script defer src='/static/katex.js'>\n            </script>\n            ",
        )
    } else {
        String::new()
    }
}

/// Whether the body holds a fenced code block in the given language.
pub fn contains_language(body: &str, language: &str) -> (r: bool)
    ensures
        r == spec_contains(body@, "<code class=\"language-"@ + language@ + "\""@),
{
    let v = str_chars(body);
    let mut pat = str_chars("<code class=\"language-");
    let lang = str_chars(language);
    push_all(&mut pat, &lang);
    let quote = str_chars("\"");
    push_all(&mut pat, &quote);
    contains_chars(&v, &pat)
}

/// The highlight.js includes, when the body holds code to highlight; the
/// Julia grammar is added only when Julia code appears.
pub open spec fn spec_highlight_head(body: Seq<char>) -> Seq<char> {
    if spec_has_code(body) {
        "\n            <link rel='stylesheet' href='https://cdnjs.cloudflare.com/ajax/libs/highlight.js/11.9.0/styles/default.min.css' media='(prefers-color-scheme: light)'>\n            <link rel='stylesheet' href='https://cdnjs.cloudflare.com/ajax/libs/highlight.js/11.9.0/styles/github-dark.min.css' media='(prefers-color-scheme: dark)'>\n            <script src='https://cdnjs.cloudflare.com/ajax/libs/highlight.js/11.9.0/highlight.min.js' defer></script>\n            "@
            + (if spec_contains(body, "<code class=\"language-"@ + "julia"@ + "\""@) {
            "\n        <script src='https://cdnjs.cloudflare.com/ajax/libs/highlight.js/11.9.0/languages/julia.min.js' defer></script>\n        "@
        } else {
            Seq::empty()
        })
            + "\n            <script defer>\n                document.addEventListener('DOMContentLoaded', function() {\n                    document.querySelectorAll('pre code').forEach((el) => {\n                        if (el.classList.contains('language-math')) {\n                            return;\n                        }\n                        hljs.highlightElement(el);\n                    });\n                });\n            </script>\n            "@
    } else {
        Seq::empty()
    }
}

pub fn highlight_head(body: &str) -> (r: String)
    ensures
        r@ == spec_highlight_head(body@),
{
    let julia = if contains_language(body, "julia") {
        String::from_str(
            "\n        <script src='https://cdnjs.cloudflare.com/ajax/libs/highlight.js/11.9.0/languages/julia.min.js' defer></script>\n        ",
        )
    } else {
        String::new()
    };
    if has_code(body) {
        let r = String::from_str(
            "\n            <link rel='stylesheet' href='https://cdnjs.cloudflare.com/ajax/libs/highlight.js/11.9.0/styles/default.min.css' media='(prefers-color-scheme: light)'>\n            <link rel='stylesheet' href='https://cdnjs.cloudflare.com/ajax/libs/highlight.js/11.9.0/styles/github-dark.min.css' media='(prefers-color-scheme: dark)'>\n            <script src='https://cdnjs.cloudflare.com/ajax/libs/highlight.js/11.9.0/highlight.min.js' defer></script>\n            ",
        ).concat(julia.as_str()).concat(
            "\n            <script defer>\n                document.addEventListener('DOMContentLoaded', function() {\n                    document.querySelectorAll('pre code').forEach((el) => {\n                        if (el.classList.contains('language-math')) {\n                            return;\n                        }\n                        hljs.highlightElement(el);\n                    });\n                });\n            </script>\n            ",
        );
        proof {
            assert(r@ =~= spec_highlight_head(body@));
        }
        r
    } else {
        String::new()
    }
}

/// The script tags that load htmx.
pub fn htmx() -> (r: &'static str)
    ensures
        r@
            == "\n    <script src=\"https://unpkg.com/htmx.org@2.0.4\"\n    integrity=\"sha384-HGfztofotfshcF7+8n44JQL2oJmowVChPTg48S+jvZoztPfvwD79OC/LTtG6dMp+\" \n    crossorigin=\"anonymous\" defer></script>\n    <script src=\"https://unpkg.com/htmx-ext-preload@2.1.0\" \n    integrity=\"sha384-fkzubQiTB69M7XTToqW6tplvxAOJkqPl5JmLAbumV2EacmuJb8xEP9KnJafk/rg8\" \n    crossorigin=\"anonymous\" defer></script>"@,
{
    "\n    <script src=\"https://unpkg.com/htmx.org@2.0.4\"\n    integrity=\"sha384-HGfztofotfshcF7+8n44JQL2oJmowVChPTg48S+jvZoztPfvwD79OC/LTtG6dMp+\" \n    crossorigin=\"anonymous\" defer></script>\n    <script src=\"https://unpkg.com/htmx-ext-preload@2.1.0\" \n    integrity=\"sha384-fkzubQiTB69M7XTToqW6tplvxAOJkqPl5JmLAbumV2EacmuJb8xEP9KnJafk/rg8\" \n    crossorigin=\"anonymous\" defer></script>"
}

/// A whole page around the given body: head, title and site chrome.
pub open spec fn spec_simple_page(title: Seq<char>, body: Seq<char>) -> Seq<char> {
    let full_title = if title.len() == 0 {
        "fx"@
    } else {
        title + " - fx"@
    };
    "<!DOCTYPE html>\n<html>\n<head>\n    <meta charset=\"UTF-8\">\n    <meta name=\"viewport\" content=\"width=device-width, initial-scale=1\">\n    <link rel=\"stylesheet\" href=\"/static/style.css\">\n    <title>"@
        + full_title
        + "</title>\n</head>\n<body>\n    <div class=\"container\">\n        <div class=\"middle\">\n            <div class=\"top\">\n                <a class=\"unstyled-link\" href=\"/\">fx</a>\n            </div>\n            "@
        + body
        + "\n            <div class=\"bottom\">\n                <a class=\"unstyled-link\" href=\"https://github.com/rikhuijzer/fx\">source</a>\n            </div>\n        </div>\n    </div>\n</body>\n"@
}

/// Render a page around a body.
pub fn simple_page(title: &str, body: &str) -> (r: String)
    ensures
        r@ == spec_simple_page(title@, body@),
{
    let full_title = if title.is_empty() {
        String::from_str("fx")
    } else {
        title.to_owned().concat(" - fx")
    };
    String::from_str(
        "<!DOCTYPE html>\n<html>\n<head>\n    <meta charset=\"UTF-8\">\n    <meta name=\"viewport\" content=\"width=device-width, initial-scale=1\">\n    <link rel=\"stylesheet\" href=\"/static/style.css\">\n    <title>",
    ).concat(full_title.as_str()).concat(
        "</title>\n</head>\n<body>\n    <div class=\"container\">\n        <div class=\"middle\">\n            <div class=\"top\">\n                <a class=\"unstyled-link\" href=\"/\">fx</a>\n            </div>\n            ",
    ).concat(body).concat(
        "\n            <div class=\"bottom\">\n                <a class=\"unstyled-link\" href=\"https://github.com/rikhuijzer/fx\">source</a>\n            </div>\n        </div>\n    </div>\n</body>\n",
    )
}

/// The login form page.
pub fn login() -> (r: String)
    ensures
        r@ == spec_simple_page(
            "login"@,
            "\n    <form style=\"text-align: center;\" method=\"post\" action=\"/login\">\n        <label for=\"username\">username</label><br>\n        <input id=\"username\" name=\"username\" type=\"text\" required/><br>\n        <br>\n        <label for=\"password\">password</label><br>\n        <input id=\"password\" name=\"password\" type=\"password\" required/><br>\n        <br>\n        <input type=\"submit\" value=\"login\"/>\n    </form>\n    "@,
        ),
{
    simple_page(
        "login",
        "\n    <form style=\"text-align: center;\" method=\"post\" action=\"/login\">\n        <label for=\"username\">username</label><br>\n        <input id=\"username\" name=\"username\" type=\"text\" required/><br>\n        <br>\n        <label for=\"password\">password</label><br>\n        <input id=\"password\" name=\"password\" type=\"password\" required/><br>\n        <br>\n        <input type=\"submit\" value=\"login\"/>\n    </form>\n    ",
    )
}

/// Rendering a value as an HTML fragment.
pub trait ToHtml {
    /// The values that render.
    spec fn html_wf(&self) -> bool;

    /// The fragment this value renders to.
    spec fn spec_html(&self) -> Seq<char>;

    fn to_html(&self) -> (r: String)
        requires
            self.html_wf(),
        ensures
            r@ == self.spec_html(),
    ;
}

impl ToHtml for Post {
    open spec fn html_wf(&self) -> bool {
        valid_datetime(self.created)
    }

    open spec fn spec_html(&self) -> Seq<char> {
        "<div class='post' hx-boost='true'>\n    <div class='created_at'>"@ + spec_format_datetime(
            self.created,
        ) + " UTC</div>\n    <a class='unstyled-link' href='/p/"@ + dec_int(self.id as int)
            + "'>\n        <div class='content'>"@ + self.content@
            + "</div>\n    </a>\n</div>\n"@
    }

    fn to_html(&self) -> (r: String) {
        let created = crate::date::format_datetime(&self.created);
        let created_str = string_from_chars(&created);
        String::from_str("<div class='post' hx-boost='true'>\n    <div class='created_at'>").concat(
            created_str.as_str(),
        ).concat(" UTC</div>\n    <a class='unstyled-link' href='/p/").concat(
            i64_string(self.id).as_str(),
        ).concat("'>\n        <div class='content'>").concat(self.content.as_str()).concat(
            "</div>\n    </a>\n</div>\n",
        )
    }
}

} // verus!
