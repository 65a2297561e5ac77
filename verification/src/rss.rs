//! Feed items and their rendering for the blogroll.
//!
//! Downloading and parsing feeds is the host application's business; the
//! item model, title truncation and month bucketing live here.
use crate::date::Date;
use crate::date::DateTime;
use crate::date::valid_date;
use crate::md::take_bytes;
use crate::md::utf8_len;
use crate::md::utf8_prefix;
use crate::text::first_at;
use crate::text::lemma_first_at;
use crate::text::spec_trim;
use crate::text::str_chars;
use crate::text::string_from_chars;
use crate::text::trim_chars;
use vstd::arithmetic::div_mod::lemma_fundamental_div_mod_converse;
use vstd::prelude::*;
use vstd::string::StringExecFns;

verus! {

/// An RSS item after it has been extracted from a feed.
///
/// All elements of a feed item are optional; an item without a title may
/// still carry a description.
#[derive(Clone, Debug)]
pub struct Item {
    /// Name of the feed from which the item was extracted.
    pub feed_name: String,
    /// Not all items have a title.
    pub title: Option<String>,
    /// Item synopsis.
    pub description: Option<String>,
    /// URL to the item.
    pub link: Option<String>,
    /// Date and time when the item was published.
    pub pub_date: Option<DateTime>,
}

/// Title text shortened to sixty UTF-8 bytes, with an ellipsis when cut.
pub open spec fn spec_truncate_title(s: Seq<char>) -> Seq<char> {
    if utf8_len(s) > 60 {
        take_bytes(s, 60) + "..."@
    } else {
        s
    }
}

/// Shorten a title for display.
fn truncate(text: &str) -> (r: String)
    ensures
        r@ == spec_truncate_title(text@),
{
    let v = str_chars(text);
    let (k, fits) = utf8_prefix(&v, 60);
    if fits {
        text.to_owned()
    } else {
        let mut prefix: Vec<char> = Vec::new();
        let mut i: usize = 0;
        while i < k
            invariant
                i <= k <= v@.len(),
                prefix@ == v@.take(i as int),
            decreases k - i,
        {
            prefix.push(v[i]);
            proof {
                assert(v@.take(i + 1) =~= v@.take(i as int).push(v@[i as int]));
            }
            i += 1;
        }
        string_from_chars(&prefix).concat("...")
    }
}

/// Text passed through a lossy UTF-8 round trip; on a string that is a
/// no-op, since a string is valid UTF-8 already.
pub fn sanitize(text: &str) -> (r: String)
    ensures
        r@ == text@,
{
    text.to_owned()
}

/// Every HTML tag replaced by a single space: each `<` up to the next `>`
/// goes, and a `<` with no closing `>` ends the scan unchanged.
pub open spec fn strip_tags(s: Seq<char>) -> Seq<char>
    decreases s.len(),
{
    if s.len() == 0 {
        Seq::empty()
    } else if s.first() != '<' {
        seq![s.first()] + strip_tags(s.drop_first())
    } else {
        let j = first_at(s, '>');
        if !(0 <= j < s.len()) {
            s
        } else {
            seq![' '] + strip_tags(s.skip(j + 1))
        }
    }
}

/// Remove HTML tags, each leaving one space.
fn strip_tags_exec(v: &Vec<char>) -> (r: Vec<char>)
    ensures
        r@ == strip_tags(v@),
{
    let n = v.len();
    let mut out: Vec<char> = Vec::new();
    let mut pos: usize = 0;
    proof {
        assert(v@.skip(0) =~= v@);
    }
    while pos < n
        invariant
            pos <= n,
            n == v@.len(),
            strip_tags(v@) == out@ + strip_tags(v@.skip(pos as int)),
        decreases n - pos,
    {
        let ghost rest = v@.skip(pos as int);
        let c = v[pos];
        proof {
            assert(rest.first() == v@[pos as int]);
            assert(rest.drop_first() =~= v@.skip(pos + 1));
        }
        if c != '<' {
            out.push(c);
            proof {
                assert(out@ + strip_tags(v@.skip(pos + 1)) =~= out@.drop_last() + (
                seq![rest.first()] + strip_tags(rest.drop_first())));
            }
            pos += 1;
        } else {
            let mut j: usize = pos;
            while j < n && v[j] != '>'
                invariant
                    pos <= j <= n,
                    n == v@.len(),
                    forall|t: int| pos <= t < j ==> v@[t] != '>',
                decreases n - j,
            {
                j += 1;
            }
            proof {
                assert(forall|t: int| 0 <= t < j - pos ==> rest[t] != '>');
                if j < n {
                    assert(rest[j - pos] == '>');
                }
                lemma_first_at(rest, '>', j - pos);
            }
            if j >= n {
                // No closing tag: the rest stays as is.
                let mut t: usize = pos;
                while t < n
                    invariant
                        pos <= t <= n,
                        n == v@.len(),
                        strip_tags(v@) == out@.take(out@.len() - (t - pos)) + strip_tags(
                            v@.skip(pos as int),
                        ),
                        out@.len() >= t - pos,
                        out@.skip(out@.len() - (t - pos)) =~= v@.subrange(pos as int, t as int),
                    decreases n - t,
                {
                    out.push(v[t]);
                    proof {
                        assert(out@.take(out@.len() - (t + 1 - pos)) =~= out@.drop_last().take(
                            out@.drop_last().len() - (t - pos),
                        ));
                        assert(out@.skip(out@.len() - (t + 1 - pos)) =~= v@.subrange(
                            pos as int,
                            t + 1,
                        ));
                    }
                    t += 1;
                }
                proof {
                    assert(strip_tags(rest) == rest);
                    assert(out@ =~= out@.take(out@.len() - (n - pos)) + v@.subrange(
                        pos as int,
                        n as int,
                    ));
                    assert(rest =~= v@.subrange(pos as int, n as int));
                    assert(out@ =~= strip_tags(v@));
                }
                return out;
            }
            out.push(' ');
            proof {
                assert(strip_tags(rest) == seq![' '] + strip_tags(rest.skip(j - pos + 1)));
                assert(rest.skip(j - pos + 1) =~= v@.skip(j + 1));
                assert(out@ + strip_tags(v@.skip(j + 1)) =~= out@.drop_last() + (seq![' ']
                    + strip_tags(v@.skip(j + 1))));
            }
            pos = j + 1;
        }
    }
    proof {
        assert(strip_tags(v@.skip(n as int)) =~= Seq::<char>::empty());
        assert(out@ =~= strip_tags(v@));
    }
    out
}

/// The blogroll line for an item: its feed name and a link on its title or,
/// failing that, its tag-stripped description; `None` without link or text.
pub open spec fn spec_item_html(item: Item) -> Option<Seq<char>> {
    let text = match item.title {
        Some(t) => Some(spec_truncate_title(spec_trim(t@))),
        None => match item.description {
            Some(d) => Some(spec_truncate_title(strip_tags(spec_trim(d@)))),
            None => None,
        },
    };
    match (text, item.link) {
        (Some(text), Some(link)) => Some(
            item.feed_name@ + ": <a href=\""@ + link@ + "\">"@ + text + "</a>"@,
        ),
        _ => None,
    }
}

impl Item {
    pub fn new(
        feed_name: String,
        title: Option<String>,
        description: Option<String>,
        link: Option<String>,
        pub_date: Option<DateTime>,
    ) -> (r: Item)
        ensures
            r.feed_name == feed_name,
            r.title == title,
            r.description == description,
            r.link == link,
            r.pub_date == pub_date,
    {
        Item { feed_name, title, description, link, pub_date }
    }

    /// Render the item as a blogroll line, if it has a link and some text.
    pub fn to_html(&self) -> (r: Option<String>)
        ensures
            match r {
                Some(s) => spec_item_html(*self) == Some(s@),
                None => spec_item_html(*self) is None,
            },
    {
        let text = match &self.title {
            Some(title) => {
                let chars = str_chars(title.as_str());
                let trimmed = trim_chars(&chars);
                let trimmed_str = string_from_chars(&trimmed);
                truncate(trimmed_str.as_str())
            },
            None => match &self.description {
                Some(description) => {
                    let chars = str_chars(description.as_str());
                    let trimmed = trim_chars(&chars);
                    let stripped = strip_tags_exec(&trimmed);
                    let stripped_str = string_from_chars(&stripped);
                    truncate(stripped_str.as_str())
                },
                None => {
                    return None;
                },
            },
        };
        let link = match &self.link {
            Some(link) => link,
            None => {
                return None;
            },
        };
        Some(
            self.feed_name.clone().concat(": <a href=\"").concat(link.as_str()).concat("\">")
                .concat(text.as_str()).concat("</a>"),
        )
    }
}

/// A feed's items, as downloaded.
#[derive(Debug)]
pub struct Feed {
    pub items: Vec<Item>,
}

/// One calendar month.
#[derive(Clone, Copy, Debug, PartialEq, Eq, Structural)]
pub struct Month {
    pub year: u32,
    pub month: u32,
}

/// The months walked backwards from `start`: entry `x` is the month `x`
/// steps back, counted in whole months.
pub fn months_range(start: &Date, n_months: u32) -> (r: Vec<Month>)
    requires
        valid_date(*start),
        12 * start.year >= n_months + 12,
    ensures
        r@.len() == n_months,
        forall|x: int|
            0 <= x < n_months ==> {
                let t = 12 * start.year + start.month - 1 - x;
                #[trigger] r@[x] == (Month { year: (t / 12) as u32, month: (t % 12 + 1) as u32 })
            },
{
    let mut months: Vec<Month> = Vec::new();
    let mut i: u32 = 0;
    while i < n_months
        invariant
            i <= n_months,
            valid_date(*start),
            12 * start.year >= n_months + 12,
            months@.len() == i,
            forall|x: int|
                0 <= x < i ==> {
                    let t = 12 * start.year + start.month - 1 - x;
                    #[trigger] months@[x] == (Month {
                        year: (t / 12) as u32,
                        month: (t % 12 + 1) as u32,
                    })
                },
        decreases n_months - i,
    {
        let q: u32 = i / 12;
        let k: u32 = i % 12;
        let ghost t: int = 12 * start.year + start.month - 1 - i;
        let m: Month = if k >= start.month {
            let year = (start.year as u32) - q - 1;
            let month = 12 - (k - start.month);
            proof {
                lemma_fundamental_div_mod_converse(t, 12, year as int, month as int - 1);
            }
            Month { year, month }
        } else {
            let year = (start.year as u32) - q;
            let month = start.month - k;
            proof {
                lemma_fundamental_div_mod_converse(t, 12, year as int, month as int - 1);
            }
            Month { year, month }
        };
        months.push(m);
        i += 1;
    }
    months
}

/// An RSS feed's address.
pub struct RssFeed {
    pub url: String,
}

impl RssFeed {
    pub fn new(url: &str) -> (r: RssFeed)
        ensures
            r.url@ == url@,
    {
        RssFeed { url: url.to_owned() }
    }
}

/// Which feeds the blogroll follows, and how far back it looks.
pub struct RssConfig {
    /// URLs of RSS feeds.
    pub feeds: Vec<RssFeed>,
    /// Only show items that are less than this age in months.
    pub max_age_in_months: u32,
}

impl RssConfig {
    pub fn new(feeds: Vec<RssFeed>, max_age_in_months: u32) -> (r: RssConfig)
        ensures
            r.feeds == feeds,
            r.max_age_in_months == max_age_in_months,
    {
        RssConfig { feeds, max_age_in_months }
    }
}

} // verus!
