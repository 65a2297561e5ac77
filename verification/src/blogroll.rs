//! Rendering of blogroll entries.
use crate::date::DateTime;
use crate::date::valid_datetime;
use crate::html::show_date;
use crate::html::spec_show_date;
use crate::rss::Item;
use vstd::prelude::*;
use vstd::string::StringExecFns;

verus! {

/// The blogroll-feeds form submission.
#[derive(Debug)]
pub struct BlogrollSettings {
    pub blogroll_feeds: String,
}

/// An item's publication date, if any, is a real timestamp.
pub open spec fn item_date_valid(item: Item) -> bool {
    match item.pub_date {
        Some(d) => valid_datetime(d),
        None => true,
    }
}

/// The blogroll line for an item relative to `now`: feed name, linked
/// title, and the publication date's age; `None` without a date, link or
/// title.
pub open spec fn spec_show_item(now: DateTime, item: Item) -> Option<Seq<char>> {
    match (item.pub_date, item.link, item.title) {
        (Some(date), Some(link), Some(title)) => Some(
            "\n        <span class='blogroll-item' style='font-size: 0.9rem;'>\n            "@
                + item.feed_name@ + ": <a href=\""@ + link@ + "\">"@ + title@ + "</a> ("@
                + spec_show_date(now, date) + ")\n        </span>\n        "@,
        ),
        _ => None,
    }
}

/// Render one blogroll entry relative to `now`.
pub fn show_item(now: &DateTime, item: &Item) -> (r: Option<String>)
    requires
        valid_datetime(*now),
        item_date_valid(*item),
    ensures
        match r {
            Some(s) => spec_show_item(*now, *item) == Some(s@),
            None => spec_show_item(*now, *item) is None,
        },
{
    let pub_date = match &item.pub_date {
        Some(date) => show_date(now, date),
        None => {
            return None;
        },
    };
    let link = match &item.link {
        Some(link) => link,
        None => {
            return None;
        },
    };
    let title = match &item.title {
        Some(title) => title,
        None => {
            return None;
        },
    };
    Some(
        String::from_str(
            "\n        <span class='blogroll-item' style='font-size: 0.9rem;'>\n            ",
        ).concat(item.feed_name.as_str()).concat(": <a href=\"").concat(link.as_str()).concat(
            "\">",
        ).concat(title.as_str()).concat("</a> (").concat(pub_date.as_str()).concat(
            ")\n        </span>\n        ",
        ),
    )
}

} // verus!
