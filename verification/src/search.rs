//! The search form shown at `/search`.
use vstd::prelude::*;

verus! {

/// A search submission.
#[derive(Debug)]
pub struct SearchForm {
    pub q: Option<String>,
}

/// The search form.
pub fn search_form() -> (r: &'static str)
    ensures
        r@
            == "\n    <form action='/search' method='get'>\n        <input type='text' name='q' />\n        <button type='submit'>Search</button>\n    </form>\n    "@,
{
    "\n    <form action='/search' method='get'>\n        <input type='text' name='q' />\n        <button type='submit'>Search</button>\n    </form>\n    "
}

} // verus!
