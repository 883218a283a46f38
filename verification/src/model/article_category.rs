//! An article's title together with its categories.

use vstd::prelude::*;

verus! {

/// The title of an article and the names of the categories it stands in.
#[derive(Debug)]
pub struct ArticleCategory<'a> {
    pub title: &'a str,
    pub categories: Vec<&'a str>,
}

} // verus!
