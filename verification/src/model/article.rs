//! An article of the corpus.

use super::article_category::ArticleCategory;
use crate::text::{chars_of, slices, str_equal, str_starts_with, trim_end, trim_start};
use vstd::prelude::*;
use vstd::string::StrSliceExecFns;

verus! {

/// An article: its title and its body text.
#[derive(Debug, Hash)]
pub struct Article {
    pub title: String,
    pub text: String,
}

/// The mathematical value of an [`Article`].
pub struct ArticleModel {
    pub title: Seq<char>,
    pub text: Seq<char>,
}

impl View for Article {
    type V = ArticleModel;

    open spec fn view(&self) -> ArticleModel {
        ArticleModel { title: self.title@, text: self.text@ }
    }
}

impl Clone for Article {
    fn clone(&self) -> (res: Self)
        ensures
            res@ == self@,
    {
        Article { title: self.title.clone(), text: self.text.clone() }
    }
}

impl PartialEq for Article {
    fn eq(&self, other: &Self) -> (r: bool) {
        str_equal(self.title.as_str(), other.title.as_str()) && str_equal(
            self.text.as_str(),
            other.text.as_str(),
        )
    }
}

impl vstd::std_specs::cmp::PartialEqSpecImpl for Article {
    open spec fn obeys_eq_spec() -> bool {
        true
    }

    open spec fn eq_spec(&self, other: &Self) -> bool {
        self@ == other@
    }
}

impl Eq for Article {

}

/// `regex::Error`: why `regex::Regex::new` did not accept a pattern.
#[verifier::external_type_specification]
#[verifier::external_body]
pub struct ExRegexError(regex::Error);

/// Whether `regex::Regex::new` accepts the pattern.
pub uninterp spec fn regex_compiles(pattern: Seq<char>) -> bool;

/// For each of the successive matches of the pattern in the haystack that
/// do not overlap, what the capture group `group` matched, if it took part.
pub uninterp spec fn regex_group_matches(
    pattern: Seq<char>,
    haystack: Seq<char>,
    group: nat,
) -> Seq<Option<Seq<char>>>;

/// The views of optional string slices.
pub open spec fn optional_slices(found: Seq<Option<&str>>) -> Seq<Option<Seq<char>>> {
    Seq::new(
        found.len(),
        |i: int|
            match found[i] {
                Some(text) => Some(text@),
                None => None,
            },
    )
}

/// Compiles the pattern with `regex::Regex::new` and walks the haystack
/// with `Regex::captures_iter`; of every match it takes the capture group
/// `group` with `Captures::get` and its text with `Match::as_str`. It fails
/// exactly where the pattern does not compile.
#[verifier::external_body]
fn regex_groups<'h>(pattern: &str, haystack: &'h str, group: usize) -> (r: Result<
    Vec<Option<&'h str>>,
    regex::Error,
>)
    ensures
        r is Ok == regex_compiles(pattern@),
        r matches Ok(found) ==> optional_slices(found@) == regex_group_matches(
            pattern@,
            haystack@,
            group as nat,
        ),
{
    let re = regex::Regex::new(pattern)?;
    Ok(re.captures_iter(haystack).map(|c| c.get(group).map(|m| m.as_str())).collect())
}

/// The names that the capture groups stand for: the text of a group, and
/// the empty name where the group took no part in its match.
pub open spec fn names_of(found: Seq<Option<Seq<char>>>) -> Seq<Seq<char>> {
    Seq::new(
        found.len(),
        |i: int|
            match found[i] {
                Some(name) => name,
                None => Seq::empty(),
            },
    )
}

/// The pattern of a category link: `[[분류:` and `]]` around the shortest
/// name that fits.
pub open spec fn category_pattern() -> Seq<char> {
    "\\[\\[분류:(.*?)\\]\\]"@
}

/// The names of the categories that a body text links to, in the order of
/// the links; none where the pattern of a category link does not compile.
pub open spec fn category_names(text: Seq<char>) -> Seq<Seq<char>> {
    if regex_compiles(category_pattern()) {
        names_of(regex_group_matches(category_pattern(), text, 1))
    } else {
        Seq::empty()
    }
}

/// Whether a body text is a redirect: it begins with `#redirect`.
pub open spec fn is_redirect_text(text: Seq<char>) -> bool {
    "#redirect"@.is_prefix_of(text)
}

/// The title that a redirect points to: what follows the first ten
/// characters of the body text, without the whitespace at its ends.
pub open spec fn redirect_target(text: Seq<char>) -> Seq<char> {
    if text.len() < 10 {
        Seq::empty()
    } else {
        let start = trim_start(text, 10);
        text.subrange(start, trim_end(text, start, text.len() as int))
    }
}

/// The names that capture groups stand for.
pub fn category_names_of<'a>(found: &Vec<Option<&'a str>>) -> (names: Vec<&'a str>)
    ensures
        slices(names@) == names_of(optional_slices(found@)),
{
    let mut names: Vec<&'a str> = Vec::new();
    let mut i: usize = 0;
    while i < found.len()
        invariant
            0 <= i <= found.len(),
            names.len() == i,
            forall|j: int| 0 <= j < i ==> names[j]@ == names_of(optional_slices(found@))[j],
        decreases found.len() - i,
    {
        proof {
            reveal_strlit("");
        }
        let name: &'a str = match found[i] {
            Some(text) => text,
            None => "",
        };
        names.push(name);
        i += 1;
    }
    assert(slices(names@) =~= names_of(optional_slices(found@)));
    names
}

impl Article {
    /// The names of the categories that the article links to, in the order
    /// of the links.
    pub fn categories(&self) -> (names: Vec<&str>)
        ensures
            slices(names@) == category_names(self@.text),
    {
        match regex_groups("\\[\\[분류:(.*?)\\]\\]", self.text.as_str(), 1) {
            Ok(found) => category_names_of(&found),
            Err(_) => {
                let names: Vec<&str> = Vec::new();
                assert(slices(names@) =~= Seq::<Seq<char>>::empty());
                names
            },
        }
    }

    /// The title of the article together with its categories.
    pub fn to_article_category(&self) -> (r: ArticleCategory<'_>)
        ensures
            r.title@ == self@.title,
            slices(r.categories@) == category_names(self@.text),
    {
        ArticleCategory { title: self.title.as_str(), categories: self.categories() }
    }

    /// Whether the article is a redirect to another.
    pub fn is_redirect(&self) -> (r: bool)
        ensures
            r == is_redirect_text(self@.text),
    {
        str_starts_with(self.text.as_str(), "#redirect")
    }

    /// The title that the redirect points to.
    #[verifier::loop_isolation(false)]
    pub fn get_redirect(&self) -> (target: &str)
        ensures
            target@ == redirect_target(self@.text),
    {
        let text = self.text.as_str();
        let chars = chars_of(text);
        if chars.len() < 10 {
            proof {
                reveal_strlit("");
            }
            return "";
        }
        let mut start: usize = 10;
        while start < chars.len() && chars[start].is_whitespace()
            invariant
                10 <= start <= chars.len(),
                trim_start(chars@, start as int) == trim_start(chars@, 10),
            decreases chars.len() - start,
        {
            start += 1;
        }
        let mut end: usize = chars.len();
        while start < end && chars[end - 1].is_whitespace()
            invariant
                start <= end <= chars.len(),
                trim_end(chars@, start as int, end as int) == trim_end(
                    chars@,
                    start as int,
                    chars.len() as int,
                ),
            decreases end,
        {
            end -= 1;
        }
        text.substring_char(start, end)
    }
}

} // verus!
