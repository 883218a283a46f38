//! The title index: for a title, its article; and the titles that match a
//! pattern.

use crate::model::article::{is_redirect_text, redirect_target, Article, ArticleModel};
use crate::text::{contains_text, str_contains, str_ends_with, str_equal, str_starts_with};
use vstd::prelude::*;
use vstd::set_lib::{lemma_int_range, lemma_len_subset, set_int_range};

verus! {

/// How `find_by` compares a title with the text it looks for.
#[derive(Debug, PartialEq, Eq, Structural, Clone, Copy)]
pub enum TitleIndexFindOption {
    Exact,
    Contains,
    StartsWith,
    EndsWith,
}

/// Whether a title matches the text `what` under an option.
pub open spec fn title_matches(
    title: Seq<char>,
    what: Seq<char>,
    option: TitleIndexFindOption,
) -> bool {
    match option {
        TitleIndexFindOption::Exact => title == what,
        TitleIndexFindOption::Contains => contains_text(title, what),
        TitleIndexFindOption::StartsWith => what.is_prefix_of(title),
        TitleIndexFindOption::EndsWith => what.is_suffix_of(title),
    }
}

/// The first article from the `i`-th on that has the title `key`.
pub open spec fn article_from(entries: Seq<ArticleModel>, key: Seq<char>, i: int) -> Option<
    ArticleModel,
>
    decreases entries.len() - i,
{
    if 0 <= i < entries.len() {
        if entries[i].title == key {
            Some(entries[i])
        } else {
            article_from(entries, key, i + 1)
        }
    } else {
        None
    }
}

/// The article that the entries hold under the title `key`.
pub open spec fn article_of(entries: Seq<ArticleModel>, key: Seq<char>) -> Option<ArticleModel> {
    article_from(entries, key, 0)
}

/// The article that the title `key` leads to through at most `hops`
/// redirects: the article under that title, or, where that is a redirect,
/// the article that its target leads to. Nothing where a title on the way is
/// not in the index, or where the redirects do not end within `hops`.
pub open spec fn resolve(entries: Seq<ArticleModel>, key: Seq<char>, hops: nat) -> Option<
    ArticleModel,
>
    decreases hops,
{
    match article_of(entries, key) {
        Some(article) => if !is_redirect_text(article.text) {
            Some(article)
        } else if hops == 0 {
            None
        } else {
            resolve(entries, redirect_target(article.text), (hops - 1) as nat)
        },
        None => None,
    }
}

/// The titles from the `i`-th entry on that match, in the order of the
/// entries, after the titles `acc`.
pub open spec fn matching_from(
    entries: Seq<ArticleModel>,
    what: Seq<char>,
    option: TitleIndexFindOption,
    i: int,
    acc: Seq<Seq<char>>,
) -> Seq<Seq<char>>
    decreases entries.len() - i,
{
    if 0 <= i < entries.len() {
        if title_matches(entries[i].title, what, option) {
            matching_from(entries, what, option, i + 1, acc.push(entries[i].title))
        } else {
            matching_from(entries, what, option, i + 1, acc)
        }
    } else {
        acc
    }
}

/// The titles that match, in the order of the entries.
pub open spec fn matching_titles(
    entries: Seq<ArticleModel>,
    what: Seq<char>,
    option: TitleIndexFindOption,
) -> Seq<Seq<char>> {
    matching_from(entries, what, option, 0, Seq::empty())
}

/// A title that an entry has leads to an article.
pub proof fn lemma_article_of_title(entries: Seq<ArticleModel>, j: int, from: int)
    requires
        0 <= from <= j < entries.len(),
    ensures
        article_from(entries, entries[j].title, from) is Some,
    decreases j - from,
{
    if from < j && entries[from].title != entries[j].title {
        lemma_article_of_title(entries, j, from + 1);
    }
}

/// The titles that match are titles of entries.
pub proof fn lemma_matching_are_titles(
    entries: Seq<ArticleModel>,
    what: Seq<char>,
    option: TitleIndexFindOption,
    i: int,
    acc: Seq<Seq<char>>,
)
    requires
        0 <= i,
        forall|k: int| 0 <= k < acc.len() ==> article_of(entries, #[trigger] acc[k]) is Some,
    ensures
        forall|k: int|
            0 <= k < matching_from(entries, what, option, i, acc).len() ==> article_of(
                entries,
                #[trigger] matching_from(entries, what, option, i, acc)[k],
            ) is Some,
    decreases entries.len() - i,
{
    if i < entries.len() {
        if title_matches(entries[i].title, what, option) {
            let next = acc.push(entries[i].title);
            lemma_article_of_title(entries, i, 0);
            assert forall|k: int| 0 <= k < next.len() implies article_of(
                entries,
                #[trigger] next[k],
            ) is Some by {
                if k < acc.len() {
                    assert(next[k] == acc[k]);
                }
            }
            lemma_matching_are_titles(entries, what, option, i + 1, next);
        } else {
            lemma_matching_are_titles(entries, what, option, i + 1, acc);
        }
    }
}

/// The place of the first entry from the `i`-th on that has the title `key`;
/// the number of entries where there is none.
pub open spec fn position_from(entries: Seq<ArticleModel>, key: Seq<char>, i: int) -> int
    decreases entries.len() - i,
{
    if 0 <= i < entries.len() {
        if entries[i].title == key {
            i
        } else {
            position_from(entries, key, i + 1)
        }
    } else {
        entries.len() as int
    }
}

/// The place of the article under the title `key`.
pub open spec fn position_of(entries: Seq<ArticleModel>, key: Seq<char>) -> int {
    position_from(entries, key, 0)
}

proof fn lemma_position(entries: Seq<ArticleModel>, key: Seq<char>, i: int)
    requires
        0 <= i <= entries.len(),
    ensures
        i <= position_from(entries, key, i) <= entries.len(),
        article_from(entries, key, i) is Some <==> position_from(entries, key, i) < entries.len(),
        position_from(entries, key, i) < entries.len() ==> entries[position_from(
            entries,
            key,
            i,
        )].title == key,
    decreases entries.len() - i,
{
    if i < entries.len() && entries[i].title != key {
        lemma_position(entries, key, i + 1);
    }
}

/// The number of redirects that `resolve` follows from the title `key`.
pub open spec fn hops_taken(entries: Seq<ArticleModel>, key: Seq<char>, hops: nat) -> nat
    decreases hops,
{
    match article_of(entries, key) {
        Some(article) => if !is_redirect_text(article.text) || hops == 0 {
            0
        } else {
            1 + hops_taken(entries, redirect_target(article.text), (hops - 1) as nat)
        },
        None => 0,
    }
}

/// The places of the articles that `resolve` passes from the title `key`.
pub open spec fn places_passed(entries: Seq<ArticleModel>, key: Seq<char>, hops: nat) -> Set<int>
    decreases hops,
{
    match article_of(entries, key) {
        Some(article) => if !is_redirect_text(article.text) || hops == 0 {
            set![position_of(entries, key)]
        } else {
            places_passed(entries, redirect_target(article.text), (hops - 1) as nat).insert(
                position_of(entries, key),
            )
        },
        None => Set::empty(),
    }
}

/// Two resolutions from one title that both have an end have the same end,
/// after the same number of redirects.
proof fn lemma_resolve_agrees(entries: Seq<ArticleModel>, key: Seq<char>, h1: nat, h2: nat)
    requires
        resolve(entries, key, h1) is Some,
        resolve(entries, key, h2) is Some,
    ensures
        resolve(entries, key, h1) == resolve(entries, key, h2),
        hops_taken(entries, key, h1) == hops_taken(entries, key, h2),
        hops_taken(entries, key, h1) <= h1,
    decreases h1,
{
    let article = article_of(entries, key)->0;
    if is_redirect_text(article.text) {
        lemma_resolve_agrees(
            entries,
            redirect_target(article.text),
            (h1 - 1) as nat,
            (h2 - 1) as nat,
        );
    }
}

/// A resolution that has an end has the same end with any number of hops
/// that is no less than the number of redirects it follows.
proof fn lemma_resolve_with(entries: Seq<ArticleModel>, key: Seq<char>, hops: nat, other: nat)
    requires
        resolve(entries, key, hops) is Some,
        other >= hops_taken(entries, key, hops),
    ensures
        resolve(entries, key, other) == resolve(entries, key, hops),
    decreases hops,
{
    let article = article_of(entries, key)->0;
    if is_redirect_text(article.text) {
        lemma_resolve_with(
            entries,
            redirect_target(article.text),
            (hops - 1) as nat,
            (other - 1) as nat,
        );
    }
}

/// A resolution that has an end passes an article for each redirect it
/// follows and one more, all at different places of the index.
proof fn lemma_places_passed(entries: Seq<ArticleModel>, key: Seq<char>, hops: nat)
    requires
        resolve(entries, key, hops) is Some,
    ensures
        places_passed(entries, key, hops).finite(),
        places_passed(entries, key, hops).len() == hops_taken(entries, key, hops) + 1,
        forall|q: int| #[trigger]
            places_passed(entries, key, hops).contains(q) ==> 0 <= q < entries.len() && exists|
                h: nat,
            |
                resolve(entries, entries[q].title, h) is Some && #[trigger] hops_taken(
                    entries,
                    entries[q].title,
                    h,
                ) <= hops_taken(entries, key, hops),
    decreases hops,
{
    lemma_position(entries, key, 0);
    let here = position_of(entries, key);
    let article = article_of(entries, key)->0;
    if is_redirect_text(article.text) {
        let target = redirect_target(article.text);
        let before = (hops - 1) as nat;
        lemma_places_passed(entries, target, before);
        let inner = places_passed(entries, target, before);
        if inner.contains(here) {
            let h = choose|h: nat|
                resolve(entries, entries[here].title, h) is Some && #[trigger] hops_taken(
                    entries,
                    entries[here].title,
                    h,
                ) <= hops_taken(entries, target, before);
            lemma_resolve_agrees(entries, key, h, hops);
        }
        assert forall|q: int| #[trigger]
            places_passed(entries, key, hops).contains(q) implies 0 <= q < entries.len()
            && exists|h: nat|
            resolve(entries, entries[q].title, h) is Some && #[trigger] hops_taken(
                entries,
                entries[q].title,
                h,
            ) <= hops_taken(entries, key, hops) by {
            if q == here {
                assert(hops_taken(entries, entries[q].title, hops) <= hops_taken(
                    entries,
                    key,
                    hops,
                ));
            } else {
                assert(inner.contains(q));
                let h = choose|h: nat|
                    resolve(entries, entries[q].title, h) is Some && #[trigger] hops_taken(
                        entries,
                        entries[q].title,
                        h,
                    ) <= hops_taken(entries, target, before);
                assert(hops_taken(entries, entries[q].title, h) <= hops_taken(entries, key, hops));
            }
        }
    } else {
        assert(hops_taken(entries, entries[here].title, hops) <= hops_taken(entries, key, hops));
    }
}

/// As many hops as the index has articles are enough: redirects that have
/// an end have it before they pass more articles than there are, and more
/// hops lead to nothing that these do not lead to.
pub proof fn lemma_resolve_hops_suffice(entries: Seq<ArticleModel>, key: Seq<char>, hops: nat)
    requires
        hops >= entries.len(),
    ensures
        resolve(entries, key, hops) == resolve(entries, key, entries.len()),
{
    let enough = entries.len();
    if resolve(entries, key, hops) is Some {
        lemma_places_passed(entries, key, hops);
        let passed = places_passed(entries, key, hops);
        let places = set_int_range(0, entries.len() as int);
        lemma_int_range(0, entries.len() as int);
        assert(passed.subset_of(places)) by {
            assert forall|q: int| passed.contains(q) implies places.contains(q) by {}
        }
        lemma_len_subset(passed, places);
        lemma_resolve_with(entries, key, hops, enough);
    } else if resolve(entries, key, enough) is Some {
        lemma_resolve_agrees(entries, key, enough, enough);
        lemma_resolve_with(entries, key, enough, hops);
    }
}

/// No two articles have the same title.
pub open spec fn distinct_titles(entries: Seq<ArticleModel>) -> bool {
    forall|i: int, j: int|
        0 <= i < j < entries.len() ==> (#[trigger] entries[i]).title != (#[trigger] entries[j]).title
}

/// What `insert` does to the entries: the article takes the place of the one
/// that had its title, or comes last where none had.
pub open spec fn with_article(entries: Seq<ArticleModel>, article: ArticleModel, i: int) -> Seq<
    ArticleModel,
>
    decreases entries.len() - i,
{
    if 0 <= i < entries.len() {
        if entries[i].title == article.title {
            entries.update(i, article)
        } else {
            with_article(entries, article, i + 1)
        }
    } else {
        entries.push(article)
    }
}

/// The place of a record in a dump, from the offsets that an index file
/// holds for it: where it starts, and how many bytes it has. The first
/// offset is that of its first byte, the second that of its last. Nothing
/// where the offsets are fewer than two, or where the second is below the
/// first, or where the record has more bytes than can be counted.
pub open spec fn span_of(offsets: Seq<usize>) -> Option<(usize, usize)> {
    if offsets.len() >= 2 && offsets[0] <= offsets[1] && offsets[1] - offsets[0] + 1 <= usize::MAX {
        Some((offsets[0], (offsets[1] - offsets[0] + 1) as usize))
    } else {
        None
    }
}

/// The place of a record in a dump: where it starts, and how many bytes it
/// has.
pub fn record_span(offsets: &Vec<usize>) -> (r: Option<(usize, usize)>)
    ensures
        r == span_of(offsets@),
{
    if offsets.len() < 2 {
        return None;
    }
    let start = offsets[0];
    let end = offsets[1];
    if start > end || end - start == usize::MAX {
        return None;
    }
    Some((start, end - start + 1))
}

/// The mathematical value of an article that may have been found.
pub open spec fn found(r: Option<Article>) -> Option<ArticleModel> {
    match r {
        Some(article) => Some(article@),
        None => None,
    }
}

/// The views of borrowed strings.
pub open spec fn titles_view(titles: Seq<&String>) -> Seq<Seq<char>> {
    Seq::new(titles.len(), |i: int| titles[i]@)
}

/// Maps a title to its article. A title occurs at most once; the articles
/// keep the order in which their titles came in.
pub struct TitleIndex {
    articles: Vec<Article>,
}

impl View for TitleIndex {
    type V = Seq<ArticleModel>;

    closed spec fn view(&self) -> Seq<ArticleModel> {
        Seq::new(self.articles.len() as nat, |i: int| self.articles[i]@)
    }
}

impl TitleIndex {
    /// No title occurs twice.
    pub open spec fn wf(&self) -> bool {
        distinct_titles(self@)
    }

    /// An index without articles.
    pub fn new() -> (index: TitleIndex)
        ensures
            index@ == Seq::<ArticleModel>::empty(),
            index.wf(),
    {
        let index = TitleIndex { articles: Vec::new() };
        assert(index@ =~= Seq::<ArticleModel>::empty());
        index
    }

    /// Puts an article under its title.
    #[verifier::loop_isolation(false)]
    pub fn insert(&mut self, article: Article)
        ensures
            final(self)@ == with_article(old(self)@, article@, 0),
            old(self).wf() ==> final(self).wf(),
    {
        let ghost before = self@;
        let ghost entry = article@;
        let mut i: usize = 0;
        while i < self.articles.len()
            invariant
                0 <= i <= self.articles.len(),
                self@ == before,
                distinct_titles(before) == old(self).wf(),
                entry == article@,
                with_article(before, entry, i as int) == with_article(before, entry, 0),
                forall|j: int| 0 <= j < i ==> before[j].title != entry.title,
            decreases self.articles.len() - i,
        {
            assert(before[i as int] == self.articles[i as int]@);
            if str_equal(self.articles[i].title.as_str(), article.title.as_str()) {
                self.articles[i] = article;
                assert(self@ =~= before.update(i as int, entry));
                return ;
            }
            i += 1;
        }
        self.articles.push(article);
        assert(self@ =~= before.push(entry));
    }

    /// The article under the title `key`, redirect or not.
    pub fn get_no_redirect(&self, key: &str) -> (r: Option<Article>)
        ensures
            match r {
                Some(article) => article_of(self@, key@) == Some(article@),
                None => article_of(self@, key@) is None,
            },
    {
        let mut i: usize = 0;
        while i < self.articles.len()
            invariant
                0 <= i <= self.articles.len(),
                article_from(self@, key@, i as int) == article_of(self@, key@),
            decreases self.articles.len() - i,
        {
            assert(self@[i as int] == self.articles[i as int]@);
            if str_equal(self.articles[i].title.as_str(), key) {
                return Some(self.articles[i].clone());
            }
            i += 1;
        }
        None
    }

    /// The article that the title `key` leads to when redirects are
    /// followed to their end. Redirects that lead back to a title they came
    /// from have no end: they lead to nothing. The others pass an article at
    /// most once, so as many hops as the index has articles are enough, and
    /// more hops lead to the same.
    #[verifier::loop_isolation(false)]
    pub fn get(&self, key: &str) -> (r: Option<Article>)
        ensures
            found(r) == resolve(self@, key@, self@.len()),
            forall|hops: nat| hops >= self@.len() ==> found(r) == #[trigger] resolve(
                self@,
                key@,
                hops,
            ),
    {
        proof {
            assert forall|hops: nat| hops >= self@.len() implies resolve(self@, key@, self@.len())
                == #[trigger] resolve(self@, key@, hops) by {
                lemma_resolve_hops_suffice(self@, key@, hops);
            }
        }
        let mut current = self.get_no_redirect(key)?;
        let mut hops: usize = self.articles.len();
        loop
            invariant
                hops <= self@.len(),
                resolve(self@, key@, self@.len()) == (if !is_redirect_text(current@.text) {
                    Some(current@)
                } else if hops == 0 {
                    None
                } else {
                    resolve(self@, redirect_target(current@.text), (hops - 1) as nat)
                }),
            decreases hops,
        {
            if !current.is_redirect() {
                return Some(current);
            }
            if hops == 0 {
                return None;
            }
            hops -= 1;
            current = self.get_no_redirect(current.get_redirect())?;
        }
    }

    /// The titles that match `what` under `option`, in the order of the
    /// index.
    pub fn find_by(&self, what: &str, option: TitleIndexFindOption) -> (titles: Vec<&String>)
        ensures
            titles_view(titles@) == matching_titles(self@, what@, option),
    {
        let mut titles: Vec<&String> = Vec::new();
        assert(titles_view(titles@) =~= Seq::<Seq<char>>::empty());
        let mut i: usize = 0;
        while i < self.articles.len()
            invariant
                0 <= i <= self.articles.len(),
                matching_from(self@, what@, option, i as int, titles_view(titles@))
                    == matching_titles(self@, what@, option),
            decreases self.articles.len() - i,
        {
            assert(self@[i as int] == self.articles[i as int]@);
            let title = &self.articles[i].title;
            let matches = match option {
                TitleIndexFindOption::Exact => str_equal(title.as_str(), what),
                TitleIndexFindOption::Contains => str_contains(title.as_str(), what),
                TitleIndexFindOption::StartsWith => str_starts_with(title.as_str(), what),
                TitleIndexFindOption::EndsWith => str_ends_with(title.as_str(), what),
            };
            if matches {
                let ghost before = titles_view(titles@);
                titles.push(title);
                assert(titles_view(titles@) =~= before.push(title@));
            }
            i += 1;
        }
        titles
    }

    /// The title `what`, if the index holds an article under it.
    pub fn find_one_by(&self, what: &str) -> (r: Option<&String>)
        ensures
            match r {
                Some(title) => title@ == what@ && article_of(self@, what@) is Some,
                None => article_of(self@, what@) is None,
            },
    {
        let mut i: usize = 0;
        while i < self.articles.len()
            invariant
                0 <= i <= self.articles.len(),
                article_from(self@, what@, i as int) == article_of(self@, what@),
            decreases self.articles.len() - i,
        {
            assert(self@[i as int] == self.articles[i as int]@);
            if str_equal(self.articles[i].title.as_str(), what) {
                return Some(&self.articles[i].title);
            }
            i += 1;
        }
        None
    }
}

} // verus!
