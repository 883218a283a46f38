//! The category index: for the title of an article, the names of its
//! categories.

use crate::text::{str_equal, texts};
use vstd::prelude::*;

verus! {

/// The categories of one article.
struct Entry {
    title: String,
    categories: Vec<String>,
}

/// The mathematical value of an entry: a title and the names of its
/// categories.
pub struct CategoriesModel {
    pub title: Seq<char>,
    pub categories: Seq<Seq<char>>,
}

/// The categories of the first entry from the `i`-th on that has the title
/// `key`.
pub open spec fn categories_from(entries: Seq<CategoriesModel>, key: Seq<char>, i: int) -> Option<
    Seq<Seq<char>>,
>
    decreases entries.len() - i,
{
    if 0 <= i < entries.len() {
        if entries[i].title == key {
            Some(entries[i].categories)
        } else {
            categories_from(entries, key, i + 1)
        }
    } else {
        None
    }
}

/// The categories that the entries hold for the title `key`.
pub open spec fn categories_of(entries: Seq<CategoriesModel>, key: Seq<char>) -> Option<
    Seq<Seq<char>>,
> {
    categories_from(entries, key, 0)
}

/// No two entries have the same title.
pub open spec fn distinct_titles(entries: Seq<CategoriesModel>) -> bool {
    forall|i: int, j: int|
        0 <= i < j < entries.len() ==> (#[trigger] entries[i]).title != (#[trigger] entries[j]).title
}

/// What `insert` does to the entries: the new categories take the place of
/// those that the title had, or come last where it had none.
pub open spec fn with_entry(entries: Seq<CategoriesModel>, entry: CategoriesModel, i: int) -> Seq<
    CategoriesModel,
>
    decreases entries.len() - i,
{
    if 0 <= i < entries.len() {
        if entries[i].title == entry.title {
            entries.update(i, entry)
        } else {
            with_entry(entries, entry, i + 1)
        }
    } else {
        entries.push(entry)
    }
}

/// Maps the title of an article to the names of its categories. A title
/// occurs at most once.
pub struct CategoryIndex {
    entries: Vec<Entry>,
}

impl View for CategoryIndex {
    type V = Seq<CategoriesModel>;

    closed spec fn view(&self) -> Seq<CategoriesModel> {
        Seq::new(
            self.entries.len() as nat,
            |i: int|
                CategoriesModel {
                    title: self.entries[i].title@,
                    categories: texts(self.entries[i].categories@),
                },
        )
    }
}

impl CategoryIndex {
    /// No title occurs twice.
    pub open spec fn wf(&self) -> bool {
        distinct_titles(self@)
    }

    /// An index without entries.
    pub fn new() -> (index: CategoryIndex)
        ensures
            index@ == Seq::<CategoriesModel>::empty(),
            index.wf(),
    {
        let index = CategoryIndex { entries: Vec::new() };
        assert(index@ =~= Seq::<CategoriesModel>::empty());
        index
    }

    /// Sets the categories of the article `title`.
    #[verifier::loop_isolation(false)]
    pub fn insert(&mut self, title: String, categories: Vec<String>)
        ensures
            final(self)@ == with_entry(
                old(self)@,
                CategoriesModel { title: title@, categories: texts(categories@) },
                0,
            ),
            old(self).wf() ==> final(self).wf(),
    {
        let ghost before = self@;
        let ghost entry = CategoriesModel { title: title@, categories: texts(categories@) };
        let mut i: usize = 0;
        while i < self.entries.len()
            invariant
                0 <= i <= self.entries.len(),
                self@ == before,
                distinct_titles(before) == old(self).wf(),
                entry == (CategoriesModel { title: title@, categories: texts(categories@) }),
                with_entry(before, entry, i as int) == with_entry(before, entry, 0),
                forall|j: int| 0 <= j < i ==> before[j].title != title@,
            decreases self.entries.len() - i,
        {
            assert(before[i as int].title == self.entries[i as int].title@);
            if str_equal(self.entries[i].title.as_str(), title.as_str()) {
                self.entries[i] = Entry { title, categories };
                assert(self@ =~= before.update(i as int, entry));
                return ;
            }
            i += 1;
        }
        self.entries.push(Entry { title, categories });
        assert(self@ =~= before.push(entry));
    }

    /// The categories of the article `key`, if the index holds it.
    pub fn get(&self, key: &str) -> (r: Option<&Vec<String>>)
        ensures
            match r {
                Some(categories) => categories_of(self@, key@) == Some(texts(categories@)),
                None => categories_of(self@, key@) is None,
            },
    {
        let mut i: usize = 0;
        while i < self.entries.len()
            invariant
                0 <= i <= self.entries.len(),
                categories_from(self@, key@, i as int) == categories_of(self@, key@),
            decreases self.entries.len() - i,
        {
            assert(self@[i as int].title == self.entries[i as int].title@);
            if str_equal(self.entries[i].title.as_str(), key) {
                return Some(&self.entries[i].categories);
            }
            i += 1;
        }
        None
    }
}

} // verus!
