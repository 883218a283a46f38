use wiki_query::index::category::CategoryIndex;
use wiki_query::index::title::{record_span, TitleIndex, TitleIndexFindOption};
use wiki_query::model::article::Article;

fn article(title: &str, text: &str) -> Article {
    Article { title: String::from(title), text: String::from(text) }
}

fn titles() -> TitleIndex {
    let mut index = TitleIndex::new();
    index.insert(article("abcdef", "first"));
    index.insert(article("abcxyz", "second"));
    index.insert(article("xyzabc", "third"));
    index.insert(article("동방지령전", "게임 [[분류:동방 프로젝트]]"));
    index.insert(article("지령전", "#redirect 동방지령전\n"));
    index.insert(article("령전", "#redirect 지령전"));
    index.insert(article("고리", "#redirect 고리"));
    index.insert(article("끊김", "#redirect 없는 문서"));
    index
}

fn found(index: &TitleIndex, what: &str, option: TitleIndexFindOption) -> Vec<String> {
    index.find_by(what, option).into_iter().cloned().collect()
}

#[test]
fn title_index_find_by_options() {
    let index = titles();
    assert_eq!(found(&index, "abc", TitleIndexFindOption::StartsWith), vec!["abcdef", "abcxyz"]);
    assert_eq!(found(&index, "abcd", TitleIndexFindOption::StartsWith), vec!["abcdef"]);
    assert_eq!(found(&index, "abc", TitleIndexFindOption::EndsWith), vec!["xyzabc"]);
    assert_eq!(
        found(&index, "abc", TitleIndexFindOption::Contains),
        vec!["abcdef", "abcxyz", "xyzabc"]
    );
    assert_eq!(found(&index, "bcx", TitleIndexFindOption::Contains), vec!["abcxyz"]);
    assert_eq!(found(&index, "abcxyz", TitleIndexFindOption::Exact), vec!["abcxyz"]);
    assert_eq!(found(&index, "abc", TitleIndexFindOption::Exact), Vec::<String>::new());
    assert_eq!(
        found(&index, "령전", TitleIndexFindOption::EndsWith),
        vec!["동방지령전", "지령전", "령전"]
    );
    assert_eq!(found(&index, "", TitleIndexFindOption::Contains).len(), 8);
    assert_eq!(found(&index, "nothing", TitleIndexFindOption::Contains), Vec::<String>::new());
}

#[test]
fn title_index_find_one_by() {
    let index = titles();
    assert_eq!(index.find_one_by("abcdef").map(|s| s.as_str()), Some("abcdef"));
    assert_eq!(index.find_one_by("abc"), None);
    assert_eq!(index.find_one_by("동방지령전").map(|s| s.as_str()), Some("동방지령전"));
}

#[test]
fn title_index_get_no_redirect_returns_the_raw_record() {
    let index = titles();
    let raw = index.get_no_redirect("지령전").unwrap();
    assert_eq!(raw.title, "지령전");
    assert_eq!(raw.text, "#redirect 동방지령전\n");
    assert!(index.get_no_redirect("없음").is_none());
}

#[test]
fn title_index_get_follows_redirects_to_their_end() {
    let index = titles();
    assert_eq!(index.get("동방지령전").unwrap().title, "동방지령전");
    assert_eq!(index.get("지령전").unwrap().title, "동방지령전");
    assert_eq!(index.get("령전").unwrap().title, "동방지령전");
    assert!(index.get("없음").is_none());
    assert!(index.get("끊김").is_none());
    assert!(index.get("고리").is_none());
}

#[test]
fn title_index_insert_replaces_same_title() {
    let mut index = titles();
    index.insert(article("abcxyz", "changed"));
    assert_eq!(
        found(&index, "abc", TitleIndexFindOption::StartsWith),
        vec!["abcdef", "abcxyz"]
    );
    assert_eq!(index.get_no_redirect("abcxyz").unwrap().text, "changed");
    assert_eq!(found(&index, "", TitleIndexFindOption::Contains).len(), 8);
}

#[test]
fn category_index_get_and_insert() {
    let mut index = CategoryIndex::new();
    assert!(index.get("a").is_none());
    index.insert(String::from("a"), vec![String::from("x"), String::from("y")]);
    index.insert(String::from("b"), vec![]);
    assert_eq!(index.get("a"), Some(&vec![String::from("x"), String::from("y")]));
    assert_eq!(index.get("b"), Some(&vec![]));
    assert!(index.get("c").is_none());
    index.insert(String::from("a"), vec![String::from("z")]);
    assert_eq!(index.get("a"), Some(&vec![String::from("z")]));
    assert_eq!(index.get("b"), Some(&vec![]));
}

#[test]
fn article_redirect() {
    assert!(article("a", "#redirect b").is_redirect());
    assert!(article("a", "#redirect").is_redirect());
    assert!(!article("a", " #redirect b").is_redirect());
    assert!(!article("a", "#Redirect b").is_redirect());
    assert!(!article("a", "").is_redirect());
    assert_eq!(article("a", "#redirect b").get_redirect(), "b");
    assert_eq!(article("a", "#redirect  동방 프로젝트 \n\t").get_redirect(), "동방 프로젝트");
    assert_eq!(article("a", "#redirect\u{3000}b c\u{a0}").get_redirect(), "b c");
    assert_eq!(article("a", "#redirect \n ").get_redirect(), "");
    assert_eq!(article("a", "#redirect").get_redirect(), "");
    assert_eq!(article("a", "short").get_redirect(), "");
    assert_eq!(article("a", "0123456789abc").get_redirect(), "abc");
}

#[test]
fn article_categories() {
    let a = article(
        "동방지령전",
        "본문 [[분류:동방 프로젝트]] 그리고 [[분류:슈팅 게임]]\n[[분류:]] [[분류:줄\n바꿈]] [[분류:끝]]",
    );
    assert_eq!(a.categories(), vec!["동방 프로젝트", "슈팅 게임", "", "끝"]);
    assert_eq!(article("a", "no links here").categories(), Vec::<&str>::new());
    assert_eq!(article("a", "[[분류:a]][[분류:b]]]]").categories(), vec!["a", "b"]);
    let entry = a.to_article_category();
    assert_eq!(entry.title, "동방지령전");
    assert_eq!(entry.categories, vec!["동방 프로젝트", "슈팅 게임", "", "끝"]);
}

#[test]
fn record_span_of_offsets() {
    assert_eq!(record_span(&vec![3, 10]), Some((3, 8)));
    assert_eq!(record_span(&vec![0, 0]), Some((0, 1)));
    assert_eq!(record_span(&vec![7, 7, 99]), Some((7, 1)));
    assert_eq!(record_span(&vec![10, 3]), None);
    assert_eq!(record_span(&vec![5]), None);
    assert_eq!(record_span(&vec![]), None);
    assert_eq!(record_span(&vec![0, usize::MAX]), None);
    assert_eq!(record_span(&vec![1, usize::MAX]), Some((1, usize::MAX)));
}
