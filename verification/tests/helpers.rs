use bqg_epub::book::Chapter;
use bqg_epub::hitokoto::sentence::{
    find_category, random_sentence, sentence_at, Category, SelectionError, Sentence,
};
use bqg_epub::markup::select_all;
use bqg_epub::text::{decimal, from_chars, join_text, replace_chars, to_chars};
use bqg_epub::util::{default_headers, random_delay};

fn chars(s: &str) -> Vec<char> {
    s.chars().collect()
}

fn saying(id: i64, text: &str) -> Sentence {
    Sentence { id, hitokoto: String::from(text), ..Sentence::default() }
}

fn category(name: &str, sayings: Vec<Sentence>) -> Category {
    let mut made = Category::new(name);
    made.sentence = sayings;
    made
}

#[test]
fn text_goes_to_characters_and_back() {
    assert_eq!(to_chars("a\u{e9}\u{4e2d}\u{1f600}"), vec!['a', '\u{e9}', '\u{4e2d}', '\u{1f600}']);
    assert_eq!(to_chars(""), Vec::<char>::new());
    assert_eq!(from_chars(&vec!['o', 'k', '\u{4e2d}']), "ok\u{4e2d}");
    assert_eq!(from_chars(&vec![]), "");
}

#[test]
fn replace_scans_from_the_left_without_overlap() {
    let replaced = |s: &str, pattern: &str, with: &str| -> String {
        replace_chars(&chars(s), &chars(pattern), &chars(with)).into_iter().collect()
    };
    assert_eq!(replaced("aaaa", "aa", "b"), "bb");
    assert_eq!(replaced("aaa", "aa", "b"), "ba");
    assert_eq!(replaced("abcabc", "bc", ""), "aa");
    assert_eq!(replaced("abc", "abcd", "x"), "abc");
    assert_eq!(replaced("", "a", "x"), "");
    assert_eq!(replaced("xay", "a", "aa"), "xaay");
    assert_eq!(replaced("a-b-c", "-", "--"), "a--b--c");
    assert_eq!(replaced("abc", "", "x"), "abc");
    for (s, pattern, with) in [("hello world", "o", "0"), ("&&&", "&&", "&"), ("ab", "ab", "")] {
        assert_eq!(replaced(s, pattern, with), s.replace(pattern, with));
    }
}

#[test]
fn join_puts_the_separator_between_pieces() {
    let pieces = |items: &[&str]| -> Vec<String> { items.iter().map(|s| s.to_string()).collect() };
    assert_eq!(join_text(&pieces(&[]), ", "), "");
    assert_eq!(join_text(&pieces(&["a"]), ", "), "a");
    assert_eq!(join_text(&pieces(&["a", "b", "c"]), ", "), "a, b, c");
    assert_eq!(join_text(&pieces(&["", ""]), "-"), "-");
    assert_eq!(join_text(&pieces(&["x", "", "y"]), "\r\n"), "x\r\n\r\ny");
}

#[test]
fn decimal_writes_numbers() {
    assert_eq!(decimal(0), "0");
    assert_eq!(decimal(7), "7");
    assert_eq!(decimal(10), "10");
    assert_eq!(decimal(1234567890), "1234567890");
    assert_eq!(decimal(usize::MAX), usize::MAX.to_string());
}

#[test]
fn dump_path_is_named_after_the_number() {
    assert_eq!(Chapter::new("12.html", "t").dump_path(), "books/12.txt");
    assert_eq!(Chapter::new("007.html", "t").dump_path(), "books/7.txt");
    assert_eq!(Chapter::new("intro.html", "t").dump_path(), "books/0.txt");
}

#[test]
fn default_headers_are_the_four() {
    let headers = default_headers();
    let pairs: Vec<(&str, &str)> =
        headers.iter().map(|h| (h.name.as_str(), h.value.as_str())).collect();
    assert_eq!(
        pairs,
        vec![
            (
                "user-agent",
                "Mozilla/5.0 (Windows NT 10.0; Win64; x64) AppleWebKit/537.36 (KHTML, like Gecko) Chrome/126.0.0.0 Safari/537.36"
            ),
            ("accept", "application/json, text/plain, */*"),
            ("accept-language", "zh-CN,zh;q=0.9,en;q=0.8,ja;q=0.7"),
            ("accept-encoding", "gzip, deflate, br"),
        ]
    );
}

#[test]
fn delays_vary() {
    let first = random_delay();
    assert!((0..200).any(|_| random_delay() != first));
}

#[test]
fn selection_hands_out_attribute_and_text() {
    let page = "<ul><li class=\"x\" data-k=\"1\">one</li><li>two</li><li class=\"x\">thr<b>e</b>e</li></ul>";
    let found = select_all(page, "li.x", "data-k");
    assert_eq!(found.len(), 2);
    assert_eq!(found[0].attribute.as_deref(), Some("1"));
    assert_eq!(found[0].text, vec!["one"]);
    assert_eq!(found[1].attribute, None);
    assert_eq!(found[1].text, vec!["thr", "e", "e"]);
    assert!(select_all(page, "p", "data-k").is_empty());
    assert!(select_all("", "li", "data-k").is_empty());
}

#[test]
fn refused_selector_selects_nothing() {
    let page = "<ul><li>one</li></ul>";
    assert_eq!(select_all(page, "li", "id").len(), 1);
    assert!(select_all(page, "li >", "id").is_empty());
    assert!(select_all(page, "", "id").is_empty());
    assert!(select_all(page, "<<<", "id").is_empty());
}

#[test]
fn last_category_of_the_name_is_found() {
    let categories = vec![
        category("a", vec![saying(1, "first")]),
        category("b", vec![]),
        category("a", vec![saying(2, "second"), saying(3, "third")]),
    ];
    assert_eq!(find_category(&categories, "a"), Some(2));
    assert_eq!(find_category(&categories, "b"), Some(1));
    assert_eq!(find_category(&categories, "c"), None);
    assert_eq!(find_category(&Vec::new(), "a"), None);
}

#[test]
fn saying_comes_from_the_last_category_of_the_name() {
    let categories = vec![
        category("a", vec![saying(1, "first")]),
        category("b", vec![]),
        category("a", vec![saying(2, "second"), saying(3, "third")]),
    ];
    let mut seen = [false; 2];
    for _ in 0..200 {
        let chosen = random_sentence(&categories, "a").unwrap();
        assert!(chosen.id == 2 || chosen.id == 3);
        seen[(chosen.id - 2) as usize] = true;
    }
    assert_eq!(seen, [true, true]);
}

#[test]
fn no_saying_without_a_category_or_in_an_empty_one() {
    let categories = vec![category("a", vec![saying(1, "first")]), category("b", vec![])];
    assert_eq!(random_sentence(&categories, "c"), Err(SelectionError::UnknownCategory));
    assert_eq!(random_sentence(&categories, "b"), Err(SelectionError::EmptyCategory));
    assert_eq!(random_sentence(&categories, "a").unwrap().hitokoto, "first");
    let shadowed = vec![category("a", vec![saying(1, "first")]), category("a", vec![])];
    assert_eq!(random_sentence(&shadowed, "a"), Err(SelectionError::EmptyCategory));
}

#[test]
fn saying_at_a_place_of_the_last_category() {
    let categories = vec![
        category("a", vec![saying(1, "first")]),
        category("b", vec![]),
        category("a", vec![saying(2, "second"), saying(3, "third")]),
    ];
    assert_eq!(sentence_at(&categories, "a", 0).unwrap().id, 2);
    assert_eq!(sentence_at(&categories, "a", 1).unwrap().hitokoto, "third");
    assert_eq!(sentence_at(&categories, "a", 2), Err(SelectionError::NoSuchSaying));
    assert_eq!(sentence_at(&categories, "a", usize::MAX), Err(SelectionError::NoSuchSaying));
    assert_eq!(sentence_at(&categories, "b", 0), Err(SelectionError::EmptyCategory));
    assert_eq!(sentence_at(&categories, "c", 0), Err(SelectionError::UnknownCategory));
}
