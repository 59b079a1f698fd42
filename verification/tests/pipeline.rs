use bqg_epub::book::{Book, Chapter};
use bqg_epub::discovery::DiscoveryError;
use bqg_epub::packaging::{PackagingError, Reference};
use bqg_epub::retrieval::{FetchResponse, Outcome, MISSING_CONTENT};
use bqg_epub::util::{random_delay, replace_html_entities};

fn index_page() -> String {
    let mut page = String::new();
    page.push_str("<html><body>");
    page.push_str("<div id=\"info\"><h1>The Book</h1><p>Author: <a href=\"/a\">Someone</a></p></div>");
    page.push_str("<div id=\"intro\">A story.</div>");
    page.push_str("<div id=\"list\"><dl>");
    page.push_str("<dd><a href=\"3.html\">Ch3</a></dd>");
    page.push_str("<dd><a href=\"1.html\">Ch1</a></dd>");
    page.push_str("<dd><a href=\"1.html\">Ch1-dup</a></dd>");
    page.push_str("<dd><a href=\"2.html\">Ch2</a></dd>");
    page.push_str("</dl></div></body></html>");
    page
}

fn chapter_page(body: &str) -> String {
    format!("<html><body><div id=\"content\">{}</div></body></html>", body)
}

fn hrefs(book: &Book) -> Vec<String> {
    book.chapters.iter().map(|c| c.href.clone()).collect()
}

#[test]
fn entities_are_decoded() {
    assert_eq!(replace_html_entities("A&nbsp;&amp;&lt;B&gt;"), "A&<B>");
}

#[test]
fn entities_are_decoded_one_kind_after_the_other() {
    assert_eq!(replace_html_entities("&amp;lt;"), "<");
    assert_eq!(replace_html_entities("&am&nbsp;p;"), "&");
    assert_eq!(replace_html_entities("&amp;amp;"), "&amp;");
    assert_eq!(replace_html_entities(""), "");
    assert_eq!(replace_html_entities("&nbsp"), "&nbsp");
    assert_eq!(replace_html_entities("caf\u{e9}&gt;\u{4e2d}&lt;"), "caf\u{e9}>\u{4e2d}<");
}

#[test]
fn decoding_decoded_text_changes_nothing() {
    let once = replace_html_entities("x &lt; y &amp;&amp; y &gt; z&nbsp;");
    assert_eq!(once, "x < y && y > z");
    assert_eq!(replace_html_entities(&once), once);
}

#[test]
fn delay_stays_in_its_window() {
    for _ in 0..200 {
        let millis = random_delay();
        assert!(500 <= millis && millis < 2000);
    }
}

#[test]
fn number_is_read_from_the_link() {
    assert_eq!(Chapter::new("12.html", "t").number, 12);
    assert_eq!(Chapter::new("007.html", "t").number, 7);
    assert_eq!(Chapter::new("12", "t").number, 12);
    assert_eq!(Chapter::new("12.5.html", "t").number, 12);
    assert_eq!(Chapter::new("abc.html", "t").number, 0);
    assert_eq!(Chapter::new("12abc.html", "t").number, 0);
    assert_eq!(Chapter::new(".html", "t").number, 0);
    assert_eq!(Chapter::new("", "t").number, 0);
    assert_eq!(Chapter::new("+5.html", "t").number, 0);
    assert_eq!(Chapter::new("18446744073709551615.html", "t").number as u128, 18446744073709551615);
}

#[test]
fn number_that_does_not_fit_gives_no_chapter() {
    assert!(Chapter::try_new("18446744073709551616.html", "t").is_none());
    assert!(Chapter::try_new("99999999999999999999999.html", "t").is_none());
    assert!(Chapter::try_new("99999999999999999999999x.html", "t").is_some());
    let made = Chapter::try_new("4.html", "Four").unwrap();
    assert_eq!(made.number, 4);
    assert_eq!(made.href, "4.html");
    assert_eq!(made.title, "Four");
    assert_eq!(made.content, "");
}

#[test]
fn chapters_compare_by_link_and_order_by_number() {
    let a = Chapter::new("1.html", "one");
    let b = Chapter::new("1.html", "other title");
    let c = Chapter::new("1.htm", "one");
    assert!(a == b);
    assert!(a != c);
    assert!(a <= c && c <= a);
    assert!(Chapter::new("2.html", "") < Chapter::new("10.html", ""));
    assert!(Chapter::new("10.html", "") > Chapter::new("9.html", ""));
}

#[test]
fn update_content_hands_back_the_chapter() {
    let mut chapter = Chapter::new("1.html", "one");
    let copy = chapter.update_content("text");
    assert_eq!(chapter.content, "text");
    assert_eq!(copy.content, "text");
    assert_eq!(copy.href, "1.html");
    assert_eq!(copy.title, "one");
    assert_eq!(copy.number, 1);
}

#[test]
fn new_book_is_empty() {
    let book = Book::new("https://example.org/book/1/");
    assert_eq!(book.homepage, "https://example.org/book/1/");
    assert_eq!(book.title, "");
    assert_eq!(book.author, "");
    assert_eq!(book.intro, "");
    assert!(book.chapters.is_empty());
}

#[test]
fn duplicate_links_are_kept_once() {
    let mut book = Book::new("https://example.org/book/1/");
    book.add_chapter(Chapter::new("3.html", "Ch3"));
    book.add_chapter(Chapter::new("1.html", "Ch1"));
    book.add_chapter(Chapter::new("1.html", "Ch1-dup"));
    book.add_chapter(Chapter::new("2.html", "Ch2"));
    assert_eq!(hrefs(&book), vec!["3.html", "1.html", "2.html"]);
    assert_eq!(book.chapters[1].title, "Ch1");
    for _ in 0..5 {
        book.add_chapter(Chapter::new("2.html", "again"));
    }
    assert_eq!(book.chapters.len(), 3);
    assert_eq!(book.chapters[2].title, "Ch2");
}

#[test]
fn discovery_reads_the_index_page() {
    let mut book = Book::new("https://example.org/book/1/");
    let skipped = book.get_book_info(&index_page()).unwrap();
    assert!(skipped.is_empty());
    assert_eq!(book.title, "The Book");
    assert_eq!(book.author, "Someone");
    assert_eq!(book.intro, "A story.");
    assert_eq!(hrefs(&book), vec!["3.html", "1.html", "2.html"]);
    assert_eq!(book.chapters[1].title, "Ch1");
    assert_eq!(book.chapters[1].content, "");
    book.sort_chapters();
    assert_eq!(hrefs(&book), vec!["1.html", "2.html", "3.html"]);
    assert_eq!(book.chapters[0].title, "Ch1");
}

#[test]
fn discovery_joins_text_nodes_with_a_space() {
    let page = index_page().replace(">Ch3<", "><b>Ch</b><i>3</i><");
    let mut book = Book::new("https://example.org/");
    book.get_book_info(&page).unwrap();
    assert_eq!(book.chapters[0].title, "Ch 3");
}

#[test]
fn discovery_skips_malformed_and_unaddressed_links() {
    let page = index_page().replace(
        "<dd><a href=\"2.html\">Ch2</a></dd>",
        "<dd><a href=\"99999999999999999999999.html\">Big</a></dd><dd><a>None</a></dd><dd><a href=\"2.html\">Ch2</a></dd>",
    );
    let mut book = Book::new("https://example.org/");
    let skipped = book.get_book_info(&page).unwrap();
    assert_eq!(skipped, vec!["99999999999999999999999.html"]);
    assert_eq!(hrefs(&book), vec!["3.html", "1.html", "2.html"]);
}

#[test]
fn discovery_needs_author_synopsis_and_title() {
    let page = index_page();
    let mut book = Book::new("https://example.org/");
    let no_author = page.replace("<a href=\"/a\">Someone</a>", "Someone");
    assert_eq!(book.get_book_info(&no_author), Err(DiscoveryError::NoAuthor));
    let no_intro = page.replace("id=\"intro\"", "id=\"other\"");
    assert_eq!(book.get_book_info(&no_intro), Err(DiscoveryError::NoIntro));
    let no_title = page.replace("h1>", "h2>");
    assert_eq!(book.get_book_info(&no_title), Err(DiscoveryError::NoTitle));
    assert_eq!(book.get_book_info(""), Err(DiscoveryError::NoAuthor));
    assert_eq!(book.title, "");
    assert_eq!(book.author, "");
    assert!(book.chapters.is_empty());
}

#[test]
fn sort_is_ascending_and_stable() {
    let mut book = Book::new("https://example.org/");
    for (href, title) in [
        ("2.html", "a"),
        ("x.html", "b"),
        ("1.html", "c"),
        ("2.htm", "d"),
        ("y.html", "e"),
        ("10.html", "f"),
        ("1.htm", "g"),
    ] {
        book.add_chapter(Chapter::new(href, title));
    }
    book.sort_chapters();
    assert_eq!(
        hrefs(&book),
        vec!["x.html", "y.html", "1.html", "1.htm", "2.html", "2.htm", "10.html"]
    );
    let titles: Vec<&str> = book.chapters.iter().map(|c| c.title.as_str()).collect();
    assert_eq!(titles, vec!["b", "e", "c", "g", "a", "d", "f"]);
    let once = hrefs(&book);
    book.sort_chapters();
    assert_eq!(hrefs(&book), once);
}

fn discovered_book() -> Book {
    let mut book = Book::new("https://example.org/book/1/");
    book.get_book_info(&index_page()).unwrap();
    book
}

#[test]
fn requests_follow_reading_order() {
    let mut book = discovered_book();
    let requests = book.prepare_retrieval();
    assert_eq!(hrefs(&book), vec!["1.html", "2.html", "3.html"]);
    assert_eq!(requests.len(), 3);
    for (request, chapter) in requests.iter().zip(book.chapters.iter()) {
        assert_eq!(request.href, chapter.href);
        assert!(500 <= request.delay_millis && request.delay_millis < 2000);
    }
    assert_eq!(
        requests[0].address,
        Ok(String::from("https://example.org/book/1/1.html"))
    );
    assert_eq!(
        requests[2].address,
        Ok(String::from("https://example.org/book/1/3.html"))
    );
}

#[test]
fn link_resolves_against_the_index_page() {
    let chapter = Chapter::new("7.html", "seven");
    let request = chapter.fetch_request("https://example.org/a/b.html");
    assert_eq!(request.address, Ok(String::from("https://example.org/a/7.html")));
    let request = chapter.fetch_request("not an address");
    assert!(request.address.is_err());
    assert_eq!(request.href, "7.html");
}

#[test]
fn content_is_read_from_the_page() {
    let mut chapter = Chapter::new("1.html", "one");
    let page = chapter_page("first<br>second &amp;amp; third&nbsp;");
    let copy = chapter.scraper_chapter_content(&page);
    assert_eq!(chapter.content, "first\r\nsecond & third\u{a0}");
    assert_eq!(copy.content, chapter.content);
    assert_eq!(copy.href, "1.html");
}

#[test]
fn page_without_body_text_gives_the_placeholder() {
    let mut book = discovered_book();
    book.prepare_retrieval();
    let responses = vec![
        FetchResponse { href: String::from("1.html"), body: Ok(chapter_page("one")) },
        FetchResponse {
            href: String::from("2.html"),
            body: Ok(String::from("<html><body><p>nothing here</p></body></html>")),
        },
        FetchResponse { href: String::from("3.html"), body: Ok(chapter_page("three")) },
    ];
    let failures = book.scraper_chapter(&responses).unwrap();
    assert!(failures.is_empty());
    assert_eq!(book.chapters[1].href, "2.html");
    assert_eq!(book.chapters[1].content, MISSING_CONTENT);
    assert_eq!(book.chapters[1].content, "this chapter may have no content ");
    let entries = book.content_entries();
    assert_eq!(entries.len(), 3);
    assert_eq!(entries[1].href, "2.html");
    assert!(entries[1].body.contains("<p>this chapter may have no content </p>"));
}

#[test]
fn failed_chapter_keeps_its_place() {
    let mut book = discovered_book();
    book.prepare_retrieval();
    let responses = vec![
        FetchResponse { href: String::from("3.html"), body: Err(String::from("connection reset")) },
        FetchResponse { href: String::from("2.html"), body: Ok(chapter_page("two")) },
        FetchResponse { href: String::from("1.html"), body: Ok(chapter_page("one")) },
    ];
    let failures = book.scraper_chapter(&responses).unwrap();
    assert_eq!(failures.len(), 1);
    assert_eq!(failures[0].href, "3.html");
    assert_eq!(failures[0].cause, "connection reset");
    assert_eq!(hrefs(&book), vec!["1.html", "2.html", "3.html"]);
    assert_eq!(book.chapters[0].content, "one");
    assert_eq!(book.chapters[1].content, "two");
    assert_eq!(book.chapters[2].content, "");
    let entries = book.content_entries();
    assert_eq!(entries.len(), 3);
    assert_eq!(entries[2].href, "3.html");
    assert_eq!(entries[2].title, "Ch3");
    assert!(entries[2].body.contains("<h1>Ch3</h1>"));
    assert!(entries[2].body.contains("<p></p>"));
}

#[test]
fn order_of_outcomes_moves_no_chapter() {
    let outcomes = |order: [usize; 3]| -> Vec<Outcome> {
        order
            .iter()
            .map(|n| Outcome::Success { href: format!("{}.html", n), content: format!("text {}", n) })
            .collect()
    };
    let mut expected: Option<Vec<(String, String)>> = None;
    for order in [[1, 2, 3], [1, 3, 2], [2, 1, 3], [2, 3, 1], [3, 1, 2], [3, 2, 1]] {
        let mut book = discovered_book();
        book.prepare_retrieval();
        let failures = book.merge(&outcomes(order)).unwrap();
        assert!(failures.is_empty());
        let got: Vec<(String, String)> =
            book.chapters.iter().map(|c| (c.href.clone(), c.content.clone())).collect();
        match &expected {
            Some(first) => assert_eq!(&got, first),
            None => {
                assert_eq!(got[0], (String::from("1.html"), String::from("text 1")));
                assert_eq!(got[2], (String::from("3.html"), String::from("text 3")));
                expected = Some(got);
            }
        }
    }
}

#[test]
fn stray_success_is_an_error_and_changes_nothing() {
    let mut book = discovered_book();
    let outcomes = vec![
        Outcome::Success { href: String::from("1.html"), content: String::from("one") },
        Outcome::Success { href: String::from("9.html"), content: String::from("nine") },
        Outcome::Success { href: String::from("8.html"), content: String::from("eight") },
    ];
    let error = book.merge(&outcomes).unwrap_err();
    assert_eq!(error.href, "9.html");
    assert!(book.chapters.iter().all(|c| c.content.is_empty()));
    let stray_failure = vec![Outcome::Failure {
        href: String::from("9.html"),
        cause: String::from("gone"),
    }];
    let failures = book.merge(&stray_failure).unwrap();
    assert_eq!(failures.len(), 1);
}

#[test]
fn update_chapter_content_takes_the_first_match_only() {
    let mut book = discovered_book();
    assert!(book.update_chapter_content("1.html", "text"));
    assert_eq!(book.chapters[1].content, "text");
    assert!(!book.update_chapter_content("none.html", "lost"));
    assert_eq!(book.chapters.len(), 3);
    assert_eq!(book.chapters[0].content, "");
    assert_eq!(book.chapters[2].content, "");
    assert_eq!(book.find_chapter("2.html"), Some(2));
    assert_eq!(book.find_chapter("none.html"), None);
}

#[test]
fn entry_wraps_title_and_content() {
    let mut chapter = Chapter::new("1.html", "One");
    chapter.update_content("Text");
    let entry = chapter.content_entry();
    assert_eq!(entry.href, "1.html");
    assert_eq!(entry.title, "One");
    assert_eq!(entry.reference, Reference::Text);
    let expected = format!(
        r#"<?xml version="1.0" encoding="UTF-8"?>
            <!DOCTYPE html>
            <html xmlns="http://www.w3.org/1999/xhtml">
            <head>
                <title>{}</title>
                <link rel="stylesheet" type="text/css" href="style/styles.css" />
            </head>
            <body>
                <h1>{}</h1>
                <p>{}</p>
            </body>
            </html>"#,
        "One", "One", "Text"
    );
    assert_eq!(entry.body, expected);
}

#[test]
fn epub_needs_cover_and_stylesheet() {
    let book = discovered_book();
    assert!(matches!(book.generate_epub(None, Some(b"p {}")), Err(PackagingError::MissingCover)));
    assert!(matches!(book.generate_epub(None, None), Err(PackagingError::MissingCover)));
    assert!(matches!(
        book.generate_epub(Some(b"image"), None),
        Err(PackagingError::MissingStylesheet)
    ));
}

#[test]
fn epub_is_a_zip_archive_with_the_chapters() {
    let mut book = discovered_book();
    book.prepare_retrieval();
    book.update_chapter_content("2.html", "second chapter");
    let bytes = book.generate_epub(Some(b"image"), Some(b"p { margin: 0 }")).unwrap();
    assert_eq!(&bytes[0..2], b"PK");
    let text = String::from_utf8_lossy(&bytes);
    assert!(text.contains("mimetypeapplication/epub+zip"));
    for name in ["OEBPS/1.html", "OEBPS/2.html", "OEBPS/3.html", "OEBPS/cover.jpg", "OEBPS/toc.xhtml"] {
        assert!(text.contains(name), "{} is missing", name);
    }
}
