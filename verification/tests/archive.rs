use bqg_epub::book::{Book, Chapter};
use bqg_epub::packaging::{builder_outcome, ContentEntry, Packager, PackagingError, Reference};
use std::io::{Cursor, Read};
use zip::ZipArchive;

fn book() -> Book {
    let mut book = Book::new("https://example.org/book/1/");
    book.title = String::from("The Long Road");
    book.author = String::from("A. Writer");
    book.intro = String::from("Where it all begins");
    book.add_chapter(Chapter::new("2.html", "Second"));
    book.add_chapter(Chapter::new("1.html", "First"));
    book.sort_chapters();
    book.update_chapter_content("1.html", "text of the first");
    book
}

fn file(archive: &mut ZipArchive<Cursor<Vec<u8>>>, name: &str) -> Vec<u8> {
    let mut bytes = Vec::new();
    archive.by_name(name).unwrap().read_to_end(&mut bytes).unwrap();
    bytes
}

fn text(archive: &mut ZipArchive<Cursor<Vec<u8>>>, name: &str) -> String {
    String::from_utf8(file(archive, name)).unwrap()
}

#[test]
fn archive_holds_metadata_cover_and_stylesheet() {
    let book = book();
    let bytes = book.generate_epub(Some(b"the image"), Some(b"p { margin: 0 }")).unwrap();
    let mut archive = ZipArchive::new(Cursor::new(bytes)).unwrap();
    assert_eq!(file(&mut archive, "OEBPS/cover.jpg"), b"the image");
    assert_eq!(file(&mut archive, "OEBPS/stylesheet.css"), b"p { margin: 0 }");
    let manifest = text(&mut archive, "OEBPS/content.opf");
    assert!(manifest.contains("<dc:title>The Long Road</dc:title>"));
    assert!(manifest.contains("A. Writer"));
    assert!(manifest.contains("<dc:description>Where it all begins</dc:description>"));
    assert!(manifest.contains("media-type=\"image/jpg\""));
    assert!(manifest.contains("href=\"cover.jpg\""));
    assert!(manifest.contains("<meta name=\"cover\" content=\"cover-image\"/>"));
    assert!(manifest.contains("media-type=\"text/css\""));
}

#[test]
fn archive_holds_the_documents_in_reading_order() {
    let book = book();
    let bytes = book.generate_epub(Some(b"the image"), Some(b"p {}")).unwrap();
    let mut archive = ZipArchive::new(Cursor::new(bytes)).unwrap();
    let entries = book.content_entries();
    assert_eq!(text(&mut archive, "OEBPS/1.html"), entries[0].body);
    assert_eq!(text(&mut archive, "OEBPS/2.html"), entries[1].body);
    assert!(entries[0].body.contains("<p>text of the first</p>"));
    assert!(entries[1].body.contains("<p></p>"));
    let manifest = text(&mut archive, "OEBPS/content.opf");
    let cover = manifest.find("href=\"cover.jpg\"").unwrap();
    let sheet = manifest.find("href=\"stylesheet.css\"").unwrap();
    let first = manifest.find("href=\"1.html\"").unwrap();
    let second = manifest.find("href=\"2.html\"").unwrap();
    let contents = manifest.find("href=\"toc.xhtml\"").unwrap();
    assert!(cover < sheet && sheet < first && first < second && second < contents);
    assert!(manifest.contains("<reference type=\"text\" title=\"First\" href=\"1.html\"/>"));
    assert!(manifest.contains("<reference type=\"text\" title=\"Second\" href=\"2.html\"/>"));
    let contents = text(&mut archive, "OEBPS/toc.xhtml");
    assert!(contents.find("First").unwrap() < contents.find("Second").unwrap());
}

#[test]
fn packager_without_author_names_none() {
    let mut book = book();
    book.author = String::new();
    let mut packager = Packager::new().unwrap();
    book.pack(&mut packager, b"i", b"s").unwrap();
    let bytes = packager.finish().unwrap();
    let mut archive = ZipArchive::new(Cursor::new(bytes)).unwrap();
    let manifest = text(&mut archive, "OEBPS/content.opf");
    assert!(!manifest.contains("<dc:creator"));
    assert!(manifest.contains("<dc:title>The Long Road</dc:title>"));
}

#[test]
fn answer_of_the_builder_is_handed_on() {
    assert_eq!(builder_outcome(Ok::<u8, String>(7)).unwrap(), 7);
    assert_eq!(builder_outcome(Ok::<Vec<u8>, String>(vec![1, 2])).unwrap(), vec![1, 2]);
    match builder_outcome(Err::<Vec<u8>, String>(String::from("no room"))) {
        Err(PackagingError::Builder(message)) => assert_eq!(message, "no room"),
        _ => panic!("a message came from the builder"),
    }
}

#[test]
fn document_is_listed_as_what_its_entry_says() {
    let book = book();
    let mut packager = Packager::new().unwrap();
    let front = ContentEntry {
        href: String::from("front.html"),
        title: String::from("Front"),
        body: String::from("<html><body>front</body></html>"),
        reference: Reference::TitlePage,
    };
    packager.add_document(&front).unwrap();
    book.pack(&mut packager, b"i", b"s").unwrap();
    let bytes = packager.finish().unwrap();
    let mut archive = ZipArchive::new(Cursor::new(bytes)).unwrap();
    assert_eq!(text(&mut archive, "OEBPS/front.html"), front.body);
    let manifest = text(&mut archive, "OEBPS/content.opf");
    assert!(manifest.contains("<reference type=\"title-page\" title=\"Front\" href=\"front.html\"/>"));
    assert!(manifest.contains("<reference type=\"text\" title=\"First\" href=\"1.html\"/>"));
    let front_at = manifest.find("href=\"front.html\"").unwrap();
    let cover_at = manifest.find("href=\"cover.jpg\"").unwrap();
    assert!(front_at < cover_at);
}
