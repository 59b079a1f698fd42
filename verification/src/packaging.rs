//! Packaging: the chapters of a book, in their order, as the documents of
//! an EPUB.

use crate::book::{Book, BookView, Chapter, ChapterView};
use epub_builder::{EpubBuilder, EpubContent, ReferenceType, ZipLibrary};
use vstd::prelude::*;

verus! {

/// Path of the cover image inside the book.
pub const COVER_PATH: &'static str = "cover.jpg";

/// Media type under which the cover image is registered.
pub const COVER_MIME: &'static str = "image/jpg";

/// What stands in a chapter document before the title of its head.
pub const MARKUP_OPENING: &'static str =
    "<?xml version=\"1.0\" encoding=\"UTF-8\"?>\n            <!DOCTYPE html>\n            <html xmlns=\"http://www.w3.org/1999/xhtml\">\n            <head>\n                <title>";

/// What stands between the title of the head and the heading.
pub const MARKUP_HEADING: &'static str =
    "</title>\n                <link rel=\"stylesheet\" type=\"text/css\" href=\"style/styles.css\" />\n            </head>\n            <body>\n                <h1>";

/// What stands between the heading and the content.
pub const MARKUP_BODY: &'static str = "</h1>\n                <p>";

/// What stands behind the content.
pub const MARKUP_CLOSING: &'static str = "</p>\n            </body>\n            </html>";

/// As what the guide of the packaged book lists a document.
#[derive(Debug, Clone, Copy, PartialEq, Eq, Structural)]
pub enum Reference {
    /// The page with title and author.
    TitlePage,
    /// The text of the book itself.
    Text,
}

/// One document of the packaged book.
#[derive(Debug)]
pub struct ContentEntry {
    /// Path of the document inside the book: the link of its chapter.
    pub href: String,
    /// Title under which the table of contents lists the document.
    pub title: String,
    /// The document itself.
    pub body: String,
    /// As what the guide lists the document.
    pub reference: Reference,
}

/// What a [`ContentEntry`] holds, as mathematical values.
pub struct ContentEntryView {
    pub href: Seq<char>,
    pub title: Seq<char>,
    pub body: Seq<char>,
    pub reference: Reference,
}

impl View for ContentEntry {
    type V = ContentEntryView;

    open spec fn view(&self) -> ContentEntryView {
        ContentEntryView {
            href: self.href@,
            title: self.title@,
            body: self.body@,
            reference: self.reference,
        }
    }
}

/// The views of `entries`, in order.
pub open spec fn entry_views(entries: Seq<ContentEntry>) -> Seq<ContentEntryView> {
    Seq::new(entries.len(), |i: int| entries[i]@)
}

/// The document of a chapter: its title, as the title of the document and
/// as its heading, and its content as one paragraph. Neither is escaped.
pub open spec fn chapter_markup(title: Seq<char>, content: Seq<char>) -> Seq<char> {
    MARKUP_OPENING@ + title + MARKUP_HEADING@ + title + MARKUP_BODY@ + content + MARKUP_CLOSING@
}

/// The document that stands for `chapter` in the packaged book: under the
/// link of the chapter, with its title, listed as text of the book.
pub open spec fn entry_of(chapter: ChapterView) -> ContentEntryView {
    ContentEntryView {
        href: chapter.href,
        title: chapter.title,
        body: chapter_markup(chapter.title, chapter.content),
        reference: Reference::Text,
    }
}

/// The documents of the packaged book: one for each chapter, in the order
/// of the chapters.
pub open spec fn entries_of(chapters: Seq<ChapterView>) -> Seq<ContentEntryView> {
    Seq::new(chapters.len(), |i: int| entry_of(chapters[i]))
}

impl Chapter {
    /// The document that stands for this chapter in the packaged book.
    pub fn content_entry(&self) -> (entry: ContentEntry)
        ensures
            entry@ == entry_of(self@),
    {
        let body = MARKUP_OPENING.to_owned();
        let body = body.concat(self.title.as_str());
        let body = body.concat(MARKUP_HEADING);
        let body = body.concat(self.title.as_str());
        let body = body.concat(MARKUP_BODY);
        let body = body.concat(self.content.as_str());
        let body = body.concat(MARKUP_CLOSING);
        ContentEntry {
            href: self.href.clone(),
            title: self.title.clone(),
            body,
            reference: Reference::Text,
        }
    }
}

impl Book {
    /// The documents of the packaged book: one for each chapter, retrieved
    /// or not, in the order of the chapters.
    pub fn content_entries(&self) -> (entries: Vec<ContentEntry>)
        ensures
            entry_views(entries@) == entries_of(self@.chapters),
    {
        let mut entries: Vec<ContentEntry> = Vec::new();
        let mut i: usize = 0;
        while i < self.chapters.len()
            invariant
                i <= self.chapters.len(),
                entry_views(entries@) == entries_of(self@.chapters).take(i as int),
            decreases self.chapters.len() - i,
        {
            let ghost earlier = entry_views(entries@);
            let entry = self.chapters[i].content_entry();
            entries.push(entry);
            assert(entry_views(entries@) == earlier.push(entry@));
            i += 1;
        }
        assert(entries_of(self@.chapters).take(self.chapters.len() as int) == entries_of(
            self@.chapters,
        ));
        entries
    }
}

/// Why a book could not be packaged.
#[derive(Debug)]
pub enum PackagingError {
    /// There is no cover image.
    MissingCover,
    /// There is no stylesheet.
    MissingStylesheet,
    /// The EPUB builder failed; the text is its message.
    Builder(String),
}

/// Path under which the builder keeps the stylesheet.
pub const STYLESHEET_PATH: &'static str = "stylesheet.css";

/// Media type under which the builder registers the stylesheet.
pub const STYLESHEET_MIME: &'static str = "text/css";

/// One file that a packager has registered, with what it wrote under its
/// path.
pub enum PackedFile {
    /// A file beside the documents: an image, a stylesheet.
    Resource { path: Seq<char>, mime: Seq<char>, cover: bool, bytes: Seq<u8> },
    /// A document of the book.
    Document { entry: ContentEntryView },
    /// The page of the table of contents, which the builder writes itself.
    Contents,
}

/// What a [`Packager`] holds, as mathematical values.
pub struct PackagerView {
    pub title: Seq<char>,
    pub authors: Seq<Seq<char>>,
    pub description: Seq<Seq<char>>,
    /// The files in the order in which they were registered, which is
    /// their order in the book.
    pub files: Seq<PackedFile>,
    /// Whether the table of contents has been asked for.
    pub inline_toc: bool,
    /// Whether a stylesheet has been given.
    pub stylesheet: bool,
}

/// An EPUB in the making: an `epub_builder::EpubBuilder` that writes into
/// memory through `epub_builder::ZipLibrary`.
#[verifier::external_body]
pub struct Packager {
    builder: EpubBuilder<ZipLibrary>,
}

/// The title in the metadata of the builder of `packager`.
pub uninterp spec fn packed_title(packager: Packager) -> Seq<char>;

/// The authors in the metadata of the builder of `packager`, in order.
pub uninterp spec fn packed_authors(packager: Packager) -> Seq<Seq<char>>;

/// The lines of the description in the metadata of the builder of
/// `packager`, in order.
pub uninterp spec fn packed_description(packager: Packager) -> Seq<Seq<char>>;

/// The files that the builder of `packager` has registered, in the order of
/// its list `files`, each with what was written to the archive under its
/// path: a resource for each one that `add_cover_image` or `add_resource`
/// pushed, a document for each one that `add_content` pushed, and the page
/// that `inline_toc` pushed.
pub uninterp spec fn packed_files(packager: Packager) -> Seq<PackedFile>;

/// The flag `inline_toc` of the builder of `packager`, which
/// `EpubBuilder::new` clears, which `EpubBuilder::inline_toc` sets and
/// nothing else touches.
pub uninterp spec fn has_inline_toc(packager: Packager) -> bool;

/// The flag `stylesheet` of the builder of `packager`, which
/// `EpubBuilder::new` clears and which `EpubBuilder::stylesheet` sets where
/// it succeeds; `EpubBuilder::generate` calls that for a builder whose flag
/// is clear.
pub uninterp spec fn has_stylesheet(packager: Packager) -> bool;

/// What `packager` holds: the six things above.
pub open spec fn held(packager: Packager) -> PackagerView {
    PackagerView {
        title: packed_title(packager),
        authors: packed_authors(packager),
        description: packed_description(packager),
        files: packed_files(packager),
        inline_toc: has_inline_toc(packager),
        stylesheet: has_stylesheet(packager),
    }
}

impl View for Packager {
    type V = PackagerView;

    open spec fn view(&self) -> PackagerView {
        held(*self)
    }
}

/// A packager that holds nothing yet.
pub open spec fn empty_package() -> PackagerView {
    PackagerView {
        title: Seq::empty(),
        authors: Seq::empty(),
        description: Seq::empty(),
        files: Seq::empty(),
        inline_toc: false,
        stylesheet: false,
    }
}

/// `lines` after `value` was given for them: one line more, or none at all
/// where `value` is empty.
pub open spec fn with_line(lines: Seq<Seq<char>>, value: Seq<char>) -> Seq<Seq<char>> {
    if value.len() == 0 {
        Seq::empty()
    } else {
        lines.push(value)
    }
}

/// What a packager that held `held` holds after `value` was given as the
/// metadata `key`: the title is replaced, authors and description gain a
/// line or are emptied, and no other key touches what is held here.
pub open spec fn with_metadata(held: PackagerView, key: Seq<char>, value: Seq<char>) -> PackagerView {
    if key == "title"@ {
        PackagerView { title: value, ..held }
    } else if key == "author"@ {
        PackagerView { authors: with_line(held.authors, value), ..held }
    } else if key == "description"@ {
        PackagerView { description: with_line(held.description, value), ..held }
    } else {
        held
    }
}

/// Whether `key` is one of the three metadata keys that the library sets.
pub open spec fn is_book_key(key: Seq<char>) -> bool {
    key == "title"@ || key == "author"@ || key == "description"@
}

impl Packager {
    /// `ZipLibrary::new`, then `EpubBuilder::new` on it: a builder with
    /// empty title, no author, no description, no file and both flags
    /// clear. An error of either comes back as its message.
    #[verifier::external_body]
    fn start() -> (made: Result<Packager, String>)
        ensures
            made matches Ok(packager) ==> packed_title(packager).len() == 0,
            made matches Ok(packager) ==> packed_authors(packager).len() == 0,
            made matches Ok(packager) ==> packed_description(packager).len() == 0,
            made matches Ok(packager) ==> packed_files(packager).len() == 0,
            made matches Ok(packager) ==> !has_inline_toc(packager),
            made matches Ok(packager) ==> !has_stylesheet(packager),
    {
        let archive = match ZipLibrary::new() {
            Ok(archive) => archive,
            Err(error) => return Err(error.to_string()),
        };
        match EpubBuilder::new(archive) {
            Ok(builder) => Ok(Packager { builder }),
            Err(error) => Err(error.to_string()),
        }
    }

    /// `EpubBuilder::metadata`. Under `title` it replaces the title; under
    /// `author` and `description` it adds `value` as a line, or drops all
    /// lines where `value` is empty; under these three keys it does not
    /// fail. Any other key, whether the builder knows it or not, touches
    /// nothing of what is held here.
    #[verifier::external_body]
    fn metadata(&mut self, key: &str, value: &str) -> (done: Result<(), String>)
        ensures
            held(*final(self)) == with_metadata(held(*old(self)), key@, value@),
            is_book_key(key@) ==> done is Ok,
    {
        match self.builder.metadata(key, value) {
            Ok(_) => Ok(()),
            Err(error) => Err(error.to_string()),
        }
    }

    /// `EpubBuilder::add_cover_image`: writes `image` to the archive under
    /// `path` and then registers it, marked as the cover, as the last file.
    /// Where the writing fails nothing is registered.
    #[verifier::external_body]
    fn add_cover_image(&mut self, path: &str, image: &[u8], mime: &str) -> (done: Result<
        (),
        String,
    >)
        ensures
            done is Ok ==> held(*final(self)) == (PackagerView {
                files: held(*old(self)).files.push(
                    PackedFile::Resource { path: path@, mime: mime@, cover: true, bytes: image@ },
                ),
                ..held(*old(self))
            }),
            done is Err ==> held(*final(self)) == held(*old(self)),
    {
        match self.builder.add_cover_image(path, image, mime) {
            Ok(_) => Ok(()),
            Err(error) => Err(error.to_string()),
        }
    }

    /// `EpubBuilder::stylesheet`: writes `sheet` to the archive under
    /// `stylesheet.css`, registers it with the type `text/css` as the last
    /// file and sets the flag of the stylesheet. Where the writing fails
    /// nothing is registered and the flag stays.
    #[verifier::external_body]
    fn stylesheet(&mut self, sheet: &[u8]) -> (done: Result<(), String>)
        ensures
            done is Ok ==> held(*final(self)) == (PackagerView {
                files: held(*old(self)).files.push(
                    PackedFile::Resource {
                        path: STYLESHEET_PATH@,
                        mime: STYLESHEET_MIME@,
                        cover: false,
                        bytes: sheet@,
                    },
                ),
                stylesheet: true,
                ..held(*old(self))
            }),
            done is Err ==> held(*final(self)) == held(*old(self)),
    {
        match self.builder.stylesheet(sheet) {
            Ok(_) => Ok(()),
            Err(error) => Err(error.to_string()),
        }
    }

    /// `EpubBuilder::add_content` with an `EpubContent` of the path
    /// `entry.href`, the title `entry.title`, the reference type that
    /// `entry.reference` names and the bytes of `entry.body`: writes the
    /// bytes to the archive and then registers the document as the last
    /// file. Where the writing fails nothing is registered.
    #[verifier::external_body]
    fn add_content(&mut self, entry: &ContentEntry) -> (done: Result<(), String>)
        ensures
            done is Ok ==> held(*final(self)) == (PackagerView {
                files: held(*old(self)).files.push(PackedFile::Document { entry: entry@ }),
                ..held(*old(self))
            }),
            done is Err ==> held(*final(self)) == held(*old(self)),
    {
        let reference = match entry.reference {
            Reference::TitlePage => ReferenceType::TitlePage,
            Reference::Text => ReferenceType::Text,
        };
        let content = EpubContent::new(entry.href.as_str(), entry.body.as_bytes());
        let content = content.title(entry.title.as_str()).reftype(reference);
        match self.builder.add_content(content) {
            Ok(_) => Ok(()),
            Err(error) => Err(error.to_string()),
        }
    }

    /// `EpubBuilder::inline_toc`: sets the flag of the table of contents
    /// and registers its page, which the builder writes itself, as the last
    /// file.
    #[verifier::external_body]
    fn inline_toc(&mut self)
        ensures
            held(*final(self)) == (PackagerView {
                files: held(*old(self)).files.push(PackedFile::Contents),
                inline_toc: true,
                ..held(*old(self))
            }),
    {
        self.builder.inline_toc();
    }

    /// `EpubBuilder::generate` into memory: the bytes of the EPUB. They
    /// hold the time and an identifier that is drawn at random, so nothing
    /// is said of them. A builder that has its stylesheet is left as it is;
    /// one without is first given an empty one. The flag of the table of
    /// contents is read and stays.
    #[verifier::external_body]
    fn generate(&mut self) -> (made: Result<Vec<u8>, String>)
        ensures
            held(*old(self)).stylesheet ==> held(*final(self)) == held(*old(self)),
            held(*final(self)).inline_toc == held(*old(self)).inline_toc,
    {
        let mut bytes: Vec<u8> = Vec::new();
        match self.builder.generate(&mut bytes) {
            Ok(_) => Ok(bytes),
            Err(error) => Err(error.to_string()),
        }
    }
}

/// What the library makes of an answer of the builder: what it made is
/// handed on as it is, and its message becomes the error.
pub fn builder_outcome<T>(answer: Result<T, String>) -> (outcome: Result<T, PackagingError>)
    ensures
        match answer {
            Ok(made) => outcome == Ok::<T, PackagingError>(made),
            Err(message) => outcome == Err::<T, PackagingError>(PackagingError::Builder(message)),
        },
{
    match answer {
        Ok(made) => Ok(made),
        Err(message) => Err(PackagingError::Builder(message)),
    }
}

/// The files that packaging a book adds: the cover image, the stylesheet,
/// and then one document for each chapter, in the order of the chapters.
pub open spec fn files_of(chapters: Seq<ChapterView>, cover: Seq<u8>, stylesheet: Seq<u8>) -> Seq<
    PackedFile,
> {
    seq![
        PackedFile::Resource { path: COVER_PATH@, mime: COVER_MIME@, cover: true, bytes: cover },
        PackedFile::Resource {
            path: STYLESHEET_PATH@,
            mime: STYLESHEET_MIME@,
            cover: false,
            bytes: stylesheet,
        },
    ] + Seq::new(chapters.len(), |i: int| PackedFile::Document { entry: entry_of(chapters[i]) })
}

/// Whether `after` is `before` with some of the first of `planned` behind
/// it, in their order, and not all of them.
pub open spec fn holds_some_of(
    before: Seq<PackedFile>,
    planned: Seq<PackedFile>,
    after: Seq<PackedFile>,
) -> bool {
    exists|count: int| 0 <= count < planned.len() && after == before + #[trigger] planned.take(count)
}

/// What a packager that held `held` holds of the metadata of `book` once
/// the book has been handed to it: its title, and its author and its
/// synopsis as one line more each.
pub open spec fn with_book(held: PackagerView, book: BookView) -> PackagerView {
    PackagerView {
        title: book.title,
        authors: with_line(held.authors, book.author),
        description: with_line(held.description, book.intro),
        ..held
    }
}

impl Packager {
    /// A packager that holds nothing yet.
    pub fn new() -> (made: Result<Packager, PackagingError>)
        ensures
            made matches Ok(packager) ==> packager@ == empty_package(),
            made matches Err(error) ==> error is Builder,
    {
        match builder_outcome(Packager::start()) {
            Ok(packager) => {
                assert(packager@.title =~= empty_package().title);
                assert(packager@.authors =~= empty_package().authors);
                assert(packager@.description =~= empty_package().description);
                assert(packager@.files =~= empty_package().files);
                Ok(packager)
            },
            Err(error) => Err(error),
        }
    }

    /// Hands one document to the packager, which registers it behind the
    /// files that it holds. Where that fails the packager holds what it
    /// held.
    pub fn add_document(&mut self, entry: &ContentEntry) -> (done: Result<(), PackagingError>)
        ensures
            done is Ok ==> final(self)@ == (PackagerView {
                files: old(self)@.files.push(PackedFile::Document { entry: entry@ }),
                ..old(self)@
            }),
            done is Err ==> final(self)@ == old(self)@,
            done matches Err(error) ==> error is Builder,
    {
        let answer = self.add_content(entry);
        builder_outcome(answer)
    }

    /// Asks for the table of contents behind the files that the packager
    /// holds and hands out the bytes of the EPUB. Whether or not the bytes
    /// can be made, the table of contents has then been asked for; in a
    /// packager that has its stylesheet its page is the one file more.
    pub fn finish(&mut self) -> (made: Result<Vec<u8>, PackagingError>)
        ensures
            final(self)@.inline_toc,
            old(self)@.stylesheet ==> final(self)@ == (PackagerView {
                files: old(self)@.files.push(PackedFile::Contents),
                inline_toc: true,
                ..old(self)@
            }),
            made matches Err(error) ==> error is Builder,
    {
        self.inline_toc();
        let answer = self.generate();
        builder_outcome(answer)
    }
}

impl Book {
    /// Hands the book to `packager`: author, title and synopsis, then the
    /// cover image, the stylesheet and one document for each chapter, in
    /// the order of the chapters. The metadata is taken in any case. Of the
    /// files, all are registered behind those that the packager held where
    /// the call succeeds, none left out and none moved, and the first few
    /// of them where it fails. The table of contents is not asked for
    /// here.
    pub fn pack(&self, packager: &mut Packager, cover: &[u8], stylesheet: &[u8]) -> (done: Result<
        (),
        PackagingError,
    >)
        ensures
            final(packager)@.title == self@.title,
            final(packager)@.authors == with_line(old(packager)@.authors, self@.author),
            final(packager)@.description == with_line(old(packager)@.description, self@.intro),
            final(packager)@.inline_toc == old(packager)@.inline_toc,
            done is Ok ==> final(packager)@ == (PackagerView {
                files: old(packager)@.files + files_of(self@.chapters, cover@, stylesheet@),
                stylesheet: true,
                ..with_book(old(packager)@, self@)
            }),
            done is Err ==> holds_some_of(
                old(packager)@.files,
                files_of(self@.chapters, cover@, stylesheet@),
                final(packager)@.files,
            ),
            done matches Err(error) ==> error is Builder,
    {
        proof {
            reveal_strlit("title");
            reveal_strlit("author");
            reveal_strlit("description");
        }
        let ghost planned = files_of(self@.chapters, cover@, stylesheet@);
        let ghost before = packager@.files;
        assert(before + planned.take(0) == before);
        assert("title"@.len() == 5 && "author"@.len() == 6 && "description"@.len() == 11);
        let answer = packager.metadata("author", self.author.as_str());
        if let Err(error) = builder_outcome(answer) {
            return Err(error);
        }
        let answer = packager.metadata("title", self.title.as_str());
        if let Err(error) = builder_outcome(answer) {
            return Err(error);
        }
        let answer = packager.metadata("description", self.intro.as_str());
        if let Err(error) = builder_outcome(answer) {
            return Err(error);
        }
        assert(packager@ == with_book(old(packager)@, self@));
        let answer = packager.add_cover_image(COVER_PATH, cover, COVER_MIME);
        if let Err(error) = builder_outcome(answer) {
            return Err(error);
        }
        assert(before + planned.take(1) == before.push(planned[0]));
        let answer = packager.stylesheet(stylesheet);
        if let Err(error) = builder_outcome(answer) {
            return Err(error);
        }
        assert(before + planned.take(2) == before.push(planned[0]).push(planned[1]));
        let mut i: usize = 0;
        while i < self.chapters.len()
            invariant
                i <= self.chapters.len(),
                planned == files_of(self@.chapters, cover@, stylesheet@),
                planned.len() == self.chapters.len() + 2,
                before == old(packager)@.files,
                packager@ == (PackagerView {
                    files: before + planned.take(i + 2),
                    stylesheet: true,
                    ..with_book(old(packager)@, self@)
                }),
            decreases self.chapters.len() - i,
        {
            let entry = self.chapters[i].content_entry();
            if let Err(error) = packager.add_document(&entry) {
                return Err(error);
            }
            assert(planned[i + 2] == PackedFile::Document { entry: entry@ });
            assert(before + planned.take(i + 3) == (before + planned.take(i + 2)).push(
                planned[i + 2],
            ));
            i += 1;
        }
        assert(planned.take(self.chapters.len() + 2) == planned);
        Ok(())
    }

    /// The book as an EPUB: its metadata, the cover image, the stylesheet,
    /// one document for each chapter in the order of the chapters, and a
    /// table of contents. Without a cover image or without a stylesheet
    /// there is no EPUB.
    pub fn generate_epub(&self, cover: Option<&[u8]>, stylesheet: Option<&[u8]>) -> (made: Result<
        Vec<u8>,
        PackagingError,
    >)
        ensures
            cover is None ==> made matches Err(PackagingError::MissingCover),
            cover is Some && stylesheet is None ==> made matches Err(
                PackagingError::MissingStylesheet,
            ),
            cover is Some && stylesheet is Some ==> (made matches Err(error) ==> error is Builder),
    {
        let cover = match cover {
            Some(cover) => cover,
            None => return Err(PackagingError::MissingCover),
        };
        let stylesheet = match stylesheet {
            Some(stylesheet) => stylesheet,
            None => return Err(PackagingError::MissingStylesheet),
        };
        let mut packager = match Packager::new() {
            Ok(packager) => packager,
            Err(error) => return Err(error),
        };
        match self.pack(&mut packager, cover, stylesheet) {
            Ok(()) => packager.finish(),
            Err(error) => Err(error),
        }
    }
}

} // verus!
