//! Discovery: what the index page of a book says of it, and its list of
//! chapters.

use crate::book::{
    all_keyed, distinct_hrefs, has_href, keyed, sequence_key, with_chapter, Book, BookView,
    Chapter, ChapterView,
};
use crate::markup::{element_views, select_all, selected, Element, ElementView};
use crate::text::{join, join_text, views};
use vstd::prelude::*;

verus! {

/// Selects the links of the chapter list on the index page.
pub const LINK_SELECTOR: &'static str = "#list > dl > dd > a";

/// Selects the author's name on the index page.
pub const AUTHOR_SELECTOR: &'static str = "#info > p:nth-child(2) > a";

/// Selects the synopsis on the index page.
pub const INTRO_SELECTOR: &'static str = "#intro";

/// Selects the title on the index page.
pub const TITLE_SELECTOR: &'static str = "#info > h1";

/// The attribute of a chapter link that holds its address.
pub const LINK_ATTRIBUTE: &'static str = "href";

/// Why the index page could not be read as a book.
#[derive(Debug, Clone, Copy, PartialEq, Eq, Structural)]
pub enum DiscoveryError {
    /// The page names no author.
    NoAuthor,
    /// The page holds no synopsis.
    NoIntro,
    /// The page holds no title.
    NoTitle,
}

/// `chapters` after the link `link` of the index page: a link with an
/// address that gives a position adds a chapter, unless its address is
/// there already; any other link adds nothing.
pub open spec fn with_stub(chapters: Seq<ChapterView>, link: ElementView) -> Seq<ChapterView> {
    match link.attribute {
        Some(href) => match sequence_key(href) {
            Some(number) => with_chapter(
                chapters,
                ChapterView { number, href, title: join(link.text, " "@), content: Seq::empty() },
            ),
            None => chapters,
        },
        None => chapters,
    }
}

/// `chapters` after the links `links` of the index page, taken in order.
pub open spec fn with_stubs(chapters: Seq<ChapterView>, links: Seq<ElementView>) -> Seq<
    ChapterView,
>
    decreases links.len(),
{
    if links.len() == 0 {
        chapters
    } else {
        with_stub(with_stubs(chapters, links.drop_last()), links.last())
    }
}

/// The addresses among `links` that give no position in reading order, in
/// order: the links that discovery leaves out.
pub open spec fn malformed_stubs(links: Seq<ElementView>) -> Seq<Seq<char>>
    decreases links.len(),
{
    if links.len() == 0 {
        Seq::empty()
    } else {
        let earlier = malformed_stubs(links.drop_last());
        match links.last().attribute {
            Some(href) => if sequence_key(href) is None {
                earlier.push(href)
            } else {
                earlier
            },
            None => earlier,
        }
    }
}

/// The book that discovery makes of `book` from what was selected on the
/// index page: the first match of each of the three metadata selectors,
/// its text nodes joined by a space, and the chapter links. A metadata
/// selector without a match is an error.
pub open spec fn discovered(
    book: BookView,
    author: Seq<ElementView>,
    intro: Seq<ElementView>,
    title: Seq<ElementView>,
    links: Seq<ElementView>,
) -> Result<BookView, DiscoveryError> {
    if author.len() == 0 {
        Err(DiscoveryError::NoAuthor)
    } else if intro.len() == 0 {
        Err(DiscoveryError::NoIntro)
    } else if title.len() == 0 {
        Err(DiscoveryError::NoTitle)
    } else {
        Ok(
            BookView {
                title: join(title[0].text, " "@),
                homepage: book.homepage,
                intro: join(intro[0].text, " "@),
                author: join(author[0].text, " "@),
                chapters: with_stubs(book.chapters, links),
            },
        )
    }
}

/// Adding a chapter keeps the links apart.
pub proof fn lemma_with_chapter_distinct(chapters: Seq<ChapterView>, chapter: ChapterView)
    requires
        distinct_hrefs(chapters),
    ensures
        distinct_hrefs(with_chapter(chapters, chapter)),
{
    if !has_href(chapters, chapter.href) {
        let after = chapters.push(chapter);
        assert forall|i: int, j: int| 0 <= i < j < after.len() implies (#[trigger] after[i]).href
            != (#[trigger] after[j]).href by {
            if j == chapters.len() {
                assert(chapters[i].href != chapter.href);
            } else {
                assert(chapters[i].href != chapters[j].href);
            }
        }
    }
}

/// Whatever the index page lists, and however often it repeats a link, no
/// two chapters of the book share a link after discovery.
pub proof fn lemma_with_stubs_distinct(chapters: Seq<ChapterView>, links: Seq<ElementView>)
    requires
        distinct_hrefs(chapters),
    ensures
        distinct_hrefs(with_stubs(chapters, links)),
    decreases links.len(),
{
    if links.len() > 0 {
        let earlier = with_stubs(chapters, links.drop_last());
        lemma_with_stubs_distinct(chapters, links.drop_last());
        match links.last().attribute {
            Some(href) => match sequence_key(href) {
                Some(number) => {
                    lemma_with_chapter_distinct(
                        earlier,
                        ChapterView {
                            number,
                            href,
                            title: join(links.last().text, " "@),
                            content: Seq::empty(),
                        },
                    );
                },
                None => {},
            },
            None => {},
        }
    }
}

/// Discovery gives each chapter that it adds the number that its link
/// gives.
pub proof fn lemma_with_stubs_keyed(chapters: Seq<ChapterView>, links: Seq<ElementView>)
    requires
        all_keyed(chapters),
    ensures
        all_keyed(with_stubs(chapters, links)),
    decreases links.len(),
{
    if links.len() > 0 {
        let earlier = with_stubs(chapters, links.drop_last());
        let after = with_stubs(chapters, links);
        lemma_with_stubs_keyed(chapters, links.drop_last());
        assert forall|i: int| 0 <= i < after.len() implies keyed(#[trigger] after[i]) by {
            if i < earlier.len() {
                assert(after[i] == earlier[i]);
            }
        }
    }
}

impl Book {
    /// Adds a chapter for each link of `links` that has an address, in
    /// order, the first of each address only. Returns the addresses that
    /// give no position in reading order; their links are left out.
    pub fn add_stubs(&mut self, links: &Vec<Element>) -> (skipped: Vec<String>)
        ensures
            final(self)@ == (BookView {
                chapters: with_stubs(old(self)@.chapters, element_views(links@)),
                ..old(self)@
            }),
            views(skipped@) == malformed_stubs(element_views(links@)),
            distinct_hrefs(old(self)@.chapters) ==> distinct_hrefs(final(self)@.chapters),
            old(self).wf() ==> final(self).wf(),
    {
        let ghost all = element_views(links@);
        let mut skipped: Vec<String> = Vec::new();
        let mut i: usize = 0;
        assert(all.take(0) == Seq::<ElementView>::empty());
        assert(views(skipped@) == Seq::<Seq<char>>::empty());
        while i < links.len()
            invariant
                i <= links.len(),
                all == element_views(links@),
                self@ == (BookView {
                    chapters: with_stubs(old(self)@.chapters, all.take(i as int)),
                    ..old(self)@
                }),
                views(skipped@) == malformed_stubs(all.take(i as int)),
            decreases links.len() - i,
        {
            let link = &links[i];
            proof {
                assert(all.take(i + 1).drop_last() == all.take(i as int));
                assert(all.take(i + 1).last() == link@);
            }
            match &link.attribute {
                Some(href) => {
                    let title = join_text(&link.text, " ");
                    match Chapter::try_new(href.as_str(), title.as_str()) {
                        Some(chapter) => {
                            self.add_chapter(chapter);
                        },
                        None => {
                            let ghost before = views(skipped@);
                            skipped.push(href.clone());
                            assert(views(skipped@) == before.push(href@));
                        },
                    }
                },
                None => {},
            }
            i += 1;
        }
        proof {
            assert(all.take(links.len() as int) == all);
            if distinct_hrefs(old(self)@.chapters) {
                lemma_with_stubs_distinct(old(self)@.chapters, all);
            }
            if all_keyed(old(self)@.chapters) {
                lemma_with_stubs_keyed(old(self)@.chapters, all);
            }
        }
        skipped
    }

    /// Fills the book from what was selected on its index page. On success
    /// the result lists the chapter addresses that were left out as
    /// malformed; on an error the book stays as it was.
    pub fn record_discovery(
        &mut self,
        author: &Vec<Element>,
        intro: &Vec<Element>,
        title: &Vec<Element>,
        links: &Vec<Element>,
    ) -> (outcome: Result<Vec<String>, DiscoveryError>)
        ensures
            match discovered(
                old(self)@,
                element_views(author@),
                element_views(intro@),
                element_views(title@),
                element_views(links@),
            ) {
                Ok(book) => outcome matches Ok(skipped) && final(self)@ == book && views(skipped@)
                    == malformed_stubs(element_views(links@)),
                Err(error) => outcome == Err::<Vec<String>, DiscoveryError>(error) && final(self)@
                    == old(self)@,
            },
            distinct_hrefs(old(self)@.chapters) ==> distinct_hrefs(final(self)@.chapters),
            old(self).wf() ==> final(self).wf(),
    {
        if author.len() == 0 {
            return Err(DiscoveryError::NoAuthor);
        }
        if intro.len() == 0 {
            return Err(DiscoveryError::NoIntro);
        }
        if title.len() == 0 {
            return Err(DiscoveryError::NoTitle);
        }
        self.author = join_text(&author[0].text, " ");
        self.intro = join_text(&intro[0].text, " ");
        self.title = join_text(&title[0].text, " ");
        Ok(self.add_stubs(links))
    }

    /// Reads the book from `html`, the text of its index page: the author,
    /// the synopsis and the title, each the first match of its selector,
    /// and the chapters from the links of the chapter list. On success the
    /// result lists the chapter addresses that were left out as malformed;
    /// on an error the book stays as it was.
    pub fn get_book_info(&mut self, html: &str) -> (outcome: Result<Vec<String>, DiscoveryError>)
        ensures
            match discovered(
                old(self)@,
                selected(html@, AUTHOR_SELECTOR@, LINK_ATTRIBUTE@),
                selected(html@, INTRO_SELECTOR@, LINK_ATTRIBUTE@),
                selected(html@, TITLE_SELECTOR@, LINK_ATTRIBUTE@),
                selected(html@, LINK_SELECTOR@, LINK_ATTRIBUTE@),
            ) {
                Ok(book) => outcome matches Ok(skipped) && final(self)@ == book && views(skipped@)
                    == malformed_stubs(selected(html@, LINK_SELECTOR@, LINK_ATTRIBUTE@)),
                Err(error) => outcome == Err::<Vec<String>, DiscoveryError>(error) && final(self)@
                    == old(self)@,
            },
            distinct_hrefs(old(self)@.chapters) ==> distinct_hrefs(final(self)@.chapters),
            old(self).wf() ==> final(self).wf(),
    {
        let author = select_all(html, AUTHOR_SELECTOR, LINK_ATTRIBUTE);
        let intro = select_all(html, INTRO_SELECTOR, LINK_ATTRIBUTE);
        let title = select_all(html, TITLE_SELECTOR, LINK_ATTRIBUTE);
        let links = select_all(html, LINK_SELECTOR, LINK_ATTRIBUTE);
        self.record_discovery(&author, &intro, &title, &links)
    }
}

} // verus!
