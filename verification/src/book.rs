//! The book model: chapters, their reading order and their identity.

use crate::text::{decimal, decimal_digits, to_chars};
use std::cmp::Ordering;
use vstd::prelude::*;
use vstd::std_specs::cmp::PartialEqSpecImpl;
use vstd::std_specs::cmp::PartialOrdSpecImpl;

verus! {

/// One chapter of a book.
///
/// Two chapters are the same chapter when their `href` is the same; a chapter
/// comes before another when its `number` is smaller.
#[derive(Debug, Eq)]
pub struct Chapter {
    /// Position in reading order, read from the leading digits of `href`.
    pub number: usize,
    /// Link of the chapter page, relative to the book's index page.
    pub href: String,
    /// Label of the chapter on the index page.
    pub title: String,
    /// Body text; empty until the chapter has been retrieved.
    pub content: String,
}

/// What a [`Chapter`] holds, as mathematical values.
pub struct ChapterView {
    pub number: nat,
    pub href: Seq<char>,
    pub title: Seq<char>,
    pub content: Seq<char>,
}

impl View for Chapter {
    type V = ChapterView;

    open spec fn view(&self) -> ChapterView {
        ChapterView {
            number: self.number as nat,
            href: self.href@,
            title: self.title@,
            content: self.content@,
        }
    }
}

impl Clone for Chapter {
    fn clone(&self) -> (copy: Self)
        ensures
            copy == *self,
    {
        Chapter {
            number: self.number,
            href: self.href.clone(),
            title: self.title.clone(),
            content: self.content.clone(),
        }
    }
}

impl PartialEq for Chapter {
    /// Chapters are equal when their links are.
    fn eq(&self, other: &Self) -> (same: bool) {
        self.href == other.href
    }
}

impl PartialEqSpecImpl for Chapter {
    open spec fn obeys_eq_spec() -> bool {
        true
    }

    open spec fn eq_spec(&self, other: &Self) -> bool {
        self.href@ == other.href@
    }
}

impl PartialOrd for Chapter {
    /// Chapters are ordered by their position in reading order alone.
    fn partial_cmp(&self, other: &Self) -> (order: Option<Ordering>) {
        if self.number < other.number {
            Some(Ordering::Less)
        } else if self.number == other.number {
            Some(Ordering::Equal)
        } else {
            Some(Ordering::Greater)
        }
    }
}

impl PartialOrdSpecImpl for Chapter {
    open spec fn obeys_partial_cmp_spec() -> bool {
        true
    }

    open spec fn partial_cmp_spec(&self, other: &Self) -> Option<Ordering> {
        if self.number < other.number {
            Some(Ordering::Less)
        } else if self.number == other.number {
            Some(Ordering::Equal)
        } else {
            Some(Ordering::Greater)
        }
    }
}

/// Whether `c` is one of the ten decimal digits.
pub open spec fn is_digit(c: char) -> bool {
    '0' <= c <= '9'
}

/// The number that the digit `c` stands for.
pub open spec fn digit_value(c: char) -> nat {
    (c as u32 - '0' as u32) as nat
}

/// Whether `s` is a decimal numeral: one digit or more, and nothing else.
pub open spec fn is_numeral(s: Seq<char>) -> bool {
    &&& s.len() > 0
    &&& forall|i: int| 0 <= i < s.len() ==> is_digit(#[trigger] s[i])
}

/// The number that the decimal numeral `digits` stands for.
pub open spec fn decimal_value(digits: Seq<char>) -> nat
    decreases digits.len(),
{
    if digits.len() == 0 {
        0
    } else {
        10 * decimal_value(digits.drop_last()) + digit_value(digits.last())
    }
}

/// How many characters of `href` stand before its first `.`; all of them
/// where it has none.
pub open spec fn segment_len(href: Seq<char>) -> nat
    decreases href.len(),
{
    if href.len() == 0 || href[0] == '.' {
        0
    } else {
        1 + segment_len(href.skip(1))
    }
}

/// The part of `href` before its first `.`.
pub open spec fn leading_segment(href: Seq<char>) -> Seq<char> {
    href.take(segment_len(href) as int)
}

/// The position in reading order that `href` gives a chapter.
///
/// Where the leading segment is a decimal numeral, it is that number, and
/// there is none if the number does not fit the machine word. Any other
/// leading segment, the empty one included, gives 0.
pub open spec fn sequence_key(href: Seq<char>) -> Option<nat> {
    let segment = leading_segment(href);
    if !is_numeral(segment) {
        Some(0)
    } else if decimal_value(segment) <= usize::MAX {
        Some(decimal_value(segment))
    } else {
        None
    }
}

/// The path under which the plain text of the chapter of the number
/// `number` is kept.
pub open spec fn dump_path_of(number: nat) -> Seq<char> {
    "books/"@ + decimal_digits(number) + ".txt"@
}

/// The leading segment is the longest start of `href` that holds no `.`.
pub proof fn lemma_leading_segment(href: Seq<char>)
    ensures
        segment_len(href) <= href.len(),
        forall|i: int| 0 <= i < segment_len(href) ==> href[i] != '.',
        segment_len(href) < href.len() ==> href[segment_len(href) as int] == '.',
    decreases href.len(),
{
    if href.len() == 0 || href[0] == '.' {
    } else {
        let rest = href.skip(1);
        lemma_leading_segment(rest);
        assert forall|i: int| 0 <= i < segment_len(href) implies href[i] != '.' by {
            if i > 0 {
                assert(href[i] == rest[i - 1]);
            }
        }
        if segment_len(href) < href.len() {
            assert(href[segment_len(href) as int] == rest[segment_len(rest) as int]);
        }
    }
}

/// A start of `href` that holds no `.` and ends at a `.` or at the end of
/// `href` is its leading segment.
pub proof fn lemma_segment_found(href: Seq<char>, len: int)
    requires
        0 <= len <= href.len(),
        forall|i: int| 0 <= i < len ==> href[i] != '.',
        len < href.len() ==> href[len] == '.',
    ensures
        segment_len(href) == len,
{
    lemma_leading_segment(href);
    let found = segment_len(href) as int;
    if found < len {
        assert(href[found] == '.');
    } else if found > len {
        assert(href[len] != '.');
    }
}

/// Reads the position in reading order from `href`; `None` where the
/// number in its leading segment does not fit the machine word.
pub fn parse_sequence_key(href: &str) -> (key: Option<usize>)
    ensures
        match key {
            Some(number) => sequence_key(href@) == Some(number as nat),
            None => sequence_key(href@) is None,
        },
{
    let chars = to_chars(href);
    let mut numeric = true;
    let mut fits = true;
    let mut value: usize = 0;
    let mut i: usize = 0;
    while i < chars.len() && chars[i] != '.'
        invariant
            i <= chars.len(),
            chars@ == href@,
            forall|k: int| 0 <= k < i ==> chars@[k] != '.',
            numeric == (forall|k: int| 0 <= k < i ==> is_digit(#[trigger] chars@[k])),
            numeric && fits ==> value == decimal_value(chars@.take(i as int)),
            numeric && !fits ==> decimal_value(chars@.take(i as int)) > usize::MAX,
        decreases chars.len() - i,
    {
        let c = chars[i];
        let ghost before = chars@.take(i as int);
        let ghost after = chars@.take(i + 1);
        assert(after.drop_last() == before);
        assert(after.last() == c);
        if numeric && '0' <= c && c <= '9' {
            if fits {
                let digit = (c as u32 - '0' as u32) as usize;
                match value.checked_mul(10) {
                    Some(tens) => match tens.checked_add(digit) {
                        Some(sum) => {
                            value = sum;
                        },
                        None => {
                            fits = false;
                        },
                    },
                    None => {
                        fits = false;
                    },
                }
            }
        } else {
            numeric = false;
        }
        i += 1;
    }
    proof {
        lemma_segment_found(href@, i as int);
        let segment = leading_segment(href@);
        assert(segment == chars@.take(i as int));
        if numeric {
            assert forall|k: int| 0 <= k < segment.len() implies is_digit(
                #[trigger] segment[k],
            ) by {
                assert(segment[k] == chars@[k]);
            }
        } else {
            let k = choose|k: int| 0 <= k < i && !is_digit(#[trigger] chars@[k]);
            assert(segment[k] == chars@[k]);
        }
    }
    if !numeric || i == 0 {
        Some(0)
    } else if fits {
        Some(value)
    } else {
        None
    }
}

impl Chapter {
    /// Whether the chapter is well formed: its number is the one that its
    /// link gives.
    pub open spec fn wf(&self) -> bool {
        keyed(self@)
    }

    /// A chapter that has not been retrieved yet: its position is read from
    /// `href`, its content is empty.
    pub fn new(href: &str, title: &str) -> (chapter: Self)
        requires
            sequence_key(href@) is Some,
        ensures
            chapter@ == (ChapterView {
                number: sequence_key(href@)->0,
                href: href@,
                title: title@,
                content: Seq::empty(),
            }),
            chapter.wf(),
    {
        let number = parse_sequence_key(href).unwrap();
        Chapter { number, href: href.to_owned(), title: title.to_owned(), content: String::new() }
    }

    /// As [`Chapter::new`], for any `href`: `None` where `href` gives no
    /// position in reading order.
    pub fn try_new(href: &str, title: &str) -> (chapter: Option<Self>)
        ensures
            chapter is Some <==> sequence_key(href@) is Some,
            chapter matches Some(made) ==> made.wf() && made@ == (ChapterView {
                number: sequence_key(href@)->0,
                href: href@,
                title: title@,
                content: Seq::empty(),
            }),
    {
        match parse_sequence_key(href) {
            Some(number) => Some(
                Chapter {
                    number,
                    href: href.to_owned(),
                    title: title.to_owned(),
                    content: String::new(),
                },
            ),
            None => None,
        }
    }

    /// Where the plain text of the chapter is kept when it is written out:
    /// in the directory `books`, under the chapter's number.
    pub fn dump_path(&self) -> (path: String)
        ensures
            path@ == dump_path_of(self@.number),
    {
        let number = decimal(self.number);
        "books/".to_owned().concat(number.as_str()).concat(".txt")
    }

    /// Replaces the content and hands back a copy of the chapter as it then
    /// is.
    pub fn update_content(&mut self, new_content: &str) -> (updated: Self)
        ensures
            final(self)@ == (ChapterView { content: new_content@, ..old(self)@ }),
            updated@ == final(self)@,
    {
        self.content = new_content.to_owned();
        self.clone()
    }
}

/// A book: where it was found, what the index page says of it, and its
/// chapters.
#[derive(Debug)]
pub struct Book {
    pub title: String,
    /// Address of the index page, against which chapter links are resolved.
    pub homepage: String,
    pub intro: String,
    pub author: String,
    /// The chapters; no two of them share an `href`, and each has the
    /// number that its `href` gives (see [`Book::wf`]).
    pub chapters: Vec<Chapter>,
}

/// What a [`Book`] holds, as mathematical values.
pub struct BookView {
    pub title: Seq<char>,
    pub homepage: Seq<char>,
    pub intro: Seq<char>,
    pub author: Seq<char>,
    pub chapters: Seq<ChapterView>,
}

/// The views of `chapters`, in order.
pub open spec fn chapter_views(chapters: Seq<Chapter>) -> Seq<ChapterView> {
    Seq::new(chapters.len(), |i: int| chapters[i]@)
}

impl View for Book {
    type V = BookView;

    open spec fn view(&self) -> BookView {
        BookView {
            title: self.title@,
            homepage: self.homepage@,
            intro: self.intro@,
            author: self.author@,
            chapters: chapter_views(self.chapters@),
        }
    }
}

/// Whether no two of `chapters` share an `href`.
pub open spec fn distinct_hrefs(chapters: Seq<ChapterView>) -> bool {
    forall|i: int, j: int|
        0 <= i < j < chapters.len() ==> (#[trigger] chapters[i]).href != (
        #[trigger] chapters[j]).href
}

/// Whether the number of `chapter` is the one that its link gives.
pub open spec fn keyed(chapter: ChapterView) -> bool {
    sequence_key(chapter.href) == Some(chapter.number)
}

/// Whether each of `chapters` has the number that its link gives.
pub open spec fn all_keyed(chapters: Seq<ChapterView>) -> bool {
    forall|i: int| 0 <= i < chapters.len() ==> keyed(#[trigger] chapters[i])
}

/// Whether `chapters` can be the chapters of a book: no two of them share
/// a link, and each has the number that its link gives.
pub open spec fn well_formed(chapters: Seq<ChapterView>) -> bool {
    distinct_hrefs(chapters) && all_keyed(chapters)
}

/// Whether one of `chapters` has the link `href`.
pub open spec fn has_href(chapters: Seq<ChapterView>, href: Seq<char>) -> bool {
    exists|i: int| 0 <= i < chapters.len() && (#[trigger] chapters[i]).href == href
}

/// Whether `at` is the place of the first of `chapters` with the link
/// `href`.
pub open spec fn is_first_with_href(chapters: Seq<ChapterView>, href: Seq<char>, at: int) -> bool {
    &&& 0 <= at < chapters.len()
    &&& chapters[at].href == href
    &&& forall|i: int| 0 <= i < at ==> (#[trigger] chapters[i]).href != href
}

/// The place of the first of `chapters` with the link `href`, if there is
/// one.
pub open spec fn position_of(chapters: Seq<ChapterView>, href: Seq<char>) -> Option<int> {
    if has_href(chapters, href) {
        Some(choose|at: int| is_first_with_href(chapters, href, at))
    } else {
        None
    }
}

/// `chapters` with `chapter` added at the end, unless its link is there
/// already: the chapter that was seen first stays.
pub open spec fn with_chapter(chapters: Seq<ChapterView>, chapter: ChapterView) -> Seq<
    ChapterView,
> {
    if has_href(chapters, chapter.href) {
        chapters
    } else {
        chapters.push(chapter)
    }
}

/// `chapters` with `content` in the first chapter whose link is `href`;
/// unchanged where there is none.
pub open spec fn with_content(chapters: Seq<ChapterView>, href: Seq<char>, content: Seq<char>) -> Seq<
    ChapterView,
> {
    match position_of(chapters, href) {
        Some(at) => chapters.update(at, ChapterView { content, ..chapters[at] }),
        None => chapters,
    }
}

/// The first chapter with a given link has one place only.
pub proof fn lemma_first_with_href(chapters: Seq<ChapterView>, href: Seq<char>, at: int)
    requires
        is_first_with_href(chapters, href, at),
    ensures
        has_href(chapters, href),
        position_of(chapters, href) == Some(at),
{
    let chosen = choose|k: int| is_first_with_href(chapters, href, k);
    assert(is_first_with_href(chapters, href, chosen));
    if chosen < at {
        assert(chapters[chosen].href != href);
    } else if at < chosen {
        assert(chapters[at].href != href);
    }
}

/// Where a chapter has the link `href`, one of them is the first.
proof fn lemma_some_first_with_href(chapters: Seq<ChapterView>, href: Seq<char>, at: int)
    requires
        0 <= at < chapters.len(),
        chapters[at].href == href,
    ensures
        exists|first: int| is_first_with_href(chapters, href, first),
    decreases at,
{
    if forall|i: int| 0 <= i < at ==> (#[trigger] chapters[i]).href != href {
        assert(is_first_with_href(chapters, href, at));
    } else {
        let earlier = choose|i: int| 0 <= i < at && (#[trigger] chapters[i]).href == href;
        lemma_some_first_with_href(chapters, href, earlier);
    }
}

/// What `position_of` finds is the first chapter with the link, and it
/// finds none only where no chapter has the link.
pub proof fn lemma_position_of(chapters: Seq<ChapterView>, href: Seq<char>)
    ensures
        match position_of(chapters, href) {
            Some(at) => is_first_with_href(chapters, href, at),
            None => forall|i: int| 0 <= i < chapters.len() ==> (#[trigger] chapters[i]).href != href,
        },
{
    if has_href(chapters, href) {
        let at = choose|i: int| 0 <= i < chapters.len() && (#[trigger] chapters[i]).href == href;
        lemma_some_first_with_href(chapters, href, at);
    }
}

impl Book {
    /// Whether the book is well formed: no two chapters share an `href`,
    /// and each has the number that its `href` gives.
    pub open spec fn wf(&self) -> bool {
        well_formed(self@.chapters)
    }

    /// A book at `homepage` of which nothing else is known yet.
    pub fn new(homepage: &str) -> (book: Self)
        ensures
            book@ == (BookView {
                title: Seq::empty(),
                homepage: homepage@,
                intro: Seq::empty(),
                author: Seq::empty(),
                chapters: Seq::empty(),
            }),
            book.wf(),
    {
        let book = Book {
            title: String::new(),
            author: String::new(),
            intro: String::new(),
            chapters: Vec::new(),
            homepage: homepage.to_owned(),
        };
        assert(chapter_views(book.chapters@) == Seq::<ChapterView>::empty());
        book
    }

    /// The place of the first chapter with the link `href`.
    pub fn find_chapter(&self, href: &str) -> (found: Option<usize>)
        ensures
            match found {
                Some(at) => at < self.chapters.len() && position_of(self@.chapters, href@) == Some(
                    at as int,
                ),
                None => position_of(self@.chapters, href@) is None,
            },
    {
        let wanted = href.to_owned();
        let mut i: usize = 0;
        while i < self.chapters.len()
            invariant
                i <= self.chapters.len(),
                wanted@ == href@,
                forall|k: int| 0 <= k < i ==> (#[trigger] self@.chapters[k]).href != href@,
            decreases self.chapters.len() - i,
        {
            if self.chapters[i].href == wanted {
                proof {
                    assert(self@.chapters[i as int].href == href@);
                    lemma_first_with_href(self@.chapters, href@, i as int);
                }
                return Some(i);
            }
            assert(self@.chapters[i as int].href != href@);
            i += 1;
        }
        None
    }

    /// Adds `chapter` at the end unless a chapter with its link is there
    /// already, in which case the book stays as it is.
    pub fn add_chapter(&mut self, chapter: Chapter)
        ensures
            final(self)@ == (BookView {
                chapters: with_chapter(old(self)@.chapters, chapter@),
                ..old(self)@
            }),
            distinct_hrefs(old(self)@.chapters) ==> distinct_hrefs(final(self)@.chapters),
            old(self).wf() && chapter.wf() ==> final(self).wf(),
    {
        let found = self.find_chapter(chapter.href.as_str());
        if found.is_none() {
            self.chapters.push(chapter);
            assert(chapter_views(self.chapters@) == chapter_views(old(self).chapters@).push(
                chapter@,
            ));
        }
    }

    /// Puts `new_content` in the first chapter whose link is `href` and
    /// says whether there is such a chapter; where there is none the book
    /// stays as it is and the answer is `false`.
    pub fn update_chapter_content(&mut self, href: &str, new_content: &str) -> (found: bool)
        ensures
            found == has_href(old(self)@.chapters, href@),
            final(self)@ == (BookView {
                chapters: with_content(old(self)@.chapters, href@, new_content@),
                ..old(self)@
            }),
            !found ==> final(self)@ == old(self)@,
            old(self).wf() ==> final(self).wf(),
    {
        match self.find_chapter(href) {
            Some(at) => {
                proof {
                    lemma_position_of(self@.chapters, href@);
                }
                self.chapters[at].content = new_content.to_owned();
                assert(chapter_views(self.chapters@) == with_content(
                    old(self)@.chapters,
                    href@,
                    new_content@,
                ));
                true
            },
            None => false,
        }
    }
}

} // verus!
