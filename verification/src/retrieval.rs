//! Retrieval: what to ask of the server for each chapter, what to make of
//! its answers, and how the outcomes go back into the book.
//!
//! Nothing here talks to a server. `Book::prepare_retrieval` says what to
//! fetch and how long to wait first, the caller fetches, in any order and
//! all at once if it likes, and `Book::scraper_chapter` takes the answers.

use crate::book::{
    all_keyed, distinct_hrefs, has_href, keyed, lemma_position_of, with_content, Book, BookView,
    Chapter, ChapterView,
};
use crate::discovery::LINK_ATTRIBUTE;
use crate::markup::{element_views, select_all, selected, Element, ElementView};
use crate::order::reading_order;
use crate::text::{join, join_text, matches_at, occurs_in};
use crate::util::{
    decode_entities, lemma_decode_without_entity, random_delay, replace_html_entities,
    DELAY_CEILING_MILLIS, DELAY_FLOOR_MILLIS,
};
use url::Url;
use vstd::prelude::*;

verus! {

/// Selects the body text on a chapter page.
pub const CONTENT_SELECTOR: &'static str = "#content";

/// Stands between the text nodes of a chapter's body.
pub const LINE_BREAK: &'static str = "\r\n";

/// Content of a chapter whose page holds no body text.
pub const MISSING_CONTENT: &'static str = "this chapter may have no content ";

/// The view of a text or, in its place, of the message of an error.
pub open spec fn text_or_message(result: Result<String, String>) -> Result<Seq<char>, Seq<char>> {
    match result {
        Ok(text) => Ok(text@),
        Err(message) => Err(message@),
    }
}

/// What joining gives: the text of the URL that `reference` resolves to
/// against the URL that `base` parses to, or the message of the error that
/// parsing either of them ends in.
pub uninterp spec fn url_join(base: Seq<char>, reference: Seq<char>) -> Result<Seq<char>, Seq<char>>;

/// `url::Url::parse` on `base`, then `Url::join` with `reference`; the URL
/// comes back as its text, an error of either step as its message. Both
/// steps read their arguments alone, so the result is named as a function of
/// the two texts.
#[verifier::external_body]
fn join_url(base: &str, reference: &str) -> (joined: Result<String, String>)
    ensures
        text_or_message(joined) == url_join(base@, reference@),
{
    let parsed = match Url::parse(base) {
        Ok(parsed) => parsed,
        Err(error) => return Err(error.to_string()),
    };
    match parsed.join(reference) {
        Ok(url) => Ok(String::from(url)),
        Err(error) => Err(error.to_string()),
    }
}

/// What to do for one chapter: wait, then fetch.
#[derive(Debug)]
pub struct FetchRequest {
    /// Link of the chapter that the request is for.
    pub href: String,
    /// How long to wait before the request goes out, in milliseconds.
    pub delay_millis: u64,
    /// Where to fetch the chapter page, or why there is no such address.
    pub address: Result<String, String>,
}

/// What came back for one chapter.
#[derive(Debug)]
pub struct FetchResponse {
    /// Link of the chapter that was asked for.
    pub href: String,
    /// The text of the chapter page, or why there is none.
    pub body: Result<String, String>,
}

/// What a [`FetchResponse`] holds, as mathematical values.
pub struct FetchResponseView {
    pub href: Seq<char>,
    pub body: Result<Seq<char>, Seq<char>>,
}

impl View for FetchResponse {
    type V = FetchResponseView;

    open spec fn view(&self) -> FetchResponseView {
        FetchResponseView { href: self.href@, body: text_or_message(self.body) }
    }
}

/// How the retrieval of one chapter ended.
#[derive(Debug)]
pub enum Outcome {
    /// The chapter was retrieved.
    Success { href: String, content: String },
    /// The chapter could not be retrieved.
    Failure { href: String, cause: String },
}

/// What an [`Outcome`] holds, as mathematical values.
pub enum OutcomeView {
    Success { href: Seq<char>, content: Seq<char> },
    Failure { href: Seq<char>, cause: Seq<char> },
}

impl View for Outcome {
    type V = OutcomeView;

    open spec fn view(&self) -> OutcomeView {
        match self {
            Outcome::Success { href, content } => OutcomeView::Success {
                href: href@,
                content: content@,
            },
            Outcome::Failure { href, cause } => OutcomeView::Failure { href: href@, cause: cause@ },
        }
    }
}

/// The views of `outcomes`, in order.
pub open spec fn outcome_views(outcomes: Seq<Outcome>) -> Seq<OutcomeView> {
    Seq::new(outcomes.len(), |i: int| outcomes[i]@)
}

/// A chapter that could not be retrieved, and why.
#[derive(Debug)]
pub struct RetrievalFailure {
    pub href: String,
    pub cause: String,
}

/// What a [`RetrievalFailure`] holds, as mathematical values.
pub struct RetrievalFailureView {
    pub href: Seq<char>,
    pub cause: Seq<char>,
}

impl View for RetrievalFailure {
    type V = RetrievalFailureView;

    open spec fn view(&self) -> RetrievalFailureView {
        RetrievalFailureView { href: self.href@, cause: self.cause@ }
    }
}

/// The views of `failures`, in order.
pub open spec fn failure_views(failures: Seq<RetrievalFailure>) -> Seq<RetrievalFailureView> {
    Seq::new(failures.len(), |i: int| failures[i]@)
}

/// A retrieved chapter that the book does not have.
#[derive(Debug)]
pub struct ReassemblyError {
    /// Link of the chapter that was retrieved and is not in the book.
    pub href: String,
}

/// The content of a chapter on whose page `found` was selected as body
/// text: the text nodes of the first match, joined by line breaks, or the
/// text that says that there is none; in either the entities are decoded.
pub open spec fn chapter_text(found: Seq<ElementView>) -> Seq<char> {
    if found.len() == 0 {
        decode_entities(MISSING_CONTENT@)
    } else {
        decode_entities(join(found[0].text, LINE_BREAK@))
    }
}

/// How retrieval ends for `response`: with the content that is read from
/// the page that came back, or with the cause for which none came.
pub open spec fn outcome_of_response(response: FetchResponseView) -> OutcomeView {
    match response.body {
        Ok(page) => OutcomeView::Success {
            href: response.href,
            content: chapter_text(selected(page, CONTENT_SELECTOR@, LINK_ATTRIBUTE@)),
        },
        Err(cause) => OutcomeView::Failure { href: response.href, cause },
    }
}

/// How retrieval ends for each of `responses`, in order.
pub open spec fn outcomes_of(responses: Seq<FetchResponse>) -> Seq<OutcomeView> {
    Seq::new(responses.len(), |i: int| outcome_of_response(responses[i]@))
}

/// `chapters` after the outcomes `outcomes`, taken in order: each success
/// puts its content in the first chapter with its link, a failure changes
/// nothing.
pub open spec fn absorbed(chapters: Seq<ChapterView>, outcomes: Seq<OutcomeView>) -> Seq<
    ChapterView,
>
    decreases outcomes.len(),
{
    if outcomes.len() == 0 {
        chapters
    } else {
        let earlier = absorbed(chapters, outcomes.drop_last());
        match outcomes.last() {
            OutcomeView::Success { href, content } => with_content(earlier, href, content),
            OutcomeView::Failure { .. } => earlier,
        }
    }
}

/// The failures among `outcomes`, in order.
pub open spec fn failures_of(outcomes: Seq<OutcomeView>) -> Seq<RetrievalFailureView>
    decreases outcomes.len(),
{
    if outcomes.len() == 0 {
        Seq::empty()
    } else {
        let earlier = failures_of(outcomes.drop_last());
        match outcomes.last() {
            OutcomeView::Success { .. } => earlier,
            OutcomeView::Failure { href, cause } => earlier.push(
                RetrievalFailureView { href, cause },
            ),
        }
    }
}

/// The link of the first success among `outcomes` for a chapter that
/// `chapters` does not hold, if there is one.
pub open spec fn first_stray(chapters: Seq<ChapterView>, outcomes: Seq<OutcomeView>) -> Option<
    Seq<char>,
>
    decreases outcomes.len(),
{
    if outcomes.len() == 0 {
        None
    } else {
        match first_stray(chapters, outcomes.drop_last()) {
            Some(href) => Some(href),
            None => match outcomes.last() {
                OutcomeView::Success { href, .. } => if has_href(chapters, href) {
                    None
                } else {
                    Some(href)
                },
                OutcomeView::Failure { .. } => None,
            },
        }
    }
}

/// `chapters` with the content of each emptied: what is left is which
/// chapters there are and in which order.
pub open spec fn outline(chapters: Seq<ChapterView>) -> Seq<ChapterView> {
    Seq::new(chapters.len(), |i: int| ChapterView { content: Seq::empty(), ..chapters[i] })
}

/// The text that stands for missing body text holds no entity, so that it
/// is the content of such a chapter letter for letter.
pub proof fn lemma_missing_content_plain()
    ensures
        chapter_text(Seq::empty()) == MISSING_CONTENT@,
{
    reveal_strlit("this chapter may have no content ");
    reveal_strlit("&nbsp;");
    reveal_strlit("&amp;");
    reveal_strlit("&lt;");
    reveal_strlit("&gt;");
    let text = MISSING_CONTENT@;
    assert(forall|i: int| 0 <= i < text.len() ==> text[i] != '&');
    assert forall|pattern: Seq<char>| pattern.len() > 0 && pattern[0] == '&' implies !occurs_in(
        text,
        pattern,
    ) by {
        if occurs_in(text, pattern) {
            let at = choose|at: int| matches_at(text, pattern, at);
            assert(text.subrange(at, at + pattern.len())[0] == pattern[0]);
        }
    }
    assert(!occurs_in(text, "&nbsp;"@));
    assert(!occurs_in(text, "&amp;"@));
    assert(!occurs_in(text, "&lt;"@));
    assert(!occurs_in(text, "&gt;"@));
    lemma_decode_without_entity(text);
}

/// A stray among the first outcomes is the first stray of all of them.
proof fn lemma_first_stray_stays(chapters: Seq<ChapterView>, outcomes: Seq<OutcomeView>, len: int)
    requires
        0 <= len <= outcomes.len(),
        first_stray(chapters, outcomes.take(len)) is Some,
    ensures
        first_stray(chapters, outcomes) == first_stray(chapters, outcomes.take(len)),
    decreases outcomes.len(),
{
    if len == outcomes.len() {
        assert(outcomes.take(len) == outcomes);
    } else {
        assert(outcomes.drop_last().take(len) == outcomes.take(len));
        lemma_first_stray_stays(chapters, outcomes.drop_last(), len);
    }
}

/// New content in a chapter leaves the outline as it is, and the links
/// apart.
pub proof fn lemma_with_content_outline(
    chapters: Seq<ChapterView>,
    href: Seq<char>,
    content: Seq<char>,
)
    ensures
        outline(with_content(chapters, href, content)) == outline(chapters),
        distinct_hrefs(chapters) ==> distinct_hrefs(with_content(chapters, href, content)),
        all_keyed(chapters) ==> all_keyed(with_content(chapters, href, content)),
{
    lemma_position_of(chapters, href);
    let after = with_content(chapters, href, content);
    assert(outline(after) == outline(chapters));
    if all_keyed(chapters) {
        assert forall|i: int| 0 <= i < after.len() implies keyed(#[trigger] after[i]) by {
            assert(keyed(chapters[i]));
        }
    }
    if distinct_hrefs(chapters) {
        assert forall|i: int, j: int| 0 <= i < j < after.len() implies (#[trigger] after[i]).href
            != (#[trigger] after[j]).href by {
            assert(after[i].href == chapters[i].href);
            assert(after[j].href == chapters[j].href);
        }
    }
}

/// Outcomes leave the outline of the chapters as it is: which chapters
/// there are, and in which order, is the same after any outcomes.
pub proof fn lemma_absorbed_outline(chapters: Seq<ChapterView>, outcomes: Seq<OutcomeView>)
    ensures
        outline(absorbed(chapters, outcomes)) == outline(chapters),
        absorbed(chapters, outcomes).len() == chapters.len(),
        distinct_hrefs(chapters) ==> distinct_hrefs(absorbed(chapters, outcomes)),
        all_keyed(chapters) ==> all_keyed(absorbed(chapters, outcomes)),
    decreases outcomes.len(),
{
    if outcomes.len() > 0 {
        let earlier = absorbed(chapters, outcomes.drop_last());
        lemma_absorbed_outline(chapters, outcomes.drop_last());
        match outcomes.last() {
            OutcomeView::Success { href, content } => {
                lemma_with_content_outline(earlier, href, content);
            },
            OutcomeView::Failure { .. } => {},
        }
    }
    assert(outline(absorbed(chapters, outcomes)).len() == outline(chapters).len());
}

impl Chapter {
    /// What to do to retrieve this chapter of the book at `base_url`: the
    /// wait is drawn anew for each request, the address is the chapter's
    /// link resolved against `base_url`.
    pub fn fetch_request(&self, base_url: &str) -> (request: FetchRequest)
        ensures
            request.href@ == self.href@,
            DELAY_FLOOR_MILLIS <= request.delay_millis < DELAY_CEILING_MILLIS,
            text_or_message(request.address) == url_join(base_url@, self.href@),
    {
        FetchRequest {
            href: self.href.clone(),
            delay_millis: random_delay(),
            address: join_url(base_url, self.href.as_str()),
        }
    }

    /// The content of a chapter on whose page `found` was selected as body
    /// text.
    pub fn content_from(found: &Vec<Element>) -> (content: String)
        ensures
            content@ == chapter_text(element_views(found@)),
            found.len() == 0 ==> content@ == MISSING_CONTENT@,
    {
        if found.len() == 0 {
            proof {
                lemma_missing_content_plain();
                assert(element_views(found@) == Seq::<ElementView>::empty());
            }
            replace_html_entities(MISSING_CONTENT)
        } else {
            let body = join_text(&found[0].text, LINE_BREAK);
            replace_html_entities(body.as_str())
        }
    }

    /// Takes the content of the chapter from `page`, the text of its page,
    /// and hands back a copy of the chapter as it then is. Where the page
    /// holds no body text the content says so.
    pub fn scraper_chapter_content(&mut self, page: &str) -> (updated: Self)
        ensures
            final(self)@ == (ChapterView {
                content: chapter_text(selected(page@, CONTENT_SELECTOR@, LINK_ATTRIBUTE@)),
                ..old(self)@
            }),
            updated@ == final(self)@,
    {
        let found = select_all(page, CONTENT_SELECTOR, LINK_ATTRIBUTE);
        let content = Chapter::content_from(&found);
        self.update_content(content.as_str())
    }
}

impl Outcome {
    /// How retrieval ends for `response`.
    pub fn of_response(response: &FetchResponse) -> (outcome: Self)
        ensures
            outcome@ == outcome_of_response(response@),
    {
        match &response.body {
            Ok(page) => {
                let found = select_all(page.as_str(), CONTENT_SELECTOR, LINK_ATTRIBUTE);
                Outcome::Success {
                    href: response.href.clone(),
                    content: Chapter::content_from(&found),
                }
            },
            Err(cause) => Outcome::Failure { href: response.href.clone(), cause: cause.clone() },
        }
    }
}

impl Book {
    /// Fixes the order of the chapters and says what to fetch: puts the
    /// chapters in reading order and makes one request for each, in that
    /// order.
    pub fn prepare_retrieval(&mut self) -> (requests: Vec<FetchRequest>)
        ensures
            final(self)@ == (BookView {
                chapters: reading_order(old(self)@.chapters),
                ..old(self)@
            }),
            old(self).wf() ==> final(self).wf(),
            requests.len() == final(self)@.chapters.len(),
            forall|i: int|
                0 <= i < requests.len() ==> {
                    &&& (#[trigger] requests[i]).href@ == final(self)@.chapters[i].href
                    &&& DELAY_FLOOR_MILLIS <= requests[i].delay_millis < DELAY_CEILING_MILLIS
                    &&& text_or_message(requests[i].address) == url_join(
                        old(self)@.homepage,
                        final(self)@.chapters[i].href,
                    )
                },
    {
        self.sort_chapters();
        let mut requests: Vec<FetchRequest> = Vec::new();
        let mut i: usize = 0;
        while i < self.chapters.len()
            invariant
                i <= self.chapters.len(),
                requests.len() == i,
                forall|k: int|
                    0 <= k < i ==> {
                        &&& (#[trigger] requests[k]).href@ == self@.chapters[k].href
                        &&& DELAY_FLOOR_MILLIS <= requests[k].delay_millis < DELAY_CEILING_MILLIS
                        &&& text_or_message(requests[k].address) == url_join(
                            self@.homepage,
                            self@.chapters[k].href,
                        )
                    },
            decreases self.chapters.len() - i,
        {
            let request = self.chapters[i].fetch_request(self.homepage.as_str());
            requests.push(request);
            i += 1;
        }
        requests
    }

    /// Takes the outcomes of retrieval into the book. Each success puts its
    /// content in the chapter with its link; the failures are handed back,
    /// in order, and their chapters stay as they are. The order in which
    /// the outcomes come moves no chapter. A success for a chapter that the
    /// book does not have is an error, and the book then stays as it was.
    pub fn merge(&mut self, outcomes: &Vec<Outcome>) -> (report: Result<
        Vec<RetrievalFailure>,
        ReassemblyError,
    >)
        ensures
            match first_stray(old(self)@.chapters, outcome_views(outcomes@)) {
                Some(href) => report matches Err(error) && error.href@ == href && final(self)@
                    == old(self)@,
                None => report matches Ok(failures) && failure_views(failures@) == failures_of(
                    outcome_views(outcomes@),
                ) && final(self)@ == (BookView {
                    chapters: absorbed(old(self)@.chapters, outcome_views(outcomes@)),
                    ..old(self)@
                }),
            },
            outline(final(self)@.chapters) == outline(old(self)@.chapters),
            old(self).wf() ==> final(self).wf(),
    {
        let ghost all = outcome_views(outcomes@);
        let ghost before = self@.chapters;
        let mut i: usize = 0;
        while i < outcomes.len()
            invariant
                i <= outcomes.len(),
                all == outcome_views(outcomes@),
                *self == *old(self),
                before == self@.chapters,
                first_stray(before, all.take(i as int)) is None,
            decreases outcomes.len() - i,
        {
            proof {
                assert(all.take(i + 1).drop_last() == all.take(i as int));
                assert(all.take(i + 1).last() == outcomes@[i as int]@);
            }
            match &outcomes[i] {
                Outcome::Success { href, content } => {
                    if self.find_chapter(href.as_str()).is_none() {
                        proof {
                            lemma_first_stray_stays(before, all, i + 1);
                        }
                        return Err(ReassemblyError { href: href.clone() });
                    }
                },
                Outcome::Failure { .. } => {},
            }
            i += 1;
        }
        assert(all.take(outcomes.len() as int) == all);
        let mut failures: Vec<RetrievalFailure> = Vec::new();
        let mut i: usize = 0;
        assert(failure_views(failures@) == Seq::<RetrievalFailureView>::empty());
        while i < outcomes.len()
            invariant
                i <= outcomes.len(),
                all == outcome_views(outcomes@),
                self@ == (BookView { chapters: absorbed(before, all.take(i as int)), ..old(self)@ }),
                failure_views(failures@) == failures_of(all.take(i as int)),
            decreases outcomes.len() - i,
        {
            proof {
                assert(all.take(i + 1).drop_last() == all.take(i as int));
                assert(all.take(i + 1).last() == outcomes@[i as int]@);
            }
            match &outcomes[i] {
                Outcome::Success { href, content } => {
                    self.update_chapter_content(href.as_str(), content.as_str());
                },
                Outcome::Failure { href, cause } => {
                    let ghost earlier = failure_views(failures@);
                    failures.push(RetrievalFailure { href: href.clone(), cause: cause.clone() });
                    assert(failure_views(failures@) == earlier.push(
                        RetrievalFailureView { href: href@, cause: cause@ },
                    ));
                },
            }
            i += 1;
        }
        proof {
            assert(all.take(outcomes.len() as int) == all);
            lemma_absorbed_outline(before, all);
        }
        Ok(failures)
    }

    /// Takes the answers of the server into the book: reads the content of
    /// each chapter from the page that came back for it and merges the
    /// outcomes as [`Book::merge`] does.
    pub fn scraper_chapter(&mut self, responses: &Vec<FetchResponse>) -> (report: Result<
        Vec<RetrievalFailure>,
        ReassemblyError,
    >)
        ensures
            match first_stray(old(self)@.chapters, outcomes_of(responses@)) {
                Some(href) => report matches Err(error) && error.href@ == href && final(self)@
                    == old(self)@,
                None => report matches Ok(failures) && failure_views(failures@) == failures_of(
                    outcomes_of(responses@),
                ) && final(self)@ == (BookView {
                    chapters: absorbed(old(self)@.chapters, outcomes_of(responses@)),
                    ..old(self)@
                }),
            },
            outline(final(self)@.chapters) == outline(old(self)@.chapters),
            old(self).wf() ==> final(self).wf(),
    {
        let mut outcomes: Vec<Outcome> = Vec::new();
        let mut i: usize = 0;
        while i < responses.len()
            invariant
                i <= responses.len(),
                outcome_views(outcomes@) == outcomes_of(responses@).take(i as int),
            decreases responses.len() - i,
        {
            let ghost earlier = outcome_views(outcomes@);
            let outcome = Outcome::of_response(&responses[i]);
            outcomes.push(outcome);
            assert(outcome_views(outcomes@) == earlier.push(outcome@));
            i += 1;
        }
        assert(outcomes_of(responses@).take(responses.len() as int) == outcomes_of(responses@));
        self.merge(&outcomes)
    }
}

} // verus!
