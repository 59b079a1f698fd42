//! What holds of the stages together: discovery, reading order, retrieval
//! and packaging.

use crate::book::{
    distinct_hrefs, is_first_with_href, lemma_first_with_href, lemma_position_of, position_of,
    ChapterView,
};
use crate::order::{
    ascending, lemma_reading_order_ascending, lemma_reading_order_keeps_chapters,
    lemma_reading_order_stable, reading_order, with_number,
};
use crate::packaging::{entries_of, entry_of};
use crate::retrieval::{absorbed, lemma_absorbed_outline, outline, OutcomeView};
use vstd::prelude::*;

verus! {

/// The content of the last success among `outcomes` for the chapter with
/// the link `href`, if there is one.
pub open spec fn last_success(outcomes: Seq<OutcomeView>, href: Seq<char>) -> Option<Seq<char>>
    decreases outcomes.len(),
{
    if outcomes.len() == 0 {
        None
    } else {
        match outcomes.last() {
            OutcomeView::Success { href: link, content } => if link == href {
                Some(content)
            } else {
                last_success(outcomes.drop_last(), href)
            },
            OutcomeView::Failure { .. } => last_success(outcomes.drop_last(), href),
        }
    }
}

/// Whether `outcomes` holds at most one success for each link.
pub open spec fn one_success_each(outcomes: Seq<OutcomeView>) -> bool {
    forall|i: int, j: int|
        0 <= i < j < outcomes.len() ==> !({
            &&& #[trigger] outcomes[i] matches OutcomeView::Success { href: first, .. }
            &&& #[trigger] outcomes[j] matches OutcomeView::Success { href: second, .. }
            &&& first == second
        })
}

/// In a book whose chapters have links of their own, each chapter ends with
/// the content of the last success for its link, and with the content it
/// had where there is none.
pub proof fn lemma_absorbed_content(chapters: Seq<ChapterView>, outcomes: Seq<OutcomeView>, at: int)
    requires
        distinct_hrefs(chapters),
        0 <= at < chapters.len(),
    ensures
        absorbed(chapters, outcomes).len() == chapters.len(),
        absorbed(chapters, outcomes)[at] == (match last_success(outcomes, chapters[at].href) {
            Some(content) => ChapterView { content, ..chapters[at] },
            None => chapters[at],
        }),
    decreases outcomes.len(),
{
    lemma_absorbed_outline(chapters, outcomes);
    if outcomes.len() > 0 {
        let earlier = absorbed(chapters, outcomes.drop_last());
        lemma_absorbed_content(chapters, outcomes.drop_last(), at);
        lemma_absorbed_outline(chapters, outcomes.drop_last());
        match outcomes.last() {
            OutcomeView::Success { href, content } => {
                assert forall|i: int| 0 <= i < chapters.len() implies (#[trigger] earlier[i]).href
                    == chapters[i].href by {
                    assert(outline(earlier)[i] == outline(chapters)[i]);
                }
                lemma_position_of(earlier, href);
                if chapters[at].href == href {
                    assert(is_first_with_href(earlier, href, at)) by {
                        assert forall|i: int| 0 <= i < at implies (#[trigger] earlier[i]).href
                            != href by {
                            assert(chapters[i].href != chapters[at].href);
                        }
                    }
                    lemma_first_with_href(earlier, href, at);
                } else {
                    if position_of(earlier, href) == Some(at) {
                        assert(earlier[at].href == href);
                    }
                }
            },
            OutcomeView::Failure { .. } => {},
        }
    }
}

/// A chapter for which no success came keeps its place and its content:
/// the book has as many chapters as before, and this one is as it was.
pub proof fn lemma_failed_chapter_stays(
    chapters: Seq<ChapterView>,
    outcomes: Seq<OutcomeView>,
    at: int,
)
    requires
        distinct_hrefs(chapters),
        0 <= at < chapters.len(),
        last_success(outcomes, chapters[at].href) is None,
    ensures
        absorbed(chapters, outcomes).len() == chapters.len(),
        absorbed(chapters, outcomes)[at] == chapters[at],
        entries_of(absorbed(chapters, outcomes)).len() == chapters.len(),
        entries_of(absorbed(chapters, outcomes))[at] == entry_of(chapters[at]),
{
    lemma_absorbed_content(chapters, outcomes, at);
}

/// The packaged book follows reading order, whatever retrieval brings and in
/// whatever order it brings it: the numbers of the chapters never fall, the
/// chapters of one number stand as they were found, and the documents stand
/// for these chapters one by one, each under the link and the title of its
/// chapter.
pub proof fn lemma_packaged_in_reading_order(found: Seq<ChapterView>, outcomes: Seq<OutcomeView>)
    ensures
        ascending(reading_order(found)),
        forall|number: nat|
            with_number(reading_order(found), number) == with_number(found, number),
        entries_of(absorbed(reading_order(found), outcomes)).len() == found.len(),
        forall|i: int|
            0 <= i < found.len() ==> {
                &&& (#[trigger] entries_of(absorbed(reading_order(found), outcomes))[i]).href
                    == reading_order(found)[i].href
                &&& entries_of(absorbed(reading_order(found), outcomes))[i].title == reading_order(
                    found,
                )[i].title
                &&& absorbed(reading_order(found), outcomes)[i].number == reading_order(
                    found,
                )[i].number
            },
{
    let sorted = reading_order(found);
    let merged = absorbed(sorted, outcomes);
    lemma_reading_order_ascending(found);
    lemma_reading_order_keeps_chapters(found);
    assert forall|number: nat| with_number(sorted, number) == with_number(found, number) by {
        lemma_reading_order_stable(found, number);
    }
    lemma_absorbed_outline(sorted, outcomes);
    assert forall|i: int| 0 <= i < found.len() implies {
        &&& (#[trigger] entries_of(merged)[i]).href == sorted[i].href
        &&& entries_of(merged)[i].title == sorted[i].title
        &&& merged[i].number == sorted[i].number
    } by {
        assert(outline(merged)[i] == outline(sorted)[i]);
    }
}

/// The last success for a link is one of the outcomes, and there is none
/// only where no outcome is a success for the link.
pub proof fn lemma_last_success(outcomes: Seq<OutcomeView>, href: Seq<char>)
    ensures
        match last_success(outcomes, href) {
            Some(content) => outcomes.contains(OutcomeView::Success { href, content }),
            None => forall|i: int|
                0 <= i < outcomes.len() ==> !(#[trigger] outcomes[i] matches OutcomeView::Success {
                    href: link,
                    ..
                } && link == href),
        },
    decreases outcomes.len(),
{
    if outcomes.len() > 0 {
        let earlier = outcomes.drop_last();
        lemma_last_success(earlier, href);
        match last_success(outcomes, href) {
            Some(content) => {
                if last_success(earlier, href) == Some(content) && !(outcomes.last()
                    == OutcomeView::Success { href, content }) {
                    let i = choose|i: int|
                        0 <= i < earlier.len() && earlier[i] == (OutcomeView::Success {
                            href,
                            content,
                        });
                    assert(outcomes[i] == OutcomeView::Success { href, content });
                } else {
                    assert(outcomes[outcomes.len() - 1] == OutcomeView::Success { href, content });
                }
            },
            None => {
                assert forall|i: int| 0 <= i < outcomes.len() implies !(
                #[trigger] outcomes[i] matches OutcomeView::Success { href: link, .. } && link
                    == href) by {
                    if i < earlier.len() {
                        assert(earlier[i] == outcomes[i]);
                    }
                }
            },
        }
    }
}

/// Where each chapter is retrieved once, the order in which the outcomes
/// arrive does not matter: two arrivals of the same outcomes leave the same
/// last success for every link.
pub proof fn lemma_last_success_any_order(
    first: Seq<OutcomeView>,
    second: Seq<OutcomeView>,
    href: Seq<char>,
)
    requires
        first.to_multiset() == second.to_multiset(),
        one_success_each(first),
        one_success_each(second),
    ensures
        last_success(first, href) == last_success(second, href),
{
    lemma_last_success(first, href);
    lemma_last_success(second, href);
    first.to_multiset_ensures();
    second.to_multiset_ensures();
    match last_success(first, href) {
        Some(content) => {
            let outcome = OutcomeView::Success { href, content };
            assert(first.to_multiset().count(outcome) > 0);
            assert(second.contains(outcome));
            let i = choose|i: int| 0 <= i < second.len() && second[i] == outcome;
            match last_success(second, href) {
                Some(other) => {
                    let same = OutcomeView::Success { href, content: other };
                    let j = choose|j: int| 0 <= j < second.len() && second[j] == same;
                    if i < j {
                        assert(!(second[i] matches OutcomeView::Success { href: a, .. }
                            && second[j] matches OutcomeView::Success { href: b, .. } && a == b));
                    } else if j < i {
                        assert(!(second[j] matches OutcomeView::Success { href: a, .. }
                            && second[i] matches OutcomeView::Success { href: b, .. } && a == b));
                    }
                },
                None => {
                    assert(!(second[i] matches OutcomeView::Success { href: link, .. } && link
                        == href));
                },
            }
        },
        None => {
            match last_success(second, href) {
                Some(other) => {
                    let outcome = OutcomeView::Success { href, content: other };
                    assert(second.to_multiset().count(outcome) > 0);
                    assert(first.contains(outcome));
                    let i = choose|i: int| 0 <= i < first.len() && first[i] == outcome;
                    assert(!(first[i] matches OutcomeView::Success { href: link, .. } && link
                        == href));
                },
                None => {},
            }
        },
    }
}

/// Retrieval may complete in any order. In a book whose chapters have links
/// of their own, with one outcome for each chapter at most, two arrivals of
/// the same outcomes leave the same book.
pub proof fn lemma_absorbed_any_order(
    chapters: Seq<ChapterView>,
    first: Seq<OutcomeView>,
    second: Seq<OutcomeView>,
)
    requires
        distinct_hrefs(chapters),
        first.to_multiset() == second.to_multiset(),
        one_success_each(first),
        one_success_each(second),
    ensures
        absorbed(chapters, first) == absorbed(chapters, second),
{
    let left = absorbed(chapters, first);
    let right = absorbed(chapters, second);
    lemma_absorbed_outline(chapters, first);
    lemma_absorbed_outline(chapters, second);
    assert forall|i: int| 0 <= i < chapters.len() implies left[i] == right[i] by {
        lemma_absorbed_content(chapters, first, i);
        lemma_absorbed_content(chapters, second, i);
        lemma_last_success_any_order(first, second, chapters[i].href);
    }
    assert(left =~= right);
}

} // verus!
