//! Reading order: chapters by ascending number, chapters of one number in
//! the order in which they were found.

use crate::book::{
    all_keyed, chapter_views, distinct_hrefs, keyed, Book, BookView, ChapterView,
};
use vstd::prelude::*;
use vstd::seq_lib::to_multiset_insert;

verus! {

/// Whether the numbers of `chapters` never fall from one chapter to a later
/// one.
pub open spec fn ascending(chapters: Seq<ChapterView>) -> bool {
    forall|i: int, j: int|
        0 <= i <= j < chapters.len() ==> (#[trigger] chapters[i]).number <= (
        #[trigger] chapters[j]).number
}

/// The chapters of `chapters` whose number is `number`, in their order.
pub open spec fn with_number(chapters: Seq<ChapterView>, number: nat) -> Seq<ChapterView> {
    chapters.filter(|c: ChapterView| c.number == number)
}

/// Where a chapter of the number `number` goes in `sorted`: just behind the
/// last chapter whose number is not greater.
pub open spec fn place_for(sorted: Seq<ChapterView>, number: nat) -> int
    decreases sorted.len(),
{
    if sorted.len() == 0 || sorted.last().number <= number {
        sorted.len() as int
    } else {
        place_for(sorted.drop_last(), number)
    }
}

/// `chapters` in reading order: each chapter in turn is put in its place
/// among those found before it.
pub open spec fn reading_order(chapters: Seq<ChapterView>) -> Seq<ChapterView>
    decreases chapters.len(),
{
    if chapters.len() == 0 {
        chapters
    } else {
        let sorted = reading_order(chapters.drop_last());
        sorted.insert(place_for(sorted, chapters.last().number), chapters.last())
    }
}

/// The place for a number lies behind every chapter of a smaller or equal
/// number and before every chapter of a greater one that follows it.
pub proof fn lemma_place_for(sorted: Seq<ChapterView>, number: nat)
    ensures
        0 <= place_for(sorted, number) <= sorted.len(),
        forall|k: int|
            place_for(sorted, number) <= k < sorted.len() ==> (#[trigger] sorted[k]).number
                > number,
        place_for(sorted, number) > 0 ==> sorted[place_for(sorted, number) - 1].number <= number,
    decreases sorted.len(),
{
    if sorted.len() == 0 || sorted.last().number <= number {
    } else {
        let shorter = sorted.drop_last();
        lemma_place_for(shorter, number);
        assert forall|k: int| place_for(sorted, number) <= k < sorted.len() implies (
        #[trigger] sorted[k]).number > number by {
            if k < shorter.len() {
                assert(shorter[k] == sorted[k]);
            }
        }
        if place_for(sorted, number) > 0 {
            assert(shorter[place_for(sorted, number) - 1] == sorted[place_for(sorted, number) - 1]);
        }
    }
}

/// There is one place only that is as `lemma_place_for` says.
pub proof fn lemma_place_found(sorted: Seq<ChapterView>, number: nat, at: int)
    requires
        0 <= at <= sorted.len(),
        forall|k: int| at <= k < sorted.len() ==> (#[trigger] sorted[k]).number > number,
        at > 0 ==> sorted[at - 1].number <= number,
    ensures
        place_for(sorted, number) == at,
{
    lemma_place_for(sorted, number);
    let place = place_for(sorted, number);
    if place < at {
        assert(sorted[at - 1].number > number);
    } else if at < place {
        assert(sorted[place - 1].number > number);
    }
}

/// Reading order keeps every chapter, as often as it was there.
pub proof fn lemma_reading_order_keeps_chapters(chapters: Seq<ChapterView>)
    ensures
        reading_order(chapters).len() == chapters.len(),
        reading_order(chapters).to_multiset() == chapters.to_multiset(),
    decreases chapters.len(),
{
    if chapters.len() > 0 {
        let found = chapters.drop_last();
        let sorted = reading_order(found);
        lemma_reading_order_keeps_chapters(found);
        lemma_place_for(sorted, chapters.last().number);
        to_multiset_insert(sorted, place_for(sorted, chapters.last().number), chapters.last());
        to_multiset_insert(found, found.len() as int, chapters.last());
        assert(found.insert(found.len() as int, chapters.last()) == chapters);
    }
}

/// In reading order the numbers never fall.
pub proof fn lemma_reading_order_ascending(chapters: Seq<ChapterView>)
    ensures
        ascending(reading_order(chapters)),
    decreases chapters.len(),
{
    if chapters.len() > 0 {
        let sorted = reading_order(chapters.drop_last());
        let last = chapters.last();
        let place = place_for(sorted, last.number);
        let after = sorted.insert(place, last);
        lemma_reading_order_ascending(chapters.drop_last());
        lemma_place_for(sorted, last.number);
        assert forall|i: int, j: int| 0 <= i <= j < after.len() implies (#[trigger] after[i]).number
            <= (#[trigger] after[j]).number by {
            let before_i = if i < place { i } else { i - 1 };
            let before_j = if j < place { j } else { j - 1 };
            if i != place && j != place {
                assert(sorted[before_i].number <= sorted[before_j].number);
            } else if i == place && j != place {
                assert(sorted[before_j].number > last.number);
            } else if i != place && j == place {
                if place > 0 {
                    assert(sorted[before_i].number <= sorted[place - 1].number);
                }
            }
        }
    }
}

/// A sequence none of whose members passes the test has an empty filter.
proof fn lemma_filter_none(s: Seq<ChapterView>, pred: spec_fn(ChapterView) -> bool)
    requires
        forall|i: int| 0 <= i < s.len() ==> !pred(#[trigger] s[i]),
    ensures
        s.filter(pred) == Seq::<ChapterView>::empty(),
    decreases s.len(),
{
    reveal(Seq::filter);
    if s.len() > 0 {
        lemma_filter_none(s.drop_last(), pred);
    }
}

/// Putting a chapter in its place leaves the chapters of every number in
/// the order they had with the new chapter behind them.
proof fn lemma_insert_keeps_order(sorted: Seq<ChapterView>, chapter: ChapterView, number: nat)
    ensures
        with_number(sorted.insert(place_for(sorted, chapter.number), chapter), number)
            == with_number(sorted.push(chapter), number),
{
    let pred = |c: ChapterView| c.number == number;
    let place = place_for(sorted, chapter.number);
    lemma_place_for(sorted, chapter.number);
    let head = sorted.subrange(0, place);
    let tail = sorted.subrange(place, sorted.len() as int);
    let one = seq![chapter];
    assert(sorted.insert(place, chapter) == head + one + tail);
    assert(sorted.push(chapter) == head + tail + one);
    Seq::filter_distributes_over_add(head + one, tail, pred);
    Seq::filter_distributes_over_add(head, one, pred);
    Seq::filter_distributes_over_add(head + tail, one, pred);
    Seq::filter_distributes_over_add(head, tail, pred);
    if chapter.number == number {
        assert forall|i: int| 0 <= i < tail.len() implies !pred(#[trigger] tail[i]) by {
            assert(tail[i] == sorted[place + i]);
        }
        lemma_filter_none(tail, pred);
        assert(head.filter(pred) + one.filter(pred) + Seq::<ChapterView>::empty()
            == head.filter(pred) + Seq::<ChapterView>::empty() + one.filter(pred));
    } else {
        lemma_filter_none(one, pred);
        assert(head.filter(pred) + Seq::<ChapterView>::empty() + tail.filter(pred)
            == head.filter(pred) + tail.filter(pred) + Seq::<ChapterView>::empty());
    }
}

/// Reading order is stable: the chapters of one number stay in the order in
/// which they were found.
pub proof fn lemma_reading_order_stable(chapters: Seq<ChapterView>, number: nat)
    ensures
        with_number(reading_order(chapters), number) == with_number(chapters, number),
    decreases chapters.len(),
{
    if chapters.len() > 0 {
        let pred = |c: ChapterView| c.number == number;
        let found = chapters.drop_last();
        let sorted = reading_order(found);
        let last = chapters.last();
        lemma_reading_order_stable(found, number);
        lemma_insert_keeps_order(sorted, last, number);
        Seq::filter_distributes_over_add(sorted, seq![last], pred);
        Seq::filter_distributes_over_add(found, seq![last], pred);
        assert(sorted.push(last) == sorted + seq![last]);
        assert(found.push(last) == found + seq![last]);
        assert(found.push(last) == chapters);
    }
}

/// Reading order keeps the links apart: where no two chapters shared a link
/// before, none do after.
pub proof fn lemma_reading_order_distinct(chapters: Seq<ChapterView>)
    requires
        distinct_hrefs(chapters),
    ensures
        distinct_hrefs(reading_order(chapters)),
    decreases chapters.len(),
{
    if chapters.len() > 0 {
        let found = chapters.drop_last();
        let sorted = reading_order(found);
        let last = chapters.last();
        let place = place_for(sorted, last.number);
        let after = sorted.insert(place, last);
        assert(distinct_hrefs(found)) by {
            assert forall|i: int, j: int| 0 <= i < j < found.len() implies (#[trigger] found[i]).href
                != (#[trigger] found[j]).href by {
                assert(found[i] == chapters[i] && found[j] == chapters[j]);
            }
        }
        lemma_reading_order_distinct(found);
        lemma_reading_order_keeps_chapters(found);
        lemma_place_for(sorted, last.number);
        assert forall|k: int| 0 <= k < sorted.len() implies (#[trigger] sorted[k]).href
            != last.href by {
            sorted.to_multiset_ensures();
            found.to_multiset_ensures();
            assert(sorted.contains(sorted[k]));
            assert(sorted.to_multiset().count(sorted[k]) > 0);
            assert(found.to_multiset().count(sorted[k]) > 0);
            assert(found.contains(sorted[k]));
            let j = choose|j: int| 0 <= j < found.len() && found[j] == sorted[k];
            assert(chapters[j].href != chapters[chapters.len() - 1].href);
        }
        assert forall|i: int, j: int| 0 <= i < j < after.len() implies (#[trigger] after[i]).href
            != (#[trigger] after[j]).href by {
            let before_i = if i < place { i } else { i - 1 };
            let before_j = if j < place { j } else { j - 1 };
            if i != place && j != place {
                assert(sorted[before_i].href != sorted[before_j].href);
            } else if i == place {
                assert(sorted[before_j].href != last.href);
            } else {
                assert(sorted[before_i].href != last.href);
            }
        }
    }
}

/// Reading order keeps the numbers with their links: where each chapter
/// had the number that its link gives, each has it after.
pub proof fn lemma_reading_order_keyed(chapters: Seq<ChapterView>)
    requires
        all_keyed(chapters),
    ensures
        all_keyed(reading_order(chapters)),
{
    let sorted = reading_order(chapters);
    lemma_reading_order_keeps_chapters(chapters);
    sorted.to_multiset_ensures();
    chapters.to_multiset_ensures();
    assert forall|i: int| 0 <= i < sorted.len() implies keyed(#[trigger] sorted[i]) by {
        assert(sorted.contains(sorted[i]));
        assert(sorted.to_multiset().count(sorted[i]) > 0);
        assert(chapters.contains(sorted[i]));
        let j = choose|j: int| 0 <= j < chapters.len() && chapters[j] == sorted[i];
        assert(keyed(chapters[j]));
    }
}

/// The chapters of the number of the last chapter end with that chapter,
/// and without it they are the chapters of that number among the others.
proof fn lemma_with_number_last(chapters: Seq<ChapterView>, number: nat)
    requires
        chapters.len() > 0,
    ensures
        chapters.last().number == number ==> with_number(chapters, number) == with_number(
            chapters.drop_last(),
            number,
        ).push(chapters.last()),
        chapters.last().number != number ==> with_number(chapters, number) == with_number(
            chapters.drop_last(),
            number,
        ),
{
    reveal(Seq::filter);
}

/// Two ascending sequences that hold the same chapters of every number, in
/// the same order, are one sequence.
proof fn lemma_ascending_unique(first: Seq<ChapterView>, second: Seq<ChapterView>)
    requires
        ascending(first),
        ascending(second),
        forall|number: nat| with_number(first, number) == with_number(second, number),
    ensures
        first == second,
    decreases first.len() + second.len(),
{
    if first.len() == 0 || second.len() == 0 {
        let full = if first.len() == 0 { second } else { first };
        let empty = if first.len() == 0 { first } else { second };
        if full.len() > 0 {
            let number = full.last().number;
            lemma_with_number_last(full, number);
            lemma_filter_none(empty, |c: ChapterView| c.number == number);
            assert(with_number(full, number).len() > 0);
            assert(with_number(empty, number).len() == 0);
        }
        assert(first =~= second);
    } else {
        let x = first.last();
        let y = second.last();
        lemma_with_number_last(first, x.number);
        lemma_with_number_last(second, y.number);
        if x.number != y.number {
            let (high, low) = if x.number > y.number { (first, second) } else { (second, first) };
            let number = high.last().number;
            assert forall|i: int| 0 <= i < low.len() implies !(|c: ChapterView| c.number == number)(
                #[trigger] low[i],
            ) by {
                assert(low[i].number <= low[low.len() - 1].number);
            }
            lemma_filter_none(low, |c: ChapterView| c.number == number);
            assert(with_number(high, number).len() > 0);
            assert(with_number(low, number).len() == 0);
        }
        assert(x.number == y.number);
        assert(with_number(first, x.number).last() == x);
        assert(with_number(second, x.number).last() == y);
        let shorter_first = first.drop_last();
        let shorter_second = second.drop_last();
        assert(ascending(shorter_first)) by {
            assert forall|i: int, j: int| 0 <= i <= j < shorter_first.len() implies (
            #[trigger] shorter_first[i]).number <= (#[trigger] shorter_first[j]).number by {
                assert(shorter_first[i] == first[i] && shorter_first[j] == first[j]);
            }
        }
        assert(ascending(shorter_second)) by {
            assert forall|i: int, j: int| 0 <= i <= j < shorter_second.len() implies (
            #[trigger] shorter_second[i]).number <= (#[trigger] shorter_second[j]).number by {
                assert(shorter_second[i] == second[i] && shorter_second[j] == second[j]);
            }
        }
        assert forall|number: nat| with_number(shorter_first, number) == with_number(
            shorter_second,
            number,
        ) by {
            lemma_with_number_last(first, number);
            lemma_with_number_last(second, number);
            if number == x.number {
                assert(with_number(shorter_first, number) == with_number(
                    first,
                    number,
                ).drop_last());
                assert(with_number(shorter_second, number) == with_number(
                    second,
                    number,
                ).drop_last());
            }
        }
        lemma_ascending_unique(shorter_first, shorter_second);
        assert(first == shorter_first.push(x));
        assert(second == shorter_second.push(y));
    }
}

/// Reading order is the only order of the chapters in which the numbers
/// never fall and the chapters of each number stand as they were found.
pub proof fn lemma_reading_order_unique(found: Seq<ChapterView>, other: Seq<ChapterView>)
    requires
        ascending(other),
        forall|number: nat| with_number(other, number) == with_number(found, number),
    ensures
        other == reading_order(found),
{
    lemma_reading_order_ascending(found);
    assert forall|number: nat| with_number(other, number) == with_number(
        reading_order(found),
        number,
    ) by {
        lemma_reading_order_stable(found, number);
    }
    lemma_ascending_unique(other, reading_order(found));
}

impl Book {
    /// Puts the chapters in reading order: ascending by number, chapters of
    /// one number in the order they had.
    pub fn sort_chapters(&mut self)
        ensures
            final(self)@ == (BookView {
                chapters: reading_order(old(self)@.chapters),
                ..old(self)@
            }),
            ascending(final(self)@.chapters),
            final(self)@.chapters.to_multiset() == old(self)@.chapters.to_multiset(),
            forall|number: nat|
                with_number(final(self)@.chapters, number) == with_number(
                    old(self)@.chapters,
                    number,
                ),
            distinct_hrefs(old(self)@.chapters) ==> distinct_hrefs(final(self)@.chapters),
            old(self).wf() ==> final(self).wf(),
    {
        let ghost before = chapter_views(self.chapters@);
        let count = self.chapters.len();
        let mut i: usize = 0;
        assert(chapter_views(self.chapters@).take(0) == reading_order(before.take(0)));
        while i < count
            invariant
                i <= count,
                count == self.chapters.len(),
                before.len() == count,
                chapter_views(self.chapters@).take(i as int) == reading_order(
                    before.take(i as int),
                ),
                chapter_views(self.chapters@).skip(i as int) == before.skip(i as int),
                self.title == old(self).title,
                self.homepage == old(self).homepage,
                self.intro == old(self).intro,
                self.author == old(self).author,
            decreases count - i,
        {
            let ghost views = chapter_views(self.chapters@);
            let ghost sorted = views.take(i as int);
            let number = self.chapters[i].number;
            let mut place = i;
            while place > 0 && self.chapters[place - 1].number > number
                invariant
                    place <= i < self.chapters.len(),
                    views == chapter_views(self.chapters@),
                    forall|k: int| place <= k < i ==> (#[trigger] views[k]).number > number,
                decreases place,
            {
                place -= 1;
            }
            proof {
                assert(views[i as int] == before.skip(i as int)[0]);
                assert forall|k: int| place <= k < sorted.len() implies (
                #[trigger] sorted[k]).number > number by {
                    assert(sorted[k] == views[k]);
                }
                if place > 0 {
                    assert(sorted[place - 1] == views[place - 1]);
                }
                lemma_place_found(sorted, number as nat, place as int);
                assert(before.take(i + 1).drop_last() == before.take(i as int));
                assert(before.take(i + 1).last() == before[i as int]);
            }
            if place < i {
                let chapter = self.chapters.remove(i);
                self.chapters.insert(place, chapter);
            }
            proof {
                let moved = chapter_views(self.chapters@);
                assert(moved.take(i + 1) == sorted.insert(place as int, views[i as int]));
                let rest = moved.skip(i + 1);
                assert forall|k: int| 0 <= k < count - i - 1 implies #[trigger] rest[k]
                    == before.skip(i + 1)[k] by {
                    assert(moved[i + 1 + k] == views[i + 1 + k]);
                    assert(views.skip(i as int)[k + 1] == before.skip(i as int)[k + 1]);
                }
                assert(moved.skip(i + 1) == before.skip(i + 1));
            }
            i += 1;
        }
        proof {
            let after = chapter_views(self.chapters@);
            assert(after.take(count as int) == after);
            assert(before.take(count as int) == before);
            lemma_reading_order_ascending(before);
            lemma_reading_order_keeps_chapters(before);
            assert forall|number: nat| with_number(after, number) == with_number(
                before,
                number,
            ) by {
                lemma_reading_order_stable(before, number);
            }
            if distinct_hrefs(before) {
                lemma_reading_order_distinct(before);
            }
            if all_keyed(before) {
                lemma_reading_order_keyed(before);
            }
        }
    }
}

} // verus!
