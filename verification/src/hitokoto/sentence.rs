//! The records of the sayings and the choice among them.

use crate::util::draw_below;
use vstd::prelude::*;

verus! {

/// One saying, as its record holds it.
#[derive(Default, Debug, Clone, PartialEq)]
pub struct Sentence {
    pub id: i64,
    pub uuid: String,
    /// The saying itself.
    pub hitokoto: String,
    /// The kind of work that the saying is from.
    pub type_field: String,
    /// The work that the saying is from.
    pub from: String,
    /// Who said it, where the record says so.
    pub from_who: Option<String>,
    pub creator: String,
    pub creator_uid: i64,
    pub reviewer: i64,
    pub commit_from: String,
    pub created_at: String,
    /// Length of the saying as the record gives it.
    pub length: i64,
}

/// The sayings of one category.
#[derive(Debug)]
pub struct Category {
    /// Name of the category.
    pub category: String,
    pub sentence: Vec<Sentence>,
}

/// Why no saying was chosen.
#[derive(Debug, Clone, Copy, PartialEq, Eq, Structural)]
pub enum SelectionError {
    /// No category has the name that was asked for.
    UnknownCategory,
    /// The category that was asked for holds no saying.
    EmptyCategory,
    /// The category that was asked for holds no saying at the place that
    /// was asked for.
    NoSuchSaying,
}

/// Whether `at` is the place of the last of `categories` with the name
/// `name`.
pub open spec fn is_last_named(categories: Seq<Category>, name: Seq<char>, at: int) -> bool {
    &&& 0 <= at < categories.len()
    &&& categories[at].category@ == name
    &&& forall|k: int| at < k < categories.len() ==> (#[trigger] categories[k]).category@ != name
}

impl Category {
    /// A category of the name `category` that holds no saying yet.
    pub fn new(category: &str) -> (made: Self)
        ensures
            made.category@ == category@,
            made.sentence@.len() == 0,
    {
        Category { category: category.to_owned(), sentence: Vec::new() }
    }
}

/// The place of the last of `categories` with the name `category`.
pub fn find_category(categories: &Vec<Category>, category: &str) -> (found: Option<usize>)
    ensures
        match found {
            Some(at) => is_last_named(categories@, category@, at as int),
            None => forall|k: int|
                0 <= k < categories.len() ==> (#[trigger] categories[k]).category@ != category@,
        },
{
    let wanted = category.to_owned();
    let mut i: usize = categories.len();
    while i > 0
        invariant
            i <= categories.len(),
            wanted@ == category@,
            forall|k: int|
                i <= k < categories.len() ==> (#[trigger] categories[k]).category@ != category@,
        decreases i,
    {
        i -= 1;
        if categories[i].category == wanted {
            return Some(i);
        }
    }
    None
}

/// No two places are the last with a name.
pub proof fn lemma_last_named_once(categories: Seq<Category>, name: Seq<char>, at: int, other: int)
    requires
        is_last_named(categories, name, at),
        is_last_named(categories, name, other),
    ensures
        at == other,
{
    if at < other {
        assert(categories[other].category@ != name);
    } else if other < at {
        assert(categories[at].category@ != name);
    }
}

/// The saying at the place `place` of the last category of the name
/// `category`.
pub fn sentence_at<'a>(categories: &'a Vec<Category>, category: &str, place: usize) -> (chosen: Result<
    &'a Sentence,
    SelectionError,
>)
    ensures
        match chosen {
            Ok(sentence) => exists|at: int|
                is_last_named(categories@, category@, at) && place < (
                #[trigger] categories[at]).sentence.len() && *sentence
                    == categories[at].sentence[place as int],
            Err(SelectionError::UnknownCategory) => forall|k: int|
                0 <= k < categories.len() ==> (#[trigger] categories[k]).category@ != category@,
            Err(SelectionError::EmptyCategory) => exists|at: int|
                is_last_named(categories@, category@, at) && (
                #[trigger] categories[at]).sentence.len() == 0,
            Err(SelectionError::NoSuchSaying) => exists|at: int|
                is_last_named(categories@, category@, at) && 0 < (
                #[trigger] categories[at]).sentence.len() <= place,
        },
{
    let at = match find_category(categories, category) {
        Some(at) => at,
        None => return Err(SelectionError::UnknownCategory),
    };
    let sentences = &categories[at].sentence;
    if sentences.len() == 0 {
        Err(SelectionError::EmptyCategory)
    } else if place >= sentences.len() {
        Err(SelectionError::NoSuchSaying)
    } else {
        assert(sentences[place as int] == categories[at as int].sentence[place as int]);
        Ok(&sentences[place])
    }
}

/// A saying of the category `category`, chosen at random among those of
/// the last category of that name: [`sentence_at`] a place that is drawn
/// among the places of that category.
pub fn random_sentence<'a>(categories: &'a Vec<Category>, category: &str) -> (chosen: Result<
    &'a Sentence,
    SelectionError,
>)
    ensures
        match chosen {
            Ok(sentence) => exists|at: int, i: int|
                is_last_named(categories@, category@, at) && 0 <= i < categories[at].sentence.len()
                    && *sentence == #[trigger] categories[at].sentence[i],
            Err(SelectionError::UnknownCategory) => forall|k: int|
                0 <= k < categories.len() ==> (#[trigger] categories[k]).category@ != category@,
            Err(SelectionError::EmptyCategory) => exists|at: int|
                is_last_named(categories@, category@, at) && (
                #[trigger] categories[at]).sentence.len() == 0,
            Err(SelectionError::NoSuchSaying) => false,
        },
{
    let at = match find_category(categories, category) {
        Some(at) => at,
        None => return Err(SelectionError::UnknownCategory),
    };
    let count = categories[at].sentence.len();
    if count == 0 {
        return Err(SelectionError::EmptyCategory);
    }
    let place = draw_below(count);
    let chosen = sentence_at(categories, category, place);
    proof {
        match chosen {
            Ok(sentence) => {
                let other = choose|other: int|
                    is_last_named(categories@, category@, other) && place < (
                    #[trigger] categories[other]).sentence.len() && *sentence
                        == categories[other].sentence[place as int];
                assert(*sentence == categories[other].sentence[place as int]);
            },
            Err(SelectionError::UnknownCategory) => {
                assert(categories[at as int].category@ == category@);
            },
            Err(SelectionError::EmptyCategory) => {
                let other = choose|other: int|
                    is_last_named(categories@, category@, other) && (
                    #[trigger] categories[other]).sentence.len() == 0;
                lemma_last_named_once(categories@, category@, at as int, other);
            },
            Err(SelectionError::NoSuchSaying) => {
                let other = choose|other: int|
                    is_last_named(categories@, category@, other) && 0 < (
                    #[trigger] categories[other]).sentence.len() <= place;
                lemma_last_named_once(categories@, category@, at as int, other);
            },
        }
    }
    chosen
}

} // verus!
