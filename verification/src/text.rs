//! Character-level text helpers shared by the other modules.
//!
//! Every contract here is stated over `Seq<char>`, the view of `str` and
//! `String`.

use vstd::prelude::*;

verus! {

/// `String::push` appends one character to the end of the string.
pub assume_specification[ String::push ](s: &mut String, ch: char)
    ensures
        final(s)@ == old(s)@.push(ch),
;

/// Whether `pattern` stands in `s` at position `at`.
pub open spec fn matches_at(s: Seq<char>, pattern: Seq<char>, at: int) -> bool {
    &&& 0 <= at
    &&& at + pattern.len() <= s.len()
    &&& s.subrange(at, at + pattern.len()) == pattern
}

/// Whether `pattern` stands anywhere in `s`.
pub open spec fn occurs_in(s: Seq<char>, pattern: Seq<char>) -> bool {
    exists|at: int| matches_at(s, pattern, at)
}

/// `s` with every occurrence of `pattern` replaced by `with`, scanning from
/// the left and resuming after each occurrence, so that occurrences that
/// overlap an earlier one are not seen. An empty pattern occurs nowhere.
pub open spec fn replace_all(s: Seq<char>, pattern: Seq<char>, with: Seq<char>) -> Seq<char>
    decreases s.len(),
{
    if pattern.len() == 0 || s.len() < pattern.len() {
        s
    } else if s.subrange(0, pattern.len() as int) == pattern {
        with + replace_all(s.skip(pattern.len() as int), pattern, with)
    } else {
        seq![s[0]] + replace_all(s.skip(1), pattern, with)
    }
}

/// The pieces in order, with `separator` between each two neighbours.
pub open spec fn join(pieces: Seq<Seq<char>>, separator: Seq<char>) -> Seq<char>
    decreases pieces.len(),
{
    if pieces.len() == 0 {
        Seq::empty()
    } else if pieces.len() == 1 {
        pieces[0]
    } else {
        join(pieces.drop_last(), separator) + separator + pieces.last()
    }
}

/// The views of the strings of `pieces`, in order.
pub open spec fn views(pieces: Seq<String>) -> Seq<Seq<char>> {
    Seq::new(pieces.len(), |i: int| pieces[i]@)
}

/// The characters of `s`, in order.
pub fn to_chars(s: &str) -> (chars: Vec<char>)
    ensures
        chars@ == s@,
{
    let mut chars: Vec<char> = Vec::new();
    for c in it: s.chars()
        invariant
            chars@ == it.seq().take(it.index() as int),
    {
        chars.push(c);
    }
    chars
}

/// The string made of `chars`, in order.
pub fn from_chars(chars: &Vec<char>) -> (s: String)
    ensures
        s@ == chars@,
{
    let mut s = String::new();
    let mut i: usize = 0;
    while i < chars.len()
        invariant
            i <= chars.len(),
            s@ == chars@.take(i as int),
        decreases chars.len() - i,
    {
        s.push(chars[i]);
        i += 1;
    }
    s
}

/// Whether `pattern` stands in `s` at position `at`.
fn found_at(s: &Vec<char>, pattern: &Vec<char>, at: usize) -> (found: bool)
    requires
        at <= s.len(),
    ensures
        found == matches_at(s@, pattern@, at as int),
{
    if pattern.len() > s.len() - at {
        return false;
    }
    let mut j: usize = 0;
    while j < pattern.len()
        invariant
            j <= pattern.len(),
            at + pattern.len() <= s.len(),
            s@.subrange(at as int, at + j) == pattern@.take(j as int),
        decreases pattern.len() - j,
    {
        if s[at + j] != pattern[j] {
            assert(s@.subrange(at as int, at + pattern.len())[j as int] != pattern@[j as int]);
            return false;
        }
        assert(s@.subrange(at as int, at + j + 1) == s@.subrange(at as int, at + j).push(
            s@[at + j],
        ));
        assert(pattern@.take(j + 1) == pattern@.take(j as int).push(pattern@[j as int]));
        j += 1;
    }
    assert(pattern@ == pattern@.take(pattern.len() as int));
    true
}

/// Replaces every occurrence of `pattern` in `s` by `with`.
pub fn replace_chars(s: &Vec<char>, pattern: &Vec<char>, with: &Vec<char>) -> (out: Vec<char>)
    ensures
        out@ == replace_all(s@, pattern@, with@),
{
    let mut out: Vec<char> = Vec::new();
    let mut i: usize = 0;
    assert(s@.skip(0) == s@);
    while i < s.len()
        invariant
            i <= s.len(),
            out@ + replace_all(s@.skip(i as int), pattern@, with@) == replace_all(
                s@,
                pattern@,
                with@,
            ),
        decreases s.len() - i,
    {
        let ghost rest = s@.skip(i as int);
        if pattern.len() > 0 && found_at(s, pattern, i) {
            assert(rest.subrange(0, pattern@.len() as int) == s@.subrange(
                i as int,
                i + pattern@.len(),
            ));
            assert(rest.skip(pattern@.len() as int) == s@.skip(i + pattern@.len()));
            let ghost before = out@;
            let mut k: usize = 0;
            while k < with.len()
                invariant
                    k <= with.len(),
                    out@ == before + with@.take(k as int),
                decreases with.len() - k,
            {
                out.push(with[k]);
                assert(with@.take(k + 1) == with@.take(k as int).push(with@[k as int]));
                k += 1;
            }
            assert(with@.take(with.len() as int) == with@);
            assert(out@ + replace_all(s@.skip(i + pattern@.len()), pattern@, with@) == before + (
            with@ + replace_all(s@.skip(i + pattern@.len()), pattern@, with@)));
            i += pattern.len();
        } else {
            assert(rest.len() >= pattern@.len() ==> rest.subrange(0, pattern@.len() as int)
                == s@.subrange(i as int, i + pattern@.len()));
            assert(rest.skip(1) == s@.skip(i + 1));
            let ghost before = out@;
            out.push(s[i]);
            proof {
                if pattern@.len() == 0 || rest.len() < pattern@.len() {
                    lemma_replace_all_short(rest.skip(1), pattern@, with@);
                    assert(seq![rest[0]] + rest.skip(1) == rest);
                }
            }
            assert(out@ + replace_all(s@.skip(i + 1), pattern@, with@) == before + (seq![rest[0]]
                + replace_all(s@.skip(i + 1), pattern@, with@)));
            i += 1;
        }
    }
    assert(s@.skip(s.len() as int) == Seq::<char>::empty());
    assert(out@ + Seq::<char>::empty() == out@);
    out
}

/// A text shorter than the pattern is left as it is, and so is any text
/// by the empty pattern.
pub proof fn lemma_replace_all_short(s: Seq<char>, pattern: Seq<char>, with: Seq<char>)
    requires
        pattern.len() == 0 || s.len() < pattern.len(),
    ensures
        replace_all(s, pattern, with) == s,
{
}

/// A text in which the pattern does not occur is left as it is.
pub proof fn lemma_replace_all_absent(s: Seq<char>, pattern: Seq<char>, with: Seq<char>)
    requires
        !occurs_in(s, pattern),
    ensures
        replace_all(s, pattern, with) == s,
    decreases s.len(),
{
    if pattern.len() == 0 || s.len() < pattern.len() {
    } else {
        assert(!matches_at(s, pattern, 0));
        let rest = s.skip(1);
        assert forall|at: int| !matches_at(rest, pattern, at) by {
            if matches_at(rest, pattern, at) {
                assert(rest.subrange(at, at + pattern.len()) == s.subrange(
                    at + 1,
                    at + 1 + pattern.len(),
                ));
                assert(matches_at(s, pattern, at + 1));
            }
        }
        lemma_replace_all_absent(rest, pattern, with);
        assert(seq![s[0]] + rest == s);
    }
}

/// Joins the strings of `pieces` with `separator` between neighbours.
pub fn join_text(pieces: &Vec<String>, separator: &str) -> (joined: String)
    ensures
        joined@ == join(views(pieces@), separator@),
{
    let mut joined = String::new();
    let mut i: usize = 0;
    while i < pieces.len()
        invariant
            i <= pieces.len(),
            joined@ == join(views(pieces@).take(i as int), separator@),
        decreases pieces.len() - i,
    {
        let ghost done = views(pieces@).take(i as int);
        let ghost next = views(pieces@).take(i + 1);
        assert(next.drop_last() == done);
        assert(next.last() == pieces@[i as int]@);
        if i > 0 {
            joined = joined.concat(separator);
        }
        joined = joined.concat(pieces[i].as_str());
        if i == 0 {
            assert(Seq::<char>::empty() + pieces@[0]@ == pieces@[0]@);
        }
        i += 1;
    }
    assert(views(pieces@).take(pieces.len() as int) == views(pieces@));
    joined
}

/// The digit that stands for `value`, a number below ten.
pub open spec fn digit_char(value: nat) -> char {
    if value == 0 {
        '0'
    } else if value == 1 {
        '1'
    } else if value == 2 {
        '2'
    } else if value == 3 {
        '3'
    } else if value == 4 {
        '4'
    } else if value == 5 {
        '5'
    } else if value == 6 {
        '6'
    } else if value == 7 {
        '7'
    } else if value == 8 {
        '8'
    } else {
        '9'
    }
}

/// The decimal numeral of `number`, without leading zeros.
pub open spec fn decimal_digits(number: nat) -> Seq<char>
    decreases number,
{
    if number < 10 {
        seq![digit_char(number)]
    } else {
        decimal_digits(number / 10).push(digit_char(number % 10))
    }
}

/// The digit that stands for `value`.
fn digit(value: usize) -> (c: char)
    requires
        value < 10,
    ensures
        c == digit_char(value as nat),
{
    if value == 0 {
        '0'
    } else if value == 1 {
        '1'
    } else if value == 2 {
        '2'
    } else if value == 3 {
        '3'
    } else if value == 4 {
        '4'
    } else if value == 5 {
        '5'
    } else if value == 6 {
        '6'
    } else if value == 7 {
        '7'
    } else if value == 8 {
        '8'
    } else {
        '9'
    }
}

/// Writes `number` as a decimal numeral.
pub fn decimal(number: usize) -> (numeral: String)
    ensures
        numeral@ == decimal_digits(number as nat),
{
    let mut reversed: Vec<char> = Vec::new();
    let mut rest = number;
    while rest >= 10
        invariant
            decimal_digits(number as nat) == decimal_digits(rest as nat) + reversed@.reverse(),
        decreases rest,
    {
        let ghost before = reversed@;
        reversed.push(digit(rest % 10));
        assert(reversed@.reverse() == seq![digit_char((rest % 10) as nat)] + before.reverse());
        assert(decimal_digits(rest as nat) == decimal_digits((rest / 10) as nat).push(
            digit_char((rest % 10) as nat),
        ));
        assert(decimal_digits((rest / 10) as nat).push(digit_char((rest % 10) as nat))
            + before.reverse() == decimal_digits((rest / 10) as nat) + (seq![
            digit_char((rest % 10) as nat),
        ] + before.reverse()));
        rest = rest / 10;
    }
    let ghost before = reversed@;
    reversed.push(digit(rest));
    assert(reversed@.reverse() == seq![digit_char(rest as nat)] + before.reverse());
    let mut numeral = String::new();
    let mut i: usize = reversed.len();
    while i > 0
        invariant
            i <= reversed.len(),
            numeral@ == reversed@.reverse().take(reversed.len() - i),
        decreases i,
    {
        i -= 1;
        numeral.push(reversed[i]);
        assert(reversed@.reverse().take(reversed.len() - i) == reversed@.reverse().take(
            reversed.len() - i - 1,
        ).push(reversed@[i as int]));
    }
    assert(reversed@.reverse().take(reversed.len() as int) == reversed@.reverse());
    numeral
}

} // verus!
