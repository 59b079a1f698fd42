//! Small helpers of the scraper: entity decoding, the politeness delay and
//! the request headers.

use crate::text::{
    from_chars, lemma_replace_all_absent, occurs_in, replace_all, replace_chars, to_chars,
};
use rand::Rng;
use vstd::prelude::*;

verus! {

/// Shortest politeness delay, in milliseconds.
pub const DELAY_FLOOR_MILLIS: u64 = 500;

/// Bound that every politeness delay stays under, in milliseconds.
pub const DELAY_CEILING_MILLIS: u64 = 2000;

/// `text` with the four known entities decoded, one after the other over the
/// whole text: `&nbsp;` is dropped, then `&amp;` becomes `&`, then `&lt;`
/// becomes `<`, then `&gt;` becomes `>`.
pub open spec fn decode_entities(text: Seq<char>) -> Seq<char> {
    let spaced = replace_all(text, "&nbsp;"@, ""@);
    let joined = replace_all(spaced, "&amp;"@, "&"@);
    let opened = replace_all(joined, "&lt;"@, "<"@);
    replace_all(opened, "&gt;"@, ">"@)
}

/// Whether one of the four known entities stands somewhere in `text`.
pub open spec fn has_entity(text: Seq<char>) -> bool {
    ||| occurs_in(text, "&nbsp;"@)
    ||| occurs_in(text, "&amp;"@)
    ||| occurs_in(text, "&lt;"@)
    ||| occurs_in(text, "&gt;"@)
}

/// Decodes the four known HTML entities in `s`.
pub fn replace_html_entities(s: &str) -> (decoded: String)
    ensures
        decoded@ == decode_entities(s@),
{
    proof {
        reveal_strlit("&nbsp;");
        reveal_strlit("&amp;");
        reveal_strlit("&lt;");
        reveal_strlit("&gt;");
    }
    let text = to_chars(s);
    let spaced = replace_chars(&text, &to_chars("&nbsp;"), &to_chars(""));
    let joined = replace_chars(&spaced, &to_chars("&amp;"), &to_chars("&"));
    let opened = replace_chars(&joined, &to_chars("&lt;"), &to_chars("<"));
    let closed = replace_chars(&opened, &to_chars("&gt;"), &to_chars(">"));
    from_chars(&closed)
}

/// Text that holds none of the four entities is its own decoding.
pub proof fn lemma_decode_without_entity(text: Seq<char>)
    requires
        !has_entity(text),
    ensures
        decode_entities(text) == text,
{
    lemma_replace_all_absent(text, "&nbsp;"@, ""@);
    lemma_replace_all_absent(text, "&amp;"@, "&"@);
    lemma_replace_all_absent(text, "&lt;"@, "<"@);
    lemma_replace_all_absent(text, "&gt;"@, ">"@);
}

/// Decoding is idempotent on text whose decoding holds no entity any more:
/// a second pass changes nothing.
pub proof fn lemma_decode_idempotent(text: Seq<char>)
    requires
        !has_entity(decode_entities(text)),
    ensures
        decode_entities(decode_entities(text)) == decode_entities(text),
{
    lemma_decode_without_entity(decode_entities(text));
}

/// `rand::thread_rng().gen_range(low..high)`: a number drawn from the
/// half-open range, which must not be empty. Which number is chance; it lies
/// in the range.
#[verifier::external_body]
fn draw_between(low: u64, high: u64) -> (drawn: u64)
    requires
        low < high,
    ensures
        low <= drawn < high,
{
    rand::thread_rng().gen_range(low..high)
}

/// A number below `bound`, drawn at random.
pub(crate) fn draw_below(bound: usize) -> (drawn: usize)
    requires
        bound > 0,
    ensures
        drawn < bound,
{
    draw_between(0, bound as u64) as usize
}

/// How long to wait before the next request, in milliseconds: drawn at
/// random for each call, at least `DELAY_FLOOR_MILLIS` and less than
/// `DELAY_CEILING_MILLIS`.
pub fn random_delay() -> (millis: u64)
    ensures
        DELAY_FLOOR_MILLIS <= millis < DELAY_CEILING_MILLIS,
{
    draw_between(DELAY_FLOOR_MILLIS, DELAY_CEILING_MILLIS)
}

/// The browser that the requests give themselves out as.
pub const USER_AGENT: &'static str =
    "Mozilla/5.0 (Windows NT 10.0; Win64; x64) AppleWebKit/537.36 (KHTML, like Gecko) Chrome/126.0.0.0 Safari/537.36";

/// The kinds of answer that the requests accept.
pub const ACCEPT: &'static str = "application/json, text/plain, */*";

/// The languages that the requests ask for.
pub const ACCEPT_LANGUAGE: &'static str = "zh-CN,zh;q=0.9,en;q=0.8,ja;q=0.7";

/// The encodings that the requests accept.
pub const ACCEPT_ENCODING: &'static str = "gzip, deflate, br";

/// One header of a request.
#[derive(Debug)]
pub struct Header {
    pub name: String,
    pub value: String,
}

/// Whether `header` has the name `name` and the value `value`.
pub open spec fn is_header(header: Header, name: Seq<char>, value: Seq<char>) -> bool {
    header.name@ == name && header.value@ == value
}

/// The headers that go with every request.
pub fn default_headers() -> (headers: Vec<Header>)
    ensures
        headers@.len() == 4,
        is_header(headers[0], "user-agent"@, USER_AGENT@),
        is_header(headers[1], "accept"@, ACCEPT@),
        is_header(headers[2], "accept-language"@, ACCEPT_LANGUAGE@),
        is_header(headers[3], "accept-encoding"@, ACCEPT_ENCODING@),
{
    let mut headers: Vec<Header> = Vec::new();
    headers.push(Header { name: "user-agent".to_owned(), value: USER_AGENT.to_owned() });
    headers.push(Header { name: "accept".to_owned(), value: ACCEPT.to_owned() });
    headers.push(Header { name: "accept-language".to_owned(), value: ACCEPT_LANGUAGE.to_owned() });
    headers.push(Header { name: "accept-encoding".to_owned(), value: ACCEPT_ENCODING.to_owned() });
    headers
}

} // verus!
