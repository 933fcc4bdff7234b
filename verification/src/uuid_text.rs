use vstd::prelude::*;

verus! {

/// The canonical text of a 128-bit identifier: the lowercase hyphenated form.
pub uninterp spec fn uuid_text_of(value: u128) -> Seq<char>;

/// The 128-bit value that identifier parsing reads out of a piece of text,
/// if the text conforms to one of the accepted identifier formats.
pub uninterp spec fn uuid_value_of(text: Seq<char>) -> Option<u128>;

/// Relies on uuid::Uuid::to_string (the Display impl renders the hyphenated
/// form): the text is a function of the 128-bit value alone, is 36 characters
/// long, and uuid::Uuid::parse_str reads the same value back from it.
#[verifier::external_body]
pub fn render_uuid(value: u128) -> (r: String)
    ensures
        r@ == uuid_text_of(value),
        r@.len() == 36,
        uuid_value_of(r@) == Some(value),
{
    uuid::Uuid::from_u128(value).to_string()
}

/// Relies on uuid::Uuid::parse_str: the value read is a function of the text
/// alone, and non-conforming text is rejected.
#[verifier::external_body]
pub fn parse_uuid(text: &str) -> (r: Option<u128>)
    ensures
        r == uuid_value_of(text@),
{
    match uuid::Uuid::parse_str(text) {
        Ok(u) => Some(u.as_u128()),
        Err(_) => None,
    }
}

/// Relies on uuid::Uuid::new_v4, a random identifier: nothing is promised of
/// the value.
#[verifier::external_body]
pub fn fresh_id() -> u128 {
    uuid::Uuid::new_v4().as_u128()
}

/// Relies on chrono::Utc::now, the wall clock: nothing is promised of the
/// value.
#[verifier::external_body]
pub fn now_timestamp() -> i64 {
    chrono::Utc::now().timestamp()
}

} // verus!
