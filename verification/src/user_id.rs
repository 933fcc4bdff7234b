use vstd::prelude::*;
use crate::uuid_text::{parse_uuid, render_uuid, uuid_text_of, uuid_value_of};
use crate::AuthError;

verus! {

/// An opaque identifier for a user: a 128-bit value with a canonical text
/// form. It is a distinct type from `GroupId`, so a group identifier can
/// never be passed where a user identifier is required.
#[derive(Clone, Copy, Debug, PartialEq, Eq, Hash, Structural)]
pub struct UserId(pub u128);

impl UserId {
    /// Reads an identifier from text; text that does not conform to an
    /// identifier format is rejected as malformed.
    pub fn from_text(s: &str) -> (r: Result<UserId, AuthError>)
        ensures
            match r {
                Ok(id) => uuid_value_of(s@) == Some(id.0),
                Err(e) => e == AuthError::MalformedIdentifier && uuid_value_of(s@) is None,
            },
    {
        match parse_uuid(s) {
            Some(v) => Ok(UserId(v)),
            None => Err(AuthError::MalformedIdentifier),
        }
    }

    /// Renders the canonical lowercase hyphenated text form; parsing that
    /// text yields this identifier back.
    pub fn to_text(&self) -> (r: String)
        ensures
            r@ == uuid_text_of(self.0),
            uuid_value_of(r@) == Some(self.0),
    {
        render_uuid(self.0)
    }
}

impl Default for UserId {
    fn default() -> (r: Self)
        ensures
            r.0 == 0,
    {
        UserId(0)
    }
}

} // verus!
