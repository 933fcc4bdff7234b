use vstd::prelude::*;
use crate::uuid_text::{parse_uuid, render_uuid, uuid_text_of, uuid_value_of};
use crate::AuthError;

verus! {

/// An opaque identifier for a group: a 128-bit value with a canonical text
/// form, distinct at the type level from `UserId`.
#[derive(Clone, Copy, Debug, PartialEq, Eq, Hash, Structural)]
pub struct GroupId(pub u128);

impl GroupId {
    /// Reads an identifier from text; text that does not conform to an
    /// identifier format is rejected as malformed.
    pub fn from_text(s: &str) -> (r: Result<GroupId, AuthError>)
        ensures
            match r {
                Ok(id) => uuid_value_of(s@) == Some(id.0),
                Err(e) => e == AuthError::MalformedIdentifier && uuid_value_of(s@) is None,
            },
    {
        match parse_uuid(s) {
            Some(v) => Ok(GroupId(v)),
            None => Err(AuthError::MalformedIdentifier),
        }
    }

    /// Renders the canonical lowercase hyphenated text form; parsing that
    /// text yields this identifier back.
    pub fn to_text(&self) -> (r: String)
        ensures
            r@ == uuid_text_of(self.0),
            uuid_value_of(r@) == Some(self.0),
    {
        render_uuid(self.0)
    }
}

impl Default for GroupId {
    fn default() -> (r: Self)
        ensures
            r.0 == 0,
    {
        GroupId(0)
    }
}

} // verus!
