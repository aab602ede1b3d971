//! Fresh ids and the present time.
use vstd::prelude::*;
use vstd::string::*;

use crate::text;

verus! {

/// A lower-case hexadecimal digit.
pub open spec fn is_hex(c: char) -> bool {
    text::is_digit(c) || 'a' as u32 <= c as u32 <= 'f' as u32
}

/// The text of a random UUID: thirty-two hexadecimal digits in five groups
/// with hyphens between them, the third of which starts with a 4.
pub open spec fn is_uuid(s: Seq<char>) -> bool {
    &&& s.len() == 36
    &&& s[14] == '4'
    &&& forall|i: int|
        0 <= i < 36 ==> if i == 8 || i == 13 || i == 18 || i == 23 {
            #[trigger] s[i] == '-'
        } else {
            is_hex(s[i])
        }
}

/// `uuid::Uuid::new_v4`, as text. Which id comes out is left to chance; it has
/// the form of a random UUID.
#[verifier::external_body]
pub(crate) fn new_id() -> (r: String)
    ensures
        is_uuid(r@),
{
    uuid::Uuid::new_v4().to_string()
}

/// `chrono::Utc::now`, as RFC 3339 text. What time it is depends on the clock;
/// the offset that the text ends with is that of UTC.
#[verifier::external_body]
pub(crate) fn now() -> (r: String)
    ensures
        r@.len() >= 6,
        r@.skip(r@.len() - 6) == "+00:00"@,
{
    chrono::Utc::now().to_rfc3339()
}

/// A fresh id, and when it was made.
pub struct Stamp {
    pub id: String,
    pub at: String,
}

impl Stamp {
    /// A stamp of this moment. Which id it has is left to chance.
    pub fn fresh() -> (s: Stamp)
        ensures
            is_uuid(s.id@),
            s.at@.len() >= 6,
            s.at@.skip(s.at@.len() - 6) == "+00:00"@,
    {
        Stamp { id: new_id(), at: now() }
    }
}

} // verus!
