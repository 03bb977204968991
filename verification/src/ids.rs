//! Fresh identifiers for new records.

use vstd::prelude::*;

verus! {

/// A lowercase hexadecimal digit.
pub open spec fn is_lower_hex(c: char) -> bool {
    ('0' <= c && c <= '9') || ('a' <= c && c <= 'f')
}

/// The shape of a random (version 4) UUID in hyphenated lowercase form:
/// 36 characters, hyphens at positions 8, 13, 18 and 23, lowercase hex digits
/// elsewhere, the version digit `4` at 14 and one of `8`, `9`, `a`, `b` at 19.
pub open spec fn is_fresh_id_shape(id: Seq<char>) -> bool {
    &&& id.len() == 36
    &&& id[8] == '-'
    &&& id[13] == '-'
    &&& id[18] == '-'
    &&& id[23] == '-'
    &&& forall|i: int| 0 <= i < 36 && i != 8 && i != 13 && i != 18 && i != 23
        ==> is_lower_hex(#[trigger] id[i])
    &&& id[14] == '4'
    &&& (id[19] == '8' || id[19] == '9' || id[19] == 'a' || id[19] == 'b')
}

/// `uuid::Uuid::new_v4()` rendered with `to_string`. The value is random;
/// uuid's source fixes the version and variant bits and formats the value
/// hyphenated in lowercase hex, which is the shape this contract states, and
/// all it states.
#[verifier::external_body]
pub(crate) fn fresh_id() -> (id: String)
    ensures
        is_fresh_id_shape(id@),
{
    uuid::Uuid::new_v4().to_string()
}

} // verus!
