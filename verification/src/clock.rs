//! The wall clock.
use vstd::prelude::*;

verus! {

/// Milliseconds since the Unix epoch now, read with `chrono::Utc::now` and
/// `DateTime::timestamp_millis`. Nothing is stated of the value: it is the time.
#[verifier::external_body]
pub(crate) fn now_millis() -> (r: i64) {
    chrono::Utc::now().timestamp_millis()
}

} // verus!

verus! {

/// Whether `c` is a hexadecimal digit in lower case.
pub open spec fn is_lower_hex(c: char) -> bool {
    ||| 48 <= c as int <= 57
    ||| 97 <= c as int <= 102
}

/// The text of a random (version 4) uuid: 36 characters, five groups of lower-case hex
/// digits of 8, 4, 4, 4 and 12 joined by `-`, the third group starting with `4` and the
/// fourth with one of `8`, `9`, `a`, `b`.
pub open spec fn uuid_v4_text(s: Seq<char>) -> bool {
    &&& s.len() == 36
    &&& forall|i: int|
        0 <= i < 36 ==> (if i == 8 || i == 13 || i == 18 || i == 23 {
            s[i] == '-'
        } else {
            is_lower_hex(#[trigger] s[i])
        })
    &&& s[14] == '4'
    &&& (s[19] == '8' || s[19] == '9' || s[19] == 'a' || s[19] == 'b')
}

/// A fresh random id, from `uuid::Uuid::new_v4` printed with its `Display` (hyphenated,
/// lower case). What the digits are is random; only their form is stated.
#[verifier::external_body]
pub(crate) fn new_uuid() -> (r: String)
    ensures
        uuid_v4_text(r@),
{
    uuid::Uuid::new_v4().to_string()
}

} // verus!
