//! Node identifiers, as `ya_client_model` reads and prints them.
use vstd::prelude::*;
use std::str::FromStr;

verus! {

/// Whether `c` is a hexadecimal digit, in either case.
pub open spec fn is_hex_char(c: char) -> bool {
    ||| 48 <= c as int <= 57
    ||| 97 <= c as int <= 102
    ||| 65 <= c as int <= 70
}

/// `c` in lower case where it is one of `A` to `F`.
pub open spec fn hex_lower(c: char) -> char {
    if 65 <= c as int <= 70 {
        ((c as int) + 32) as char
    } else {
        c
    }
}

/// The canonical text of the node id that `s` denotes, `None` where `s` is none: a node id
/// is `0x` and forty hexadecimal digits, and is printed with its digits in lower case.
pub open spec fn spec_node_id_text(s: Seq<char>) -> Option<Seq<char>> {
    if s.len() == 42 && s[0] == '0' && s[1] == 'x' && forall|i: int| 2 <= i < 42 ==> #[trigger] is_hex_char(s[i]) {
        Some(Seq::new(42, |i: int| if i < 2 { s[i] } else { hex_lower(s[i]) }))
    } else {
        None
    }
}

/// Reads a node id with `ya_client_model::NodeId::from_str` and prints it back with its
/// `Display` (lower-case hex with the `0x` prefix).
#[verifier::external_body]
pub(crate) fn parse_node_id(s: &str) -> (r: Option<String>)
    ensures
        r matches Some(t) ==> spec_node_id_text(s@) == Some(t@),
        r is None ==> spec_node_id_text(s@) is None,
{
    ya_client_model::NodeId::from_str(s).ok().map(|id| id.to_string())
}

} // verus!
