//! Header maps of the `hyper` crate, as far as this library fills and reads
//! them. Verus does not look inside such a map: what it holds has a name
//! here, and the three calls that the library makes go through functions
//! whose contracts say what the calls do to it.

use vstd::prelude::*;
use vstd::string::*;
use hyper::header::HeaderValue;
use hyper::HeaderMap;

verus! {

/// `hyper::HeaderMap`, the multimap from header names to header values.
#[verifier::external_type_specification]
#[verifier::external_body]
#[verifier::reject_recursive_types(T)]
pub struct ExHeaderMap<T>(hyper::HeaderMap<T>);

/// `hyper::header::HeaderValue`, the bytes of one header value.
#[verifier::external_type_specification]
#[verifier::external_body]
pub struct ExHeaderValue(hyper::header::HeaderValue);

/// Headers as plain values: each name that has a value, in lower case, with
/// the bytes of its values, in the order in which they were added.
pub type Entries = Map<Seq<char>, Seq<Seq<u8>>>;

/// What a header map holds. Nothing is known of it but what the contracts
/// of `new_headers`, `set_header` and `first_value` say.
pub uninterp spec fn header_entries(headers: HeaderMap<HeaderValue>) -> Entries;

/// More names than this library ever puts into one map; `set_header` is
/// called on smaller maps only.
pub const NAME_ROOM: usize = 1024;

/// A character of a header name in its lower-case form.
pub open spec fn header_name_char(c: char) -> bool {
    'a' <= c <= 'z' || '0' <= c <= '9' || c == '-'
}

/// A header name in lower case, of at most 64 characters.
pub open spec fn is_header_name(name: Seq<char>) -> bool {
    &&& 1 <= name.len() <= 64
    &&& forall|i: int| 0 <= i < name.len() ==> header_name_char(#[trigger] name[i])
}

/// A header value of visible ASCII characters and blanks.
pub open spec fn is_header_value(value: Seq<char>) -> bool {
    forall|i: int| 0 <= i < value.len() ==> ' ' <= #[trigger] value[i] <= '~'
}

/// An empty map, by `HeaderMap::new`. Believed, not proved: it holds no
/// name.
#[verifier::external_body]
pub(crate) fn new_headers() -> (made: HeaderMap<HeaderValue>)
    ensures
        header_entries(made) == Entries::empty(),
{
    HeaderMap::new()
}

/// Gives `name` the single value `value`, by `HeaderValue::from_static` and
/// `HeaderMap::insert`. Believed, not proved: the value is stored byte for
/// byte, and the name then has this value and no other, whatever it had
/// before; other names keep what they had. Neither call panics here: the
/// value is visible ASCII, the name is a valid one that is in lower case
/// already, so that it is stored as it is written, and a map of fewer than
/// `NAME_ROOM` names can always take one more.
#[verifier::external_body]
pub(crate) fn set_header(
    headers: &mut HeaderMap<HeaderValue>,
    name: &'static str,
    value: &'static str,
)
    requires
        is_header_name(name@),
        is_header_value(value@),
        header_entries(*old(headers)).dom().finite(),
        header_entries(*old(headers)).dom().len() < NAME_ROOM,
    ensures
        header_entries(*final(headers)) == header_entries(*old(headers)).insert(
            name@,
            seq![value.spec_bytes()],
        ),
{
    headers.insert(name, HeaderValue::from_static(value));
}

/// The first value of `name`, by `HeaderMap::get` and
/// `HeaderValue::as_bytes`. Believed, not proved: `get` finds a name exactly
/// if the map holds a value for it, and then hands out the first one, whose
/// bytes are copied as they are. The name is asked for in lower case, as the
/// map keeps it.
#[verifier::external_body]
pub(crate) fn first_value(headers: &HeaderMap<HeaderValue>, name: &str) -> (found: Option<Vec<u8>>)
    requires
        is_header_name(name@),
    ensures
        found is Some <==> header_entries(*headers).dom().contains(name@),
        found is Some ==> found.unwrap()@ == header_entries(*headers)[name@].first(),
{
    match headers.get(name) {
        Some(value) => Some(value.as_bytes().to_vec()),
        None => None,
    }
}

} // verus!
