//! Header fields: which of them cross the gateway, and how a field is read.

use axum::http::header::MaxSizeReached;
use axum::http::{HeaderMap, HeaderName, HeaderValue};
use vstd::prelude::*;
use vstd::utf8::encode_utf8;

use crate::text::{opt_text, same_text, texts};

verus! {

/// A map of header fields: each name with its values.
#[verifier::external_type_specification]
#[verifier::external_body]
#[verifier::reject_recursive_types(T)]
pub struct ExHeaderMap<T>(HeaderMap<T>);

/// The value of one header field.
#[verifier::external_type_specification]
#[verifier::external_body]
pub struct ExHeaderValue(HeaderValue);

/// The error of a header map that cannot take one more name.
#[verifier::external_type_specification]
#[verifier::external_body]
pub struct ExMaxSizeReached(MaxSizeReached);

/// What a header map holds: under each name, in lower case, the values of that
/// name in the order in which they were added, each as its bytes.
pub uninterp spec fn header_values(map: HeaderMap<HeaderValue>) -> Map<Seq<char>, Seq<Seq<u8>>>;

/// Names made of small letters and hyphens.
pub open spec fn plain_name(name: Seq<char>) -> bool {
    &&& 0 < name.len() <= 64
    &&& forall|i: int|
        0 <= i < name.len() ==> 'a' <= #[trigger] name[i] <= 'z' || name[i] == '-'
}

/// The bytes that a header value may hold.
pub open spec fn value_byte(b: u8) -> bool {
    (b >= 32 && b != 127) || b == 9
}

pub open spec fn value_bytes(bytes: Seq<u8>) -> bool {
    forall|i: int| 0 <= i < bytes.len() ==> value_byte(#[trigger] bytes[i])
}

/// The number of names up to which a header map always takes another one.
pub open spec fn has_room(values: Map<Seq<char>, Seq<Seq<u8>>>) -> bool {
    values.dom().finite() && values.dom().len() <= 6553
}

/// `HeaderMap::keys` yields every name of the map, and no other.
#[verifier::external_body]
fn header_names(map: &HeaderMap<HeaderValue>) -> (r: Vec<String>)
    ensures
        forall|name: Seq<char>| #[trigger]
            texts(r@).contains(name) <==> header_values(*map).contains_key(name),
{
    map.keys().map(|name| name.as_str().to_string()).collect()
}

/// `HeaderMap::clone` gives a map with the same fields.
#[verifier::external_body]
fn clone_headers(map: &HeaderMap<HeaderValue>) -> (r: HeaderMap<HeaderValue>)
    ensures
        header_values(r) == header_values(*map),
{
    map.clone()
}

/// `HeaderMap::remove` drops a name with all of its values.
#[verifier::external_body]
fn remove_header(map: &mut HeaderMap<HeaderValue>, name: &str)
    requires
        plain_name(name@),
    ensures
        header_values(*final(map)) == header_values(*old(map)).remove(name@),
{
    map.remove(name);
}

/// `HeaderMap::get` gives the first value of a name, if the map has the name.
#[verifier::external_body]
fn first_value(map: &HeaderMap<HeaderValue>, name: &str) -> (r: Option<Vec<u8>>)
    requires
        plain_name(name@),
    ensures
        match r {
            Some(bytes) => {
                &&& header_values(*map).contains_key(name@)
                &&& header_values(*map)[name@].len() > 0
                &&& bytes@ == header_values(*map)[name@][0]
            },
            None => !header_values(*map).contains_key(name@),
        },
{
    map.get(name).map(|value| value.as_bytes().to_vec())
}

/// `HeaderMap::try_insert` makes one value the only value of a name. It fails
/// only on a map with many names, which it then leaves as it was.
#[verifier::external_body]
fn put_header(map: &mut HeaderMap<HeaderValue>, name: &str, value: &[u8]) -> (r: Result<
    (),
    MaxSizeReached,
>)
    requires
        plain_name(name@),
        value_bytes(value@),
    ensures
        r is Ok ==> header_values(*final(map)) == header_values(*old(map)).insert(
            name@,
            seq![value@],
        ),
        r is Err ==> header_values(*final(map)) == header_values(*old(map)),
        r is Err ==> !has_room(header_values(*old(map))),
{
    let name = HeaderName::from_bytes(name.as_bytes()).unwrap();
    let value = HeaderValue::from_bytes(value).unwrap();
    map.try_insert(name, value).map(|_| ())
}

/// The names of the fields that concern one connection only.
pub open spec fn hop_by_hop(name: Seq<char>) -> bool {
    ||| name == "connection"@
    ||| name == "keep-alive"@
    ||| name == "proxy-authenticate"@
    ||| name == "proxy-authorization"@
    ||| name == "te"@
    ||| name == "trailer"@
    ||| name == "transfer-encoding"@
    ||| name == "upgrade"@
}

/// Whether a field concerns one connection only.
pub fn is_hop_by_hop_header(name: &str) -> (r: bool)
    ensures
        r == hop_by_hop(name@),
{
    same_text(name, "connection") || same_text(name, "keep-alive") || same_text(
        name,
        "proxy-authenticate",
    ) || same_text(name, "proxy-authorization") || same_text(name, "te") || same_text(
        name,
        "trailer",
    ) || same_text(name, "transfer-encoding") || same_text(name, "upgrade")
}

/// Which way a message crosses the gateway.
#[derive(Clone, Copy, PartialEq, Eq, Structural)]
pub enum Direction {
    Request,
    Response,
}

/// The names of the fields that do not cross the gateway: those that concern one
/// connection only and, of a request, the host and the content length.
pub open spec fn withheld(direction: Direction, name: Seq<char>) -> bool {
    hop_by_hop(name) || (direction == Direction::Request && (name == "host"@ || name
        == "content-length"@))
}

/// The fields that cross the gateway.
pub open spec fn crossing_fields(
    direction: Direction,
    values: Map<Seq<char>, Seq<Seq<u8>>>,
) -> Map<Seq<char>, Seq<Seq<u8>>> {
    values.restrict(Set::new(|name: Seq<char>| !withheld(direction, name)))
}

proof fn lemma_withheld_names_are_plain(direction: Direction, name: Seq<char>)
    requires
        withheld(direction, name),
    ensures
        plain_name(name),
{
    reveal_strlit("connection");
    reveal_strlit("keep-alive");
    reveal_strlit("proxy-authenticate");
    reveal_strlit("proxy-authorization");
    reveal_strlit("te");
    reveal_strlit("trailer");
    reveal_strlit("transfer-encoding");
    reveal_strlit("upgrade");
    reveal_strlit("host");
    reveal_strlit("content-length");
}

fn is_withheld(direction: Direction, name: &str) -> (r: bool)
    ensures
        r == withheld(direction, name@),
{
    is_hop_by_hop_header(name) || match direction {
        Direction::Request => same_text(name, "host") || same_text(name, "content-length"),
        Direction::Response => false,
    }
}

fn copy_crossing_fields(headers: &HeaderMap<HeaderValue>, direction: Direction) -> (r: HeaderMap<
    HeaderValue,
>)
    ensures
        header_values(r) == crossing_fields(direction, header_values(*headers)),
{
    let names = header_names(headers);
    let mut out = clone_headers(headers);
    let ghost all = header_values(*headers);
    let mut i: usize = 0;
    while i < names.len()
        invariant
            i <= names@.len(),
            all == header_values(*headers),
            forall|name: Seq<char>| #[trigger]
                texts(names@).contains(name) <==> all.contains_key(name),
            header_values(out).submap_of(all),
            forall|name: Seq<char>|
                #![trigger header_values(out).contains_key(name)]
                all.contains_key(name) && !withheld(direction, name) ==> header_values(
                    out,
                ).contains_key(name),
            forall|j: int|
                0 <= j < i && withheld(direction, names@[j]@) ==> !header_values(
                    out,
                ).contains_key(#[trigger] names@[j]@),
        decreases names@.len() - i,
    {
        let name = names[i].as_str();
        if is_withheld(direction, name) {
            let ghost before = header_values(out);
            proof {
                lemma_withheld_names_are_plain(direction, name@);
            }
            remove_header(&mut out, name);
            assert(header_values(out).submap_of(before));
        }
        i += 1;
    }
    proof {
        let kept = header_values(out);
        let want = crossing_fields(direction, all);
        assert forall|name: Seq<char>| #[trigger]
            kept.contains_key(name) <==> want.contains_key(name) by {
            if kept.contains_key(name) {
                assert(texts(names@).contains(name));
                let j = choose|j: int| 0 <= j < texts(names@).len() && texts(names@)[j] == name;
                assert(names@[j]@ == name);
            }
        }
        assert(kept =~= want);
    }
    out
}

/// The fields of a request that are sent to the upstream.
pub fn filter_upstream_request_headers(headers: &HeaderMap<HeaderValue>) -> (r: HeaderMap<
    HeaderValue,
>)
    ensures
        header_values(r) == crossing_fields(Direction::Request, header_values(*headers)),
{
    copy_crossing_fields(headers, Direction::Request)
}

/// The fields of an upstream response that are handed back.
pub fn copy_upstream_response_headers(from: &HeaderMap<HeaderValue>) -> (r: HeaderMap<HeaderValue>)
    ensures
        header_values(r) == crossing_fields(Direction::Response, header_values(*from)),
{
    copy_crossing_fields(from, Direction::Response)
}

/// Whether text can be a header value.
pub fn is_header_value(text: &str) -> (r: bool)
    ensures
        r == value_bytes(encode_utf8(text@)),
{
    let bytes = text.as_bytes();
    let mut i: usize = 0;
    while i < bytes.len()
        invariant
            i <= bytes@.len(),
            bytes@ == encode_utf8(text@),
            forall|j: int| 0 <= j < i ==> value_byte(#[trigger] bytes@[j]),
        decreases bytes@.len() - i,
    {
        let b = bytes[i];
        if !((b >= 32 && b != 127) || b == 9) {
            assert(!value_byte(bytes@[i as int]));
            return false;
        }
        i += 1;
    }
    true
}

/// The fields of a response: those that the upstream sent, and the selected
/// model where it is announced and can be a header value.
pub open spec fn response_fields(
    upstream: Map<Seq<char>, Seq<Seq<u8>>>,
    selected: Option<Seq<char>>,
) -> Map<Seq<char>, Seq<Seq<u8>>> {
    let crossing = crossing_fields(Direction::Response, upstream);
    match selected {
        Some(model) if value_bytes(encode_utf8(model)) => crossing.insert(
            "x-chutes-autopilot-selected"@,
            seq![encode_utf8(model)],
        ),
        _ => crossing,
    }
}

/// The fields of the response to a client. It fails where the header map cannot
/// take the name of the selected model, which needs thousands of names.
pub fn streaming_response_headers(
    upstream: &HeaderMap<HeaderValue>,
    selected_model: Option<&str>,
) -> (r: Result<HeaderMap<HeaderValue>, MaxSizeReached>)
    ensures
        r matches Ok(map) ==> header_values(map) == response_fields(
            header_values(*upstream),
            (match selected_model {
                Some(model) => Some(model@),
                None => None,
            }),
        ),
        r is Err ==> selected_model is Some && value_bytes(encode_utf8(selected_model->0@))
            && !has_room(crossing_fields(Direction::Response, header_values(*upstream))),
{
    let mut out = copy_upstream_response_headers(upstream);
    if let Some(model) = selected_model {
        if is_header_value(model) {
            proof {
                reveal_strlit("x-chutes-autopilot-selected");
            }
            match put_header(&mut out, "x-chutes-autopilot-selected", model.as_bytes()) {
                Ok(_) => {},
                Err(e) => {
                    return Err(e);
                },
            }
        }
    }
    Ok(out)
}

pub open spec fn visible_byte(b: u8) -> bool {
    32 <= b < 127 || b == 9
}

/// The text of a header value: defined where every byte is visible ASCII or a tab.
pub open spec fn value_text(bytes: Seq<u8>) -> Option<Seq<char>> {
    if forall|i: int| 0 <= i < bytes.len() ==> visible_byte(#[trigger] bytes[i]) {
        Some(Seq::new(bytes.len(), |i: int| bytes[i] as char))
    } else {
        None
    }
}

/// The text of the first value of a name.
pub open spec fn field_text(
    values: Map<Seq<char>, Seq<Seq<u8>>>,
    name: Seq<char>,
) -> Option<Seq<char>> {
    if values.contains_key(name) {
        value_text(values[name][0])
    } else {
        None
    }
}

/// The text of the first value of a name, where it has one that is text.
pub(crate) fn header_text(headers: &HeaderMap<HeaderValue>, name: &str) -> (r: Option<String>)
    requires
        plain_name(name@),
    ensures
        opt_text(r) == field_text(header_values(*headers), name@),
{
    let bytes = match first_value(headers, name) {
        Some(bytes) => bytes,
        None => {
            return None;
        },
    };
    let mut out = String::new();
    let mut i: usize = 0;
    while i < bytes.len()
        invariant
            i <= bytes@.len(),
            header_values(*headers).contains_key(name@),
            bytes@ == header_values(*headers)[name@][0],
            forall|j: int| 0 <= j < i ==> visible_byte(#[trigger] bytes@[j]),
            out@ == Seq::new(i as nat, |j: int| bytes@[j] as char),
        decreases bytes@.len() - i,
    {
        let b = bytes[i];
        if !((32 <= b && b < 127) || b == 9) {
            assert(!visible_byte(bytes@[i as int]));
            return None;
        }
        out.push(b as char);
        i += 1;
    }
    Some(out)
}

/// A field that concerns one connection only never crosses the gateway; nor do the
/// host and the length of a request. Every other field crosses with all of its
/// values, in their order.
pub proof fn fields_cross_unless_withheld(
    direction: Direction,
    values: Map<Seq<char>, Seq<Seq<u8>>>,
    name: Seq<char>,
)
    ensures
        hop_by_hop(name) ==> !crossing_fields(direction, values).contains_key(name),
        !withheld(direction, name) ==> (crossing_fields(direction, values).contains_key(name)
            <==> values.contains_key(name)),
        crossing_fields(direction, values).contains_key(name) ==> crossing_fields(
            direction,
            values,
        )[name] == values[name],
{
}

/// Fields that crossed the gateway once cross it unchanged.
pub proof fn crossing_twice_changes_nothing(
    direction: Direction,
    values: Map<Seq<char>, Seq<Seq<u8>>>,
)
    ensures
        crossing_fields(direction, crossing_fields(direction, values)) == crossing_fields(
            direction,
            values,
        ),
{
    assert(crossing_fields(direction, crossing_fields(direction, values)) =~= crossing_fields(
        direction,
        values,
    ));
}

/// A response names the selected model where that is announced and can be a
/// header value, and is otherwise what the upstream sent.
pub proof fn only_the_selected_model_is_added(
    upstream: Map<Seq<char>, Seq<Seq<u8>>>,
    selected: Option<Seq<char>>,
    name: Seq<char>,
)
    ensures
        selected matches Some(model) ==> value_bytes(encode_utf8(model)) ==> response_fields(
            upstream,
            selected,
        )["x-chutes-autopilot-selected"@] == seq![encode_utf8(model)],
        name != "x-chutes-autopilot-selected"@ ==> (response_fields(upstream, selected).contains_key(
            name,
        ) <==> upstream.contains_key(name) && !hop_by_hop(name)),
        name != "x-chutes-autopilot-selected"@ && response_fields(upstream, selected).contains_key(
            name,
        ) ==> response_fields(upstream, selected)[name] == upstream[name],
        response_fields(upstream, None) == crossing_fields(Direction::Response, upstream),
{
}

/// Of a request, every field crosses with all of its values, unless its name is one
/// of the eight that concern one connection only, the host or the content length.
pub proof fn request_fields_cross_by_name(values: Map<Seq<char>, Seq<Seq<u8>>>, name: Seq<char>)
    ensures
        crossing_fields(Direction::Request, values).contains_key(name) <==> values.contains_key(
            name,
        ) && name != "connection"@ && name != "keep-alive"@ && name != "proxy-authenticate"@ && name
            != "proxy-authorization"@ && name != "te"@ && name != "trailer"@ && name
            != "transfer-encoding"@ && name != "upgrade"@ && name != "host"@ && name
            != "content-length"@,
        crossing_fields(Direction::Request, values).contains_key(name) ==> crossing_fields(
            Direction::Request,
            values,
        )[name] == values[name],
{
}

/// Of a response, every field crosses with all of its values, unless its name is one
/// of the eight that concern one connection only.
pub proof fn response_fields_cross_by_name(values: Map<Seq<char>, Seq<Seq<u8>>>, name: Seq<char>)
    ensures
        crossing_fields(Direction::Response, values).contains_key(name) <==> values.contains_key(
            name,
        ) && name != "connection"@ && name != "keep-alive"@ && name != "proxy-authenticate"@ && name
            != "proxy-authorization"@ && name != "te"@ && name != "trailer"@ && name
            != "transfer-encoding"@ && name != "upgrade"@,
        crossing_fields(Direction::Response, values).contains_key(name) ==> crossing_fields(
            Direction::Response,
            values,
        )[name] == values[name],
        hop_by_hop(name) <==> name == "connection"@ || name == "keep-alive"@ || name
            == "proxy-authenticate"@ || name == "proxy-authorization"@ || name == "te"@ || name
            == "trailer"@ || name == "transfer-encoding"@ || name == "upgrade"@,
{
}

/// The selected model is announced under its whole name, as the only value, if and
/// only if no byte of the name is a control character other than a tab. Every other
/// field of the response is one that the upstream sent.
pub proof fn selected_models_are_announced_in_full(
    upstream: Map<Seq<char>, Seq<Seq<u8>>>,
    model: Seq<char>,
    name: Seq<char>,
)
    ensures
        ({
            let fields = response_fields(upstream, Some(model));
            let bytes = encode_utf8(model);
            let fit = forall|i: int|
                0 <= i < bytes.len() ==> (#[trigger] bytes[i] >= 32 && bytes[i] != 127) || bytes[i]
                    == 9;
            &&& fit ==> fields.contains_key("x-chutes-autopilot-selected"@)
                && fields["x-chutes-autopilot-selected"@] == seq![bytes]
            &&& !fit ==> fields == crossing_fields(Direction::Response, upstream)
            &&& name != "x-chutes-autopilot-selected"@ ==> (fields.contains_key(name)
                <==> crossing_fields(Direction::Response, upstream).contains_key(name))
            &&& name != "x-chutes-autopilot-selected"@ && fields.contains_key(name) ==> fields[name]
                == upstream[name]
        }),
{
    let bytes = encode_utf8(model);
    assert(value_bytes(bytes) <==> forall|i: int|
        0 <= i < bytes.len() ==> (#[trigger] bytes[i] >= 32 && bytes[i] != 127) || bytes[i] == 9);
}

/// The text of a field is that of its first value, byte for byte. A field has no
/// text if it is not there, or if its first value holds a byte that is neither
/// visible ASCII, a space nor a tab.
pub proof fn fields_are_read_byte_for_byte(
    values: Map<Seq<char>, Seq<Seq<u8>>>,
    name: Seq<char>,
    i: int,
)
    ensures
        !values.contains_key(name) ==> field_text(values, name) is None,
        values.contains_key(name) ==> (field_text(values, name) is Some <==> forall|j: int|
            0 <= j < values[name][0].len() ==> 32 <= #[trigger] values[name][0][j] <= 126
                || values[name][0][j] == 9),
        field_text(values, name) matches Some(text) ==> text.len() == values[name][0].len() && (0
            <= i < text.len() ==> text[i] as int == values[name][0][i] as int),
{
    if values.contains_key(name) {
        let bytes = values[name][0];
        assert((forall|j: int| 0 <= j < bytes.len() ==> visible_byte(#[trigger] bytes[j])) <==> (
        forall|j: int|
            0 <= j < bytes.len() ==> 32 <= #[trigger] bytes[j] <= 126 || bytes[j] == 9));
        if field_text(values, name) is Some && 0 <= i < bytes.len() {
            assert(visible_byte(bytes[i]));
        }
    }
}

} // verus!
