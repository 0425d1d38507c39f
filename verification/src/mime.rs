//! Reading a Gmail message: its headers and its body.

use vstd::prelude::*;
use vstd::utf8::*;

use crate::html;
use crate::html::strip_html;
use crate::json::Json;
use crate::text;
use crate::text::{chars_of, same_text, text_of};

verus! {

/// The value of the first header called `name`. A header without a name ends
/// the search.
pub open spec fn value_among(headers: Seq<Json>, name: Seq<char>) -> Option<Seq<char>>
    decreases headers.len(),
{
    if headers.len() == 0 {
        None
    } else {
        match headers[0].member_text("name"@) {
            None => None,
            Some(found) => if found == name {
                headers[0].member_text("value"@)
            } else {
                value_among(headers.skip(1), name)
            },
        }
    }
}

/// The value of the message's first header called `name`.
pub open spec fn header(msg: Json, name: Seq<char>) -> Option<Seq<char>> {
    match msg.member("payload"@) {
        None => None,
        Some(payload) => match payload.member_list("headers"@) {
            None => None,
            Some(headers) => value_among(headers, name),
        },
    }
}

/// The value of the message's first header called `name`.
pub fn header_value(msg: &Json, name: &str) -> (value: Option<String>)
    ensures
        match value {
            Some(s) => header(*msg, name@) == Some(s@),
            None => header(*msg, name@) is None,
        },
{
    let payload = match msg.get("payload") {
        Some(payload) => payload,
        None => return None,
    };
    let headers = match payload.get_list("headers") {
        Some(headers) => headers,
        None => return None,
    };
    assert(headers@.skip(0) =~= headers@);
    let mut i: usize = 0;
    while i < headers.len()
        invariant
            i <= headers@.len(),
            header(*msg, name@) == value_among(headers@.skip(i as int), name@),
        decreases headers@.len() - i,
    {
        let one = &headers[i];
        assert(headers@.skip(i as int)[0] == *one);
        assert(headers@.skip(i as int).skip(1) =~= headers@.skip(i + 1));
        match one.get_text("name") {
            None => return None,
            Some(found) => {
                if same_text(found.as_str(), name) {
                    return match one.get_text("value") {
                        Some(value) => Some(value.clone()),
                        None => None,
                    };
                }
            },
        }
        i += 1;
    }
    None
}

/// The encoded data of a part.
pub open spec fn part_data(part: Json) -> Option<Seq<char>> {
    match part.member("body"@) {
        Some(body) => body.member_text("data"@),
        None => None,
    }
}

/// Whether a part is of the media type `want` and has data.
pub open spec fn has_body(part: Json, want: Seq<char>) -> bool {
    &&& match part.member_text("mimeType"@) {
        Some(mime) => mime == want,
        None => want.len() == 0,
    }
    &&& part_data(part) is Some
}

/// The data of every part of media type `want`, in document order. A part that
/// has data of that type is not searched further.
pub open spec fn bodies(part: Json, want: Seq<char>) -> Seq<Seq<char>>
    decreases part,
{
    if has_body(part, want) {
        seq![part_data(part)->0]
    } else {
        match part.member_list("parts"@) {
            Some(parts) => {
                proof {
                    lemma_list_is_smaller(part, "parts"@);
                }
                bodies_among(parts, want)
            },
            None => seq![],
        }
    }
}

/// The data of every part of media type `want` among `parts`.
pub open spec fn bodies_among(parts: Seq<Json>, want: Seq<char>) -> Seq<Seq<char>>
    decreases parts,
{
    if parts.len() == 0 {
        seq![]
    } else {
        bodies(parts[0], want) + bodies_among(parts.skip(1), want)
    }
}

/// A list held by an object is structurally smaller than the object.
pub proof fn lemma_list_is_smaller(part: Json, key: Seq<char>)
    requires
        part.member_list(key) is Some,
    ensures
        decreases_to!(part => part.member_list(key)->0),
{
    match part {
        Json::Object(entries) => {
            let at = crate::json::position(entries@, key) as int;
            assert(decreases_to!(part => entries));
            assert(decreases_to!(entries => entries@));
            assert(decreases_to!(entries@ => entries@[at]));
            assert(decreases_to!(entries@[at] => entries@[at].1));
            match entries@[at].1 {
                Json::List(items) => {
                    assert(decreases_to!(entries@[at].1 => items));
                    assert(decreases_to!(items => items@));
                },
                _ => {},
            }
        },
        _ => {},
    }
}

fn collect_bodies(part: &Json, want: &str, out: &mut Vec<String>)
    ensures
        text::texts(final(out)@) == text::texts(old(out)@) + bodies(*part, want@),
    decreases part,
{
    let of_type = match part.get_text("mimeType") {
        Some(mime) => same_text(mime.as_str(), want),
        None => want.is_empty(),
    };
    if of_type {
        if let Some(body) = part.get("body") {
            if let Some(data) = body.get_text("data") {
                out.push(data.clone());
                assert(text::texts(out@) =~= text::texts(old(out)@).push(data@));
                assert(text::texts(old(out)@) + seq![data@] =~= text::texts(old(out)@).push(data@));
                return ;
            }
        }
    }
    assert(!has_body(*part, want@));
    if let Some(parts) = part.get_list("parts") {
        proof {
            lemma_list_is_smaller(*part, "parts"@);
            assert(parts@.skip(0) =~= parts@);
        }
        let mut i: usize = 0;
        while i < parts.len()
            invariant
                i <= parts@.len(),
                decreases_to!(part => parts@),
                text::texts(old(out)@) + bodies_among(parts@, want@) =~= text::texts(out@)
                    + bodies_among(parts@.skip(i as int), want@),
            decreases parts@.len() - i,
        {
            assert(decreases_to!(parts@ => parts@[i as int]));
            collect_bodies(&parts[i], want, out);
            assert(parts@.skip(i as int).skip(1) =~= parts@.skip(i + 1));
            i += 1;
        }
    }
}

/// The data of every part of media type `want`, in document order.
pub fn body_data(part: &Json, want: &str) -> (data: Vec<String>)
    ensures
        text::texts(data@) == bodies(*part, want@),
{
    let mut data: Vec<String> = Vec::new();
    collect_bodies(part, want, &mut data);
    assert(text::texts(data@) =~= bodies(*part, want@));
    data
}

/// `s` without the `=` that it ends with.
pub open spec fn unpadded(s: Seq<char>) -> Seq<char>
    decreases s.len(),
{
    if s.len() > 0 && s.last() == '=' {
        unpadded(s.drop_last())
    } else {
        s
    }
}

fn strip_padding(s: &str) -> (kept: String)
    ensures
        kept@ == unpadded(s@),
{
    let chars = chars_of(s);
    let mut end: usize = chars.len();
    assert(s@.take(end as int) =~= s@);
    while end > 0 && chars[end - 1] == '='
        invariant
            chars@ == s@,
            end <= s@.len(),
            unpadded(s@) == unpadded(s@.take(end as int)),
        decreases end,
    {
        assert(s@.take(end as int).drop_last() =~= s@.take(end - 1));
        end -= 1;
    }
    assert(s@.take(end as int) =~= s@.subrange(0, end as int));
    text_of(&chars, 0, end)
}

/// The bytes that a text stands for in the URL-safe base64 alphabet without
/// padding; nothing if it is not such a text. Names what `decode` of the
/// `base64` engine `URL_SAFE_NO_PAD` returns.
pub uninterp spec fn base64_bytes(s: Seq<char>) -> Option<Seq<u8>>;

/// Calls `base64::Engine::decode` with the engine `URL_SAFE_NO_PAD`. The result
/// is `base64_bytes` of the text; what a given text decodes to is not stated.
#[verifier::external_body]
fn decode_base64(s: &str) -> (bytes: Option<Vec<u8>>)
    ensures
        match bytes {
            Some(b) => base64_bytes(s@) == Some(b@),
            None => base64_bytes(s@) is None,
        },
{
    base64::Engine::decode(&base64::engine::general_purpose::URL_SAFE_NO_PAD, s).ok()
}

/// The text that bytes hold when whatever is not UTF-8 in them is replaced.
/// Names what `String::from_utf8_lossy` returns.
pub uninterp spec fn lossy_text(bytes: Seq<u8>) -> Seq<char>;

/// Calls `String::from_utf8_lossy`. The result is `lossy_text` of the bytes;
/// of valid UTF-8 that is the text it encodes. How invalid bytes are replaced
/// is not stated.
#[verifier::external_body]
fn utf8_lossy(bytes: &[u8]) -> (s: String)
    ensures
        s@ == lossy_text(bytes@),
        valid_utf8(bytes@) ==> s@ == decode_utf8(bytes@),
{
    String::from_utf8_lossy(bytes).into_owned()
}

/// The text of a part's data: base64 with or without padding, then UTF-8.
pub open spec fn data_text(data: Seq<char>) -> Option<Seq<char>> {
    match base64_bytes(unpadded(data)) {
        Some(bytes) => Some(lossy_text(bytes)),
        None => None,
    }
}

/// The text of decoded data, if it could be decoded.
pub fn bytes_text(bytes: Option<Vec<u8>>) -> (s: Option<String>)
    ensures
        match bytes {
            Some(b) => s matches Some(t) && t@ == lossy_text(b@) && (valid_utf8(b@) ==> t@
                == decode_utf8(b@)),
            None => s is None,
        },
{
    match bytes {
        Some(b) => Some(utf8_lossy(b.as_slice())),
        None => None,
    }
}

/// The text of a part's data.
pub fn decode_b64url(s: &str) -> (decoded: Option<String>)
    ensures
        match decoded {
            Some(t) => data_text(s@) == Some(t@),
            None => data_text(s@) is None,
        },
{
    let kept = strip_padding(s);
    bytes_text(decode_base64(kept.as_str()))
}

/// The first text that is there.
pub open spec fn first_of(found: Seq<Option<Seq<char>>>) -> Option<Seq<char>>
    decreases found.len(),
{
    if found.len() == 0 {
        None
    } else if found[0] is Some {
        found[0]
    } else {
        first_of(found.skip(1))
    }
}

/// The first text that is there.
pub fn first_found(found: &Vec<Option<String>>) -> (first: Option<String>)
    ensures
        text::optional(first) == first_of(text::optional_texts(found@)),
{
    let ghost all = text::optional_texts(found@);
    assert(all.skip(0) =~= all);
    let mut i: usize = 0;
    while i < found.len()
        invariant
            i <= found@.len(),
            all == text::optional_texts(found@),
            first_of(all) == first_of(all.skip(i as int)),
        decreases found@.len() - i,
    {
        assert(all.skip(i as int)[0] == text::optional(found@[i as int]));
        if let Some(t) = &found[i] {
            return Some(t.clone());
        }
        assert(all.skip(i as int).skip(1) =~= all.skip(i + 1));
        i += 1;
    }
    None
}

/// The texts of data, each where it could be decoded.
pub open spec fn data_texts(data: Seq<Seq<char>>) -> Seq<Option<Seq<char>>> {
    data.map_values(|d: Seq<char>| data_text(d))
}

/// The text of the first part of media type `want` whose data can be decoded.
pub fn find_body(part: &Json, want: &str) -> (found: Option<String>)
    ensures
        text::optional(found) == first_of(data_texts(bodies(*part, want@))),
{
    let data = body_data(part, want);
    let mut decoded: Vec<Option<String>> = Vec::new();
    let mut i: usize = 0;
    while i < data.len()
        invariant
            i <= data@.len(),
            text::optional_texts(decoded@) =~= data_texts(text::texts(data@)).take(i as int),
        decreases data@.len() - i,
    {
        let one = decode_b64url(data[i].as_str());
        assert(text::optional(one) == data_text(text::texts(data@)[i as int]));
        let ghost sofar = decoded@;
        decoded.push(one);
        assert(text::optional_texts(decoded@) =~= text::optional_texts(sofar).push(
            text::optional(one),
        ));
        i += 1;
    }
    assert(text::optional_texts(decoded@) =~= data_texts(bodies(*part, want@)));
    first_found(&decoded)
}

/// The body that is used: the plain text, else the HTML without its tags, else
/// nothing.
pub open spec fn preferred_body(plain: Option<Seq<char>>, markup: Option<Seq<char>>) -> Seq<char> {
    match (plain, markup) {
        (Some(t), _) => t,
        (None, Some(h)) => html::stripped(h),
        (None, None) => seq![],
    }
}

/// The body that is used, given what was found of either media type.
pub fn choose_body(plain: Option<String>, markup: Option<String>) -> (body: String)
    ensures
        body@ == preferred_body(text::optional(plain), text::optional(markup)),
{
    match plain {
        Some(t) => t,
        None => match markup {
            Some(h) => strip_html(h.as_str()),
            None => String::new(),
        },
    }
}

/// The body of a message.
pub open spec fn message_body(msg: Json) -> Seq<char> {
    match msg.member("payload"@) {
        None => seq![],
        Some(payload) => preferred_body(
            first_of(data_texts(bodies(payload, "text/plain"@))),
            first_of(data_texts(bodies(payload, "text/html"@))),
        ),
    }
}

/// The body of a message.
pub fn extract_body(msg: &Json) -> (body: String)
    ensures
        body@ == message_body(*msg),
{
    match msg.get("payload") {
        None => String::new(),
        Some(payload) => choose_body(
            find_body(payload, "text/plain"),
            find_body(payload, "text/html"),
        ),
    }
}

proof fn lemma_value_among(headers: Seq<Json>, name: Seq<char>, at: int)
    requires
        0 <= at <= headers.len(),
        forall|k: int|
            0 <= k < at ==> (#[trigger] headers[k]).member_text("name"@) is Some
                && headers[k].member_text("name"@) != Some(name),
    ensures
        value_among(headers, name) == value_among(headers.skip(at), name),
    decreases headers.len(),
{
    if at > 0 {
        let rest = headers.skip(1);
        assert(headers[0].member_text("name"@) != Some(name));
        assert forall|k: int| 0 <= k < at - 1 implies (#[trigger] rest[k]).member_text("name"@)
            is Some && rest[k].member_text("name"@) != Some(name) by {
            assert(rest[k] == headers[k + 1]);
        }
        lemma_value_among(rest, name, at - 1);
        assert(rest.skip(at - 1) =~= headers.skip(at));
    } else {
        assert(headers.skip(0) =~= headers);
    }
}

/// A header's value is that of the first header with exactly that name, however
/// many others come before it.
pub proof fn lemma_first_header_counts(
    msg: Json,
    payload: Json,
    headers: Seq<Json>,
    name: Seq<char>,
    at: int,
)
    requires
        msg.member("payload"@) == Some(payload),
        payload.member_list("headers"@) == Some(headers),
        0 <= at < headers.len(),
        forall|k: int|
            0 <= k < at ==> (#[trigger] headers[k]).member_text("name"@) is Some
                && headers[k].member_text("name"@) != Some(name),
        headers[at].member_text("name"@) == Some(name),
    ensures
        header(msg, name) == headers[at].member_text("value"@),
{
    lemma_value_among(headers, name, at);
    assert(headers.skip(at)[0] == headers[at]);
}

/// There is no value where no header has the name, or where one without a name
/// comes first.
pub proof fn lemma_missing_header_has_no_value(
    msg: Json,
    payload: Json,
    headers: Seq<Json>,
    name: Seq<char>,
    at: int,
)
    requires
        msg.member("payload"@) == Some(payload),
        payload.member_list("headers"@) == Some(headers),
        0 <= at <= headers.len(),
        forall|k: int|
            0 <= k < at ==> (#[trigger] headers[k]).member_text("name"@) is Some
                && headers[k].member_text("name"@) != Some(name),
        at < headers.len() ==> headers[at].member_text("name"@) is None,
    ensures
        header(msg, name) is None,
{
    lemma_value_among(headers, name, at);
    if at < headers.len() {
        assert(headers.skip(at)[0] == headers[at]);
    }
}

/// A message without a payload, or without a list of headers, has no headers.
pub proof fn lemma_no_headers(msg: Json, name: Seq<char>)
    requires
        msg.member("payload"@) matches Some(payload) ==> payload.member_list("headers"@) is None,
    ensures
        header(msg, name) is None,
{
}

proof fn lemma_bodies_among(parts: Seq<Json>, want: Seq<char>)
    ensures
        bodies_among(parts, want) == parts.map_values(|p: Json| bodies(p, want)).flatten(),
    decreases parts.len(),
{
    let each = parts.map_values(|p: Json| bodies(p, want));
    if parts.len() > 0 {
        let rest = parts.skip(1);
        lemma_bodies_among(rest, want);
        assert(each.drop_first() =~= rest.map_values(|p: Json| bodies(p, want)));
        assert(each.first() == bodies(parts[0], want));
        assert(bodies_among(parts, want) =~= each.flatten());
    } else {
        assert(bodies_among(parts, want) =~= each.flatten());
    }
}

/// A part of the wanted media type that has data is found by that data alone.
pub proof fn lemma_own_data_is_found(part: Json, body: Json, data: Seq<char>, want: Seq<char>)
    requires
        part.member_text("mimeType"@) == Some(want),
        part.member("body"@) == Some(body),
        body.member_text("data"@) == Some(data),
    ensures
        bodies(part, want) == seq![data],
{
}

/// In a part of another media type, or without data, what is found is what is
/// found in each of its parts, one after the other, down to every depth and
/// whatever the media type.
pub proof fn lemma_every_part_is_searched(part: Json, parts: Seq<Json>, want: Seq<char>)
    requires
        part.member_list("parts"@) == Some(parts),
        want.len() > 0,
        part.member_text("mimeType"@) != Some(want) || !(part.member("body"@) matches Some(body)
            && body.member_text("data"@) is Some),
    ensures
        bodies(part, want) == parts.map_values(|p: Json| bodies(p, want)).flatten(),
{
    assert(!has_body(part, want));
    lemma_list_is_smaller(part, "parts"@);
    lemma_bodies_among(parts, want);
}

/// Nothing is found in a part of another media type, or without data, that has
/// no parts.
pub proof fn lemma_nothing_is_found_in_a_leaf(part: Json, want: Seq<char>)
    requires
        part.member_list("parts"@) is None,
        want.len() > 0,
        part.member_text("mimeType"@) != Some(want) || !(part.member("body"@) matches Some(body)
            && body.member_text("data"@) is Some),
    ensures
        bodies(part, want).len() == 0,
{
    assert(!has_body(part, want));
}

proof fn lemma_first_of_joined(a: Seq<Option<Seq<char>>>, b: Seq<Option<Seq<char>>>)
    ensures
        first_of(a + b) == if first_of(a) is Some {
            first_of(a)
        } else {
            first_of(b)
        },
    decreases a.len(),
{
    if a.len() == 0 {
        assert(a + b =~= b);
    } else {
        assert((a + b)[0] == a[0]);
        assert((a + b).skip(1) =~= a.skip(1) + b);
        lemma_first_of_joined(a.skip(1), b);
    }
}

/// The first text that is there is the one that only missing ones precede.
pub proof fn lemma_first_text_counts(found: Seq<Option<Seq<char>>>, at: int)
    requires
        0 <= at <= found.len(),
        forall|k: int| 0 <= k < at ==> #[trigger] found[k] is None,
        at < found.len() ==> found[at] is Some,
    ensures
        at < found.len() ==> first_of(found) == found[at],
        at == found.len() ==> first_of(found) is None,
    decreases found.len(),
{
    if at > 0 {
        let rest = found.skip(1);
        assert(found[0] is None);
        assert forall|k: int| 0 <= k < at - 1 implies #[trigger] rest[k] is None by {
            assert(rest[k] == found[k + 1]);
        }
        lemma_first_text_counts(rest, at - 1);
    }
}

/// The text that a search finds in a part: what its first decodable data of the
/// media type says.
pub open spec fn found_text(part: Json, want: Seq<char>) -> Option<Seq<char>> {
    first_of(data_texts(bodies(part, want)))
}

proof fn lemma_found_among(parts: Seq<Json>, want: Seq<char>, at: int)
    requires
        0 <= at <= parts.len(),
        forall|k: int| 0 <= k < at ==> found_text(#[trigger] parts[k], want) is None,
        at < parts.len() ==> found_text(parts[at], want) is Some,
    ensures
        at < parts.len() ==> first_of(data_texts(bodies_among(parts, want))) == found_text(
            parts[at],
            want,
        ),
        at == parts.len() ==> first_of(data_texts(bodies_among(parts, want))) is None,
    decreases parts.len(),
{
    if parts.len() > 0 {
        let rest = parts.skip(1);
        let here = data_texts(bodies(parts[0], want));
        let there = data_texts(bodies_among(rest, want));
        assert(data_texts(bodies_among(parts, want)) =~= here + there);
        lemma_first_of_joined(here, there);
        if at > 0 {
            assert(found_text(parts[0], want) is None);
            assert forall|k: int| 0 <= k < at - 1 implies found_text(
                #[trigger] rest[k],
                want,
            ) is None by {
                assert(rest[k] == parts[k + 1]);
            }
            if at < parts.len() {
                assert(rest[at - 1] == parts[at]);
            }
            lemma_found_among(rest, want, at - 1);
        }
    }
}

/// What is found below a part that has no data of its own is what is found in the
/// first of its parts in which anything is: if any of them has something, at
/// whatever depth, so has the part.
pub proof fn lemma_search_goes_down(part: Json, parts: Seq<Json>, want: Seq<char>, at: int)
    requires
        part.member_list("parts"@) == Some(parts),
        want.len() > 0,
        part.member_text("mimeType"@) != Some(want) || !(part.member("body"@) matches Some(body)
            && body.member_text("data"@) is Some),
        0 <= at < parts.len(),
        forall|k: int| 0 <= k < at ==> found_text(#[trigger] parts[k], want) is None,
        found_text(parts[at], want) is Some,
    ensures
        found_text(part, want) == found_text(parts[at], want),
{
    assert(!has_body(part, want));
    lemma_list_is_smaller(part, "parts"@);
    lemma_found_among(parts, want, at);
}

/// A part of the media type is read by decoding its own data, and if that cannot
/// be decoded nothing is found in it.
pub proof fn lemma_own_data_is_read(part: Json, body: Json, data: Seq<char>, want: Seq<char>)
    requires
        part.member_text("mimeType"@) == Some(want),
        part.member("body"@) == Some(body),
        body.member_text("data"@) == Some(data),
    ensures
        found_text(part, want) == data_text(data),
{
    let all = data_texts(bodies(part, want));
    assert(bodies(part, want) =~= seq![data]);
    assert(all.len() == 1 && all[0] == data_text(data));
    assert(all.skip(1) =~= Seq::<Option<Seq<char>>>::empty());
    assert(first_of(all.skip(1)) is None);
}

/// What is left of a text without its padding is what stands before the `=` that
/// it ends with, however many there are.
pub proof fn lemma_unpadded(data: Seq<char>, padding: Seq<char>)
    requires
        forall|k: int| 0 <= k < padding.len() ==> #[trigger] padding[k] == '=',
        data.len() > 0 ==> data.last() != '=',
    ensures
        unpadded(data + padding) == data,
    decreases padding.len(),
{
    let s = data + padding;
    if padding.len() > 0 {
        assert(s.last() == padding[padding.len() - 1]);
        assert(s.drop_last() =~= data + padding.drop_last());
        lemma_unpadded(data, padding.drop_last());
    } else {
        assert(s =~= data);
    }
}

/// Padding is of no consequence: data says the same with any number of `=` after
/// it as without them.
pub proof fn lemma_padding_is_ignored(data: Seq<char>, padding: Seq<char>)
    requires
        forall|k: int| 0 <= k < padding.len() ==> #[trigger] padding[k] == '=',
        data.len() > 0 ==> data.last() != '=',
    ensures
        data_text(data + padding) == data_text(data),
        data_text(data) == match base64_bytes(data) {
            Some(bytes) => Some(lossy_text(bytes)),
            None => None,
        },
{
    lemma_unpadded(data, padding);
    lemma_unpadded(data, Seq::empty());
    assert(data + Seq::<char>::empty() =~= data);
}

/// The plain text of a message is its body, whatever HTML it has; without plain
/// text the HTML is, without its tags; without either there is none.
pub proof fn lemma_plain_text_is_preferred(msg: Json, payload: Json)
    requires
        msg.member("payload"@) == Some(payload),
    ensures
        match found_text(payload, "text/plain"@) {
            Some(t) => message_body(msg) == t,
            None => match found_text(payload, "text/html"@) {
                Some(h) => message_body(msg) == html::stripped(h),
                None => message_body(msg).len() == 0,
            },
        },
{
}

/// A message without a payload has no body.
pub proof fn lemma_no_payload_no_body(msg: Json)
    requires
        msg.member("payload"@) is None,
    ensures
        message_body(msg).len() == 0,
{
}

} // verus!
