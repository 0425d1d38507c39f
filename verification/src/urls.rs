//! The addresses of the Gmail API and the escaping of queries.

use vstd::prelude::*;
use vstd::string::*;
use vstd::utf8::*;

use crate::text;
use crate::text::{chars_of, decimal_text, trim};

verus! {

/// The characters that stand for themselves in a query string: ASCII letters
/// and digits and `-`, `_`, `.`, `~`.
pub open spec fn unreserved(ch: char) -> bool {
    ||| 'a' <= ch <= 'z'
    ||| 'A' <= ch <= 'Z'
    ||| '0' <= ch <= '9'
    ||| ch == '-'
    ||| ch == '_'
    ||| ch == '.'
    ||| ch == '~'
}

/// The upper-case hexadecimal digit for `n`.
pub open spec fn hex_digit(n: int) -> char {
    if n < 10 {
        (48 + n) as char
    } else {
        (55 + n) as char
    }
}

/// A byte as `%` and two hexadecimal digits.
pub open spec fn escaped(b: u8) -> Seq<char> {
    seq!['%', hex_digit(b as int / 16), hex_digit(b as int % 16)]
}

/// Bytes, each escaped.
pub open spec fn all_escaped(bytes: Seq<u8>) -> Seq<char>
    decreases bytes.len(),
{
    if bytes.len() == 0 {
        seq![]
    } else {
        escaped(bytes[0]) + all_escaped(bytes.skip(1))
    }
}

/// A character of a query: itself, or the escaped bytes of its UTF-8 encoding.
pub open spec fn encoded_char(ch: char) -> Seq<char> {
    if unreserved(ch) {
        seq![ch]
    } else {
        all_escaped(encode_scalar(ch as u32))
    }
}

/// A text, each of its characters encoded for a query string.
pub open spec fn encoded(s: Seq<char>) -> Seq<char>
    decreases s.len(),
{
    if s.len() == 0 {
        seq![]
    } else {
        encoded_char(s[0]) + encoded(s.skip(1))
    }
}

fn is_unreserved(ch: char) -> (safe: bool)
    ensures
        safe == unreserved(ch),
{
    ('a' <= ch && ch <= 'z') || ('A' <= ch && ch <= 'Z') || ('0' <= ch && ch <= '9') || ch == '-'
        || ch == '_' || ch == '.' || ch == '~'
}

fn hex_char(n: u8) -> (ch: char)
    requires
        n < 16,
    ensures
        ch == hex_digit(n as int),
{
    if n < 10 {
        (48 + n) as char
    } else {
        (55 + n) as char
    }
}

fn push_escaped(out: &mut String, ch: char)
    ensures
        final(out)@ == old(out)@ + all_escaped(encode_scalar(ch as u32)),
{
    let mut one = String::new();
    one.push(ch);
    let bytes = one.as_str().as_bytes();
    proof {
        assert(one@ =~= seq![ch]);
        assert(one@.drop_first() =~= Seq::<char>::empty());
        reveal_with_fuel(encode_utf8, 2);
        assert(bytes@ =~= encode_scalar(ch as u32));
        assert(bytes@.skip(0) =~= bytes@);
    }
    let mut i: usize = 0;
    while i < bytes.len()
        invariant
            i <= bytes@.len(),
            old(out)@ + all_escaped(bytes@) =~= out@ + all_escaped(bytes@.skip(i as int)),
        decreases bytes@.len() - i,
    {
        let b: u8 = bytes[i];
        out.push('%');
        out.push(hex_char(b / 16));
        out.push(hex_char(b % 16));
        assert(bytes@.skip(i as int).skip(1) =~= bytes@.skip(i + 1));
        i += 1;
    }
}

/// The text encoded for a query string.
pub fn urlencode(s: &str) -> (out: String)
    ensures
        out@ == encoded(s@),
{
    let chars = chars_of(s);
    let mut out = String::new();
    let mut i: usize = 0;
    assert(s@.skip(0) =~= s@);
    while i < chars.len()
        invariant
            chars@ == s@,
            i <= s@.len(),
            encoded(s@) =~= out@ + encoded(s@.skip(i as int)),
        decreases s@.len() - i,
    {
        let ch = chars[i];
        if is_unreserved(ch) {
            out.push(ch);
        } else {
            push_escaped(&mut out, ch);
        }
        assert(s@.skip(i as int).skip(1) =~= s@.skip(i + 1));
        i += 1;
    }
    out
}

/// What a `%`-encoded text stands for: each escape is the byte of its two
/// digits, any other character the byte of its number.
pub open spec fn decoded(t: Seq<char>) -> Seq<u8>
    decreases t.len(),
{
    if t.len() == 0 {
        seq![]
    } else if t[0] == '%' && t.len() >= 3 {
        seq![(16 * hex_value(t[1]) + hex_value(t[2])) as u8] + decoded(t.skip(3))
    } else {
        seq![t[0] as u8] + decoded(t.skip(1))
    }
}

/// The number that a hexadecimal digit stands for.
pub open spec fn hex_value(ch: char) -> int {
    if ch <= '9' {
        ch as int - 48
    } else {
        ch as int - 55
    }
}

proof fn lemma_escaped_decodes(bytes: Seq<u8>, rest: Seq<char>)
    ensures
        decoded(all_escaped(bytes) + rest) == bytes + decoded(rest),
    decreases bytes.len(),
{
    let t = all_escaped(bytes) + rest;
    if bytes.len() == 0 {
        assert(t =~= rest);
        assert(bytes + decoded(rest) =~= decoded(rest));
    } else {
        let tail = bytes.skip(1);
        lemma_escaped_decodes(tail, rest);
        assert(t.skip(3) =~= all_escaped(tail) + rest);
        assert(t[1] == hex_digit(bytes[0] as int / 16));
        assert(t[2] == hex_digit(bytes[0] as int % 16));
        assert(seq![bytes[0]] + (tail + decoded(rest)) =~= bytes + decoded(rest));
    }
}

/// Decoding an encoded text gives back the bytes of its UTF-8 encoding.
pub proof fn lemma_encoding_is_undone(s: Seq<char>)
    ensures
        decoded(encoded(s)) == encode_utf8(s),
    decreases s.len(),
{
    if s.len() > 0 {
        let ch = s[0];
        let tail = s.skip(1);
        let t = encoded(s);
        lemma_encoding_is_undone(tail);
        assert(s.drop_first() =~= tail);
        if unreserved(ch) {
            let c = ch as u32;
            assert(c & 0x7f == c) by (bit_vector)
                requires
                    c <= 0x7f,
            ;
            assert(t.skip(1) =~= encoded(tail));
            assert(encode_scalar(c) =~= seq![ch as u8]);
        } else {
            lemma_escaped_decodes(encode_scalar(ch as u32), encoded(tail));
        }
    }
}

/// Two texts that are encoded alike are the same.
pub proof fn lemma_encoding_is_injective(a: Seq<char>, b: Seq<char>)
    requires
        encoded(a) == encoded(b),
    ensures
        a == b,
{
    lemma_encoding_is_undone(a);
    lemma_encoding_is_undone(b);
    encode_utf8_decode_utf8(a);
    encode_utf8_decode_utf8(b);
}

/// Whether a text can stand in a query string: unreserved characters and `%`.
pub open spec fn is_query_safe(t: Seq<char>) -> bool {
    forall|k: int| 0 <= k < t.len() ==> unreserved(#[trigger] t[k]) || t[k] == '%'
}

proof fn lemma_escaped_is_safe(bytes: Seq<u8>)
    ensures
        is_query_safe(all_escaped(bytes)),
    decreases bytes.len(),
{
    if bytes.len() > 0 {
        lemma_escaped_is_safe(bytes.skip(1));
        assert(is_query_safe(escaped(bytes[0])));
    }
}

/// An encoded text holds nothing but unreserved characters and `%`.
pub proof fn lemma_encoding_is_safe(s: Seq<char>)
    ensures
        is_query_safe(encoded(s)),
    decreases s.len(),
{
    if s.len() > 0 {
        lemma_encoding_is_safe(s.skip(1));
        lemma_escaped_is_safe(encode_scalar(s[0] as u32));
        assert(is_query_safe(encoded_char(s[0])));
    }
}

/// The query that is searched for: the configured one, and the age bound if
/// one is given that is not blank.
pub open spec fn effective_query(query: Seq<char>, newer_than: Option<Seq<char>>) -> Seq<char> {
    match newer_than {
        Some(bound) => if text::trimmed(bound).len() == 0 {
            query
        } else {
            query + " newer_than:"@ + bound
        },
        None => query,
    }
}

/// The query that is searched for.
pub fn compose_query(query: &String, newer_than: &Option<String>) -> (q: String)
    ensures
        q@ == effective_query(query@, text::optional(*newer_than)),
{
    let mut q = query.clone();
    if let Some(bound) = newer_than {
        let kept = trim(bound.as_str());
        if !kept.as_str().is_empty() {
            q.append(" newer_than:");
            q.append(bound.as_str());
        }
    }
    q
}

/// The address that lists the messages a query finds, at most `limit`.
pub open spec fn list_url(query: Seq<char>, limit: nat) -> Seq<char> {
    "https://gmail.googleapis.com/gmail/v1/users/me/messages?q="@ + encoded(query)
        + "&maxResults="@ + text::decimal(limit)
}

/// The address of a message in full.
pub open spec fn message_url(id: Seq<char>) -> Seq<char> {
    "https://gmail.googleapis.com/gmail/v1/users/me/messages/"@ + id + "?format=full"@
}

/// The address that changes a message's labels.
pub open spec fn modify_url(id: Seq<char>) -> Seq<char> {
    "https://gmail.googleapis.com/gmail/v1/users/me/messages/"@ + id + "/modify"@
}

/// Builds the address of a listing.
pub fn listing_address(query: &str, limit: usize) -> (url: String)
    ensures
        url@ == list_url(query@, limit as nat),
{
    let mut url = "https://gmail.googleapis.com/gmail/v1/users/me/messages?q=".to_owned();
    url.append(urlencode(query).as_str());
    url.append("&maxResults=");
    url.append(decimal_text(limit).as_str());
    url
}

/// Builds the address of a message.
pub fn message_address(id: &str) -> (url: String)
    ensures
        url@ == message_url(id@),
{
    let mut url = "https://gmail.googleapis.com/gmail/v1/users/me/messages/".to_owned();
    url.append(id);
    url.append("?format=full");
    url
}

/// Builds the address that changes a message's labels.
pub fn modify_address(id: &str) -> (url: String)
    ensures
        url@ == modify_url(id@),
{
    let mut url = "https://gmail.googleapis.com/gmail/v1/users/me/messages/".to_owned();
    url.append(id);
    url.append("/modify");
    url
}

/// What is searched for is the configured query, and the age bound after it if
/// there is one with anything but white space in it.
pub proof fn lemma_query_starts_as_configured(query: Seq<char>, bound: Seq<char>)
    ensures
        effective_query(query, None) == query,
        (forall|k: int| 0 <= k < bound.len() ==> text::white_space(#[trigger] bound[k]))
            ==> effective_query(query, Some(bound)) == query,
        forall|k: int|
            0 <= k < bound.len() && !text::white_space(#[trigger] bound[k]) ==> {
                let q = effective_query(query, Some(bound));
                &&& q.take(query.len() as int) == query
                &&& q.skip(query.len() as int) == " newer_than:"@ + bound
            },
{
    text::lemma_blank_text_is_trimmed_away(bound);
    let q = effective_query(query, Some(bound));
    if text::trimmed(bound).len() > 0 {
        assert(q.take(query.len() as int) =~= query);
        assert(q.skip(query.len() as int) =~= " newer_than:"@ + bound);
    }
}

/// Two queries with the same bound are told apart by what is searched for.
pub proof fn lemma_queries_are_told_apart(
    a: Seq<char>,
    b: Seq<char>,
    newer_than: Option<Seq<char>>,
)
    requires
        effective_query(a, newer_than) == effective_query(b, newer_than),
    ensures
        a == b,
{
    let qa = effective_query(a, newer_than);
    let qb = effective_query(b, newer_than);
    if let Some(bound) = newer_than {
        if text::trimmed(bound).len() > 0 {
            let more = " newer_than:"@.len() + bound.len();
            assert(qa.len() == a.len() + more && qb.len() == b.len() + more);
            assert(qa.take(a.len() as int) =~= a);
            assert(qb.take(b.len() as int) =~= b);
        }
    }
}

/// Texts are encoded piece by piece.
pub proof fn lemma_encoding_joins(a: Seq<char>, b: Seq<char>)
    ensures
        encoded(a + b) == encoded(a) + encoded(b),
    decreases a.len(),
{
    if a.len() == 0 {
        assert(a + b =~= b);
        assert(encoded(a) + encoded(b) =~= encoded(b));
    } else {
        assert((a + b).skip(1) =~= a.skip(1) + b);
        assert((a + b)[0] == a[0]);
        lemma_encoding_joins(a.skip(1), b);
        assert(encoded(a + b) =~= encoded(a) + encoded(b));
    }
}

/// ASCII letters, digits and the four marks stand for themselves.
pub proof fn lemma_unreserved_are_kept(ch: char)
    requires
        'a' <= ch <= 'z' || 'A' <= ch <= 'Z' || '0' <= ch <= '9' || ch == '-' || ch == '_' || ch
            == '.' || ch == '~',
    ensures
        encoded(seq![ch]) == seq![ch],
{
    assert(seq![ch].skip(1) =~= Seq::<char>::empty());
    assert(encoded(seq![ch].skip(1)) =~= Seq::<char>::empty());
    assert(encoded(seq![ch]) =~= seq![ch]);
}

/// The capital hexadecimal digit of a number below sixteen.
pub open spec fn capital_digit(n: int) -> char {
    if n < 10 {
        ('0' as int + n) as char
    } else {
        ('A' as int + n - 10) as char
    }
}

proof fn lemma_escaped_at(bytes: Seq<u8>, k: int)
    requires
        0 <= k < bytes.len(),
    ensures
        all_escaped(bytes).len() == 3 * bytes.len(),
        all_escaped(bytes)[3 * k] == '%',
        all_escaped(bytes)[3 * k + 1] == capital_digit(bytes[k] as int / 16),
        all_escaped(bytes)[3 * k + 2] == capital_digit(bytes[k] as int % 16),
    decreases bytes.len(),
{
    let rest = bytes.skip(1);
    if rest.len() == 0 {
        assert(all_escaped(rest) =~= Seq::<char>::empty());
    } else if k > 0 {
        lemma_escaped_at(rest, k - 1);
    } else {
        lemma_escaped_at(rest, 0);
    }
}

/// Every other character is written as its bytes in UTF-8, each as `%` and two
/// capital hexadecimal digits.
pub proof fn lemma_reserved_are_escaped(ch: char)
    requires
        !('a' <= ch <= 'z' || 'A' <= ch <= 'Z' || '0' <= ch <= '9' || ch == '-' || ch == '_' || ch
            == '.' || ch == '~'),
    ensures
        encoded(seq![ch]).len() == 3 * encode_utf8(seq![ch]).len(),
        forall|k: int|
            #![trigger encode_utf8(seq![ch])[k]]
            0 <= k < encode_utf8(seq![ch]).len() ==> {
                let b = encode_utf8(seq![ch])[k] as int;
                &&& encoded(seq![ch])[3 * k] == '%'
                &&& encoded(seq![ch])[3 * k + 1] == capital_digit(b / 16)
                &&& encoded(seq![ch])[3 * k + 2] == capital_digit(b % 16)
            },
{
    let bytes = encode_scalar(ch as u32);
    assert(seq![ch].skip(1) =~= Seq::<char>::empty());
    assert(seq![ch].drop_first() =~= Seq::<char>::empty());
    assert(encoded(seq![ch].skip(1)) =~= Seq::<char>::empty());
    reveal_with_fuel(encode_utf8, 2);
    assert(encode_utf8(seq![ch]) =~= bytes);
    assert(encoded(seq![ch]) =~= all_escaped(bytes));
    if bytes.len() > 0 {
        lemma_escaped_at(bytes, 0);
    }
    assert forall|k: int|
        #![trigger encode_utf8(seq![ch])[k]]
        0 <= k < encode_utf8(seq![ch]).len() implies {
        let b = encode_utf8(seq![ch])[k] as int;
        &&& encoded(seq![ch])[3 * k] == '%'
        &&& encoded(seq![ch])[3 * k + 1] == capital_digit(b / 16)
        &&& encoded(seq![ch])[3 * k + 2] == capital_digit(b % 16)
    } by {
        lemma_escaped_at(bytes, k);
    }
}

/// From the address of a listing the query and the limit can be read back: the
/// query is decoded from what stands between `q=` and the first `&`, the limit
/// is the number after `maxResults=`.
pub proof fn lemma_listing_is_read_back(query: Seq<char>, limit: nat) -> (parts: (
    Seq<char>,
    Seq<char>,
))
    ensures
        list_url(query, limit) == "https://gmail.googleapis.com/gmail/v1/users/me/messages?q="@
            + parts.0 + "&maxResults="@ + parts.1,
        !parts.0.contains('&'),
        decoded(parts.0) == encode_utf8(query),
        text::decimal_value(parts.1) == limit,
{
    let e = encoded(query);
    lemma_encoding_is_safe(query);
    lemma_encoding_is_undone(query);
    text::lemma_decimal_is_read_back(limit);
    if e.contains('&') {
        let k = choose|k: int| 0 <= k < e.len() && e[k] == '&';
        assert(unreserved(e[k]) || e[k] == '%');
    }
    (e, text::decimal(limit))
}

/// Two listings with the same address are for the same query and limit.
pub proof fn lemma_listings_are_told_apart(a: Seq<char>, m: nat, b: Seq<char>, n: nat)
    requires
        list_url(a, m) == list_url(b, n),
    ensures
        a == b,
        m == n,
{
    let base = "https://gmail.googleapis.com/gmail/v1/users/me/messages?q="@;
    let and = "&maxResults="@;
    reveal_strlit("&maxResults=");
    let ua = list_url(a, m);
    let ub = list_url(b, n);
    let (ea, da) = (encoded(a), text::decimal(m));
    let (eb, db) = (encoded(b), text::decimal(n));
    lemma_encoding_is_safe(a);
    lemma_encoding_is_safe(b);
    let at = base.len() as int;
    if ea.len() < eb.len() {
        assert(ua[at + ea.len()] == and[0]);
        assert(ub[at + ea.len()] == eb[ea.len() as int]);
        assert(unreserved(eb[ea.len() as int]) || eb[ea.len() as int] == '%');
    }
    if eb.len() < ea.len() {
        assert(ub[at + eb.len()] == and[0]);
        assert(ua[at + eb.len()] == ea[eb.len() as int]);
        assert(unreserved(ea[eb.len() as int]) || ea[eb.len() as int] == '%');
    }
    assert(ua.subrange(at, at + ea.len()) =~= ea);
    assert(ub.subrange(at, at + eb.len()) =~= eb);
    lemma_encoding_is_injective(a, b);
    let rest = at + ea.len() + and.len();
    assert(ua.skip(rest) =~= da);
    assert(ub.skip(rest) =~= db);
    text::lemma_decimal_is_injective(m, n);
}

/// The address of a message holds its id, between that of all messages and what
/// is asked of it, so that different messages have different addresses.
pub proof fn lemma_message_addresses(id: Seq<char>, other: Seq<char>)
    ensures
        ({
            let base = "https://gmail.googleapis.com/gmail/v1/users/me/messages/"@;
            let url = message_url(id);
            &&& url.take(base.len() as int) == base
            &&& url.subrange(base.len() as int, (base.len() + id.len()) as int) == id
            &&& url.skip((base.len() + id.len()) as int) == "?format=full"@
        }),
        ({
            let base = "https://gmail.googleapis.com/gmail/v1/users/me/messages/"@;
            let url = modify_url(id);
            &&& url.take(base.len() as int) == base
            &&& url.subrange(base.len() as int, (base.len() + id.len()) as int) == id
            &&& url.skip((base.len() + id.len()) as int) == "/modify"@
        }),
        message_url(id) == message_url(other) ==> id == other,
        modify_url(id) == modify_url(other) ==> id == other,
{
    let base = "https://gmail.googleapis.com/gmail/v1/users/me/messages/"@;
    let n = base.len() as int;
    assert(message_url(id).take(n) =~= base);
    assert(message_url(id).subrange(n, n + id.len()) =~= id);
    assert(message_url(id).skip(n + id.len()) =~= "?format=full"@);
    assert(modify_url(id).take(n) =~= base);
    assert(modify_url(id).subrange(n, n + id.len()) =~= id);
    assert(modify_url(id).skip(n + id.len()) =~= "/modify"@);
    assert(message_url(other).subrange(n, n + other.len()) =~= other);
    assert(modify_url(other).subrange(n, n + other.len()) =~= other);
    if message_url(id) == message_url(other) || modify_url(id) == modify_url(other) {
        assert(id.len() == other.len());
    }
}

} // verus!
