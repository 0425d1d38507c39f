//! What is to be done with one message.

use vstd::prelude::*;
use vstd::utf8::*;

use crate::config::GmailJobConfig;
use crate::extract;
use crate::extract::extract_fields;
use crate::fields::Fields;
use crate::json::Json;
use crate::mime;
use crate::mime::{extract_body, header_value};
use crate::template;
use crate::template::render_template;
use crate::text;
use crate::text::{chars_of, contains_text};

verus! {

/// What is to be done with a message.
#[derive(Debug)]
pub enum Verdict {
    /// Its text is dispatched.
    Dispatch(String),
    /// Its sender is not on the list: it is passed over.
    Filtered,
    /// A required field is empty: it is passed over, and marked as read where
    /// dispatched messages are.
    Incomplete,
}

/// The view of a [`Verdict`].
pub enum Decision {
    Dispatch(Seq<char>),
    Filtered,
    Incomplete,
}

impl View for Verdict {
    type V = Decision;

    open spec fn view(&self) -> Decision {
        match self {
            Verdict::Dispatch(t) => Decision::Dispatch(t@),
            Verdict::Filtered => Decision::Filtered,
            Verdict::Incomplete => Decision::Incomplete,
        }
    }
}

/// A character with `A` to `Z` replaced by `a` to `z`.
pub open spec fn ascii_lowered_char(ch: char) -> char {
    if 'A' <= ch <= 'Z' {
        (ch as u32 + 32) as char
    } else {
        ch
    }
}

/// A text with `A` to `Z` replaced by `a` to `z`.
pub open spec fn ascii_lowered(s: Seq<char>) -> Seq<char> {
    s.map_values(|ch: char| ascii_lowered_char(ch))
}

/// A text that is not all ASCII, in lower case. Names what `str::to_lowercase`
/// returns for such a text.
pub uninterp spec fn lowercase(s: Seq<char>) -> Seq<char>;

/// A text in lower case: first its ASCII letters, then the others.
pub open spec fn lowered(s: Seq<char>) -> Seq<char> {
    if is_ascii_chars(s) {
        ascii_lowered(s)
    } else {
        lowercase(ascii_lowered(s))
    }
}

/// Calls `str::to_lowercase`. Of ASCII text the result is the text with `A` to
/// `Z` replaced by `a` to `z`, of other text it is `lowercase` of the text; which
/// characters beyond ASCII change, and how, is not stated.
#[verifier::external_body]
fn to_lowercase(s: &str) -> (lower: String)
    ensures
        is_ascii_chars(s@) ==> lower@ == ascii_lowered(s@),
        !is_ascii_chars(s@) ==> lower@ == lowercase(s@),
{
    s.to_lowercase()
}

/// Lowering the ASCII letters of a text leaves it ASCII or not, and is done once.
proof fn lemma_ascii_lowered(s: Seq<char>)
    ensures
        is_ascii_chars(ascii_lowered(s)) == is_ascii_chars(s),
        ascii_lowered(ascii_lowered(s)) == ascii_lowered(s),
{
    let t = ascii_lowered(s);
    if is_ascii_chars(t) {
        assert forall|i: int| 0 <= i < s.len() implies '\0' <= #[trigger] s[i] <= '\u{7f}' by {
            assert('\0' <= t[i] <= '\u{7f}');
        }
    }
    assert(ascii_lowered(t) =~= t);
}

/// A text in lower case. Its ASCII letters are lowered here, the others by
/// `str::to_lowercase`, so that ASCII letters of either case count the same in
/// whatever text they stand.
fn lower(s: &str) -> (low: String)
    ensures
        low@ == lowered(s@),
{
    let chars = chars_of(s);
    let mut ascii = String::new();
    let mut i: usize = 0;
    while i < chars.len()
        invariant
            chars@ == s@,
            i <= s@.len(),
            ascii@ =~= ascii_lowered(s@).take(i as int),
        decreases s@.len() - i,
    {
        let ch = chars[i];
        if 'A' <= ch && ch <= 'Z' {
            ascii.push((ch as u8 + 32) as char);
        } else {
            ascii.push(ch);
        }
        i += 1;
    }
    assert(ascii@ =~= ascii_lowered(s@));
    proof {
        lemma_ascii_lowered(s@);
    }
    to_lowercase(ascii.as_str())
}

/// Whether one of `needles` stands in `hay`.
pub open spec fn contains_one(hay: Seq<char>, needles: Seq<Seq<char>>) -> bool {
    exists|i: int| 0 <= i < needles.len() && text::contains(hay, #[trigger] needles[i])
}

/// Whether a sender passes the list, both given in lower case: an empty list
/// lets everybody pass, another one those in whose address one of its entries
/// stands.
pub open spec fn passes(sender: Seq<char>, list: Seq<Seq<char>>) -> bool {
    list.len() == 0 || contains_one(sender, list)
}

/// Whether a sender passes the list, both given in lower case.
pub fn sender_passes(sender: &str, list: &Vec<String>) -> (pass: bool)
    ensures
        pass == passes(sender@, text::texts(list@)),
{
    if list.is_empty() {
        return true;
    }
    let mut i: usize = 0;
    while i < list.len()
        invariant
            i <= list@.len(),
            forall|k: int|
                0 <= k < i ==> !text::contains(sender@, #[trigger] text::texts(list@)[k]),
        decreases list@.len() - i,
    {
        assert(text::texts(list@)[i as int] == list@[i as int]@);
        if contains_text(sender, list[i].as_str()) {
            return true;
        }
        i += 1;
    }
    false
}

/// Texts, each in lower case.
pub open spec fn all_lowercase(all: Seq<Seq<char>>) -> Seq<Seq<char>> {
    all.map_values(|s: Seq<char>| lowered(s))
}

/// Whether messages from `sender` are let in by the list, whatever the case of
/// either.
pub fn sender_allowed(sender: &str, allowlist: &Vec<String>) -> (allowed: bool)
    ensures
        allowed == passes(lowered(sender@), all_lowercase(text::texts(allowlist@))),
{
    let mut list: Vec<String> = Vec::new();
    let mut i: usize = 0;
    while i < allowlist.len()
        invariant
            i <= allowlist@.len(),
            text::texts(list@) =~= all_lowercase(text::texts(allowlist@)).take(i as int),
        decreases allowlist@.len() - i,
    {
        let low = lower(allowlist[i].as_str());
        let ghost sofar = list@;
        list.push(low);
        assert(text::texts(list@) =~= text::texts(sofar).push(low@));
        i += 1;
    }
    assert(text::texts(list@) =~= all_lowercase(text::texts(allowlist@)));
    sender_passes(lower(sender).as_str(), &list)
}

/// The fields that every message has.
pub open spec fn standard_fields(
    subject: Seq<char>,
    snippet: Seq<char>,
    from: Seq<char>,
) -> Map<Seq<char>, Seq<char>> {
    Map::<Seq<char>, Seq<char>>::empty().insert("subject"@, subject).insert(
        "snippet"@,
        snippet,
    ).insert("from"@, from)
}

/// Fields, and those found put among them one after the other.
pub open spec fn with_found(
    fields: Map<Seq<char>, Seq<char>>,
    found: Seq<(Seq<char>, Seq<char>)>,
) -> Map<Seq<char>, Seq<char>>
    decreases found.len(),
{
    if found.len() == 0 {
        fields
    } else {
        with_found(fields, found.drop_last()).insert(found.last().0, found.last().1)
    }
}

/// The fields of a message, given what the rules found.
pub fn message_fields(
    subject: String,
    snippet: String,
    from: String,
    found: Vec<(String, String)>,
) -> (fields: Fields)
    ensures
        fields@ == with_found(
            standard_fields(subject@, snippet@, from@),
            extract::pairs(found@),
        ),
{
    let ghost base = standard_fields(subject@, snippet@, from@);
    let ghost all = extract::pairs(found@);
    let mut fields = Fields::new();
    fields.insert("subject".to_owned(), subject);
    fields.insert("snippet".to_owned(), snippet);
    fields.insert("from".to_owned(), from);
    assert(fields@ =~= base);
    let mut i: usize = 0;
    while i < found.len()
        invariant
            i <= found@.len(),
            all == extract::pairs(found@),
            fields@ == with_found(base, all.take(i as int)),
        decreases found@.len() - i,
    {
        assert(all.take(i + 1).drop_last() =~= all.take(i as int));
        fields.insert(found[i].0.clone(), found[i].1.clone());
        i += 1;
    }
    assert(all.take(i as int) =~= all);
    fields
}

/// Whether every required field is there and not empty.
pub open spec fn complete(
    required: Seq<Seq<char>>,
    fields: Map<Seq<char>, Seq<char>>,
) -> bool {
    forall|i: int|
        #![trigger required[i]]
        0 <= i < required.len() ==> fields.contains_key(required[i]) && fields[required[i]].len()
            > 0
}

/// Whether every required field is there and not empty.
pub fn is_complete(required: &Vec<String>, fields: &Fields) -> (done: bool)
    ensures
        done == complete(text::texts(required@), fields@),
{
    let ghost names = text::texts(required@);
    let mut i: usize = 0;
    while i < required.len()
        invariant
            i <= required@.len(),
            names == text::texts(required@),
            forall|k: int|
                #![trigger names[k]]
                0 <= k < i ==> fields@.contains_key(names[k]) && fields@[names[k]].len() > 0,
        decreases required@.len() - i,
    {
        assert(names[i as int] == required@[i as int]@);
        match fields.get(required[i].as_str()) {
            Some(value) => {
                if value.as_str().is_empty() {
                    return false;
                }
            },
            None => return false,
        }
        i += 1;
    }
    true
}

/// What is to be done with a message, given whether its sender is let in and
/// its fields.
pub open spec fn decided(
    allowed: bool,
    required: Seq<Seq<char>>,
    message_template: Seq<char>,
    fields: Map<Seq<char>, Seq<char>>,
) -> Decision {
    if !allowed {
        Decision::Filtered
    } else if !complete(required, fields) {
        Decision::Incomplete
    } else {
        Decision::Dispatch(template::render(message_template, fields))
    }
}

/// What is to be done with a message, given whether its sender is let in and
/// its fields.
pub fn decide(cfg: &GmailJobConfig, allowed: bool, fields: &Fields) -> (verdict: Verdict)
    ensures
        verdict@ == decided(
            allowed,
            text::texts(cfg.require_fields@),
            cfg.message_template@,
            fields@,
        ),
{
    if !allowed {
        Verdict::Filtered
    } else if !is_complete(&cfg.require_fields, fields) {
        Verdict::Incomplete
    } else {
        Verdict::Dispatch(render_template(cfg.message_template.as_str(), fields))
    }
}

/// A text, or the empty one where there is none.
pub open spec fn or_empty(found: Option<Seq<char>>) -> Seq<char> {
    match found {
        Some(t) => t,
        None => seq![],
    }
}

/// The fields of a message under the rules of a job.
pub open spec fn fields_of(cfg: GmailJobConfig, msg: Json) -> Map<Seq<char>, Seq<char>> {
    let snippet = or_empty(msg.member_text("snippet"@));
    with_found(
        standard_fields(
            or_empty(mime::header(msg, "Subject"@)),
            snippet,
            or_empty(mime::header(msg, "From"@)),
        ),
        extract::all_found(extract::pairs(cfg.extract@), mime::message_body(msg), snippet),
    )
}

/// Whether a job lets a message's sender in.
pub open spec fn admits(cfg: GmailJobConfig, msg: Json) -> bool {
    passes(
        lowered(or_empty(mime::header(msg, "From"@))),
        all_lowercase(text::texts(cfg.sender_allowlist@)),
    )
}

/// What a job does with a message.
pub open spec fn judged(cfg: GmailJobConfig, msg: Json) -> Decision {
    decided(
        admits(cfg, msg),
        text::texts(cfg.require_fields@),
        cfg.message_template@,
        fields_of(cfg, msg),
    )
}

fn text_or_empty(found: Option<String>) -> (t: String)
    ensures
        t@ == or_empty(text::optional(found)),
{
    match found {
        Some(t) => t,
        None => String::new(),
    }
}

/// What a job does with a message.
pub fn judge(cfg: &GmailJobConfig, msg: &Json) -> (verdict: Verdict)
    ensures
        verdict@ == judged(*cfg, *msg),
{
    let subject = text_or_empty(header_value(msg, "Subject"));
    let from = text_or_empty(header_value(msg, "From"));
    let snippet = match msg.get_text("snippet") {
        Some(t) => t.clone(),
        None => String::new(),
    };
    let body = extract_body(msg);
    let allowed = sender_allowed(from.as_str(), &cfg.sender_allowlist);
    let found = extract_fields(&cfg.extract, body.as_str(), snippet.as_str());
    let fields = message_fields(subject, snippet, from, found);
    decide(cfg, allowed, &fields)
}

/// Whether no name occurs twice.
pub open spec fn distinct_names(entries: Seq<(Seq<char>, Seq<char>)>) -> bool {
    forall|i: int, j: int|
        0 <= i < entries.len() && 0 <= j < entries.len() && i != j ==> (#[trigger] entries[i]).0
            != (#[trigger] entries[j]).0
}

/// What was found under a name replaces what stood there.
proof fn lemma_found_is_there(
    fields: Map<Seq<char>, Seq<char>>,
    found: Seq<(Seq<char>, Seq<char>)>,
    i: int,
)
    requires
        0 <= i < found.len(),
    ensures
        with_found(fields, found).contains_key(found[i].0),
        distinct_names(found) ==> with_found(fields, found)[found[i].0] == found[i].1,
    decreases found.len(),
{
    let less = found.drop_last();
    if i < found.len() - 1 {
        assert(less[i] == found[i]);
        lemma_found_is_there(fields, less, i);
        if distinct_names(found) {
            assert forall|a: int, b: int|
                0 <= a < less.len() && 0 <= b < less.len() && a != b implies (#[trigger] less[a]).0
                != (#[trigger] less[b]).0 by {
                assert(less[a] == found[a] && less[b] == found[b]);
            }
            assert(found[i].0 != found[found.len() - 1].0);
        }
    }
}

/// What was not found is as it was.
proof fn lemma_rest_is_kept(
    fields: Map<Seq<char>, Seq<char>>,
    found: Seq<(Seq<char>, Seq<char>)>,
    name: Seq<char>,
)
    requires
        forall|i: int| 0 <= i < found.len() ==> (#[trigger] found[i]).0 != name,
    ensures
        with_found(fields, found).contains_key(name) == fields.contains_key(name),
        with_found(fields, found)[name] == fields[name],
    decreases found.len(),
{
    if found.len() > 0 {
        let less = found.drop_last();
        assert forall|i: int| 0 <= i < less.len() implies (#[trigger] less[i]).0 != name by {
            assert(less[i] == found[i]);
        }
        lemma_rest_is_kept(fields, less, name);
        assert(found[found.len() - 1].0 != name);
    }
}

proof fn lemma_names_are_kept(
    fields: Map<Seq<char>, Seq<char>>,
    found: Seq<(Seq<char>, Seq<char>)>,
    name: Seq<char>,
)
    requires
        fields.contains_key(name),
    ensures
        with_found(fields, found).contains_key(name),
    decreases found.len(),
{
    if found.len() > 0 {
        lemma_names_are_kept(fields, found.drop_last(), name);
    }
}

/// Subject, sender and snippet are fields of every message, and so is the name
/// of every rule, whether or not the rule found anything.
pub proof fn lemma_fields_are_available(cfg: GmailJobConfig, msg: Json)
    ensures
        fields_of(cfg, msg).contains_key("subject"@),
        fields_of(cfg, msg).contains_key("from"@),
        fields_of(cfg, msg).contains_key("snippet"@),
        forall|i: int|
            0 <= i < cfg.extract@.len() ==> fields_of(cfg, msg).contains_key(
                (#[trigger] cfg.extract@[i]).0@,
            ),
{
    let snippet = or_empty(msg.member_text("snippet"@));
    let base = standard_fields(
        or_empty(mime::header(msg, "Subject"@)),
        snippet,
        or_empty(mime::header(msg, "From"@)),
    );
    let found = extract::all_found(extract::pairs(cfg.extract@), mime::message_body(msg), snippet);
    lemma_names_are_kept(base, found, "subject"@);
    lemma_names_are_kept(base, found, "from"@);
    lemma_names_are_kept(base, found, "snippet"@);
    assert forall|i: int| 0 <= i < cfg.extract@.len() implies fields_of(cfg, msg).contains_key(
        (#[trigger] cfg.extract@[i]).0@,
    ) by {
        lemma_found_is_there(base, found, i);
    }
}

proof fn lemma_found_order(
    fields: Map<Seq<char>, Seq<char>>,
    a: Seq<(Seq<char>, Seq<char>)>,
    b: Seq<(Seq<char>, Seq<char>)>,
    name: Seq<char>,
)
    requires
        distinct_names(a),
        distinct_names(b),
        forall|e: (Seq<char>, Seq<char>)| #[trigger] a.contains(e) <==> b.contains(e),
    ensures
        with_found(fields, a).contains_key(name) == with_found(fields, b).contains_key(name),
        with_found(fields, a)[name] == with_found(fields, b)[name],
{
    if exists|i: int| 0 <= i < a.len() && (#[trigger] a[i]).0 == name {
        let i = choose|i: int| 0 <= i < a.len() && (#[trigger] a[i]).0 == name;
        assert(a.contains(a[i]));
        let j = choose|j: int| 0 <= j < b.len() && b[j] == a[i];
        lemma_found_is_there(fields, a, i);
        lemma_found_is_there(fields, b, j);
    } else {
        assert forall|j: int| 0 <= j < b.len() implies (#[trigger] b[j]).0 != name by {
            assert(b.contains(b[j]));
            assert(a.contains(b[j]));
        }
        lemma_rest_is_kept(fields, a, name);
        lemma_rest_is_kept(fields, b, name);
    }
}

proof fn lemma_found_members(
    a: Seq<(Seq<char>, Seq<char>)>,
    b: Seq<(Seq<char>, Seq<char>)>,
    body: Seq<char>,
    snippet: Seq<char>,
    e: (Seq<char>, Seq<char>),
)
    requires
        forall|r: (Seq<char>, Seq<char>)| #[trigger] a.contains(r) ==> b.contains(r),
        extract::all_found(a, body, snippet).contains(e),
    ensures
        extract::all_found(b, body, snippet).contains(e),
{
    let fa = extract::all_found(a, body, snippet);
    let fb = extract::all_found(b, body, snippet);
    let i = choose|i: int| 0 <= i < fa.len() && fa[i] == e;
    assert(a.contains(a[i]));
    let j = choose|j: int| 0 <= j < b.len() && b[j] == a[i];
    assert(fb[j] == e);
}

/// The order in which the rules are given is of no consequence: the same rules
/// in another order make the same fields of every message.
pub proof fn lemma_rule_order_is_irrelevant(a: GmailJobConfig, b: GmailJobConfig, msg: Json)
    requires
        distinct_names(extract::pairs(a.extract@)),
        distinct_names(extract::pairs(b.extract@)),
        forall|r: (Seq<char>, Seq<char>)| #[trigger]
            extract::pairs(a.extract@).contains(r) <==> extract::pairs(b.extract@).contains(r),
    ensures
        fields_of(a, msg) == fields_of(b, msg),
{
    let snippet = or_empty(msg.member_text("snippet"@));
    let body = mime::message_body(msg);
    let base = standard_fields(
        or_empty(mime::header(msg, "Subject"@)),
        snippet,
        or_empty(mime::header(msg, "From"@)),
    );
    let pa = extract::pairs(a.extract@);
    let pb = extract::pairs(b.extract@);
    let fa = extract::all_found(pa, body, snippet);
    let fb = extract::all_found(pb, body, snippet);
    assert forall|i: int, j: int|
        0 <= i < fa.len() && 0 <= j < fa.len() && i != j implies (#[trigger] fa[i]).0 != (
    #[trigger] fa[j]).0 by {
        assert(pa[i].0 != pa[j].0);
    }
    assert forall|i: int, j: int|
        0 <= i < fb.len() && 0 <= j < fb.len() && i != j implies (#[trigger] fb[i]).0 != (
    #[trigger] fb[j]).0 by {
        assert(pb[i].0 != pb[j].0);
    }
    assert forall|e: (Seq<char>, Seq<char>)| #[trigger] fa.contains(e) <==> fb.contains(e) by {
        if fa.contains(e) {
            lemma_found_members(pa, pb, body, snippet, e);
        }
        if fb.contains(e) {
            lemma_found_members(pb, pa, body, snippet, e);
        }
    }
    assert forall|name: Seq<char>| #[trigger]
        fields_of(a, msg).contains_key(name) == fields_of(b, msg).contains_key(name) by {
        lemma_found_order(base, fa, fb, name);
    }
    assert forall|name: Seq<char>| #[trigger]
        fields_of(a, msg).contains_key(name) implies fields_of(a, msg)[name] == fields_of(
        b,
        msg,
    )[name] by {
        lemma_found_order(base, fa, fb, name);
    }
    assert(fields_of(a, msg) =~= fields_of(b, msg));
}

/// An empty list lets every sender in.
pub proof fn lemma_empty_allowlist_admits_all(cfg: GmailJobConfig, msg: Json)
    requires
        cfg.sender_allowlist@.len() == 0,
    ensures
        admits(cfg, msg),
{
}

/// Whether two jobs differ in their lists of senders at most.
pub open spec fn differ_in_allowlist(a: GmailJobConfig, b: GmailJobConfig) -> bool {
    b == (GmailJobConfig { sender_allowlist: b.sender_allowlist, ..a })
}

/// A list with more entries lets in everybody whom the shorter one lets in, and
/// so does the empty one. Between jobs that differ in their lists alone, what is
/// dispatched under the one is dispatched under the other, with the same text.
pub proof fn lemma_longer_allowlist_admits_no_fewer(
    a: GmailJobConfig,
    b: GmailJobConfig,
    msg: Json,
)
    requires
        admits(a, msg),
        b.sender_allowlist@.len() == 0 || {
            &&& a.sender_allowlist@.len() > 0
            &&& forall|i: int|
                0 <= i < a.sender_allowlist@.len() ==> text::texts(b.sender_allowlist@).contains(
                    (#[trigger] a.sender_allowlist@[i])@,
                )
        },
    ensures
        admits(b, msg),
        differ_in_allowlist(a, b) ==> judged(b, msg) == judged(a, msg),
{
    let from = lowered(or_empty(mime::header(msg, "From"@)));
    let ta = text::texts(a.sender_allowlist@);
    let tb = text::texts(b.sender_allowlist@);
    let la = all_lowercase(ta);
    let lb = all_lowercase(tb);
    if tb.len() > 0 {
        let i = choose|i: int| 0 <= i < la.len() && text::contains(from, #[trigger] la[i]);
        assert(tb.contains(a.sender_allowlist@[i]@));
        let j = choose|j: int| 0 <= j < tb.len() && tb[j] == a.sender_allowlist@[i]@;
        assert(lb[j] == la[i]);
    }
}

/// Whether two texts are the same but for the case of their ASCII letters.
pub open spec fn same_but_ascii_case(a: Seq<char>, b: Seq<char>) -> bool {
    ascii_lowered(a) == ascii_lowered(b)
}

/// The case of ASCII letters in the entries of the list is of no consequence,
/// whatever else the entries hold: the same senders are let in, and jobs that
/// differ in that alone do the same with every message.
pub proof fn lemma_allowlist_case_is_irrelevant(a: GmailJobConfig, b: GmailJobConfig, msg: Json)
    requires
        a.sender_allowlist@.len() == b.sender_allowlist@.len(),
        forall|i: int|
            #![trigger a.sender_allowlist@[i]]
            #![trigger b.sender_allowlist@[i]]
            0 <= i < a.sender_allowlist@.len() ==> same_but_ascii_case(
                a.sender_allowlist@[i]@,
                b.sender_allowlist@[i]@,
            ),
    ensures
        admits(a, msg) == admits(b, msg),
        differ_in_allowlist(a, b) ==> judged(b, msg) == judged(a, msg),
{
    let la = all_lowercase(text::texts(a.sender_allowlist@));
    let lb = all_lowercase(text::texts(b.sender_allowlist@));
    assert forall|i: int| 0 <= i < la.len() implies la[i] == lb[i] by {
        lemma_ascii_lowered(a.sender_allowlist@[i]@);
        lemma_ascii_lowered(b.sender_allowlist@[i]@);
    }
    assert(la =~= lb);
}

/// The case of ASCII letters in a sender is of no consequence either.
pub proof fn lemma_sender_case_is_irrelevant(
    sender: Seq<char>,
    other: Seq<char>,
    list: Seq<Seq<char>>,
)
    requires
        same_but_ascii_case(sender, other),
    ensures
        passes(lowered(sender), all_lowercase(list)) == passes(
            lowered(other),
            all_lowercase(list),
        ),
{
    lemma_ascii_lowered(sender);
    lemma_ascii_lowered(other);
}

/// Nothing is dispatched for a sender who is not let in, nor with a required
/// field missing or empty.
pub proof fn lemma_dispatch_needs_all(cfg: GmailJobConfig, msg: Json)
    requires
        judged(cfg, msg) is Dispatch,
    ensures
        admits(cfg, msg),
        forall|i: int|
            0 <= i < cfg.require_fields@.len() ==> fields_of(cfg, msg).contains_key(
                (#[trigger] cfg.require_fields@[i])@,
            ) && fields_of(cfg, msg)[cfg.require_fields@[i]@].len() > 0,
{
    assert forall|i: int| 0 <= i < cfg.require_fields@.len() implies fields_of(
        cfg,
        msg,
    ).contains_key((#[trigger] cfg.require_fields@[i])@) && fields_of(
        cfg,
        msg,
    )[cfg.require_fields@[i]@].len() > 0 by {
        assert(text::texts(cfg.require_fields@)[i] == cfg.require_fields@[i]@);
    }
}

/// The sender of a message: what its header says, or nothing.
pub open spec fn sender_of(msg: Json) -> Seq<char> {
    match mime::header(msg, "From"@) {
        Some(from) => from,
        None => Seq::<char>::empty(),
    }
}

/// A sender is let in if and only if the list is empty or one of its entries, in
/// lower case, stands in the sender, in lower case.
pub proof fn lemma_entries_let_senders_in(cfg: GmailJobConfig, msg: Json)
    ensures
        admits(cfg, msg) <==> cfg.sender_allowlist@.len() == 0 || exists|i: int|
            0 <= i < cfg.sender_allowlist@.len() && text::contains(
                lowered(sender_of(msg)),
                lowered((#[trigger] cfg.sender_allowlist@[i])@),
            ),
{
    let list = all_lowercase(text::texts(cfg.sender_allowlist@));
    let from = lowered(sender_of(msg));
    assert(or_empty(mime::header(msg, "From"@)) =~= sender_of(msg));
    if contains_one(from, list) {
        let i = choose|i: int| 0 <= i < list.len() && text::contains(from, #[trigger] list[i]);
        assert(list[i] == lowered(cfg.sender_allowlist@[i]@));
    }
    if exists|i: int|
        0 <= i < cfg.sender_allowlist@.len() && text::contains(
            from,
            lowered((#[trigger] cfg.sender_allowlist@[i])@),
        ) {
        let i = choose|i: int|
            0 <= i < cfg.sender_allowlist@.len() && text::contains(
                from,
                lowered((#[trigger] cfg.sender_allowlist@[i])@),
            );
        assert(list[i] == lowered(cfg.sender_allowlist@[i]@));
    }
}

/// Of ASCII text the capitals are lowered and everything else is kept. Of other
/// text without ASCII capitals the result is that of `str::to_lowercase`.
pub proof fn lemma_capitals_are_lowered(s: Seq<char>)
    ensures
        is_ascii_chars(s) ==> lowered(s).len() == s.len() && forall|k: int|
            0 <= k < s.len() ==> #[trigger] lowered(s)[k] == if 'A' <= s[k] <= 'Z' {
                (s[k] as int + ('a' as int - 'A' as int)) as char
            } else {
                s[k]
            },
        !is_ascii_chars(s) && (forall|k: int| 0 <= k < s.len() ==> !('A' <= #[trigger] s[k] <= 'Z'))
            ==> lowered(s) == lowercase(s),
{
    if forall|k: int| 0 <= k < s.len() ==> !('A' <= #[trigger] s[k] <= 'Z') {
        assert(ascii_lowered(s) =~= s);
    }
}

/// A sender in whose address an entry of the list stands, all in ASCII and
/// whatever the case of either, is let in.
pub proof fn lemma_listed_sender_is_let_in(
    cfg: GmailJobConfig,
    msg: Json,
    a: Seq<char>,
    middle: Seq<char>,
    b: Seq<char>,
    i: int,
)
    requires
        0 <= i < cfg.sender_allowlist@.len(),
        sender_of(msg) == a + middle + b,
        is_ascii_chars(a) && is_ascii_chars(middle) && is_ascii_chars(b),
        same_but_ascii_case(middle, cfg.sender_allowlist@[i]@),
    ensures
        admits(cfg, msg),
{
    let from = sender_of(msg);
    let entry = cfg.sender_allowlist@[i]@;
    lemma_ascii_lowered(middle);
    lemma_ascii_lowered(entry);
    assert forall|k: int| 0 <= k < from.len() implies '\0' <= #[trigger] from[k] <= '\u{7f}' by {
        if k < a.len() {
            assert(from[k] == a[k]);
        } else if k < a.len() + middle.len() {
            assert(from[k] == middle[k - a.len()]);
        } else {
            assert(from[k] == b[k - a.len() - middle.len()]);
        }
    }
    assert(lowered(from) =~= ascii_lowered(a) + lowered(entry) + ascii_lowered(b));
    text::lemma_text_stands_in_what_surrounds_it(
        ascii_lowered(a),
        lowered(entry),
        ascii_lowered(b),
    );
    lemma_entries_let_senders_in(cfg, msg);
    assert(cfg.sender_allowlist@[i]@ == entry);
}

/// The text under a name that no rule bears is the subject, the sender or the
/// snippet of the message, or there is none.
pub proof fn lemma_standard_fields_are_those_of_the_message(
    cfg: GmailJobConfig,
    msg: Json,
    name: Seq<char>,
)
    requires
        forall|i: int| 0 <= i < cfg.extract@.len() ==> (#[trigger] cfg.extract@[i]).0@ != name,
    ensures
        fields_of(cfg, msg).contains_key(name) <==> name == "subject"@ || name == "from"@ || name
            == "snippet"@,
        name == "subject"@ ==> fields_of(cfg, msg)[name] == match mime::header(msg, "Subject"@) {
            Some(subject) => subject,
            None => Seq::<char>::empty(),
        },
        name == "from"@ ==> fields_of(cfg, msg)[name] == sender_of(msg),
        name == "snippet"@ ==> fields_of(cfg, msg)[name] == match msg.member_text("snippet"@) {
            Some(snippet) => snippet,
            None => Seq::<char>::empty(),
        },
{
    reveal_strlit("subject");
    reveal_strlit("snippet");
    reveal_strlit("from");
    assert("subject"@[1] == 'u' && "snippet"@[1] == 'n' && "from"@[1] == 'r');
    let snippet = or_empty(msg.member_text("snippet"@));
    let base = standard_fields(
        or_empty(mime::header(msg, "Subject"@)),
        snippet,
        or_empty(mime::header(msg, "From"@)),
    );
    let found = extract::all_found(extract::pairs(cfg.extract@), mime::message_body(msg), snippet);
    assert forall|i: int| 0 <= i < found.len() implies (#[trigger] found[i]).0 != name by {
        assert(found[i].0 == cfg.extract@[i].0@);
    }
    lemma_rest_is_kept(base, found, name);
}

/// The text under the name of a rule is what its pattern finds in the first group:
/// in the body of the message, or in its snippet if the body does not match,
/// without the white space around it; nothing if it finds none.
pub proof fn lemma_rules_fill_their_fields(cfg: GmailJobConfig, msg: Json, i: int)
    requires
        0 <= i < cfg.extract@.len(),
        distinct_names(extract::pairs(cfg.extract@)),
    ensures
        ({
            let fields = fields_of(cfg, msg);
            let name = cfg.extract@[i].0@;
            let pattern = cfg.extract@[i].1@;
            let snippet = match msg.member_text("snippet"@) {
                Some(snippet) => snippet,
                None => Seq::<char>::empty(),
            };
            &&& fields.contains_key(name)
            &&& match extract::matched_group(pattern, mime::message_body(msg), 1usize) {
                Some(Some(t)) => fields[name] == text::trimmed(t),
                Some(None) => fields[name].len() == 0,
                None => match extract::matched_group(pattern, snippet, 1usize) {
                    Some(Some(t)) => fields[name] == text::trimmed(t),
                    _ => fields[name].len() == 0,
                },
            }
        }),
{
    let snippet = or_empty(msg.member_text("snippet"@));
    let base = standard_fields(
        or_empty(mime::header(msg, "Subject"@)),
        snippet,
        or_empty(mime::header(msg, "From"@)),
    );
    let rules = extract::pairs(cfg.extract@);
    let body = mime::message_body(msg);
    let found = extract::all_found(rules, body, snippet);
    extract::lemma_rules_find_their_fields(rules, body, snippet, i);
    assert forall|a: int, b: int|
        0 <= a < found.len() && 0 <= b < found.len() && a != b implies (#[trigger] found[a]).0 != (
    #[trigger] found[b]).0 by {
        assert(rules[a].0 != rules[b].0);
    }
    lemma_found_is_there(base, found, i);
    assert(rules[i] == (cfg.extract@[i].0@, cfg.extract@[i].1@));
}

/// A message is dispatched if and only if its sender is let in and every required
/// field, however many there are, is there and not empty. What is dispatched is
/// the template with the message's fields.
pub proof fn lemma_complete_messages_are_dispatched(cfg: GmailJobConfig, msg: Json)
    ensures
        judged(cfg, msg) is Dispatch <==> admits(cfg, msg) && forall|i: int|
            0 <= i < cfg.require_fields@.len() ==> fields_of(cfg, msg).contains_key(
                (#[trigger] cfg.require_fields@[i])@,
            ) && fields_of(cfg, msg)[cfg.require_fields@[i]@].len() > 0,
        judged(cfg, msg) matches Decision::Dispatch(t) ==> t == template::render(
            cfg.message_template@,
            fields_of(cfg, msg),
        ),
{
    let required = text::texts(cfg.require_fields@);
    let fields = fields_of(cfg, msg);
    if forall|i: int|
        0 <= i < cfg.require_fields@.len() ==> fields.contains_key(
            (#[trigger] cfg.require_fields@[i])@,
        ) && fields[cfg.require_fields@[i]@].len() > 0 {
        assert forall|i: int|
            #![trigger required[i]]
            0 <= i < required.len() implies fields.contains_key(required[i])
            && fields[required[i]].len() > 0 by {
            assert(required[i] == cfg.require_fields@[i]@);
        }
    }
    if judged(cfg, msg) is Dispatch {
        lemma_dispatch_needs_all(cfg, msg);
    }
}

/// A message that is not dispatched is filtered if its sender is not let in, and
/// incomplete if it is.
pub proof fn lemma_other_messages_are_passed_over(cfg: GmailJobConfig, msg: Json)
    ensures
        judged(cfg, msg) is Filtered <==> !admits(cfg, msg),
        judged(cfg, msg) is Incomplete <==> admits(cfg, msg) && !(judged(cfg, msg) is Dispatch),
{
}

/// A job that requires nothing dispatches whatever a listed sender sends.
pub proof fn lemma_nothing_required_nothing_missing(cfg: GmailJobConfig, msg: Json)
    requires
        cfg.require_fields@.len() == 0,
        admits(cfg, msg),
    ensures
        judged(cfg, msg) == Decision::Dispatch(
            template::render(cfg.message_template@, fields_of(cfg, msg)),
        ),
{
    lemma_complete_messages_are_dispatched(cfg, msg);
}

/// Required fields are all there if and only if each of them is among the fields
/// and is not empty.
pub proof fn lemma_required_fields(required: Seq<Seq<char>>, fields: Map<Seq<char>, Seq<char>>)
    ensures
        (forall|name: Seq<char>| #[trigger]
            required.contains(name) ==> fields.contains_key(name) && fields[name].len() > 0)
            ==> complete(required, fields),
        forall|name: Seq<char>| #[trigger]
            required.contains(name) && complete(required, fields) ==> fields.contains_key(name)
                && fields[name].len() > 0,
{
    if forall|name: Seq<char>| #[trigger]
        required.contains(name) ==> fields.contains_key(name) && fields[name].len() > 0 {
        assert forall|i: int|
            #![trigger required[i]]
            0 <= i < required.len() implies fields.contains_key(required[i])
            && fields[required[i]].len() > 0 by {
            assert(required.contains(required[i]));
        }
    }
    assert forall|name: Seq<char>| #[trigger]
        required.contains(name) && complete(required, fields) implies fields.contains_key(name)
        && fields[name].len() > 0 by {
        let i = choose|i: int| 0 <= i < required.len() && required[i] == name;
        assert(required[i] == name);
    }
}

/// A decision follows from three things: whether the sender is let in, whether a
/// required field is missing or empty, and what the template makes of the fields.
pub proof fn lemma_decisions(
    allowed: bool,
    required: Seq<Seq<char>>,
    message_template: Seq<char>,
    fields: Map<Seq<char>, Seq<char>>,
)
    ensures
        decided(allowed, required, message_template, fields) is Filtered <==> !allowed,
        decided(allowed, required, message_template, fields) is Incomplete <==> allowed && exists|
            name: Seq<char>,
        | #[trigger]
            required.contains(name) && !(fields.contains_key(name) && fields[name].len() > 0),
        decided(allowed, required, message_template, fields) matches Decision::Dispatch(t) ==> t
            == template::render(message_template, fields),
{
    lemma_required_fields(required, fields);
}

/// A sender passes an empty list, and another one if and only if one of its entries
/// stands in the sender.
pub proof fn lemma_passing_senders(sender: Seq<char>, list: Seq<Seq<char>>)
    ensures
        list.len() == 0 ==> passes(sender, list),
        list.len() > 0 ==> (passes(sender, list) <==> exists|entry: Seq<char>| #[trigger]
            list.contains(entry) && text::contains(sender, entry)),
{
    if list.len() > 0 {
        if passes(sender, list) {
            let i = choose|i: int|
                0 <= i < list.len() && text::contains(sender, #[trigger] list[i]);
            assert(list.contains(list[i]));
        }
        if exists|entry: Seq<char>| #[trigger]
            list.contains(entry) && text::contains(sender, entry) {
            let entry = choose|entry: Seq<char>| #[trigger]
                list.contains(entry) && text::contains(sender, entry);
            let i = choose|i: int| 0 <= i < list.len() && list[i] == entry;
            assert(text::contains(sender, list[i]));
        }
    }
}

/// The fields of a message are the three that it always has and what was found, of
/// which the last under a name counts.
pub proof fn lemma_found_fields_come_last(
    subject: Seq<char>,
    snippet: Seq<char>,
    from: Seq<char>,
    found: Seq<(Seq<char>, Seq<char>)>,
    last: (Seq<char>, Seq<char>),
)
    ensures
        with_found(standard_fields(subject, snippet, from), found.push(last)) == with_found(
            standard_fields(subject, snippet, from),
            found,
        ).insert(last.0, last.1),
        ({
            let base = with_found(standard_fields(subject, snippet, from), Seq::empty());
            &&& base.contains_key("subject"@) && base["subject"@] == subject
            &&& base.contains_key("snippet"@) && base["snippet"@] == snippet
            &&& base.contains_key("from"@) && base["from"@] == from
        }),
{
    assert(found.push(last).drop_last() =~= found);
    reveal_strlit("subject");
    reveal_strlit("snippet");
    reveal_strlit("from");
    assert("subject"@[1] == 'u' && "snippet"@[1] == 'n' && "from"@[1] == 'r');
}

} // verus!
