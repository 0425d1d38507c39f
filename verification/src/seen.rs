//! The ids of the messages that a job has dealt with.

use vstd::prelude::*;

use crate::errors::{Failure, PollerError};
use crate::mime;
use crate::text;
use crate::text::{is_before, same_text};

verus! {

broadcast use vstd::seq_lib::seq_to_set_is_finite;

/// How many ids are kept before the oldest are dropped.
pub const SEEN_LIMIT: usize = 5000;

/// How many of the oldest ids are dropped at once, at least.
pub const SEEN_DROP: usize = 1000;

/// Whether each text stands before those that follow it.
pub open spec fn ascending(l: Seq<Seq<char>>) -> bool {
    forall|i: int, j: int| 0 <= i < j < l.len() ==> text::before(#[trigger] l[i], #[trigger] l[j])
}

/// The texts of a finite set, in ascending order.
pub open spec fn listing(s: Set<Seq<char>>) -> Seq<Seq<char>> {
    choose|l: Seq<Seq<char>>| ascending(l) && #[trigger] l.to_set() == s
}

/// The texts of `s` that stand before `x`.
pub open spec fn elders(s: Set<Seq<char>>, x: Seq<char>) -> Set<Seq<char>> {
    s.filter(|y: Seq<char>| text::before(y, x))
}

/// How many of the oldest of `n` ids are dropped: none within the limit, else
/// as many as are dropped at once, or what is over the limit if that is more.
pub open spec fn surplus(n: nat) -> int {
    if n <= SEEN_LIMIT {
        0
    } else if n - SEEN_LIMIT <= SEEN_DROP {
        SEEN_DROP as int
    } else {
        n - SEEN_LIMIT
    }
}

/// What is kept of a set: what has enough texts before it not to be among the
/// oldest that are dropped.
pub open spec fn capped(s: Set<Seq<char>>) -> Set<Seq<char>> {
    s.filter(|x: Seq<char>| elders(s, x).len() >= surplus(s.len()))
}

proof fn lemma_first_is_least(a: Seq<Seq<char>>, b: Seq<Seq<char>>)
    requires
        ascending(a),
        ascending(b),
        a.to_set() == b.to_set(),
        a.len() > 0,
    ensures
        b.len() > 0,
        a[0] == b[0],
{
    assert(a.to_set().contains(a[0]));
    assert(b.contains(a[0]));
    let j = choose|j: int| 0 <= j < b.len() && b[j] == a[0];
    assert(b.to_set().contains(b[0]));
    assert(a.contains(b[0]));
    let i = choose|i: int| 0 <= i < a.len() && a[i] == b[0];
    text::lemma_before_trichotomy(a[0], b[0]);
    if i > 0 && j > 0 {
        assert(text::before(a[0], a[i]));
        assert(text::before(b[0], b[j]));
    }
}

proof fn lemma_ascending_distinct(l: Seq<Seq<char>>)
    requires
        ascending(l),
    ensures
        l.no_duplicates(),
{
    assert forall|i: int, j: int| 0 <= i < l.len() && 0 <= j < l.len() && i != j implies l[i]
        != l[j] by {
        text::lemma_before_trichotomy(l[i], l[j]);
        if i < j {
            assert(text::before(l[i], l[j]));
        } else {
            assert(text::before(l[j], l[i]));
        }
    }
}

proof fn lemma_rest_of_set(l: Seq<Seq<char>>)
    requires
        l.len() > 0,
        l.no_duplicates(),
    ensures
        l.skip(1).to_set() == l.to_set().remove(l[0]),
{
    let rest = l.skip(1);
    assert forall|x: Seq<char>| rest.to_set().contains(x) <==> l.to_set().remove(l[0]).contains(
        x,
    ) by {
        if rest.contains(x) {
            let k = choose|k: int| 0 <= k < rest.len() && rest[k] == x;
            assert(l[k + 1] == x);
            assert(l.contains(x));
        }
        if l.contains(x) && x != l[0] {
            let k = choose|k: int| 0 <= k < l.len() && l[k] == x;
            assert(rest[k - 1] == x);
        }
    }
    assert(rest.to_set() =~= l.to_set().remove(l[0]));
}

/// A set has one ascending listing.
pub proof fn lemma_listing_is_unique(a: Seq<Seq<char>>, b: Seq<Seq<char>>)
    requires
        ascending(a),
        ascending(b),
        a.to_set() == b.to_set(),
    ensures
        a == b,
    decreases a.len(),
{
    if a.len() > 0 {
        lemma_first_is_least(a, b);
        lemma_ascending_distinct(a);
        lemma_ascending_distinct(b);
        lemma_rest_of_set(a);
        lemma_rest_of_set(b);
        lemma_listing_is_unique(a.skip(1), b.skip(1));
        assert(a =~= seq![a[0]] + a.skip(1));
        assert(b =~= seq![b[0]] + b.skip(1));
    } else if b.len() > 0 {
        assert(b.to_set().contains(b[0]));
        assert(!a.to_set().contains(b[0]));
    } else {
        assert(a =~= b);
    }
}

/// Putting a text between those before it and those after it keeps a listing
/// ascending and adds the text to its set.
proof fn lemma_insert(l: Seq<Seq<char>>, at: int, x: Seq<char>)
    requires
        ascending(l),
        0 <= at <= l.len(),
        forall|k: int| 0 <= k < at ==> text::before(#[trigger] l[k], x),
        forall|k: int| at <= k < l.len() ==> text::before(x, #[trigger] l[k]),
    ensures
        ascending(l.insert(at, x)),
        l.insert(at, x).to_set() == l.to_set().insert(x),
{
    let r = l.insert(at, x);
    assert forall|i: int, j: int| 0 <= i < j < r.len() implies text::before(
        #[trigger] r[i],
        #[trigger] r[j],
    ) by {
        let a = if i < at {
            i
        } else {
            i - 1
        };
        let b = if j < at {
            j
        } else {
            j - 1
        };
        if i != at {
            assert(r[i] == l[a]);
        }
        if j != at {
            assert(r[j] == l[b]);
        }
    }
    assert forall|y: Seq<char>| r.to_set().contains(y) <==> l.to_set().insert(x).contains(y) by {
        if r.contains(y) {
            let k = choose|k: int| 0 <= k < r.len() && r[k] == y;
            if k < at {
                assert(l[k] == y);
            } else if k > at {
                assert(l[k - 1] == y);
            }
        }
        if l.contains(y) {
            let k = choose|k: int| 0 <= k < l.len() && l[k] == y;
            if k < at {
                assert(r[k] == y);
            } else {
                assert(r[k + 1] == y);
            }
        }
        assert(r[at] == x);
    }
    assert(r.to_set() =~= l.to_set().insert(x));
}

/// In a listing without `x` there is a place for it.
proof fn lemma_place(l: Seq<Seq<char>>, x: Seq<char>) -> (at: int)
    requires
        ascending(l),
        !l.contains(x),
    ensures
        0 <= at <= l.len(),
        forall|k: int| 0 <= k < at ==> text::before(#[trigger] l[k], x),
        forall|k: int| at <= k < l.len() ==> text::before(x, #[trigger] l[k]),
    decreases l.len(),
{
    if l.len() == 0 {
        0
    } else {
        text::lemma_before_trichotomy(l.last(), x);
        assert(l.contains(l.last()));
        if text::before(l.last(), x) {
            assert forall|k: int| 0 <= k < l.len() implies text::before(#[trigger] l[k], x) by {
                if k < l.len() - 1 {
                    text::lemma_before_transitive(l[k], l[l.len() - 1], x);
                }
            }
            l.len() as int
        } else {
            let less = l.drop_last();
            assert(!less.contains(x)) by {
                if less.contains(x) {
                    let k = choose|k: int| 0 <= k < less.len() && less[k] == x;
                    assert(l[k] == x);
                }
            }
            let at = lemma_place(less, x);
            assert forall|k: int| 0 <= k < at implies text::before(#[trigger] l[k], x) by {
                assert(l[k] == less[k]);
            }
            assert forall|k: int| at <= k < l.len() implies text::before(x, #[trigger] l[k]) by {
                if k < l.len() - 1 {
                    assert(l[k] == less[k]);
                }
            }
            at
        }
    }
}

/// A finite set has an ascending listing.
pub proof fn lemma_listing_exists(s: Set<Seq<char>>)
    requires
        s.finite(),
    ensures
        ascending(listing(s)),
        listing(s).to_set() == s,
        listing(s).len() == s.len(),
    decreases s.len(),
{
    if s.len() == 0 {
        let l = Seq::<Seq<char>>::empty();
        s.lemma_len0_is_empty();
        assert(l.to_set() =~= s);
        assert(ascending(l));
    } else {
        let x = s.choose();
        lemma_listing_exists(s.remove(x));
        let less = listing(s.remove(x));
        assert(!less.contains(x)) by {
            assert(!less.to_set().contains(x));
        }
        let at = lemma_place(less, x);
        lemma_insert(less, at, x);
        assert(less.insert(at, x).to_set() =~= s);
    }
    lemma_ascending_distinct(listing(s));
    listing(s).unique_seq_to_set();
}

proof fn lemma_elders(l: Seq<Seq<char>>, i: int)
    requires
        ascending(l),
        0 <= i < l.len(),
    ensures
        elders(l.to_set(), l[i]) == l.take(i).to_set(),
        elders(l.to_set(), l[i]).len() == i,
{
    let head = l.take(i);
    assert forall|x: Seq<char>| elders(l.to_set(), l[i]).contains(x) <==> head.to_set().contains(
        x,
    ) by {
        if l.contains(x) && text::before(x, l[i]) {
            let k = choose|k: int| 0 <= k < l.len() && l[k] == x;
            text::lemma_before_trichotomy(l[i], l[k]);
            if k > i {
                assert(text::before(l[i], l[k]));
            }
            assert(head[k] == x);
        }
        if head.contains(x) {
            let k = choose|k: int| 0 <= k < head.len() && head[k] == x;
            assert(l[k] == x);
            assert(text::before(l[k], l[i]));
        }
    }
    assert(elders(l.to_set(), l[i]) =~= head.to_set());
    lemma_ascending_distinct(l);
    assert forall|a: int, b: int|
        0 <= a < head.len() && 0 <= b < head.len() && a != b implies head[a] != head[b] by {
        assert(head[a] == l[a] && head[b] == l[b]);
    }
    head.unique_seq_to_set();
}

/// What is kept of a listing is what follows the oldest.
proof fn lemma_capped(l: Seq<Seq<char>>)
    requires
        ascending(l),
    ensures
        l.to_set().len() == l.len(),
        0 <= surplus(l.len()) <= l.len(),
        capped(l.to_set()) == l.skip(surplus(l.len())).to_set(),
        ascending(l.skip(surplus(l.len()))),
{
    let s = l.to_set();
    let drop = surplus(l.len());
    let kept = l.skip(drop);
    lemma_ascending_distinct(l);
    l.unique_seq_to_set();
    assert forall|x: Seq<char>| capped(s).contains(x) <==> kept.to_set().contains(x) by {
        if l.contains(x) {
            let k = choose|k: int| 0 <= k < l.len() && l[k] == x;
            lemma_elders(l, k);
            if k >= drop {
                assert(kept[k - drop] == x);
            } else if kept.contains(x) {
                let j = choose|j: int| 0 <= j < kept.len() && kept[j] == x;
                assert(l[j + drop] == l[k]);
            }
        }
        if kept.contains(x) {
            let j = choose|j: int| 0 <= j < kept.len() && kept[j] == x;
            assert(l[j + drop] == x);
        }
    }
    assert(capped(s) =~= kept.to_set());
    assert forall|i: int, j: int| 0 <= i < j < kept.len() implies text::before(
        #[trigger] kept[i],
        #[trigger] kept[j],
    ) by {
        assert(kept[i] == l[i + drop] && kept[j] == l[j + drop]);
    }
}

/// Within the limit all ids are kept. Over it the surplus goes, which leaves no
/// more than the limit, and what goes stands before what stays.
pub proof fn lemma_oldest_are_dropped(s: Set<Seq<char>>)
    requires
        s.finite(),
    ensures
        capped(s).finite(),
        capped(s).subset_of(s),
        capped(s).len() == s.len() - surplus(s.len()),
        capped(s).len() <= SEEN_LIMIT,
        s.len() <= SEEN_LIMIT ==> capped(s) == s,
        forall|gone: Seq<char>, kept: Seq<char>|
            s.contains(gone) && !capped(s).contains(gone) && capped(s).contains(kept)
                ==> #[trigger] text::before(gone, kept),
{
    let l = listing(s);
    lemma_listing_exists(s);
    lemma_capped(l);
    let drop = surplus(s.len());
    let rest = l.skip(drop);
    lemma_ascending_distinct(rest);
    rest.unique_seq_to_set();
    assert(s.len() <= SEEN_LIMIT ==> rest =~= l);
    assert forall|gone: Seq<char>, kept: Seq<char>|
        s.contains(gone) && !capped(s).contains(gone) && capped(s).contains(
            kept,
        ) implies #[trigger] text::before(gone, kept) by {
        assert(l.to_set().contains(gone));
        let i = choose|i: int| 0 <= i < l.len() && l[i] == gone;
        assert(rest.to_set().contains(kept));
        let j = choose|j: int| 0 <= j < rest.len() && rest[j] == kept;
        if i >= drop {
            assert(rest[i - drop] == gone);
            assert(rest.to_set().contains(gone));
        }
        assert(l[j + drop] == kept);
    }
}

/// The ids that a cursor lists; nothing if it is no JSON list of strings. Names
/// what `serde_json::from_slice` returns for a list of strings.
pub uninterp spec fn cursor_ids(cursor: Seq<u8>) -> Option<Seq<Seq<char>>>;

/// The cursor that lists ids. Names what `serde_json::to_vec` returns for a
/// list of strings.
pub uninterp spec fn cursor_bytes(ids: Seq<Seq<char>>) -> Seq<u8>;

/// The view of optional ids.
pub open spec fn id_list(ids: Option<Vec<String>>) -> Option<Seq<Seq<char>>> {
    match ids {
        Some(list) => Some(text::texts(list@)),
        None => None,
    }
}

/// Calls `serde_json::from_slice` for a list of strings. The result is
/// `cursor_ids` of the bytes; which bytes list what is not stated.
#[verifier::external_body]
fn parse_ids(cursor: &[u8]) -> (ids: Option<Vec<String>>)
    ensures
        id_list(ids) == cursor_ids(cursor@),
{
    serde_json::from_slice::<Vec<String>>(cursor).ok()
}

/// Calls `serde_json::to_vec` on a list of strings, which does not fail. The
/// result is `cursor_bytes` of the list, and reading it gives the list back.
#[verifier::external_body]
fn write_ids(ids: &Vec<String>) -> (cursor: Option<Vec<u8>>)
    ensures
        optional_bytes(cursor) == Some(cursor_bytes(text::texts(ids@))),
        cursor_ids(cursor->0@) == Some(text::texts(ids@)),
{
    serde_json::to_vec(ids).ok()
}

/// Why a text is no cursor. Names the reason in the error that
/// `TickRequest::cursor_bytes` of the `nexo-microapp-sdk` crate returns.
pub uninterp spec fn cursor_fault(cursor: Seq<char>) -> Seq<char>;

/// The bytes of the cursor that a request carries as text, base64 with or without
/// padding, or the reason why the text is no cursor.
pub open spec fn request_cursor(cursor: Option<Seq<char>>) -> Result<
    Option<Seq<u8>>,
    Seq<char>,
> {
    match cursor {
        None => Ok(None),
        Some(s) => match mime::base64_bytes(mime::unpadded(s)) {
            Some(bytes) => Ok(Some(bytes)),
            None => Err(cursor_fault(s)),
        },
    }
}

/// The bytes that the text of a cursor stands for, without its padding.
pub open spec fn cursor_data(cursor: Option<String>) -> Option<Seq<u8>> {
    mime::base64_bytes(mime::unpadded(cursor->0@))
}

/// The view of what was read of a request's cursor, without the job's name.
pub open spec fn read_view(read: Result<Option<Vec<u8>>, (String, String)>) -> Result<
    Option<Seq<u8>>,
    Seq<char>,
> {
    match read {
        Ok(bytes) => Ok(optional_bytes(bytes)),
        Err(fault) => Err(fault.1@),
    }
}

/// Calls `TickRequest::cursor_bytes` of the `nexo-microapp-sdk` crate on a
/// request of the job with the cursor. Without a cursor there are no bytes. With
/// one, the `base64` engine `URL_SAFE_NO_PAD` decodes it without its padding, so
/// that the bytes are those of `base64_bytes`; where there are none, the error is
/// one of the configuration, with the job's name and the reason `cursor_fault`.
#[verifier::external_body]
fn cursor_of_request(job: &str, cursor: &Option<String>) -> (read: Result<
    Option<Vec<u8>>,
    (String, String),
>)
    ensures
        cursor is None ==> read is Ok && read->Ok_0 is None,
        cursor is Some ==> (read is Ok) == (cursor_data(*cursor) is Some),
        cursor is Some && read is Ok ==> optional_bytes(read->Ok_0) == cursor_data(*cursor),
        read is Err ==> read->Err_0.0@ == job@,
        read is Err ==> read->Err_0.1@ == cursor_fault(cursor->0@),
{
    let request = nexo_microapp_sdk::poller::TickRequest {
        kind: String::new(),
        job_id: job.to_owned(),
        agent_id: String::new(),
        cursor: cursor.clone(),
        config: serde_json::Value::Null,
        now: String::new(),
        interval_hint_secs: 0,
    };
    request.cursor_bytes().map_err(|e| match e {
        nexo_poller::PollerError::Config { job, reason } => (job, reason),
        other => (job.to_owned(), other.to_string()),
    })
}

/// The ids that a job knows by what was read of its cursor: an error of the
/// configuration if the cursor could not be decoded.
pub open spec fn known_by(
    job: Seq<char>,
    read: Result<Option<Seq<u8>>, Seq<char>>,
) -> Result<Set<Seq<char>>, Failure> {
    match read {
        Ok(bytes) => Ok(remembered(bytes)),
        Err(reason) => Err(Failure::Config { job, reason }),
    }
}

/// The view of known ids.
pub open spec fn known_view(known: Result<SeenSet, PollerError>) -> Result<
    Set<Seq<char>>,
    Failure,
> {
    match known {
        Ok(ids) => Ok(ids@),
        Err(e) => Err(e@),
    }
}

/// The ids that a list holds; none if there is no list.
pub open spec fn listed(ids: Option<Seq<Seq<char>>>) -> Set<Seq<char>> {
    match ids {
        Some(list) => list.to_set(),
        None => Set::empty(),
    }
}

/// The ids that a job remembers by its cursor: none without one, or if it
/// cannot be read.
pub open spec fn remembered(cursor: Option<Seq<u8>>) -> Set<Seq<char>> {
    match cursor {
        Some(bytes) => listed(cursor_ids(bytes)),
        None => Set::empty(),
    }
}

/// The view of optional bytes.
pub open spec fn optional_bytes(found: Option<Vec<u8>>) -> Option<Seq<u8>> {
    match found {
        Some(bytes) => Some(bytes@),
        None => None,
    }
}

/// A set of message ids.
pub struct SeenSet {
    ids: Vec<String>,
}

impl View for SeenSet {
    type V = Set<Seq<char>>;

    closed spec fn view(&self) -> Set<Seq<char>> {
        text::texts(self.ids@).to_set()
    }
}

impl SeenSet {
    /// The ids are held in ascending order, each once.
    #[verifier::type_invariant]
    spec fn in_order(self) -> bool {
        ascending(text::texts(self.ids@))
    }

    /// No ids.
    pub fn new() -> (seen: SeenSet)
        ensures
            seen@ == Set::<Seq<char>>::empty(),
    {
        let seen = SeenSet { ids: Vec::new() };
        assert(seen@ =~= Set::<Seq<char>>::empty());
        seen
    }

    /// The position at which an id stands or belongs.
    fn place(ids: &Vec<String>, id: &str) -> (at: usize)
        requires
            ascending(text::texts(ids@)),
        ensures
            at <= ids@.len(),
            forall|k: int| 0 <= k < at ==> text::before(#[trigger] text::texts(ids@)[k], id@),
            forall|k: int|
                at <= k < ids@.len() ==> !text::before(#[trigger] text::texts(ids@)[k], id@),
    {
        let ghost all = text::texts(ids@);
        let mut low: usize = 0;
        let mut high: usize = ids.len();
        while low < high
            invariant
                all == text::texts(ids@),
                ascending(all),
                low <= high <= ids@.len(),
                forall|k: int| 0 <= k < low ==> text::before(#[trigger] all[k], id@),
                forall|k: int| high <= k < ids@.len() ==> !text::before(#[trigger] all[k], id@),
            decreases high - low,
        {
            let mid: usize = low + (high - low) / 2;
            assert(all[mid as int] == ids@[mid as int]@);
            if is_before(ids[mid].as_str(), id) {
                assert forall|k: int| 0 <= k < mid + 1 implies text::before(
                    #[trigger] all[k],
                    id@,
                ) by {
                    if k < mid {
                        text::lemma_before_transitive(all[k], all[mid as int], id@);
                    }
                }
                low = mid + 1;
            } else {
                assert forall|k: int| mid <= k < ids@.len() implies !text::before(
                    #[trigger] all[k],
                    id@,
                ) by {
                    if k > mid && text::before(all[k], id@) {
                        text::lemma_before_transitive(all[mid as int], all[k], id@);
                    }
                }
                high = mid;
            }
        }
        low
    }

    /// Whether an id is there.
    pub fn contains(&self, id: &str) -> (found: bool)
        ensures
            found == self@.contains(id@),
    {
        proof {
            use_type_invariant(&*self);
        }
        let ghost all = text::texts(self.ids@);
        let at = Self::place(&self.ids, id);
        proof {
            if all.contains(id@) {
                let k = choose|k: int| 0 <= k < all.len() && all[k] == id@;
                text::lemma_before_trichotomy(id@, id@);
                assert(k >= at);
                if k > at {
                    assert(text::before(all[at as int], all[k]));
                }
            }
        }
        if at < self.ids.len() && same_text(self.ids[at].as_str(), id) {
            assert(all[at as int] == id@);
            true
        } else {
            false
        }
    }

    /// Adds an id.
    pub fn insert(&mut self, id: String)
        ensures
            final(self)@ == old(self)@.insert(id@),
    {
        proof {
            use_type_invariant(&*self);
        }
        if self.contains(id.as_str()) {
            assert(self@.insert(id@) =~= self@);
            return ;
        }
        let ghost all = text::texts(self.ids@);
        let ghost new = id@;
        let mut ids: Vec<String> = Vec::new();
        let at = Self::place(&self.ids, id.as_str());
        assert(ascending(text::texts(ids@)));
        std::mem::swap(&mut ids, &mut self.ids);
        ids.insert(at, id);
        proof {
            assert forall|k: int| at <= k < all.len() implies text::before(
                new,
                #[trigger] all[k],
            ) by {
                text::lemma_before_trichotomy(all[k], new);
                assert(all.contains(all[k]));
                assert(all.to_set().contains(all[k]));
            }
            lemma_insert(all, at as int, new);
            assert(text::texts(ids@) =~= all.insert(at as int, new));
        }
        self.ids = ids;
    }

    /// The ids of a list that was read.
    pub fn from_ids(ids: Option<Vec<String>>) -> (seen: SeenSet)
        ensures
            seen@ == listed(id_list(ids)),
    {
        let mut seen = SeenSet::new();
        if let Some(list) = ids {
            let ghost all = text::texts(list@);
            let mut i: usize = 0;
            assert(all.take(0).to_set() =~= Set::<Seq<char>>::empty());
            while i < list.len()
                invariant
                    i <= list@.len(),
                    all == text::texts(list@),
                    seen@ == all.take(i as int).to_set(),
                decreases list@.len() - i,
            {
                proof {
                    assert(all.take(i + 1) =~= all.take(i as int).push(all[i as int]));
                    all.take(i as int).lemma_push_to_set_commute(all[i as int]);
                }
                seen.insert(list[i].clone());
                i += 1;
            }
            assert(all.take(i as int) =~= all);
        }
        seen
    }

    /// The ids that a cursor remembers.
    pub fn from_cursor(cursor: &Option<Vec<u8>>) -> (seen: SeenSet)
        ensures
            seen@ == remembered(optional_bytes(*cursor)),
    {
        match cursor {
            Some(bytes) => SeenSet::from_ids(parse_ids(bytes.as_slice())),
            None => SeenSet::new(),
        }
    }

    /// The cursor that remembers the ids.
    pub fn to_cursor(&self) -> (cursor: Option<Vec<u8>>)
        ensures
            optional_bytes(cursor) == Some(cursor_bytes(listing(self@))),
            cursor_ids(cursor_bytes(listing(self@))) == Some(listing(self@)),
            remembered(optional_bytes(cursor)) == self@,
    {
        proof {
            use_type_invariant(&*self);
            lemma_listing_exists(self@);
            lemma_listing_is_unique(listing(self@), text::texts(self.ids@));
        }
        write_ids(&self.ids)
    }

    /// How many ids there are.
    pub fn len(&self) -> (n: usize)
        ensures
            n == self@.len(),
            self@.finite(),
    {
        proof {
            use_type_invariant(&*self);
            lemma_ascending_distinct(text::texts(self.ids@));
            text::texts(self.ids@).unique_seq_to_set();
        }
        self.ids.len()
    }

    /// Drops the oldest ids if there are more than the limit. No more than the
    /// limit stay.
    pub fn cap(&mut self)
        ensures
            final(self)@ == capped(old(self)@),
            final(self)@.finite(),
            final(self)@.len() <= SEEN_LIMIT,
    {
        proof {
            use_type_invariant(&*self);
        }
        let ghost all = text::texts(self.ids@);
        proof {
            lemma_capped(all);
            lemma_oldest_are_dropped(all.to_set());
        }
        if self.ids.len() > SEEN_LIMIT {
            let over: usize = self.ids.len() - SEEN_LIMIT;
            let drop: usize = if over <= SEEN_DROP {
                SEEN_DROP
            } else {
                over
            };
            let mut ids: Vec<String> = Vec::new();
            assert(ascending(text::texts(ids@)));
            std::mem::swap(&mut ids, &mut self.ids);
            let kept = ids.split_off(drop);
            assert(text::texts(kept@) =~= all.skip(drop as int));
            self.ids = kept;
        }
    }
}

/// The job that the error of a cursor names.
pub open spec fn named_job(read: Result<Option<Vec<u8>>, (String, String)>) -> Seq<char> {
    match read {
        Ok(_) => seq![],
        Err(fault) => fault.0@,
    }
}

/// The ids that a job knows by what was read of its cursor: bytes, or the job and
/// the reason why there are none.
pub fn known_from(read: Result<Option<Vec<u8>>, (String, String)>) -> (known: Result<
    SeenSet,
    PollerError,
>)
    ensures
        known_view(known) == known_by(named_job(read), read_view(read)),
{
    match read {
        Ok(bytes) => Ok(SeenSet::from_cursor(&bytes)),
        Err((job, reason)) => Err(PollerError::Config { job, reason }),
    }
}

/// The ids that a job knows by the cursor of a request; none without one.
pub fn known_ids(job: &str, cursor: &Option<String>) -> (known: Result<SeenSet, PollerError>)
    ensures
        known_view(known) == known_by(job@, request_cursor(text::optional(*cursor))),
        cursor is None ==> known_view(known) == Ok::<Set<Seq<char>>, Failure>(Set::empty()),
{
    known_from(cursor_of_request(job, cursor))
}

/// A job remembers exactly the ids that its cursor lists, and none by a cursor
/// that cannot be read or is not there.
pub proof fn lemma_cursor_is_remembered(bytes: Seq<u8>, id: Seq<char>)
    ensures
        remembered(None) == Set::<Seq<char>>::empty(),
        cursor_ids(bytes) is None ==> remembered(Some(bytes)) == Set::<Seq<char>>::empty(),
        cursor_ids(bytes) matches Some(ids) ==> (remembered(Some(bytes)).contains(id) <==> exists|
            i: int,
        |
            0 <= i < ids.len() && #[trigger] ids[i] == id),
{
}

/// A request without a cursor knows nothing. One with a cursor that decodes knows
/// what the bytes list, with or without padding. One that does not decode is an
/// error of the job's configuration.
pub proof fn lemma_request_is_known_by_its_cursor(
    job: Seq<char>,
    data: Seq<char>,
    padding: Seq<char>,
)
    requires
        forall|k: int| 0 <= k < padding.len() ==> #[trigger] padding[k] == '=',
        data.len() > 0 ==> data.last() != '=',
    ensures
        known_by(job, request_cursor(None)) == Ok::<Set<Seq<char>>, Failure>(Set::empty()),
        mime::base64_bytes(data) matches Some(bytes) ==> known_by(
            job,
            request_cursor(Some(data + padding)),
        ) == Ok::<Set<Seq<char>>, Failure>(remembered(Some(bytes))),
        mime::base64_bytes(data) is None ==> (known_by(
            job,
            request_cursor(Some(data + padding)),
        ) matches Err(Failure::Config { job: named, .. }) && named == job),
{
    mime::lemma_unpadded(data, padding);
}

/// A set within the limit is kept whole; from a larger one a thousand of the oldest
/// go, or as many as it takes to be within the limit.
pub proof fn lemma_how_many_are_kept(s: Set<Seq<char>>)
    requires
        s.finite(),
    ensures
        s.len() <= 5000 ==> capped(s).len() == s.len(),
        5000 < s.len() <= 6000 ==> capped(s).len() == s.len() - 1000,
        s.len() > 6000 ==> capped(s).len() == 5000,
{
    lemma_oldest_are_dropped(s);
}

} // verus!
