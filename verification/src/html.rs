//! Reading text out of HTML.

use vstd::prelude::*;

use crate::text::chars_of;

verus! {

/// Whether position `i` of `s` lies in a tag: a `<` stands before it with no
/// `>` in between.
pub open spec fn inside_tag(s: Seq<char>, i: int) -> bool {
    exists|j: int|
        0 <= j < i && #[trigger] s[j] == '<' && forall|k: int| j < k < i ==> s[k] != '>'
}

/// Whether the character at `i` is text, neither an angle bracket nor inside a
/// tag.
pub open spec fn is_text(s: Seq<char>, i: int) -> bool {
    s[i] != '<' && s[i] != '>' && !inside_tag(s, i)
}

/// The characters of `s` that are text, in their order.
pub open spec fn stripped(s: Seq<char>) -> Seq<char>
    decreases s.len(),
{
    if s.len() == 0 {
        seq![]
    } else if is_text(s, s.len() - 1) {
        stripped(s.drop_last()).push(s.last())
    } else {
        stripped(s.drop_last())
    }
}

proof fn lemma_inside_tag_step(s: Seq<char>, i: int)
    requires
        0 <= i < s.len(),
    ensures
        inside_tag(s, i + 1) == (s[i] == '<' || (s[i] != '>' && inside_tag(s, i))),
{
    if inside_tag(s, i) && s[i] != '>' {
        let j = choose|j: int|
            0 <= j < i && #[trigger] s[j] == '<' && forall|k: int| j < k < i ==> s[k] != '>';
        assert(0 <= j < i + 1 && s[j] == '<' && forall|k: int| j < k < i + 1 ==> s[k] != '>');
    }
    if inside_tag(s, i + 1) && s[i] != '<' {
        let j = choose|j: int|
            0 <= j < i + 1 && #[trigger] s[j] == '<' && forall|k: int|
                j < k < i + 1 ==> s[k] != '>';
        assert(s[i] != '>');
        assert(0 <= j < i && s[j] == '<' && forall|k: int| j < k < i ==> s[k] != '>');
    }
}

/// Being inside a tag depends only on what comes before.
proof fn lemma_inside_tag_prefix(s: Seq<char>, t: Seq<char>, i: int)
    requires
        0 <= i <= s.len(),
        i <= t.len(),
        s.take(i) == t.take(i),
    ensures
        inside_tag(s, i) == inside_tag(t, i),
    decreases i,
{
    if i > 0 {
        assert(s.take(i - 1) =~= s.take(i).take(i - 1));
        assert(t.take(i - 1) =~= t.take(i).take(i - 1));
        assert(s[i - 1] == s.take(i)[i - 1]);
        assert(t[i - 1] == t.take(i)[i - 1]);
        lemma_inside_tag_prefix(s, t, i - 1);
        lemma_inside_tag_step(s, i - 1);
        lemma_inside_tag_step(t, i - 1);
    }
}

/// The text without its tags.
pub fn strip_html(s: &str) -> (out: String)
    ensures
        out@ == stripped(s@),
{
    let chars = chars_of(s);
    let mut out = String::new();
    let mut in_tag = false;
    let mut i: usize = 0;
    while i < chars.len()
        invariant
            chars@ == s@,
            i <= s@.len(),
            in_tag == inside_tag(s@, i as int),
            out@ == stripped(s@.take(i as int)),
        decreases s@.len() - i,
    {
        let ch = chars[i];
        proof {
            let next = s@.take(i + 1);
            assert(next.drop_last() =~= s@.take(i as int));
            assert(next.take(i as int) =~= s@.take(i as int));
            lemma_inside_tag_prefix(s@, next, i as int);
            lemma_inside_tag_step(s@, i as int);
        }
        if ch == '<' {
            in_tag = true;
        } else if ch == '>' {
            in_tag = false;
        } else if !in_tag {
            out.push(ch);
        }
        i += 1;
    }
    assert(s@.take(i as int) =~= s@);
    out
}

/// No angle bracket is left.
pub proof fn lemma_no_bracket_is_left(s: Seq<char>)
    ensures
        !stripped(s).contains('<'),
        !stripped(s).contains('>'),
    decreases s.len(),
{
    if s.len() > 0 {
        let rest = stripped(s.drop_last());
        lemma_no_bracket_is_left(s.drop_last());
        if is_text(s, s.len() - 1) {
            let all = stripped(s);
            assert forall|k: int| 0 <= k < all.len() implies all[k] != '<' && all[k] != '>' by {
                if k < rest.len() {
                    assert(rest.contains(rest[k]));
                }
            }
        }
    }
}

/// Text without angle brackets is kept as it is.
pub proof fn lemma_plain_text_is_kept(s: Seq<char>)
    requires
        !s.contains('<'),
        !s.contains('>'),
    ensures
        stripped(s) == s,
    decreases s.len(),
{
    if s.len() > 0 {
        let rest = s.drop_last();
        assert forall|k: int| 0 <= k < s.len() implies s[k] != '<' && s[k] != '>' by {
            assert(s.contains(s[k]));
        }
        lemma_plain_text_is_kept(rest);
        assert(rest.push(s.last()) =~= s);
    }
}

/// Stripping twice is stripping once.
pub proof fn lemma_strip_is_idempotent(s: Seq<char>)
    ensures
        stripped(stripped(s)) == stripped(s),
{
    lemma_no_bracket_is_left(s);
    lemma_plain_text_is_kept(stripped(s));
}

/// Once a tag has been closed, what follows is stripped on its own.
proof fn lemma_after_closed_tag(head: Seq<char>, tail: Seq<char>)
    requires
        head.len() > 0,
        head.last() == '>',
    ensures
        stripped(head + tail) == stripped(head) + stripped(tail),
        inside_tag(head + tail, (head + tail).len() as int) == inside_tag(tail, tail.len() as int),
    decreases tail.len(),
{
    let all = head + tail;
    if tail.len() == 0 {
        assert(all =~= head);
        lemma_inside_tag_step(head, head.len() - 1);
    } else {
        let n = all.len() - 1;
        let less = tail.drop_last();
        lemma_after_closed_tag(head, less);
        assert(all.drop_last() =~= head + less);
        assert(all.take(n) =~= all.drop_last());
        assert(all.drop_last().take(n) =~= all.drop_last());
        assert(tail.take(tail.len() - 1) =~= less);
        assert(less.take(tail.len() - 1) =~= less);
        lemma_inside_tag_prefix(all, all.drop_last(), n);
        lemma_inside_tag_prefix(tail, less, tail.len() - 1);
        lemma_inside_tag_step(all, n);
        lemma_inside_tag_step(tail, tail.len() - 1);
        assert(stripped(all) =~= stripped(head) + stripped(tail));
    }
}

proof fn lemma_open_tag_adds_nothing(head: Seq<char>, tag: Seq<char>)
    requires
        !tag.contains('>'),
    ensures
        stripped(head + seq!['<'] + tag) == stripped(head),
    decreases tag.len(),
{
    let all = head + seq!['<'] + tag;
    if tag.len() == 0 {
        assert(all.drop_last() =~= head);
    } else {
        let less = tag.drop_last();
        assert(!less.contains('>')) by {
            if less.contains('>') {
                let k = choose|k: int| 0 <= k < less.len() && less[k] == '>';
                assert(tag[k] == '>');
            }
        }
        lemma_open_tag_adds_nothing(head, less);
        assert(all.drop_last() =~= head + seq!['<'] + less);
        let j = head.len() as int;
        assert(all[j] == '<');
        assert forall|k: int| j < k < all.len() - 1 implies all[k] != '>' by {
            assert(all[k] == tag[k - j - 1]);
            assert(tag.contains(tag[k - j - 1]));
        }
        assert(inside_tag(all, all.len() - 1));
    }
}

/// A tag contributes nothing: what stands before it and what stands after it
/// are stripped each on its own.
pub proof fn lemma_tag_is_removed(head: Seq<char>, tag: Seq<char>, tail: Seq<char>)
    requires
        !tag.contains('>'),
    ensures
        stripped(head + seq!['<'] + tag + seq!['>'] + tail) == stripped(head) + stripped(tail),
{
    let open = head + seq!['<'] + tag;
    let closed = open + seq!['>'];
    lemma_open_tag_adds_nothing(head, tag);
    assert(closed.drop_last() =~= open);
    lemma_after_closed_tag(closed, tail);
}

/// A character at the end adds itself to the text, unless it is an angle bracket
/// or a bracket before it opened a tag that none has closed since.
pub proof fn lemma_characters_count_outside_of_tags(s: Seq<char>, ch: char)
    ensures
        stripped(s.push(ch)) == if ch == '<' || ch == '>' || exists|j: int|
            0 <= j < s.len() && #[trigger] s[j] == '<' && forall|k: int|
                j < k < s.len() ==> s[k] != '>' {
            stripped(s)
        } else {
            stripped(s).push(ch)
        },
{
    let all = s.push(ch);
    let n = s.len() as int;
    assert(all.drop_last() =~= s);
    assert(all.take(n) =~= s.take(n));
    lemma_inside_tag_prefix(s, all, n);
    assert(inside_tag(s, n) <==> exists|j: int|
        0 <= j < s.len() && #[trigger] s[j] == '<' && forall|k: int|
            j < k < s.len() ==> s[k] != '>');
}

/// Nothing is stripped to nothing.
pub proof fn lemma_empty_markup()
    ensures
        stripped(Seq::<char>::empty()) == Seq::<char>::empty(),
{
}

} // verus!
