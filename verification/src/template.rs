//! Templates with `{field}` placeholders.

use vstd::prelude::*;
use vstd::string::*;

use crate::fields::Fields;
use crate::text::{chars_of, text_of};

verus! {

/// The position of the first `}` in `t`, or the length of `t` if it has none.
pub open spec fn closing(t: Seq<char>) -> nat
    decreases t.len(),
{
    if t.len() == 0 || t[0] == '}' {
        0
    } else {
        1 + closing(t.skip(1))
    }
}

/// Whether `t` starts with a placeholder, which reaches to the first `}`, and
/// names a field.
pub open spec fn starts_with_field(t: Seq<char>, fields: Map<Seq<char>, Seq<char>>) -> bool {
    &&& t.len() > 0
    &&& t[0] == '{'
    &&& closing(t) < t.len()
    &&& fields.contains_key(t.subrange(1, closing(t) as int))
}

/// The template `t` with each placeholder that names a field replaced by the
/// field's text, and everything else as it stands. Text that was put in is not
/// searched again.
pub open spec fn render(t: Seq<char>, fields: Map<Seq<char>, Seq<char>>) -> Seq<char>
    decreases t.len(),
{
    if t.len() == 0 {
        seq![]
    } else if starts_with_field(t, fields) {
        fields[t.subrange(1, closing(t) as int)] + render(t.skip(closing(t) + 1int), fields)
    } else {
        seq![t[0]] + render(t.skip(1), fields)
    }
}

proof fn lemma_closing(t: Seq<char>)
    ensures
        0 <= closing(t) <= t.len(),
        closing(t) < t.len() ==> t[closing(t) as int] == '}',
        forall|k: int| 0 <= k < closing(t) ==> t[k] != '}',
    decreases t.len(),
{
    if t.len() > 0 && t[0] != '}' {
        lemma_closing(t.skip(1));
        assert forall|k: int| 0 <= k < closing(t) implies t[k] != '}' by {
            if k > 0 {
                assert(t[k] == t.skip(1)[k - 1]);
            }
        }
    }
}

proof fn lemma_closing_at(t: Seq<char>, at: int)
    requires
        0 <= at <= t.len(),
        at < t.len() ==> t[at] == '}',
        forall|k: int| 0 <= k < at ==> t[k] != '}',
    ensures
        closing(t) == at,
    decreases t.len(),
{
    if at > 0 {
        assert(t[0] != '}');
        assert forall|k: int| 0 <= k < at - 1 implies t.skip(1)[k] != '}' by {
            assert(t[k + 1] != '}');
        }
        lemma_closing_at(t.skip(1), at - 1);
    }
}

/// The position of the first `}` at or after `from`.
fn find_closing(template: &Vec<char>, from: usize) -> (at: usize)
    requires
        from <= template@.len(),
    ensures
        at == from + closing(template@.skip(from as int)),
        from <= at <= template@.len(),
{
    let mut at: usize = from;
    while at < template.len() && template[at] != '}'
        invariant
            from <= at <= template@.len(),
            forall|k: int| from <= k < at ==> template@[k] != '}',
        decreases template@.len() - at,
    {
        at += 1;
    }
    proof {
        lemma_closing_at(template@.skip(from as int), at - from);
    }
    at
}

/// The template with each placeholder that names a field replaced by the
/// field's text. A placeholder that names no field is kept as it is.
pub fn render_template(template: &str, fields: &Fields) -> (out: String)
    ensures
        out@ == render(template@, fields@),
{
    let chars = chars_of(template);
    let mut out = String::new();
    let mut i: usize = 0;
    assert(template@.skip(0) =~= template@);
    while i < chars.len()
        invariant
            chars@ == template@,
            i <= template@.len(),
            render(template@, fields@) =~= out@ + render(template@.skip(i as int), fields@),
        decreases template@.len() - i,
    {
        let ghost rest = template@.skip(i as int);
        if chars[i] == '{' {
            let end = find_closing(&chars, i + 1);
            proof {
                lemma_closing(rest.skip(1));
                assert(rest.skip(1) =~= template@.skip(i + 1));
                assert(closing(rest) == end - i);
            }
            if end < chars.len() {
                let key = text_of(&chars, i + 1, end);
                assert(key@ =~= rest.subrange(1, closing(rest) as int));
                if let Some(value) = fields.get(key.as_str()) {
                    out.append(value.as_str());
                    assert(rest.skip(closing(rest) + 1int) =~= template@.skip(end + 1));
                    i = end + 1;
                    continue ;
                }
            }
        }
        out.push(chars[i]);
        assert(rest.skip(1) =~= template@.skip(i + 1));
        i += 1;
    }
    out
}

/// A placeholder that names a field stands for the field's text, whatever
/// that text holds, and the rest of the template is rendered on its own.
pub proof fn lemma_field_is_substituted(
    name: Seq<char>,
    rest: Seq<char>,
    fields: Map<Seq<char>, Seq<char>>,
)
    requires
        fields.contains_key(name),
        !name.contains('}'),
    ensures
        render(seq!['{'] + name + seq!['}'] + rest, fields) == fields[name] + render(rest, fields),
{
    let t = seq!['{'] + name + seq!['}'] + rest;
    assert forall|k: int| 0 <= k < 1 + name.len() implies t[k] != '}' by {
        if k > 0 {
            assert(t[k] == name[k - 1]);
        }
    }
    lemma_closing_at(t, 1 + name.len() as int);
    assert(t.subrange(1, closing(t) as int) =~= name);
    assert(t.skip(closing(t) + 1int) =~= rest);
}

/// Text without an opening brace is copied, and what follows it is rendered on
/// its own.
pub proof fn lemma_literal_is_copied(
    literal: Seq<char>,
    rest: Seq<char>,
    fields: Map<Seq<char>, Seq<char>>,
)
    requires
        !literal.contains('{'),
    ensures
        render(literal + rest, fields) == literal + render(rest, fields),
    decreases literal.len(),
{
    let t = literal + rest;
    if literal.len() == 0 {
        assert(t =~= rest);
        assert(literal + render(rest, fields) =~= render(rest, fields));
    } else {
        let tail = literal.skip(1);
        assert(literal.contains(literal[0]));
        assert(t[0] == literal[0]);
        assert(t.skip(1) =~= tail + rest);
        assert(!tail.contains('{')) by {
            if tail.contains('{') {
                let k = choose|k: int| 0 <= k < tail.len() && tail[k] == '{';
                assert(literal[k + 1] == '{');
            }
        }
        lemma_literal_is_copied(tail, rest, fields);
        assert(seq![t[0]] + (tail + render(rest, fields)) =~= literal + render(rest, fields));
    }
}

/// A template in which no placeholder names a field is rendered as it stands.
pub proof fn lemma_unknown_placeholders_are_kept(t: Seq<char>, fields: Map<Seq<char>, Seq<char>>)
    requires
        forall|k: int| 0 <= k < t.len() ==> !starts_with_field(#[trigger] t.skip(k), fields),
    ensures
        render(t, fields) == t,
    decreases t.len(),
{
    if t.len() > 0 {
        assert(t.skip(0) =~= t);
        let tail = t.skip(1);
        assert forall|k: int| 0 <= k < tail.len() implies !starts_with_field(
            #[trigger] tail.skip(k),
            fields,
        ) by {
            assert(tail.skip(k) =~= t.skip(k + 1));
        }
        lemma_unknown_placeholders_are_kept(tail, fields);
        assert(seq![t[0]] + tail =~= t);
    }
}

/// An opening brace that starts no placeholder, because no brace closes it or
/// because what it encloses is no field, is copied, and what follows it is
/// rendered on its own: a later placeholder is still replaced.
pub proof fn lemma_lone_brace_is_copied(
    rest: Seq<char>,
    fields: Map<Seq<char>, Seq<char>>,
    end: int,
)
    requires
        0 <= end <= rest.len(),
        forall|k: int| 0 <= k < end ==> rest[k] != '}',
        end < rest.len() ==> rest[end] == '}' && !fields.contains_key(rest.take(end)),
    ensures
        render(seq!['{'] + rest, fields) == seq!['{'] + render(rest, fields),
{
    let t = seq!['{'] + rest;
    assert forall|k: int| 0 <= k < end + 1 implies t[k] != '}' by {
        if k > 0 {
            assert(t[k] == rest[k - 1]);
        }
    }
    lemma_closing_at(t, end + 1);
    assert(t.skip(1) =~= rest);
    if end < rest.len() {
        assert(t.subrange(1, end + 1) =~= rest.take(end));
    }
}

/// Nothing is rendered as nothing.
pub proof fn lemma_empty_template(fields: Map<Seq<char>, Seq<char>>)
    ensures
        render(Seq::<char>::empty(), fields) == Seq::<char>::empty(),
{
}

/// What a template is rendered to rests on the fields that it names only: with
/// the same fields it is the same.
pub proof fn lemma_other_fields_do_not_matter(
    t: Seq<char>,
    fields: Map<Seq<char>, Seq<char>>,
    name: Seq<char>,
    value: Seq<char>,
)
    requires
        forall|i: int, j: int| 0 <= i <= j <= t.len() ==> #[trigger] t.subrange(i, j) != name,
    ensures
        render(t, fields.insert(name, value)) == render(t, fields),
    decreases t.len(),
{
    let more = fields.insert(name, value);
    if t.len() > 0 {
        lemma_closing(t);
        if t[0] == '{' && closing(t) < t.len() {
            assert(closing(t) > 0);
            assert(t.subrange(1, closing(t) as int) != name);
        }
        assert(starts_with_field(t, more) == starts_with_field(t, fields));
        let step = if starts_with_field(t, fields) {
            closing(t) + 1int
        } else {
            1
        };
        let rest = t.skip(step);
        assert forall|i: int, j: int| 0 <= i <= j <= rest.len() implies #[trigger] rest.subrange(
            i,
            j,
        ) != name by {
            assert(rest.subrange(i, j) =~= t.subrange(i + step, j + step));
        }
        lemma_other_fields_do_not_matter(rest, fields, name, value);
    }
}

} // verus!
