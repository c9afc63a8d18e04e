//! Environment variables in the text of a configuration file.

use vstd::prelude::*;

verus! {

/// The value of a variable: the first that is listed under the name.
pub open spec fn value_of(variables: Seq<(Seq<char>, Seq<char>)>, name: Seq<char>) -> Option<
    Seq<char>,
>
    decreases variables.len(),
{
    if variables.len() == 0 {
        None
    } else if variables[0].0 == name {
        Some(variables[0].1)
    } else {
        value_of(variables.skip(1), name)
    }
}

/// Where the first closing brace stands, or the length.
pub open spec fn brace_at(text: Seq<char>) -> nat
    decreases text.len(),
{
    if text.len() == 0 || text[0] == '}' {
        0
    } else {
        1 + brace_at(text.skip(1))
    }
}

/// The name of the reference `${NAME}` at the front of a text, if there is one.
pub open spec fn reference(text: Seq<char>) -> Option<Seq<char>> {
    if text.len() >= 2 && text[0] == '$' && text[1] == '{' && brace_at(text.skip(2)) + 2
        < text.len() {
        Some(text.skip(2).take(brace_at(text.skip(2)) as int))
    } else {
        None
    }
}

/// A text with every reference to a known variable replaced by its value. A value
/// is not searched for references.
pub open spec fn expanded(text: Seq<char>, variables: Seq<(Seq<char>, Seq<char>)>) -> Seq<char>
    decreases text.len(),
{
    if text.len() == 0 {
        Seq::empty()
    } else {
        match reference(text) {
            Some(name) => match value_of(variables, name) {
                Some(value) => value + expanded(text.skip(name.len() as int + 3), variables),
                None => seq![text[0]] + expanded(text.skip(1), variables),
            },
            None => seq![text[0]] + expanded(text.skip(1), variables),
        }
    }
}

/// The views of a list of variables.
pub open spec fn variables_view(variables: Seq<(String, String)>) -> Seq<(Seq<char>, Seq<char>)> {
    variables.map_values(|v: (String, String)| (v.0@, v.1@))
}

/// Finds the value of a variable.
fn find_value(variables: &[(String, String)], name: &str) -> (value: Option<String>)
    ensures
        match value {
            Some(text) => value_of(variables_view(variables@), name@) == Some(text@),
            None => value_of(variables_view(variables@), name@) is None,
        },
{
    let ghost all = variables_view(variables@);
    let wanted: String = name.to_owned();
    let mut i: usize = 0;
    assert(all.skip(0) =~= all);
    while i < variables.len()
        invariant
            i <= variables@.len(),
            all == variables_view(variables@),
            wanted@ == name@,
            value_of(all, name@) == value_of(all.skip(i as int), name@),
        decreases variables.len() - i,
    {
        assert(all.skip(i as int)[0] == (variables@[i as int].0@, variables@[i as int].1@));
        assert(all.skip(i as int).skip(1) =~= all.skip(i + 1));
        if variables[i].0 == wanted {
            return Some(variables[i].1.clone());
        }
        i += 1;
    }
    None
}

/// Where the first closing brace at or after `from` stands, or the length.
fn find_brace(text: &str, len: usize, from: usize) -> (end: usize)
    requires
        len == text@.len(),
        from <= len,
    ensures
        from <= end <= len,
        end == from + brace_at(text@.skip(from as int)),
    decreases len - from,
{
    if from == len {
        return from;
    }
    assert(text@.skip(from as int)[0] == text@[from as int]);
    if text.get_char(from) == '}' {
        return from;
    }
    assert(text@.skip(from as int).skip(1) =~= text@.skip(from + 1));
    find_brace(text, len, from + 1)
}

/// The name of the reference at `from`, if there is one.
fn find_reference(text: &str, len: usize, from: usize) -> (found: Option<String>)
    requires
        len == text@.len(),
        from < len,
    ensures
        match found {
            Some(name) => reference(text@.skip(from as int)) == Some(name@),
            None => reference(text@.skip(from as int)) is None,
        },
{
    let ghost here = text@.skip(from as int);
    if len - from < 2 {
        return None;
    }
    assert(here[0] == text@[from as int]);
    assert(here[1] == text@[from + 1]);
    if text.get_char(from) != '$' || text.get_char(from + 1) != '{' {
        return None;
    }
    assert(here.skip(2) =~= text@.skip(from + 2));
    let end: usize = find_brace(text, len, from + 2);
    if end == len {
        return None;
    }
    let name: &str = text.substring_char(from + 2, end);
    assert(name@ =~= here.skip(2).take(brace_at(here.skip(2)) as int));
    Some(name.to_owned())
}

/// Replaces every reference to a known variable by its value. References to
/// unknown variables stay as they are.
pub fn substitute(text: &str, variables: &[(String, String)]) -> (result: String)
    ensures
        result@ == expanded(text@, variables_view(variables@)),
{
    let ghost all = variables_view(variables@);
    let ghost whole = expanded(text@, all);
    let len: usize = text.unicode_len();
    let mut result: String = String::new();
    let mut from: usize = 0;
    assert(text@.skip(0) =~= text@);
    assert(result@ + expanded(text@, all) =~= whole);
    while from < len
        invariant
            from <= len,
            len == text@.len(),
            all == variables_view(variables@),
            whole == result@ + expanded(text@.skip(from as int), all),
        decreases len - from,
    {
        let ghost here = text@.skip(from as int);
        let ghost before = result@;
        assert(here[0] == text@[from as int]);
        if let Some(name) = find_reference(text, len, from) {
            if let Some(value) = find_value(variables, name.as_str()) {
                let width: usize = name.as_str().unicode_len() + 3;
                assert(here.skip(name@.len() as int + 3) =~= text@.skip(from + width));
                result.append(value.as_str());
                assert(before + (value@ + expanded(text@.skip(from + width), all)) =~= result@
                    + expanded(text@.skip(from + width), all));
                from += width;
                continue;
            }
        }
        assert(here.skip(1) =~= text@.skip(from + 1));
        result.push(text.get_char(from));
        assert(before + (seq![here[0]] + expanded(text@.skip(from + 1), all)) =~= result@
            + expanded(text@.skip(from + 1), all));
        from += 1;
    }
    assert(text@.skip(from as int) =~= Seq::empty());
    assert(result@ + Seq::empty() =~= result@);
    result
}

/// A text without references stays as it is.
pub proof fn law_plain_text_is_kept(text: Seq<char>, variables: Seq<(Seq<char>, Seq<char>)>)
    requires
        forall|i: int| 0 <= i < text.len() ==> text[i] != '$',
    ensures
        expanded(text, variables) == text,
    decreases text.len(),
{
    if text.len() > 0 {
        let rest = text.skip(1);
        assert forall|i: int| 0 <= i < rest.len() implies rest[i] != '$' by {
            assert(rest[i] == text[i + 1]);
        }
        law_plain_text_is_kept(rest, variables);
        assert(seq![text[0]] + rest =~= text);
    }
    assert(expanded(text, variables) =~= text);
}

/// A reference to a known variable is replaced by its value.
pub proof fn law_reference_is_replaced(
    name: Seq<char>,
    rest: Seq<char>,
    variables: Seq<(Seq<char>, Seq<char>)>,
)
    requires
        forall|i: int| 0 <= i < name.len() ==> name[i] != '}',
        value_of(variables, name) is Some,
    ensures
        expanded(seq!['$', '{'] + name + seq!['}'] + rest, variables) == value_of(
            variables,
            name,
        )->0 + expanded(rest, variables),
{
    let text = seq!['$', '{'] + name + seq!['}'] + rest;
    assert(text.skip(2) =~= name + (seq!['}'] + rest));
    lemma_brace_after(name, seq!['}'] + rest);
    assert(text.skip(2).take(name.len() as int) =~= name);
    assert(text.skip(name.len() as int + 3) =~= rest);
}

/// The first brace stands after a name without one.
proof fn lemma_brace_after(name: Seq<char>, rest: Seq<char>)
    requires
        forall|i: int| 0 <= i < name.len() ==> name[i] != '}',
        rest.len() > 0,
        rest[0] == '}',
    ensures
        brace_at(name + rest) == name.len(),
    decreases name.len(),
{
    let text = name + rest;
    if name.len() > 0 {
        let shorter = name.skip(1);
        assert forall|i: int| 0 <= i < shorter.len() implies shorter[i] != '}' by {
            assert(shorter[i] == name[i + 1]);
        }
        assert(text.skip(1) =~= shorter + rest);
        lemma_brace_after(shorter, rest);
    } else {
        assert(text =~= rest);
    }
}

} // verus!
