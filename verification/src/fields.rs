//! The fields that a user fills in: one for each variable of a template.

use crate::models::{Field, FieldView, Token, TokenView};
use crate::text::is_space;
use crate::tokens::{braced, described_name_is_variable, is_plain, pieces, tokens_fit};
use vstd::prelude::*;

verus! {

/// The text shown beside a field's input: the variable's name, followed by
/// its description in round brackets where it has one that is not empty.
pub open spec fn label_of(name: Seq<char>, desc: Option<Seq<char>>) -> Seq<char> {
    match desc {
        Some(d) => if d.len() > 0 {
            name + seq![' ', '('] + d + seq![')']
        } else {
            name
        },
        None => name,
    }
}

/// Whether one of `fields` has the name `name`.
pub open spec fn has_field(fields: Seq<FieldView>, name: Seq<char>) -> bool {
    exists|i: int| 0 <= i < fields.len() && (#[trigger] fields[i]).name == name
}

/// The field that a variable placeholder asks for, not yet filled in.
pub open spec fn field_for(name: Seq<char>, desc: Option<Seq<char>>) -> FieldView {
    FieldView { name, label: label_of(name, desc), value: Seq::empty() }
}

/// The fields of `tokens`: going through the tokens in order, each variable
/// whose name has no field yet adds one.
pub open spec fn fields_of(tokens: Seq<TokenView>) -> Seq<FieldView>
    decreases tokens.len(),
{
    if tokens.len() == 0 {
        Seq::empty()
    } else {
        let before = fields_of(tokens.drop_last());
        match tokens.last() {
            TokenView::Var { name, desc, .. } => if has_field(before, name) {
                before
            } else {
                before.push(field_for(name, desc))
            },
            _ => before,
        }
    }
}

/// Whether one of `fields` has the name `name`.
fn contains_name(fields: &Vec<Field>, name: &String) -> (found: bool)
    ensures
        found == has_field(fields.deep_view(), name@),
{
    let mut i: usize = 0;
    while i < fields.len()
        invariant
            i <= fields@.len(),
            forall|j: int| 0 <= j < i ==> fields.deep_view()[j].name != name@,
        decreases fields@.len() - i,
    {
        if fields[i].name == *name {
            assert(fields.deep_view()[i as int].name == name@);
            return true;
        }
        i += 1;
    }
    false
}

/// The label of the field for the variable `name` with the description `desc`.
fn make_label(name: &String, desc: &Option<String>) -> (label: String)
    ensures
        label@ == label_of(name@, desc.deep_view()),
{
    let mut label = name.clone();
    match desc {
        Some(d) => {
            if !d.as_str().is_empty() {
                label.push(' ');
                label.push('(');
                label.append(d.as_str());
                label.push(')');
                assert(label@ =~= name@ + seq![' ', '('] + d@ + seq![')']);
            }
        },
        None => {},
    }
    label
}

/// The fields that `tokens` ask for: one for each variable name, in the order
/// in which the names first occur, labelled from that first occurrence, and
/// with nothing filled in.
pub fn collect_fields(tokens: &[Token]) -> (fields: Vec<Field>)
    ensures
        fields.deep_view() == fields_of(tokens.deep_view()),
{
    let mut fields: Vec<Field> = Vec::new();
    let mut i: usize = 0;
    assert(tokens.deep_view().take(0) =~= Seq::<TokenView>::empty());
    assert(fields.deep_view() =~= Seq::<FieldView>::empty());
    while i < tokens.len()
        invariant
            i <= tokens@.len(),
            fields.deep_view() == fields_of(tokens.deep_view().take(i as int)),
        decreases tokens@.len() - i,
    {
        let ghost before = fields.deep_view();
        assert(tokens.deep_view().take(i + 1).drop_last() =~= tokens.deep_view().take(i as int));
        assert(tokens.deep_view().take(i + 1).last() == tokens@[i as int]@);
        match &tokens[i] {
            Token::Var { name, desc, .. } => {
                if !contains_name(&fields, name) {
                    let label = make_label(name, desc);
                    fields.push(Field { name: name.clone(), label, value: String::new() });
                    assert(fields.deep_view() =~= before.push(
                        field_for(name@, desc.deep_view()),
                    ));
                }
            },
            _ => {},
        }
        i += 1;
    }
    assert(tokens.deep_view().take(i as int) =~= tokens.deep_view());
    fields
}

/// Whether `token` is a variable named `name`.
pub open spec fn is_var_named(token: TokenView, name: Seq<char>) -> bool {
    token matches TokenView::Var { name: n, .. } && n == name
}

/// The position of the token from which field `k` of `tokens` stems.
pub open spec fn origin(tokens: Seq<TokenView>, k: int) -> int
    decreases tokens.len(),
{
    if tokens.len() == 0 {
        0
    } else if k < fields_of(tokens.drop_last()).len() {
        origin(tokens.drop_last(), k)
    } else {
        tokens.len() - 1
    }
}

/// Every field stems from a variable: the first one of its name, whose
/// name and description make the field, with nothing filled in. Fields stand
/// in the order of those first occurrences, every variable has its field,
/// and no two fields share a name.
pub proof fn fields_follow_first_occurrences(tokens: Seq<TokenView>)
    ensures
        forall|k: int|
            0 <= k < fields_of(tokens).len() ==> {
                let i = #[trigger] origin(tokens, k);
                &&& 0 <= i < tokens.len()
                &&& tokens[i] matches TokenView::Var { name, desc, .. }
                &&& fields_of(tokens)[k] == field_for(name, desc)
                &&& forall|j: int| 0 <= j < i ==> !is_var_named(#[trigger] tokens[j], name)
            },
        forall|k: int, l: int|
            0 <= k < l < fields_of(tokens).len() ==> #[trigger] origin(tokens, k) < #[trigger] origin(
                tokens,
                l,
            ),
        forall|i: int|
            0 <= i < tokens.len() ==> (#[trigger] tokens[i] matches TokenView::Var { name, .. }
                ==> has_field(fields_of(tokens), name)),
        forall|k: int, l: int|
            0 <= k < l < fields_of(tokens).len() ==> (#[trigger] fields_of(tokens)[k]).name != (
            #[trigger] fields_of(tokens)[l]).name,
    decreases tokens.len(),
{
    if tokens.len() > 0 {
        let head = tokens.drop_last();
        let before = fields_of(head);
        let after = fields_of(tokens);
        let last = tokens.len() - 1;
        fields_follow_first_occurrences(head);
        assert forall|j: int| 0 <= j < last implies tokens[j] == head[j] by {}
        assert forall|k: int| 0 <= k < before.len() implies after[k] == before[k] by {}
        assert forall|k: int| 0 <= k < before.len() implies origin(tokens, k) == origin(
            head,
            k,
        ) && origin(head, k) < last by {}
        assert forall|k: int| 0 <= k < after.len() implies {
            let i = #[trigger] origin(tokens, k);
            &&& 0 <= i < tokens.len()
            &&& tokens[i] matches TokenView::Var { name, desc, .. }
            &&& after[k] == field_for(name, desc)
            &&& forall|j: int| 0 <= j < i ==> !is_var_named(#[trigger] tokens[j], name)
        } by {
            if k < before.len() {
                let i = origin(head, k);
                assert(tokens[i] == head[i]);
            } else {
                assert(after.len() == before.len() + 1);
                assert(tokens[last] matches TokenView::Var { name, desc, .. } && !has_field(
                    before,
                    name,
                ));
                let name = tokens[last]->Var_name;
                assert forall|j: int| 0 <= j < last implies !is_var_named(
                    #[trigger] tokens[j],
                    name,
                ) by {
                    if is_var_named(tokens[j], name) {
                        assert(head[j] matches TokenView::Var { name: n, .. } && n == name);
                        assert(has_field(before, name));
                    }
                }
            }
        }
        assert forall|i: int| 0 <= i < tokens.len() implies (#[trigger] tokens[i] matches TokenView::Var {
            name,
            ..
        } ==> has_field(after, name)) by {
            if tokens[i] is Var {
                let name = tokens[i]->Var_name;
                if i < last {
                    assert(head[i] matches TokenView::Var { name: n, .. } && n == name);
                    let k = choose|k: int| 0 <= k < before.len() && (#[trigger] before[k]).name == name;
                    assert(after[k].name == name);
                } else if has_field(before, name) {
                    let k = choose|k: int| 0 <= k < before.len() && (#[trigger] before[k]).name == name;
                    assert(after[k].name == name);
                } else {
                    assert(after[before.len() as int].name == name);
                }
            }
        }
        assert forall|k: int, l: int| 0 <= k < l < after.len() implies (#[trigger] after[k]).name != (
        #[trigger] after[l]).name by {
            if l >= before.len() {
                assert(before[k].name == after[k].name);
            }
        }
    }
}

/// Nothing is filled in to begin with.
pub proof fn fields_start_empty(tokens: Seq<TokenView>)
    ensures
        forall|k: int|
            0 <= k < fields_of(tokens).len() ==> (#[trigger] fields_of(tokens)[k]).value.len() == 0,
    decreases tokens.len(),
{
    if tokens.len() > 0 {
        let before = fields_of(tokens.drop_last());
        fields_start_empty(tokens.drop_last());
        assert forall|k: int| 0 <= k < fields_of(tokens).len() implies (#[trigger] fields_of(
            tokens,
        )[k]).value.len() == 0 by {
            if k < before.len() {
                assert(fields_of(tokens)[k] == before[k]);
            }
        }
    }
}

/// The same tokens give the same fields, however often they are asked.
pub proof fn fields_are_repeatable(
    tokens: Seq<TokenView>,
    first: Seq<FieldView>,
    second: Seq<FieldView>,
)
    requires
        first == fields_of(tokens),
        second == fields_of(tokens),
    ensures
        first == second,
        fields_of(tokens).len() <= tokens.len(),
    decreases tokens.len(),
{
    if tokens.len() > 0 {
        let head = tokens.drop_last();
        fields_are_repeatable(head, fields_of(head), fields_of(head));
    }
}

/// A body that is one variable with a description gives one field, whose
/// label is the name, a blank, and the description in round brackets.
pub proof fn described_variable_gives_label(
    name: Seq<char>,
    desc: Seq<char>,
    tokens: Seq<TokenView>,
)
    requires
        is_plain(name),
        name != seq!['r', 'a', 'n', 'd', 'o', 'm'],
        desc.len() > 0,
        !is_space(desc[0]),
        !is_space(desc.last()),
        forall|i: int| 0 <= i < desc.len() ==> desc[i] != '}',
        tokens_fit(tokens, pieces(braced(name + seq!['|'] + desc))),
    ensures
        fields_of(tokens) == seq![
            FieldView {
                name,
                label: name + seq![' ', '('] + desc + seq![')'],
                value: Seq::empty(),
            },
        ],
{
    described_name_is_variable(name, desc);
    let raw = braced(name + seq!['|'] + desc);
    assert(tokens.len() == 1);
    assert(tokens[0] == (TokenView::Var { name, desc: Some(desc), raw }));
    assert(tokens.drop_last() =~= Seq::<TokenView>::empty());
    assert(fields_of(tokens.drop_last()) =~= Seq::<FieldView>::empty());
    assert(!has_field(fields_of(tokens.drop_last()), name));
    assert(fields_of(tokens) =~= seq![field_for(name, Some(desc))]);
}

} // verus!
