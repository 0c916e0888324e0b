//! Rendering: tokens and the values of the fields become the final text.

use crate::models::{Field, FieldView, Token, TokenView};
use crate::text::trimmed;
use crate::tokens::{
    braced, braced_is_one_piece, classify, is_plain, options_are_not_empty, pieces,
    pieces_cover_body, plain_name_is_variable, random_prefix, span, spans, token_fits, tokens_fit,
    Piece,
};
use vstd::prelude::*;

verus! {

/// The value of the first of `fields` that is named `name`; the empty text
/// where there is no such field.
pub open spec fn value_of(fields: Seq<FieldView>, name: Seq<char>) -> Seq<char>
    decreases fields.len(),
{
    if fields.len() == 0 {
        Seq::empty()
    } else if fields[0].name == name {
        fields[0].value
    } else {
        value_of(fields.drop_first(), name)
    }
}

/// The text that one token contributes. A placeholder without a value shows
/// as it stands in the body.
pub open spec fn resolve(token: TokenView, fields: Seq<FieldView>) -> Seq<char> {
    match token {
        TokenView::Text(text) => text,
        TokenView::Var { name, raw, .. } => if value_of(fields, name).len() > 0 {
            value_of(fields, name)
        } else {
            raw
        },
        TokenView::Random { choice, raw, .. } => if choice.len() > 0 {
            choice
        } else {
            raw
        },
    }
}

/// The text that `tokens` render to: what each contributes, in order.
pub open spec fn render(tokens: Seq<TokenView>, fields: Seq<FieldView>) -> Seq<char>
    decreases tokens.len(),
{
    if tokens.len() == 0 {
        Seq::empty()
    } else {
        render(tokens.drop_last(), fields) + resolve(tokens.last(), fields)
    }
}

/// The value of the first of `fields` that is named `name`, if there is one.
fn lookup<'a>(fields: &'a [Field], name: &String) -> (value: Option<&'a String>)
    ensures
        match value {
            Some(v) => v@ == value_of(fields.deep_view(), name@),
            None => value_of(fields.deep_view(), name@).len() == 0,
        },
{
    let mut i: usize = 0;
    assert(fields.deep_view().skip(0) =~= fields.deep_view());
    while i < fields.len()
        invariant
            i <= fields@.len(),
            value_of(fields.deep_view(), name@) == value_of(
                fields.deep_view().skip(i as int),
                name@,
            ),
        decreases fields@.len() - i,
    {
        if fields[i].name == *name {
            return Some(&fields[i].value);
        }
        assert(fields.deep_view().skip(i as int).drop_first() =~= fields.deep_view().skip(i + 1));
        i += 1;
    }
    None
}

/// The text of a template whose tokens are `tokens`, with the values of
/// `fields` filled in.
///
/// Literal text stands as it is. A variable shows the value of the first
/// field with its name, a random choice its selected option. A placeholder
/// for which that is empty or missing shows as it stands in the body.
pub fn render_template(tokens: &[Token], fields: &[Field]) -> (output: String)
    ensures
        output@ == render(tokens.deep_view(), fields.deep_view()),
{
    let mut output = String::new();
    let mut i: usize = 0;
    assert(tokens.deep_view().take(0) =~= Seq::<TokenView>::empty());
    while i < tokens.len()
        invariant
            i <= tokens@.len(),
            output@ == render(tokens.deep_view().take(i as int), fields.deep_view()),
        decreases tokens@.len() - i,
    {
        assert(tokens.deep_view().take(i + 1).drop_last() =~= tokens.deep_view().take(i as int));
        assert(tokens.deep_view().take(i + 1).last() == tokens@[i as int]@);
        match &tokens[i] {
            Token::Text(text) => {
                output.append(text.as_str());
            },
            Token::Var { name, raw, .. } => {
                match lookup(fields, name) {
                    Some(value) => {
                        if value.as_str().is_empty() {
                            output.append(raw.as_str());
                        } else {
                            output.append(value.as_str());
                        }
                    },
                    None => {
                        output.append(raw.as_str());
                    },
                }
            },
            Token::Random { choice, raw, .. } => {
                if choice.as_str().is_empty() {
                    output.append(raw.as_str());
                } else {
                    output.append(choice.as_str());
                }
            },
        }
        i += 1;
    }
    assert(tokens.deep_view().take(i as int) =~= tokens.deep_view());
    output
}

/// Where no field has a value, no name has one.
proof fn lemma_unset_has_no_value(fields: Seq<FieldView>, name: Seq<char>)
    requires
        forall|k: int| 0 <= k < fields.len() ==> (#[trigger] fields[k]).value.len() == 0,
    ensures
        value_of(fields, name).len() == 0,
    decreases fields.len(),
{
    if fields.len() > 0 && fields[0].name != name {
        let rest = fields.drop_first();
        assert forall|k: int| 0 <= k < rest.len() implies (#[trigger] rest[k]).value.len() == 0 by {
            assert(rest[k] == fields[k + 1]);
        }
        lemma_unset_has_no_value(rest, name);
    }
}

/// With no field filled in, tokens without a random choice render to the
/// parts of the body that they stand for.
proof fn lemma_unset_render_is_spans(
    tokens: Seq<TokenView>,
    parts: Seq<Piece>,
    fields: Seq<FieldView>,
)
    requires
        tokens_fit(tokens, parts),
        forall|i: int| 0 <= i < parts.len() ==> !(#[trigger] parts[i] is Random),
        forall|k: int| 0 <= k < fields.len() ==> (#[trigger] fields[k]).value.len() == 0,
    ensures
        render(tokens, fields) == spans(parts),
    decreases tokens.len(),
{
    if tokens.len() > 0 {
        let last = tokens.len() - 1;
        assert(token_fits(tokens[last], parts[last]));
        assert(!(parts[last] is Random));
        match parts.last() {
            Piece::Var { name, .. } => {
                lemma_unset_has_no_value(fields, name);
            },
            _ => {},
        }
        assert(resolve(tokens.last(), fields) == span(parts.last()));
        assert forall|i: int| 0 <= i < last implies token_fits(
            #[trigger] tokens.drop_last()[i],
            parts.drop_last()[i],
        ) && !(parts.drop_last()[i] is Random) by {
            assert(token_fits(tokens[i], parts[i]));
            assert(!(parts[i] is Random));
        }
        lemma_unset_render_is_spans(tokens.drop_last(), parts.drop_last(), fields);
    }
}

/// With every field left unset, the tokens of a body without a random
/// choice render to the body again, character for character.
pub proof fn unfilled_render_is_body(
    body: Seq<char>,
    tokens: Seq<TokenView>,
    fields: Seq<FieldView>,
)
    requires
        tokens_fit(tokens, pieces(body)),
        forall|i: int| 0 <= i < pieces(body).len() ==> !(#[trigger] pieces(body)[i] is Random),
        forall|k: int| 0 <= k < fields.len() ==> (#[trigger] fields[k]).value.len() == 0,
    ensures
        render(tokens, fields) == body,
{
    lemma_unset_render_is_spans(tokens, pieces(body), fields);
    pieces_cover_body(body);
}

/// A body that is one plain name between braces is one variable of that
/// name without a description. It renders to the value of the field of that
/// name where that is not empty, and else to the body itself.
pub proof fn variable_renders_value_or_itself(
    name: Seq<char>,
    tokens: Seq<TokenView>,
    fields: Seq<FieldView>,
)
    requires
        is_plain(name),
        tokens_fit(tokens, pieces(braced(name))),
    ensures
        tokens == seq![TokenView::Var { name, desc: None, raw: braced(name) }],
        render(tokens, fields) == if value_of(fields, name).len() > 0 {
            value_of(fields, name)
        } else {
            braced(name)
        },
{
    plain_name_is_variable(name);
    let token = TokenView::Var { name, desc: None, raw: braced(name) };
    assert(tokens.len() == 1);
    assert(token_fits(tokens[0], pieces(braced(name))[0]));
    assert(tokens =~= seq![token]);
    assert(tokens.drop_last() =~= Seq::<TokenView>::empty());
    assert(render(tokens.drop_last(), fields) =~= Seq::<char>::empty());
    assert(render(tokens, fields) =~= resolve(token, fields));
}

/// A body that is one random choice renders to one of its options,
/// whichever option is selected and whatever the fields hold.
pub proof fn random_renders_an_option(
    inner: Seq<char>,
    tokens: Seq<TokenView>,
    fields: Seq<FieldView>,
)
    requires
        forall|i: int| 0 <= i < inner.len() ==> inner[i] != '}',
        classify(inner) is Random,
        tokens_fit(tokens, pieces(braced(inner))),
    ensures
        classify(inner)->options.contains(render(tokens, fields)),
{
    let options = classify(inner)->options;
    braced_is_one_piece(inner);
    assert(tokens.len() == 1);
    assert(token_fits(tokens[0], pieces(braced(inner))[0]));
    let choice = tokens[0]->choice;
    assert(options.contains(choice));
    let at = choose|i: int| 0 <= i < options.len() && options[i] == choice;
    options_are_not_empty(trimmed(inner).skip(random_prefix().len() as int));
    assert(options[at].len() > 0);
    assert(tokens.drop_last() =~= Seq::<TokenView>::empty());
    assert(render(tokens.drop_last(), fields) =~= Seq::<char>::empty());
    assert(render(tokens, fields) =~= choice);
}

} // verus!
