//! The tokenizer: a template's body becomes a sequence of literal text,
//! variable placeholders and random-choice placeholders.

use crate::models::{Token, TokenView};
use crate::text::{
    find, find_from, find_space, is_space, lemma_find_from, lemma_find_from_is, lemma_find_space,
    lemma_skip_space, lemma_trimmed_fixed, next_space, next_word, skip_space, slice, starts_with,
    strip, stripped, to_chars, to_string, trim, trimmed,
};
use rand::seq::IndexedRandom;
use vstd::prelude::*;

verus! {

/// The words that open a random-choice placeholder.
pub open spec fn random_prefix() -> Seq<char> {
    seq!['r', 'a', 'n', 'd', 'o', 'm', '|']
}

/// The quoted options of `s` from position `from` on, where `from` lies
/// outside any quoted run: what stands between one `"` and the next, or
/// between a last unpaired `"` and the end, each time unless it is empty.
pub open spec fn quoted_from(s: Seq<char>, from: int) -> Seq<Seq<char>>
    decreases s.len() - from,
{
    let open = find_from(s, '"', from);
    if from < 0 || from >= s.len() || open >= s.len() {
        Seq::empty()
    } else {
        let close = find_from(s, '"', open + 1);
        let content = s.subrange(open + 1, close);
        let found = if content.len() > 0 {
            seq![content]
        } else {
            Seq::empty()
        };
        if close >= s.len() {
            found
        } else {
            proof {
                lemma_find_from(s, '"', from);
                lemma_find_from(s, '"', open + 1);
            }
            found + quoted_from(s, close + 1)
        }
    }
}

/// The options of `s` from position `from` on when nothing is quoted: the
/// words between white space, each without the commas at its two ends, unless
/// nothing is left of it.
pub open spec fn bare_from(s: Seq<char>, from: int) -> Seq<Seq<char>>
    decreases s.len() - from,
{
    let start = skip_space(s, from);
    if from < 0 || from >= s.len() || start >= s.len() {
        Seq::empty()
    } else {
        let end = find_space(s, start);
        let word = stripped(s.subrange(start, end), ',');
        let found = if word.len() > 0 {
            seq![word]
        } else {
            Seq::empty()
        };
        proof {
            lemma_skip_space(s, from);
            lemma_find_space(s, start);
        }
        found + bare_from(s, end)
    }
}

/// The options that the text after `random|` lists: the quoted ones, or,
/// where none is quoted, the bare words.
pub open spec fn random_options(s: Seq<char>) -> Seq<Seq<char>> {
    if quoted_from(s, 0).len() > 0 {
        quoted_from(s, 0)
    } else {
        bare_from(s, 0)
    }
}

/// What the text between two braces denotes.
pub enum Placeholder {
    /// Nothing: the span stays literal text.
    Literal,
    /// A variable, with the description if one is given.
    Var { name: Seq<char>, desc: Option<Seq<char>> },
    /// A choice among options; there is at least one.
    Random { options: Seq<Seq<char>> },
}

/// Whether the text between two braces asks for a random choice.
pub open spec fn is_random(inner: Seq<char>) -> bool {
    random_prefix().is_prefix_of(trimmed(inner))
}

/// What the text between two braces denotes.
pub open spec fn classify(inner: Seq<char>) -> Placeholder {
    let body = trimmed(inner);
    if is_random(inner) {
        let options = random_options(body.skip(random_prefix().len() as int));
        if options.len() == 0 {
            Placeholder::Literal
        } else {
            Placeholder::Random { options }
        }
    } else {
        let bar = find_from(body, '|', 0);
        let name = trimmed(body.take(bar));
        if name.len() == 0 {
            Placeholder::Literal
        } else if bar < body.len() {
            Placeholder::Var { name, desc: Some(trimmed(body.skip(bar + 1))) }
        } else {
            Placeholder::Var { name, desc: None }
        }
    }
}

/// One token as the body alone determines it: a `Random` piece leaves open
/// which option is selected.
pub enum Piece {
    Text(Seq<char>),
    Var { name: Seq<char>, desc: Option<Seq<char>>, raw: Seq<char> },
    Random { options: Seq<Seq<char>>, raw: Seq<char> },
}

/// The piece for the span `raw` whose inside denotes `what`.
pub open spec fn piece_of(what: Placeholder, raw: Seq<char>) -> Piece {
    match what {
        Placeholder::Literal => Piece::Text(raw),
        Placeholder::Var { name, desc } => Piece::Var { name, desc, raw },
        Placeholder::Random { options } => Piece::Random { options, raw },
    }
}

/// The pieces of `body` from position `from` on. Text up to the next `{` is
/// one piece, unless it is empty. The span from that `{` to the first `}`
/// after it is the next; where no `}` follows, all that is left is text.
pub open spec fn pieces_from(body: Seq<char>, from: int) -> Seq<Piece>
    decreases body.len() - from,
{
    if from < 0 || from >= body.len() {
        Seq::empty()
    } else {
        let open = find_from(body, '{', from);
        let lead = if open > from {
            seq![Piece::Text(body.subrange(from, open))]
        } else {
            Seq::empty()
        };
        if open >= body.len() {
            lead
        } else {
            let close = find_from(body, '}', open + 1);
            if close >= body.len() {
                lead.push(Piece::Text(body.subrange(open, body.len() as int)))
            } else {
                let inner = body.subrange(open + 1, close);
                let raw = body.subrange(open, close + 1);
                proof {
                    lemma_find_from(body, '{', from);
                    lemma_find_from(body, '}', open + 1);
                }
                lead.push(piece_of(classify(inner), raw)) + pieces_from(body, close + 1)
            }
        }
    }
}

/// The pieces of `body`.
pub open spec fn pieces(body: Seq<char>) -> Seq<Piece> {
    pieces_from(body, 0)
}

/// Whether `token` is `piece` with, for a random choice, one of the options
/// selected.
pub open spec fn token_fits(token: TokenView, piece: Piece) -> bool {
    match piece {
        Piece::Text(text) => token == TokenView::Text(text),
        Piece::Var { name, desc, raw } => token == (TokenView::Var { name, desc, raw }),
        Piece::Random { options, raw } => {
            &&& token matches TokenView::Random { options: o, choice, raw: r }
            &&& o == options
            &&& r == raw
            &&& options.contains(choice)
        },
    }
}

/// Whether `tokens` are `pieces`, one for one.
pub open spec fn tokens_fit(tokens: Seq<TokenView>, pieces: Seq<Piece>) -> bool {
    &&& tokens.len() == pieces.len()
    &&& forall|i: int| 0 <= i < tokens.len() ==> token_fits(#[trigger] tokens[i], pieces[i])
}

/// The quoted options of `s`, in the order in which they stand.
fn quoted_options(s: &[char]) -> (options: Vec<String>)
    ensures
        options.deep_view() == quoted_from(s@, 0),
{
    let len = s.len();
    let mut options: Vec<String> = Vec::new();
    let mut at: usize = 0;
    assert(options.deep_view() =~= Seq::<Seq<char>>::empty());
    while at < len
        invariant
            at <= len == s@.len(),
            quoted_from(s@, 0) == options.deep_view() + quoted_from(s@, at as int),
        decreases len - at,
    {
        let ghost before = options.deep_view();
        let open = find(s, '"', at);
        if open >= len {
            at = len;
        } else {
            let close = find(s, '"', open + 1);
            if close > open + 1 {
                let option = to_string(slice(s, open + 1, close));
                options.push(option);
                assert(options.deep_view() =~= before.push(s@.subrange(open + 1, close as int)));
            }
            if close < len {
                at = close + 1;
            } else {
                at = len;
            }
            assert(quoted_from(s@, 0) =~= options.deep_view() + quoted_from(s@, at as int));
        }
    }
    options
}

/// The words of `s`, each without the commas at its ends, where something
/// is left of it.
fn bare_options(s: &[char]) -> (options: Vec<String>)
    ensures
        options.deep_view() == bare_from(s@, 0),
{
    let len = s.len();
    let mut options: Vec<String> = Vec::new();
    let mut at: usize = 0;
    assert(options.deep_view() =~= Seq::<Seq<char>>::empty());
    while at < len
        invariant
            at <= len == s@.len(),
            bare_from(s@, 0) == options.deep_view() + bare_from(s@, at as int),
        decreases len - at,
    {
        let ghost before = options.deep_view();
        let start = next_word(s, at);
        if start >= len {
            at = len;
        } else {
            let end = next_space(s, start);
            proof {
                lemma_skip_space(s@, at as int);
                lemma_find_space(s@, start as int);
            }
            let word = strip(slice(s, start, end), ',');
            if word.len() > 0 {
                let option = to_string(word);
                options.push(option);
                assert(options.deep_view() =~= before.push(word@));
            }
            at = end;
            assert(bare_from(s@, 0) =~= options.deep_view() + bare_from(s@, at as int));
        }
    }
    options
}

/// The options that a random-choice placeholder lists after `random|`.
///
/// Each run between double quotes is one option, taken as it stands; a last
/// run that no quote closes counts too. Where that gives nothing, the
/// options are the words between white space, each without the commas at
/// its ends. No option is empty.
pub fn parse_random_options(input: &str) -> (options: Vec<String>)
    ensures
        options.deep_view() == random_options(input@),
{
    let chars = to_chars(input);
    options_of(chars.as_slice())
}

/// `parse_random_options` on characters.
fn options_of(s: &[char]) -> (options: Vec<String>)
    ensures
        options.deep_view() == random_options(s@),
{
    let quoted = quoted_options(s);
    if quoted.len() > 0 {
        quoted
    } else {
        bare_options(s)
    }
}

/// One of `options`, picked by `IndexedRandom::choose` of the `rand` crate
/// with the generator of the current thread (`rand::rng`), and copied.
///
/// Trusted: `choose` returns `None` for an empty slice and otherwise refers
/// to one of the slice's elements. Which one, it does not say.
#[verifier::external_body]
fn pick_option(options: &Vec<String>) -> (pick: Option<String>)
    ensures
        options@.len() == 0 ==> pick is None,
        options@.len() > 0 ==> pick is Some && options.deep_view().contains(pick->0@),
{
    let mut rng = rand::rng();
    options.choose(&mut rng).cloned()
}

/// The random-choice token for `options` once an option was picked: `pick`
/// becomes the selected option, and the empty text stands in where there is
/// no pick.
pub fn random_token(options: Vec<String>, pick: Option<String>, raw: String) -> (token: Token)
    ensures
        token@ == (TokenView::Random {
            options: options.deep_view(),
            choice: match pick {
                Some(choice) => choice@,
                None => Seq::empty(),
            },
            raw: raw@,
        }),
{
    let choice = match pick {
        Some(choice) => choice,
        None => String::new(),
    };
    Token::Random { options, choice, raw }
}

/// Whether `after` is `before` with, for a random choice that has options,
/// one of them selected anew.
pub open spec fn rerolled(before: TokenView, after: TokenView) -> bool {
    match before {
        TokenView::Random { options, choice, raw } => {
            &&& after matches TokenView::Random { options: o, choice: c, raw: r }
            &&& o == options
            &&& r == raw
            &&& if options.len() > 0 {
                options.contains(c)
            } else {
                c == choice
            }
        },
        _ => after == before,
    }
}

/// Whether `after` are the tokens `before` with every random choice that has
/// options selected anew.
pub open spec fn all_rerolled(before: Seq<TokenView>, after: Seq<TokenView>) -> bool {
    &&& after.len() == before.len()
    &&& forall|i: int| 0 <= i < before.len() ==> rerolled(#[trigger] before[i], after[i])
}

impl Token {
    /// Makes `pick` the selected option of a random choice. Any other token,
    /// and any token where there is no pick, stays as it is.
    pub fn select(&mut self, pick: Option<String>)
        ensures
            final(self)@ == match (old(self)@, pick) {
                (TokenView::Random { options, choice, raw }, Some(p)) => TokenView::Random {
                    options,
                    choice: p@,
                    raw,
                },
                _ => old(self)@,
            },
    {
        match self {
            Token::Random { choice, .. } => {
                match pick {
                    Some(p) => {
                        *choice = p;
                    },
                    None => {},
                }
            },
            _ => {},
        }
    }

    /// One of the options of a random choice, picked at random; none for any
    /// other token, nor for a choice without options.
    fn draw(&self) -> (pick: Option<String>)
        ensures
            match self@ {
                TokenView::Random { options, .. } => if options.len() > 0 {
                    pick is Some && options.contains(pick->0@)
                } else {
                    pick is None
                },
                _ => pick is None,
            },
    {
        match self {
            Token::Random { options, .. } => {
                assert(options.deep_view().len() == options@.len());
                pick_option(options)
            },
            _ => None,
        }
    }
}

/// Selects one option of every random choice among `tokens` anew, at
/// random. Text and variables stay as they are, and so do the options.
pub fn reroll(tokens: &mut Vec<Token>)
    ensures
        all_rerolled(old(tokens).deep_view(), final(tokens).deep_view()),
{
    let mut i: usize = 0;
    while i < tokens.len()
        invariant
            i <= tokens@.len() == old(tokens)@.len(),
            forall|j: int|
                0 <= j < i ==> rerolled(
                    #[trigger] old(tokens).deep_view()[j],
                    tokens.deep_view()[j],
                ),
            forall|j: int| i <= j < tokens@.len() ==> tokens@[j] == old(tokens)@[j],
        decreases tokens@.len() - i,
    {
        let pick = tokens[i].draw();
        tokens[i].select(pick);
        i += 1;
    }
}

/// `parse_placeholder` on characters.
fn placeholder_of(inner: &[char], raw: &[char]) -> (token: Token)
    ensures
        token_fits(token@, piece_of(classify(inner@), raw@)),
{
    let body = trim(inner);
    let prefix = to_chars("random|");
    proof {
        reveal_strlit("random|");
        assert(prefix@ =~= random_prefix());
    }
    if starts_with(body, prefix.as_slice()) {
        let rest = slice(body, prefix.len(), body.len());
        assert(rest@ == trimmed(inner@).skip(random_prefix().len() as int));
        let options = options_of(rest);
        if options.len() == 0 {
            return Token::Text(to_string(raw));
        }
        let pick = pick_option(&options);
        return random_token(options, pick, to_string(raw));
    }
    let bar = find(body, '|', 0);
    let name = trim(slice(body, 0, bar));
    assert(body@.subrange(0, bar as int) == body@.take(bar as int));
    if name.len() == 0 {
        return Token::Text(to_string(raw));
    }
    let desc = if bar < body.len() {
        let text = trim(slice(body, bar + 1, body.len()));
        assert(body@.subrange(bar + 1, body@.len() as int) == body@.skip(bar + 1));
        Some(to_string(text))
    } else {
        None
    };
    Token::Var { name: to_string(name), desc, raw: to_string(raw) }
}

/// The token that the placeholder `raw` stands for, where `inner` is what
/// stands between its braces.
///
/// White space around `inner` does not count. After `random|` come the
/// options of a random choice, of which one is selected at random. Anything
/// else is a variable: its name, then, after the first `|`, its
/// description. A random choice without an option and a variable without a
/// name are no placeholders: the result is then the literal text `raw`.
pub fn parse_placeholder(inner: &str, raw: &str) -> (token: Token)
    ensures
        token_fits(token@, piece_of(classify(inner@), raw@)),
{
    let inner_chars = to_chars(inner);
    let raw_chars = to_chars(raw);
    placeholder_of(inner_chars.as_slice(), raw_chars.as_slice())
}

/// `parse_tokens` on characters.
fn tokens_of(body: &[char]) -> (tokens: Vec<Token>)
    ensures
        tokens_fit(tokens.deep_view(), pieces(body@)),
{
    let len = body.len();
    let mut tokens: Vec<Token> = Vec::new();
    let mut index: usize = 0;
    let ghost mut done: Seq<Piece> = Seq::empty();
    while index < len
        invariant
            index <= len == body@.len(),
            pieces(body@) == done + pieces_from(body@, index as int),
            tokens_fit(tokens.deep_view(), done),
        decreases len - index,
    {
        let open = find(body, '{', index);
        if open > index {
            let ghost before = tokens.deep_view();
            let text = to_string(slice(body, index, open));
            tokens.push(Token::Text(text));
            proof {
                let piece = Piece::Text(body@.subrange(index as int, open as int));
                assert(tokens.deep_view() =~= before.push(TokenView::Text(piece->Text_0)));
                done = done.push(piece);
            }
        }
        if open >= len {
            assert(pieces(body@) =~= done + pieces_from(body@, len as int));
            index = len;
        } else {
            let ghost before = tokens.deep_view();
            let close = find(body, '}', open + 1);
            if close >= len {
                let text = to_string(slice(body, open, len));
                tokens.push(Token::Text(text));
                proof {
                    let piece = Piece::Text(body@.subrange(open as int, len as int));
                    assert(tokens.deep_view() =~= before.push(TokenView::Text(piece->Text_0)));
                    done = done.push(piece);
                    assert(pieces(body@) =~= done + pieces_from(body@, len as int));
                }
                index = len;
            } else {
                let inner = slice(body, open + 1, close);
                let raw = slice(body, open, close + 1);
                let token = placeholder_of(inner, raw);
                let ghost view = token@;
                tokens.push(token);
                proof {
                    assert(tokens.deep_view() =~= before.push(view));
                    done = done.push(piece_of(classify(inner@), raw@));
                    assert(pieces(body@) =~= done + pieces_from(body@, close + 1));
                }
                index = close + 1;
            }
        }
    }
    assert(done + pieces_from(body@, len as int) =~= done);
    tokens
}

/// The tokens of a template's body, in order.
///
/// Text up to the next `{` is a `Text` token. From that `{` to the first `}`
/// after it stands a placeholder, which becomes a `Var` or a `Random` token,
/// or `Text` again where it denotes neither. Where no `}` follows, the rest
/// of the body is text. Of each `Random` token one option is selected at
/// random; everything else the body alone determines.
pub fn parse_tokens(body: &str) -> (tokens: Vec<Token>)
    ensures
        tokens_fit(tokens.deep_view(), pieces(body@)),
{
    let chars = to_chars(body);
    tokens_of(chars.as_slice())
}

/// The part of the body that a piece stands for.
pub open spec fn span(piece: Piece) -> Seq<char> {
    match piece {
        Piece::Text(text) => text,
        Piece::Var { raw, .. } => raw,
        Piece::Random { raw, .. } => raw,
    }
}

/// The parts of the body that `pieces` stand for, one after the other.
pub open spec fn spans(pieces: Seq<Piece>) -> Seq<char>
    decreases pieces.len(),
{
    if pieces.len() == 0 {
        Seq::empty()
    } else {
        spans(pieces.drop_last()) + span(pieces.last())
    }
}

/// `inner` between braces.
pub open spec fn braced(inner: Seq<char>) -> Seq<char> {
    seq!['{'] + inner + seq!['}']
}

/// Whether `name` can stand as a variable's name as it is: it is not empty,
/// has no white space at its ends, and holds no brace and no `|`.
pub open spec fn is_plain(name: Seq<char>) -> bool {
    &&& name.len() > 0
    &&& !is_space(name[0])
    &&& !is_space(name.last())
    &&& forall|i: int| 0 <= i < name.len() ==> name[i] != '{' && name[i] != '}' && name[i] != '|'
}

/// The spans of two runs of pieces, joined, are the spans of the joined
/// runs.
proof fn lemma_spans_add(a: Seq<Piece>, b: Seq<Piece>)
    ensures
        spans(a + b) == spans(a) + spans(b),
    decreases b.len(),
{
    if b.len() == 0 {
        assert(a + b =~= a);
        assert(spans(a) + spans(b) =~= spans(a));
    } else {
        lemma_spans_add(a, b.drop_last());
        assert((a + b).drop_last() =~= a + b.drop_last());
        assert(spans(a + b) =~= spans(a) + spans(b));
    }
}

/// The pieces from any position on stand for all of the body from there on,
/// with no gap and no overlap.
proof fn lemma_pieces_cover(body: Seq<char>, from: int)
    requires
        0 <= from <= body.len(),
    ensures
        spans(pieces_from(body, from)) == body.skip(from),
    decreases body.len() - from,
{
    if from >= body.len() {
        assert(body.skip(from) =~= Seq::<char>::empty());
    } else {
        let open = find_from(body, '{', from);
        lemma_find_from(body, '{', from);
        let lead = if open > from {
            seq![Piece::Text(body.subrange(from, open))]
        } else {
            Seq::empty()
        };
        assert(spans(lead) =~= body.subrange(from, open)) by {
            if open > from {
                assert(lead.drop_last() =~= Seq::<Piece>::empty());
                assert(spans(lead.drop_last()) =~= Seq::<char>::empty());
                assert(span(lead.last()) == body.subrange(from, open));
            }
        }
        if open >= body.len() {
            assert(body.subrange(from, open) =~= body.skip(from));
        } else {
            let close = find_from(body, '}', open + 1);
            lemma_find_from(body, '}', open + 1);
            if close >= body.len() {
                let tail = Piece::Text(body.subrange(open, body.len() as int));
                assert(lead.push(tail).drop_last() =~= lead);
                assert(spans(lead.push(tail)) =~= body.skip(from));
            } else {
                let inner = body.subrange(open + 1, close);
                let raw = body.subrange(open, close + 1);
                let piece = piece_of(classify(inner), raw);
                assert(span(piece) == raw);
                assert(lead.push(piece).drop_last() =~= lead);
                lemma_pieces_cover(body, close + 1);
                lemma_spans_add(lead.push(piece), pieces_from(body, close + 1));
                assert(spans(pieces_from(body, from)) =~= body.skip(from));
            }
        }
    }
}

/// The pieces of a body stand for all of it: joined, the text of the text
/// pieces and the spans of the placeholders are the body again.
pub proof fn pieces_cover_body(body: Seq<char>)
    ensures
        spans(pieces(body)) == body,
{
    lemma_pieces_cover(body, 0);
    assert(body.skip(0) =~= body);
}

/// A body that is not empty and holds no `{` is one piece of text: itself.
pub proof fn text_without_brace_is_one_piece(body: Seq<char>)
    requires
        body.len() > 0,
        forall|i: int| 0 <= i < body.len() ==> body[i] != '{',
    ensures
        pieces(body) == seq![Piece::Text(body)],
{
    lemma_find_from_is(body, '{', 0, body.len() as int);
    assert(body.subrange(0, body.len() as int) =~= body);
    assert(pieces(body) =~= seq![Piece::Text(body)]);
}

/// A body that is one pair of braces around text without `}` is one piece:
/// what the text between the braces denotes, or, where it denotes nothing,
/// the body as literal text.
pub proof fn braced_is_one_piece(inner: Seq<char>)
    requires
        forall|i: int| 0 <= i < inner.len() ==> inner[i] != '}',
    ensures
        pieces(braced(inner)) == seq![piece_of(classify(inner), braced(inner))],
{
    let body = braced(inner);
    let close = inner.len() as int + 1;
    assert(body[0] == '{');
    assert(body[close] == '}');
    assert forall|i: int| 1 <= i < close implies body[i] != '}' by {
        assert(body[i] == inner[i - 1]);
    }
    lemma_find_from_is(body, '}', 1, close);
    assert(body.subrange(1, close) =~= inner);
    assert(body.subrange(0, close + 1) =~= body);
    assert(pieces_from(body, close + 1) =~= Seq::<Piece>::empty());
    assert(pieces(body) =~= seq![piece_of(classify(inner), body)]);
}

/// A plain name between braces denotes the variable of that name, without a
/// description.
pub proof fn plain_name_is_variable(name: Seq<char>)
    requires
        is_plain(name),
    ensures
        classify(name) == (Placeholder::Var { name, desc: None }),
        pieces(braced(name)) == seq![Piece::Var { name, desc: None, raw: braced(name) }],
{
    lemma_trimmed_fixed(name);
    if random_prefix().is_prefix_of(name) {
        assert(name[6] == random_prefix()[6]);
    }
    lemma_find_from_is(name, '|', 0, name.len() as int);
    assert(name.take(name.len() as int) =~= name);
    braced_is_one_piece(name);
}

/// A plain name, `|` and a description that has no white space at its ends
/// and no `}` denote the variable of that name with that description,
/// unless the name is `random`, which opens a random choice.
pub proof fn described_name_is_variable(name: Seq<char>, desc: Seq<char>)
    requires
        is_plain(name),
        name != seq!['r', 'a', 'n', 'd', 'o', 'm'],
        desc.len() > 0 ==> !is_space(desc[0]) && !is_space(desc.last()),
        forall|i: int| 0 <= i < desc.len() ==> desc[i] != '}',
    ensures
        classify(name + seq!['|'] + desc) == (Placeholder::Var { name, desc: Some(desc) }),
        pieces(braced(name + seq!['|'] + desc)) == seq![
            Piece::Var { name, desc: Some(desc), raw: braced(name + seq!['|'] + desc) },
        ],
{
    let inner = name + seq!['|'] + desc;
    let bar = name.len() as int;
    assert(inner[0] == name[0]);
    assert(inner[bar] == '|');
    if desc.len() > 0 {
        assert(inner.last() == desc.last());
    }
    lemma_trimmed_fixed(inner);
    lemma_trimmed_fixed(name);
    lemma_trimmed_fixed(desc);
    assert forall|i: int| 0 <= i < bar implies inner[i] != '|' by {
        assert(inner[i] == name[i]);
    }
    lemma_find_from_is(inner, '|', 0, bar);
    if random_prefix().is_prefix_of(inner) {
        assert forall|i: int| 0 <= i < 7 implies random_prefix()[i] == inner[i] by {}
        assert(inner[6] == '|');
        if bar < 6 {
            assert(inner[bar] == random_prefix()[bar]);
        }
        assert(bar == 6);
        assert forall|i: int| 0 <= i < 6 implies name[i] == seq!['r', 'a', 'n', 'd', 'o', 'm'][i] by {
            assert(name[i] == inner[i]);
            assert(inner[i] == random_prefix()[i]);
        }
        assert(name =~= seq!['r', 'a', 'n', 'd', 'o', 'm']);
    }
    assert(inner.take(bar) =~= name);
    assert(inner.skip(bar + 1) =~= desc);
    assert forall|i: int| 0 <= i < inner.len() implies inner[i] != '}' by {
        if i < bar {
            assert(inner[i] == name[i]);
        } else if i > bar {
            assert(inner[i] == desc[i - bar - 1]);
        }
    }
    braced_is_one_piece(inner);
}

/// Selecting anew keeps the tokens the pieces that they were: the same
/// text, the same variables, and the same options with one of them
/// selected. So it does after any number of times.
pub proof fn reroll_keeps_fit(before: Seq<TokenView>, after: Seq<TokenView>, parts: Seq<Piece>)
    requires
        tokens_fit(before, parts),
        all_rerolled(before, after),
    ensures
        tokens_fit(after, parts),
{
    assert forall|i: int| 0 <= i < after.len() implies token_fits(
        #[trigger] after[i],
        parts[i],
    ) by {
        assert(token_fits(before[i], parts[i]));
        assert(rerolled(before[i], after[i]));
    }
}

/// No option is empty, whichever way the options are written.
pub proof fn options_are_not_empty(s: Seq<char>)
    ensures
        forall|i: int| 0 <= i < random_options(s).len() ==> (#[trigger] random_options(s)[i]).len() > 0,
{
    lemma_quoted_not_empty(s, 0);
    lemma_bare_not_empty(s, 0);
}

/// No quoted option is empty.
proof fn lemma_quoted_not_empty(s: Seq<char>, from: int)
    ensures
        forall|i: int| 0 <= i < quoted_from(s, from).len() ==> (#[trigger] quoted_from(s, from)[i]).len() > 0,
    decreases s.len() - from,
{
    let open = find_from(s, '"', from);
    if !(from < 0 || from >= s.len() || open >= s.len()) {
        lemma_find_from(s, '"', from);
        lemma_find_from(s, '"', open + 1);
        let close = find_from(s, '"', open + 1);
        let content = s.subrange(open + 1, close);
        let found = if content.len() > 0 {
            seq![content]
        } else {
            Seq::empty()
        };
        if close < s.len() {
            lemma_quoted_not_empty(s, close + 1);
            let rest = quoted_from(s, close + 1);
            assert forall|i: int| 0 <= i < quoted_from(s, from).len() implies (
            #[trigger] quoted_from(s, from)[i]).len() > 0 by {
                if i >= found.len() {
                    assert((found + rest)[i] == rest[i - found.len()]);
                }
            }
        }
    }
}

/// No bare option is empty.
proof fn lemma_bare_not_empty(s: Seq<char>, from: int)
    ensures
        forall|i: int| 0 <= i < bare_from(s, from).len() ==> (#[trigger] bare_from(s, from)[i]).len() > 0,
    decreases s.len() - from,
{
    let start = skip_space(s, from);
    if !(from < 0 || from >= s.len() || start >= s.len()) {
        lemma_skip_space(s, from);
        lemma_find_space(s, start);
        let end = find_space(s, start);
        lemma_bare_not_empty(s, end);
        let word = stripped(s.subrange(start, end), ',');
        let found = if word.len() > 0 {
            seq![word]
        } else {
            Seq::empty()
        };
        let rest = bare_from(s, end);
        assert forall|i: int| 0 <= i < bare_from(s, from).len() implies (#[trigger] bare_from(
            s,
            from,
        )[i]).len() > 0 by {
            if i >= found.len() {
                assert((found + rest)[i] == rest[i - found.len()]);
            }
        }
    }
}

} // verus!
