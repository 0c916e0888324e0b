//! The state of one filling-in session: the tokens of the template that is
//! open, its fields, and which field has the cursor.

use crate::fields::{collect_fields, fields_of};
use crate::models::{Field, FieldView, Token};
use crate::tokens::{all_rerolled, parse_tokens, pieces, reroll, tokens_fit};
use std::time::{Duration, Instant};
use vstd::prelude::*;

verus! {

/// A moment on the clock. Nothing is known of what it holds.
#[verifier::external_type_specification]
#[verifier::external_body]
pub struct ExInstant(Instant);

/// `Instant::now` gives the present moment. Nothing is known of it.
pub assume_specification[ Instant::now ]() -> Instant;

/// `Instant::elapsed` gives the time that has passed since the moment.
/// Nothing is known of its length.
pub assume_specification[ Instant::elapsed ](since: &Instant) -> Duration;

/// `Duration::as_millis` gives a length of time in whole milliseconds.
/// Nothing is stated of their number.
pub assume_specification[ Duration::as_millis ](length: &Duration) -> u128;

/// A short note for the user, with the moment at which it was set.
#[derive(Debug)]
pub struct StatusMessage {
    pub text: String,
    pub since: Instant,
}

impl Clone for StatusMessage {
    /// A copy of the note, set at the same moment.
    fn clone(&self) -> (copy: StatusMessage)
        ensures
            copy == *self,
    {
        StatusMessage { text: self.text.clone(), since: self.since }
    }
}

/// The state of one filling-in session.
#[derive(Clone, Debug)]
pub struct EditorState {
    /// Which template is open.
    pub template_index: usize,
    pub tokens: Vec<Token>,
    pub fields: Vec<Field>,
    /// The position of the field that has the cursor.
    pub active_field: usize,
    /// The first field in sight.
    pub field_scroll: usize,
    pub status: Option<StatusMessage>,
}

/// A note is shown for this many milliseconds.
pub const STATUS_DURATION_MS: u128 = 1500;

/// What is said after the options were drawn anew.
pub const REROLLED: &'static str = "已重随";

/// Whether a note that was set `elapsed` milliseconds ago is still shown.
pub fn is_fresh(elapsed: u128) -> (fresh: bool)
    ensures
        fresh == (elapsed <= STATUS_DURATION_MS),
{
    elapsed <= STATUS_DURATION_MS
}

impl StatusMessage {
    /// Whether the note is still to be shown, by the clock.
    pub fn is_shown(&self) -> bool {
        is_fresh(self.since.elapsed().as_millis())
    }
}

impl EditorState {
    /// Whether the cursor stands on a field, or at 0 where there is none.
    pub open spec fn wf(&self) -> bool {
        if self.fields@.len() == 0 {
            self.active_field == 0
        } else {
            self.active_field < self.fields@.len()
        }
    }

    /// Where the cursor stands after a step forward: on the next field, or
    /// on the first after the last.
    pub open spec fn next_position(&self) -> int {
        if self.fields@.len() == 0 {
            self.active_field as int
        } else {
            (self.active_field + 1) % (self.fields@.len() as int)
        }
    }

    /// Where the cursor stands after a step back: on the field before, or
    /// on the last before the first.
    pub open spec fn prev_position(&self) -> int {
        if self.fields@.len() == 0 {
            self.active_field as int
        } else if self.active_field == 0 {
            self.fields@.len() - 1
        } else {
            self.active_field - 1
        }
    }

    /// Whether `after` is this state with the fields holding `fields`.
    pub open spec fn with_fields(&self, fields: Seq<FieldView>, after: EditorState) -> bool {
        &&& after.fields.deep_view() == fields
        &&& after == (EditorState { fields: after.fields, ..*self })
    }

    /// The fields once `ch` was typed at the end of the one that has the
    /// cursor.
    pub open spec fn typed(&self, ch: char) -> Seq<FieldView> {
        let fields = self.fields.deep_view();
        let at = self.active_field as int;
        if at < fields.len() {
            fields.update(at, FieldView { value: fields[at].value.push(ch), ..fields[at] })
        } else {
            fields
        }
    }

    /// The fields once the last character was taken off the one that has
    /// the cursor.
    pub open spec fn erased(&self) -> Seq<FieldView> {
        let fields = self.fields.deep_view();
        let at = self.active_field as int;
        if at < fields.len() && fields[at].value.len() > 0 {
            fields.update(at, FieldView { value: fields[at].value.drop_last(), ..fields[at] })
        } else {
            fields
        }
    }

    /// Whether `after` is this state with the status set to `text` at some
    /// moment.
    pub open spec fn with_status(&self, text: Seq<char>, after: EditorState) -> bool {
        &&& after.status is Some
        &&& after.status->0.text@ == text
        &&& after == (EditorState { status: after.status, ..*self })
    }

    /// Whether `after` is this state with every random choice selected anew
    /// and the status saying so.
    pub open spec fn rerolled_to(&self, after: EditorState) -> bool {
        &&& all_rerolled(self.tokens.deep_view(), after.tokens.deep_view())
        &&& after.status is Some
        &&& after.status->0.text@ == REROLLED@
        &&& after == (EditorState { tokens: after.tokens, status: after.status, ..*self })
    }

    /// A session on the template `template_index`, whose body is `body`: the
    /// body's tokens, a field for each of its variables with nothing filled
    /// in, the cursor on the first field, and no status.
    pub fn new(template_index: usize, body: &str) -> (state: EditorState)
        ensures
            state.template_index == template_index,
            tokens_fit(state.tokens.deep_view(), pieces(body@)),
            state.fields.deep_view() == fields_of(state.tokens.deep_view()),
            state.active_field == 0,
            state.field_scroll == 0,
            state.status is None,
            state.wf(),
    {
        let tokens = parse_tokens(body);
        let fields = collect_fields(tokens.as_slice());
        EditorState {
            template_index,
            tokens,
            fields,
            active_field: 0,
            field_scroll: 0,
            status: None,
        }
    }

    /// Moves the cursor to the next field, and from the last field to the
    /// first. Without fields nothing changes.
    pub fn next_field(&mut self)
        ensures
            *final(self) == (EditorState {
                active_field: old(self).next_position() as usize,
                ..*old(self)
            }),
            old(self).wf() ==> final(self).wf(),
    {
        let len = self.fields.len();
        if len == 0 {
            return ;
        }
        proof {
            vstd::arithmetic::div_mod::lemma_add_mod_noop(
                self.active_field as int,
                1,
                len as int,
            );
            vstd::arithmetic::div_mod::lemma_mod_bound(self.active_field as int, len as int);
            if len > 1 {
                vstd::arithmetic::div_mod::lemma_small_mod(1, len as nat);
            }
        }
        self.active_field = (self.active_field % len + 1) % len;
    }

    /// Moves the cursor to the field before, and from the first field to the
    /// last. Without fields nothing changes.
    pub fn prev_field(&mut self)
        ensures
            *final(self) == (EditorState {
                active_field: old(self).prev_position() as usize,
                ..*old(self)
            }),
            old(self).wf() ==> final(self).wf(),
    {
        if self.fields.len() == 0 {
            return ;
        }
        if self.active_field == 0 {
            self.active_field = self.fields.len() - 1;
        } else {
            self.active_field -= 1;
        }
    }

    /// Types `ch` at the end of the field that has the cursor. Where the
    /// cursor stands on no field, nothing changes.
    pub fn push_char(&mut self, ch: char)
        ensures
            old(self).with_fields(old(self).typed(ch), *final(self)),
            old(self).wf() ==> final(self).wf(),
    {
        if self.active_field < self.fields.len() {
            self.fields[self.active_field].value.push(ch);
        }
        assert(self.fields.deep_view() =~= old(self).typed(ch));
    }

    /// Takes the last character off the field that has the cursor. Where
    /// that field is empty, or the cursor stands on no field, nothing
    /// changes.
    pub fn backspace(&mut self)
        ensures
            old(self).with_fields(old(self).erased(), *final(self)),
            old(self).wf() ==> final(self).wf(),
    {
        if self.active_field < self.fields.len() {
            let _ = self.fields[self.active_field].value.pop();
        }
        assert(self.fields.deep_view() =~= old(self).erased());
    }

    /// Selects one option of every random choice anew, at random, and says
    /// so in the status. Text, variables, options and fields stay as they
    /// are.
    pub fn reroll_random(&mut self)
        ensures
            old(self).rerolled_to(*final(self)),
            old(self).wf() ==> final(self).wf(),
    {
        reroll(&mut self.tokens);
        self.set_status(REROLLED);
    }

    /// Sets the status to `text`, as of now.
    pub fn set_status(&mut self, text: &str)
        ensures
            old(self).with_status(text@, *final(self)),
            old(self).wf() ==> final(self).wf(),
    {
        self.status = Some(StatusMessage { text: text.to_owned(), since: Instant::now() });
    }
}

} // verus!
