use tui_input::{Input, InputRequest};
use vstd::prelude::*;

verus! {

#[verifier::external_type_specification]
#[verifier::external_body]
pub struct ExInput(Input);

/// The text held by a tui-input line buffer.
pub uninterp spec fn buffer_text(i: Input) -> Seq<char>;

/// The cursor of a tui-input line buffer, counted in characters.
pub uninterp spec fn buffer_cursor(i: Input) -> nat;

/// Where `Input::handle` puts the cursor for a move to the previous word: the
/// start of the word before the cursor, words being runs of alphanumeric
/// characters. Deleting the previous word removes the text from there up to
/// the cursor.
pub uninterp spec fn prev_word_cursor(text: Seq<char>, cursor: nat) -> nat;

/// Where `Input::handle` puts the cursor for a move to the next word: the start
/// of the next word after the cursor, or the end of the text. Deleting the next
/// word removes the text from the cursor up to there.
pub uninterp spec fn next_word_cursor(text: Seq<char>, cursor: nat) -> nat;

/// The text after `req` is applied to `text` with the cursor at `cursor`.
pub open spec fn edit_text(text: Seq<char>, cursor: nat, req: InputRequest) -> Seq<char> {
    let p = prev_word_cursor(text, cursor);
    let q = next_word_cursor(text, cursor);
    match req {
        InputRequest::InsertChar(c) => text.take(cursor as int) + seq![c] + text.skip(cursor as int),
        InputRequest::DeletePrevChar => if cursor == 0 {
            text
        } else {
            text.remove(cursor - 1)
        },
        InputRequest::DeleteNextChar => if cursor == text.len() {
            text
        } else {
            text.remove(cursor as int)
        },
        InputRequest::DeletePrevWord => text.take(p as int) + text.skip(cursor as int),
        InputRequest::DeleteNextWord => text.take(cursor as int) + text.skip(q as int),
        InputRequest::DeleteLine => Seq::empty(),
        InputRequest::DeleteTillEnd => text.take(cursor as int),
        _ => text,
    }
}

/// The cursor after `req` is applied to `text` with the cursor at `cursor`.
pub open spec fn edit_cursor(text: Seq<char>, cursor: nat, req: InputRequest) -> nat {
    let p = prev_word_cursor(text, cursor);
    let q = next_word_cursor(text, cursor);
    match req {
        InputRequest::SetCursor(p) => if p <= text.len() {
            p as nat
        } else {
            text.len()
        },
        InputRequest::InsertChar(_) => cursor + 1,
        InputRequest::DeletePrevChar | InputRequest::GoToPrevChar => if cursor == 0 {
            0
        } else {
            (cursor - 1) as nat
        },
        InputRequest::GoToNextChar => if cursor == text.len() {
            cursor
        } else {
            cursor + 1
        },
        InputRequest::GoToPrevWord | InputRequest::DeletePrevWord => p,
        InputRequest::GoToNextWord => q,
        InputRequest::GoToStart | InputRequest::DeleteLine => 0,
        InputRequest::GoToEnd => text.len(),
        InputRequest::DeleteNextChar | InputRequest::DeleteNextWord | InputRequest::DeleteTillEnd => cursor,
    }
}

/// The cursor of a buffer never passes the end of its text.
pub open spec fn buffer_ok(i: Input) -> bool {
    buffer_cursor(i) <= buffer_text(i).len()
}

/// Relies on `Input::default` (derived): an empty value and the cursor at 0.
#[verifier::external_body]
pub(crate) fn empty_buffer() -> (r: Input)
    ensures
        buffer_text(r) == Seq::<char>::empty(),
        buffer_cursor(r) == 0,
{
    Input::default()
}

/// Relies on `Input::value`: the text the buffer holds.
#[verifier::external_body]
pub(crate) fn text_of(i: &Input) -> (r: &str)
    ensures
        r@ == buffer_text(*i),
{
    i.value()
}

/// Relies on `Input::cursor`: the cursor the buffer holds.
#[verifier::external_body]
pub(crate) fn cursor_of(i: &Input) -> (r: usize)
    ensures
        r == buffer_cursor(*i),
{
    i.cursor()
}

/// Relies on `Input::handle`: each request edits the text and moves the cursor
/// as `edit_text` and `edit_cursor` say. `InsertChar` adds one to the cursor,
/// which must not overflow.
#[verifier::external_body]
pub(crate) fn apply_edit(i: &mut Input, req: InputRequest)
    requires
        buffer_ok(*old(i)),
        req is InsertChar ==> buffer_cursor(*old(i)) < usize::MAX,
    ensures
        buffer_text(*final(i)) == edit_text(buffer_text(*old(i)), buffer_cursor(*old(i)), req),
        buffer_cursor(*final(i)) == edit_cursor(buffer_text(*old(i)), buffer_cursor(*old(i)), req),
        buffer_cursor(*final(i)) <= buffer_text(*final(i)).len(),
        prev_word_cursor(buffer_text(*old(i)), buffer_cursor(*old(i))) <= buffer_cursor(*old(i)),
        buffer_cursor(*old(i)) <= next_word_cursor(buffer_text(*old(i)), buffer_cursor(*old(i)))
            <= buffer_text(*old(i)).len(),
{
    i.handle(req);
}

/// Inserting a character with the cursor at the end of the text appends it
/// and moves the cursor past it.
pub proof fn lemma_insert_at_end_appends(text: Seq<char>, c: char)
    ensures
        edit_text(text, text.len(), InputRequest::InsertChar(c)) == text.push(c),
        edit_cursor(text, text.len(), InputRequest::InsertChar(c)) == text.len() + 1,
{
    assert(text.take(text.len() as int) + seq![c] + text.skip(text.len() as int) =~= text.push(c));
}

} // verus!
