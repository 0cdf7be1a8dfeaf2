//! The one-line text editor behind the query and facet boxes: a character
//! buffer with a cursor, character-indexed so that editing multi-byte text
//! stays on character boundaries.

use vstd::prelude::*;
use vstd::string::*;

use crate::keys::{spec_symbol, KeySymbols};
use crate::text::chars_to_string;

verus! {

/// The keys the editor reacts to.
pub enum InputKey {
    Char(char),
    Backspace,
    Left,
    Right,
    Other,
}

/// One editable input line.
#[derive(Debug)]
pub struct UserInput {
    pub chars: Vec<char>,
    pub cursor_position: usize,
}

impl UserInput {
    /// The edited text.
    pub open spec fn text(self) -> Seq<char> {
        self.chars@
    }

    /// The cursor stays within the text.
    pub open spec fn wf(self) -> bool {
        self.cursor_position <= self.chars@.len()
    }

    /// Starts with the given text, cursor at its end.
    pub fn new(input: &str) -> (r: UserInput)
        ensures
            r.wf(),
            r.text() == input@,
            r.cursor_position == input@.len(),
    {
        let mut chars: Vec<char> = Vec::new();
        let n = input.unicode_len();
        let mut i: usize = 0;
        while i < n
            invariant
                0 <= i <= n,
                n == input@.len(),
                chars@.len() == i,
                forall|q: int| 0 <= q < i ==> chars@[q] == input@[q],
            decreases n - i,
        {
            chars.push(input.get_char(i));
            i = i + 1;
        }
        proof {
            assert(chars@ =~= input@);
        }
        UserInput { chars, cursor_position: n }
    }

    /// The current text as an owned string.
    pub fn get_input(&self) -> (r: String)
        ensures
            r@ == self.text(),
    {
        chars_to_string(&self.chars)
    }

    /// Replaces the text; the cursor moves to its end.
    pub fn set_input(&mut self, input: &str)
        ensures
            final (self).wf(),
            final (self).text() == input@,
            final (self).cursor_position == input@.len(),
    {
        let fresh = UserInput::new(input);
        self.chars = fresh.chars;
        self.cursor_position = fresh.cursor_position;
    }

    /// Moves the cursor one character left, stopping at the start.
    pub fn move_cursor_left(&mut self)
        requires
            old(self).wf(),
        ensures
            final (self).wf(),
            final (self).text() == old(self).text(),
            final (self).cursor_position == (if old(self).cursor_position > 0 {
                old(self).cursor_position - 1
            } else {
                0int
            }),
    {
        if self.cursor_position > 0 {
            self.cursor_position = self.cursor_position - 1;
        }
    }

    /// Moves the cursor one character right, stopping at the end.
    pub fn move_cursor_right(&mut self)
        requires
            old(self).wf(),
        ensures
            final (self).wf(),
            final (self).text() == old(self).text(),
            final (self).cursor_position == (if old(self).cursor_position < old(
                self,
            ).text().len() {
                old(self).cursor_position + 1
            } else {
                old(self).text().len() as int
            }),
    {
        if self.cursor_position < self.chars.len() {
            self.cursor_position = self.cursor_position + 1;
        }
    }

    /// Inserts a character at the cursor; the cursor moves past it.
    pub fn enter_char(&mut self, c: char)
        requires
            old(self).wf(),
            old(self).text().len() < usize::MAX,
        ensures
            final (self).wf(),
            final (self).text() == old(self).text().insert(old(self).cursor_position as int, c),
            final (self).cursor_position == old(self).cursor_position + 1,
    {
        self.chars.insert(self.cursor_position, c);
        self.cursor_position = self.cursor_position + 1;
    }

    /// Deletes the character before the cursor, if there is one.
    pub fn delete_char(&mut self)
        requires
            old(self).wf(),
        ensures
            final (self).wf(),
            old(self).cursor_position == 0 ==> *final (self) == *old(self),
            old(self).cursor_position > 0 ==> final (self).text() == old(self).text().remove(
                old(self).cursor_position - 1,
            ) && final (self).cursor_position == old(self).cursor_position - 1,
    {
        if self.cursor_position > 0 {
            self.chars.remove(self.cursor_position - 1);
            self.cursor_position = self.cursor_position - 1;
        }
    }

    /// The help entries of the input line: search, cursor movement,
    /// deletion, and switching between the two input rows.
    pub fn help_keys(&self) -> (r: Vec<String>)
        ensures
            r@.len() == 4,
            r@[0]@ == "Search ["@ + spec_symbol(KeySymbols::ENTER) + "]"@,
            r@[1]@ == "Move cursor ["@ + spec_symbol(KeySymbols::LEFT) + spec_symbol(
                KeySymbols::RIGHT,
            ) + "]"@,
            r@[2]@ == "Delete Char ["@ + spec_symbol(KeySymbols::BACKSPACE) + "]"@,
            r@[3]@ == "Up/ Down ["@ + spec_symbol(KeySymbols::UP) + spec_symbol(KeySymbols::DOWN)
                + "]"@,
    {
        let mut r: Vec<String> = Vec::new();
        let mut search = String::from_str("Search [");
        search.append(KeySymbols::ENTER.symbol());
        search.append("]");
        proof {
            assert(search@ =~= "Search ["@ + spec_symbol(KeySymbols::ENTER) + "]"@);
        }
        r.push(search);
        let mut cursor = String::from_str("Move cursor [");
        cursor.append(KeySymbols::LEFT.symbol());
        cursor.append(KeySymbols::RIGHT.symbol());
        cursor.append("]");
        proof {
            assert(cursor@ =~= "Move cursor ["@ + spec_symbol(KeySymbols::LEFT) + spec_symbol(
                KeySymbols::RIGHT,
            ) + "]"@);
        }
        r.push(cursor);
        let mut delete = String::from_str("Delete Char [");
        delete.append(KeySymbols::BACKSPACE.symbol());
        delete.append("]");
        proof {
            assert(delete@ =~= "Delete Char ["@ + spec_symbol(KeySymbols::BACKSPACE) + "]"@);
        }
        r.push(delete);
        let mut updown = String::from_str("Up/ Down [");
        updown.append(KeySymbols::UP.symbol());
        updown.append(KeySymbols::DOWN.symbol());
        updown.append("]");
        proof {
            assert(updown@ =~= "Up/ Down ["@ + spec_symbol(KeySymbols::UP) + spec_symbol(
                KeySymbols::DOWN,
            ) + "]"@);
        }
        r.push(updown);
        r
    }

    /// Applies one key to the editor.
    pub fn handle_key(&mut self, key: InputKey)
        requires
            old(self).wf(),
            old(self).text().len() < usize::MAX,
        ensures
            final (self).wf(),
            match key {
                InputKey::Char(c) => final (self).text() == old(self).text().insert(
                    old(self).cursor_position as int,
                    c,
                ) && final (self).cursor_position == old(self).cursor_position + 1,
                InputKey::Backspace => (old(self).cursor_position == 0 ==> *final (self) == *old(
                    self,
                )) && (old(self).cursor_position > 0 ==> final (self).text() == old(
                    self,
                ).text().remove(old(self).cursor_position - 1) && final (self).cursor_position
                    == old(self).cursor_position - 1),
                InputKey::Left => final (self).text() == old(self).text() && final (
                    self
                ).cursor_position == (if old(self).cursor_position > 0 {
                    old(self).cursor_position - 1
                } else {
                    0int
                }),
                InputKey::Right => final (self).text() == old(self).text() && final (
                    self
                ).cursor_position == (if old(self).cursor_position < old(self).text().len() {
                    old(self).cursor_position + 1
                } else {
                    old(self).text().len() as int
                }),
                InputKey::Other => *final (self) == *old(self),
            },
    {
        match key {
            InputKey::Char(c) => self.enter_char(c),
            InputKey::Backspace => self.delete_char(),
            InputKey::Left => self.move_cursor_left(),
            InputKey::Right => self.move_cursor_right(),
            InputKey::Other => {},
        }
    }
}

} // verus!
