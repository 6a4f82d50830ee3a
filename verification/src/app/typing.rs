use vstd::prelude::*;

use crate::service::text::{chars_of, string_of};

verus! {

/// Text being typed and the cursor in it, a position between characters.
pub struct TypingInput {
    input: Vec<char>,
    cursor: usize,
}

/// The text after `c` is typed at `k`, and the cursor after it.
pub open spec fn typed(s: Seq<char>, k: usize, c: char) -> (Seq<char>, usize) {
    (s.insert(k as int, c), (k + 1) as usize)
}

/// The text after the character before `k` is erased, and the cursor; nothing
/// changes at the start.
pub open spec fn erased(s: Seq<char>, k: usize) -> (Seq<char>, usize) {
    if k > 0 {
        (s.remove(k - 1), (k - 1) as usize)
    } else {
        (s, k)
    }
}

impl View for TypingInput {
    type V = (Seq<char>, usize);

    closed spec fn view(&self) -> (Seq<char>, usize) {
        (self.input@, self.cursor)
    }
}

impl TypingInput {
    /// The cursor stands within the text.
    pub closed spec fn wf(&self) -> bool {
        self.cursor <= self.input@.len()
    }

    #[verifier::type_invariant]
    spec fn cursor_in_text(&self) -> bool {
        self.cursor <= self.input@.len()
    }

    /// Nothing typed.
    pub fn new() -> (r: TypingInput)
        ensures
            r.wf(),
            r@.0.len() == 0,
            r@.1 == 0,
    {
        TypingInput { input: Vec::new(), cursor: 0 }
    }

    /// Typing starts from `content`, the cursor at its end.
    pub fn from_content(content: &str) -> (r: TypingInput)
        ensures
            r.wf(),
            r@.0 == content@,
            r@.1 == content@.len(),
    {
        let input = chars_of(content);
        let cursor = input.len();
        TypingInput { input, cursor }
    }

    /// The text typed so far.
    pub fn text(&self) -> (r: String)
        ensures
            r@ == self@.0,
    {
        string_of(&self.input)
    }

    /// The cursor; whatever was done with the input before, in whichever
    /// state of the application, it stands within the text.
    pub fn cursor(&self) -> (r: usize)
        ensures
            r == self@.1,
            r <= self@.0.len(),
            self.wf(),
    {
        proof {
            use_type_invariant(self);
        }
        self.cursor
    }

    /// Types `c` at the cursor, which moves past it.
    pub fn insert_char(&mut self, c: char)
        requires
            old(self).wf(),
            old(self)@.0.len() < usize::MAX,
        ensures
            final(self).wf(),
            final(self)@ == typed(old(self)@.0, old(self)@.1, c),
    {
        let k = self.cursor;
        self.cursor = 0;
        let mut text: Vec<char> = Vec::new();
        std::mem::swap(&mut text, &mut self.input);
        text.insert(k, c);
        self.input = text;
        self.cursor = k + 1;
    }

    /// Erases the character before the cursor, if any.
    pub fn backspace(&mut self)
        requires
            old(self).wf(),
        ensures
            final(self).wf(),
            final(self)@ == erased(old(self)@.0, old(self)@.1),
    {
        if self.cursor > 0 {
            let k = self.cursor - 1;
            self.cursor = 0;
            let mut text: Vec<char> = Vec::new();
            std::mem::swap(&mut text, &mut self.input);
            text.remove(k);
            self.input = text;
            self.cursor = k;
        }
    }

    /// Moves the cursor one character left, if it can.
    pub fn move_left(&mut self)
        requires
            old(self).wf(),
        ensures
            final(self).wf(),
            final(self)@.0 == old(self)@.0,
            final(self)@.1 == if old(self)@.1 > 0 { (old(self)@.1 - 1) as usize } else { 0 },
    {
        if self.cursor > 0 {
            self.cursor = self.cursor - 1;
        }
    }

    /// Moves the cursor one character right, if it can.
    pub fn move_right(&mut self)
        requires
            old(self).wf(),
        ensures
            final(self).wf(),
            final(self)@.0 == old(self)@.0,
            final(self)@.1 == if old(self)@.1 < old(self)@.0.len() {
                (old(self)@.1 + 1) as usize
            } else {
                old(self)@.1
            },
    {
        if self.cursor < self.input.len() {
            self.cursor = self.cursor + 1;
        }
    }

    /// Moves the cursor to the start.
    pub fn home(&mut self)
        requires
            old(self).wf(),
        ensures
            final(self).wf(),
            final(self)@ == (old(self)@.0, 0usize),
    {
        self.cursor = 0;
    }

    /// Moves the cursor to the end.
    pub fn end(&mut self)
        requires
            old(self).wf(),
        ensures
            final(self).wf(),
            final(self)@ == (old(self)@.0, old(self)@.0.len() as usize),
    {
        self.cursor = self.input.len();
    }
}

/// Erasing right after typing a character gives back the text and the
/// cursor from before.
pub proof fn lemma_erase_undoes_type(s: Seq<char>, k: usize, c: char)
    requires
        k <= s.len(),
        s.len() < usize::MAX,
    ensures
        erased(typed(s, k, c).0, typed(s, k, c).1) == (s, k),
{
    assert(s.insert(k as int, c).remove(k as int) =~= s);
}

/// Typing keeps the cursor right after what was typed: the typed characters
/// stand in order before it.
pub proof fn lemma_typed_before_cursor(s: Seq<char>, k: usize, c: char)
    requires
        k <= s.len(),
        s.len() < usize::MAX,
    ensures
        typed(s, k, c).0.take(typed(s, k, c).1 as int) == s.take(k as int).push(c),
        typed(s, k, c).0.skip(typed(s, k, c).1 as int) == s.skip(k as int),
{
    assert(s.insert(k as int, c).take(k + 1) =~= s.take(k as int).push(c));
    assert(s.insert(k as int, c).skip(k + 1) =~= s.skip(k as int));
}

} // verus!
