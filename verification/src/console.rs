//! Input for the console: the key presses that type a text.

use vstd::prelude::*;

verus! {

/// One key event for the console's input queue, with the character that it
/// carries as a code of eight bits.
#[derive(Clone, Copy, Debug, PartialEq, Eq, Structural)]
pub struct KeyEvent {
    pub key_down: bool,
    pub repeat_count: u16,
    pub virtual_key_code: u16,
    pub virtual_scan_code: u16,
    pub ascii_char: u8,
    pub control_key_state: u32,
}

/// The event of the key for `code` going down, once, with no control key
/// held.
pub open spec fn key_down(code: u8) -> KeyEvent {
    KeyEvent {
        key_down: true,
        repeat_count: 1,
        virtual_key_code: 0,
        virtual_scan_code: 0,
        ascii_char: code,
        control_key_state: 0,
    }
}

/// Whether `c` fits in a character code of eight bits.
pub open spec fn is_typeable(c: char) -> bool {
    c as u32 <= 0xFF
}

/// Whether every character of `text` fits in a code of eight bits.
pub open spec fn all_typeable(text: Seq<char>) -> bool {
    forall|i: int| 0 <= i < text.len() ==> is_typeable(#[trigger] text[i])
}

/// The key events that type `text`: one key going down for each character, in
/// the order of the text.
pub open spec fn typed(text: Seq<char>) -> Seq<KeyEvent> {
    text.map_values(|c: char| key_down(c as u8))
}

/// The event that types `c`, where `c` fits in a code of eight bits.
pub fn key_event(c: char) -> (event: Option<KeyEvent>)
    ensures
        event == if is_typeable(c) {
            Some(key_down(c as u8))
        } else {
            None
        },
{
    let code: u32 = c as u32;
    if code <= 0xFF {
        Some(
            KeyEvent {
                key_down: true,
                repeat_count: 1,
                virtual_key_code: 0,
                virtual_scan_code: 0,
                ascii_char: code as u8,
                control_key_state: 0,
            },
        )
    } else {
        None
    }
}

/// The characters of a text that are still to be typed, each to be had as a
/// key event.
pub struct ConsoleInputChars<'a>(&'a str);

impl<'a> View for ConsoleInputChars<'a> {
    type V = Seq<char>;

    /// The characters that are still to come.
    closed spec fn view(&self) -> Seq<char> {
        self.0@
    }
}

impl<'a> ConsoleInputChars<'a> {
    /// The characters of `text`, none of them typed yet.
    pub fn new(text: &'a str) -> (chars: Self)
        ensures
            chars@ == text@,
    {
        Self(text)
    }

    /// The event that types the next character, and `None` once the text is
    /// through.
    pub fn next(&mut self) -> (event: Option<KeyEvent>)
        requires
            old(self)@.len() > 0 ==> is_typeable(old(self)@[0]),
        ensures
            old(self)@.len() == 0 ==> event is None && final(self)@ == old(self)@,
            old(self)@.len() > 0 ==> event == Some(key_down(old(self)@[0] as u8)) && final(self)@
                == old(self)@.drop_first(),
    {
        let length = self.0.unicode_len();
        if length == 0 {
            return None;
        }
        let c = self.0.get_char(0);
        self.0 = self.0.substring_char(1, length);
        key_event(c)
    }

    /// The events that type all the characters still to come, in order; `None`
    /// where one of them does not fit in a code of eight bits.
    pub fn into_events(self) -> (events: Option<Vec<KeyEvent>>)
        ensures
            all_typeable(self@) ==> events is Some && events->Some_0@ == typed(self@),
            !all_typeable(self@) ==> events is None,
    {
        let mut events: Vec<KeyEvent> = Vec::new();
        for c in it: self.0.chars()
            invariant
                it.seq() == self@,
                all_typeable(self@.take(it.index())),
                events@ == typed(self@.take(it.index())),
        {
            match key_event(c) {
                Some(event) => {
                    proof {
                        let done = it.index();
                        assert(self@.take(done + 1) =~= self@.take(done).push(c));
                        assert(typed(self@.take(done + 1)) =~= typed(self@.take(done)).push(event));
                    }
                    events.push(event);
                },
                None => {
                    assert(!is_typeable(self@[it.index()]));
                    return None;
                },
            }
        }
        assert(self@.take(self@.len() as int) =~= self@);
        Some(events)
    }
}

/// The code of eight bits that stands for a character that fits is the
/// character's own code.
proof fn lemma_code_fits(c: char)
    requires
        is_typeable(c),
    ensures
        (c as u8) as u32 == c as u32,
{
}

/// Typing a text gives one event for each of its characters, in the order of
/// the text. Each event is a key going down once, with no control key held
/// and no key code of its own, and carries the code of its character.
pub proof fn lemma_typed_text(text: Seq<char>)
    requires
        all_typeable(text),
    ensures
        typed(text).len() == text.len(),
        forall|i: int|
            0 <= i < text.len() ==> {
                let event = #[trigger] typed(text)[i];
                &&& event.key_down
                &&& event.ascii_char as u32 == text[i] as u32
                &&& event.control_key_state == 0
                &&& event.repeat_count == 1
                &&& event.virtual_key_code == 0
                &&& event.virtual_scan_code == 0
            },
{
    assert forall|i: int| 0 <= i < text.len() implies (#[trigger] typed(text)[i]).ascii_char as u32
        == text[i] as u32 by {
        assert(is_typeable(text[i]));
        lemma_code_fits(text[i]);
    }
}

} // verus!
