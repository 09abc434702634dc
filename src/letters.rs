use vstd::prelude::*;

use crate::button::{ButtonInfo, GeneralInput, UserInput};
use crate::flash::{Color32, FlashMessage};

verus! {

/// How long the message shown on a press that hit nothing stays, in milliseconds.
pub const ILLUSION_MS: u64 = 500;

/// A secret word revealed one letter per click; `current_index` is the reveal cursor.
pub struct LetterByLetter {
    pub current_index: usize,
    pub full_string: Vec<char>,
}

impl LetterByLetter {
    /// The reveal cursor never passes the end of the word.
    pub open spec fn wf(&self) -> bool {
        self.current_index <= self.full_string@.len()
    }

    pub fn new(full_string: Vec<char>) -> (r: LetterByLetter)
        ensures
            r.wf(),
            r.current_index == 0,
            r.full_string@ == full_string@,
    {
        LetterByLetter { current_index: 0, full_string }
    }
}

/// The letter at `i` alone, or nothing past the end.
pub open spec fn letter_at(s: Seq<char>, i: int) -> Seq<char> {
    if 0 <= i < s.len() {
        seq![s[i]]
    } else {
        Seq::empty()
    }
}

/// A press happened this frame and no button caught it.
pub open spec fn missed(g: GeneralInput) -> bool {
    0 < g.clicks && g.catched == 0
}

/// The reveal cursor after the frame: a click on the button moves it on by one, up to
/// the end of the word; it never moves back.
pub open spec fn next_index(clicked: bool, l: LetterByLetter) -> int {
    if clicked && l.current_index < l.full_string@.len() {
        l.current_index + 1
    } else {
        l.current_index as int
    }
}

fn letter(s: &Vec<char>, i: usize) -> (r: Vec<char>)
    ensures
        r@ == letter_at(s@, i as int),
{
    let mut r: Vec<char> = Vec::new();
    if i < s.len() {
        r.push(s[i]);
    }
    assert(r@ =~= letter_at(s@, i as int));
    r
}

/// The reveal pass of one button for a frame. A press that no button caught returns a
/// message to flash until `now + ILLUSION_MS`, and leaves the cursor and the text as
/// they are. A click on the button shows the letter under the advanced cursor, or
/// nothing once the whole word has gone by.
pub fn button_letters(
    now: u64,
    general_input: &GeneralInput,
    input: &UserInput,
    letters: &mut LetterByLetter,
    info: &mut ButtonInfo,
) -> (flash: Option<FlashMessage>)
    requires
        old(letters).wf(),
    ensures
        final(letters).wf(),
        final(letters).full_string@ == old(letters).full_string@,
        final(letters).current_index == next_index(input.clicked_on_frame, *old(letters)),
        old(letters).current_index <= final(letters).current_index,
        final(info).text@ == if input.clicked_on_frame {
            letter_at(old(letters).full_string@, final(letters).current_index as int)
        } else {
            old(info).text@
        },
        final(info).position == old(info).position,
        final(info).visible == old(info).visible,
        flash is Some <==> missed(*general_input),
        flash matches Some(f) ==> {
            &&& f.message@ == "ILLUSION"@
            &&& f.color == Color32::spec_yellow()
            &&& f.time_expire == if now + ILLUSION_MS > u64::MAX {
                u64::MAX as int
            } else {
                now + ILLUSION_MS
            }
        },
{
    let mut flash: Option<FlashMessage> = None;
    if 0 < general_input.clicks && 0 == general_input.catched {
        let expire = if now > u64::MAX - ILLUSION_MS {
            u64::MAX
        } else {
            now + ILLUSION_MS
        };
        flash = Some(
            FlashMessage { message: "ILLUSION".to_owned(), color: Color32::yellow(), time_expire: expire },
        );
    }
    if input.clicked_on_frame {
        if letters.current_index < letters.full_string.len() {
            letters.current_index = letters.current_index + 1;
        }
        info.text = letter(&letters.full_string, letters.current_index);
    }
    flash
}

} // verus!
