use vstd::prelude::*;

use crate::blink::{BlinkState, Blinking};
use crate::button::{ButtonInfo, UserInput};
use crate::geometry::{Pos2, Rect};
use crate::letters::LetterByLetter;
use crate::mover::{MovingDef, MovingState};

verus! {

/// Everything one button of the opening level carries. Positions are in hundredths of a
/// pixel, speeds in hundredths of a pixel per second, times in milliseconds.
pub struct LevelButton {
    pub info: ButtonInfo,
    pub letters: LetterByLetter,
    pub input: UserInput,
    pub blinking: Blinking,
    pub blink_state: BlinkState,
    pub moving: MovingDef,
    pub moving_state: MovingState,
}

/// The opening level at time `now`: one button spelling "Security", which blinks from
/// two seconds on and moves up and down between two waypoints.
pub fn setup_level(now: u64) -> (b: LevelButton)
    ensures
        b.info.text@ == seq!['S'],
        b.info.position == (Rect { min: Pos2 { x: 1000, y: 2000 }, width: 1000, height: 5000 }),
        b.info.visible,
        b.letters.wf(),
        b.letters.current_index == 0,
        b.letters.full_string@ == seq!['S', 'e', 'c', 'u', 'r', 'i', 't', 'y'],
        !b.input.clicked_on_frame,
        b.blinking == (Blinking { displayed: 330, hidden: 1000 }),
        b.blink_state == BlinkState::Visible(if now + 2000 > u64::MAX {
            u64::MAX
        } else {
            (now + 2000) as u64
        }),
        b.moving.path@ == seq![Pos2 { x: 1000, y: 2000 }, Pos2 { x: 1000, y: 10000 }],
        b.moving.speed == 2500,
        b.moving_state.target_index == 0,
{
    let start = if now > u64::MAX - 2000 {
        u64::MAX
    } else {
        now + 2000
    };
    let mut path: Vec<Pos2> = Vec::new();
    path.push(Pos2 { x: 1000, y: 2000 });
    path.push(Pos2 { x: 1000, y: 10000 });
    let mut text: Vec<char> = Vec::new();
    text.push('S');
    let mut word: Vec<char> = Vec::new();
    word.push('S');
    word.push('e');
    word.push('c');
    word.push('u');
    word.push('r');
    word.push('i');
    word.push('t');
    word.push('y');
    assert(path@ =~= seq![Pos2 { x: 1000, y: 2000 }, Pos2 { x: 1000, y: 10000 }]);
    assert(text@ =~= seq!['S']);
    assert(word@ =~= seq!['S', 'e', 'c', 'u', 'r', 'i', 't', 'y']);
    LevelButton {
        info: ButtonInfo {
            text,
            position: Rect { min: Pos2 { x: 1000, y: 2000 }, width: 1000, height: 5000 },
            visible: true,
        },
        letters: LetterByLetter { current_index: 0, full_string: word },
        input: UserInput { clicked_on_frame: false },
        blinking: Blinking { displayed: 330, hidden: 1000 },
        blink_state: BlinkState::Visible(start),
        moving: MovingDef { path, speed: 2500 },
        moving_state: MovingState { target_index: 0 },
    }
}

} // verus!
