use vstd::prelude::*;

use crate::geometry::{Pos2, Rect};

verus! {

/// Counters shared by all buttons for one frame.
pub struct GeneralInput {
    /// Set to 1 when a pointer press happened this frame, hit or not.
    pub clicks: usize,
    /// How many buttons caught a press this frame.
    pub catched: usize,
}

/// What a button shows and where.
#[derive(Clone, Debug)]
pub struct ButtonInfo {
    pub text: Vec<char>,
    pub position: Rect,
    pub visible: bool,
}

/// Per-button input flag, set when the button caught a press this frame.
#[derive(Clone, Copy, Debug, PartialEq, Eq, Structural)]
pub struct UserInput {
    pub clicked_on_frame: bool,
}

impl GeneralInput {
    pub fn new() -> (r: GeneralInput)
        ensures
            r.clicks == 0,
            r.catched == 0,
    {
        GeneralInput { clicks: 0, catched: 0 }
    }
}

impl UserInput {
    pub fn new() -> (r: UserInput)
        ensures
            !r.clicked_on_frame,
    {
        UserInput { clicked_on_frame: false }
    }
}

/// All flags cleared, one per button.
pub open spec fn cleared(inputs: Seq<UserInput>) -> Seq<UserInput> {
    Seq::new(inputs.len(), |i: int| UserInput { clicked_on_frame: false })
}

/// Whether a press at `press` lands on the button: only a visible button can be hit.
pub open spec fn hit(b: ButtonInfo, press: Option<Pos2>) -> bool {
    &&& b.visible
    &&& press is Some
    &&& b.position.spec_contains(press->0)
}

/// The flags after a press: a flag already set stays set, and a hit button's flag is set.
pub open spec fn flags_after_press(
    inputs: Seq<UserInput>,
    buttons: Seq<ButtonInfo>,
    press: Option<Pos2>,
) -> Seq<UserInput> {
    Seq::new(
        inputs.len(),
        |i: int| UserInput { clicked_on_frame: inputs[i].clicked_on_frame || hit(buttons[i], press) },
    )
}

/// How many of the first `n` buttons the press hits.
pub open spec fn count_hits(buttons: Seq<ButtonInfo>, press: Option<Pos2>, n: int) -> nat
    decreases n,
{
    if n <= 0 {
        0
    } else {
        count_hits(buttons, press, n - 1) + if hit(buttons[n - 1], press) {
            1nat
        } else {
            0nat
        }
    }
}

proof fn lemma_count_hits_bound(buttons: Seq<ButtonInfo>, press: Option<Pos2>, n: int)
    requires
        0 <= n,
    ensures
        count_hits(buttons, press, n) <= n,
    decreases n,
{
    if n > 0 {
        lemma_count_hits_bound(buttons, press, n - 1);
    }
}

/// Clears every button's flag and both global counters, at the start of a frame.
pub fn reset_input(general_input: &mut GeneralInput, inputs: &mut Vec<UserInput>)
    ensures
        final(general_input).clicks == 0,
        final(general_input).catched == 0,
        final(inputs)@ == cleared(old(inputs)@),
{
    let n = inputs.len();
    let mut i: usize = 0;
    while i < n
        invariant
            n == inputs@.len(),
            inputs@.len() == old(inputs)@.len(),
            0 <= i <= n,
            forall|j: int| 0 <= j < i ==> !(#[trigger] inputs@[j]).clicked_on_frame,
        decreases n - i,
    {
        inputs.set(i, UserInput { clicked_on_frame: false });
        i = i + 1;
    }
    assert(inputs@ =~= cleared(old(inputs)@));
    general_input.catched = 0;
    general_input.clicks = 0;
}

/// The hit-test pass of a frame: a press at `press` (if any) sets the flag of every
/// visible button whose rectangle holds it, counts those buttons as caught, and marks
/// that a press happened at all.
pub fn display_buttons(
    general_input: &mut GeneralInput,
    buttons: &Vec<ButtonInfo>,
    inputs: &mut Vec<UserInput>,
    press: Option<Pos2>,
)
    requires
        old(inputs)@.len() == buttons@.len(),
        old(general_input).catched + buttons@.len() <= usize::MAX,
    ensures
        final(inputs)@ == flags_after_press(old(inputs)@, buttons@, press),
        final(general_input).catched == old(general_input).catched + count_hits(
            buttons@,
            press,
            buttons@.len() as int,
        ),
        final(general_input).clicks == if press is Some {
            1
        } else {
            old(general_input).clicks
        },
{
    let n = buttons.len();
    let mut i: usize = 0;
    while i < n
        invariant
            n == buttons@.len(),
            inputs@.len() == n,
            0 <= i <= n,
            old(general_input).catched + n <= usize::MAX,
            general_input.clicks == old(general_input).clicks,
            general_input.catched == old(general_input).catched + count_hits(
                buttons@,
                press,
                i as int,
            ),
            forall|j: int|
                0 <= j < i ==> (#[trigger] inputs@[j]).clicked_on_frame == (
                old(inputs)@[j].clicked_on_frame || hit(buttons@[j], press)),
            forall|j: int| i <= j < n ==> #[trigger] inputs@[j] == old(inputs)@[j],
        decreases n - i,
    {
        let b = &buttons[i];
        let caught = match press {
            Some(p) => b.visible && b.position.contains(p),
            None => false,
        };
        proof {
            lemma_count_hits_bound(buttons@, press, i as int);
        }
        if caught {
            inputs.set(i, UserInput { clicked_on_frame: true });
            general_input.catched = general_input.catched + 1;
        }
        i = i + 1;
    }
    assert(inputs@ =~= flags_after_press(old(inputs)@, buttons@, press));
    if press.is_some() {
        general_input.clicks = 1;
    }
}

/// Within one frame, a flag cleared at its start is set afterwards exactly for the
/// buttons that the frame's press hits.
pub proof fn lemma_frame_flags(
    inputs: Seq<UserInput>,
    buttons: Seq<ButtonInfo>,
    press: Option<Pos2>,
    i: int,
)
    requires
        inputs.len() == buttons.len(),
        0 <= i < inputs.len(),
    ensures
        !cleared(inputs)[i].clicked_on_frame,
        flags_after_press(cleared(inputs), buttons, press)[i].clicked_on_frame == hit(
            buttons[i],
            press,
        ),
{
}

} // verus!
