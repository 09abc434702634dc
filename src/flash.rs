use vstd::prelude::*;

verus! {

/// A color with red, green, blue and alpha channels.
#[derive(Clone, Copy, Debug, PartialEq, Eq, Structural)]
pub struct Color32 {
    pub r: u8,
    pub g: u8,
    pub b: u8,
    pub a: u8,
}

impl Color32 {
    pub open spec fn spec_yellow() -> Color32 {
        Color32 { r: 255, g: 255, b: 0, a: 255 }
    }

    /// Opaque yellow.
    pub fn yellow() -> (c: Color32)
        ensures
            c == Self::spec_yellow(),
    {
        Color32 { r: 255, g: 255, b: 0, a: 255 }
    }
}

/// A short-lived text shown on screen until `time_expire` (milliseconds since start).
pub struct FlashMessage {
    pub message: String,
    pub color: Color32,
    pub time_expire: u64,
}

/// The messages of `s`, in order, that are still alive at `now`.
pub open spec fn unexpired(s: Seq<FlashMessage>, now: u64) -> Seq<FlashMessage>
    decreases s.len(),
{
    if s.len() == 0 {
        s
    } else {
        let rest = unexpired(s.drop_first(), now);
        if s[0].time_expire >= now {
            seq![s[0]] + rest
        } else {
            rest
        }
    }
}

/// Keeps the messages that are still alive at `now`, in their order; a message is
/// dropped once `now` is past its expiry.
pub fn flash_message(now: u64, messages: Vec<FlashMessage>) -> (kept: Vec<FlashMessage>)
    ensures
        kept@ == unexpired(messages@, now),
{
    let mut rest = messages;
    let mut kept: Vec<FlashMessage> = Vec::new();
    while rest.len() > 0
        invariant
            kept@ + unexpired(rest@, now) == unexpired(messages@, now),
        decreases rest@.len(),
    {
        let ghost before = rest@;
        let m = rest.remove(0);
        assert(rest@ == before.drop_first());
        if m.time_expire >= now {
            assert(kept@.push(m) + unexpired(rest@, now) == kept@ + unexpired(before, now));
            kept.push(m);
        }
    }
    assert(kept@ + unexpired(rest@, now) == kept@);
    kept
}

} // verus!
