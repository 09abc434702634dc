use game_button::blink::{button_blink, BlinkState, Blinking};
use game_button::button::{display_buttons, reset_input, ButtonInfo, GeneralInput, UserInput};
use game_button::flash::{flash_message, Color32, FlashMessage};
use game_button::geometry::{Pos2, Rect};
use game_button::letters::{button_letters, LetterByLetter};
use game_button::level::{Level, Target};
use game_button::mover::{button_move, move_towards, MovingDef, MovingState};
use game_button::setup::setup_level;

fn chars(s: &str) -> Vec<char> {
    s.chars().collect()
}

fn button(x: i32, y: i32, visible: bool) -> ButtonInfo {
    ButtonInfo {
        text: chars("A"),
        position: Rect::from_min_size(Pos2::new(x, y), 10, 10),
        visible,
    }
}

#[test]
fn reset_clears_flags_and_counters() {
    let mut g = GeneralInput { clicks: 1, catched: 3 };
    let mut inputs = vec![UserInput { clicked_on_frame: true }, UserInput::new()];
    reset_input(&mut g, &mut inputs);
    assert_eq!(g.clicks, 0);
    assert_eq!(g.catched, 0);
    assert!(inputs.iter().all(|i| !i.clicked_on_frame));
}

#[test]
fn press_sets_only_buttons_under_it() {
    let buttons = vec![button(0, 0, true), button(100, 100, true), button(5, 5, false)];
    let mut g = GeneralInput::new();
    let mut inputs = vec![UserInput::new(); 3];
    reset_input(&mut g, &mut inputs);
    display_buttons(&mut g, &buttons, &mut inputs, Some(Pos2::new(5, 5)));
    assert!(inputs[0].clicked_on_frame);
    assert!(!inputs[1].clicked_on_frame);
    // hidden buttons cannot be clicked
    assert!(!inputs[2].clicked_on_frame);
    assert_eq!(g.catched, 1);
    assert_eq!(g.clicks, 1);
}

#[test]
fn press_on_border_counts() {
    let buttons = vec![button(0, 0, true)];
    let mut g = GeneralInput::new();
    let mut inputs = vec![UserInput::new()];
    display_buttons(&mut g, &buttons, &mut inputs, Some(Pos2::new(10, 10)));
    assert!(inputs[0].clicked_on_frame);
    let mut inputs = vec![UserInput::new()];
    let mut g = GeneralInput::new();
    display_buttons(&mut g, &buttons, &mut inputs, Some(Pos2::new(11, 10)));
    assert!(!inputs[0].clicked_on_frame);
    assert_eq!(g.catched, 0);
    assert_eq!(g.clicks, 1);
}

#[test]
fn no_press_changes_nothing() {
    let buttons = vec![button(0, 0, true)];
    let mut g = GeneralInput::new();
    let mut inputs = vec![UserInput::new()];
    display_buttons(&mut g, &buttons, &mut inputs, None);
    assert!(!inputs[0].clicked_on_frame);
    assert_eq!(g.clicks, 0);
    assert_eq!(g.catched, 0);
}

#[test]
fn move_towards_exact_values() {
    let o = Pos2::new(0, 0);
    assert_eq!(move_towards(o, Pos2::new(0, 80), 40), Pos2::new(0, 40));
    assert_eq!(move_towards(o, Pos2::new(30, 40), 10), Pos2::new(6, 8));
    assert_eq!(move_towards(o, Pos2::new(30, 40), 50), Pos2::new(30, 40));
    assert_eq!(move_towards(o, Pos2::new(30, 40), 60), Pos2::new(30, 40));
    assert_eq!(move_towards(o, Pos2::new(3, 3), 1), Pos2::new(1, 1));
    assert_eq!(move_towards(o, Pos2::new(-30, -40), 10), Pos2::new(-6, -8));
    assert_eq!(move_towards(o, o, 0), o);
}

#[test]
fn move_towards_far_apart() {
    let a = Pos2::new(i32::MIN, i32::MIN);
    let b = Pos2::new(i32::MAX, i32::MAX);
    let r = move_towards(a, b, 1000);
    assert!(r.x > a.x && r.x <= b.x);
    assert_eq!(move_towards(a, b, u64::MAX), b);
}

#[test]
fn mover_reaches_waypoint_and_turns_back() {
    let def = MovingDef { path: vec![Pos2::new(10, 20), Pos2::new(10, 100)], speed: 25 };
    let mut state = MovingState { target_index: 0 };
    let mut info = button(10, 20, true);
    // standing on the first waypoint: turn to the second at once
    button_move(1000, &def, &mut state, &mut info);
    assert_eq!(state.target_index, 1);
    let mut frames = 0;
    while info.position.min != Pos2::new(10, 100) {
        let before = info.position.min.y;
        button_move(1000, &def, &mut state, &mut info);
        assert!(info.position.min.y > before && info.position.min.y <= 100);
        frames += 1;
        assert!(frames <= 4);
    }
    assert_eq!(frames, 4);
    assert_eq!(state.target_index, 0);
    button_move(1000, &def, &mut state, &mut info);
    assert_eq!(info.position.min, Pos2::new(10, 75));
    assert_eq!(info.position.width, 10);
    assert_eq!(info.position.height, 10);
}

#[test]
fn mover_step_distance_scales_with_time() {
    let def = MovingDef { path: vec![Pos2::new(0, 1000)], speed: 2500 };
    let mut state = MovingState { target_index: 0 };
    let mut info = button(0, 0, true);
    button_move(16, &def, &mut state, &mut info);
    assert_eq!(info.position.min, Pos2::new(0, 40));
    assert_eq!(state.target_index, 0);
}

#[test]
fn blink_cycle() {
    let def = Blinking { displayed: 330, hidden: 1000 };
    let mut state = BlinkState::Visible(2000);
    let mut info = button(0, 0, true);
    button_blink(1999, &def, &mut state, &mut info);
    assert_eq!(state, BlinkState::Visible(2000));
    assert!(info.visible);
    button_blink(2000, &def, &mut state, &mut info);
    assert_eq!(state, BlinkState::Hidden(3000));
    assert!(!info.visible);
    button_blink(2999, &def, &mut state, &mut info);
    assert!(!info.visible);
    button_blink(3100, &def, &mut state, &mut info);
    assert_eq!(state, BlinkState::Visible(4000));
    assert!(info.visible);
}

#[test]
fn blink_schedule_does_not_drift_when_seen_late() {
    let def = Blinking { displayed: 330, hidden: 1000 };
    let mut state = BlinkState::Visible(2000);
    let mut info = button(0, 0, true);
    button_blink(2500, &def, &mut state, &mut info);
    assert_eq!(state, BlinkState::Hidden(3000));
    assert!(!info.visible);
    button_blink(3000, &def, &mut state, &mut info);
    assert_eq!(state, BlinkState::Visible(4000));
    assert!(info.visible);
}

#[test]
fn blink_saturates_at_end_of_time() {
    let def = Blinking { displayed: 1, hidden: 10 };
    let mut state = BlinkState::Visible(u64::MAX - 3);
    let mut info = button(0, 0, true);
    button_blink(u64::MAX, &def, &mut state, &mut info);
    assert_eq!(state, BlinkState::Hidden(u64::MAX));
}

fn letter_button(word: &str) -> (LetterByLetter, ButtonInfo) {
    (LetterByLetter::new(chars(word)), ButtonInfo { text: chars(&word[..1]), ..button(0, 0, true) })
}

#[test]
fn letters_reveal_one_per_click_and_stop_at_end() {
    let (mut letters, mut info) = letter_button("Sec");
    let g = GeneralInput { clicks: 1, catched: 1 };
    let clicked = UserInput { clicked_on_frame: true };
    let expected = ["e", "c", "", ""];
    for e in expected.iter() {
        let flash = button_letters(0, &g, &clicked, &mut letters, &mut info);
        assert!(flash.is_none());
        assert_eq!(info.text, chars(e));
        assert!(letters.current_index <= letters.full_string.len());
    }
    assert_eq!(letters.current_index, 3);
}

#[test]
fn letters_unclicked_keep_text() {
    let (mut letters, mut info) = letter_button("Sec");
    let g = GeneralInput::new();
    let flash = button_letters(0, &g, &UserInput::new(), &mut letters, &mut info);
    assert!(flash.is_none());
    assert_eq!(info.text, chars("S"));
    assert_eq!(letters.current_index, 0);
}

#[test]
fn missed_press_flashes_and_keeps_progress() {
    let (mut letters, mut info) = letter_button("Security");
    letters.current_index = 4;
    info.text = chars("r");
    let g = GeneralInput { clicks: 1, catched: 0 };
    let flash = button_letters(100, &g, &UserInput::new(), &mut letters, &mut info).unwrap();
    assert_eq!(letters.current_index, 4);
    assert_eq!(info.text, chars("r"));
    assert_eq!(flash.message, "ILLUSION");
    assert_eq!(flash.color, Color32 { r: 255, g: 255, b: 0, a: 255 });
    assert_eq!(flash.time_expire, 600);
}

#[test]
fn click_at_end_of_word_stays_at_end() {
    let (mut letters, mut info) = letter_button("Sec");
    letters.current_index = 3;
    let g = GeneralInput { clicks: 1, catched: 0 };
    let flash = button_letters(0, &g, &UserInput { clicked_on_frame: true }, &mut letters, &mut info);
    assert!(flash.is_some());
    assert_eq!(letters.current_index, 3);
    assert_eq!(info.text, chars(""));
}

#[test]
fn flash_messages_expire() {
    let msg = |t: u64, s: &str| FlashMessage {
        message: s.to_string(),
        color: Color32::yellow(),
        time_expire: t,
    };
    let kept = flash_message(500, vec![msg(400, "a"), msg(500, "b"), msg(501, "c"), msg(900, "c")]);
    let texts: Vec<&str> = kept.iter().map(|m| m.message.as_str()).collect();
    assert_eq!(texts, vec!["b", "c", "c"]);
    assert!(flash_message(0, vec![]).is_empty());
}

fn target(x: i32, label: &str, required_success: usize, terminal: bool) -> Target {
    Target {
        position: Rect::from_min_size(Pos2::new(x, 0), 10, 10),
        label: chars(label),
        required_success,
        terminal,
    }
}

#[test]
fn reliability_level_reaches_twelve() {
    let targets = vec![target(0, "Reliability", 0, false), target(100, "Go", 11, true)];
    let mut level = Level::new(targets, chars("You win!")).unwrap();
    let word = chars("Reliability");
    for (k, c) in word.iter().enumerate() {
        assert_eq!(level.next_letter(0), Some(*c));
        assert!(level.click(Pos2::new(5, 5)));
        assert_eq!(level.success, k + 1);
    }
    assert_eq!(level.next_letter(0), None);
    assert!(level.click(Pos2::new(105, 5)));
    assert_eq!(level.success, 12);
    assert!(level.misses.is_empty());
}

#[test]
fn out_of_order_click_is_a_miss() {
    let targets = vec![target(0, "A", 0, true), target(100, "B", 1, true), target(200, "C", 2, true)];
    let mut level = Level::new(targets, chars("WIN")).unwrap();
    assert!(!level.click(Pos2::new(105, 5)));
    assert_eq!(level.success, 0);
    assert_eq!(level.misses, vec![Pos2::new(105, 5)]);
    assert!(level.click(Pos2::new(5, 5)));
    assert!(level.click(Pos2::new(105, 5)));
    assert!(!level.click(Pos2::new(500, 500)));
    assert_eq!(level.success, 2);
    assert!(level.click(Pos2::new(205, 5)));
    assert_eq!(level.success, 3);
    // everything is done: any press is a miss
    assert!(!level.click(Pos2::new(205, 5)));
    assert_eq!(level.success, 3);
    assert_eq!(level.misses.len(), 3);
}

#[test]
fn level_rejects_gaps_and_overlaps() {
    let gap = vec![target(0, "A", 0, true), target(100, "B", 2, true)];
    assert!(Level::new(gap, chars("W")).is_none());
    let overlap = vec![target(0, "AB", 0, false), target(100, "C", 1, true)];
    assert!(Level::new(overlap, chars("W")).is_none());
    let late = vec![target(0, "A", 1, true)];
    assert!(Level::new(late, chars("W")).is_none());
    assert!(Level::new(vec![], chars("W")).is_some());
}

#[test]
fn progress_splits_win_message() {
    let targets = vec![target(0, "AB", 0, false)];
    let mut level = Level::new(targets, chars("WIN")).unwrap();
    assert_eq!(level.progress(), (chars(""), chars("WIN")));
    level.click(Pos2::new(1, 1));
    assert_eq!(level.progress(), (chars("W"), chars("IN")));
    level.click(Pos2::new(1, 1));
    assert_eq!(level.progress(), (chars("WI"), chars("N")));
}

#[test]
fn opening_level_button() {
    let b = setup_level(500);
    assert_eq!(b.info.text, chars("S"));
    assert!(b.info.visible);
    assert_eq!(b.letters.full_string, chars("Security"));
    assert_eq!(b.blink_state, BlinkState::Visible(2500));
    assert_eq!(b.moving.path, vec![Pos2::new(1000, 2000), Pos2::new(1000, 10000)]);
    assert_eq!(b.moving_state.target_index, 0);
}
