use pmt::editor::{is_fresh, EditorState, REROLLED};
use pmt::models::Token;
use pmt::render::render_template;

fn names(state: &EditorState) -> Vec<&str> {
    state.fields.iter().map(|f| f.name.as_str()).collect()
}

fn values(state: &EditorState) -> Vec<&str> {
    state.fields.iter().map(|f| f.value.as_str()).collect()
}

#[test]
fn new_session() {
    let state = EditorState::new(4, "Hi {a}, {b|bee} and {a} {random|x y}");
    assert_eq!(state.template_index, 4);
    assert_eq!(state.tokens.len(), 8);
    assert_eq!(names(&state), vec!["a", "b"]);
    assert_eq!(values(&state), vec!["", ""]);
    assert_eq!(state.active_field, 0);
    assert_eq!(state.field_scroll, 0);
    assert!(state.status.is_none());
}

#[test]
fn next_field_wraps() {
    let mut state = EditorState::new(0, "{a}{b}{c}");
    state.next_field();
    assert_eq!(state.active_field, 1);
    state.next_field();
    assert_eq!(state.active_field, 2);
    state.next_field();
    assert_eq!(state.active_field, 0);
}

#[test]
fn prev_field_wraps() {
    let mut state = EditorState::new(0, "{a}{b}{c}");
    state.prev_field();
    assert_eq!(state.active_field, 2);
    state.prev_field();
    assert_eq!(state.active_field, 1);
    state.prev_field();
    assert_eq!(state.active_field, 0);
}

#[test]
fn moving_without_fields_changes_nothing() {
    let mut state = EditorState::new(0, "no fields");
    state.next_field();
    assert_eq!(state.active_field, 0);
    state.prev_field();
    assert_eq!(state.active_field, 0);
    state.active_field = 5;
    state.next_field();
    assert_eq!(state.active_field, 5);
    state.prev_field();
    assert_eq!(state.active_field, 5);
}

#[test]
fn next_field_from_beyond_the_fields() {
    let mut state = EditorState::new(0, "{a}{b}{c}");
    state.active_field = 7;
    state.next_field();
    assert_eq!(state.active_field, 2);
    state.active_field = usize::MAX;
    state.next_field();
    assert_eq!(state.active_field, ((usize::MAX % 3) + 1) % 3);
}

#[test]
fn single_field_keeps_the_cursor() {
    let mut state = EditorState::new(0, "{a}");
    state.next_field();
    assert_eq!(state.active_field, 0);
    state.prev_field();
    assert_eq!(state.active_field, 0);
}

#[test]
fn typing_goes_to_the_active_field() {
    let mut state = EditorState::new(0, "{a} {b}");
    state.push_char('x');
    state.push_char('界');
    state.next_field();
    state.push_char('y');
    assert_eq!(values(&state), vec!["x界", "y"]);
    assert_eq!(render_template(&state.tokens, &state.fields), "x界 y");
}

#[test]
fn backspace_takes_the_last_character() {
    let mut state = EditorState::new(0, "{a} {b}");
    state.push_char('x');
    state.push_char('界');
    state.backspace();
    assert_eq!(values(&state), vec!["x", ""]);
    state.backspace();
    assert_eq!(values(&state), vec!["", ""]);
    state.backspace();
    assert_eq!(values(&state), vec!["", ""]);
}

#[test]
fn typing_without_a_field_changes_nothing() {
    let mut state = EditorState::new(0, "text");
    state.push_char('x');
    state.backspace();
    assert!(state.fields.is_empty());
    let mut state = EditorState::new(0, "{a}");
    state.active_field = 3;
    state.push_char('x');
    state.backspace();
    assert_eq!(values(&state), vec![""]);
}

#[test]
fn set_status_keeps_the_text() {
    let mut state = EditorState::new(0, "{a}");
    state.set_status("copied");
    assert_eq!(state.status.as_ref().map(|s| s.text.as_str()), Some("copied"));
    state.set_status("");
    assert_eq!(state.status.as_ref().map(|s| s.text.as_str()), Some(""));
    assert_eq!(names(&state), vec!["a"]);
}

#[test]
fn reroll_says_so_and_keeps_the_rest() {
    let mut state = EditorState::new(2, "{a} {random|\"p\" \"q\"}");
    state.push_char('v');
    for _ in 0..100 {
        state.reroll_random();
        assert_eq!(state.status.as_ref().map(|s| s.text.as_str()), Some(REROLLED));
        assert_eq!(state.template_index, 2);
        assert_eq!(values(&state), vec!["v"]);
        match &state.tokens[2] {
            Token::Random { options, choice, raw } => {
                assert_eq!(options, &vec![String::from("p"), String::from("q")]);
                assert!(choice == "p" || choice == "q");
                assert_eq!(raw, "{random|\"p\" \"q\"}");
            }
            other => panic!("expected a random choice, got {:?}", other),
        }
        let out = render_template(&state.tokens, &state.fields);
        assert!(out == "v p" || out == "v q");
    }
}

#[test]
fn reroll_reaches_every_option() {
    let mut state = EditorState::new(0, "{random|\"p\" \"q\"}");
    let mut seen_p = false;
    let mut seen_q = false;
    for _ in 0..400 {
        state.reroll_random();
        match render_template(&state.tokens, &state.fields).as_str() {
            "p" => seen_p = true,
            "q" => seen_q = true,
            other => panic!("{:?} is no option", other),
        }
    }
    assert!(seen_p && seen_q);
}

#[test]
fn note_is_fresh_for_a_second_and_a_half() {
    assert!(is_fresh(0));
    assert!(is_fresh(1500));
    assert!(!is_fresh(1501));
    assert!(!is_fresh(u128::MAX));
}

#[test]
fn new_status_is_shown() {
    let mut state = EditorState::new(0, "{a}");
    state.set_status("x");
    assert!(state.status.as_ref().unwrap().is_shown());
}

#[test]
fn clone_keeps_the_session() {
    let mut state = EditorState::new(3, "{a} {random|p q}");
    state.push_char('v');
    state.set_status("note");
    let copy = state.clone();
    state.push_char('w');
    assert_eq!(copy.template_index, 3);
    assert_eq!(values(&copy), vec!["v"]);
    assert_eq!(values(&state), vec!["vw"]);
    assert_eq!(copy.tokens.len(), 3);
    let note = copy.status.as_ref().unwrap();
    assert_eq!(note.text, "note");
    assert_eq!(note.since, state.status.as_ref().unwrap().since);
    let again = note.clone();
    assert_eq!(again.text, "note");
    assert_eq!(again.since, note.since);
}
