use fmtwalk::report::{conclude, error_line, status_line, ActionError, Message};
use fmtwalk::state::{FmtState, Outcome};

fn text(message: &Message) -> String {
    message.as_str().to_string()
}

#[test]
fn status_lines_carry_bold_colours_when_styling_is_on() {
    yansi::enable();
    assert_eq!(status_line(Outcome::Unchanged, false, "a.yar", ""), "[   \x1b[1;32mOK\x1b[0m ] a.yar");
    assert_eq!(
        status_line(Outcome::Changed, false, "dir/a.yar", ""),
        "[ \x1b[1;33mMODIFIED\x1b[0m ] dir/a.yar"
    );
    assert_eq!(
        status_line(Outcome::Changed, true, "a.yar", "unused"),
        "[ \x1b[1;33mNEED FMT\x1b[0m ] a.yar"
    );
    assert_eq!(
        status_line(Outcome::Failed, true, "a.yar", "invalid UTF-8 at [0..1]"),
        "[ \x1b[1;31mFAIL\x1b[0m ] a.yar\ninvalid UTF-8 at [0..1]"
    );
}

#[test]
fn error_lines_carry_a_red_prefix_when_styling_is_on() {
    yansi::enable();
    let message = error_line("permission denied");
    assert!(matches!(message, Message::Error(_)));
    assert_eq!(text(&message), "\x1b[1;31merror:\x1b[0m permission denied");
}

#[test]
fn conclude_colours_the_label_only() {
    yansi::enable();
    let mut state = FmtState::new(false);
    let message = conclude(&mut state, "a.yar", &Ok(true), true);
    assert!(matches!(message, Message::Info(_)));
    assert_eq!(text(&message), "[ \x1b[1;33mMODIFIED\x1b[0m ] a.yar");
    let failure = Err(ActionError::unreadable("a.yar", "No such file".to_string()));
    let message = conclude(&mut state, "a.yar", &failure, false);
    assert!(matches!(message, Message::Error(_)));
    assert_eq!(
        text(&message),
        "[ \x1b[1;31mFAIL\x1b[0m ] a.yar\ncan not read `a.yar`: No such file"
    );
}

#[test]
fn summary_is_one_line_in_three_colours() {
    yansi::enable();
    let mut state = FmtState::new(false);
    state.record(Outcome::Unchanged);
    state.record(Outcome::Unchanged);
    state.record(Outcome::Changed);
    let lines = state
        .draw_unchecked(superconsole::Dimensions::new(80, 24), superconsole::DrawMode::Normal)
        .unwrap();
    assert_eq!(lines.0.len(), 1);
    let row: String = lines.0[0].clone().into_iter().map(|span| span.content().to_string()).collect();
    assert_eq!(
        row,
        "\x1b[1;32m2 file(s) ok. \x1b[0m\x1b[1;33mmodified: 1. \x1b[0m\x1b[1;31merrors: 0.\x1b[0m"
    );
}
