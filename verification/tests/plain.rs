use fmtwalk::report::{
    conclude, error_line, report_outcome, status_line, unlisted_line, ActionError, Message,
};
use fmtwalk::state::{FmtState, Outcome};

fn text(message: &Message) -> String {
    message.as_str().to_string()
}

fn row(state: &FmtState, mode: superconsole::DrawMode) -> String {
    let lines = state.draw_unchecked(superconsole::Dimensions::new(80, 24), mode).unwrap();
    assert_eq!(lines.0.len(), 1);
    lines.0[0].clone().into_iter().map(|span| span.content().to_string()).collect()
}

#[test]
fn status_lines_are_bare_when_styling_is_off() {
    yansi::disable();
    assert_eq!(status_line(Outcome::Unchanged, false, "a.yar", ""), "[   OK ] a.yar");
    assert_eq!(status_line(Outcome::Unchanged, true, "a.yar", ""), "[   OK ] a.yar");
    assert_eq!(status_line(Outcome::Changed, false, "dir/a.yar", ""), "[ MODIFIED ] dir/a.yar");
    assert_eq!(status_line(Outcome::Changed, true, "a.yar", ""), "[ NEED FMT ] a.yar");
    assert_eq!(status_line(Outcome::Failed, false, "a.yar", "bad input"), "[ FAIL ] a.yar\nbad input");
}

#[test]
fn error_line_starts_with_the_word_error() {
    yansi::disable();
    let message = error_line("permission denied");
    assert!(matches!(message, Message::Error(_)));
    assert_eq!(text(&message), "error: permission denied");
}

#[test]
fn conclude_counts_and_words_each_result() {
    yansi::disable();
    let mut state = FmtState::new(true);
    let message = conclude(&mut state, "a.yar", &Ok(true), true);
    assert!(matches!(message, Message::Info(_)));
    assert_eq!(text(&message), "[ NEED FMT ] a.yar");
    assert_eq!((state.files_ok, state.files_modified, state.errors), (0, 1, 0));
    let message = conclude(&mut state, "b.yar", &Ok(false), true);
    assert!(matches!(message, Message::Info(_)));
    assert_eq!(text(&message), "[   OK ] b.yar");
    assert_eq!((state.files_ok, state.files_modified, state.errors), (1, 1, 0));
    let failure = Err(ActionError::unreadable("c.yar", "No such file".to_string()));
    let message = conclude(&mut state, "c.yar", &failure, true);
    assert!(matches!(message, Message::Error(_)));
    assert_eq!(text(&message), "[ FAIL ] c.yar\ncan not read `c.yar`");
    let message = conclude(&mut state, "c.yar", &failure, false);
    assert_eq!(text(&message), "[ FAIL ] c.yar\ncan not read `c.yar`: No such file");
    assert_eq!((state.files_ok, state.files_modified, state.errors), (1, 1, 2));
    assert!(state.check_mode);
}

#[test]
fn report_outcome_words_the_error_for_the_surface_it_finds() {
    yansi::disable();
    let mut state = FmtState::new(false);
    let failure = Err(ActionError::unreadable("c.yar", "No such file".to_string()));
    let message = report_outcome(&mut state, "c.yar", &failure);
    assert!(matches!(message, Message::Error(_)));
    let shown = text(&message);
    assert!(
        shown == "[ FAIL ] c.yar\ncan not read `c.yar`"
            || shown == "[ FAIL ] c.yar\ncan not read `c.yar`: No such file"
    );
    assert_eq!(state.errors, 1);
    let message = report_outcome(&mut state, "d.yar", &Ok(true));
    assert!(matches!(message, Message::Info(_)));
    let shown = text(&message);
    assert_eq!(shown, "[ MODIFIED ] d.yar");
    assert_eq!(state.files_modified, 1);
}

#[test]
fn action_error_describes_itself_briefly_or_in_full() {
    let err = ActionError::unreadable("x/y.yar", "Permission denied (os error 13)".to_string());
    assert_eq!(err.message, "can not read `x/y.yar`");
    assert_eq!(err.cause.as_deref(), Some("Permission denied (os error 13)"));
    assert_eq!(err.describe(true), "can not read `x/y.yar`");
    assert_eq!(err.describe(false), "can not read `x/y.yar`: Permission denied (os error 13)");
    let err = ActionError::plain("invalid UTF-8 at [0..2]".to_string());
    assert!(err.cause.is_none());
    assert_eq!(err.describe(true), "invalid UTF-8 at [0..2]");
    assert_eq!(err.describe(false), "invalid UTF-8 at [0..2]");
}

#[test]
fn summary_shows_the_three_counters() {
    yansi::disable();
    let mut state = FmtState::new(false);
    assert_eq!(
        row(&state, superconsole::DrawMode::Normal),
        "0 file(s) ok. modified: 0. errors: 0."
    );
    for _ in 0..12 {
        state.record(Outcome::Unchanged);
    }
    state.record(Outcome::Changed);
    state.record(Outcome::Failed);
    state.record(Outcome::Failed);
    assert_eq!(
        row(&state, superconsole::DrawMode::Normal),
        "12 file(s) ok. modified: 1. errors: 2."
    );
    assert_eq!(
        row(&state, superconsole::DrawMode::Final),
        "12 file(s) ok. modified: 1. errors: 2."
    );
}

#[test]
fn summary_of_a_check_speaks_of_files_that_need_formatting() {
    yansi::disable();
    let mut state = FmtState::new(true);
    state.record(Outcome::Changed);
    state.record(Outcome::Changed);
    assert_eq!(
        row(&state, superconsole::DrawMode::Final),
        "0 file(s) ok. need formatting: 2. errors: 0."
    );
}

#[test]
fn unlisted_line_names_the_directory_and_the_cause() {
    yansi::disable();
    let message = unlisted_line("a/b", None);
    assert!(matches!(message, Message::Error(_)));
    assert_eq!(text(&message), "error: can not list `a/b`");
    let message = unlisted_line("a/b", Some("Permission denied (os error 13)"));
    assert!(matches!(message, Message::Error(_)));
    assert_eq!(text(&message), "error: can not list `a/b`: Permission denied (os error 13)");
}
