use far::app::{
    command_for_key, corpus_files, relative_path, App, Command, CursorMove, Event, KeyCode,
    KeyEvent, KeyEventKind, KeyModifiers, Size, CONTROL,
};
use far::commit::FileWrite;
use far::model::{Expansion, FarState};
use far::pattern::ConfigError;
use far::viewport::Window;

fn args(list: &[&str]) -> Vec<String> {
    let mut all = vec!["far".to_string()];
    all.extend(list.iter().map(|s| s.to_string()));
    all
}

fn sources(list: &[(&str, &str)]) -> Vec<(String, String)> {
    list.iter().map(|(path, content)| (path.to_string(), content.to_string())).collect()
}

fn session(pairs: &[&str], files: &[(&str, &str)]) -> App {
    App::new(args(pairs), "/work", sources(files)).unwrap()
}

fn two_files() -> App {
    session(&["foo:qux"], &[("/work/a.txt", "foo bar"), ("/work/b.txt", "foo baz")])
}

fn many_hits(count: usize) -> App {
    let content = "x\n".repeat(count);
    session(&["x:y"], &[("/work/f", &content)])
}

fn key(code: KeyCode) -> KeyEvent {
    KeyEvent { code, modifiers: KeyModifiers { bits: 0 }, kind: KeyEventKind::Press }
}

fn press(code: KeyCode) -> Event {
    Event::Key(key(code))
}

fn states(app: &App) -> Vec<FarState> {
    app.hits.iter().map(|h| h.state).collect()
}

#[test]
fn new_session_starts_at_the_first_hit() {
    let app = two_files();
    assert!(app.running);
    assert_eq!(app.cursor, 0);
    assert_eq!(app.backup_cursor, 0);
    assert_eq!(app.hits.len(), 2);
    assert_eq!(app.files.len(), 2);
    assert_eq!(app.terminal_size, Size { width: 0, height: 0 });
    assert!(app.expansion.is_none());
    assert_eq!(states(&app), vec![FarState::Undecided, FarState::Undecided]);
}

#[test]
fn new_session_keeps_the_files_as_they_were_read() {
    let app = two_files();
    assert_eq!(app.files[0].file_name, "/work/a.txt");
    assert_eq!(app.files[0].relative_file_name, "/a.txt");
    assert_eq!(app.files[0].content, "foo bar");
    assert_eq!(app.files[1].file_name, "/work/b.txt");
    assert_eq!(app.files[1].relative_file_name, "/b.txt");
    assert_eq!(app.files[1].content, "foo baz");
    assert_eq!(app.hits[1].file_name, "/work/b.txt");
    assert_eq!(app.hits[1].relative_file_name, "/b.txt");
}

#[test]
fn new_session_without_pairs_or_files_is_empty() {
    let app = App::new(Vec::new(), "/work", Vec::new()).unwrap();
    assert!(app.hits.is_empty());
    assert!(app.files.is_empty());
    let app = App::new(vec!["far".to_string()], "/work", sources(&[("/work/a", "foo")])).unwrap();
    assert!(app.hits.is_empty());
    assert_eq!(app.files.len(), 1);
}

#[test]
fn new_session_refuses_a_pair_without_separator() {
    match App::new(args(&["a:b", "broken", "("]), "/work", Vec::new()) {
        Err(ConfigError::MissingSeparator { index }) => assert_eq!(index, 1),
        _ => panic!("a pair without separator was accepted"),
    }
}

#[test]
fn new_session_refuses_a_find_side_that_is_no_expression() {
    match App::new(args(&["a:b", "c:d", "(:x"]), "/work", sources(&[("/work/a", "a")])) {
        Err(ConfigError::InvalidRegex { index, .. }) => assert_eq!(index, 2),
        _ => panic!("a broken expression was accepted"),
    }
}

#[test]
fn relative_path_cuts_the_root_off() {
    assert_eq!(relative_path("/work/src/a.txt", "/work"), "/src/a.txt");
    assert_eq!(relative_path("/work", "/work"), "");
    assert_eq!(relative_path("/work/a", ""), "/work/a");
    assert_eq!(relative_path("/w\u{3b1}/b", "/w\u{3b1}"), "/b");
}

#[test]
fn relative_path_keeps_a_path_outside_the_root() {
    assert_eq!(relative_path("/other/a.txt", "/work"), "/other/a.txt");
    assert_eq!(relative_path("/wor", "/work"), "/wor");
    assert_eq!(relative_path("", "/work"), "");
}

#[test]
fn relative_path_cuts_the_root_off_once() {
    assert_eq!(relative_path("/work/work/a", "/work"), "/work/a");
    assert_eq!(relative_path("aaa", "a"), "aa");
}

#[test]
fn corpus_files_take_a_path_once() {
    let files = corpus_files(
        "/r",
        sources(&[("/r/a", "first"), ("/r/b", "b"), ("/r/a", "second"), ("/r/b", "again")]),
    );
    assert_eq!(files.len(), 2);
    assert_eq!(files[0].file_name, "/r/a");
    assert_eq!(files[0].content, "first");
    assert_eq!(files[1].file_name, "/r/b");
    assert_eq!(files[1].content, "b");
    let app = App::new(
        vec!["far".to_string(), "a:x".to_string()],
        "/r",
        sources(&[("/r/f", "a"), ("/r/f", "a a")]),
    )
    .unwrap();
    assert_eq!(app.files.len(), 1);
    assert_eq!(app.hits.len(), 1);
}

#[test]
fn new_session_refuses_a_broken_expression_whatever_the_files_hold() {
    for files in [sources(&[]), sources(&[("/work/a", "")]), sources(&[("/work/a", "x\ny")])] {
        match App::new(args(&["ok:fine", "(x:y"]), "/work", files) {
            Err(ConfigError::InvalidRegex { index, .. }) => assert_eq!(index, 1),
            _ => panic!("a broken expression was accepted"),
        }
    }
}

#[test]
fn new_session_names_the_missing_separator_before_a_broken_expression() {
    match App::new(args(&["(:x", "none"]), "/work", Vec::new()) {
        Err(ConfigError::MissingSeparator { index }) => assert_eq!(index, 1),
        _ => panic!("the missing separator was not named"),
    }
}

#[test]
fn corpus_files_keep_order_and_content() {
    let files = corpus_files("/r", sources(&[("/r/2", "two"), ("/r/1", "one"), ("/x/3", "")]));
    let names: Vec<&str> = files.iter().map(|f| f.relative_file_name.as_str()).collect();
    assert_eq!(names, vec!["/2", "/1", "/x/3"]);
    assert_eq!(files[0].file_name, "/r/2");
    assert_eq!(files[0].content, "two");
    assert_eq!(files[2].content, "");
}

#[test]
fn move_cursor_stops_at_both_ends() {
    let mut app = many_hits(3);
    app.move_cursor(CursorMove::Up);
    assert_eq!(app.cursor, 0);
    app.move_cursor(CursorMove::Down);
    assert_eq!(app.cursor, 1);
    app.move_cursor(CursorMove::Down);
    assert_eq!(app.cursor, 2);
    app.move_cursor(CursorMove::Down);
    assert_eq!(app.cursor, 2);
    app.move_cursor(CursorMove::Down);
    assert_eq!(app.cursor, 2);
    app.move_cursor(CursorMove::Up);
    assert_eq!(app.cursor, 1);
    app.move_cursor_up();
    assert_eq!(app.cursor, 0);
    app.move_cursor_up();
    assert_eq!(app.cursor, 0);
    app.move_cursor_down();
    assert_eq!(app.cursor, 1);
}

#[test]
fn move_cursor_stays_in_range_for_any_sequence() {
    let mut app = many_hits(4);
    let mut seed: u32 = 12345;
    for _ in 0..2000 {
        seed = seed.wrapping_mul(1103515245).wrapping_add(12345);
        if (seed >> 16) % 3 == 0 {
            app.move_cursor(CursorMove::Up);
        } else {
            app.move_cursor(CursorMove::Down);
        }
        assert!(app.cursor < 4);
    }
}

#[test]
fn move_cursor_on_an_empty_session_stays_at_zero() {
    let mut app = session(&["foo:x"], &[("/work/a", "nothing")]);
    assert!(app.hits.is_empty());
    for step in [CursorMove::Down, CursorMove::Down, CursorMove::Up, CursorMove::Up, CursorMove::Down] {
        app.move_cursor(step);
        assert_eq!(app.cursor, 0);
    }
    assert!(app.current().is_none());
}

#[test]
fn move_cursor_brings_a_stray_cursor_back() {
    let mut app = many_hits(3);
    app.cursor = 10;
    app.move_cursor(CursorMove::Down);
    assert_eq!(app.cursor, 2);
    app.cursor = 10;
    app.move_cursor(CursorMove::Up);
    assert_eq!(app.cursor, 2);
    app.cursor = 3;
    app.move_cursor(CursorMove::Up);
    assert_eq!(app.cursor, 2);
}

#[test]
fn move_cursor_changes_nothing_but_the_cursor() {
    let mut app = two_files();
    app.move_cursor(CursorMove::Down);
    assert!(app.running);
    assert_eq!(app.backup_cursor, 0);
    assert!(app.expansion.is_none());
    assert_eq!(states(&app), vec![FarState::Undecided, FarState::Undecided]);
}

#[test]
fn current_is_the_hit_under_the_cursor() {
    let mut app = two_files();
    assert_eq!(app.current().unwrap().relative_file_name, "/a.txt");
    app.move_cursor(CursorMove::Down);
    assert_eq!(app.current().unwrap().relative_file_name, "/b.txt");
    assert_eq!(app.current().unwrap().index, 1);
}

#[test]
fn take_and_skip_move_one_step_down() {
    let mut app = many_hits(4);
    app.decide(FarState::Take);
    assert_eq!(app.cursor, 1);
    app.decide(FarState::Skip);
    assert_eq!(app.cursor, 2);
    app.decide(FarState::Take);
    assert_eq!(app.cursor, 3);
    app.decide(FarState::Skip);
    assert_eq!(app.cursor, 3);
    app.decide(FarState::Take);
    assert_eq!(app.cursor, 3);
    assert_eq!(
        states(&app),
        vec![FarState::Take, FarState::Skip, FarState::Take, FarState::Take]
    );
}

#[test]
fn reset_does_not_move() {
    let mut app = many_hits(3);
    app.decide(FarState::Take);
    app.move_cursor(CursorMove::Up);
    assert_eq!(app.cursor, 0);
    app.decide(FarState::Undecided);
    assert_eq!(app.cursor, 0);
    assert_eq!(
        states(&app),
        vec![FarState::Undecided, FarState::Undecided, FarState::Undecided]
    );
    app.move_cursor(CursorMove::Down);
    app.decide(FarState::Undecided);
    assert_eq!(app.cursor, 1);
}

#[test]
fn every_verdict_can_follow_every_verdict() {
    let all = [FarState::Undecided, FarState::Take, FarState::Skip];
    for first in all {
        for second in all {
            let mut app = many_hits(1);
            app.decide(first);
            assert_eq!(states(&app), vec![first]);
            app.decide(second);
            assert_eq!(states(&app), vec![second]);
            assert_eq!(app.cursor, 0);
        }
    }
}

#[test]
fn decide_changes_one_hit_only() {
    let mut app = many_hits(3);
    app.move_cursor(CursorMove::Down);
    let before: Vec<_> = app.hits.iter().map(|h| h.clone()).collect();
    app.decide(FarState::Skip);
    assert_eq!(app.hits[0], before[0]);
    assert_eq!(app.hits[2], before[2]);
    assert_eq!(app.hits[1].state, FarState::Skip);
    assert_eq!(app.hits[1].full_line, before[1].full_line);
    assert_eq!(app.hits[1].index, 1);
    assert_eq!(app.hits[1].line_number, before[1].line_number);
}

#[test]
fn decide_on_an_empty_session_does_nothing() {
    let mut app = session(&[], &[]);
    for state in [FarState::Take, FarState::Skip, FarState::Undecided] {
        app.decide(state);
        assert_eq!(app.cursor, 0);
        assert!(app.hits.is_empty());
    }
}

#[test]
fn toggle_opens_the_file_of_the_hit() {
    let mut app = session(
        &["foo:x"],
        &[("/work/a.txt", "one\ntwo\n"), ("/work/b.txt", "1\n2\n3\n  foo\n5\n6\n")],
    );
    assert_eq!(app.hits.len(), 1);
    app.toggle_expansion();
    assert_eq!(
        app.expansion,
        Some(Expansion {
            file_name: "/work/b.txt".to_string(),
            relative_file_name: "/b.txt".to_string(),
            content: "1\n2\n3\n  foo\n5\n6\n".to_string(),
        })
    );
    assert_eq!(app.cursor, 4);
    assert_eq!(app.backup_cursor, 0);
    assert_eq!(app.item_count(), 6);
}

#[test]
fn toggle_twice_restores_the_cursor() {
    let mut app = many_hits(5);
    app.move_cursor(CursorMove::Down);
    app.move_cursor(CursorMove::Down);
    app.move_cursor(CursorMove::Down);
    assert_eq!(app.cursor, 3);
    app.toggle_expansion();
    assert!(app.expansion.is_some());
    assert_eq!(app.backup_cursor, 3);
    assert_eq!(app.cursor, 4);
    app.toggle_expansion();
    assert!(app.expansion.is_none());
    assert_eq!(app.cursor, 3);
    assert_eq!(app.backup_cursor, 0);
}

#[test]
fn toggle_restores_the_cursor_after_moves_in_the_file() {
    let mut app = session(&["foo:x"], &[("/work/a", "0\n1\nfoo\n3\n4\n5\n6\nfoo\n")]);
    app.move_cursor(CursorMove::Down);
    app.toggle_expansion();
    assert_eq!(app.cursor, 8);
    assert_eq!(app.item_count(), 8);
    app.move_cursor(CursorMove::Down);
    assert_eq!(app.cursor, 8);
    app.move_cursor(CursorMove::Up);
    app.move_cursor(CursorMove::Up);
    assert_eq!(app.cursor, 6);
    app.toggle_expansion();
    assert_eq!(app.cursor, 1);
    assert!(app.expansion.is_none());
}

#[test]
fn the_cursor_stays_on_the_lines_of_the_expanded_file() {
    let mut app = session(&["foo:x"], &[("/work/a", "one\nfoo\nthree")]);
    app.toggle_expansion();
    assert_eq!(app.cursor, 2);
    assert_eq!(app.item_count(), 3);
    app.move_cursor(CursorMove::Up);
    assert_eq!(app.cursor, 1);
    app.move_cursor(CursorMove::Up);
    assert_eq!(app.cursor, 1);
    app.move_cursor(CursorMove::Down);
    app.move_cursor(CursorMove::Down);
    assert_eq!(app.cursor, 3);
    app.move_cursor(CursorMove::Down);
    assert_eq!(app.cursor, 3);
    app.cursor = 0;
    app.move_cursor(CursorMove::Up);
    assert_eq!(app.cursor, 1);
    app.cursor = 0;
    app.move_cursor(CursorMove::Down);
    assert_eq!(app.cursor, 1);
    app.cursor = 9;
    app.move_cursor(CursorMove::Up);
    assert_eq!(app.cursor, 3);
    app.cursor = usize::MAX;
    app.move_cursor(CursorMove::Down);
    assert_eq!(app.cursor, 3);
}

#[test]
fn lines_are_counted_from_one_and_hits_from_zero() {
    let mut app = session(&["foo:x"], &[("/work/a", "one\ntwo\nfoo\nfoo")]);
    app.move_cursor(CursorMove::Down);
    assert_eq!(app.first_position(), 0);
    assert_eq!(app.items_before_cursor(), 1);
    app.toggle_expansion();
    assert_eq!(app.cursor, 4);
    assert_eq!(app.first_position(), 1);
    assert_eq!(app.items_before_cursor(), 3);
    app.cursor = 0;
    assert_eq!(app.items_before_cursor(), 0);
}

#[test]
fn toggle_opens_on_a_hit_in_the_last_line() {
    let mut app = session(&["foo:x"], &[("/work/a", "one\ntwo\nfoo")]);
    app.toggle_expansion();
    assert_eq!(app.cursor, 3);
    assert_eq!(app.item_count(), 3);
    let mut one_line = session(&["foo:x"], &[("/work/a", "foo\n")]);
    one_line.toggle_expansion();
    assert_eq!(one_line.cursor, 1);
    assert_eq!(one_line.item_count(), 1);
}

#[test]
fn toggle_puts_the_cursor_on_the_nearest_line_of_another_text() {
    let mut app = session(&["foo:x"], &[("/work/a", "1\n2\n3\nfoo")]);
    app.files[0].content = "only\ntwo".to_string();
    app.toggle_expansion();
    assert_eq!(app.cursor, 2);
    app.toggle_expansion();
    app.hits[0].line_number = 0;
    app.toggle_expansion();
    assert_eq!(app.cursor, 1);
}

#[test]
fn toggle_on_an_empty_session_opens_nothing() {
    let mut app = session(&["foo:x"], &[("/work/a", "nothing")]);
    app.toggle_expansion();
    assert!(app.expansion.is_none());
    assert_eq!(app.cursor, 0);
    assert_eq!(app.backup_cursor, 0);
    app.toggle_expansion();
    assert!(app.expansion.is_none());
    assert_eq!(app.cursor, 0);
}

#[test]
fn toggle_shows_an_empty_text_for_a_file_that_is_not_there() {
    let mut app = two_files();
    app.files.clear();
    app.toggle_expansion();
    let expansion = app.expansion.clone().unwrap();
    assert_eq!(expansion.file_name, "/work/a.txt");
    assert_eq!(expansion.content, "");
    assert_eq!(app.item_count(), 0);
    assert_eq!(app.cursor, 1);
    app.move_cursor(CursorMove::Down);
    assert_eq!(app.cursor, 1);
}

#[test]
fn expansion_clone_is_equal() {
    let mut app = two_files();
    app.toggle_expansion();
    let expansion = app.expansion.unwrap();
    assert_eq!(expansion.clone(), expansion);
}

#[test]
fn item_count_is_the_number_of_hits_or_of_lines() {
    let mut app = session(&["o:0"], &[("/work/a", "foo\nbar\nboo\n\nend")]);
    assert_eq!(app.item_count(), 4);
    app.toggle_expansion();
    assert_eq!(app.item_count(), 5);
}

#[test]
fn quit_stops_the_session() {
    let mut app = two_files();
    app.quit();
    assert!(!app.running);
    assert_eq!(app.cursor, 0);
    assert_eq!(app.hits.len(), 2);
}

#[test]
fn tick_changes_nothing() {
    let app = two_files();
    app.tick();
    assert!(app.running);
    assert_eq!(app.cursor, 0);
}

#[test]
fn keys_stand_for_commands() {
    assert_eq!(command_for_key(key(KeyCode::Esc)), Some(Command::Quit));
    assert_eq!(command_for_key(key(KeyCode::Char('q'))), Some(Command::Quit));
    assert_eq!(command_for_key(key(KeyCode::Down)), Some(Command::CursorDown));
    assert_eq!(command_for_key(key(KeyCode::Up)), Some(Command::CursorUp));
    assert_eq!(command_for_key(key(KeyCode::Char('t'))), Some(Command::Take));
    assert_eq!(command_for_key(key(KeyCode::Char('s'))), Some(Command::Skip));
    assert_eq!(command_for_key(key(KeyCode::Char('r'))), Some(Command::Reset));
    assert_eq!(command_for_key(key(KeyCode::Char('e'))), Some(Command::ToggleExpansion));
    assert_eq!(command_for_key(key(KeyCode::Enter)), Some(Command::Commit));
}

#[test]
fn other_keys_stand_for_nothing() {
    assert_eq!(command_for_key(key(KeyCode::Other)), None);
    assert_eq!(command_for_key(key(KeyCode::Char('x'))), None);
    assert_eq!(command_for_key(key(KeyCode::Char('T'))), None);
    assert_eq!(command_for_key(key(KeyCode::Char('Q'))), None);
    assert_eq!(command_for_key(key(KeyCode::Char('c'))), None);
    assert_eq!(command_for_key(key(KeyCode::Char('C'))), None);
}

#[test]
fn control_c_quits() {
    let with = |c: char, bits: u8| KeyEvent {
        code: KeyCode::Char(c),
        modifiers: KeyModifiers { bits },
        kind: KeyEventKind::Press,
    };
    assert_eq!(CONTROL, 2);
    assert_eq!(command_for_key(with('c', CONTROL)), Some(Command::Quit));
    assert_eq!(command_for_key(with('C', CONTROL)), Some(Command::Quit));
    assert_eq!(command_for_key(with('c', CONTROL | 1)), None);
    assert_eq!(command_for_key(with('c', 4)), None);
    assert_eq!(command_for_key(with('x', CONTROL)), None);
    assert_eq!(command_for_key(with('t', CONTROL)), Some(Command::Take));
    assert_eq!(command_for_key(with('q', 1)), Some(Command::Quit));
}

#[test]
fn on_key_event_runs_the_command_of_the_key() {
    let mut app = many_hits(3);
    assert!(app.on_key_event(key(KeyCode::Down)).is_none());
    assert_eq!(app.cursor, 1);
    assert!(app.on_key_event(key(KeyCode::Char('t'))).is_none());
    assert_eq!(app.cursor, 2);
    assert!(app.on_key_event(key(KeyCode::Up)).is_none());
    assert!(app.on_key_event(key(KeyCode::Up)).is_none());
    assert!(app.on_key_event(key(KeyCode::Char('s'))).is_none());
    assert_eq!(states(&app), vec![FarState::Skip, FarState::Take, FarState::Undecided]);
    assert!(app.on_key_event(key(KeyCode::Char('r'))).is_none());
    assert_eq!(states(&app), vec![FarState::Skip, FarState::Undecided, FarState::Undecided]);
    assert_eq!(app.cursor, 1);
    assert!(app.on_key_event(key(KeyCode::Char('e'))).is_none());
    assert!(app.expansion.is_some());
    assert!(app.on_key_event(key(KeyCode::Char('e'))).is_none());
    assert!(app.expansion.is_none());
    assert!(app.on_key_event(key(KeyCode::Char('z'))).is_none());
    assert!(app.running);
    assert!(app.on_key_event(key(KeyCode::Esc)).is_none());
    assert!(!app.running);
}

#[test]
fn execute_runs_a_command() {
    let mut app = many_hits(2);
    assert!(app.execute(Command::CursorDown).is_none());
    assert_eq!(app.cursor, 1);
    assert!(app.execute(Command::CursorUp).is_none());
    assert_eq!(app.cursor, 0);
    assert!(app.execute(Command::Skip).is_none());
    assert!(app.execute(Command::Take).is_none());
    assert_eq!(states(&app), vec![FarState::Skip, FarState::Take]);
    assert!(app.execute(Command::Reset).is_none());
    assert_eq!(states(&app), vec![FarState::Skip, FarState::Undecided]);
    assert!(app.execute(Command::ToggleExpansion).is_none());
    assert!(app.expansion.is_some());
    assert_eq!(app.execute(Command::Commit), Some(Vec::new()));
    assert!(app.execute(Command::Quit).is_none());
    assert!(!app.running);
}

#[test]
fn handle_events_passes_over_keys_that_are_not_pressed() {
    let mut app = many_hits(3);
    for kind in [KeyEventKind::Release, KeyEventKind::Repeat] {
        let event = Event::Key(KeyEvent {
            code: KeyCode::Down,
            modifiers: KeyModifiers { bits: 0 },
            kind,
        });
        assert!(app.handle_events(event).is_none());
        assert_eq!(app.cursor, 0);
    }
    assert!(app.handle_events(press(KeyCode::Down)).is_none());
    assert_eq!(app.cursor, 1);
    assert!(app.handle_events(Event::Other).is_none());
    assert_eq!(app.cursor, 1);
    assert!(app.running);
}

#[test]
fn handle_events_takes_the_new_size_of_the_terminal() {
    let mut app = many_hits(3);
    assert!(app.handle_events(Event::Resize(80, 24)).is_none());
    assert_eq!(app.terminal_size, Size { width: 80, height: 24 });
    assert_eq!(app.cursor, 0);
    assert!(app.handle_events(Event::Resize(100, 11)).is_none());
    assert_eq!(app.terminal_size, Size { width: 100, height: 11 });
}

#[test]
fn window_follows_the_cursor_and_the_size() {
    let mut app = many_hits(50);
    assert_eq!(app.window(), Window { skip: 0, take: 0, leading_blank_rows: 0 });
    app.handle_events(Event::Resize(80, 10));
    assert_eq!(app.window(), Window { skip: 0, take: 5, leading_blank_rows: 5 });
    app.move_cursor(CursorMove::Down);
    app.move_cursor(CursorMove::Down);
    assert_eq!(app.window(), Window { skip: 0, take: 7, leading_blank_rows: 3 });
    for _ in 0..18 {
        app.move_cursor(CursorMove::Down);
    }
    assert_eq!(app.cursor, 20);
    assert_eq!(app.window(), Window { skip: 15, take: 10, leading_blank_rows: 0 });
    app.handle_events(Event::Resize(80, 4));
    assert_eq!(app.window(), Window { skip: 18, take: 4, leading_blank_rows: 0 });
}

#[test]
fn window_goes_by_the_lines_while_a_file_is_expanded() {
    let mut app = session(&["foo:x"], &[("/work/a", "foo\n2\n3\n4\n5\n6\n7\n8\n9\n10\n11\n12")]);
    app.handle_events(Event::Resize(80, 6));
    assert_eq!(app.window(), Window { skip: 0, take: 1, leading_blank_rows: 3 });
    app.toggle_expansion();
    assert_eq!(app.cursor, 1);
    assert_eq!(app.window(), Window { skip: 0, take: 3, leading_blank_rows: 3 });
    for _ in 0..7 {
        app.move_cursor(CursorMove::Down);
    }
    assert_eq!(app.cursor, 8);
    assert_eq!(app.window(), Window { skip: 4, take: 6, leading_blank_rows: 0 });
}

#[test]
fn end_to_end_only_the_taken_hit_is_written() {
    let mut app = two_files();
    assert_eq!(app.hits.len(), 2);
    assert_eq!(app.hits[0].file_name, "/work/a.txt");
    assert_eq!(app.hits[1].file_name, "/work/b.txt");
    assert!(app.handle_events(press(KeyCode::Char('t'))).is_none());
    let writes = app.handle_events(press(KeyCode::Enter)).unwrap();
    assert_eq!(
        writes,
        vec![FileWrite { file_name: "/work/a.txt".to_string(), content: "qux bar".to_string() }]
    );
    assert_eq!(app.files[1].content, "foo baz");
}

#[test]
fn committing_twice_writes_the_same() {
    let mut app = session(&["o:oo", "f:ff"], &[("/work/a", " foo\nfoo \n"), ("/work/b", "off")]);
    while app.cursor + 1 < app.hits.len() {
        app.decide(FarState::Take);
    }
    app.decide(FarState::Take);
    let first = app.apply_changes();
    let second = app.apply_changes();
    assert_eq!(first, second);
    let third = app.handle_events(press(KeyCode::Enter)).unwrap();
    let fourth = app.handle_events(press(KeyCode::Enter)).unwrap();
    assert_eq!(first, third);
    assert_eq!(first, fourth);
    assert_eq!(
        first,
        vec![
            FileWrite { file_name: "/work/a".to_string(), content: " ffoooo\nffoooo \n".to_string() },
            FileWrite { file_name: "/work/b".to_string(), content: "ooffff".to_string() },
        ]
    );
}

#[test]
fn commit_leaves_the_session_as_it_is() {
    let mut app = two_files();
    app.decide(FarState::Take);
    let before = (app.cursor, states(&app), app.files[0].content.clone());
    assert!(app.execute(Command::Commit).is_some());
    assert_eq!((app.cursor, states(&app), app.files[0].content.clone()), before);
    assert!(app.running);
    assert!(app.expansion.is_none());
}
