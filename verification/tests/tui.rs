use seam_protocol::cli::tui::{
    action_at, can_cut_ts, can_truncate, format_ts, list_recent, newest, recent_of, recent_row,
    render_input,
    truncate, Action, App, Field, Focus, InputLine, Key, Recent, RowLook, StatusLine, Step,
    ACTION_COUNT,
};

fn recent(remote: &str, subcommand: &str) -> Recent {
    Recent {
        remote: remote.to_string(),
        subcommand: subcommand.to_string(),
        ts: "2026-05-04T13:37:00Z".to_string(),
    }
}

fn typed(app: &mut App, text: &str) {
    for c in text.chars() {
        assert!(matches!(app.on_key(Key::Char(c), false, false), Step::Stay));
    }
}

fn text(f: &Field) -> String {
    f.text.iter().collect()
}

fn press(app: &mut App, key: Key) -> Step {
    app.on_key(key, false, false)
}

#[test]
fn arguments_of_each_action() {
    for (action, host, param, args) in [
        (Action::Shell, " u@h ", "", vec!["shell", "u@h"]),
        (Action::Forward, "u@h", " 8080:localhost:80 ", vec!["forward", "8080:localhost:80", "u@h"]),
        (Action::Tunnel, "u@h", "8080  8443", vec!["tunnel", "8080", "8443", "u@h"]),
        (Action::Fwd, "u@h", "3000:9090", vec!["fwd", "u@h:3000", "9090"]),
        (Action::Fwd, "u@h", "3000", vec!["fwd", "u@h:3000", "8080"]),
        (Action::Fwd, "u@h", "3000:x:y", vec!["fwd", "u@h:3000", "8080"]),
        (Action::Copy, "u@h", "./f", vec!["cp", "./f", "u@h:"]),
        (Action::Copy, "dir", "u@h:f", vec!["cp", "u@h:f", "dir"]),
        (Action::Copy, "u@h:d", "/f", vec!["cp", "/f", "u@h:d"]),
        (Action::Copy, "u@h", "/f", vec!["cp", "/f", "u@h:"]),
        (Action::Sync, "u@h", "./d", vec!["sync", "./d", "u@h:"]),
        (Action::Sync, "d", "u@h:e", vec!["sync", "u@h:e", "d"]),
        (Action::Ping, "u@h", "x", vec!["ping", "u@h"]),
        (Action::Proxy, "u@h", "", vec!["proxy", "u@h", "--port", "1080"]),
        (Action::Proxy, "u@h", "99", vec!["proxy", "u@h", "--port", "99"]),
        (Action::Scan, "h", "", vec!["scan", "h"]),
        (Action::Scan, "h", "22", vec!["scan", "h", "--ports", "22"]),
    ] {
        assert_eq!(action.to_args(host, param), args);
    }
}

#[test]
fn every_row_is_an_action() {
    let names: Vec<&str> = (0..ACTION_COUNT).map(|i| action_at(i).name()).collect();
    assert_eq!(
        names,
        vec!["Shell", "Forward", "Tunnel", "Fwd", "Copy", "Sync", "Ping", "Proxy", "Scan"]
    );
    assert_eq!(Action::Proxy.param_label(), Some("Local port"));
    assert_eq!(Action::Ping.param_label(), None);
    assert!(!Action::Shell.needs_param());
    assert_eq!(Action::Scan.param_placeholder(), "22,80,443");
    assert_eq!(Action::Fwd.desc(), "remote port → local  (ssh -R)");
}

#[test]
fn typing_and_running() {
    let mut app = App::new(vec![]);
    assert!(!app.ready());
    typed(&mut app, "u@h");
    assert!(app.ready());
    match press(&mut app, Key::Enter) {
        Step::Run(args, cmd) => {
            assert_eq!(args, vec!["shell", "u@h"]);
            assert_eq!(cmd, "seam shell u@h");
        }
        _ => panic!(),
    }
    app.on_command_return("seam shell u@h".to_string(), 2, vec![recent("u@h", "shell")]);
    assert_eq!(app.selected, Some(0));
    assert_eq!(app.last_run_suffix(), Some((false, "  (exit 2)".to_string())));
    app.on_command_return("seam shell u@h".to_string(), 0, vec![]);
    assert_eq!(app.last_run_suffix(), Some((true, String::new())));
}

#[test]
fn missing_parts_are_asked_for() {
    let mut app = App::new(vec![]);
    assert!(matches!(app.status_line(), StatusLine::Hint(_)));
    assert!(matches!(press(&mut app, Key::Enter), Step::Stay));
    assert_eq!(app.validation.as_deref(), Some("Enter a host first  (user@hostname)"));
    assert!(matches!(app.status_line(), StatusLine::Warning(_)));
    typed(&mut app, "h");
    assert_eq!(app.validation, None);
    press(&mut app, Key::Tab);
    press(&mut app, Key::Down);
    assert_eq!(app.action(), Action::Forward);
    match app.status_line() {
        StatusLine::Hint(s) => assert_eq!(s, "  enter 8080:localhost:80 above to continue"),
        _ => panic!(),
    }
    press(&mut app, Key::Enter);
    assert_eq!(app.validation.as_deref(), Some("Enter Spec  (e.g. 8080:localhost:80)"));
    assert_eq!(app.focus, Focus::Param);
    typed(&mut app, "1:a:2");
    match app.status_line() {
        StatusLine::Command(s) => assert_eq!(s, "seam forward 1:a:2 h"),
        _ => panic!(),
    }
}

#[test]
fn proxies_and_scans_need_no_parameter() {
    let mut app = App::new(vec![]);
    typed(&mut app, "h");
    app.action_idx = 7;
    assert!(app.ready());
    app.action_idx = 8;
    assert!(app.ready());
    app.action_idx = 4;
    assert!(!app.ready());
}

#[test]
fn editing_moves_by_characters() {
    let mut app = App::new(vec![]);
    typed(&mut app, "aéz");
    press(&mut app, Key::Left);
    press(&mut app, Key::Backspace);
    assert_eq!(text(&app.host), "az");
    assert_eq!(app.host.cursor, 1);
    press(&mut app, Key::Delete);
    assert_eq!(text(&app.host), "a");
    press(&mut app, Key::Home);
    typed(&mut app, "b");
    assert_eq!(text(&app.host), "ba");
    press(&mut app, Key::End);
    press(&mut app, Key::Right);
    assert_eq!(app.host.cursor, 2);
    press(&mut app, Key::Delete);
    assert_eq!(text(&app.host), "b");
}

#[test]
fn typing_is_undone_by_removing() {
    let mut f = Field::holding("abc");
    f.cursor_left();
    f.insert_char('X');
    f.backspace();
    assert_eq!(text(&f), "abc");
    assert_eq!(f.cursor, 2);
}

#[test]
fn words_are_removed() {
    for (before, after) in [
        ("one two", "one"),
        ("one two ", "one two"),
        ("/usr/local/bin", "/usr/local"),
        ("word", ""),
        ("", ""),
        ("a //", "a"),
    ] {
        let mut f = Field::holding(before);
        f.delete_word();
        assert_eq!(text(&f), after, "{before:?}");
        assert_eq!(f.cursor, after.chars().count());
    }
    let mut app = App::new(vec![]);
    typed(&mut app, "one two");
    press(&mut app, Key::Left);
    assert!(matches!(app.on_key(Key::Char('w'), true, false), Step::Stay));
    assert_eq!(text(&app.host), "oneo");
}

#[test]
fn quitting() {
    let mut app = App::new(vec![]);
    assert!(matches!(app.on_key(Key::Char('c'), true, false), Step::Quit));
    assert!(matches!(press(&mut app, Key::Char('q')), Step::Stay));
    assert_eq!(text(&app.host), "q");
    assert!(matches!(press(&mut app, Key::Esc), Step::Quit));
    press(&mut app, Key::Tab);
    assert!(matches!(press(&mut app, Key::Esc), Step::Quit));
    assert!(matches!(press(&mut app, Key::Char('q')), Step::Quit));
}

#[test]
fn tabs_go_round_and_back() {
    for with_recent in [false, true] {
        for action in 0..ACTION_COUNT {
            let list = if with_recent { vec![recent("u@h", "shell")] } else { vec![] };
            let mut app = App::new(list);
            app.action_idx = action;
            let mut seen = vec![app.focus];
            loop {
                let before = app.focus;
                press(&mut app, Key::Tab);
                let after = app.focus;
                app.on_key(Key::Tab, false, true);
                assert_eq!(app.focus, before);
                app.focus = after;
                if after == Focus::Host {
                    break;
                }
                seen.push(after);
            }
            assert_eq!(seen.contains(&Focus::Recent), with_recent);
            assert_eq!(seen.contains(&Focus::Param), action_at(action).needs_param());
        }
    }
}

#[test]
fn lists_are_walked() {
    let mut app = App::new(vec![recent("a@b", "shell"), recent("c@d", "cp")]);
    app.focus = Focus::Recent;
    press(&mut app, Key::Char('k'));
    assert_eq!(app.selected, Some(0));
    press(&mut app, Key::Char('j'));
    press(&mut app, Key::Down);
    assert_eq!(app.selected, Some(1));
    press(&mut app, Key::Enter);
    assert_eq!(text(&app.host), "c@d");
    assert_eq!(app.focus, Focus::Actions);
    for _ in 0..20 {
        press(&mut app, Key::Char('j'));
    }
    assert_eq!(app.action(), Action::Scan);
    for _ in 0..20 {
        press(&mut app, Key::Up);
    }
    assert_eq!(app.action(), Action::Shell);
    app.on_command_return("x".to_string(), 0, vec![recent("a@b", "shell")]);
    assert_eq!(app.selected, Some(0));
}

#[test]
fn changing_the_action_forgets_the_parameter() {
    let mut app = App::new(vec![]);
    app.param = Field::holding("old");
    app.focus = Focus::Actions;
    press(&mut app, Key::Down);
    assert_eq!(text(&app.param), "");
}

#[test]
fn recent_connections_are_listed_once() {
    let mut log = vec![
        recent("a@b", "shell"),
        recent("local", "shell"),
        recent("a@b", "_shell-recv"),
        recent("a@b", "recv"),
        recent("a@b", "serve"),
        recent("c@d", "cp"),
        recent("a@b", "shell"),
    ];
    assert_eq!(list_recent(&log), vec![6, 5]);
    for i in 0..20 {
        log.push(recent(&format!("u{i}@h"), "ping"));
    }
    assert_eq!(list_recent(&log), vec![26, 25, 24, 23, 22, 21, 20, 19]);
}

#[test]
fn times_and_names_are_shortened() {
    assert_eq!(format_ts("2026-05-04T13:37:00Z"), "05-04 13:37");
    assert_eq!(format_ts("soon"), "soon");
    assert!(!can_cut_ts("2026éééééééééééé"));
    assert_eq!(truncate("short", 18), "short");
    assert_eq!(truncate("a-very-long-host-name", 18), "a-very-long-host-…");
    assert!(!can_truncate("éééééééééé", 18));
    let row = recent_row(&recent("u@h", "cp"));
    assert_eq!(row, ("u@h".to_string(), " cp     ".to_string(), "05-04 13:37".to_string()));
}

#[test]
fn fields_are_drawn() {
    let mut f = Field::holding("abc");
    f.cursor_left();
    match render_input(&f, true, "hint") {
        InputLine::Editing(b, at, a) => assert_eq!((b.as_str(), at.as_str(), a.as_str()), ("ab", "c", "")),
        _ => panic!(),
    }
    f.cursor_end();
    match render_input(&f, true, "hint") {
        InputLine::Editing(b, at, a) => assert_eq!((b.as_str(), at.as_str(), a.as_str()), ("abc", " ", "")),
        _ => panic!(),
    }
    assert!(matches!(render_input(&f, false, "hint"), InputLine::Plain(_)));
    match render_input(&Field::new(), false, "hint") {
        InputLine::Placeholder(s) => assert_eq!(s, " hint"),
        _ => panic!(),
    }
}

#[test]
fn panels_have_sizes() {
    let mut app = App::new(vec![]);
    let s = app.sizes();
    assert_eq!((s.recent_width, s.action_height, s.param_height, s.last_run_height), (0, 11, 0, 0));
    app.on_command_return("x".to_string(), 0, vec![recent("a@b", "cp")]);
    app.action_idx = 1;
    let s = app.sizes();
    assert_eq!((s.recent_width, s.param_height, s.last_run_height), (30, 3, 1));
    assert_eq!(app.action_row(1).0, " Forward   ");
    assert_eq!(app.action_row(1).2, RowLook::Chosen);
    app.focus = Focus::Actions;
    assert_eq!(app.action_row(1).2, RowLook::Active);
    assert_eq!(app.action_row(0).2, RowLook::Plain);
}

#[test]
fn recent_connections_are_read_from_a_log() {
    let line = |remote: &str, sub: &str, ts: &str| {
        format!("{{\"ts\":\"{ts}\",\"subcommand\":\"{sub}\",\"remote\":\"{remote}\"}}")
    };
    let log = format!(
        "{}\n{}\r\nnot json\n{}\n{}\n{}\n{{\"remote\":7}}\n{}",
        line("a@h", "shell", "1"),
        line("b@h", "copy", "2"),
        line("host", "shell", "3"),
        line("c@h", "_recv", "4"),
        line("d@h", "serve", "5"),
        line("a@h", "shell", "6"),
    );
    let got: Vec<(String, String, String)> =
        recent_of(&log).into_iter().map(|r| (r.remote, r.subcommand, r.ts)).collect();
    let want = |a: &str, b: &str, c: &str| (a.to_string(), b.to_string(), c.to_string());
    assert_eq!(got, vec![want("a@h", "shell", "6"), want("b@h", "copy", "2")]);
    assert!(recent_of("").is_empty());
    let bare = recent_of("{\"remote\":\"a@h\"}");
    assert_eq!((bare[0].subcommand.as_str(), bare[0].ts.as_str()), ("", ""));
    assert_eq!(newest(&vec![recent("x@y", "ping")])[0].remote, "x@y");
}
