use seam_protocol::cli::serve::{
    admits, disabled_frame, parse_shell_request, requested_command, service, Service,
};
use seam_protocol::cli::shell::{
    client_on_stdin, code_byte, command_or_login, error_frame, exit_byte, exit_frame,
    interactive_exit, lost_exit, next_control, next_input, pty_on_input, pty_on_output, recv_command,
    refused_exit, resize_frame, resolve_shell, start_failure, stdin_frame, term_frame, BridgeAction, ClientStep,
    Control, Input, PipeClient, PlainBridge, Terminal, WaitStatus,
};

#[test]
fn input_frames_are_read_back() {
    let mut buf = stdin_frame(b"ls\n");
    assert_eq!(buf, b"\x10\x00\x03ls\n");
    buf.extend_from_slice(b"rest");
    match next_input(&buf, true) {
        Some((Input::Data(d), n)) => {
            assert_eq!(d, b"ls\n");
            assert_eq!(n, 6);
        }
        _ => panic!(),
    }
    assert!(next_input(&buf[..4], true).is_none());
    assert!(next_input(&[], true).is_none());
    assert!(matches!(next_input(&[0x11], false), Some((Input::Eof, 1))));
    assert!(matches!(next_input(&[0x77], false), Some((Input::Other, 1))));
}

#[test]
fn sizes_are_read_back_where_there_is_a_terminal() {
    let f = resize_frame(132, 43);
    assert_eq!(f, [0x12, 0, 132, 0, 43]);
    assert!(matches!(
        next_input(&f, true),
        Some((Input::Resize { cols: 132, rows: 43 }, 5))
    ));
    assert!(next_input(&f[..4], true).is_none());
    assert!(matches!(next_input(&f, false), Some((Input::Other, 1))));
}

#[test]
fn terminal_kinds_are_learned() {
    let f = term_frame("vt100");
    assert_eq!(f, b"\x13\x05vt100");
    let mut t = Terminal::new();
    assert_eq!((t.term.as_str(), t.cols, t.rows), ("xterm-256color", 80, 24));
    let (c, n) = next_control(&f).unwrap();
    assert_eq!(n, 7);
    assert!(t.learn(c));
    assert_eq!(t.term, "vt100");
    let (c, _) = next_control(&resize_frame(1, 2)).unwrap();
    assert!(!t.learn(c));
    assert_eq!((t.cols, t.rows), (1, 2));
    assert!(!t.learn(Control::Stop));
    assert!(next_control(&f[..3]).is_none());
    assert_eq!(term_frame(&"x".repeat(300)).len(), 257);
}

#[test]
fn terminal_names_that_are_not_text_are_mended() {
    let mut t = Terminal::new();
    assert!(t.learn(Control::Term(vec![b'a', 0xff])));
    assert_eq!(t.term, "a\u{fffd}");
}

#[test]
fn terminal_servers_pass_data_on() {
    assert!(matches!(pty_on_output(Some(vec![1])), BridgeAction::Send(_)));
    assert!(matches!(pty_on_output(None), BridgeAction::Stop));
    assert!(matches!(pty_on_input(Some(Input::Data(vec![1]))), BridgeAction::Feed(_)));
    assert!(matches!(pty_on_input(Some(Input::Eof)), BridgeAction::Stop));
    assert!(matches!(pty_on_input(Some(Input::Other)), BridgeAction::Ignore));
    assert!(matches!(pty_on_input(None), BridgeAction::Stop));
    assert!(matches!(
        pty_on_input(Some(Input::Resize { cols: 3, rows: 4 })),
        BridgeAction::Resize { cols: 3, rows: 4 }
    ));
}

#[test]
fn plain_servers_end_when_both_outputs_do() {
    let mut b = PlainBridge::new();
    assert_eq!(b.on_output(false, Some(vec![7])), Some(vec![7]));
    assert_eq!(b.on_output(false, Some(vec![])), None);
    assert!(!b.finished());
    assert_eq!(b.on_output(true, None), None);
    assert!(b.finished());
    let mut b = PlainBridge::new();
    assert_eq!(b.on_input(Some(Input::Data(vec![9]))), Some(vec![9]));
    assert!(b.stdin_open);
    assert_eq!(b.on_input(Some(Input::Eof)), None);
    assert!(!b.stdin_open);
}

#[test]
fn clients_send_input_and_its_end() {
    assert_eq!(client_on_stdin(&Some(vec![1, 2])), vec![0x10, 0, 2, 1, 2]);
    assert_eq!(client_on_stdin(&Some(vec![])), vec![0x11]);
    assert_eq!(client_on_stdin(&None), vec![0x11]);
}

#[test]
fn clients_gather_output() {
    let mut c = PipeClient::new();
    for _ in 0..4095 {
        assert!(matches!(c.on_byte(b'x'), ClientStep::Keep));
    }
    match c.on_byte(b'y') {
        ClientStep::Write(v) => assert_eq!(v.len(), 4096),
        _ => panic!(),
    }
    assert!(matches!(c.on_byte(b'z'), ClientStep::Keep));
    assert!(matches!(c.on_byte(1), ClientStep::AwaitCode));
    assert_eq!(c.on_exit(Some(3), true), (vec![b'z'], 3));
    assert!(matches!(PipeClient::new().on_byte(2), ClientStep::AwaitMessage));
    assert_eq!(PipeClient::new().on_exit(None, true).1, 1);
    assert_eq!(PipeClient::new().on_exit(None, false).1, 0);
}

#[test]
fn exit_codes_travel_in_a_byte() {
    assert_eq!(exit_frame(9), [1, 9]);
    assert_eq!(exit_byte(WaitStatus::Exited(4)), 4);
    assert_eq!(exit_byte(WaitStatus::Signaled(9)), 137);
    assert_eq!(exit_byte(WaitStatus::Unknown), 0);
    assert_eq!(code_byte(Some(256)), 0);
    assert_eq!(code_byte(Some(-1)), 255);
    assert_eq!(code_byte(None), 1);
    assert_eq!(interactive_exit(Some(2)), 2);
    assert_eq!(interactive_exit(None), 1);
    assert_eq!(lost_exit(), 0);
    assert_eq!(refused_exit(), 1);
}

#[test]
fn failures_to_start_are_told() {
    let f = error_frame(b"no such file");
    assert_eq!(&f[..3], &[2, 0, 12]);
    assert_eq!(start_failure(b"boom"), "remote command failed to start: boom");
    assert_eq!(disabled_frame()[0], 2);
}

#[test]
fn commands() {
    assert_eq!(
        recv_command(true, &vec!["ls".to_string(), "a b".to_string()]),
        "_shell-recv --port 0 --pty -- 'ls' 'a b'"
    );
    assert_eq!(recv_command(false, &vec![]), "_shell-recv --port 0 --");
    assert_eq!(command_or_login(vec![]), vec!["$SHELL", "-l"]);
    assert_eq!(command_or_login(vec!["id".to_string()]), vec!["id"]);
    let login = command_or_login(vec![]);
    assert_eq!(
        resolve_shell(login, Some("/bin/zsh")),
        Ok(vec!["/bin/zsh".to_string(), "-l".to_string()])
    );
    assert_eq!(
        resolve_shell(command_or_login(vec![]), None).unwrap()[0],
        "/bin/sh"
    );
    assert_eq!(
        resolve_shell(vec![], None),
        Err("_shell-recv: no command specified".to_string())
    );
}

#[test]
fn services() {
    assert_eq!(service(1, false), Service::Shell);
    assert_eq!(service(1, true), Service::ShellDisabled);
    assert_eq!(service(2, true), Service::Forward);
    assert_eq!(service(3, false), Service::Info);
    assert_eq!(service(99, false), Service::Unknown);
    assert!(admits(4, 5));
    assert!(!admits(5, 5));
    assert!(admits(1000, 0));
}

#[test]
fn shell_requests() {
    let req = [1u8, 2, 2, b'l', b's', 1, b'x', 99];
    let (pty, args, n) = parse_shell_request(&req).unwrap();
    assert!(pty);
    assert_eq!(args, vec![b"ls".to_vec(), b"x".to_vec()]);
    assert_eq!(n, 7);
    assert!(parse_shell_request(&req[..5]).is_none());
    assert_eq!(requested_command(&args, None), vec!["ls", "x"]);
    assert_eq!(requested_command(&vec![vec![b'o', 0xff]], None)[0], "o\u{fffd}");
}
