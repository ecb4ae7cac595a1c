use ascii_chat::ascii_frame::AsciiFrame;
use ascii_chat::control::{is_ok_reply, parse_command, parse_control_message, Command, ControlEvent, Reply};
use ascii_chat::logger::{LogLevel, LoggerConfig};
use ascii_chat::menu::{App, AppState};
use ascii_chat::mock_frame_generator::{MockError, MockFrameGenerator, PatternType};
use ascii_chat::network::NetworkInfo;

#[test]
fn commands_are_parsed_by_their_first_word() {
    match parse_command("JOIN room-1\n") {
        Command::Join(id) => assert_eq!(id, "room-1"),
        _ => panic!("expected a join"),
    }
    match parse_command("  JOIN \t abc  def") {
        Command::Join(id) => assert_eq!(id, "abc"),
        _ => panic!("expected a join"),
    }
    assert!(matches!(parse_command("JOIN"), Command::JoinWithoutId));
    assert!(matches!(parse_command("JOIN   \n"), Command::JoinWithoutId));
    assert!(matches!(parse_command("LEAVE\n"), Command::Leave));
    assert!(matches!(parse_command("  LEAVE now"), Command::Leave));
    assert!(matches!(parse_command("HELLO"), Command::Unknown));
    assert!(matches!(parse_command("join x"), Command::Unknown));
    assert!(matches!(parse_command(""), Command::Unknown));
    assert!(matches!(parse_command("JOINED x"), Command::Unknown));
}

#[test]
fn reply_lines() {
    assert_eq!(Reply::Joined.line(), "OK: joined session\n");
    assert_eq!(Reply::UnknownCommand.line(), "ERROR: unknown command\n");
}

#[test]
fn control_messages_are_recognised_by_prefix() {
    assert_eq!(parse_control_message(b"CONNECTED\n"), ControlEvent::Connected);
    assert_eq!(parse_control_message(b"DISCONNECTED\n"), ControlEvent::Disconnected);
    assert_eq!(parse_control_message(b"CONNECT"), ControlEvent::Other);
    assert_eq!(parse_control_message(b"OK: left session\n"), ControlEvent::Other);
}

#[test]
fn ok_replies() {
    assert!(is_ok_reply("OK: joined session\n"));
    assert!(is_ok_reply("  \tOK"));
    assert!(!is_ok_reply("ERROR: session full\n"));
    assert!(!is_ok_reply("O"));
    assert!(!is_ok_reply(""));
}

#[test]
fn checkerboard_swaps_every_five_frames() {
    let mut g = MockFrameGenerator::new(3, 2, 30, PatternType::Checkerboard).unwrap();
    assert_eq!(g.frame_delay_ms(), 33);
    let f0 = g.generate_frame();
    assert_eq!(f0.chars(), &['.', '#', '.', '#', '.', '#']);
    for _ in 0..4 {
        g.generate_frame();
    }
    let f5 = g.generate_frame();
    assert_eq!(f5.chars(), &['#', '.', '#', '.', '#', '.']);
}

#[test]
fn moving_line_walks_down_the_rows() {
    let mut g = MockFrameGenerator::new(2, 3, 10, PatternType::MovingLine).unwrap();
    let f0 = g.generate_frame();
    assert_eq!(f0.chars(), &['=', '=', ' ', ' ', ' ', ' ']);
    let f1 = g.generate_frame();
    assert_eq!(f1.chars(), &[' ', ' ', '=', '=', ' ', ' ']);
    g.generate_frame();
    let f3 = g.generate_frame();
    assert_eq!(f3.chars(), &['=', '=', ' ', ' ', ' ', ' ']);
    let mut frame = AsciiFrame::new(2, 3, 'x').unwrap();
    g.generate_moving_line(&mut frame);
    assert_eq!(frame.chars(), &[' ', ' ', '=', '=', ' ', ' ']);
}

#[test]
fn mock_generator_rejects_bad_parameters() {
    assert_eq!(MockFrameGenerator::new(0, 2, 30, PatternType::Checkerboard).err(), Some(MockError::InvalidParameters));
    assert_eq!(MockFrameGenerator::new(2, 2, 0, PatternType::MovingLine).err(), Some(MockError::InvalidParameters));
}

#[test]
fn network_info_starts_unknown() {
    let n = NetworkInfo::new();
    assert_eq!(n.ip_address, "Unknown");
    assert_eq!(n.udp_port, 0);
}

#[test]
fn logger_config_levels() {
    let c = LoggerConfig::default();
    assert_eq!(c.log_file, "logs/debug.log");
    assert_eq!(c.min_level, LogLevel::Debug);
    assert!(!c.allows(LogLevel::Trace));
    assert!(c.allows(LogLevel::Debug));
    assert!(c.allows(LogLevel::Fatal));
    assert_eq!(LogLevel::Warning.as_str(), "WARNING");
    assert_eq!(LoggerConfig::with_file_name("x.log").log_file, "x.log");
}

#[test]
fn menu_selection_wraps() {
    let mut app = App::new();
    assert_eq!(app.menu_selected, Some(0));
    app.previous_menu_item();
    assert_eq!(app.menu_selected, Some(2));
    app.next_menu_item();
    assert_eq!(app.menu_selected, Some(0));
    app.next_user();
    app.next_user();
    assert_eq!(app.users_selected, Some(2));
    app.previous_user();
    app.previous_user();
    app.previous_user();
    assert_eq!(app.users_selected, Some(4));
    app.next_user();
    assert_eq!(app.users_selected, Some(0));
    app.view_stats();
    assert_eq!(app.app_state, AppState::ViewStats);
    app.back_from_stats();
    assert_eq!(app.app_state, AppState::MainMenu);
    app.menu_selected = None;
    app.next_menu_item();
    assert_eq!(app.menu_selected, Some(0));
}
