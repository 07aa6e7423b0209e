use game_client::command::CommandType;
use game_client::render::decimal_string;
use game_client::session::{
    client_action, login_choice, next_id, player_id_from_line, ClientAction, LoginChoice,
    ASSIGNED_BOARD_ID,
};
use game_client::wire::build_move_command;

fn read_of(text: &[u8]) -> ([u8; 64], usize) {
    let mut raw = [0u8; 64];
    raw[..text.len()].copy_from_slice(text);
    (raw, text.len())
}

#[test]
fn move_line_is_forwarded() {
    let (raw, size) = read_of(b"move 1 2\n");
    let action = client_action(&raw, size, 9, ASSIGNED_BOARD_ID);
    let mut expected = [0u8; 64];
    let n = build_move_command(&mut expected, 9, ASSIGNED_BOARD_ID, 1, 2);
    assert_eq!(action, ClientAction::Forward(expected[..n].to_vec()));
}

#[test]
fn create_and_connect_lines_are_forwarded() {
    let (raw, size) = read_of(b"create\n");
    match client_action(&raw, size, 3, 100001) {
        ClientAction::Forward(p) => {
            assert_eq!(p.len(), 17);
            assert_eq!(p[0], u8::from(CommandType::Create));
            assert_eq!(&p[1..9], &100001u64.to_be_bytes());
            assert_eq!(&p[9..17], &3u64.to_be_bytes());
        }
        other => panic!("unexpected {:?}", other),
    }
    let (raw, size) = read_of(b"connect 55\n");
    match client_action(&raw, size, 3, 100001) {
        ClientAction::Forward(p) => {
            assert_eq!(p.len(), 17);
            assert_eq!(p[0], u8::from(CommandType::Connect));
            // the typed board number plays no part in the request
            assert_eq!(&p[1..9], &100001u64.to_be_bytes());
        }
        other => panic!("unexpected {:?}", other),
    }
}

#[test]
fn bad_lines_are_rejected() {
    for text in [&b"move 1\n"[..], b"hello\n", b"connect x\n", b"\n"] {
        let (raw, size) = read_of(text);
        assert_eq!(client_action(&raw, size, 1, 1), ClientAction::RejectSyntax);
    }
    // an empty read hands over the whole (zeroed) buffer
    let raw = [0u8; 64];
    assert_eq!(client_action(&raw, 0, 1, 1), ClientAction::RejectSyntax);
}

#[test]
fn line_end_is_dropped_whatever_it_is() {
    let (raw, size) = read_of(b"create!");
    assert!(matches!(client_action(&raw, size, 1, 1), ClientAction::Forward(_)));
    let (raw, size) = read_of(b"move 1 2\r\n");
    assert_eq!(client_action(&raw, size, 1, 1), ClientAction::RejectSyntax);
}

#[test]
fn counters_advance() {
    assert_eq!(next_id(b"41"), Some(42));
    assert_eq!(next_id(b"0"), Some(1));
    assert_eq!(next_id(b"18446744073709551614"), Some(u64::MAX));
    assert_eq!(next_id(b"18446744073709551615"), None);
    assert_eq!(next_id(b"abc"), None);
    assert_eq!(next_id(b""), None);
}

#[test]
fn stored_counter_reads_back_as_successor() {
    for n in [0u64, 9, 100001, u64::MAX - 1] {
        assert_eq!(next_id(decimal_string(n).as_bytes()), Some(n + 1));
    }
}

#[test]
fn player_id_lines() {
    assert_eq!(player_id_from_line("42\n"), Some(42));
    assert_eq!(player_id_from_line("42"), Some(4));
    assert_eq!(player_id_from_line("42\u{e9}"), Some(42));
    assert_eq!(player_id_from_line("\n"), None);
    assert_eq!(player_id_from_line(""), None);
    assert_eq!(player_id_from_line("x1\n"), None);
    for n in [0u64, 77, u64::MAX] {
        let line = format!("{}\n", n);
        assert_eq!(player_id_from_line(&line), Some(n));
    }
}

#[test]
fn login_answers() {
    assert_eq!(login_choice(0), Some(LoginChoice::LogIn));
    assert_eq!(login_choice(1), Some(LoginChoice::SignUp));
    assert_eq!(login_choice(b'0'), None);
    assert_eq!(login_choice(2), None);
}
