use game_client::render::{decimal_string, push_decimal, response_to_string};

/// The text the relay has always shown for a board update.
fn reference_text(buff: &[u8]) -> String {
    let mut holder = "\n\n\n\n\n".to_owned();
    let player_id = u64::from_be_bytes(buff[3..11].try_into().unwrap());
    let board_id = u64::from_be_bytes(buff[11..19].try_into().unwrap());
    let won = buff[28];
    let turn = buff[1];
    holder.push_str(&format!("you are player {}\n", player_id));
    holder.push_str(&format!("test_print board_id {}\n", board_id));
    holder.push_str(&format!("won {}\n", won));
    match buff[1] {
        4 => holder.push_str("game cant start until you invite other friend\n"),
        _ => holder.push_str(&format!("your turn {}\n", turn)),
    }
    holder.push_str("\n\n  | 0 | 1 | 2 |\n");
    holder.push_str("--+---+---+---+--\n");
    holder.push_str(&format!("0 | {} | {} | {} |\n", buff[19], buff[20], buff[21]));
    holder.push_str("--+---+---+---+--\n");
    holder.push_str(&format!("1 | {} | {} | {} |\n", buff[22], buff[23], buff[24]));
    holder.push_str("--+---+---+---+--\n");
    holder.push_str(&format!("2 | {} | {} | {} |\n", buff[25], buff[26], buff[27]));
    holder.push_str("--+---+---+---+--\n  |   |   |   |\n");
    holder
}

fn update(turn: u8, player: u64, board: u64, cells: [u8; 9], won: u8) -> [u8; 64] {
    let mut b = [0u8; 64];
    b[0] = 4;
    b[1] = turn;
    b[2] = 1;
    b[3..11].copy_from_slice(&player.to_be_bytes());
    b[11..19].copy_from_slice(&board.to_be_bytes());
    b[19..28].copy_from_slice(&cells);
    b[28] = won;
    b
}

#[test]
fn renders_turn_update() {
    let b = update(1, 7, 100001, [0, 1, 2, 0, 0, 0, 2, 1, 0], 0);
    let text = response_to_string(&b);
    assert_eq!(text, reference_text(&b));
    assert_eq!(
        text,
        "\n\n\n\n\nyou are player 7\ntest_print board_id 100001\nwon 0\nyour turn 1\n\n\n  | 0 | 1 | 2 |\n--+---+---+---+--\n0 | 0 | 1 | 2 |\n--+---+---+---+--\n1 | 0 | 0 | 0 |\n--+---+---+---+--\n2 | 2 | 1 | 0 |\n--+---+---+---+--\n  |   |   |   |\n"
    );
}

#[test]
fn renders_waiting_board() {
    let b = update(4, 1, 2, [0; 9], 0);
    let text = response_to_string(&b);
    assert!(text.contains("game cant start until you invite other friend\n"));
    assert!(!text.contains("your turn"));
    assert_eq!(text, reference_text(&b));
}

#[test]
fn renders_large_fields() {
    let b = update(255, u64::MAX, 0, [255, 10, 9, 100, 0, 1, 2, 3, 4], 1);
    assert_eq!(response_to_string(&b), reference_text(&b));
    let short = &b[..29];
    assert_eq!(response_to_string(short), reference_text(short));
}

#[test]
fn decimal_text() {
    for n in [0u64, 5, 9, 10, 42, 100001, 4294967296, u64::MAX] {
        assert_eq!(decimal_string(n), n.to_string());
    }
    let mut s = String::from("won ");
    push_decimal(&mut s, 120);
    assert_eq!(s, "won 120");
}
