use vstd::prelude::*;
use vstd::string::StringExecFns;
use vstd::utf8::{encode_utf8, is_ascii_chars, is_ascii_chars_encode_utf8};
use crate::parse::{decimal_bytes, digit_byte};
use crate::wire::{read_u64_be, u64_from_be};

verus! {

/// The character of a decimal digit.
pub open spec fn digit_char(d: nat) -> char {
    if d == 0 {
        '0'
    } else if d == 1 {
        '1'
    } else if d == 2 {
        '2'
    } else if d == 3 {
        '3'
    } else if d == 4 {
        '4'
    } else if d == 5 {
        '5'
    } else if d == 6 {
        '6'
    } else if d == 7 {
        '7'
    } else if d == 8 {
        '8'
    } else {
        '9'
    }
}

/// `n` written in decimal, as `format!("{}", n)` writes it: no sign, no
/// leading zero, `0` for zero.
pub open spec fn decimal(n: nat) -> Seq<char>
    decreases n,
{
    if n < 10 {
        seq![digit_char(n)]
    } else {
        decimal(n / 10) + seq![digit_char(n % 10)]
    }
}

/// The decimal text of a number is ASCII, and its UTF-8 bytes are the
/// decimal bytes of the number.
pub proof fn lemma_decimal_text_bytes(n: nat)
    ensures
        is_ascii_chars(decimal(n)),
        encode_utf8(decimal(n)) == decimal_bytes(n),
{
    lemma_decimal_chars_bytes(n);
    let t = decimal(n);
    is_ascii_chars_encode_utf8(t);
    assert(encode_utf8(t) =~= decimal_bytes(n));
}

proof fn lemma_decimal_chars_bytes(n: nat)
    ensures
        decimal(n).len() == decimal_bytes(n).len(),
        forall|i: int|
            0 <= i < decimal(n).len() ==> '\0' <= #[trigger] decimal(n)[i] <= '\u{7f}' && decimal(
                n,
            )[i] as u8 == decimal_bytes(n)[i],
    decreases n,
{
    if n < 10 {
        lemma_digit_char_byte(n);
    } else {
        lemma_decimal_chars_bytes(n / 10);
        lemma_digit_char_byte(n % 10);
        let t = decimal(n);
        let p = decimal(n / 10);
        assert forall|i: int| 0 <= i < t.len() implies '\0' <= #[trigger] t[i] <= '\u{7f}' && t[i] as u8
            == decimal_bytes(n)[i] by {
            if i < p.len() {
                assert(t[i] == p[i]);
            }
        }
    }
}

proof fn lemma_digit_char_byte(d: nat)
    requires
        d < 10,
    ensures
        '\0' <= digit_char(d) <= '\u{7f}',
        digit_char(d) as u8 == digit_byte(d),
{
}

/// Appends the character of the digit `d`.
fn push_digit(out: &mut String, d: u64)
    requires
        d < 10,
    ensures
        final(out)@ == old(out)@ + seq![digit_char(d as nat)],
{
    if d == 0 {
        out.append("0");
        proof {
            reveal_strlit("0");
        }
    } else if d == 1 {
        out.append("1");
        proof {
            reveal_strlit("1");
        }
    } else if d == 2 {
        out.append("2");
        proof {
            reveal_strlit("2");
        }
    } else if d == 3 {
        out.append("3");
        proof {
            reveal_strlit("3");
        }
    } else if d == 4 {
        out.append("4");
        proof {
            reveal_strlit("4");
        }
    } else if d == 5 {
        out.append("5");
        proof {
            reveal_strlit("5");
        }
    } else if d == 6 {
        out.append("6");
        proof {
            reveal_strlit("6");
        }
    } else if d == 7 {
        out.append("7");
        proof {
            reveal_strlit("7");
        }
    } else if d == 8 {
        out.append("8");
        proof {
            reveal_strlit("8");
        }
    } else {
        out.append("9");
        proof {
            reveal_strlit("9");
        }
    }
}

/// Appends `n` written in decimal.
pub fn push_decimal(out: &mut String, n: u64)
    ensures
        final(out)@ == old(out)@ + decimal(n as nat),
    decreases n,
{
    if n >= 10 {
        push_decimal(out, n / 10);
        push_digit(out, n % 10);
        assert(final(out)@ =~= old(out)@ + decimal(n as nat));
    } else {
        push_digit(out, n);
    }
}

/// `n` written in decimal (`n.to_string()`).
pub fn decimal_string(n: u64) -> (s: String)
    ensures
        s@ == decimal(n as nat),
{
    let mut s = String::new();
    push_decimal(&mut s, n);
    assert(s@ =~= decimal(n as nat));
    s
}

/// Where a board update from the game server holds whose turn it is.
pub const TURN_AT: usize = 1;

/// Where a board update holds the id of the player it is for (big-endian).
pub const PLAYER_ID_AT: usize = 3;

/// Where a board update holds the id of the board (big-endian).
pub const BOARD_ID_AT: usize = 11;

/// Where the nine cells of the board start, row by row.
pub const CELLS_AT: usize = 19;

/// Where a board update holds whether the game was won.
pub const WON_AT: usize = 28;

/// The `turn` value by which the server says that the board waits for its
/// second player.
pub const WAITING_FOR_OPPONENT: u8 = 4;

/// The head of the text shown for a board update: the player, the board and
/// whether the game was won.
pub open spec fn update_head(b: Seq<u8>) -> Seq<char> {
    "\n\n\n\n\n"@ + "you are player "@ + decimal(u64_from_be(b.subrange(3, 11)) as nat) + "\n"@
        + "test_print board_id "@ + decimal(u64_from_be(b.subrange(11, 19)) as nat) + "\n"@
        + "won "@ + decimal(b[28] as nat) + "\n"@
}

/// The line on whose turn it is, or that the board waits for a second
/// player.
pub open spec fn update_turn(b: Seq<u8>) -> Seq<char> {
    if b[1] == WAITING_FOR_OPPONENT {
        "game cant start until you invite other friend\n"@
    } else {
        "your turn "@ + decimal(b[1] as nat) + "\n"@
    }
}

/// One row of the drawn board: its number and its three cells.
pub open spec fn board_row(label: Seq<char>, b: Seq<u8>, at: int) -> Seq<char> {
    label + decimal(b[at] as nat) + " | "@ + decimal(b[at + 1] as nat) + " | "@ + decimal(
        b[at + 2] as nat,
    ) + " |\n"@
}

/// The drawn board: a header row, then the three rows of cells.
pub open spec fn board_drawing(b: Seq<u8>) -> Seq<char> {
    "\n\n  | 0 | 1 | 2 |\n"@ + "--+---+---+---+--\n"@ + board_row("0 | "@, b, 19)
        + "--+---+---+---+--\n"@ + board_row("1 | "@, b, 22) + "--+---+---+---+--\n"@
        + board_row("2 | "@, b, 25) + "--+---+---+---+--\n  |   |   |   |\n"@
}

/// The text shown to a player for a board update from the server.
pub open spec fn update_text(b: Seq<u8>) -> Seq<char> {
    update_head(b) + update_turn(b) + board_drawing(b)
}

/// Appends one row of the board.
fn push_row(out: &mut String, label: &str, buff: &[u8], at: usize)
    requires
        at + 3 <= buff@.len(),
    ensures
        final(out)@ == old(out)@ + board_row(label@, buff@, at as int),
{
    out.append(label);
    push_decimal(out, buff[at] as u64);
    out.append(" | ");
    push_decimal(out, buff[at + 1] as u64);
    out.append(" | ");
    push_decimal(out, buff[at + 2] as u64);
    out.append(" |\n");
    assert(final(out)@ =~= old(out)@ + board_row(label@, buff@, at as int));
}

/// Renders a board update received from the game server for the player.
pub fn response_to_string(buff: &[u8]) -> (text: String)
    requires
        buff@.len() > WON_AT,
    ensures
        text@ == update_text(buff@),
        buff@[1] != 4 ==> text@ == update_head(buff@) + ("your turn "@ + decimal(
            buff@[1] as nat,
        ) + "\n"@) + board_drawing(buff@),
        buff@[1] == 4 ==> text@ == update_head(buff@)
            + "game cant start until you invite other friend\n"@ + board_drawing(buff@),
{
    let player_id = read_u64_be(buff, PLAYER_ID_AT);
    let board_id = read_u64_be(buff, BOARD_ID_AT);
    let won = buff[WON_AT];
    let turn = buff[TURN_AT];
    let mut holder = "\n\n\n\n\n".to_owned();
    holder.append("you are player ");
    push_decimal(&mut holder, player_id);
    holder.append("\n");
    holder.append("test_print board_id ");
    push_decimal(&mut holder, board_id);
    holder.append("\n");
    holder.append("won ");
    push_decimal(&mut holder, won as u64);
    holder.append("\n");
    assert(holder@ == update_head(buff@));
    let ghost head = holder@;
    if turn == WAITING_FOR_OPPONENT {
        holder.append("game cant start until you invite other friend\n");
    } else {
        let mut line = "your turn ".to_owned();
        push_decimal(&mut line, turn as u64);
        line.append("\n");
        holder.append(line.as_str());
    }
    assert(holder@ == head + update_turn(buff@));
    let ghost with_turn = holder@;
    let mut board = "\n\n  | 0 | 1 | 2 |\n".to_owned();
    board.append("--+---+---+---+--\n");
    push_row(&mut board, "0 | ", buff, CELLS_AT);
    board.append("--+---+---+---+--\n");
    push_row(&mut board, "1 | ", buff, CELLS_AT + 3);
    board.append("--+---+---+---+--\n");
    push_row(&mut board, "2 | ", buff, CELLS_AT + 6);
    board.append("--+---+---+---+--\n  |   |   |   |\n");
    assert(board@ == board_drawing(buff@));
    holder.append(board.as_str());
    proof {
        lemma_turn_line(buff@);
    }
    holder
}

/// The text of an update says whose turn it is, by the turn byte in
/// decimal, for every turn byte but 4; for 4, and only for 4, it says that
/// the game waits for a second player.
pub proof fn lemma_turn_line(b: Seq<u8>)
    ensures
        b[1] != 4 ==> update_text(b) == update_head(b) + ("your turn "@ + decimal(b[1] as nat)
            + "\n"@) + board_drawing(b),
        b[1] == 4 ==> update_text(b) == update_head(b)
            + "game cant start until you invite other friend\n"@ + board_drawing(b),
{
}

} // verus!
