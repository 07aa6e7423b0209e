use vstd::prelude::*;
use vstd::string::StrSliceExecFns;
use crate::command::CommandType;
use crate::parse::{command_of_line, decimal_of, lemma_decimal_roundtrip, parse_command, parse_decimal};
use crate::render::{decimal, lemma_decimal_text_bytes};
use crate::command::command_of_code;
use crate::wire::{
    build_connect_command, build_create_command, build_move_command, command_packet,
    lemma_packet_fields, u64_from_be,
};

verus! {

/// Size of the buffers in which a connection reads what the player typed and
/// builds the request for the game server.
pub const LINE_BUFFER_LEN: usize = 64;

/// The board every new player is given.
pub const ASSIGNED_BOARD_ID: u64 = 100001;

/// What to do with a line that a player typed.
#[derive(Debug, PartialEq, Eq)]
pub enum ClientAction {
    /// The line is no command: tell the player the syntax was wrong.
    RejectSyntax,
    /// Send these bytes to the game server.
    Forward(Vec<u8>),
}

/// The part of a read that stands for the typed line: the `size` bytes read
/// without the last one (the line end); after an empty read, the whole
/// buffer.
pub open spec fn typed_line(raw: Seq<u8>, size: nat) -> Seq<u8> {
    if size >= 1 {
        raw.take(size - 1)
    } else {
        raw
    }
}

/// The request that a command of a player becomes. The number given to
/// `connect` plays no part: the request names the player's own board.
pub open spec fn request_for(
    cmd: (CommandType, u64, u8, u8),
    player_id: u64,
    board_id: u64,
) -> Seq<u8> {
    command_packet(cmd.0, board_id, player_id, cmd.2, cmd.3)
}

/// Decides what a connection does with the `size` bytes that a read put at
/// the front of `raw`, for the player `player_id` on the board `board_id`.
pub fn client_action(raw: &[u8], size: usize, player_id: u64, board_id: u64) -> (action: ClientAction)
    requires
        size <= raw@.len(),
    ensures
        match command_of_line(typed_line(raw@, size as nat)) {
            None => action == ClientAction::RejectSyntax,
            Some(cmd) => action matches ClientAction::Forward(p) && p@ == request_for(
                cmd,
                player_id,
                board_id,
            ),
        },
        action matches ClientAction::Forward(p) ==> {
            &&& p@.len() >= 17
            &&& command_of_line(typed_line(raw@, size as nat)) matches Some(cmd)
            &&& command_of_code(p@[0]) == Some(cmd.0)
            &&& u64_from_be(p@.subrange(1, 9)) == board_id
            &&& u64_from_be(p@.subrange(9, 17)) == player_id
        },
{
    let line = if size >= 1 {
        vstd::slice::slice_subrange(raw, 0, size - 1)
    } else {
        raw
    };
    assert(line@ =~= typed_line(raw@, size as nat));
    match parse_command(line) {
        None => ClientAction::RejectSyntax,
        Some((kind, number, x, y)) => {
            let mut packet: Vec<u8> = vec![0u8; LINE_BUFFER_LEN];
            let n = match kind {
                CommandType::Create => build_create_command(
                    packet.as_mut_slice(),
                    player_id,
                    board_id,
                ),
                CommandType::Connect => build_connect_command(
                    packet.as_mut_slice(),
                    player_id,
                    board_id,
                ),
                CommandType::Move => build_move_command(
                    packet.as_mut_slice(),
                    player_id,
                    board_id,
                    x,
                    y,
                ),
            };
            let ghost full = packet@;
            packet.truncate(n);
            assert(packet@ =~= full.take(n as int));
            assert(packet@ =~= request_for((kind, number, x, y), player_id, board_id));
            proof {
                lemma_request_fields((kind, number, x, y), player_id, board_id);
            }
            ClientAction::Forward(packet)
        },
    }
}

/// Whatever command a player typed, the request that goes to the server
/// names the command's kind in its first byte, the player's board in bytes 1
/// to 8 and the player's own id in bytes 9 to 16; a number typed after
/// `connect` reaches neither. A move carries the typed column and row in
/// bytes 17 and 18.
pub proof fn lemma_request_fields(cmd: (CommandType, u64, u8, u8), player_id: u64, board_id: u64)
    ensures
        ({
            let p = request_for(cmd, player_id, board_id);
            &&& p.len() == if cmd.0 == CommandType::Move {
                19int
            } else {
                17int
            }
            &&& command_of_code(p[0]) == Some(cmd.0)
            &&& u64_from_be(p.subrange(1, 9)) == board_id
            &&& u64_from_be(p.subrange(9, 17)) == player_id
            &&& cmd.0 == CommandType::Move ==> p[17] == cmd.2 && p[18] == cmd.3
        }),
{
    lemma_packet_fields(cmd.0, board_id, player_id, cmd.2, cmd.3);
}

/// The counter that follows a stored one, where the stored text is a
/// number below `u64::MAX`.
pub open spec fn successor_of(stored: Seq<u8>) -> Option<u64> {
    match decimal_of(stored, u64::MAX as nat) {
        Some(v) => if v < u64::MAX {
            Some((v + 1) as u64)
        } else {
            None
        },
        None => None,
    }
}

/// The next board or player number, from the decimal text of the last one
/// handed out. `None` where the text is no number or the number is the
/// largest one.
pub fn next_id(stored: &[u8]) -> (r: Option<u64>)
    ensures
        r == successor_of(stored@),
{
    match parse_decimal(stored, u64::MAX) {
        Some(v) => if v < u64::MAX {
            Some(v + 1)
        } else {
            None
        },
        None => None,
    }
}

/// A line without its last character (the line end), as `String::pop`
/// leaves it.
pub open spec fn without_last_char(line: Seq<char>) -> Seq<char> {
    if line.len() > 0 {
        line.drop_last()
    } else {
        line
    }
}

/// The player id typed on a line: the line without its last character, read
/// as a decimal number.
pub fn player_id_from_line(line: &str) -> (r: Option<u64>)
    ensures
        match decimal_of(vstd::utf8::encode_utf8(without_last_char(line@)), u64::MAX as nat) {
            Some(v) => r == Some(v as u64),
            None => r is None,
        },
{
    let n = line.unicode_len();
    let kept = if n > 0 {
        line.substring_char(0, n - 1)
    } else {
        line
    };
    assert(kept@ =~= without_last_char(line@));
    parse_decimal(kept.as_bytes(), u64::MAX)
}

/// How a new player answers the greeting.
#[derive(Debug, PartialEq, Eq, Clone, Copy, Structural)]
pub enum LoginChoice {
    LogIn,
    SignUp,
}

/// The answer that the byte a player sends after the greeting stands for:
/// byte 0 logs in, byte 1 signs up; any other byte is no answer.
pub fn login_choice(answer: u8) -> (r: Option<LoginChoice>)
    ensures
        r == (if answer == 0 {
            Some(LoginChoice::LogIn)
        } else if answer == 1 {
            Some(LoginChoice::SignUp)
        } else {
            None
        }),
{
    if answer == 0 {
        Some(LoginChoice::LogIn)
    } else if answer == 1 {
        Some(LoginChoice::SignUp)
    } else {
        None
    }
}

/// A board or player counter stored as its decimal text (`decimal_string`,
/// what the relay writes when it updates either counter) is read back by
/// `next_id` (what it does when it fetches either counter) as the counter
/// that follows it.
pub proof fn lemma_counter_roundtrip(n: u64)
    requires
        n < u64::MAX,
    ensures
        successor_of(vstd::utf8::encode_utf8(decimal(n as nat))) == Some((n + 1) as u64),
{
    lemma_decimal_text_bytes(n as nat);
    lemma_decimal_roundtrip(n as nat, u64::MAX as nat);
}

/// A player id typed as its decimal text and ended by a line end is read
/// back by `player_id_from_line` as that id.
pub proof fn lemma_typed_player_id(n: u64)
    ensures
        decimal_of(
            vstd::utf8::encode_utf8(without_last_char(decimal(n as nat).push('\n'))),
            u64::MAX as nat,
        ) == Some(n as nat),
{
    assert(without_last_char(decimal(n as nat).push('\n')) =~= decimal(n as nat));
    lemma_decimal_text_bytes(n as nat);
    lemma_decimal_roundtrip(n as nat, u64::MAX as nat);
}

} // verus!
