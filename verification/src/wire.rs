use vstd::prelude::*;
use crate::command::{CommandType, command_code};

verus! {

/// Number of bytes of a create or connect packet: the command byte, the
/// board id and the player id.
pub const HEADER_LEN: usize = 17;

/// Number of bytes of a move packet: the header and the two coordinates.
pub const MOVE_LEN: usize = 19;

/// The eight bytes of `v`, most significant first (`u64::to_be_bytes`).
pub open spec fn u64_to_be(v: u64) -> Seq<u8> {
    seq![
        (v >> 56u64) as u8,
        (v >> 48u64) as u8,
        (v >> 40u64) as u8,
        (v >> 32u64) as u8,
        (v >> 24u64) as u8,
        (v >> 16u64) as u8,
        (v >> 8u64) as u8,
        v as u8,
    ]
}

/// The number whose big-endian bytes are the first eight of `b`
/// (`u64::from_be_bytes`).
pub open spec fn u64_from_be(b: Seq<u8>) -> u64
    recommends
        b.len() >= 8,
{
    ((b[0] as u64) << 56u64) | ((b[1] as u64) << 48u64) | ((b[2] as u64) << 40u64) | ((
    b[3] as u64) << 32u64) | ((b[4] as u64) << 24u64) | ((b[5] as u64) << 16u64) | ((
    b[6] as u64) << 8u64) | (b[7] as u64)
}

/// Decoding the big-endian bytes of a number gives the number back.
pub proof fn lemma_be_decode_encode(v: u64)
    ensures
        u64_from_be(u64_to_be(v)) == v,
{
    let b = u64_to_be(v);
    let (b0, b1, b2, b3, b4, b5, b6, b7) = (b[0], b[1], b[2], b[3], b[4], b[5], b[6], b[7]);
    assert(((b0 as u64) << 56u64) | ((b1 as u64) << 48u64) | ((b2 as u64) << 40u64) | ((
    b3 as u64) << 32u64) | ((b4 as u64) << 24u64) | ((b5 as u64) << 16u64) | ((b6 as u64)
        << 8u64) | (b7 as u64) == v) by (bit_vector)
        requires
            b0 == (v >> 56u64) as u8,
            b1 == (v >> 48u64) as u8,
            b2 == (v >> 40u64) as u8,
            b3 == (v >> 32u64) as u8,
            b4 == (v >> 24u64) as u8,
            b5 == (v >> 16u64) as u8,
            b6 == (v >> 8u64) as u8,
            b7 == v as u8,
    ;
}

/// Encoding the number that eight bytes stand for gives the bytes back.
pub proof fn lemma_be_encode_decode(b: Seq<u8>)
    requires
        b.len() == 8,
    ensures
        u64_to_be(u64_from_be(b)) == b,
{
    let v = u64_from_be(b);
    let (b0, b1, b2, b3, b4, b5, b6, b7) = (b[0], b[1], b[2], b[3], b[4], b[5], b[6], b[7]);
    assert({
        &&& (v >> 56u64) as u8 == b0
        &&& (v >> 48u64) as u8 == b1
        &&& (v >> 40u64) as u8 == b2
        &&& (v >> 32u64) as u8 == b3
        &&& (v >> 24u64) as u8 == b4
        &&& (v >> 16u64) as u8 == b5
        &&& (v >> 8u64) as u8 == b6
        &&& v as u8 == b7
    }) by (bit_vector)
        requires
            v == ((b0 as u64) << 56u64) | ((b1 as u64) << 48u64) | ((b2 as u64) << 40u64) | ((
            b3 as u64) << 32u64) | ((b4 as u64) << 24u64) | ((b5 as u64) << 16u64) | ((
            b6 as u64) << 8u64) | (b7 as u64),
    ;
    assert(u64_to_be(v) =~= b);
}

/// The bytes of the request that asks the server to act on a board: the
/// command code, the board id and the player id (both big-endian), then
/// for a move the column and the row.
pub open spec fn command_packet(
    kind: CommandType,
    board_id: u64,
    player_id: u64,
    x: u8,
    y: u8,
) -> Seq<u8> {
    let header = seq![command_code(kind)] + u64_to_be(board_id) + u64_to_be(player_id);
    match kind {
        CommandType::Move => header + seq![x, y],
        _ => header,
    }
}

/// `n` zero bytes.
pub open spec fn zeros(n: int) -> Seq<u8> {
    Seq::new(n as nat, |i: int| 0u8)
}

/// Writes the big-endian bytes of `v` at `off`, leaving the rest as it was.
fn put_u64_be(buf: &mut [u8], off: usize, v: u64)
    requires
        off + 8 <= old(buf)@.len(),
    ensures
        final(buf)@ == old(buf)@.subrange(0, off as int) + u64_to_be(v) + old(buf)@.subrange(
            off + 8,
            old(buf)@.len() as int,
        ),
{
    buf[off] = (v >> 56u64) as u8;
    buf[off + 1] = (v >> 48u64) as u8;
    buf[off + 2] = (v >> 40u64) as u8;
    buf[off + 3] = (v >> 32u64) as u8;
    buf[off + 4] = (v >> 24u64) as u8;
    buf[off + 5] = (v >> 16u64) as u8;
    buf[off + 6] = (v >> 8u64) as u8;
    buf[off + 7] = v as u8;
    assert(buf@ =~= old(buf)@.subrange(0, off as int) + u64_to_be(v) + old(buf)@.subrange(
        off + 8,
        old(buf)@.len() as int,
    ));
}

/// Sets every byte of `buf` to zero.
fn zero_fill(buf: &mut [u8])
    ensures
        final(buf)@ == zeros(old(buf)@.len() as int),
{
    let n = buf.len();
    let mut i: usize = 0;
    while i < n
        invariant
            n == buf@.len(),
            n == old(buf)@.len(),
            i <= n,
            forall|j: int| 0 <= j < i ==> buf@[j] == 0u8,
        decreases n - i,
    {
        buf[i] = 0;
        i = i + 1;
    }
    assert(buf@ =~= zeros(n as int));
}

/// Clears `buf` and writes the header of a request of the given kind.
fn write_header(buf: &mut [u8], kind: CommandType, player_id: u64, board_id: u64)
    requires
        old(buf)@.len() >= HEADER_LEN,
    ensures
        final(buf)@ == seq![command_code(kind)] + u64_to_be(board_id) + u64_to_be(player_id)
            + zeros(old(buf)@.len() - HEADER_LEN),
{
    let ghost n = buf@.len();
    zero_fill(buf);
    buf[0] = u8::from(kind);
    put_u64_be(buf, 1, board_id);
    put_u64_be(buf, 9, player_id);
    assert(buf@ =~= seq![command_code(kind)] + u64_to_be(board_id) + u64_to_be(player_id)
        + zeros(n - HEADER_LEN));
}

/// Fills `send_buffer` with a request to create a board and returns the
/// number of bytes of the request; the rest of the buffer is zero.
pub fn build_create_command(send_buffer: &mut [u8], player_id: u64, board_id: u64) -> (n: usize)
    requires
        old(send_buffer)@.len() >= HEADER_LEN,
    ensures
        n == HEADER_LEN,
        final(send_buffer)@ == command_packet(CommandType::Create, board_id, player_id, 0, 0)
            + zeros(old(send_buffer)@.len() - n),
{
    write_header(send_buffer, CommandType::Create, player_id, board_id);
    HEADER_LEN
}

/// Fills `send_buffer` with a request to join a board and returns the
/// number of bytes of the request; the rest of the buffer is zero.
pub fn build_connect_command(send_buffer: &mut [u8], player_id: u64, board_id: u64) -> (n: usize)
    requires
        old(send_buffer)@.len() >= HEADER_LEN,
    ensures
        n == HEADER_LEN,
        final(send_buffer)@ == command_packet(CommandType::Connect, board_id, player_id, 0, 0)
            + zeros(old(send_buffer)@.len() - n),
{
    write_header(send_buffer, CommandType::Connect, player_id, board_id);
    HEADER_LEN
}

/// Fills `send_buffer` with a request to play at column `x_cord`, row
/// `y_cord` and returns the number of bytes of the request; the rest of the
/// buffer is zero.
pub fn build_move_command(
    send_buffer: &mut [u8],
    player_id: u64,
    board_id: u64,
    x_cord: u8,
    y_cord: u8,
) -> (n: usize)
    requires
        old(send_buffer)@.len() >= MOVE_LEN,
    ensures
        n == MOVE_LEN,
        final(send_buffer)@ == command_packet(CommandType::Move, board_id, player_id, x_cord, y_cord)
            + zeros(old(send_buffer)@.len() - n),
{
    let ghost len = send_buffer@.len();
    write_header(send_buffer, CommandType::Move, player_id, board_id);
    send_buffer[17] = x_cord;
    send_buffer[18] = y_cord;
    assert(send_buffer@ =~= command_packet(CommandType::Move, board_id, player_id, x_cord, y_cord)
        + zeros(len - MOVE_LEN));
    MOVE_LEN
}

/// The number stored big-endian in `buf` at `off` (`u64::from_be_bytes`).
pub fn read_u64_be(buf: &[u8], off: usize) -> (v: u64)
    requires
        off + 8 <= buf@.len(),
    ensures
        v == u64_from_be(buf@.subrange(off as int, off + 8)),
{
    ((buf[off] as u64) << 56u64) | ((buf[off + 1] as u64) << 48u64) | ((buf[off + 2] as u64)
        << 40u64) | ((buf[off + 3] as u64) << 32u64) | ((buf[off + 4] as u64) << 24u64) | ((
    buf[off + 5] as u64) << 16u64) | ((buf[off + 6] as u64) << 8u64) | (buf[off + 7] as u64)
}

/// The fields of a request are read back from where they were written: the
/// first byte names the command kind, bytes 1 to 8 hold the board id and
/// bytes 9 to 16 the player id, and a move carries its column and row in
/// bytes 17 and 18.
pub proof fn lemma_packet_fields(kind: CommandType, board_id: u64, player_id: u64, x: u8, y: u8)
    ensures
        ({
            let p = command_packet(kind, board_id, player_id, x, y);
            &&& p.len() == (if kind == CommandType::Move {
                MOVE_LEN
            } else {
                HEADER_LEN
            })
            &&& crate::command::command_of_code(p[0]) == Some(kind)
            &&& u64_from_be(p.subrange(1, 9)) == board_id
            &&& u64_from_be(p.subrange(9, 17)) == player_id
            &&& kind == CommandType::Move ==> p[17] == x && p[18] == y
        }),
{
    let p = command_packet(kind, board_id, player_id, x, y);
    crate::command::lemma_code_roundtrip(kind);
    lemma_be_decode_encode(board_id);
    lemma_be_decode_encode(player_id);
    assert(p.subrange(1, 9) =~= u64_to_be(board_id));
    assert(p.subrange(9, 17) =~= u64_to_be(player_id));
}

} // verus!
