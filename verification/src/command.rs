use vstd::prelude::*;

verus! {

/// The kinds of request a player can make of the game server.
#[derive(Debug, PartialEq, Eq, Clone, Copy, Structural)]
pub enum CommandType {
    Create,
    Connect,
    Move,
}

/// The byte that stands for a command kind in the first byte of a packet.
pub open spec fn command_code(c: CommandType) -> u8 {
    match c {
        CommandType::Create => 1,
        CommandType::Connect => 2,
        CommandType::Move => 4,
    }
}

/// The command kind that a packet byte names, if any.
pub open spec fn command_of_code(b: u8) -> Option<CommandType> {
    if b == 1 {
        Some(CommandType::Create)
    } else if b == 2 {
        Some(CommandType::Connect)
    } else if b == 4 {
        Some(CommandType::Move)
    } else {
        None
    }
}

impl From<CommandType> for u8 {
    fn from(value: CommandType) -> (code: u8) {
        match value {
            CommandType::Create => 1,
            CommandType::Connect => 2,
            CommandType::Move => 4,
        }
    }
}

impl vstd::std_specs::convert::FromSpecImpl<CommandType> for u8 {
    open spec fn obeys_from_spec() -> bool {
        true
    }

    open spec fn from_spec(v: CommandType) -> u8 {
        command_code(v)
    }
}

impl TryFrom<u8> for CommandType {
    type Error = &'static str;

    fn try_from(value: u8) -> (r: Result<CommandType, &'static str>) {
        if value == 1 {
            Ok(CommandType::Create)
        } else if value == 2 {
            Ok(CommandType::Connect)
        } else if value == 4 {
            Ok(CommandType::Move)
        } else {
            Err("Not a valid Game Code")
        }
    }
}

impl vstd::std_specs::convert::TryFromSpecImpl<u8> for CommandType {
    open spec fn obeys_try_from_spec() -> bool {
        true
    }

    open spec fn try_from_spec(v: u8) -> Result<CommandType, &'static str> {
        match command_of_code(v) {
            Some(c) => Ok(c),
            None => Err("Not a valid Game Code"),
        }
    }
}

/// Reading back the code of a command kind gives the kind: the byte that
/// `u8::from` writes is one that `CommandType::try_from` accepts, and it
/// gives the same kind.
pub proof fn lemma_code_roundtrip(c: CommandType)
    ensures
        command_of_code(command_code(c)) == Some(c),
{
}

/// Every byte that `CommandType::try_from` accepts is the code of the kind
/// it gives, so that distinct kinds have distinct codes and no other byte
/// names a kind.
pub proof fn lemma_code_unique(b: u8)
    ensures
        match command_of_code(b) {
            Some(c) => command_code(c) == b,
            None => b != 1 && b != 2 && b != 4,
        },
{
}

} // verus!
