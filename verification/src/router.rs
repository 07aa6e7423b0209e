use vstd::prelude::*;
use std::collections::HashMap;
use std::sync::mpsc::Sender;
use crate::wire::{lemma_be_encode_decode, read_u64_be, u64_from_be, u64_to_be};

verus! {

/// Where in a datagram from the game server the id of the player it is
/// meant for stands (big-endian).
pub const PLAYER_KEY_AT: usize = 3;

/// The channel end through which a player's connection receives the
/// datagrams meant for it.
#[verifier::external_type_specification]
#[verifier::external_body]
#[verifier::reject_recursive_types(T)]
pub struct ExSender<T>(Sender<T>);

/// A change to the table of connected players.
#[derive(Debug)]
pub enum MapAction {
    /// The player with this id is connected, and receives through this channel.
    Add(u64, Sender<[u8; 64]>),
    /// The player with this id has left.
    Remove(u64),
}

/// The id of the player that a datagram from the game server is meant for.
pub open spec fn packet_player_key(packet: Seq<u8>) -> u64 {
    u64_from_be(packet.subrange(3, 11))
}

/// The table after one change: an added player's channel replaces any
/// earlier one for that id; removing an absent id changes nothing.
pub open spec fn action_applied(
    table: Map<u64, Sender<[u8; 64]>>,
    action: MapAction,
) -> Map<u64, Sender<[u8; 64]>> {
    match action {
        MapAction::Add(k, s) => table.insert(k, s),
        MapAction::Remove(k) => table.remove(k),
    }
}

/// The table after a run of changes, applied in the order given.
pub open spec fn actions_applied(
    table: Map<u64, Sender<[u8; 64]>>,
    actions: Seq<MapAction>,
) -> Map<u64, Sender<[u8; 64]>>
    decreases actions.len(),
{
    if actions.len() == 0 {
        table
    } else {
        actions_applied(action_applied(table, actions[0]), actions.drop_first())
    }
}

/// The id of the player that a change concerns.
pub open spec fn action_key(action: MapAction) -> u64 {
    match action {
        MapAction::Add(k, _) => k,
        MapAction::Remove(k) => k,
    }
}

/// The table that tells the listener which connection a datagram from the
/// game server goes to.
pub struct Router {
    table: HashMap<u64, Sender<[u8; 64]>>,
}

impl View for Router {
    type V = Map<u64, Sender<[u8; 64]>>;

    closed spec fn view(&self) -> Map<u64, Sender<[u8; 64]>> {
        self.table@
    }
}

impl Router {
    /// A table with no player in it.
    pub fn new() -> (r: Router)
        ensures
            r@ == Map::<u64, Sender<[u8; 64]>>::empty(),
    {
        Router { table: HashMap::new() }
    }

    /// Applies a change to the table and returns the id of the player it
    /// concerns.
    pub fn apply(&mut self, action: MapAction) -> (key: u64)
        ensures
            key == action_key(action),
            final(self)@ == action_applied(old(self)@, action),
            match action {
                MapAction::Add(k, s) => {
                    &&& final(self)@.contains_key(k)
                    &&& final(self)@[k] == s
                    &&& forall|j: u64|
                        j != k ==> (#[trigger] final(self)@.contains_key(j) == old(
                            self,
                        )@.contains_key(j) && (old(self)@.contains_key(j) ==> final(self)@[j]
                            == old(self)@[j]))
                },
                MapAction::Remove(k) => {
                    &&& !final(self)@.contains_key(k)
                    &&& forall|j: u64|
                        j != k ==> (#[trigger] final(self)@.contains_key(j) == old(
                            self,
                        )@.contains_key(j) && (old(self)@.contains_key(j) ==> final(self)@[j]
                            == old(self)@[j]))
                },
            },
    {
        broadcast use vstd::std_specs::hash::group_hash_axioms;

        proof {
            lemma_action_effect(old(self)@, action);
        }
        match action {
            MapAction::Add(key, sender) => {
                self.table.insert(key, sender);
                key
            },
            MapAction::Remove(key) => {
                self.table.remove(&key);
                key
            },
        }
    }

    /// Applies the changes queued since the last datagram, first queued
    /// first, and returns the ids of the players they concern, in order.
    pub fn apply_all(&mut self, actions: Vec<MapAction>) -> (keys: Vec<u64>)
        ensures
            final(self)@ == actions_applied(old(self)@, actions@),
            keys@ == actions@.map_values(|a: MapAction| action_key(a)),
    {
        let mut rest = actions;
        let mut keys: Vec<u64> = Vec::new();
        let ghost all = actions@;
        while rest.len() > 0
            invariant
                actions_applied(self@, rest@) == actions_applied(old(self)@, all),
                keys@.len() + rest@.len() == all.len(),
                rest@ == all.skip(keys@.len() as int),
                forall|i: int| 0 <= i < keys@.len() ==> keys@[i] == action_key(#[trigger] all[i]),
            decreases rest@.len(),
        {
            let ghost before = rest@;
            let action = rest.remove(0);
            assert(rest@ =~= before.drop_first());
            assert(rest@ =~= all.skip(keys@.len() as int + 1));
            let key = self.apply(action);
            keys.push(key);
        }
        assert(keys@ =~= all.map_values(|a: MapAction| action_key(a)));
        keys
    }

    /// The id of the player that a datagram from the game server is meant
    /// for.
    pub fn player_key(packet: &[u8; 64]) -> (key: u64)
        ensures
            key == packet_player_key(packet@),
            u64_to_be(key) == packet@.subrange(3, 11),
    {
        let key = read_u64_be(packet.as_slice(), PLAYER_KEY_AT);
        proof {
            lemma_be_encode_decode(packet@.subrange(3, 11));
        }
        key
    }

    /// The channel of the player that a datagram from the game server is
    /// meant for, if that player is connected.
    pub fn route(&self, packet: &[u8; 64]) -> (r: Option<&Sender<[u8; 64]>>)
        ensures
            match r {
                Some(s) => self@.contains_key(packet_player_key(packet@)) && *s == self@[packet_player_key(packet@)],
                None => !self@.contains_key(packet_player_key(packet@)),
            },
            forall|v: u64|
                #![trigger u64_to_be(v)]
                packet@.subrange(3, 11) == u64_to_be(v) ==> match r {
                    Some(s) => self@.contains_key(v) && *s == self@[v],
                    None => !self@.contains_key(v),
                },
    {
        broadcast use vstd::std_specs::hash::group_hash_axioms;

        let key = Router::player_key(packet);
        proof {
            assert forall|v: u64| #![trigger u64_to_be(v)] packet@.subrange(3, 11) == u64_to_be(v) implies v == key by {
                lemma_player_key_bytes(packet@, v);
            }
        }
        self.table.get(&key)
    }
}

/// A datagram whose key field holds the id of a player that was just added
/// is routed to the channel given with it; once the player is removed, no
/// datagram for that id is routed anywhere. Other players' entries are left
/// as they were.
pub proof fn lemma_route_after_change(
    table: Map<u64, Sender<[u8; 64]>>,
    k: u64,
    s: Sender<[u8; 64]>,
    packet: Seq<u8>,
    other: u64,
)
    requires
        packet_player_key(packet) == k,
        other != k,
    ensures
        table.insert(k, s).contains_key(packet_player_key(packet)),
        table.insert(k, s)[packet_player_key(packet)] == s,
        !table.remove(k).contains_key(packet_player_key(packet)),
        table.insert(k, s).contains_key(other) == table.contains_key(other),
        table.remove(k).contains_key(other) == table.contains_key(other),
        table.contains_key(other) ==> table.insert(k, s)[other] == table[other]
            && table.remove(k)[other] == table[other],
{
}

/// The listener's table is the changes it has taken, applied in the order
/// they were queued: taking one more change after a run of them gives the
/// table of the run with that change applied last. With `Router::new`
/// (the empty table) and `apply` or `apply_all`, the table after any run of
/// changes is `actions_applied(Map::empty(), run)`.
pub proof fn lemma_actions_in_order(
    table: Map<u64, Sender<[u8; 64]>>,
    actions: Seq<MapAction>,
    action: MapAction,
)
    ensures
        actions_applied(table, Seq::<MapAction>::empty()) == table,
        actions_applied(table, actions.push(action)) == action_applied(
            actions_applied(table, actions),
            action,
        ),
    decreases actions.len(),
{
    let pushed = actions.push(action);
    assert(pushed[0] == if actions.len() > 0 {
        actions[0]
    } else {
        action
    });
    if actions.len() == 0 {
        assert(pushed.drop_first() =~= Seq::<MapAction>::empty());
        assert(actions_applied(table, actions) == table);
        assert(actions_applied(action_applied(table, action), pushed.drop_first())
            == action_applied(table, action));
        assert(actions_applied(table, pushed) == actions_applied(
            action_applied(table, pushed[0]),
            pushed.drop_first(),
        ));
    } else {
        let next = action_applied(table, actions[0]);
        lemma_actions_in_order(next, actions.drop_first(), action);
        assert(pushed.drop_first() =~= actions.drop_first().push(action));
        assert(actions_applied(table, pushed) == actions_applied(next, pushed.drop_first()));
        assert(actions_applied(table, actions) == actions_applied(next, actions.drop_first()));
    }
}

/// Adding a player makes its id map to the channel given, whether or not
/// the id was there before; removing a player leaves its id absent,
/// whatever else the table holds. Neither touches any other id.
pub proof fn lemma_action_effect(table: Map<u64, Sender<[u8; 64]>>, action: MapAction)
    ensures
        match action {
            MapAction::Add(k, s) => {
                &&& action_applied(table, action).contains_key(k)
                &&& action_applied(table, action)[k] == s
                &&& forall|j: u64|
                    j != k ==> (#[trigger] action_applied(table, action).contains_key(j)
                        == table.contains_key(j) && (table.contains_key(j) ==> action_applied(
                        table,
                        action,
                    )[j] == table[j]))
            },
            MapAction::Remove(k) => {
                &&& !action_applied(table, action).contains_key(k)
                &&& forall|j: u64|
                    j != k ==> (#[trigger] action_applied(table, action).contains_key(j)
                        == table.contains_key(j) && (table.contains_key(j) ==> action_applied(
                        table,
                        action,
                    )[j] == table[j]))
            },
        },
{
}

/// A datagram whose bytes 3 to 10 are the big-endian bytes of a player id
/// is keyed by that id, all eight bytes of it.
pub proof fn lemma_player_key_bytes(packet: Seq<u8>, v: u64)
    requires
        packet.len() >= 11,
        packet.subrange(3, 11) == u64_to_be(v),
    ensures
        packet_player_key(packet) == v,
{
    crate::wire::lemma_be_decode_encode(v);
}

} // verus!
