//! The listener's side of a shared session: who may drive the machine.
//!
//! One player at a time. A connection claims the one slot with HELLO, and only
//! the connection that holds it has its TICKs honoured: otherwise a refused
//! player could skip the handshake and drive the agent's console anyway.

use super::protocol::{
    pixels_len, Frame, FrameModel, Hello, HelloModel, MSG_HELLO, MSG_TICK, PROTOCOL_VERSION,
};
use vstd::prelude::*;

verus! {

/// Where the listener binds: loopback only, and port 0 so the system picks a
/// free one. This hands control of a VM and a view of the screen to whoever
/// connects, and that must not be reachable off-box.
pub fn bind_addr() -> (r: ([u8; 4], u16))
    ensures
        r.0@ == seq![127u8, 0, 0, 1],
        r.1 == 0,
{
    let ip = [127u8, 0, 0, 1];
    assert(ip@ =~= seq![127u8, 0, 0, 1]);
    (ip, 0)
}

/// A published listener: the file that advertises it, and its port, which
/// tells its advertisement from a newer server's that reused the filename.
#[derive(Debug, Clone)]
pub struct AttachServer {
    pub session_path: String,
    pub port: u16,
}

/// The one player slot of a session.
#[derive(Debug, Clone, Copy, PartialEq, Eq, Structural)]
pub struct Lobby {
    pub taken: bool,
}

/// One connection to a session.
#[derive(Debug, Clone, Copy, PartialEq, Eq, Structural)]
pub struct Player {
    /// Claimed on HELLO, released when this connection ends.
    pub holds_slot: bool,
    /// Discovery probes the port to test liveness, so a bare connection is not
    /// a player. Only announce one once it has actually said HELLO.
    pub announced: bool,
}

/// What to do about a message.
#[derive(Debug, Clone, Copy, PartialEq, Eq, Structural)]
pub enum Step {
    /// Answer with a HELLO. Where the slot is taken, close after it; where the
    /// player is new, announce it.
    Greet { busy: bool, announce: bool },
    /// Read the request's body, advance the machine one frame, and answer with
    /// the screen.
    Advance,
    /// A TICK from a connection that does not hold the slot: drop it.
    TickBeforeHello,
    /// An unknown message: drop the player.
    UnknownOpcode,
}

impl Player {
    /// The connection after a message.
    pub open spec fn after(self, lobby: Lobby, op: u8) -> Player {
        if op == MSG_HELLO && (self.holds_slot || !lobby.taken) {
            Player { holds_slot: true, announced: true }
        } else {
            self
        }
    }

    /// What a message asks for.
    pub open spec fn step_for(self, lobby: Lobby, op: u8) -> Step {
        if op == MSG_HELLO {
            let busy = !self.holds_slot && lobby.taken;
            Step::Greet { busy, announce: !busy && !self.announced }
        } else if op == MSG_TICK {
            if self.holds_slot {
                Step::Advance
            } else {
                Step::TickBeforeHello
            }
        } else {
            Step::UnknownOpcode
        }
    }

    /// A fresh connection.
    pub fn new() -> (r: Self)
        ensures
            r == (Player { holds_slot: false, announced: false }),
    {
        Player { holds_slot: false, announced: false }
    }

    /// Decide about a message, claiming the slot on a HELLO that finds it free.
    pub fn on_message(&mut self, lobby: &mut Lobby, op: u8) -> (step: Step)
        ensures
            step == old(self).step_for(*old(lobby), op),
            *final(self) == old(self).after(*old(lobby), op),
            final(lobby).taken == (old(lobby).taken || op == MSG_HELLO),
    {
        if op == MSG_HELLO {
            let busy = !self.holds_slot && lobby.taken;
            lobby.taken = true;
            let announce = !busy && !self.announced;
            if !busy {
                self.holds_slot = true;
                self.announced = true;
            }
            Step::Greet { busy, announce }
        } else if op == MSG_TICK {
            if self.holds_slot {
                Step::Advance
            } else {
                Step::TickBeforeHello
            }
        } else {
            Step::UnknownOpcode
        }
    }

    /// End the connection, giving up the slot it holds. Returns whether its
    /// leaving is to be announced.
    pub fn leave(&mut self, lobby: &mut Lobby) -> (announce: bool)
        ensures
            announce == old(self).announced,
            final(lobby).taken == (old(lobby).taken && !old(self).holds_slot),
            *final(self) == (Player { holds_slot: false, announced: old(self).announced }),
    {
        if self.holds_slot {
            lobby.taken = false;
            self.holds_slot = false;
        }
        self.announced
    }
}

/// Whether a step is followed by the end of the connection.
pub fn closes(step: Step) -> (r: bool)
    ensures
        r == !(step matches Step::Greet { busy: false, .. } || step == Step::Advance),
{
    match step {
        Step::Greet { busy, .. } => busy,
        Step::Advance => false,
        Step::TickBeforeHello => true,
        Step::UnknownOpcode => true,
    }
}

/// The reply to a HELLO.
pub fn greeting(busy: bool, dim: u16, controls_json: String) -> (h: Hello)
    ensures
        h@ == (HelloModel { version: PROTOCOL_VERSION, busy, dim, controls: controls_json@ }),
{
    Hello { version: PROTOCOL_VERSION, busy, dim, controls_json }
}

/// The reply to a TICK on a machine that runs a ROM.
pub fn live_frame(paused: bool, halted: bool, dim: u16, rgba: Vec<u8>) -> (f: Frame)
    ensures
        f@ == (FrameModel { has_rom: true, paused, halted, dim, rgba: rgba@ }),
{
    Frame { has_rom: true, paused, halted, dim, rgba }
}

/// The reply to a TICK while there is no ROM: an empty screen rather than a
/// dropped connection.
pub fn blank_frame(dim: u16) -> (f: Frame)
    requires
        pixels_len(dim) <= usize::MAX,
    ensures
        f@ == (FrameModel {
            has_rom: false,
            paused: false,
            halted: false,
            dim,
            rgba: Seq::new(pixels_len(dim) as nat, |i: int| 0u8),
        }),
{
    assert(0 <= dim * dim) by (nonlinear_arith);
    let n: usize = dim as usize * dim as usize * 4;
    let mut rgba: Vec<u8> = Vec::new();
    let mut i: usize = 0;
    while i < n
        invariant
            i <= n,
            rgba@.len() == i,
            forall|j: int| 0 <= j < i ==> rgba@[j] == 0,
        decreases n - i,
    {
        rgba.push(0);
        i += 1;
    }
    assert(rgba@ =~= Seq::new(pixels_len(dim) as nat, |i: int| 0u8));
    Frame { has_rom: false, paused: false, halted: false, dim, rgba }
}

/// A session and its connections.
pub struct Floor {
    pub lobby: Lobby,
    pub players: Seq<Player>,
}

impl Floor {
    /// The slot is taken exactly while some connection holds it, and no two
    /// hold it at once.
    pub open spec fn wf(self) -> bool {
        &&& self.lobby.taken <==> exists|i: int|
            0 <= i < self.players.len() && (#[trigger] self.players[i]).holds_slot
        &&& forall|i: int, j: int|
            0 <= i < self.players.len() && 0 <= j < self.players.len() && (
            #[trigger] self.players[i]).holds_slot && (#[trigger] self.players[j]).holds_slot
                ==> i == j
    }

    /// After a message from connection `i`.
    pub open spec fn message(self, i: int, op: u8) -> Floor {
        Floor {
            lobby: Lobby { taken: self.lobby.taken || op == MSG_HELLO },
            players: self.players.update(i, self.players[i].after(self.lobby, op)),
        }
    }

    /// After connection `i` ends.
    pub open spec fn left(self, i: int) -> Floor {
        Floor {
            lobby: Lobby { taken: self.lobby.taken && !self.players[i].holds_slot },
            players: self.players.update(
                i,
                Player { holds_slot: false, announced: self.players[i].announced },
            ),
        }
    }

    /// After a connection is opened.
    pub open spec fn opened(self) -> Floor {
        Floor {
            lobby: self.lobby,
            players: self.players.push(Player { holds_slot: false, announced: false }),
        }
    }
}

/// Whatever the connections do, at most one of them drives the machine.
pub proof fn law_one_player_at_a_time(f: Floor, i: int, op: u8)
    requires
        f.wf(),
        0 <= i < f.players.len(),
    ensures
        f.message(i, op).wf(),
        f.left(i).wf(),
        f.opened().wf(),
{
    let m = f.message(i, op);
    if op == MSG_HELLO {
        if f.lobby.taken {
            let k = choose|k: int| 0 <= k < f.players.len() && (#[trigger] f.players[k]).holds_slot;
            assert(m.players[k].holds_slot);
        } else {
            assert(m.players[i].holds_slot);
        }
    } else if f.lobby.taken {
        let k = choose|k: int| 0 <= k < f.players.len() && (#[trigger] f.players[k]).holds_slot;
        assert(m.players[k].holds_slot);
    }
    let l = f.left(i);
    if f.lobby.taken {
        let k = choose|k: int| 0 <= k < f.players.len() && (#[trigger] f.players[k]).holds_slot;
        if !f.players[i].holds_slot {
            assert(l.players[k].holds_slot);
        }
        assert(f.opened().players[k].holds_slot);
    }
    assert(forall|k: int|
        0 <= k < f.opened().players.len() && (#[trigger] f.opened().players[k]).holds_slot ==> k
            < f.players.len());
}

/// The machine advances only for the connection that holds the slot: a TICK
/// before a HELLO, or from a refused player, is dropped.
pub proof fn law_only_the_holder_advances(p: Player, lobby: Lobby, op: u8)
    ensures
        p.step_for(lobby, op) == Step::Advance ==> p.holds_slot,
        op == MSG_TICK && !p.holds_slot ==> p.step_for(lobby, op) == Step::TickBeforeHello,
        p.step_for(lobby, op) matches Step::Greet { busy: true, .. } ==> !p.after(
            lobby,
            op,
        ).holds_slot,
{
}

} // verus!
