//! The player's side of a shared session.

use super::protocol::{Frame, FrameModel, Hello, PROTOCOL_VERSION};
use crate::bytes::push_all;
use crate::device::{only_buttons, Input, InputModel};
use crate::text::{decimal, push_decimal};
use vstd::prelude::*;
use vstd::string::StringExecFns;

verus! {

/// Nanoseconds between ticks. The console is defined at 60 Hz.
pub const TICK_INTERVAL_NS: u64 = 16_666_666;

/// Why a session that answered is not joined.
pub open spec fn refusal(version: u8, busy: bool) -> Option<Seq<char>> {
    if busy {
        Some(
            "another player is already attached to this session — only one window at a time can drive the agent's VM"@,
        )
    } else if version != PROTOCOL_VERSION {
        Some(
            "session speaks attach protocol v"@ + decimal(version as nat)
                + " but this kessel speaks v"@ + decimal(PROTOCOL_VERSION as nat)
                + " — the running `kessel mcp` is a different build"@,
        )
    } else {
        None
    }
}

/// What a player shows and sends: what it last heard of the session, and what
/// goes with the next tick.
pub struct AttachClient {
    dim: u32,
    /// What is sent with the next tick.
    input: Input,
    /// Most recent frame from the server. `None` until the first arrives.
    latest: Option<Frame>,
    connected: bool,
}

/// What an [`AttachClient`] holds.
pub struct ClientModel {
    pub dim: u32,
    pub input: InputModel,
    pub latest: Option<FrameModel>,
    pub connected: bool,
}

impl View for AttachClient {
    type V = ClientModel;

    closed spec fn view(&self) -> ClientModel {
        ClientModel {
            dim: self.dim,
            input: self.input@,
            latest: match self.latest {
                Some(f) => Some(f@),
                None => None,
            },
            connected: self.connected,
        }
    }
}

impl AttachClient {
    /// Join a session that answered with `hello`, or say why not: another
    /// player is there, or it is another build.
    pub fn connect(hello: &Hello) -> (r: Result<AttachClient, String>)
        ensures
            match refusal(hello.version, hello.busy) {
                None => r matches Ok(c) && c@ == (ClientModel {
                    dim: hello.dim as u32,
                    input: only_buttons(0),
                    latest: None,
                    connected: true,
                }),
                Some(why) => r matches Err(e) && e@ == why,
            },
    {
        if hello.busy {
            let mut e = String::new();
            e.append(
                "another player is already attached to this session — only one window at a time can drive the agent's VM",
            );
            assert(e@ =~= refusal(hello.version, hello.busy)->0);
            return Err(e);
        }
        if hello.version != PROTOCOL_VERSION {
            let mut e = String::new();
            e.append("session speaks attach protocol v");
            push_decimal(&mut e, hello.version as u64);
            e.append(" but this kessel speaks v");
            push_decimal(&mut e, PROTOCOL_VERSION as u64);
            e.append(" — the running `kessel mcp` is a different build");
            assert(e@ =~= refusal(hello.version, hello.busy)->0);
            return Err(e);
        }
        Ok(
            AttachClient {
                dim: hello.dim as u32,
                input: Input::default(),
                latest: None,
                connected: true,
            },
        )
    }

    /// Screen edge length of the most recent frame, falling back to the size
    /// HELLO advertised before one has arrived.
    pub fn screen_dim(&self) -> (r: u32)
        ensures
            r == (match self@.latest {
                Some(f) => if f.dim > 0 {
                    f.dim as u32
                } else {
                    self@.dim
                },
                None => self@.dim,
            }),
    {
        match &self.latest {
            Some(f) => if f.dim > 0 {
                f.dim as u32
            } else {
                self.dim
            },
            None => self.dim,
        }
    }

    /// Record the input to send with the next tick.
    pub fn set_input(&mut self, input: Input)
        ensures
            final(self)@ == (ClientModel { input: input@, ..old(self)@ }),
    {
        self.input = input;
    }

    /// The input that goes with the next tick.
    pub fn input(&self) -> (r: Input)
        ensures
            r@ == self@.input,
    {
        self.input
    }

    /// Record a frame that arrived.
    pub fn receive(&mut self, frame: Frame)
        ensures
            final(self)@ == (ClientModel { latest: Some(frame@), ..old(self)@ }),
    {
        self.latest = Some(frame);
    }

    /// Record that the session is gone.
    pub fn disconnect(&mut self)
        ensures
            final(self)@ == (ClientModel { connected: false, ..old(self)@ }),
    {
        self.connected = false;
    }

    pub fn is_connected(&self) -> (r: bool)
        ensures
            r == self@.connected,
    {
        self.connected
    }

    /// The most recent frame's pixels. `None` before the first one lands, and
    /// where it shows no ROM: nothing to draw, rather than a black game.
    pub fn framebuffer_rgba(&self) -> (r: Option<Vec<u8>>)
        ensures
            match self@.latest {
                Some(f) => if f.has_rom {
                    r matches Some(v) && v@ == f.rgba
                } else {
                    r is None
                },
                None => r is None,
            },
    {
        match &self.latest {
            Some(f) => if f.has_rom {
                let mut v: Vec<u8> = Vec::new();
                push_all(&mut v, f.rgba.as_slice());
                assert(v@ =~= f.rgba@);
                Some(v)
            } else {
                None
            },
            None => None,
        }
    }

    pub fn is_paused(&self) -> (r: bool)
        ensures
            r == (self@.latest matches Some(f) && f.paused),
    {
        match &self.latest {
            Some(f) => f.paused,
            None => false,
        }
    }

    pub fn has_rom(&self) -> (r: bool)
        ensures
            r == (self@.latest matches Some(f) && f.has_rom),
    {
        match &self.latest {
            Some(f) => f.has_rom,
            None => false,
        }
    }
}

/// Pace the request rate: when the next tick is due, and how long to wait for
/// it, both in nanoseconds. If a tick took longer than the budget, go straight
/// on rather than trying to catch up, which would fast-forward the game.
pub fn pace(due: u64, now: u64) -> (r: (u64, u64))
    requires
        due + TICK_INTERVAL_NS <= u64::MAX,
    ensures
        due + TICK_INTERVAL_NS > now ==> r.0 == due + TICK_INTERVAL_NS && r.1 == r.0 - now,
        due + TICK_INTERVAL_NS <= now ==> r.0 == now && r.1 == 0,
{
    let next: u64 = due + TICK_INTERVAL_NS;
    if next > now {
        (next, next - now)
    } else {
        (now, 0)
    }
}

} // verus!
