//! What goes over the wire and where, who may play, and which session is meant.

use super::client::refusal;
use super::messages::{ambiguous, suggestions};
use super::protocol::{
    bool_byte, controls_len, counted_bytes, frame_of, hello_bytes, hello_fits, tick_bytes, tick_of,
    touch_bytes, touches_bytes, FrameModel, HelloModel, WireError, FLAG_HALTED, FLAG_HAS_ROM,
    FLAG_PAUSED, MAX_DIM, MSG_HELLO, MSG_TICK, PROTOCOL_VERSION,
};
use super::server::{Floor, Lobby, Player, Step};
use super::session::{
    discovered, fnv1a, live_among, names_session, rooted_at, stale_among, DiscoveryModel,
    SessionEnv, SessionModel,
};
use crate::bytes::{
    i16_bytes, law_i16_value_inverts_i16_bytes, le_bytes, le_value, lemma_le_bytes_len,
};
use crate::cli::laws::law_a_name_ends_with_its_extension;
use crate::device::{InputModel, Touch};
use crate::text::{decimal, joined};
use vstd::prelude::*;

verus! {

/// The numbers that both ends of the wire agree on.
pub proof fn law_both_ends_agree_on_the_numbers()
    ensures
        PROTOCOL_VERSION == 2,
        MSG_HELLO == 0,
        MSG_TICK == 1,
        MAX_DIM == 1024,
        FLAG_HAS_ROM == 1,
        FLAG_PAUSED == 2,
        FLAG_HALTED == 4,
{
}

/// A tick is 27 bytes: its mark, the buttons, the stick across and down, how many
/// fingers there are, and each finger's place across and down and whether it
/// touches.
pub proof fn law_a_tick_on_the_wire(input: InputModel, k: int)
    requires
        input.touches.len() == 4,
        0 <= k < 4,
    ensures
        ({
            let b = tick_bytes(input);
            let at = 7 + 5 * k;
            &&& b.len() == 27
            &&& b[0] == 1
            &&& b[1] == input.buttons
            &&& b.subrange(2, 4) == i16_bytes(input.stick_x)
            &&& b.subrange(4, 6) == i16_bytes(input.stick_y)
            &&& b[6] == 4
            &&& b.subrange(at, at + 2) == le_bytes(input.touches[k].x as nat, 2)
            &&& b.subrange(at + 2, at + 4) == le_bytes(input.touches[k].y as nat, 2)
            &&& b[at + 4] == (if input.touches[k].down {
                1u8
            } else {
                0u8
            })
        }),
{
    let b = tick_bytes(input);
    law_i16_value_inverts_i16_bytes(input.stick_x);
    law_i16_value_inverts_i16_bytes(input.stick_y);
    lemma_touches(input.touches, 4, k);
    let head = seq![1u8, input.buttons] + i16_bytes(input.stick_x) + i16_bytes(input.stick_y)
        + seq![4u8];
    let tail = touches_bytes(input.touches, 4);
    assert(b =~= head + tail);
    assert(head.len() == 7);
    assert(b.subrange(2, 4) =~= i16_bytes(input.stick_x));
    assert(b.subrange(4, 6) =~= i16_bytes(input.stick_y));
    let at = 7 + 5 * k;
    let t = touch_bytes(input.touches[k]);
    assert(b.subrange(at, at + 5) =~= tail.subrange(5 * k, 5 * k + 5));
    lemma_le_bytes_len(input.touches[k].x as nat, 2);
    lemma_le_bytes_len(input.touches[k].y as nat, 2);
    assert(b.subrange(at, at + 2) =~= b.subrange(at, at + 5).subrange(0, 2));
    assert(t.subrange(0, 2) =~= le_bytes(input.touches[k].x as nat, 2));
    assert(b.subrange(at + 2, at + 4) =~= b.subrange(at, at + 5).subrange(2, 4));
    assert(t.subrange(2, 4) =~= le_bytes(input.touches[k].y as nat, 2));
    assert(b[at + 4] == b.subrange(at, at + 5)[4]);
    assert(t[4] == bool_byte(input.touches[k].down));
}

proof fn lemma_touches(touches: Seq<Touch>, n: int, k: int)
    requires
        0 <= k < n <= touches.len(),
    ensures
        touches_bytes(touches, n).len() == 5 * n,
        touches_bytes(touches, n).subrange(5 * k, 5 * k + 5) == touch_bytes(touches[k]),
    decreases n,
{
    let t = touches[n - 1];
    lemma_le_bytes_len(t.x as nat, 2);
    lemma_le_bytes_len(t.y as nat, 2);
    let all = touches_bytes(touches, n);
    let before = touches_bytes(touches, n - 1);
    if n == 1 {
        assert(before.len() == 0);
    } else if k < n - 1 {
        lemma_touches(touches, n - 1, k);
    } else {
        lemma_touches(touches, n - 1, 0);
    }
    if k < n - 1 {
        assert(all.subrange(5 * k, 5 * k + 5) =~= before.subrange(5 * k, 5 * k + 5));
    } else {
        assert(all.subrange(5 * k, 5 * k + 5) =~= touch_bytes(t));
    }
}

/// A tick is read from 26 bytes after its mark, where it says four fingers;
/// otherwise it is too short, or says another number of them.
pub proof fn law_a_tick_is_read_or_refused(s: Seq<u8>)
    ensures
        s.len() < 26 ==> tick_of(s) == Err::<InputModel, WireError>(WireError::Short),
        s.len() >= 26 && s[5] != 4 ==> tick_of(s) == Err::<InputModel, WireError>(
            WireError::TouchSlots { claimed: s[5] },
        ),
        s.len() >= 26 && s[5] == 4 ==> (tick_of(s) matches Ok(input) && {
            &&& input.buttons == s[0]
            &&& input.touches.len() == 4
            &&& forall|k: int|
                0 <= k < 4 ==> (#[trigger] input.touches[k]).down == (s[10 + 5 * k] != 0)
        }),
{
}

/// A greeting: the version, whether someone plays already, the size of the
/// picture, and the controls behind their length.
pub proof fn law_a_greeting_on_the_wire(h: HelloModel)
    ensures
        ({
            let b = hello_bytes(h);
            let controls = counted_bytes(h.controls);
            &&& b.len() == 6 + controls.len()
            &&& b[0] == h.version
            &&& b[1] == (if h.busy {
                1u8
            } else {
                0u8
            })
            &&& b.subrange(2, 4) == le_bytes(h.dim as nat, 2)
            &&& b.subrange(4, 6) == le_bytes(controls.len(), 2)
            &&& b.skip(6) == controls
        }),
{
    let b = hello_bytes(h);
    let controls = counted_bytes(h.controls);
    lemma_le_bytes_len(h.dim as nat, 2);
    lemma_le_bytes_len(controls.len(), 2);
    assert(b.subrange(2, 4) =~= le_bytes(h.dim as nat, 2));
    assert(b.subrange(4, 6) =~= le_bytes(controls.len(), 2));
    assert(b.skip(6) =~= controls);
}

/// Controls are sent whole where their length fits into two bytes, and otherwise
/// as much of their start as does.
pub proof fn law_controls_are_sent_as_far_as_they_fit(text: Seq<char>)
    ensures
        ({
            let all = vstd::utf8::encode_utf8(text);
            &&& all.len() <= 65535 ==> counted_bytes(text) == all
            &&& all.len() > 65535 ==> counted_bytes(text) == all.take(65535)
        }),
{
}

/// A frame: three flags, the size of the picture, and the picture. Each flag is
/// a bit of its own.
pub proof fn law_a_frame_on_the_wire(f: FrameModel)
    ensures
        ({
            let b = f.bytes();
            &&& b.len() == 3 + f.rgba.len()
            &&& b[0] == (if f.has_rom {
                1int
            } else {
                0
            }) + (if f.paused {
                2int
            } else {
                0
            }) + (if f.halted {
                4int
            } else {
                0
            })
            &&& b.subrange(1, 3) == le_bytes(f.dim as nat, 2)
            &&& b.skip(3) == f.rgba
        }),
{
    let b = f.bytes();
    lemma_le_bytes_len(f.dim as nat, 2);
    assert(b.subrange(1, 3) =~= le_bytes(f.dim as nat, 2));
    assert(b.skip(3) =~= f.rgba);
    assert(0u8 | 0 | 0 == 0 && 1u8 | 0 | 0 == 1 && 0u8 | 2 | 0 == 2 && 1u8 | 2 | 0 == 3 && 0u8 | 0
        | 4 == 4 && 1u8 | 0 | 4 == 5 && 0u8 | 2 | 4 == 6 && 1u8 | 2 | 4 == 7) by (bit_vector);
}

/// A frame is read where its picture is no larger than 1024 and all there; four
/// bytes are a pixel.
pub proof fn law_a_frame_is_read_or_refused(s: Seq<u8>)
    ensures
        ({
            let dim = le_value(s.subrange(1, 3)) as u16;
            &&& s.len() < 3 ==> frame_of(s) == Err::<FrameModel, WireError>(WireError::Short)
            &&& s.len() >= 3 && dim > 1024 ==> frame_of(s) == Err::<FrameModel, WireError>(
                WireError::Dim { claimed: dim },
            )
            &&& s.len() >= 3 && dim <= 1024 && s.len() < 3 + dim * dim * 4 ==> frame_of(s) == Err::<
                FrameModel,
                WireError,
            >(WireError::Short)
            &&& s.len() >= 3 && dim <= 1024 && s.len() >= 3 + dim * dim * 4 ==> (frame_of(
                s,
            ) matches Ok(f) && f.dim == dim && f.rgba == s.subrange(3, 3 + dim * dim * 4))
        }),
{
}

/// What a refused message is said to be, with the number it claimed.
pub proof fn law_a_refused_message_is_named(slots: u8, dim: u16)
    ensures
        (WireError::TouchSlots { claimed: slots }).text() == "tick claims "@ + decimal(
            slots as nat,
        ) + " touch slots, this build has "@ + decimal(4),
        (WireError::Dim { claimed: dim }).text() == "frame dim "@ + decimal(dim as nat)
            + " exceeds the "@ + decimal(1024) + " maximum"@,
{
}

/// A session takes a player who speaks its version and finds it free, and no
/// other. That it is taken comes first, whatever it speaks.
pub proof fn law_a_free_session_of_the_same_version_is_joined(
    version: u8,
    other: u8,
    busy: bool,
)
    ensures
        refusal(version, busy) is None <==> version == 2 && !busy,
        refusal(version, true) == refusal(other, true),
        version != 2 ==> refusal(version, false) == Some(
            "session speaks attach protocol v"@ + decimal(version as nat)
                + " but this kessel speaks v"@ + decimal(2)
                + " — the running `kessel mcp` is a different build"@,
        ),
{
}

/// The first to greet a free session plays, and is announced once; whoever greets
/// one that another plays is told so, and changes nothing.
pub proof fn law_the_first_to_greet_plays(p: Player, lobby: Lobby)
    ensures
        !lobby.taken || p.holds_slot ==> {
            &&& p.step_for(lobby, 0) == (Step::Greet { busy: false, announce: !p.announced })
            &&& p.after(lobby, 0).holds_slot
            &&& p.after(lobby, 0).announced
        },
        lobby.taken && !p.holds_slot ==> {
            &&& p.step_for(lobby, 0) == (Step::Greet { busy: true, announce: false })
            &&& p.after(lobby, 0) == p
        },
{
}

/// Ticks advance the game for whoever plays, and for no one else; nothing but a
/// greeting and a tick is understood. Neither changes who plays.
pub proof fn law_a_tick_advances_the_players_game(p: Player, lobby: Lobby, op: u8)
    requires
        op != 0,
    ensures
        op == 1 && p.holds_slot ==> p.step_for(lobby, op) == Step::Advance,
        op == 1 && !p.holds_slot ==> p.step_for(lobby, op) == Step::TickBeforeHello,
        op != 1 ==> p.step_for(lobby, op) == Step::UnknownOpcode,
        p.after(lobby, op) == p,
{
}

/// A player who leaves frees the session, for the next to greet; one who did not
/// play frees nothing.
pub proof fn law_leaving_frees_the_session(f: Floor, i: int, j: int)
    requires
        f.wf(),
        0 <= i < f.players.len(),
        0 <= j < f.players.len(),
        i != j,
    ensures
        f.players[i].holds_slot ==> {
            &&& !f.left(i).lobby.taken
            &&& f.left(i).message(j, 0).players[j].holds_slot
        },
        !f.players[i].holds_slot ==> f.left(i).lobby == f.lobby,
        f.left(i).players[j] == f.players[j],
        !f.left(i).players[i].holds_slot,
        f.opened().players.len() == f.players.len() + 1,
        f.opened().lobby == f.lobby,
        !f.opened().players.last().holds_slot,
{
}

/// A root that a session runs at finds it: the first of those there.
pub proof fn law_a_root_finds_its_session(
    live: Seq<SessionModel>,
    root: Seq<char>,
    cwd: Option<Seq<char>>,
    i: int,
)
    requires
        0 <= i < live.len(),
        live[i].root == root,
        forall|j: int| 0 <= j < i ==> (#[trigger] live[j]).root != root,
    ensures
        discovered(live, Some(root), cwd) == DiscoveryModel::Found(live[i]),
        discovered(live, None, Some(root)) == DiscoveryModel::Found(live[i]),
{
    super::session::lemma_rooted_at(live, root, 0);
    let k = rooted_at(live, root, 0)->0;
    if k < i {
        assert(live[k].root != root);
    } else if i < k {
        assert(live[i].root != root);
    }
}

/// Without a root, the one session there is is found, and none where there is
/// none.
pub proof fn law_the_only_session_is_found(s: SessionModel, cwd: Option<Seq<char>>)
    ensures
        discovered(seq![s], None, cwd) == DiscoveryModel::Found(s),
        discovered(Seq::empty(), None, cwd) == DiscoveryModel::Nothing,
{
    if let Some(c) = cwd {
        super::session::lemma_rooted_at(seq![s], c, 0);
        super::session::lemma_rooted_at(Seq::empty(), c, 0);
    }
}

/// The live sessions are kept in their order, and of the others it is said where
/// they stood: one more session is added to the one list or to the other.
pub proof fn law_sessions_are_live_or_stale(
    all: Seq<SessionModel>,
    live: Seq<bool>,
    s: SessionModel,
    is_live: bool,
)
    requires
        all.len() == live.len(),
        all.len() < usize::MAX,
    ensures
        ({
            let n = all.len() as int;
            let more = all.push(s);
            let flags = live.push(is_live);
            &&& is_live ==> {
                &&& live_among(more, flags, n + 1) == live_among(all, live, n).push(s)
                &&& stale_among(flags, n + 1) == stale_among(live, n)
            }
            &&& !is_live ==> {
                &&& live_among(more, flags, n + 1) == live_among(all, live, n)
                &&& stale_among(flags, n + 1) == stale_among(live, n).push(n as usize)
            }
            &&& live_among(all, live, 0).len() == 0
            &&& stale_among(live, 0).len() == 0
        }),
{
    lemma_same_sessions(all, live, s, is_live, all.len() as int);
}

proof fn lemma_same_sessions(
    all: Seq<SessionModel>,
    live: Seq<bool>,
    s: SessionModel,
    is_live: bool,
    k: int,
)
    requires
        all.len() == live.len(),
        0 <= k <= all.len(),
    ensures
        live_among(all.push(s), live.push(is_live), k) == live_among(all, live, k),
        stale_among(live.push(is_live), k) == stale_among(live, k),
    decreases k,
{
    if k > 0 {
        lemma_same_sessions(all, live, s, is_live, k - 1);
        assert(all.push(s)[k - 1] == all[k - 1]);
        assert(live.push(is_live)[k - 1] == live[k - 1]);
    }
}

/// A session's file is named by a key and ends in `.json`.
pub proof fn law_a_session_file_ends_in_json(key: Seq<char>, extension: Seq<char>)
    requires
        key.len() > 0,
        !extension.contains('.'),
    ensures
        names_session(key.push('.') + extension) <==> extension == "json"@,
{
    law_a_name_ends_with_its_extension(key, extension);
    let name = key.push('.') + extension;
    assert(name.skip((key.len() + 1) as int) =~= extension);
}

/// A root's key is the 64-bit FNV-1a hash of its name: from the offset basis on,
/// each byte is mixed in and multiplied by the prime.
pub proof fn law_the_key_mixes_in_each_byte(bytes: Seq<u8>, b: u8)
    ensures
        fnv1a(Seq::empty()) == 0xcbf2_9ce4_8422_2325,
        fnv1a(bytes.push(b)) == ((fnv1a(bytes) ^ (b as u64)) * 0x100_0000_01b3)
            % 0x1_0000_0000_0000_0000,
{
    assert(bytes.push(b).drop_last() =~= bytes);
}

/// Sessions are kept where they are said to be, or else where the system keeps
/// such things: its cache for the user, or the user's own, or what is temporary.
pub proof fn law_sessions_are_kept_where_they_are_said_to_be(env: SessionEnv)
    ensures
        ({
            let d = env.dir();
            let own = seq!["kessel"@, "sessions"@];
            let said = env.chosen is Some && env.chosen->0@.len() > 0;
            &&& said ==> d == seq![env.chosen->0@]
            &&& !said && env.windows && env.local_app_data is Some ==> d
                == seq![env.local_app_data->0@] + own
            &&& !said && env.windows && env.local_app_data is None ==> d == seq![env.temp@] + own
            &&& !said && !env.windows && env.xdg_cache_home is Some ==> d
                == seq![env.xdg_cache_home->0@] + own
            &&& !said && !env.windows && env.xdg_cache_home is None && env.home is Some ==> d
                == seq![env.home->0@, ".cache"@] + own
            &&& !said && !env.windows && env.xdg_cache_home is None && env.home is None ==> d
                == seq![env.temp@] + own
        }),
{
}

/// Where several sessions run, each is a line of its own, in their order.
pub proof fn law_each_session_is_a_line(sessions: Seq<SessionModel>, s: SessionModel)
    requires
        sessions.len() > 0,
    ensures
        ambiguous(sessions.push(s)) == ambiguous(sessions) + "\n"@ + ("  kessel attach "@ + s.root),
        ambiguous(seq![s]) == "several `kessel mcp` sessions are running; say which one:\n"@
            + "  kessel attach "@ + s.root,
{
    let n = sessions.len() as int;
    let a = suggestions(sessions, n);
    let b = suggestions(sessions.push(s), n + 1);
    assert(b.drop_last() =~= a);
    assert(b.last() == "  kessel attach "@ + s.root);
    let one = suggestions(seq![s], 1);
    assert(joined(one, "\n"@) == "  kessel attach "@ + s.root);
    assert(ambiguous(sessions.push(s)) =~= ambiguous(sessions) + "\n"@ + ("  kessel attach "@
        + s.root));
    assert(ambiguous(seq![s]) =~= "several `kessel mcp` sessions are running; say which one:\n"@
        + "  kessel attach "@ + s.root);
}

/// A greeting is all there where its six bytes are, and as many more as they say.
pub proof fn law_a_greeting_is_all_there(s: Seq<u8>)
    ensures
        s.len() < 6 ==> !hello_fits(s),
        s.len() >= 6 ==> controls_len(s) == le_value(s.subrange(4, 6)),
        s.len() >= 6 ==> (hello_fits(s) <==> s.len() >= 6 + le_value(s.subrange(4, 6))),
{
}

/// A player who is refused because another plays is told so.
pub proof fn law_a_taken_session_says_so(version: u8)
    ensures
        refusal(version, true) == Some(
            "another player is already attached to this session — only one window at a time can drive the agent's VM"@,
        ),
{
}

} // verus!
