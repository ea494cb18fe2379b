//! What the answers of single functions are for.

use crate::attach::client::{pace, AttachClient};
use crate::attach::protocol::{Frame, Hello};
use crate::attach::server::{
    bind_addr, blank_frame, closes, greeting, live_frame, Lobby, Player, Step,
};
use crate::attach::session::Session;
use crate::audio::bank::{SfxDef, SoundBank, TrackDef};
use crate::audio::engine::{AudioEngine, EngineStats};
use crate::audio::event::AudioEvent;
use crate::audio::field_laws::law_each_time_has_its_key;
use crate::audio::fields::{set_instrument_field, FieldValue};
use crate::audio::fx::{scaled_length, Head};
use crate::audio::patch::Patch;
use crate::audio::play_laws::{is_held, law_an_effect_is_scheduled_note_by_note};
use crate::audio::queue::EventQueue;
use crate::audio::sequencer::Sequencer;
use crate::audio::synth::{samples_per_frame, voice_seed, Synth, SynthConfig, SynthStats};
use crate::audio::voice::{Priority, Rng, Stage, Voice};
use crate::cli::headless::{did_not_compile, game_name, listed, Run};
use crate::cli::paths::{
    adoptable_roots, base, default_root, env_dir, file_name, file_stem_of, plausible_workspace,
    stem,
};
use crate::cli::play::{
    button_for, channel_source, chunk_frames, ChannelSource, KeyAction, KeyCode, Playing,
};
use crate::device::Input;
use crate::ffi::{
    audio_rate, holds_picture, renderable_frames, KesselInput, KesselTouch,
};
use crate::gallium::attention::{rotary_parts, rotary_rows, AttentionConfig};
use crate::gallium::blocks::{mxfp4_at, unpack_mxfp4, Mxfp4Element};
use crate::gallium::cache::{Kept, KvCache, LayerKind, ModelCache, TurboKvCache};
use crate::gallium::generate::Generation;
use crate::gallium::gguf::{GgufMetadata, ValueModel};
use crate::gallium::kernels::{Features, KernelSet};
use crate::gallium::linear_attn::{conv_state, Part};
use crate::gallium::mask::{build_causal_mask, build_sliding_window_mask, Mask};
use crate::gallium::metadata::{MetadataError, Wanted};
use crate::gallium::model_laws::{law_every_projection_has_its_bias, names, reads};
use crate::gallium::params::{param_views, Param};
use crate::gallium::quant::{TurboQuantConfig, TurboQuantMode};
use crate::mcp::server::{
    bad_params, blocks, to_content, tool_called, tools_listed, Action, Server, ToolResult,
};
use crate::mcp::wire::{
    chosen_version, content_views, is_blank_line, CallResult, ContentModel, Reply, Request,
    Response, ToolInfo,
};
use crate::repl::{line_of, number_or, provider_name, text_or, LineModel, Repl};
use crate::text::{decimal, strings, trimmed, unsigned_value};
use vstd::prelude::*;

verus! {

/// One speaker gets both sides, two get one each, and more are silent.
pub proof fn law_each_speaker_gets_its_side(channels: usize, c: usize, r: ChannelSource)
    requires
        c < channels,
        call_ensures(channel_source, (channels, c), r),
    ensures
        channels == 1 ==> r == ChannelSource::Average,
        channels > 1 && c == 0 ==> r == ChannelSource::Left,
        channels > 1 && c == 1 ==> r == ChannelSource::Right,
        c > 1 ==> r == ChannelSource::Silence,
{
}

/// As many frames are made at once as are left and as there is room for, two
/// samples each.
pub proof fn law_frames_are_made_as_far_as_there_is_room(left: usize, scratch: usize, r: usize)
    requires
        call_ensures(chunk_frames, (left, scratch), r),
    ensures
        r <= left,
        2 * r <= scratch,
        r == left || 2 * (r + 1) > scratch,
{
}

/// A client ticks a frame's time after it last did; late, it ticks at once and
/// does not catch up.
pub proof fn law_a_late_tick_is_not_caught_up(due: u64, now: u64, r: (u64, u64))
    requires
        due + 16_666_666 <= u64::MAX,
        call_ensures(pace, (due, now), r),
    ensures
        now < due + 16_666_666 ==> r.0 == due + 16_666_666 && now + r.1 == r.0,
        now >= due + 16_666_666 ==> r.0 == now && r.1 == 0,
{
}

/// A session listens to its own machine alone, at any port.
pub proof fn law_a_session_listens_to_its_own_machine(r: ([u8; 4], u16))
    requires
        call_ensures(bind_addr, (), r),
    ensures
        r.0@ == seq![127u8, 0, 0, 1],
        r.1 == 0,
{
}

/// A connection is kept after a greeting that was accepted and after a tick that
/// was, and closed after anything else.
pub proof fn law_what_closes_a_connection(step: Step, r: bool)
    requires
        call_ensures(closes, (step,), r),
    ensures
        step == Step::Advance ==> !r,
        step == Step::TickBeforeHello || step == Step::UnknownOpcode ==> r,
        step matches Step::Greet { busy, .. } ==> r == busy,
{
}

/// A greeting says what it is given, and the version spoken here.
pub proof fn law_a_greeting_says_what_it_is_given(busy: bool, dim: u16, json: String, h: Hello)
    requires
        call_ensures(greeting, (busy, dim, json), h),
    ensures
        h.version == 2,
        h.busy == busy,
        h.dim == dim,
        h.controls_json@ == json@,
{
}

/// A frame of a game shows it, and says how it is; without one it is black, and
/// says nothing.
pub proof fn law_a_frame_shows_the_game(
    paused: bool,
    halted: bool,
    dim: u16,
    rgba: Vec<u8>,
    live: Frame,
    blank: Frame,
    i: int,
)
    requires
        dim * dim * 4 <= usize::MAX,
        call_ensures(live_frame, (paused, halted, dim, rgba), live),
        call_ensures(blank_frame, (dim,), blank),
        0 <= i < dim * dim * 4,
    ensures
        live.has_rom && live.paused == paused && live.halted == halted && live.dim == dim,
        live.rgba@ == rgba@,
        !blank.has_rom && !blank.paused && !blank.halted && blank.dim == dim,
        blank.rgba@.len() == dim * dim * 4,
        blank.rgba@[i] == 0,
{
    assert(blank@.rgba == Seq::new((dim * dim * 4) as nat, |i: int| 0u8));
}

/// A session is the server's that has its port and its process.
pub proof fn law_a_session_is_owned_by_port_and_process(s: Session, port: u16, pid: u32, r: bool)
    requires
        call_ensures(Session::is_owned_by, (&s, port, pid), r),
    ensures
        r <==> s.port == port && s.pid == pid,
{
}

/// A client shows the size of the latest picture, or the one it was greeted with
/// where there is none; whether there is a game, and whether it is paused, is
/// what the latest frame says. Without a game there is no picture.
pub proof fn law_a_client_shows_the_latest_frame(
    c: AttachClient,
    dim: u32,
    rom: bool,
    paused: bool,
    picture: Option<Vec<u8>>,
)
    requires
        call_ensures(AttachClient::screen_dim, (&c,), dim),
        call_ensures(AttachClient::has_rom, (&c,), rom),
        call_ensures(AttachClient::is_paused, (&c,), paused),
        call_ensures(AttachClient::framebuffer_rgba, (&c,), picture),
    ensures
        c@.latest is None ==> dim == c@.dim && !rom && !paused && picture is None,
        c@.latest matches Some(f) ==> {
            &&& f.dim > 0 ==> dim == f.dim
            &&& f.dim == 0 ==> dim == c@.dim
            &&& rom == f.has_rom
            &&& paused == f.paused
            &&& f.has_rom ==> (picture matches Some(v) && v@ == f.rgba)
            &&& !f.has_rom ==> picture is None
        },
{
}

/// A picture is four bytes a pixel.
pub proof fn law_a_pixel_is_four_bytes(h: Hello, n: usize, capacity: usize, dim: u32, holds: bool)
    requires
        call_ensures(Hello::frame_bytes, (&h,), n),
        call_ensures(holds_picture, (capacity, dim), holds),
    ensures
        n == 4 * (h.dim * h.dim),
        holds <==> capacity >= 4 * (dim * dim),
{
    assert(h.dim * h.dim * 4 == 4 * (h.dim * h.dim)) by (nonlinear_arith);
    assert(dim * dim * 4 == 4 * (dim * dim)) by (nonlinear_arith);
}

/// A frame of the console is a sixtieth of a second of samples.
pub proof fn law_a_frame_is_a_sixtieth_of_a_second(rate: u32, r: u32)
    requires
        call_ensures(samples_per_frame, (rate,), r),
    ensures
        60 * r <= rate < 60 * (r + 1),
{
}

/// The sample at which a frame starts is the frames before it, in samples.
pub proof fn law_a_frame_starts_after_those_before(e: AudioEngine, frame: u64, r: u64)
    requires
        call_ensures(AudioEngine::frame_at, (&e, frame), r),
    ensures
        r == frame * (e@.synth.cfg.sample_rate as int / 60),
{
}

/// What an engine tells of itself.
pub proof fn law_an_engine_tells_what_it_counts(
    e: AudioEngine,
    stats: EngineStats,
    pending: usize,
    now: u64,
    music: Option<u16>,
)
    requires
        e@.queue.overflow <= u64::MAX,
        e@.queue.peak <= usize::MAX,
        call_ensures(AudioEngine::stats, (&e,), stats),
        call_ensures(AudioEngine::pending, (&e,), pending),
        call_ensures(AudioEngine::now, (&e,), now),
        call_ensures(AudioEngine::playing_music, (&e,), music),
    ensures
        stats.queue_overflow == e@.queue.overflow,
        stats.unknown_sfx == e@.unknown_sfx,
        stats.unknown_track == e@.unknown_track,
        stats.queue_peak == e@.queue.peak,
        pending == e@.queue.items.len(),
        now == e@.now,
        e@.music matches Some(p) ==> music == Some(p.track),
        e@.music is None ==> music is None,
{
}

/// What a synth counts, with the frames that were turned down.
pub proof fn law_a_synth_tells_what_it_counts(s: Synth, limited: u64, r: SynthStats)
    requires
        call_ensures(Synth::stats, (&s, limited), r),
    ensures
        r.started == s@.stats.started,
        r.stolen == s@.stats.stolen,
        r.dropped == s@.stats.dropped,
        r.limited == limited,
{
}

/// The first voice's noise starts from the seed itself, and each next one's a
/// golden step further, around 32 bits.
pub proof fn law_each_voice_has_its_own_noise(seed: u32, i: u32, a: u32, b: u32)
    requires
        i < u32::MAX,
        call_ensures(voice_seed, (seed, i), a),
        call_ensures(voice_seed, (seed, (i + 1) as u32), b),
    ensures
        i == 0 ==> a == seed,
        b == (a + 0x9E37_79B9) % 0x1_0000_0000,
{
    assert((i + 1) as u32 * 0x9E37_79B9 == i * 0x9E37_79B9 + 0x9E37_79B9);
    lemma_one_step(seed as int, i * 0x9E37_79B9, 0x9E37_79B9, 0x1_0000_0000);
    if i == 0 {
        assert(i * 0x9E37_79B9 == 0);
    }
}

proof fn lemma_one_step(seed: int, x: int, step: int, m: int)
    requires
        m > 0,
    ensures
        (seed + (x + step) % m) % m == ((seed + x % m) % m + step) % m,
{
    vstd::arithmetic::div_mod::lemma_add_mod_noop_right(seed, x + step, m);
    vstd::arithmetic::div_mod::lemma_add_mod_noop_right(seed, x, m);
    vstd::arithmetic::div_mod::lemma_add_mod_noop(seed + x, step, m);
    vstd::arithmetic::div_mod::lemma_add_mod_noop_right((seed + x) % m, step, m);
}

/// Noise never starts from zero.
pub proof fn law_noise_starts_from_something(seed: u32, r: Rng)
    requires
        call_ensures(Rng::new, (seed,), r),
    ensures
        r.state() != 0,
        seed != 0 ==> r.state() == seed,
        seed == 0 ==> r.state() == 0x9E37_79B9,
{
}

/// A voice rests, fades, or holds a note.
pub proof fn law_a_voice_rests_or_fades(v: Voice, idle: bool, releasing: bool)
    requires
        call_ensures(Voice::is_idle, (&v,), idle),
        call_ensures(Voice::is_releasing, (&v,), releasing),
    ensures
        idle <==> v.stage == Stage::Idle,
        releasing <==> v.stage == Stage::Release,
{
}

/// What a player of music tells: the track, its row, and when the next falls due.
pub proof fn law_a_sequencer_tells_where_it_is(
    s: Sequencer,
    track: Option<u16>,
    row: usize,
    at: Option<u64>,
)
    requires
        s.wf(),
        call_ensures(Sequencer::playing, (&s,), track),
        call_ensures(Sequencer::row, (&s,), row),
        call_ensures(Sequencer::next_row_at, (&s,), at),
    ensures
        s@ is None ==> track is None && row == 0 && at is None,
        s@ matches Some(p) ==> track == Some(p.track) && row == p.row && at is Some && at->0
            == p.next_row_at,
{
}

/// A line of the reverb is as long as at 44.1 kHz, at whatever rate, and a little
/// longer on one side.
pub proof fn law_a_reverb_line_scales_with_the_rate(
    tuning: usize,
    rate: u32,
    offset: usize,
    r: usize,
)
    requires
        call_ensures(scaled_length, (tuning, rate, offset), r),
    ensures
        rate == 44_100 ==> r == tuning + offset,
        44_100 * (r - offset) <= tuning * rate < 44_100 * (r - offset + 1),
{
    if rate == 44_100 {
        assert(tuning * rate == tuning * 44_100);
    }
}

/// A game goes by the name of its file, or by another where it has none.
pub proof fn law_a_game_goes_by_its_file(file: &str, other: &str, windows: bool, r: String)
    requires
        call_ensures(game_name, (file, other, windows), r),
    ensures
        file_name(file@, windows) matches Some(n) ==> r@ == n,
        file_name(file@, windows) is None ==> r@ == other@,
{
}

/// A file's stem is that of its name.
pub proof fn law_a_files_stem_is_its_names(path: &str, windows: bool, r: Option<String>)
    requires
        call_ensures(file_stem_of, (path, windows), r),
    ensures
        file_name(path@, windows) matches Some(n) ==> (r matches Some(s) && s@ == stem(n)),
        file_name(path@, windows) is None ==> r is None,
{
}

/// Work starts in the working directory where that is a workspace, and otherwise
/// where games are kept.
pub proof fn law_work_starts_in_a_workspace(
    cwd: Option<String>,
    home: Option<String>,
    documents: bool,
    temp: &str,
    windows: bool,
    r: Vec<String>,
)
    requires
        call_ensures(default_root, (cwd, home, documents, temp, windows), r),
    ensures
        cwd matches Some(d) ==> plausible_workspace(d@, windows) ==> strings(r@) == seq![d@],
        !(cwd is Some && plausible_workspace(cwd->0@, windows)) && home is Some ==> strings(r@)
            == base(Some(home->0@), documents, temp@),
        !(cwd is Some && plausible_workspace(cwd->0@, windows)) && home is None ==> strings(r@)
            == base(None, documents, temp@),
{
}

/// A directory that is set to nothing is not set.
pub proof fn law_a_directory_set_to_nothing_is_not_set(value: Option<String>, r: Option<String>)
    requires
        call_ensures(env_dir, (value,), r),
    ensures
        value matches Some(v) ==> v@.len() > 0 ==> (r matches Some(s) && s@ == v@),
        value is None || value->0@.len() == 0 ==> r is None,
{
}

/// Games are taken over from the root itself, and then from home.
pub proof fn law_games_are_taken_over_from_root_and_home(
    root: &str,
    home: Option<String>,
    r: Vec<String>,
)
    requires
        call_ensures(adoptable_roots, (root, home), r),
    ensures
        home matches Some(h) ==> strings(r@) == seq![root@, h@],
        home is None ==> strings(r@) == seq![root@],
{
}

/// What does not compile is told with everything that is wrong with it.
pub proof fn law_what_does_not_compile_is_told(file: &str, all: &[String], r: String)
    requires
        call_ensures(did_not_compile, (file, all), r),
    ensures
        r@ == file@ + " did not compile:\n"@ + listed(strings(all@)),
{
}

/// A run is reported with why it stopped, if it did, and then with what was
/// written after how many frames.
pub proof fn law_a_run_is_reported(
    run: Run,
    out: &str,
    w: u32,
    h: u32,
    bytes: u64,
    r: Vec<String>,
)
    requires
        call_ensures(Run::report, (&run, out, w, h, bytes), r),
    ensures
        ({
            let told = strings(r@);
            let line = "wrote "@ + out@ + " — "@ + decimal(w as nat) + "x"@ + decimal(h as nat)
                + ", frame "@ + decimal(run@.ran) + " ("@ + decimal(bytes as nat) + " bytes)"@;
            &&& run@.stopped matches Some(why) ==> told == seq![why, line]
            &&& run@.stopped is None ==> told == seq![line]
        }),
{
    let line = "wrote "@ + out@ + " — "@ + decimal(w as nat) + "x"@ + decimal(h as nat)
        + ", frame "@ + decimal(run@.ran) + " ("@ + decimal(bytes as nat) + " bytes)"@;
    if let Some(why) = run@.stopped {
        assert(strings(r@) =~= seq![why, line]);
    } else {
        assert(strings(r@) =~= seq![line]);
    }
}

/// A rate that is too low to play is raised to the lowest that is not.
pub proof fn law_a_rate_is_at_least_eight_thousand(asked: u32, r: u32)
    requires
        call_ensures(audio_rate, (asked,), r),
    ensures
        asked >= 8_000 ==> r == asked,
        asked < 8_000 ==> r == 8_000,
{
}

/// Frames are rendered where they all fit, two samples of four bytes each, and
/// otherwise not at all.
pub proof fn law_frames_are_rendered_where_they_fit(frames: i32, capacity: usize, r: u32)
    requires
        call_ensures(renderable_frames, (frames, capacity), r),
    ensures
        frames > 0 && frames * 2 * 4 <= capacity ==> r == frames,
        frames <= 0 || frames * 2 * 4 > capacity ==> r == 0,
{
}

/// A host's numbers become an input: the buttons by their lowest byte, the stick
/// by the lower halves, and the fingers in their order.
pub proof fn law_a_hosts_numbers_become_an_input(
    buttons: i32,
    x: i32,
    y: i32,
    touches: &[i32],
    r: KesselInput,
    k: int,
)
    requires
        call_ensures(KesselInput::from_host, (buttons, x, y, touches), r),
        0 <= buttons < 256,
        -0x8000 <= x < 0x8000,
        -0x8000 <= y < 0x8000,
        0 <= k < 4,
        touches@.len() >= 12,
        0 <= touches@[3 * k] < 0x1_0000,
        0 <= touches@[3 * k + 1] < 0x1_0000,
    ensures
        r.buttons == buttons,
        r.stick_x == x,
        r.stick_y == y,
        r.touches@[k] == (KesselTouch {
            x: touches@[3 * k] as u16,
            y: touches@[3 * k + 1] as u16,
            down: touches@[3 * k + 2] != 0,
        }),
{
    crate::ffi_laws::law_the_lower_half_is_signed(x);
    crate::ffi_laws::law_the_lower_half_is_signed(y);
    assert(r.touches@[k] == crate::ffi::slot_of(touches@, k));
}

/// Angles are taken from the position on, for as many as there are, where the
/// table reaches so far.
pub proof fn law_angles_are_taken_from_the_position_on(
    pos: usize,
    len: usize,
    max: usize,
    r: Option<(usize, usize)>,
)
    requires
        call_ensures(rotary_rows, (pos, len, max), r),
    ensures
        r is Some <==> pos + len <= max,
        r matches Some(p) ==> p.0 == pos && p.1 == len,
{
}

/// A head that is rotated in part is parted there; one that is rotated whole is
/// not.
pub proof fn law_a_head_is_parted_where_rotation_ends(
    rotary: usize,
    head: usize,
    r: Option<(usize, usize)>,
)
    requires
        rotary <= head,
        call_ensures(rotary_parts, (rotary, head), r),
    ensures
        r is Some <==> rotary < head,
        r matches Some(p) ==> p.0 == rotary && p.0 + p.1 == head,
{
}

/// What a convolution keeps is the end of what it saw, one less than it spans.
pub proof fn law_a_convolution_keeps_the_end(total: usize, kernel: usize, r: Part)
    requires
        kernel >= 1,
        total >= kernel - 1,
        call_ensures(conv_state, (total, kernel), r),
    ensures
        r.len + 1 == kernel,
        r.start + r.len == total,
{
}

/// Values get another rotation than keys, and the projection another than
/// either; there is one only where inner products are kept.
pub proof fn law_each_rotation_has_its_own_seed(
    c: TurboQuantConfig,
    values: TurboQuantConfig,
    seed: Option<u64>,
)
    requires
        c.seed < 0x1_0000_0000_0000_0000 - 1000,
        call_ensures(TurboQuantConfig::for_values, (&c,), values),
        call_ensures(TurboQuantConfig::projection_seed, (&c,), seed),
    ensures
        values.seed == c.seed + 1000,
        values.bit_width == c.bit_width && values.dim == c.dim && values.mode == c.mode,
        c.mode == TurboQuantMode::Mse ==> seed is None,
        c.mode == TurboQuantMode::InnerProduct ==> seed == Some((c.seed + 1) as u64),
{
}

/// The widest kernels that the machine can run are the ones it does.
pub proof fn law_the_widest_kernels_are_run(f: Features, r: KernelSet)
    requires
        call_ensures(KernelSet::detect, (f,), r),
    ensures
        f.x86_64 && f.avx512f && f.avx512bw ==> r is Avx512,
        f.x86_64 && !(f.avx512f && f.avx512bw) && f.avx2 && f.fma ==> r is Avx2,
        f.x86_64 && !(f.avx512f && f.avx512bw) && !(f.avx2 && f.fma) ==> r is Baseline,
        !f.x86_64 && f.aarch64 ==> r is Neon,
        !f.x86_64 && !f.aarch64 ==> r is Baseline,
{
}

/// A block that is not whole is not read: its elements are zero.
pub proof fn law_only_whole_blocks_are_read(
    raw: &[u8],
    blocks: nat,
    n: usize,
    out: Vec<Mxfp4Element>,
    i: int,
)
    requires
        32 * blocks <= n < 32 * blocks + 32,
        17 * blocks <= raw@.len(),
        call_ensures(unpack_mxfp4, (raw, n), out),
        0 <= i < n,
    ensures
        out@.len() == n,
        i < 32 * blocks ==> out@[i] == mxfp4_at(raw@, i),
        i >= 32 * blocks ==> out@[i].doubled == 0,
{
    assert(n as int / 32 == blocks);
}

/// A cache by layer: the layer's own, or that of the layer it shares; of the kind
/// that is asked for, or none.
pub proof fn law_a_layer_has_the_cache_of_its_kind(
    c: ModelCache,
    layer: usize,
    kv: Option<usize>,
    turbo: Option<usize>,
    both: (Option<usize>, Option<usize>),
)
    requires
        c.has(layer),
        !(c.layers@[layer as int] is Shared),
        call_ensures(ModelCache::get_kv, (&c, layer), kv),
        call_ensures(ModelCache::get_turbo_kv, (&c, layer), turbo),
        call_ensures(ModelCache::get_layer, (&c, layer), both),
    ensures
        c.layers@[layer as int] == LayerKind::Kv ==> kv == Some(layer) && turbo is None && both == (
            Some(layer),
            None::<usize>,
        ),
        c.layers@[layer as int] == LayerKind::TurboKv ==> turbo == Some(layer) && kv is None
            && both == (None::<usize>, None::<usize>),
        c.layers@[layer as int] == LayerKind::Recurrent ==> kv is None && turbo is None && both == (
            None::<usize>,
            Some(layer),
        ),
{
}

/// A layer that shares another's keys and values gets that one's.
pub proof fn law_a_sharing_layer_gets_its_sources_cache(
    c: ModelCache,
    layer: usize,
    source: usize,
    kv: Option<usize>,
    recurrent: Option<usize>,
)
    requires
        c.has(layer),
        c.layers@[layer as int] == (LayerKind::Shared { source_layer: source }),
        source < c.layers@.len(),
        c.layers@[source as int] == LayerKind::Kv,
        call_ensures(ModelCache::get_kv, (&c, layer), kv),
        call_ensures(ModelCache::get_recurrent, (&c, layer), recurrent),
    ensures
        kv == Some(source),
        recurrent is None,
{
}

/// How many positions a cache holds, and whether it holds any.
pub proof fn law_a_cache_tells_what_it_holds(
    c: KvCache,
    n: usize,
    empty: bool,
    t: TurboKvCache,
    m: usize,
    none: bool,
)
    requires
        call_ensures(KvCache::len, (&c,), n),
        call_ensures(KvCache::is_empty, (&c,), empty),
        call_ensures(TurboKvCache::len, (&t,), m),
        call_ensures(TurboKvCache::is_empty, (&t,), none),
    ensures
        c@.held matches Some(k) ==> n == k,
        c@.held is None ==> n == 0,
        empty <==> n == 0,
        m == t.covered(),
        none <==> m == 0,
{
}

/// A position sees itself and those before it, and through a window only the
/// latest of them.
pub proof fn law_a_position_sees_those_before(
    len: usize,
    pos: usize,
    window: usize,
    causal: Mask,
    sliding: Mask,
    i: int,
    j: int,
)
    requires
        window >= 1,
        call_ensures(build_causal_mask, (len, pos), causal),
        call_ensures(build_sliding_window_mask, (len, pos, window), sliding),
        0 <= i < len,
        0 <= j < pos + len,
    ensures
        causal.rows == len && causal.cols == pos + len,
        sliding.rows == len && sliding.cols == pos + len,
        causal.at(i, j) <==> j > pos + i,
        sliding.at(i, j) <==> j > pos + i || j + window <= pos + i,
{
    assert(causal.at(i, j) == crate::gallium::mask::in_future(pos as int, i, j));
    assert(sliding.at(i, j) == (crate::gallium::mask::in_future(pos as int, i, j)
        || crate::gallium::mask::out_of_window(pos as int, i, j, window as int)));
}

/// A value is given as the type that it is, and refused as any other.
pub proof fn law_a_value_is_given_as_its_type(
    m: GgufMetadata,
    key: &str,
    text: Result<String, MetadataError>,
    number: Result<u32, MetadataError>,
    bits: Result<u32, MetadataError>,
    default: u32,
    other: u32,
)
    requires
        call_ensures(GgufMetadata::get_str, (&m, key), text),
        call_ensures(GgufMetadata::get_u32, (&m, key), number),
        call_ensures(GgufMetadata::get_f32_bits, (&m, key), bits),
        call_ensures(GgufMetadata::get_u32_or, (&m, key, default), other),
    ensures
        m.at(key@) is None ==> text == Err::<String, MetadataError>(MetadataError::Missing)
            && number == Err::<u32, MetadataError>(MetadataError::Missing) && bits == Err::<
            u32,
            MetadataError,
        >(MetadataError::Missing) && other == default,
        m.at(key@) matches Some(ValueModel::Text(t)) ==> (text matches Ok(s) && s@ == t) && number
            is Err && bits is Err && other == default,
        m.at(key@) matches Some(ValueModel::U32(n)) ==> number == Ok::<u32, MetadataError>(n)
            && text is Err && bits is Err && other == n,
        m.at(key@) matches Some(ValueModel::F32(n)) ==> bits == Ok::<u32, MetadataError>(n) && text
            is Err && number is Err && other == default,
        m.at(key@) matches Some(ValueModel::U8(n)) ==> number == Err::<u32, MetadataError>(
            (MetadataError::WrongType { wanted: Wanted::U32 }),
        ),
{
}

/// A request without an id is a notification, and is not answered.
pub proof fn law_a_notification_is_not_answered(
    s: Server,
    req: Request,
    notification: bool,
    r: Action,
)
    requires
        call_ensures(Request::is_notification, (&req,), notification),
        call_ensures(Server::handle, (&s, req), r),
    ensures
        notification <==> req.id is None,
        notification ==> r is Silence,
        !notification ==> !(r is Silence),
{
}

/// What is asked of the server is answered under its id: a ping, the list of
/// tools, a tool, or that there is no such method.
pub proof fn law_a_request_is_answered_under_its_id(s: Server, req: Request, r: Action)
    requires
        req.id is Some,
        call_ensures(Server::handle, (&s, req), r),
    ensures
        r matches Action::Answer { response } ==> response.id == req.id,
        req.method@ == "ping"@ ==> (r matches Action::Answer { response } && response.error is None
            && response.result == Some(Reply::Alive)),
        req.method@ == "tools/list"@ ==> r == (Action::ListTools { id: req.id }),
        req.method@ == "tools/call"@ && req.params is Some ==> r == (Action::CallTool {
            id: req.id,
            params: req.params->0,
        }),
        req.method@ == "tools/call"@ && req.params is None ==> (r matches Action::Answer {
            response,
        } && response.error is Some && response.error->0.code == -32600),
        req.method@ == "initialize"@ ==> (r matches Action::Answer { response } && response.result
            is Some && response.result->0 is Initialized),
        req.method@ != "ping"@ && req.method@ != "tools/list"@ && req.method@ != "tools/call"@
            && req.method@ != "initialize"@ ==> (r matches Action::Answer { response }
            && response.error is Some && response.error->0.code == -32601),
{
    reveal_strlit("ping");
    reveal_strlit("tools/list");
    reveal_strlit("tools/call");
    reveal_strlit("initialize");
    assert("ping"@.len() == 4);
    assert("tools/list"@.len() == 10 && "tools/list"@[6] == 'l');
    assert("tools/call"@.len() == 10 && "tools/call"@[6] == 'c');
    assert("initialize"@.len() == 10 && "initialize"@[0] == 'i');
    assert("tools/list"@[0] == 't' && "tools/call"@[0] == 't');
}

/// A server is introduced by its name and version, and speaks the version that
/// is asked for, or its own.
pub proof fn law_a_server_introduces_itself(
    s: Server,
    req: Request,
    r: Action,
    asked: Option<String>,
    spoken: String,
)
    requires
        req.id is Some,
        req.method@ == "initialize"@,
        call_ensures(Server::handle, (&s, req), r),
        call_ensures(chosen_version, (asked,), spoken),
    ensures
        r matches Action::Answer { response } && response.result matches Some(
            Reply::Initialized { protocol_version, name, version },
        ) && name@ == "kessel-vm"@ && version@ == s.version@ && (req.params is None
            ==> protocol_version@ == "2025-06-18"@),
        asked matches Some(v) ==> spoken@ == v@,
        asked is None ==> spoken@ == "2025-06-18"@,
{
}

/// A tool that worked is answered with what it gave; one that failed with why,
/// marked as an error, but not as one of the protocol.
pub proof fn law_a_failed_tool_is_still_answered(
    id: Option<serde_json::Value>,
    given: ToolResult,
    why: String,
    worked: Response,
    failed: Response,
    content: CallResult,
)
    requires
        call_ensures(tool_called, (id, Ok::<ToolResult, String>(given)), worked),
        call_ensures(tool_called, (id, Err::<ToolResult, String>(why)), failed),
        call_ensures(to_content, (given,), content),
    ensures
        worked.id == id && worked.error is None,
        failed.id == id && failed.error is None,
        worked.result matches Some(Reply::Called { result }) && result.is_error is None
            && content_views(result.content@) == blocks(given),
        failed.result matches Some(Reply::Called { result }) && result.is_error == Some(true)
            && content_views(result.content@) == seq![ContentModel::Text { text: why@ }],
        content_views(content.content@) == blocks(given) && content.is_error is None,
{
}

/// What is wrong with a request is answered under its id, or under none where the
/// request could not be read.
pub proof fn law_a_bad_request_is_told_why(
    id: Option<serde_json::Value>,
    why: &str,
    bad: Response,
    unread: Response,
    tools: Vec<ToolInfo>,
    listed: Response,
)
    requires
        call_ensures(bad_params, (id, why), bad),
        call_ensures(Response::parse_error, (why,), unread),
        call_ensures(tools_listed, (id, tools), listed),
    ensures
        bad.id == id && bad.result is None && bad.error is Some && bad.error->0.code == -32600,
        bad.error->0.message@ == "bad tools/call params: "@ + why@,
        unread.id is None && unread.result is None && unread.error is Some && unread.error->0.code
            == -32700,
        unread.error->0.message@ == "parse error: "@ + why@,
        listed.id == id && listed.error is None && listed.result == Some(Reply::Tools { tools }),
{
}

/// A line of white space alone is no message.
pub proof fn law_a_blank_line_is_no_message(line: &str, r: bool)
    requires
        call_ensures(is_blank_line, (line,), r),
    ensures
        r <==> trimmed(line@).len() == 0,
{
}

/// A model of its own goes before a key for another's.
pub proof fn law_a_local_model_comes_first(has_model: bool, has_key: bool, r: &'static str)
    requires
        call_ensures(provider_name, (has_model, has_key), r),
    ensures
        has_model ==> r@ == "Local (FFI)"@,
        !has_model && has_key ==> r@ == "OpenAI"@,
        !has_model && !has_key ==> r@ == "Unknown"@,
{
}

/// A setting counts where it is given and, for a number, is one that fits;
/// otherwise the default does.
pub proof fn law_a_setting_or_its_default(
    value: Option<String>,
    default: u32,
    number: u32,
    otherwise: &str,
    text: String,
)
    requires
        call_ensures(number_or, (value, default), number),
        call_ensures(text_or, (value, otherwise), text),
    ensures
        value is None ==> number == default && text@ == otherwise@,
        value matches Some(v) ==> text@ == v@,
        value is Some && unsigned_value(value->0@, u32::MAX as int) is Some ==> number
            == unsigned_value(value->0@, u32::MAX as int)->0,
        value is Some && unsigned_value(value->0@, u32::MAX as int) is None ==> number == default,
{
}

/// A voice that starts is struck from silence, with all it is given and nothing
/// of what it was.
pub proof fn law_a_voice_starts_afresh(
    v: &mut Voice,
    hold: Option<u32>,
    chan: Option<u8>,
    priority: Priority,
    age: u64,
)
    requires
        call_ensures(Voice::start, (v, hold, chan, priority, age), ()),
    ensures
        final(v).stage == Stage::Attack,
        final(v).hold == hold,
        final(v).chan == chan,
        final(v).priority == priority,
        final(v).age == age,
        final(v).level == 0,
{
}

/// A player who leaves frees the slot they held, and only that; that they left is
/// announced where that they came was.
pub proof fn law_leaving_is_announced_as_coming_was(p: &mut Player, l: &mut Lobby, r: bool)
    requires
        call_ensures(Player::leave, (p, l), r),
    ensures
        r == old(p).announced,
        old(p).holds_slot ==> !final(l).taken,
        !old(p).holds_slot ==> final(l).taken == old(l).taken,
        !final(p).holds_slot,
{
}

/// A greeting takes the slot, and a tick leaves it as it is.
pub proof fn law_a_greeting_takes_the_slot(p: &mut Player, l: &mut Lobby, op: u8, r: Step)
    requires
        call_ensures(Player::on_message, (p, l, op), r),
    ensures
        op == 0 ==> final(l).taken,
        op != 0 ==> final(l).taken == old(l).taken,
        op == 1 && old(p).holds_slot ==> r == Step::Advance,
        r == Step::Advance ==> op == 1 && old(p).holds_slot,
{
}

/// A client sends the input it was last given, and shows the frame it last got.
pub proof fn law_a_client_keeps_the_latest(
    a: &mut AttachClient,
    input: Input,
    b: &mut AttachClient,
    frame: Frame,
    c: &mut AttachClient,
)
    requires
        call_ensures(AttachClient::set_input, (a, input), ()),
        call_ensures(AttachClient::receive, (b, frame), ()),
        call_ensures(AttachClient::disconnect, (c,), ()),
    ensures
        final(a)@.input == input@,
        final(a)@.latest == old(a)@.latest && final(a)@.connected == old(a)@.connected,
        final(b)@.latest == Some(frame@),
        final(b)@.input == old(b)@.input && final(b)@.connected == old(b)@.connected,
        !final(c)@.connected,
        final(c)@.latest == old(c)@.latest && final(c)@.input == old(c)@.input,
{
}

/// A window holds the buttons that its keys hold; a key that quits or reloads
/// moves none.
pub proof fn law_a_window_holds_what_its_keys_hold(
    w: &mut Playing,
    code: KeyCode,
    pressed: bool,
    r: KeyAction,
)
    requires
        call_ensures(Playing::on_key, (w, code, pressed), r),
    ensures
        r matches KeyAction::Hold { buttons } ==> final(w)@.buttons == buttons,
        r == KeyAction::Quit || r == KeyAction::Reload ==> final(w)@.buttons == old(w)@.buttons,
        pressed && code == KeyCode::Escape ==> r == KeyAction::Quit,
        !pressed && code == KeyCode::KeyR ==> r == KeyAction::Reload,
        final(w)@.next_frame == old(w)@.next_frame && final(w)@.shown == old(w)@.shown,
{
}

/// A window starts with no button held and a frame due; a new game or a new title
/// is noticed once.
pub proof fn law_a_window_notices_what_is_new(
    now: u64,
    epoch: u64,
    title: String,
    fresh: Playing,
    a: &mut Playing,
    game: u64,
    started: bool,
    b: &mut Playing,
    name: String,
    renamed: bool,
)
    requires
        call_ensures(Playing::new, (now, epoch, title), fresh),
        call_ensures(Playing::on_epoch, (a, game), started),
        call_ensures(Playing::on_title, (b, name), renamed),
    ensures
        fresh@.buttons == 0 && fresh@.next_frame == now && fresh@.epoch == epoch && fresh@.shown
            == title@,
        started <==> game != old(a)@.epoch,
        final(a)@.epoch == game && final(a)@.buttons == old(a)@.buttons,
        renamed <==> name@ != old(b)@.shown,
        final(b)@.shown == name@ && final(b)@.buttons == old(b)@.buttons,
{
}

/// A cache that is added to holds the latest as far as it can; reset, it holds
/// nothing, and can hold as much.
pub proof fn law_a_cache_holds_the_latest(
    c: &mut KvCache,
    new: usize,
    r: Kept,
    d: &mut KvCache,
    t: &mut TurboKvCache,
    more: usize,
)
    requires
        old(c)@.len() + new <= usize::MAX,
        call_ensures(KvCache::append, (c, new), r),
        call_ensures(KvCache::reset, (d,), ()),
        call_ensures(TurboKvCache::append, (t, more), ()),
    ensures
        old(c)@.len() + new <= old(c)@.max ==> r.start == 0 && r.len == old(c)@.len() + new,
        old(c)@.len() + new > old(c)@.max ==> r.len == old(c)@.max && r.start + r.len == old(
            c,
        )@.len() + new,
        final(c)@.len() == r.len && final(c)@.max == old(c)@.max,
        final(d)@.len() == 0 && final(d)@.max == old(d)@.max,
        final(t).covered() == old(t).covered() + more,
{
}

/// What is declared by hand is added last, under its name, and its id is its
/// place.
pub proof fn law_what_is_added_by_hand_goes_last(
    a: &mut SoundBank,
    name: &str,
    patch: Patch,
    id: u8,
)
    requires
        old(a)@.instruments.len() < 256,
        call_ensures(SoundBank::add_instrument, (a, name, patch), id),
    ensures
        id == old(a)@.instruments.len(),
        final(a)@.instruments == old(a)@.instruments.push(patch),
        final(a)@.instrument_names == old(a)@.instrument_names.push(name@),
        final(a)@.sfx == old(a)@.sfx && final(a)@.tracks == old(a)@.tracks,
{
}

/// A line that ends a conversation stops it, a blank one is skipped, a reset is
/// told, and anything else is asked.
pub proof fn law_a_line_decides_what_comes_next(r: &mut Repl, line: &str, step: crate::repl::Step)
    requires
        old(r).wf(),
        call_ensures(Repl::on_line, (r, line), step),
    ensures
        line_of(line@) == LineModel::Nothing ==> step is Skip,
        line_of(line@) == LineModel::Quit ==> step is Stop,
        line_of(line@) == LineModel::Reset ==> (step matches crate::repl::Step::Tell(s) && s@
            == "Conversation reset."@) && final(r).said().len() == 1,
        line_of(line@) is Say ==> step is Ask && final(r).said().len() == old(r).said().len() + 1,
{
}

/// A token that is accepted comes last, and nothing else changes.
pub proof fn law_an_accepted_token_comes_last(g: &mut Generation, token: u32)
    requires
        call_ensures(Generation::accept, (g, token), ()),
    ensures
        final(g)@.generated == old(g)@.generated.push(token),
        final(g)@.prompt == old(g)@.prompt,
        final(g)@.eos == old(g)@.eos,
        final(g)@.max_new_tokens == old(g)@.max_new_tokens,
{
}

/// A push says whether there was room, and a pop gives the first event there is.
pub proof fn law_a_queue_says_whether_there_was_room(
    q: &mut EventQueue,
    ev: AudioEvent,
    taken: bool,
    p: &mut EventQueue,
    first: Option<AudioEvent>,
)
    requires
        call_ensures(EventQueue::push, (q, ev), taken),
        call_ensures(EventQueue::pop, (p,), first),
    ensures
        taken <==> old(q)@.events.len() < 256,
        taken ==> final(q)@.events == old(q)@.events.push(ev),
        !taken ==> final(q)@.events == old(q)@.events,
        old(p)@.events.len() > 0 ==> first == Some(old(p)@.events[0]),
        old(p)@.events.len() == 0 ==> first is None,
{
}

/// A delay line is read as far back as asked for, and one sample further.
pub proof fn law_a_delay_line_is_read_behind_its_head(h: Head, back: usize, r: (usize, usize))
    requires
        h.wf(),
        back < h.span(),
        call_ensures(Head::taps, (&h, back), r),
    ensures
        (r.0 + back) % h.span() == h.at(),
        (r.1 + back + 1) % h.span() == h.at(),
{
    let n = h.span();
    let x = h.at() - back;
    vstd::arithmetic::div_mod::lemma_add_mod_noop_right(back as int, x, n);
    vstd::arithmetic::div_mod::lemma_add_mod_noop_right(back + 1, x - 1, n);
    vstd::arithmetic::div_mod::lemma_small_mod(h.at() as nat, n as nat);
}

/// A line's head goes on by one, and around.
pub proof fn law_a_head_goes_around(h: &mut Head)
    requires
        old(h).wf(),
        call_ensures(Head::advance, (h,), ()),
    ensures
        final(h).span() == old(h).span(),
        old(h).at() + 1 < old(h).span() ==> final(h).at() == old(h).at() + 1,
        old(h).at() + 1 == old(h).span() ==> final(h).at() == 0,
{
    let n = old(h).span();
    if old(h).at() + 1 < n {
        vstd::arithmetic::div_mod::lemma_small_mod((old(h).at() + 1) as nat, n as nat);
    } else {
        vstd::arithmetic::div_mod::lemma_mod_self_0(n);
    }
}

/// Submitting an effect schedules each of its notes: on the effect's instrument,
/// at its velocity, at the sample it starts on.
pub proof fn law_submitting_an_effect_schedules_its_notes(
    e: &mut AudioEngine,
    id: u16,
    at: u64,
    k: int,
)
    requires
        id < old(e)@.bank.sfx.len(),
        old(e)@.bank.sfx[id as int].frames() <= u32::MAX,
        old(e)@.queue.items.len() + old(e)@.bank.sfx[id as int].notes().len() <= 256,
        at + old(e)@.bank.sfx[id as int].frames() * (old(e)@.synth.cfg.sample_rate as int / 60)
            <= u64::MAX,
        0 <= k < old(e)@.bank.sfx[id as int].notes().len(),
        call_ensures(AudioEngine::submit, (e, AudioEvent::PlaySfx { id }, at), ()),
    ensures
        ({
            let def = old(e)@.bank.sfx[id as int];
            let (offset, note, frames) = def.notes()[k];
            let it = final(e)@.queue.items[old(e)@.queue.items.len() + k];
            &&& final(e)@.queue.items.len() == old(e)@.queue.items.len() + def.notes().len()
            &&& it.at == at + offset * (old(e)@.synth.cfg.sample_rate as int / 60)
            &&& it.event == (AudioEvent::Play { inst: def.inst, note, vel: def.vel, frames })
        }),
{
    law_an_effect_is_scheduled_note_by_note(old(e)@, id, at, k);
}

/// Releasing the music has every note of it fade, and no other.
pub proof fn law_releasing_the_music_fades_it(s: &mut Synth, i: int)
    requires
        0 <= i < old(s)@.voices.len(),
        call_ensures(Synth::release_music, (s,), ()),
    ensures
        old(s)@.voices[i].priority == Priority::Music ==> !is_held(final(s)@.voices[i]),
        old(s)@.voices[i].priority == Priority::Music && is_held(old(s)@.voices[i])
            ==> final(s)@.voices[i].stage == Stage::Release && final(s)@.voices[i].hold is None,
        old(s)@.voices[i].priority == Priority::Sfx ==> final(s)@.voices[i] == old(s)@.voices[i],
{
}

/// Setting a time of an instrument sets that one.
pub proof fn law_setting_a_time_sets_that_one(
    p: &mut Patch,
    key: &str,
    n: i64,
    r: Result<(), String>,
)
    requires
        0 <= n <= 60000,
        call_ensures(set_instrument_field, (p, key, FieldValue::Int(n)), r),
    ensures
        key@ == "attack"@ ==> r is Ok && *final(p) == (Patch { attack_ms: n as u16, ..*old(p) }),
        key@ == "decay"@ ==> r is Ok && *final(p) == (Patch { decay_ms: n as u16, ..*old(p) }),
        key@ == "release"@ ==> r is Ok && *final(p) == (Patch { release_ms: n as u16, ..*old(p) }),
        key@ == "pitch_decay"@ ==> r is Ok && *final(p) == (Patch {
            pitch_decay_ms: n as u16,
            ..*old(p)
        }),
        r is Err ==> *final(p) == *old(p),
{
    law_each_time_has_its_key(*old(p), n as int);
}

/// The list of an attention layer's tensors has a bias for each projection where
/// biases are asked for, and none where they are not.
pub proof fn law_an_attention_layer_lists_its_biases(c: AttentionConfig, r: Vec<Param>)
    requires
        c.fits(),
        call_ensures(AttentionConfig::parameters, (&c,), r),
    ensures
        ({
            let p = param_views(r@);
            &&& names(p, "q_proj.bias"@) <==> c.attn_bias
            &&& names(p, "k_proj.bias"@) <==> c.attn_bias
            &&& names(p, "v_proj.bias"@) <==> c.attn_bias && !c.shared_kv
            &&& names(p, "o_proj.bias"@) <==> c.attn_bias
            &&& c.attn_bias && !c.shared_kv ==> reads(
                p,
                "v_proj.bias"@,
                seq![(c.num_kv_heads * c.head_dim) as usize],
            )
        }),
{
    law_every_projection_has_its_bias(c);
}

/// The keys that steer hold the button of their side.
pub proof fn law_the_keys_that_steer(code: KeyCode, r: Option<u8>)
    requires
        call_ensures(button_for, (code,), r),
    ensures
        code == KeyCode::ArrowLeft || code == KeyCode::KeyA ==> r == Some(1u8),
        code == KeyCode::ArrowRight || code == KeyCode::KeyD ==> r == Some(2u8),
        code == KeyCode::ArrowUp || code == KeyCode::KeyW ==> r == Some(4u8),
        code == KeyCode::ArrowDown || code == KeyCode::KeyS ==> r == Some(8u8),
        code == KeyCode::KeyZ || code == KeyCode::KeyJ || code == KeyCode::Space ==> r == Some(
            16u8,
        ),
        code == KeyCode::KeyX || code == KeyCode::KeyK ==> r == Some(32u8),
        code == KeyCode::Enter ==> r == Some(64u8),
        code == KeyCode::ShiftLeft || code == KeyCode::ShiftRight ==> r == Some(128u8),
        code == KeyCode::KeyR || code == KeyCode::Escape || code == KeyCode::Other ==> r is None,
{
}

/// A bank that is installed is the one played from: its instruments are the
/// synth's, and what sounds goes on.
pub proof fn law_an_installed_bank_is_played_from(e: &mut AudioEngine, bank: SoundBank)
    requires
        call_ensures(AudioEngine::set_bank, (e, bank), ()),
    ensures
        final(e)@.bank == bank@,
        final(e)@.synth.instruments == bank@.instruments,
        final(e)@.synth.voices == old(e)@.synth.voices,
        final(e)@.queue == old(e)@.queue,
        final(e)@.music == old(e)@.music,
        final(e)@.now == old(e)@.now,
{
}

/// Effects and tracks that are declared by hand are added last too.
pub proof fn law_effects_and_tracks_by_hand_go_last(
    a: &mut SoundBank,
    sfx: SfxDef,
    b: &mut SoundBank,
    track: TrackDef,
    name: &str,
    i: u16,
    j: u16,
)
    requires
        old(a)@.sfx.len() < 65536,
        old(b)@.tracks.len() < 65536,
        call_ensures(SoundBank::add_sfx, (a, name, sfx), i),
        call_ensures(SoundBank::add_track, (b, name, track), j),
    ensures
        i == old(a)@.sfx.len(),
        final(a)@.sfx == old(a)@.sfx.push(sfx@),
        final(a)@.sfx_names == old(a)@.sfx_names.push(name@),
        j == old(b)@.tracks.len(),
        final(b)@.tracks == old(b)@.tracks.push(track@),
        final(b)@.track_names == old(b)@.track_names.push(name@),
{
}

/// A new engine has nothing to play and nothing sounding, at the first sample.
pub proof fn law_a_new_engine_starts_silent(cfg: SynthConfig, e: AudioEngine, i: int)
    requires
        call_ensures(AudioEngine::new, (cfg,), e),
        0 <= i < 16,
    ensures
        e@.synth.voices.len() == 16,
        e@.synth.voices[i].stage == Stage::Idle,
        e@.queue.items.len() == 0,
        e@.music is None,
        e@.now == 0,
        e@.synth.cfg == cfg,
        e@.bank.sfx.len() == 0 && e@.bank.instruments.len() == 0,
{
}

/// What is played at where nothing is said: 48 kHz, from a seed of its own.
pub proof fn law_what_is_played_at_by_default(c: SynthConfig)
    requires
        call_ensures(SynthConfig::default, (), c),
    ensures
        c.sample_rate == 48_000,
        c.seed == 0x5EED_1E55,
{
}

/// What an attention layer is by default: plain, with a key for every query.
pub proof fn law_an_attention_layer_by_default(c: AttentionConfig)
    requires
        call_ensures(AttentionConfig::default, (), c),
    ensures
        c.hidden_size == 4096 && c.num_q_heads == 32 && c.num_kv_heads == 32 && c.head_dim == 128,
        c.num_q_heads * c.head_dim == c.hidden_size,
        !c.attn_bias && !c.shared_kv && !c.q_norm && !c.k_norm && !c.v_norm && !c.attn_sinks
            && !c.q_output_gate && !c.norm_one_plus,
{
}

} // verus!
