//! What a value says is what it holds, field by field.

use crate::attach::protocol::{Frame, Hello};
use crate::attach::session::{Discovery, DiscoveryModel, Session};
use crate::audio::bank::{Channel, SfxDef, SoundBank, TrackDef};
use crate::audio::fields::{FieldModel, FieldValue, OwnedValue};
use crate::audio::grammar::BankError;
use crate::cli::command::{Command, CommandModel};
use crate::cli::headless::Seen;
use crate::cli::options::Read;
use crate::cli::{render_audio, shot};
use crate::device::Input;
use crate::gallium::gguf::{
    entry_models, models, tensor_models, Entry, GgufHeader, GgufValue, RawTensorInfo, ValueModel,
};
use crate::gallium::load::{LoadError, LoadErrorModel, ModelFile};
use crate::gallium::params::Param;
use crate::mcp::wire::{Content, ContentModel};
use crate::repl::{Line, LineModel, Message, Print, PrintModel};
use crate::text::maybe;
use vstd::prelude::*;

verus! {

/// An input's buttons, stick and fingers.
pub proof fn law_an_input_says_what_it_holds(v: Input)
    ensures
        v@.buttons == v.buttons,
        v@.stick_x == v.stick_x,
        v@.stick_y == v.stick_y,
        v@.touches == v.touches@,
{
}

/// A greeting's and a frame's parts.
pub proof fn law_messages_say_what_they_hold(h: Hello, f: Frame)
    ensures
        h@.version == h.version && h@.busy == h.busy && h@.dim == h.dim && h@.controls
            == h.controls_json@,
        f@.has_rom == f.has_rom && f@.paused == f.paused && f@.halted == f.halted && f@.dim
            == f.dim && f@.rgba == f.rgba@,
{
}

/// A session's parts, and what a search found.
pub proof fn law_a_session_says_what_it_holds(s: Session, many: Vec<Session>, i: int)
    requires
        0 <= i < many@.len(),
    ensures
        s@.port == s.port && s@.pid == s.pid && s@.root == s.root@ && s@.version == s.version@,
        Discovery::Found(s)@ == DiscoveryModel::Found(s@),
        Discovery::Nothing@ == DiscoveryModel::Nothing,
        Discovery::Ambiguous(many)@ matches DiscoveryModel::Ambiguous(v) && v.len() == many@.len()
            && v[i] == many@[i]@,
{
}

/// The parts of an effect, a line, a track and an error.
pub proof fn law_a_banks_parts_say_what_they_hold(
    s: SfxDef,
    c: Channel,
    t: TrackDef,
    i: int,
    e: BankError,
)
    requires
        0 <= i < t.channels@.len(),
    ensures
        s@.inst == s.inst && s@.speed == s.speed && s@.vel == s.vel && s@.rows == s.rows@,
        c@.inst == c.inst && c@.rows == c.rows@,
        t@.tempo == t.tempo && t@.vel == t.vel && t@.looping == t.looping,
        t@.channels.len() == t.channels@.len() && t@.channels[i] == t.channels@[i]@,
        e@.line == e.line && e@.message == e.message@,
{
}

/// A bank's instruments, effects, tracks and names.
pub proof fn law_a_bank_says_what_it_holds(b: SoundBank, i: int, j: int, k: int)
    requires
        0 <= i < b.instrument_names@.len(),
        0 <= j < b.sfx@.len(),
        0 <= k < b.tracks@.len(),
    ensures
        b@.instruments == b.instruments@,
        b@.instrument_names.len() == b.instrument_names@.len(),
        b@.instrument_names[i] == b.instrument_names@[i]@,
        b@.sfx.len() == b.sfx@.len() && b@.sfx[j] == b.sfx@[j]@,
        b@.tracks.len() == b.tracks@.len() && b@.tracks[k] == b.tracks@[k]@,
        b@.fx == b.fx,
{
}

/// A value of a bank's source.
pub proof fn law_a_field_says_what_it_holds(n: i64, w: &str, s: String)
    ensures
        FieldValue::Int(n)@ == FieldModel::Int(n as int),
        FieldValue::Word(w)@ == FieldModel::Word(w@),
        FieldValue::Text(w)@ == FieldModel::Text(w@),
        OwnedValue::Int(n)@ == FieldModel::Int(n as int),
        OwnedValue::Word(s)@ == FieldModel::Word(s@),
        OwnedValue::Text(s)@ == FieldModel::Text(s@),
{
}

/// What a command line was read as.
pub proof fn law_a_command_says_what_it_holds(
    dir: Option<String>,
    file: String,
    r: render_audio::Args,
    s: shot::Args,
    o: Read,
    seen: Seen,
)
    ensures
        (Command::Mcp { root: dir })@ == (CommandModel::Mcp { root: maybe(dir) }),
        (Command::Attach { workdir: dir })@ == (CommandModel::Attach { workdir: maybe(dir) }),
        (Command::Run { file })@ == (CommandModel::Run { file: file@ }),
        (Command::RenderAudio { args: r })@ == (CommandModel::RenderAudio { args: r@ }),
        (Command::Shot { args: s })@ == (CommandModel::Shot { args: s@ }),
        Command::Help@ == CommandModel::Help,
        Command::Version@ == CommandModel::Version,
        r@.file == r.file@ && r@.frames == r.frames && r@.out == r.out@ && r@.buttons == r.buttons,
        s@.file == s.file@ && s@.frames == s.frames && s@.out == s.out@ && s@.buttons == s.buttons,
        o@.file == maybe(o.file) && o@.frames == o.frames && o@.out == maybe(o.out) && o@.buttons
            == o.buttons,
        seen@.fault == maybe(seen.fault) && seen@.halted == seen.halted,
        dir is None ==> maybe(dir) is None,
        dir matches Some(d) ==> maybe(dir) == Some(d@),
{
}

/// A model file's parts.
pub proof fn law_a_model_file_says_what_it_holds(
    f: ModelFile,
    h: GgufHeader,
    entries: Seq<Entry>,
    tensors: Seq<RawTensorInfo>,
    i: int,
    j: int,
    p: Param,
)
    requires
        0 <= i < entries.len(),
        0 <= j < tensors.len(),
    ensures
        f.model().header == f.header.model() && f.model().base == f.base && f.model().kinds
            == f.kinds@,
        h.model().metadata == entry_models(h.metadata.entries@),
        h.model().tensors == tensor_models(h.tensors@) && h.model().end == h.end,
        entry_models(entries)[i].key == entries[i].key@,
        entry_models(entries)[i].value == entries[i].value.model(),
        tensor_models(tensors)[j].key == tensors[j].name@,
        tensor_models(tensors)[j].value.dims == tensors[j].dims@,
        tensor_models(tensors)[j].value.dtype == tensors[j].dtype,
        tensor_models(tensors)[j].value.offset == tensors[j].offset,
        p@.name == p.name@ && p@.shape == p.shape@,
{
}

/// What stopped a load.
pub proof fn law_a_load_error_says_what_it_holds(e: LoadError)
    ensures
        match e {
            LoadError::Header { why } => e@ == (LoadErrorModel::Header { why }),
            LoadError::Unaligned => e@ == LoadErrorModel::Unaligned,
            LoadError::Tensor { name, why } => e@ == (LoadErrorModel::Tensor { name: name@, why }),
        },
{
}

/// What is said, shown and sent.
pub proof fn law_what_is_said_and_shown(
    m: Message,
    text: String,
    data: String,
    mime_type: String,
)
    ensures
        m@.role == m.role && m@.text == m.text@,
        Print::Out(text)@ == PrintModel::Out(text@),
        Print::Note(text)@ == PrintModel::Note(text@),
        Line::Nothing@ == LineModel::Nothing,
        Line::Quit@ == LineModel::Quit,
        Line::Reset@ == LineModel::Reset,
        (Line::Say { text })@ == (LineModel::Say { text: text@ }),
        (Content::Text { text })@ == (ContentModel::Text { text: text@ }),
        (Content::Image { data, mime_type })@ == (ContentModel::Image {
            data: data@,
            mime_type: mime_type@,
        }),
{
}

/// A value of a file's metadata.
pub proof fn law_a_value_says_what_it_holds(v: GgufValue)
    ensures
        match v {
            GgufValue::U8(x) => v.model() == ValueModel::U8(x),
            GgufValue::I8(x) => v.model() == ValueModel::I8(x),
            GgufValue::U16(x) => v.model() == ValueModel::U16(x),
            GgufValue::I16(x) => v.model() == ValueModel::I16(x),
            GgufValue::U32(x) => v.model() == ValueModel::U32(x),
            GgufValue::I32(x) => v.model() == ValueModel::I32(x),
            GgufValue::F32(x) => v.model() == ValueModel::F32(x),
            GgufValue::Bool(x) => v.model() == ValueModel::Bool(x),
            GgufValue::Text(x) => v.model() == ValueModel::Text(x@),
            GgufValue::Array(x) => v.model() == ValueModel::Array(models(x, x@.len())),
            GgufValue::U64(x) => v.model() == ValueModel::U64(x),
            GgufValue::I64(x) => v.model() == ValueModel::I64(x),
            GgufValue::F64(x) => v.model() == ValueModel::F64(x),
        },
{
}

/// The elements of an array, in their order.
pub proof fn law_an_array_says_what_it_holds(v: Vec<GgufValue>, n: nat, i: int)
    requires
        0 <= i < n <= v@.len(),
    ensures
        models(v, n).len() == n,
        models(v, n)[i] == v@[i].model(),
    decreases n,
{
    if i < n - 1 {
        law_an_array_says_what_it_holds(v, (n - 1) as nat, i);
    } else if n > 1 {
        law_an_array_says_what_it_holds(v, (n - 1) as nat, 0);
    } else {
        assert(models(v, 0).len() == 0);
    }
}

} // verus!
