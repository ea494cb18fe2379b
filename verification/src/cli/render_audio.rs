//! Run a game headless and write what it sounds like.

use super::options::{read_from, read_options, Draft};
use super::paths::{file_name, file_stem_of, stem};
use crate::text::strings;
use vstd::prelude::*;
use vstd::string::StringExecFns;

verus! {

/// Parsed arguments.
#[derive(Debug)]
pub struct Args {
    pub file: String,
    pub frames: u64,
    pub out: String,
    /// Buttons held for the whole run, as gamepad bits.
    pub buttons: u8,
}

/// What [`Args`] say.
pub struct ArgsModel {
    pub file: Seq<char>,
    pub frames: u64,
    pub out: Seq<char>,
    pub buttons: u8,
}

impl View for Args {
    type V = ArgsModel;

    open spec fn view(&self) -> ArgsModel {
        ArgsModel {
            file: self.file@,
            frames: self.frames,
            out: self.out@,
            buttons: self.buttons,
        }
    }
}

/// Three seconds.
pub const DEFAULT_FRAMES: u64 = 180;

/// `games/shooter.lua` → `shooter.wav` in the current directory.
pub open spec fn out_for(file: Seq<char>, windows: bool) -> Seq<char> {
    (match file_name(file, windows) {
        Some(n) => stem(n),
        None => "render"@,
    }) + ".wav"@
}

/// The file that is written where none is named.
pub fn default_out(file: &str, windows: bool) -> (r: String)
    ensures
        r@ == out_for(file@, windows),
{
    let mut s = match file_stem_of(file, windows) {
        Some(n) => n,
        None => "render".to_owned(),
    };
    s.append(".wav");
    s
}

/// What the arguments say.
pub open spec fn args_of(args: Seq<Seq<char>>, windows: bool) -> Result<ArgsModel, Seq<char>> {
    match read_from(
        args,
        0,
        Draft { file: None, frames: DEFAULT_FRAMES, out: None, buttons: 0 },
    ) {
        Err(e) => Err(e),
        Ok(d) => match d.file {
            None => Err(
                "`kessel render-audio` needs a file, e.g. `kessel render-audio games/shooter.lua`"@,
            ),
            Some(file) => if d.frames == 0 {
                Err("--frames must be at least 1"@)
            } else {
                Ok(
                    ArgsModel {
                        file,
                        frames: d.frames,
                        out: match d.out {
                            Some(o) => o,
                            None => out_for(file, windows),
                        },
                        buttons: d.buttons,
                    },
                )
            },
        },
    }
}

/// Read the arguments; `windows` says how the platform writes paths.
pub fn parse(args: &[String], windows: bool) -> (r: Result<Args, String>)
    ensures
        (match r {
            Ok(a) => Ok::<ArgsModel, Seq<char>>(a@),
            Err(e) => Err::<ArgsModel, Seq<char>>(e@),
        }) == args_of(strings(args@), windows),
{
    let d = match read_options(args, DEFAULT_FRAMES) {
        Ok(d) => d,
        Err(e) => {
            return Err(e);
        },
    };
    let file = match d.file {
        Some(f) => f,
        None => {
            return Err(
                "`kessel render-audio` needs a file, e.g. `kessel render-audio games/shooter.lua`".to_owned(),
            );
        },
    };
    if d.frames == 0 {
        return Err("--frames must be at least 1".to_owned());
    }
    let out = match d.out {
        Some(o) => o,
        None => default_out(file.as_str(), windows),
    };
    Ok(Args { file, frames: d.frames, out, buttons: d.buttons })
}

} // verus!
