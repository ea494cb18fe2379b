//! The options that the headless commands share: a file, a number of frames, a
//! place to write to, and the buttons held.

use crate::device::{BTN_A, BTN_B, BTN_DOWN, BTN_LEFT, BTN_RIGHT, BTN_SELECT, BTN_START, BTN_UP};
use crate::text::{
    chars_of, concat3, maybe, read_unsigned, same, split_char, split_on, starts_with, strings,
    to_capitals, trim, trimmed, unsigned_value, capitals, word_views,
};
use vstd::prelude::*;

verus! {

/// The bit of the button with this name.
pub open spec fn button_named(name: Seq<char>) -> u8 {
    if name == "LEFT"@ {
        BTN_LEFT
    } else if name == "RIGHT"@ {
        BTN_RIGHT
    } else if name == "UP"@ {
        BTN_UP
    } else if name == "DOWN"@ {
        BTN_DOWN
    } else if name == "A"@ {
        BTN_A
    } else if name == "B"@ {
        BTN_B
    } else if name == "START"@ {
        BTN_START
    } else if name == "SELECT"@ {
        BTN_SELECT
    } else {
        0
    }
}

/// The bits of all the buttons named; a name of none adds nothing.
pub open spec fn buttons_named(names: Seq<Seq<char>>) -> u8
    decreases names.len(),
{
    if names.len() == 0 {
        0
    } else {
        buttons_named(names.drop_last()) | button_named(names.last())
    }
}

fn button_bit(name: &str) -> (r: u8)
    ensures
        r == button_named(name@),
{
    if same(name, "LEFT") {
        BTN_LEFT
    } else if same(name, "RIGHT") {
        BTN_RIGHT
    } else if same(name, "UP") {
        BTN_UP
    } else if same(name, "DOWN") {
        BTN_DOWN
    } else if same(name, "A") {
        BTN_A
    } else if same(name, "B") {
        BTN_B
    } else if same(name, "START") {
        BTN_START
    } else if same(name, "SELECT") {
        BTN_SELECT
    } else {
        0
    }
}

/// The gamepad bits of buttons given by name, in capitals.
pub fn buttons_from_names(names: &[String]) -> (r: u8)
    ensures
        r == buttons_named(strings(names@)),
{
    let mut bits: u8 = 0;
    let mut i: usize = 0;
    assert(strings(names@).take(0) =~= Seq::empty());
    while i < names.len()
        invariant
            i <= names@.len(),
            bits == buttons_named(strings(names@).take(i as int)),
        decreases names@.len() - i,
    {
        let ghost all = strings(names@);
        assert(all.take(i + 1).drop_last() =~= all.take(i as int));
        assert(all.take(i + 1).last() == names@[i as int]@);
        bits = bits | button_bit(names[i].as_str());
        i += 1;
    }
    assert(strings(names@).take(names@.len() as int) =~= strings(names@));
    bits
}

/// The names in a list that commas separate, in capitals.
pub open spec fn listed_names(list: Seq<char>) -> Seq<Seq<char>> {
    split_on(list, ',').map_values(|p: Seq<char>| capitals(trimmed(p)))
}

fn names_in(list: &str) -> (r: Vec<String>)
    ensures
        strings(r@) == listed_names(list@),
{
    let parts = split_char(list, ',');
    let mut out: Vec<String> = Vec::new();
    let mut i: usize = 0;
    while i < parts.len()
        invariant
            i <= parts@.len(),
            word_views(parts@) == split_on(list@, ','),
            strings(out@) == listed_names(list@).take(i as int),
        decreases parts@.len() - i,
    {
        let part = trim(parts[i].as_slice());
        let name = to_capitals(part.as_str());
        proof {
            let all = listed_names(list@);
            assert(all[i as int] == capitals(trimmed(word_views(parts@)[i as int])));
            assert(strings(out@.push(name)) =~= strings(out@).push(name@));
            assert(all.take(i + 1) =~= all.take(i as int).push(all[i as int]));
        }
        out.push(name);
        i += 1;
    }
    assert(listed_names(list@).take(parts@.len() as int) =~= listed_names(list@));
    out
}

/// What has been read so far.
pub struct Draft {
    pub file: Option<Seq<char>>,
    pub frames: u64,
    pub out: Option<Seq<char>>,
    pub buttons: u8,
}

/// That something stands where it does not belong.
pub open spec fn unexpected(what: Seq<char>, it: Seq<char>) -> Seq<char> {
    "unexpected "@ + what + " '"@ + it + "'"@
}

/// What the arguments from position `i` on say, after `d`.
pub open spec fn read_from(args: Seq<Seq<char>>, i: int, d: Draft) -> Result<Draft, Seq<char>>
    decreases args.len() - i,
{
    if i < 0 || i >= args.len() {
        Ok(d)
    } else {
        let a = args[i];
        if a == "--frames"@ || a == "-n"@ {
            if i + 1 >= args.len() {
                Err("'"@ + a + "' needs a frame count"@)
            } else {
                match unsigned_value(args[i + 1], u64::MAX as int) {
                    Some(n) => read_from(args, i + 2, Draft { frames: n as u64, ..d }),
                    None => Err("'"@ + args[i + 1] + "' is not a frame count"@),
                }
            }
        } else if a == "-o"@ || a == "--out"@ {
            if i + 1 >= args.len() {
                Err("'"@ + a + "' needs a path"@)
            } else {
                read_from(args, i + 2, Draft { out: Some(args[i + 1]), ..d })
            }
        } else if a == "--buttons"@ {
            if i + 1 >= args.len() {
                Err("'--buttons' needs a list, e.g. A,RIGHT"@)
            } else {
                let bits = buttons_named(listed_names(args[i + 1]));
                if bits == 0 {
                    Err(
                        "'"@ + args[i + 1]
                            + "' named no buttons (expected LEFT, RIGHT, UP, DOWN, A, B, START, SELECT)"@,
                    )
                } else {
                    read_from(args, i + 2, Draft { buttons: bits, ..d })
                }
            }
        } else if a.len() > 0 && a[0] == '-' {
            Err(unexpected("option"@, a))
        } else if d.file is Some {
            Err(unexpected("argument"@, a))
        } else {
            read_from(args, i + 1, Draft { file: Some(a), ..d })
        }
    }
}

/// Arguments as read.
pub struct Read {
    pub file: Option<String>,
    pub frames: u64,
    pub out: Option<String>,
    pub buttons: u8,
}

impl View for Read {
    type V = Draft;

    open spec fn view(&self) -> Draft {
        Draft {
            file: maybe(self.file),
            frames: self.frames,
            out: maybe(self.out),
            buttons: self.buttons,
        }
    }
}

/// Say that something stands where it does not belong.
pub fn say_unexpected(what: &str, it: &str) -> (r: String)
    ensures
        r@ == unexpected(what@, it@),
{
    let head = concat3("unexpected ", what, " '");
    let r = concat3(head.as_str(), it, "'");
    assert(r@ =~= unexpected(what@, it@));
    r
}

/// Read the options, in any order; `frames` is how many there are by default.
pub fn read_options(args: &[String], frames: u64) -> (r: Result<Read, String>)
    ensures
        (match r {
            Ok(d) => Ok::<Draft, Seq<char>>(d@),
            Err(e) => Err::<Draft, Seq<char>>(e@),
        }) == read_from(
            strings(args@),
            0,
            Draft { file: None, frames, out: None, buttons: 0 },
        ),
{
    let ghost all = strings(args@);
    let mut d = Read { file: None, frames, out: None, buttons: 0 };
    let ghost goal = read_from(all, 0, d@);
    let mut i: usize = 0;
    while i < args.len()
        invariant
            i <= args@.len(),
            all == strings(args@),
            goal == read_from(all, 0, Draft { file: None, frames, out: None, buttons: 0 }),
            read_from(all, i as int, d@) == goal,
        decreases args@.len() - i,
    {
        let a = args[i].as_str();
        assert(all[i as int] == a@);
        if same(a, "--frames") || same(a, "-n") {
            if i + 1 >= args.len() {
                return Err(concat3("'", a, "' needs a frame count"));
            }
            let v = args[i + 1].as_str();
            assert(all[i + 1] == v@);
            let chars = chars_of(v);
            match read_unsigned(chars.as_slice(), u64::MAX) {
                Some(n) => {
                    d.frames = n;
                },
                None => {
                    return Err(concat3("'", v, "' is not a frame count"));
                },
            }
            i += 2;
        } else if same(a, "-o") || same(a, "--out") {
            if i + 1 >= args.len() {
                return Err(concat3("'", a, "' needs a path"));
            }
            assert(all[i + 1] == args@[i + 1]@);
            d.out = Some(args[i + 1].clone());
            i += 2;
        } else if same(a, "--buttons") {
            if i + 1 >= args.len() {
                return Err("'--buttons' needs a list, e.g. A,RIGHT".to_owned());
            }
            let v = args[i + 1].as_str();
            assert(all[i + 1] == v@);
            let names = names_in(v);
            let bits: u8 = buttons_from_names(names.as_slice());
            if bits == 0 {
                return Err(
                    concat3(
                        "'",
                        v,
                        "' named no buttons (expected LEFT, RIGHT, UP, DOWN, A, B, START, SELECT)",
                    ),
                );
            }
            d.buttons = bits;
            i += 2;
        } else if starts_with(a, '-') {
            return Err(say_unexpected("option", a));
        } else {
            if d.file.is_some() {
                return Err(say_unexpected("argument", a));
            }
            d.file = Some(args[i].clone());
            i += 1;
        }
    }
    Ok(d)
}

} // verus!
