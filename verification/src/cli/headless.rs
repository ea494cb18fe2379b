//! Running a game without a window: what it is called, why it was refused, and
//! when to stop.

use super::paths::{file_name, file_name_of};
use crate::text::{concat2, concat3, decimal, maybe, push_decimal, strings};
use vstd::prelude::*;
use vstd::string::StringExecFns;

verus! {

/// What a game in `file` is called: the file's name, or `fallback` where the
/// path has none.
pub fn game_name(file: &str, fallback: &str, windows: bool) -> (r: String)
    ensures
        r@ == (match file_name(file@, windows) {
            Some(n) => n,
            None => fallback@,
        }),
{
    match file_name_of(file, windows) {
        Some(n) => n,
        None => fallback.to_owned(),
    }
}

/// The diagnostics, each on an indented line of its own.
pub open spec fn listed(diagnostics: Seq<Seq<char>>) -> Seq<char>
    decreases diagnostics.len(),
{
    if diagnostics.len() == 0 {
        Seq::empty()
    } else {
        listed(diagnostics.drop_last()) + "  "@ + diagnostics.last() + "\n"@
    }
}

/// What to say of a game that does not compile: there is nothing to run, and
/// the diagnostics are the useful output.
pub fn did_not_compile(file: &str, diagnostics: &[String]) -> (r: String)
    ensures
        r@ == file@ + " did not compile:\n"@ + listed(strings(diagnostics@)),
{
    let ghost all = strings(diagnostics@);
    let mut s = concat2(file, " did not compile:\n");
    let mut i: usize = 0;
    assert(all.take(0) =~= Seq::empty());
    assert(s@ =~= file@ + " did not compile:\n"@ + listed(all.take(0)));
    while i < diagnostics.len()
        invariant
            i <= diagnostics@.len(),
            all == strings(diagnostics@),
            s@ == file@ + " did not compile:\n"@ + listed(all.take(i as int)),
        decreases diagnostics@.len() - i,
    {
        s.append("  ");
        s.append(diagnostics[i].as_str());
        s.append("\n");
        proof {
            let next = all.take(i + 1);
            assert(next.drop_last() =~= all.take(i as int));
            assert(next.last() == diagnostics@[i as int]@);
            assert(s@ =~= file@ + " did not compile:\n"@ + listed(next));
        }
        i += 1;
    }
    assert(all.take(all.len() as int) =~= all);
    s
}

/// What a frame of a game ended in.
pub struct Seen {
    /// What went wrong, as it is to be told.
    pub fault: Option<String>,
    pub halted: bool,
}

/// What a [`Seen`] says.
pub struct SeenModel {
    pub fault: Option<Seq<char>>,
    pub halted: bool,
}

impl View for Seen {
    type V = SeenModel;

    open spec fn view(&self) -> SeenModel {
        SeenModel { fault: maybe(self.fault), halted: self.halted }
    }
}

impl SeenModel {
    /// Whether there is no point in going on.
    pub open spec fn stops(self) -> bool {
        self.fault is Some || self.halted
    }

    /// What is told where this ended the `n`th frame.
    pub open spec fn told(self, n: nat) -> Option<Seq<char>> {
        match self.fault {
            Some(f) => Some("faulted at frame "@ + decimal(n) + ": "@ + f),
            None => if self.halted {
                Some("halted at frame "@ + decimal(n))
            } else {
                None
            },
        }
    }
}

/// How far a run has come.
pub struct RunModel {
    pub ran: nat,
    pub limit: nat,
    pub stopped: Option<Seq<char>>,
}

impl RunModel {
    /// Whether another frame is to be run.
    pub open spec fn goes_on(self) -> bool {
        self.stopped is None && self.ran < self.limit
    }

    /// The run after another frame.
    pub open spec fn after(self, seen: SeenModel) -> RunModel {
        RunModel {
            ran: self.ran + 1,
            limit: self.limit,
            stopped: seen.told(self.ran + 1),
        }
    }
}

/// A run of a number of frames that ends at the first fault or halt: the
/// picture at the moment it broke is the one worth having, and the frames after
/// a fault are the same frame over and over.
pub struct Run {
    ran: u64,
    limit: u64,
    stopped: Option<String>,
}

impl View for Run {
    type V = RunModel;

    closed spec fn view(&self) -> RunModel {
        RunModel {
            ran: self.ran as nat,
            limit: self.limit as nat,
            stopped: maybe(self.stopped),
        }
    }
}

impl Run {
    pub fn new(frames: u64) -> (r: Self)
        ensures
            r@ == (RunModel { ran: 0, limit: frames as nat, stopped: None }),
    {
        Run { ran: 0, limit: frames, stopped: None }
    }

    /// Whether another frame is to be run.
    pub fn goes_on(&self) -> (r: bool)
        ensures
            r == self@.goes_on(),
    {
        match &self.stopped {
            Some(_) => false,
            None => self.ran < self.limit,
        }
    }

    /// Take in what a frame ended in.
    pub fn on_frame(&mut self, seen: Seen)
        requires
            old(self)@.goes_on(),
        ensures
            final(self)@ == old(self)@.after(seen@),
    {
        self.ran += 1;
        match seen.fault {
            Some(f) => {
                let mut s = "faulted at frame ".to_owned();
                push_decimal(&mut s, self.ran);
                s.append(": ");
                s.append(f.as_str());
                self.stopped = Some(s);
            },
            None => if seen.halted {
                let mut s = "halted at frame ".to_owned();
                push_decimal(&mut s, self.ran);
                self.stopped = Some(s);
            },
        }
    }

    /// What to say when a picture of the last frame was written.
    pub fn report(&self, out: &str, w: u32, h: u32, bytes: u64) -> (r: Vec<String>)
        ensures
            strings(r@) == (match self@.stopped {
                Some(why) => seq![why],
                None => Seq::empty(),
            }).push(
                "wrote "@ + out@ + " — "@ + decimal(w as nat) + "x"@ + decimal(h as nat)
                    + ", frame "@ + decimal(self@.ran) + " ("@ + decimal(bytes as nat) + " bytes)"@,
            ),
    {
        let mut lines: Vec<String> = Vec::new();
        if let Some(why) = &self.stopped {
            lines.push(why.clone());
        }
        let mut s = concat3("wrote ", out, " — ");
        push_decimal(&mut s, w as u64);
        s.append("x");
        push_decimal(&mut s, h as u64);
        s.append(", frame ");
        push_decimal(&mut s, self.ran);
        s.append(" (");
        push_decimal(&mut s, bytes);
        s.append(" bytes)");
        let ghost last = s@;
        lines.push(s);
        proof {
            assert(strings(lines@) =~= (match self@.stopped {
                Some(why) => seq![why],
                None => Seq::empty(),
            }).push(last));
        }
        lines
    }
}

/// A run that is offered what the first `k` frames end in, for as long as it
/// goes on.
pub open spec fn run_over(start: RunModel, frames: Seq<SeenModel>, k: int) -> RunModel
    decreases k,
{
    if k <= 0 {
        start
    } else {
        let before = run_over(start, frames, k - 1);
        if before.goes_on() {
            before.after(frames[k - 1])
        } else {
            before
        }
    }
}

/// A run goes on to its limit while nothing stops it.
pub proof fn law_nothing_stops_a_healthy_run(limit: nat, frames: Seq<SeenModel>, k: int)
    requires
        0 <= k <= frames.len(),
        forall|i: int| 0 <= i < k && i < limit ==> !(#[trigger] frames[i]).stops(),
    ensures
        run_over(RunModel { ran: 0, limit, stopped: None }, frames, k) == (RunModel {
            ran: if k < limit {
                k as nat
            } else {
                limit
            },
            limit,
            stopped: None,
        }),
    decreases k,
{
    if k > 0 {
        law_nothing_stops_a_healthy_run(limit, frames, k - 1);
    }
}

/// The first frame that ends in a fault or a halt is the last one run, and the
/// run says so, whatever the frames after it would have ended in.
pub proof fn law_the_first_stop_ends_a_run(
    limit: nat,
    frames: Seq<SeenModel>,
    first: int,
    k: int,
)
    requires
        0 <= first < k <= frames.len(),
        first < limit,
        frames[first].stops(),
        forall|i: int| 0 <= i < first ==> !(#[trigger] frames[i]).stops(),
    ensures
        run_over(RunModel { ran: 0, limit, stopped: None }, frames, k) == (RunModel {
            ran: (first + 1) as nat,
            limit,
            stopped: frames[first].told((first + 1) as nat),
        }),
        frames[first].told((first + 1) as nat) is Some,
    decreases k,
{
    if k == first + 1 {
        law_nothing_stops_a_healthy_run(limit, frames, first);
    } else {
        law_the_first_stop_ends_a_run(limit, frames, first, k - 1);
    }
}

} // verus!
