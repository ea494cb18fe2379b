//! What a person who cannot be attached is told.

use super::session::{session_views, Session, SessionModel};
use crate::text::joined;
use vstd::prelude::*;
use vstd::string::StringExecFns;

verus! {

/// The command that attaches to each of the first `k` sessions.
pub open spec fn suggestions(sessions: Seq<SessionModel>, k: int) -> Seq<Seq<char>> {
    Seq::new(k as nat, |i: int| "  kessel attach "@ + sessions[i].root)
}

/// Which session did you mean?
pub open spec fn ambiguous(sessions: Seq<SessionModel>) -> Seq<char> {
    "several `kessel mcp` sessions are running; say which one:\n"@ + joined(
        suggestions(sessions, sessions.len() as int),
        "\n"@,
    )
}

/// The "which session did you mean?" error. Each line is a command the user can
/// actually run.
pub fn ambiguous_message(sessions: &[Session]) -> (r: String)
    ensures
        r@ == ambiguous(session_views(sessions@)),
{
    let ghost all = session_views(sessions@);
    let mut s = String::new();
    s.append("several `kessel mcp` sessions are running; say which one:\n");
    let ghost head = s@;
    let mut i: usize = 0;
    assert(suggestions(all, 0) =~= Seq::empty());
    assert(s@ =~= head + joined(suggestions(all, 0), "\n"@));
    while i < sessions.len()
        invariant
            i <= sessions@.len(),
            all == session_views(sessions@),
            s@ == head + joined(suggestions(all, i as int), "\n"@),
        decreases sessions@.len() - i,
    {
        proof {
            let now = suggestions(all, i as int);
            let next = suggestions(all, i + 1);
            assert(next.drop_last() =~= now);
            assert(next.last() == "  kessel attach "@ + sessions@[i as int].root@);
        }
        if i > 0 {
            s.append("\n");
        }
        s.append("  kessel attach ");
        s.append(sessions[i].root.as_str());
        i += 1;
        assert(s@ =~= head + joined(suggestions(all, i as int), "\n"@));
    }
    s
}

/// What to do where no server runs.
pub fn nothing_to_attach_to() -> (r: String)
    ensures
        r@
            == "no running `kessel mcp` to attach to.\n\nStart one (or let your agent start it), then run `kessel attach` again — or play a file on its own timeline with `kessel run <file.lua>`."@,
{
    "no running `kessel mcp` to attach to.\n\nStart one (or let your agent start it), then run `kessel attach` again — or play a file on its own timeline with `kessel run <file.lua>`.".to_owned()
}

} // verus!
