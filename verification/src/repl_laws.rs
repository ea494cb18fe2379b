//! What a conversation keeps, what it shows, and which servers it starts.

use crate::repl::{
    after_answer, after_line, line_of, shown, specs_in, usage_line, AnswerModel, LineModel,
    MessageModel, PrintModel, Role, Usage,
};
use crate::text::{decimal, split_on, trimmed, words};
use crate::text_laws::{
    law_a_text_is_cut_at_the_character, law_a_text_without_the_character_is_whole,
};
use vstd::prelude::*;

verus! {

/// A line is a command where it is one but for the white space around it;
/// nothing but white space is nothing, and anything else is said as it is
/// without it.
pub proof fn law_a_line_is_a_command_or_is_said(line: Seq<char>)
    ensures
        trimmed(line).len() == 0 <==> line_of(line) == LineModel::Nothing,
        trimmed(line) == "/quit"@ ==> line_of(line) == LineModel::Quit,
        trimmed(line) == "/exit"@ ==> line_of(line) == LineModel::Quit,
        trimmed(line) == "/reset"@ ==> line_of(line) == LineModel::Reset,
        trimmed(line).len() > 0 && trimmed(line) != "/quit"@ && trimmed(line) != "/exit"@
            && trimmed(line) != "/reset"@ ==> line_of(line) == (LineModel::Say {
            text: trimmed(line),
        }),
{
    reveal_strlit("/quit");
    reveal_strlit("/exit");
    reveal_strlit("/reset");
    assert("/quit"@.len() == 5 && "/exit"@.len() == 5 && "/reset"@.len() == 6);
}

/// A reset keeps the prompt alone; a line that says nothing, or ends the
/// conversation, adds nothing; anything else is the user's.
pub proof fn law_a_line_adds_what_it_says(said: Seq<MessageModel>, line: Seq<char>)
    requires
        said.len() >= 1,
    ensures
        line_of(line) == LineModel::Reset ==> after_line(said, line) == seq![said[0]],
        line_of(line) == LineModel::Nothing || line_of(line) == LineModel::Quit ==> after_line(
            said,
            line,
        ) == said,
        line_of(line) is Say ==> after_line(said, line) == said.push(
            MessageModel { role: Role::User, text: trimmed(line) },
        ),
{
    assert(said.take(1) =~= seq![said[0]]);
}

/// An answer is shown after the thought that led to it, where there is one, and
/// before what it cost, where it cost something. Only the answer itself is
/// output; the rest are notes.
pub proof fn law_an_answer_is_shown_between_thought_and_cost(
    text: Seq<char>,
    thought: Seq<char>,
    usage: Usage,
)
    ensures
        ({
            let said = PrintModel::Out("Assistant: "@ + text);
            let why = PrintModel::Note("\x1b[90m💭 "@ + thought + "\x1b[0m"@);
            let cost = PrintModel::Note(usage_line(usage));
            let plain = AnswerModel::Given { text, reasoning: None, usage };
            let with = AnswerModel::Given { text, reasoning: Some(thought), usage };
            &&& usage.total_tokens > 0 ==> shown(with, false) == seq![why, said, cost]
            &&& usage.total_tokens > 0 ==> shown(plain, false) == seq![said, cost]
            &&& usage.total_tokens == 0 ==> shown(with, false) == seq![why, said]
            &&& usage.total_tokens == 0 ==> shown(plain, false) == seq![said]
        }),
{
    let said = PrintModel::Out("Assistant: "@ + text);
    let why = PrintModel::Note("\x1b[90m💭 "@ + thought + "\x1b[0m"@);
    let cost = PrintModel::Note(usage_line(usage));
    let plain = AnswerModel::Given { text, reasoning: None, usage };
    let with = AnswerModel::Given { text, reasoning: Some(thought), usage };
    if usage.total_tokens > 0 {
        assert(shown(with, false) =~= seq![why, said, cost]);
        assert(shown(plain, false) =~= seq![said, cost]);
    } else {
        assert(shown(with, false) =~= seq![why, said]);
        assert(shown(plain, false) =~= seq![said]);
    }
}

/// What failed is noted, with why; at a terminal a blank line follows whatever
/// is shown.
pub proof fn law_a_failure_is_noted(why: Seq<char>, a: AnswerModel)
    ensures
        shown(AnswerModel::Failed { why }, false) == seq![PrintModel::Note("Error: "@ + why)],
        shown(a, true) == shown(a, false).push(PrintModel::Out(Seq::empty())),
{
}

/// What an answer cost is told in tokens: those read, those written, and all.
pub proof fn law_the_cost_is_told_in_tokens(u: Usage)
    ensures
        usage_line(u) == "\x1b[90m📊 tokens: in="@ + decimal(u.input_tokens as nat) + ", out="@
            + decimal(u.output_tokens as nat) + ", total="@ + decimal(u.total_tokens as nat)
            + "\x1b[0m"@,
{
}

/// An answer that was given is the assistant's; one that failed leaves the
/// conversation as it was.
pub proof fn law_an_answer_is_the_assistants(
    said: Seq<MessageModel>,
    text: Seq<char>,
    thought: Option<Seq<char>>,
    usage: Usage,
    why: Seq<char>,
)
    ensures
        after_answer(said, AnswerModel::Given { text, reasoning: thought, usage }) == said.push(
            MessageModel { role: Role::Assistant, text },
        ),
        after_answer(said, AnswerModel::Failed { why }) == said,
{
}

/// The servers that a list names.
pub open spec fn servers(list: Seq<char>) -> Seq<Seq<Seq<char>>> {
    specs_in(split_on(list, ','), split_on(list, ',').len() as int)
}

/// Servers are parted by commas: those of two lists with a comma between are
/// those of the one and then those of the other. An entry without a comma is one
/// server, its command and arguments its words, or none where it has no word.
pub proof fn law_servers_are_parted_by_commas(a: Seq<char>, b: Seq<char>)
    ensures
        servers(a.push(',') + b) == servers(a) + servers(b),
        !a.contains(',') && words(trimmed(a)).len() > 0 ==> servers(a) == seq![words(trimmed(a))],
        !a.contains(',') && words(trimmed(a)).len() == 0 ==> servers(a).len() == 0,
{
    law_a_text_is_cut_at_the_character(a, ',', b);
    let (x, y) = (split_on(a, ','), split_on(b, ','));
    lemma_specs(x, y, y.len() as int);
    if !a.contains(',') {
        law_a_text_without_the_character_is_whole(a, ',');
        let one = seq![a];
        assert(specs_in(one, 0).len() == 0);
        assert(words(trimmed(a)).len() > 0 ==> specs_in(one, 1) =~= seq![words(trimmed(a))]);
    }
}

proof fn lemma_specs(a: Seq<Seq<char>>, b: Seq<Seq<char>>, n: int)
    requires
        0 <= n <= b.len(),
    ensures
        specs_in(a + b, a.len() + n) == specs_in(a, a.len() as int) + specs_in(b, n),
    decreases n,
{
    if n > 0 {
        lemma_specs(a, b, n - 1);
        assert((a + b)[a.len() + n - 1] == b[n - 1]);
        assert(specs_in(a + b, a.len() + n) =~= specs_in(a, a.len() as int) + specs_in(b, n));
    } else {
        lemma_same_specs(a, b, a.len() as int);
        assert(specs_in(a, a.len() as int) + specs_in(b, 0) =~= specs_in(a, a.len() as int));
    }
}

proof fn lemma_same_specs(a: Seq<Seq<char>>, b: Seq<Seq<char>>, n: int)
    requires
        0 <= n <= a.len(),
    ensures
        specs_in(a + b, n) == specs_in(a, n),
    decreases n,
{
    if n > 0 {
        lemma_same_specs(a, b, n - 1);
        assert((a + b)[n - 1] == a[n - 1]);
    }
}

} // verus!
