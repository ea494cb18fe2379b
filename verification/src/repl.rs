//! A conversation at a terminal: what each line means, and what is remembered.

use crate::text::{
    chars_of, concat2, concat3, decimal, maybe, push_decimal, read_unsigned, same, split_char,
    split_on, split_words, string_of, strings, trim, trimmed, unsigned_value, word_views, words,
};
use vstd::prelude::*;
use vstd::string::StringExecFns;

verus! {

/// Who said something.
#[derive(Debug, Clone, Copy, PartialEq, Eq, Structural)]
pub enum Role {
    System,
    User,
    Assistant,
}

/// One thing that was said.
#[derive(Debug, Clone, PartialEq, Eq)]
pub struct Message {
    pub role: Role,
    pub text: String,
}

/// What a [`Message`] says.
pub struct MessageModel {
    pub role: Role,
    pub text: Seq<char>,
}

impl View for Message {
    type V = MessageModel;

    open spec fn view(&self) -> MessageModel {
        MessageModel { role: self.role, text: self.text@ }
    }
}

/// What a list of messages says.
pub open spec fn message_views(v: Seq<Message>) -> Seq<MessageModel> {
    v.map_values(|m: Message| m@)
}

/// What a line of input means.
#[derive(Debug, Clone, PartialEq, Eq)]
pub enum Line {
    Nothing,
    Quit,
    /// Forget the conversation.
    Reset,
    Say { text: String },
}

/// What a [`Line`] says.
pub enum LineModel {
    Nothing,
    Quit,
    Reset,
    Say { text: Seq<char> },
}

impl View for Line {
    type V = LineModel;

    open spec fn view(&self) -> LineModel {
        match *self {
            Line::Nothing => LineModel::Nothing,
            Line::Quit => LineModel::Quit,
            Line::Reset => LineModel::Reset,
            Line::Say { text } => LineModel::Say { text: text@ },
        }
    }
}

/// What a line means.
pub open spec fn line_of(line: Seq<char>) -> LineModel {
    let t = trimmed(line);
    if t.len() == 0 {
        LineModel::Nothing
    } else if t == "/quit"@ || t == "/exit"@ {
        LineModel::Quit
    } else if t == "/reset"@ {
        LineModel::Reset
    } else {
        LineModel::Say { text: t }
    }
}

/// What a line of input means. White space around it counts for nothing.
pub fn read_line(line: &str) -> (r: Line)
    ensures
        r@ == line_of(line@),
{
    let chars = chars_of(line);
    let text = trim(chars.as_slice());
    let t = text.as_str();
    if t.is_empty() {
        Line::Nothing
    } else if same(t, "/quit") || same(t, "/exit") {
        Line::Quit
    } else if same(t, "/reset") {
        Line::Reset
    } else {
        Line::Say { text }
    }
}

/// What was said so far; the first message is the system's.
pub struct History {
    messages: Vec<Message>,
}

impl View for History {
    type V = Seq<MessageModel>;

    closed spec fn view(&self) -> Seq<MessageModel> {
        message_views(self.messages@)
    }
}

impl History {
    /// There is always a first message.
    pub open spec fn wf(&self) -> bool {
        self@.len() >= 1
    }

    pub fn new(prompt: String) -> (r: Self)
        ensures
            r.wf(),
            r@ == seq![MessageModel { role: Role::System, text: prompt@ }],
    {
        let ghost text = prompt@;
        let mut messages: Vec<Message> = Vec::new();
        messages.push(Message { role: Role::System, text: prompt });
        let r = History { messages };
        assert(r@ =~= seq![MessageModel { role: Role::System, text }]);
        r
    }

    /// Remember what someone said.
    pub fn push(&mut self, role: Role, text: String)
        requires
            old(self).wf(),
        ensures
            final(self).wf(),
            final(self)@ == old(self)@.push(MessageModel { role, text: text@ }),
    {
        let ghost t = text@;
        self.messages.push(Message { role, text });
        assert(self@ =~= old(self)@.push(MessageModel { role, text: t }));
    }

    /// Forget everything but the system's first message.
    pub fn reset(&mut self)
        requires
            old(self).wf(),
        ensures
            final(self).wf(),
            final(self)@ == old(self)@.take(1),
    {
        self.messages.truncate(1);
        assert(self@ =~= old(self)@.take(1));
    }

    /// Everything that was said, in order.
    pub fn messages(&self) -> (r: &Vec<Message>)
        ensures
            message_views(r@) == self@,
    {
        &self.messages
    }
}

/// Resetting a conversation gives back the one that was started, whatever was
/// said in between.
pub proof fn law_a_reset_forgets_all_but_the_prompt(
    start: Seq<MessageModel>,
    said: Seq<MessageModel>,
)
    requires
        start.len() == 1,
    ensures
        (start + said).take(1) == start,
{
    assert((start + said).take(1) =~= start);
}

/// What an answer cost.
#[derive(Debug, Clone, Copy, PartialEq, Eq, Structural)]
pub struct Usage {
    pub input_tokens: u64,
    pub output_tokens: u64,
    pub total_tokens: u64,
}

/// What came back for a question.
#[derive(Debug, Clone, PartialEq, Eq)]
pub struct Answer {
    pub text: String,
    /// What was thought on the way.
    pub reasoning: Option<String>,
    pub usage: Usage,
}

/// What came back, or why nothing did.
pub enum AnswerModel {
    Given { text: Seq<char>, reasoning: Option<Seq<char>>, usage: Usage },
    Failed { why: Seq<char> },
}

/// What a result says.
pub open spec fn answer_model(r: Result<Answer, String>) -> AnswerModel {
    match r {
        Ok(a) => AnswerModel::Given {
            text: a.text@,
            reasoning: maybe(a.reasoning),
            usage: a.usage,
        },
        Err(e) => AnswerModel::Failed { why: e@ },
    }
}

/// A line for the terminal.
#[derive(Debug, Clone, PartialEq, Eq)]
pub enum Print {
    /// To the standard output, where a program that reads the answers finds
    /// them.
    Out(String),
    /// Beside it, for a person.
    Note(String),
}

/// What a [`Print`] says.
pub enum PrintModel {
    Out(Seq<char>),
    Note(Seq<char>),
}

impl View for Print {
    type V = PrintModel;

    open spec fn view(&self) -> PrintModel {
        match *self {
            Print::Out(s) => PrintModel::Out(s@),
            Print::Note(s) => PrintModel::Note(s@),
        }
    }
}

/// What a list of lines says.
pub open spec fn print_views(v: Seq<Print>) -> Seq<PrintModel> {
    v.map_values(|p: Print| p@)
}

/// The line that tells what an answer cost.
pub open spec fn usage_line(u: Usage) -> Seq<char> {
    "\x1b[90m📊 tokens: in="@ + decimal(u.input_tokens as nat) + ", out="@ + decimal(
        u.output_tokens as nat,
    ) + ", total="@ + decimal(u.total_tokens as nat) + "\x1b[0m"@
}

/// What is shown of an answer: what was thought, the answer behind a prefix
/// that a program can look for, and what it cost where that is known. At a
/// terminal an empty line follows.
pub open spec fn shown(a: AnswerModel, interactive: bool) -> Seq<PrintModel> {
    let lines = match a {
        AnswerModel::Given { text, reasoning, usage } => {
            let thought = match reasoning {
                Some(t) => seq![PrintModel::Note("\x1b[90m💭 "@ + t + "\x1b[0m"@)],
                None => Seq::empty(),
            };
            let cost = if usage.total_tokens > 0 {
                seq![PrintModel::Note(usage_line(usage))]
            } else {
                Seq::empty()
            };
            thought.push(PrintModel::Out("Assistant: "@ + text)) + cost
        },
        AnswerModel::Failed { why } => seq![PrintModel::Note("Error: "@ + why)],
    };
    if interactive {
        lines.push(PrintModel::Out(Seq::empty()))
    } else {
        lines
    }
}

fn usage_text(u: &Usage) -> (r: String)
    ensures
        r@ == usage_line(*u),
{
    let mut s = "\x1b[90m📊 tokens: in=".to_owned();
    push_decimal(&mut s, u.input_tokens);
    s.append(", out=");
    push_decimal(&mut s, u.output_tokens);
    s.append(", total=");
    push_decimal(&mut s, u.total_tokens);
    s.append("\x1b[0m");
    s
}

/// What to do about a line of input.
#[derive(Debug, Clone, PartialEq, Eq)]
pub enum Step {
    /// Wait for the next line.
    Skip,
    /// End the conversation.
    Stop,
    /// Tell the person, then wait for the next line.
    Tell(String),
    /// Put the conversation so far to whoever answers.
    Ask,
}

/// What is remembered after a line.
pub open spec fn after_line(said: Seq<MessageModel>, line: Seq<char>) -> Seq<MessageModel> {
    match line_of(line) {
        LineModel::Nothing | LineModel::Quit => said,
        LineModel::Reset => said.take(1),
        LineModel::Say { text } => said.push(MessageModel { role: Role::User, text }),
    }
}

/// What is remembered after an answer: nothing of one that failed.
pub open spec fn after_answer(said: Seq<MessageModel>, a: AnswerModel) -> Seq<MessageModel> {
    match a {
        AnswerModel::Given { text, .. } => said.push(
            MessageModel { role: Role::Assistant, text },
        ),
        AnswerModel::Failed { .. } => said,
    }
}

/// A conversation: lines go in, and answers.
pub struct Repl {
    history: History,
    interactive: bool,
}

impl Repl {
    /// What was said so far.
    pub closed spec fn said(&self) -> Seq<MessageModel> {
        self.history@
    }

    /// Whether a person sits at a terminal.
    pub closed spec fn at_terminal(&self) -> bool {
        self.interactive
    }

    /// There is always a first message.
    pub open spec fn wf(&self) -> bool {
        self.said().len() >= 1
    }

    pub fn new(prompt: String, interactive: bool) -> (r: Self)
        ensures
            r.wf(),
            r.said() == seq![MessageModel { role: Role::System, text: prompt@ }],
            r.at_terminal() == interactive,
    {
        Repl { history: History::new(prompt), interactive }
    }

    /// Everything that was said, in order.
    pub fn messages(&self) -> (r: &Vec<Message>)
        ensures
            message_views(r@) == self.said(),
    {
        self.history.messages()
    }

    /// Take a line of input.
    pub fn on_line(&mut self, line: &str) -> (r: Step)
        requires
            old(self).wf(),
        ensures
            final(self).wf(),
            final(self).said() == after_line(old(self).said(), line@),
            final(self).at_terminal() == old(self).at_terminal(),
            match line_of(line@) {
                LineModel::Nothing => r is Skip,
                LineModel::Quit => r is Stop,
                LineModel::Reset => r matches Step::Tell(s) && s@ == "Conversation reset."@,
                LineModel::Say { .. } => r is Ask,
            },
    {
        match read_line(line) {
            Line::Nothing => Step::Skip,
            Line::Quit => Step::Stop,
            Line::Reset => {
                self.history.reset();
                Step::Tell("Conversation reset.".to_owned())
            },
            Line::Say { text } => {
                self.history.push(Role::User, text);
                Step::Ask
            },
        }
    }

    /// Take an answer, and say what to show of it.
    pub fn on_answer(&mut self, answer: Result<Answer, String>) -> (r: Vec<Print>)
        requires
            old(self).wf(),
        ensures
            final(self).wf(),
            final(self).said() == after_answer(old(self).said(), answer_model(answer)),
            final(self).at_terminal() == old(self).at_terminal(),
            print_views(r@) == shown(answer_model(answer), old(self).at_terminal()),
    {
        let ghost model = answer_model(answer);
        let mut out: Vec<Print> = Vec::new();
        match answer {
            Ok(a) => {
                if let Some(t) = &a.reasoning {
                    out.push(Print::Note(concat3("\x1b[90m💭 ", t.as_str(), "\x1b[0m")));
                }
                out.push(Print::Out(concat2("Assistant: ", a.text.as_str())));
                if a.usage.total_tokens > 0 {
                    out.push(Print::Note(usage_text(&a.usage)));
                }
                self.history.push(Role::Assistant, a.text);
            },
            Err(e) => {
                out.push(Print::Note(concat2("Error: ", e.as_str())));
            },
        }
        if self.interactive {
            out.push(Print::Out(String::new()));
        }
        assert(print_views(out@) =~= shown(model, old(self).at_terminal()));
        out
    }
}

/// A question that is answered adds itself and its answer, in that order, and
/// nothing that was said before is lost; one that is not stays without an
/// answer.
pub proof fn law_a_turn_adds_a_question_and_its_answer(
    said: Seq<MessageModel>,
    line: Seq<char>,
    a: AnswerModel,
)
    requires
        line_of(line) is Say,
    ensures
        after_answer(after_line(said, line), a).take(said.len() as int) == said,
        after_answer(after_line(said, line), a)[said.len() as int] == (MessageModel {
            role: Role::User,
            text: trimmed(line),
        }),
        a is Failed ==> after_answer(after_line(said, line), a).len() == said.len() + 1,
        a is Given ==> {
            &&& after_answer(after_line(said, line), a).len() == said.len() + 2
            &&& after_answer(after_line(said, line), a).last() == (MessageModel {
                role: Role::Assistant,
                text: a->text,
            })
        },
{
    assert(after_answer(after_line(said, line), a).take(said.len() as int) =~= said);
}

/// Whatever is typed and whatever is answered, the system's first message stays
/// the first.
pub proof fn law_the_prompt_stays_first(said: Seq<MessageModel>, line: Seq<char>, a: AnswerModel)
    requires
        said.len() >= 1,
    ensures
        after_line(said, line).len() >= 1,
        after_line(said, line)[0] == said[0],
        after_answer(said, a).len() >= 1,
        after_answer(said, a)[0] == said[0],
{
}

/// A program to start, and its arguments.
pub struct ServerSpec {
    pub command: String,
    pub args: Vec<String>,
}

/// What a [`ServerSpec`] says: the command first.
pub open spec fn spec_words(s: ServerSpec) -> Seq<Seq<char>> {
    seq![s.command@] + strings(s.args@)
}

/// What the first `k` entries say; an empty entry says nothing.
pub open spec fn specs_in(entries: Seq<Seq<char>>, k: int) -> Seq<Seq<Seq<char>>>
    decreases k,
{
    if k <= 0 {
        Seq::empty()
    } else {
        let w = words(trimmed(entries[k - 1]));
        if w.len() > 0 {
            specs_in(entries, k - 1).push(w)
        } else {
            specs_in(entries, k - 1)
        }
    }
}

/// The programs that a list names: commas separate them, and white space a
/// program from its arguments.
pub fn parse_servers(list: &str) -> (r: Vec<ServerSpec>)
    ensures
        r@.map_values(|s: ServerSpec| spec_words(s)) == specs_in(
            split_on(list@, ','),
            split_on(list@, ',').len() as int,
        ),
{
    let entries = split_char(list, ',');
    let ghost all = split_on(list@, ',');
    let mut out: Vec<ServerSpec> = Vec::new();
    let ghost f = |s: ServerSpec| spec_words(s);
    let mut k: usize = 0;
    assert(out@.map_values(f) =~= specs_in(all, 0));
    while k < entries.len()
        invariant
            k <= entries@.len(),
            all == split_on(list@, ','),
            word_views(entries@) == all,
            f == (|s: ServerSpec| spec_words(s)),
            out@.map_values(f) == specs_in(all, k as int),
        decreases entries@.len() - k,
    {
        assert(all[k as int] == entries@[k as int]@);
        let entry = trim(entries[k].as_slice());
        let parts = split_words(entry.as_str());
        if parts.len() > 0 {
            let command = string_of(parts[0].as_slice());
            let mut args: Vec<String> = Vec::new();
            let mut j: usize = 1;
            assert(strings(args@) =~= word_views(parts@).subrange(1, 1));
            while j < parts.len()
                invariant
                    1 <= j <= parts@.len(),
                    strings(args@) == word_views(parts@).subrange(1, j as int),
                decreases parts@.len() - j,
            {
                let a = string_of(parts[j].as_slice());
                assert(strings(args@.push(a)) =~= strings(args@).push(a@));
                args.push(a);
                j += 1;
                assert(strings(args@) =~= word_views(parts@).subrange(1, j as int));
            }
            let s = ServerSpec { command, args };
            proof {
                assert(spec_words(s) =~= word_views(parts@));
                assert(out@.push(s).map_values(f) =~= out@.map_values(f).push(spec_words(s)));
            }
            out.push(s);
        }
        k += 1;
    }
    out
}

/// Who answers, by what is configured.
pub fn provider_name(has_model: bool, has_key: bool) -> (r: &'static str)
    ensures
        r@ == (if has_model {
            "Local (FFI)"@
        } else if has_key {
            "OpenAI"@
        } else {
            "Unknown"@
        }),
{
    if has_model {
        "Local (FFI)"
    } else if has_key {
        "OpenAI"
    } else {
        "Unknown"
    }
}

/// A number from a variable, or the default where there is none or it is no
/// number that fits.
pub fn number_or(value: Option<String>, default: u32) -> (r: u32)
    ensures
        r == (match maybe(value) {
            Some(v) => match unsigned_value(v, u32::MAX as int) {
                Some(n) => n,
                None => default as int,
            },
            None => default as int,
        }),
{
    match value {
        Some(v) => {
            let chars = chars_of(v.as_str());
            match read_unsigned(chars.as_slice(), u32::MAX as u64) {
                Some(n) => n as u32,
                None => default,
            }
        },
        None => default,
    }
}

/// A variable's value, or the default where it is not set.
pub fn text_or(value: Option<String>, default: &str) -> (r: String)
    ensures
        r@ == (match maybe(value) {
            Some(v) => v,
            None => default@,
        }),
{
    match value {
        Some(v) => v,
        None => default.to_owned(),
    }
}

} // verus!
