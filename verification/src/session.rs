//! The session: what to do next, given what has just happened.
//!
//! The caller owns the device.  It performs each action that `step` hands
//! out and comes back with the event that the action ended in.

use crate::commands::addresses;
use crate::commands::date_outcome;
use crate::commands::feeds_outcome;
use crate::commands::shell_outcome;
use crate::commands::text_result;
use crate::commands::date_line;
use crate::commands::BotCommand;
use crate::commands::DateCommand;
use crate::commands::ExecutionError;
use crate::commands::FeedsCommand;
use crate::commands::ShellCommand;
use crate::config::Feed;
use crate::feed::Fetched;
use crate::frame::FrameModel;
use crate::frame::bases_within;
use crate::frame::chunk_count;
use crate::frame::encode;
use crate::frame::frames;
use crate::frame::lemma_frames_well_formed;
use crate::frame::lemma_single_chunk;
use crate::parser::blank;
use crate::parser::parse_command;
use crate::parser::resolved;
use crate::parser::tokens;
use crate::parser::Commands;
use crate::parser::CommandsModel;
use crate::parser::ParseError;
use crate::wire::assemble;
use crate::wire::lemma_encoded_is_accepted;
use crate::wire::object_file_text;
use crate::wire::AssemblyError;
use crate::wire::MAX_BASE;
use vstd::prelude::*;
use vstd::string::StringExecFns;
use vstd::utf8::encode_utf8;
use vstd::utf8::is_ascii_chars;
use vstd::utf8::is_ascii_chars_concat;
use vstd::utf8::is_ascii_chars_encode_utf8;

verus! {

/// How long the device is given to settle before a response is written to
/// it, in milliseconds.
pub const SETTLE_MILLIS: u64 = 1000;

/// Why a session has ended.
#[derive(Debug, PartialEq, Eq, Clone, Copy, Structural)]
pub enum Fault {
    /// The response could not be written.
    Write,
    /// An event came that the session was not waiting for.
    Unexpected,
}

/// Where a session stands between two steps.  A result is encoded within
/// the step that ends its dispatch, so no step ends in between.
#[derive(Debug, PartialEq, Eq)]
pub enum Phase {
    /// Waiting for a line from the device.
    AwaitingLine,
    /// Waiting for what the command needs from outside.
    Dispatching(Commands),
    /// Waiting for the response to be written.
    Transmitting,
    /// Ended, for good.
    Faulted,
}

/// What has happened.
#[derive(Debug, PartialEq, Eq)]
pub enum Event {
    /// A line was read.
    Line(String),
    /// No line came in time.
    ReadTimedOut,
    /// Reading failed otherwise.
    ReadFailed,
    /// The clock was read: it showed this second, counted from the start
    /// of 1970.
    Clock(i64),
    /// The program was run and wrote this to its standard output; or it
    /// could not be launched.
    Launched(Option<Vec<u8>>),
    /// The addresses were asked for.  For each, in order: what came of it.
    Fetched(Vec<Fetched>),
    /// The response was written.
    Written,
    /// Writing the response failed.
    WriteFailed,
}

/// What to do next.
#[derive(Debug, PartialEq, Eq)]
pub enum Action {
    /// Read a line.  Ends in `Line`, `ReadTimedOut` or `ReadFailed`.
    ReadLine,
    /// Report that reading failed, then read a line.
    ReportReadFailure,
    /// Report that the result has no object file, then read a line.
    ReportAssemblyFailure(AssemblyError),
    /// Read the clock.  Ends in `Clock`.
    ReadClock,
    /// Run the program with the arguments.  Ends in `Launched`.
    Launch { program: String, arguments: Vec<String> },
    /// Fetch each address and read each body as a feed.  Ends in `Fetched`,
    /// with as many entries as there are addresses.
    Fetch { urls: Vec<String> },
    /// Let the device settle, then write the text.  Ends in `Written` or
    /// `WriteFailed`.
    Transmit { text: String },
    /// Give up the request: the line read was none.  The error goes to
    /// whoever runs the session; the session itself can go on with a line.
    Fail(ParseError),
    /// Stop.
    Stop(Fault),
}

/// Where a session stands, as mathematics.
pub enum PhaseModel {
    AwaitingLine,
    Dispatching(CommandsModel),
    Transmitting,
    Faulted,
}

/// What to do next, as mathematics.
pub enum ActionModel {
    ReadLine,
    ReportReadFailure,
    ReportAssemblyFailure(AssemblyError),
    ReadClock,
    Launch { program: Seq<char>, arguments: Seq<Seq<char>> },
    Fetch { urls: Seq<Seq<char>> },
    Transmit { text: Seq<char> },
    Fail(ParseError),
    Stop(Fault),
}

impl View for Phase {
    type V = PhaseModel;

    open spec fn view(&self) -> PhaseModel {
        match *self {
            Phase::AwaitingLine => PhaseModel::AwaitingLine,
            Phase::Dispatching(command) => PhaseModel::Dispatching(command@),
            Phase::Transmitting => PhaseModel::Transmitting,
            Phase::Faulted => PhaseModel::Faulted,
        }
    }
}

impl View for Action {
    type V = ActionModel;

    open spec fn view(&self) -> ActionModel {
        match *self {
            Action::ReadLine => ActionModel::ReadLine,
            Action::ReportReadFailure => ActionModel::ReportReadFailure,
            Action::ReportAssemblyFailure(e) => ActionModel::ReportAssemblyFailure(e),
            Action::ReadClock => ActionModel::ReadClock,
            Action::Launch { program, arguments } => ActionModel::Launch {
                program: program@,
                arguments: arguments.deep_view(),
            },
            Action::Fetch { urls } => ActionModel::Fetch { urls: urls.deep_view() },
            Action::Transmit { text } => ActionModel::Transmit { text: text@ },
            Action::Fail(e) => ActionModel::Fail(e),
            Action::Stop(fault) => ActionModel::Stop(fault),
        }
    }
}

/// The response to a result: the object file of the records that the
/// result and a line end are encoded as.  A result so long that an address
/// base outgrows the wire format has none.
pub open spec fn reply(result: Seq<char>) -> Result<Seq<char>, AssemblyError> {
    let records = frames(encode_utf8(result + "\r\n"@));
    if bases_within(records, MAX_BASE as nat) {
        Ok(object_file_text(records))
    } else {
        Err(AssemblyError::AddressOutOfRange)
    }
}

/// Gives the response to `result`.
pub fn respond(result: &str) -> (r: Result<String, AssemblyError>)
    ensures
        match r {
            Ok(text) => reply(result@) == Ok::<Seq<char>, AssemblyError>(text@),
            Err(e) => reply(result@) == Err::<Seq<char>, AssemblyError>(e),
        },
{
    let mut line = result.to_owned();
    line.append("\r\n");
    let records = encode(line.as_str());
    proof {
        lemma_encoded_is_accepted(encode_utf8(line@));
    }
    assemble(&records)
}

/// What is sent for the outcome of a command: its result, or, where it
/// failed, a line that says so.
pub open spec fn answer(outcome: Result<Seq<char>, ExecutionError>) -> Seq<char> {
    match outcome {
        Ok(result) => result,
        Err(e) => e.message_text(),
    }
}

/// What follows the outcome of a command.  Its answer is sent as a response
/// or, where it has none, given up with a report.
pub open spec fn conclusion(outcome: Result<Seq<char>, ExecutionError>) -> (
    PhaseModel,
    ActionModel,
) {
    match reply(answer(outcome)) {
        Ok(text) => (PhaseModel::Transmitting, ActionModel::Transmit { text }),
        Err(e) => (PhaseModel::AwaitingLine, ActionModel::ReportAssemblyFailure(e)),
    }
}

/// Decides what follows the outcome of a command.
pub fn conclude(outcome: Result<String, ExecutionError>) -> (next: (Phase, Action))
    ensures
        (next.0@, next.1@) == conclusion(text_result(outcome)),
{
    let answer = match outcome {
        Ok(result) => result,
        Err(e) => e.message(),
    };
    match respond(answer.as_str()) {
        Ok(text) => (Phase::Transmitting, Action::Transmit { text }),
        Err(e) => (Phase::AwaitingLine, Action::ReportAssemblyFailure(e)),
    }
}

/// What follows a line.
pub open spec fn dispatch(line: Seq<char>, feeds: Option<Vec<Feed>>) -> (PhaseModel, ActionModel) {
    if blank(line) {
        (PhaseModel::AwaitingLine, ActionModel::Fail(ParseError::Empty))
    } else {
        match resolved(tokens(line)[0], tokens(line).skip(1)) {
            CommandsModel::Date => (
                PhaseModel::Dispatching(CommandsModel::Date),
                ActionModel::ReadClock,
            ),
            CommandsModel::Feeds => match feeds {
                None => conclusion(Err(ExecutionError::NoFeeds)),
                Some(list) => (
                    PhaseModel::Dispatching(CommandsModel::Feeds),
                    ActionModel::Fetch { urls: addresses(list@) },
                ),
            },
            CommandsModel::Shell(name, args) => (
                PhaseModel::Dispatching(CommandsModel::Shell(name, args)),
                ActionModel::Launch {
                    program: name,
                    arguments: match args {
                        Some(given) => given,
                        None => Seq::empty(),
                    },
                },
            ),
        }
    }
}

/// Whether `fetched` answers the addresses of `feeds` one for one.
pub open spec fn answers_each(feeds: Option<Vec<Feed>>, fetched: Vec<Fetched>) -> bool {
    feeds matches Some(list) && fetched@.len() == list@.len()
}

/// What follows `event` in `phase`.  An event that the phase does not wait
/// for ends the session, and so does an answer to the addresses that is not
/// one for one.
pub open spec fn next_step(phase: Phase, event: Event, feeds: Option<Vec<Feed>>) -> (
    PhaseModel,
    ActionModel,
) {
    match (phase, event) {
        (Phase::AwaitingLine, Event::Line(line)) => dispatch(line@, feeds),
        (Phase::AwaitingLine, Event::ReadTimedOut) => (
            PhaseModel::AwaitingLine,
            ActionModel::ReadLine,
        ),
        (Phase::AwaitingLine, Event::ReadFailed) => (
            PhaseModel::AwaitingLine,
            ActionModel::ReportReadFailure,
        ),
        (Phase::Dispatching(Commands::Date), Event::Clock(now)) => conclusion(date_outcome(now)),
        (Phase::Dispatching(Commands::Shell(_, _)), Event::Launched(output)) => conclusion(
            shell_outcome(output),
        ),
        (Phase::Dispatching(Commands::Feeds), Event::Fetched(fetched)) => if answers_each(
            feeds,
            fetched,
        ) {
            conclusion(feeds_outcome(feeds, fetched))
        } else {
            (PhaseModel::Faulted, ActionModel::Stop(Fault::Unexpected))
        },
        (Phase::Transmitting, Event::Written) => (PhaseModel::AwaitingLine, ActionModel::ReadLine),
        (Phase::Transmitting, Event::WriteFailed) => (
            PhaseModel::Faulted,
            ActionModel::Stop(Fault::Write),
        ),
        _ => (PhaseModel::Faulted, ActionModel::Stop(Fault::Unexpected)),
    }
}

/// Decides what follows a line that was read.
pub fn on_line(line: String, feeds: &Option<Vec<Feed>>) -> (next: (Phase, Action))
    ensures
        (next.0@, next.1@) == dispatch(line@, *feeds),
{
    match parse_command(line) {
        Err(e) => (Phase::AwaitingLine, Action::Fail(e)),
        Ok(Commands::Date) => (Phase::Dispatching(Commands::Date), Action::ReadClock),
        Ok(Commands::Feeds) => {
            let command = FeedsCommand::new(feeds);
            match command.requests() {
                Err(e) => conclude(Err(e)),
                Ok(urls) => (Phase::Dispatching(Commands::Feeds), Action::Fetch { urls }),
            }
        },
        Ok(Commands::Shell(name, args)) => {
            let command = ShellCommand::new(name.as_str(), args);
            let program = command.program().clone();
            let arguments = command.arguments();
            let (name, args) = command.into_parts();
            (Phase::Dispatching(Commands::Shell(name, args)), Action::Launch { program, arguments })
        },
    }
}

/// Whether `fetched` answers the addresses of `feeds` one for one.
pub fn is_answer_to_each(feeds: &Option<Vec<Feed>>, fetched: &Vec<Fetched>) -> (each: bool)
    ensures
        each == answers_each(*feeds, *fetched),
{
    match feeds {
        Some(list) => fetched.len() == list.len(),
        None => false,
    }
}

/// Decides what follows `event` in `phase`.
pub fn step(phase: Phase, event: Event, feeds: &Option<Vec<Feed>>) -> (next: (Phase, Action))
    ensures
        (next.0@, next.1@) == next_step(phase, event, *feeds),
{
    match (phase, event) {
        (Phase::AwaitingLine, Event::Line(line)) => on_line(line, feeds),
        (Phase::AwaitingLine, Event::ReadTimedOut) => (Phase::AwaitingLine, Action::ReadLine),
        (Phase::AwaitingLine, Event::ReadFailed) => (
            Phase::AwaitingLine,
            Action::ReportReadFailure,
        ),
        (Phase::Dispatching(Commands::Date), Event::Clock(now)) => conclude(
            DateCommand.execute(now),
        ),
        (Phase::Dispatching(Commands::Shell(name, args)), Event::Launched(output)) => {
            let command = ShellCommand::new(name.as_str(), args);
            conclude(command.execute(output))
        },
        (Phase::Dispatching(Commands::Feeds), Event::Fetched(fetched)) => {
            if is_answer_to_each(feeds, &fetched) {
                let command = FeedsCommand::new(feeds);
                conclude(command.execute(fetched))
            } else {
                (Phase::Faulted, Action::Stop(Fault::Unexpected))
            }
        },
        (Phase::Transmitting, Event::Written) => (Phase::AwaitingLine, Action::ReadLine),
        (Phase::Transmitting, Event::WriteFailed) => (Phase::Faulted, Action::Stop(Fault::Write)),
        _ => (Phase::Faulted, Action::Stop(Fault::Unexpected)),
    }
}

/// The reserved names stand for the built-in commands, whatever follows
/// them.
pub proof fn lemma_reserved_names(arguments: Seq<Seq<char>>)
    ensures
        resolved("date"@, arguments) == CommandsModel::Date,
        resolved("feeds"@, arguments) == CommandsModel::Feeds,
{
    reveal_strlit("date");
    reveal_strlit("feeds");
    assert("date"@.len() != "feeds"@.len());
}

/// A line whose first token is no reserved name is answered by launching
/// that token as a program, with the other tokens as its arguments.
pub proof fn lemma_other_names_are_launched(line: Seq<char>, feeds: Option<Vec<Feed>>)
    requires
        !blank(line),
        tokens(line)[0] != "date"@,
        tokens(line)[0] != "feeds"@,
    ensures
        dispatch(line, feeds).1 == (ActionModel::Launch {
            program: tokens(line)[0],
            arguments: tokens(line).skip(1),
        }),
{
    let arguments = tokens(line).skip(1);
    if arguments.len() == 0 {
        assert(arguments =~= Seq::<Seq<char>>::empty());
    }
}

/// The longest result, in bytes with its line end, that is sure of a
/// response.
pub const MAX_REPLY_BYTES: usize = 855_689_985;

/// A result of no more than `MAX_REPLY_BYTES` bytes, line end included, has
/// a response.
pub proof fn lemma_reply_is_owed(result: Seq<char>)
    requires
        encode_utf8(result + "\r\n"@).len() <= MAX_REPLY_BYTES,
    ensures
        reply(result) is Ok,
{
    let bytes = encode_utf8(result + "\r\n"@);
    lemma_frames_well_formed(bytes);
    assert(5 * (chunk_count(bytes.len()) / 256) <= MAX_BASE);
}

/// No outcome of a command ends the session: a result and a failure alike
/// are answered, or given up with a report where the answer is too long.
pub proof fn lemma_outcomes_are_absorbed(outcome: Result<Seq<char>, ExecutionError>)
    ensures
        !(conclusion(outcome).0 is Faulted),
        !(conclusion(outcome).1 is Stop),
        !(conclusion(outcome).1 is Fail),
{
}

/// A short answer in ASCII goes out in one data record: with its line end
/// at offset 0, and the terminator behind it.
pub proof fn lemma_short_answer_is_one_record(result: Seq<char>)
    requires
        is_ascii_chars(result),
        result.len() <= 253,
    ensures
        frames(encode_utf8(result + "\r\n"@)) == seq![
            FrameModel::Data { offset: 0, payload: encode_utf8(result + "\r\n"@) },
            FrameModel::EndOfFile,
        ],
        reply(result) == Ok::<Seq<char>, AssemblyError>(
            object_file_text(frames(encode_utf8(result + "\r\n"@))),
        ),
{
    reveal_strlit("\r\n");
    let line = result + "\r\n"@;
    assert(is_ascii_chars("\r\n"@));
    is_ascii_chars_concat(line, result, "\r\n"@);
    is_ascii_chars_encode_utf8(line);
    lemma_single_chunk(encode_utf8(line));
    lemma_reply_is_owed(result);
}

/// The time is answered on one line, which goes out in one data record.
pub proof fn lemma_date_is_one_record(text: Seq<char>)
    requires
        date_line(text),
    ensures
        conclusion(Ok(text)) == (
            PhaseModel::Transmitting,
            ActionModel::Transmit {
                text: object_file_text(
                    seq![
                        FrameModel::Data { offset: 0, payload: encode_utf8(text + "\r\n"@) },
                        FrameModel::EndOfFile,
                    ],
                ),
            },
        ),
{
    lemma_short_answer_is_one_record(text);
}

} // verus!
