//! The commands: what each one needs from outside and what it answers.

use chrono::DateTime;
use chrono::Utc;
use crate::config::Feed;
use crate::feed::entries_text;
use crate::feed::entry_models;
use crate::feed::fetched_models;
use crate::feed::render_entries;
use crate::feed::EntryModel;
use crate::feed::Fetched;
use crate::feed::FetchedModel;
use crate::text::crlf;
use crate::text::lossy_text;
use crate::text::utf8_lossy;
use crate::text::with_crlf;
use vstd::prelude::*;
use vstd::string::StringExecFns;
use vstd::utf8::decode_utf8;
use vstd::utf8::encode_utf8_decode_utf8;
use vstd::utf8::is_ascii_chars;
use vstd::utf8::valid_utf8;

verus! {

/// Why a command has no result.
#[derive(Debug, PartialEq, Eq, Clone, Copy, Structural)]
pub enum ExecutionError {
    /// The time lies outside the years 0 to 9999, which is all that a date
    /// line can show.
    ClockOutOfRange,
    /// No feeds are configured.
    NoFeeds,
    /// The feed at this place among those asked for could not be fetched.
    FetchFailed(usize),
    /// The feed at this place among those asked for is no feed.
    MalformedFeed(usize),
}

impl ExecutionError {
    /// What is said of the failure to whoever asked for the command.
    pub open spec fn message_text(&self) -> Seq<char> {
        match *self {
            ExecutionError::ClockOutOfRange => "Could not show time"@,
            ExecutionError::NoFeeds => "Could not find feed URLs"@,
            ExecutionError::FetchFailed(_) => "Could not fetch feed"@,
            ExecutionError::MalformedFeed(_) => "Could not parse feed"@,
        }
    }

    /// Says what failed.
    pub fn message(&self) -> (text: String)
        ensures
            text@ == self.message_text(),
    {
        match self {
            ExecutionError::ClockOutOfRange => "Could not show time".to_owned(),
            ExecutionError::NoFeeds => "Could not find feed URLs".to_owned(),
            ExecutionError::FetchFailed(_) => "Could not fetch feed".to_owned(),
            ExecutionError::MalformedFeed(_) => "Could not parse feed".to_owned(),
        }
    }
}

/// What a `Result` of a text says, as mathematics.
pub open spec fn text_result(r: Result<String, ExecutionError>) -> Result<
    Seq<char>,
    ExecutionError,
> {
    match r {
        Ok(text) => Ok(text@),
        Err(e) => Err(e),
    }
}

/// A command.  It performs no work outside the program: what it needs from
/// there is supplied to `execute`, and its result is decided by that supply.
pub trait BotCommand {
    /// What is supplied to one execution.
    type Supply;

    /// The description of the command.
    spec fn usage_text(&self) -> Seq<char>;

    /// The result of the command for a supply.
    spec fn outcome(&self, supply: Self::Supply) -> Result<Seq<char>, ExecutionError>;

    /// Gives the result of the command for `supply`.
    fn execute(&self, supply: Self::Supply) -> (r: Result<String, ExecutionError>)
        ensures
            text_result(r) == self.outcome(supply),
    ;

    /// Describes the command.
    fn usage(&self) -> (text: String)
        ensures
            text@ == self.usage_text(),
    ;
}

/// The first second of the year 0, counted from the start of 1970.
pub const FIRST_SECOND: i64 = -62_167_219_200;

/// The last second of the year 9999, counted from the start of 1970.
pub const LAST_SECOND: i64 = 253_402_300_799;

/// Whether the second `seconds`, counted from the start of 1970, lies in
/// the years 0 to 9999.
pub open spec fn in_calendar(seconds: int) -> bool {
    FIRST_SECOND <= seconds <= LAST_SECOND
}

/// The date line for a second, counted from the start of 1970: what
/// `chrono::DateTime::<Utc>::to_rfc2822` returns for that second.
pub uninterp spec fn rfc2822_text(seconds: int) -> Seq<char>;

/// What every date line is: 30 or 31 characters of ASCII on one line.
pub open spec fn date_line(text: Seq<char>) -> bool {
    &&& 30 <= text.len() <= 31
    &&& is_ascii_chars(text)
    &&& forall|i: int| 0 <= i < text.len() ==> #[trigger] text[i] != '\r' && text[i] != '\n'
}

/// Calls `chrono::DateTime::from_timestamp` for the second given, and
/// `to_rfc2822` on the result.  In the years 0 to 9999 the first returns a
/// time and the second does not fail; the text depends on the second alone.
/// It is written as the short name of the day, a comma, the day of the
/// month in one or two digits, the short name of the month, the year in four
/// digits, the time of day as `hh:mm:ss` and the offset `+0000`, with single
/// spaces between them.
#[verifier::external_body]
fn format_rfc2822(seconds: i64) -> (text: String)
    requires
        in_calendar(seconds as int),
    ensures
        text@ == rfc2822_text(seconds as int),
        date_line(text@),
{
    DateTime::<Utc>::from_timestamp(seconds, 0).unwrap().to_rfc2822()
}

/// The result of showing the time `now`: its date line, where it has one.
pub open spec fn date_outcome(now: i64) -> Result<Seq<char>, ExecutionError> {
    if in_calendar(now as int) {
        Ok(rfc2822_text(now as int))
    } else {
        Err(ExecutionError::ClockOutOfRange)
    }
}

/// The command that shows the time.
#[derive(Debug, PartialEq, Eq, Clone, Copy, Structural)]
pub struct DateCommand;

impl BotCommand for DateCommand {
    /// The time that the clock showed, in seconds from the start of 1970.
    type Supply = i64;

    open spec fn usage_text(&self) -> Seq<char> {
        "Show current time"@
    }

    open spec fn outcome(&self, supply: i64) -> Result<Seq<char>, ExecutionError> {
        date_outcome(supply)
    }

    fn execute(&self, supply: i64) -> (r: Result<String, ExecutionError>)
        ensures
            r matches Ok(text) ==> date_line(text@),
    {
        if FIRST_SECOND <= supply && supply <= LAST_SECOND {
            Ok(format_rfc2822(supply))
        } else {
            Err(ExecutionError::ClockOutOfRange)
        }
    }

    fn usage(&self) -> (text: String) {
        "Show current time".to_owned()
    }
}

/// The result of running a program: what it wrote, read as text with each
/// line end made a carriage return and a line feed; or, where the program
/// could not be launched, a line that says so.  Neither is a failure.
pub open spec fn shell_outcome(launched: Option<Vec<u8>>) -> Result<Seq<char>, ExecutionError> {
    match launched {
        Some(output) => Ok(crlf(utf8_lossy(output@))),
        None => Ok("could not run command"@),
    }
}

/// The command that runs a program.
#[derive(Debug, PartialEq, Eq)]
pub struct ShellCommand {
    name: String,
    args: Option<Vec<String>>,
}

impl ShellCommand {
    /// The name of the program, as mathematics.
    pub closed spec fn name_text(&self) -> Seq<char> {
        self.name@
    }

    /// The arguments given, if any, as mathematics.
    pub closed spec fn args_text(&self) -> Option<Seq<Seq<char>>> {
        self.args.deep_view()
    }

    /// The arguments to launch the program with: those given, or none.
    pub open spec fn arguments_text(&self) -> Seq<Seq<char>> {
        match self.args_text() {
            Some(args) => args,
            None => Seq::empty(),
        }
    }

    /// The command that runs the program `name` with the arguments `args`.
    pub fn new(name: &str, args: Option<Vec<String>>) -> (command: Self)
        ensures
            command.name_text() == name@,
            command.args_text() == args.deep_view(),
    {
        Self { name: name.to_owned(), args }
    }

    /// The name and the arguments that the command was made of.
    pub fn into_parts(self) -> (parts: (String, Option<Vec<String>>))
        ensures
            parts.0@ == self.name_text(),
            parts.1.deep_view() == self.args_text(),
    {
        (self.name, self.args)
    }

    /// The name of the program to launch.
    pub fn program(&self) -> (name: &String)
        ensures
            name@ == self.name_text(),
    {
        &self.name
    }

    /// The arguments to launch the program with.
    pub fn arguments(&self) -> (args: Vec<String>)
        ensures
            args.deep_view() == self.arguments_text(),
    {
        let mut args: Vec<String> = Vec::new();
        match &self.args {
            Some(given) => {
                let mut i: usize = 0;
                while i < given.len()
                    invariant
                        i <= given.len(),
                        args.deep_view() == given.deep_view().take(i as int),
                    decreases given.len() - i,
                {
                    args.push(given[i].clone());
                    assert(args.deep_view() =~= given.deep_view().take(i as int).push(given[i as int]@));
                    assert(given.deep_view().take(i + 1) =~= given.deep_view().take(i as int).push(
                        given[i as int]@,
                    ));
                    i = i + 1;
                }
                assert(given.deep_view().take(given.len() as int) =~= given.deep_view());
            },
            None => {
                assert(args.deep_view() =~= Seq::<Seq<char>>::empty());
            },
        }
        args
    }
}

impl BotCommand for ShellCommand {
    /// What the launched program wrote to its standard output, or nothing
    /// where the program could not be launched.
    type Supply = Option<Vec<u8>>;

    open spec fn usage_text(&self) -> Seq<char> {
        "Run a shell command"@
    }

    open spec fn outcome(&self, supply: Option<Vec<u8>>) -> Result<Seq<char>, ExecutionError> {
        shell_outcome(supply)
    }

    fn execute(&self, supply: Option<Vec<u8>>) -> (r: Result<String, ExecutionError>)
        ensures
            supply matches Some(output) ==> (valid_utf8(output@) ==> text_result(r) == Ok::<
                Seq<char>,
                ExecutionError,
            >(crlf(decode_utf8(output@)))),
    {
        match supply {
            Some(output) => {
                let text = lossy_text(&output);
                proof {
                    if valid_utf8(output@) {
                        encode_utf8_decode_utf8(text@);
                    }
                }
                Ok(with_crlf(text.as_str()))
            },
            None => Ok("could not run command".to_owned()),
        }
    }

    fn usage(&self) -> (text: String) {
        "Run a shell command".to_owned()
    }
}

/// A feed as it is shown among the others: an empty line sets it off, and
/// a line end closes it.
pub open spec fn feed_block(entries: Seq<EntryModel>) -> Seq<char> {
    "\r\n"@ + entries_text(entries) + "\r\n"@
}

/// What came of the addresses gives: the feeds, shown in the order of the
/// addresses, or the first failure in that order, which is a body that is
/// missing or one that is no feed.
pub open spec fn digest(fetched: Seq<FetchedModel>) -> Result<Seq<char>, ExecutionError>
    decreases fetched.len(),
{
    if fetched.len() == 0 {
        Ok(Seq::empty())
    } else {
        let place = (fetched.len() - 1) as usize;
        match digest(fetched.drop_last()) {
            Err(e) => Err(e),
            Ok(text) => match fetched.last() {
                FetchedModel::Missing => Err(ExecutionError::FetchFailed(place)),
                FetchedModel::NoFeed => Err(ExecutionError::MalformedFeed(place)),
                FetchedModel::Feed(entries) => Ok(text + feed_block(entries)),
            },
        }
    }
}

/// The addresses of `feeds`, in order.
pub open spec fn addresses(feeds: Seq<Feed>) -> Seq<Seq<char>> {
    feeds.map_values(|f: Feed| f.url@)
}

/// The result of showing the feeds `urls` from what came of their
/// addresses.  Without feeds the command fails, whatever came.
pub open spec fn feeds_outcome(urls: Option<Vec<Feed>>, fetched: Vec<Fetched>) -> Result<
    Seq<char>,
    ExecutionError,
> {
    if urls is None {
        Err(ExecutionError::NoFeeds)
    } else {
        digest(fetched_models(fetched@))
    }
}

/// The command that shows the feeds.
#[derive(Debug, PartialEq, Eq)]
pub struct FeedsCommand<'a> {
    pub urls: &'a Option<Vec<Feed>>,
}

impl<'a> FeedsCommand<'a> {
    /// The command that shows the feeds `urls`.
    pub fn new(urls: &'a Option<Vec<Feed>>) -> (command: Self)
        ensures
            command.urls == urls,
    {
        Self { urls }
    }

    /// The addresses to fetch, in the order of the feeds.  Without feeds
    /// there is nothing to ask for, and the command fails.
    pub fn requests(&self) -> (r: Result<Vec<String>, ExecutionError>)
        ensures
            match r {
                Ok(urls) => *self.urls matches Some(feeds) && urls.deep_view() == addresses(
                    feeds@,
                ),
                Err(e) => *self.urls is None && e == ExecutionError::NoFeeds,
            },
    {
        match self.urls {
            None => Err(ExecutionError::NoFeeds),
            Some(feeds) => {
                let mut urls: Vec<String> = Vec::new();
                let mut i: usize = 0;
                while i < feeds.len()
                    invariant
                        i <= feeds.len(),
                        urls.deep_view() == addresses(feeds@).take(i as int),
                    decreases feeds.len() - i,
                {
                    urls.push(feeds[i].url.clone());
                    assert(urls.deep_view() =~= addresses(feeds@).take(i as int).push(
                        feeds@[i as int].url@,
                    ));
                    assert(addresses(feeds@).take(i + 1) =~= addresses(feeds@).take(i as int).push(
                        feeds@[i as int].url@,
                    ));
                    i = i + 1;
                }
                assert(addresses(feeds@).take(feeds.len() as int) =~= addresses(feeds@));
                Ok(urls)
            },
        }
    }
}

impl<'a> BotCommand for FeedsCommand<'a> {
    /// For each address asked for, in order, what came of it.
    type Supply = Vec<Fetched>;

    open spec fn usage_text(&self) -> Seq<char> {
        "Show RSS/Atom feeds"@
    }

    open spec fn outcome(&self, supply: Vec<Fetched>) -> Result<Seq<char>, ExecutionError> {
        feeds_outcome(*self.urls, supply)
    }

    fn execute(&self, supply: Vec<Fetched>) -> (r: Result<String, ExecutionError>) {
        if self.urls.is_none() {
            return Err(ExecutionError::NoFeeds);
        }
        let mut output = String::new();
        let mut i: usize = 0;
        assert(fetched_models(supply@).take(0) =~= Seq::<FetchedModel>::empty());
        while i < supply.len()
            invariant
                i <= supply.len(),
                *self.urls is Some,
                digest(fetched_models(supply@).take(i as int)) == Ok::<Seq<char>, ExecutionError>(
                    output@,
                ),
            decreases supply.len() - i,
        {
            let ghost all = fetched_models(supply@);
            let ghost next = all.take(i + 1);
            assert(next.drop_last() =~= all.take(i as int));
            assert(next.last() == supply@[i as int]@);
            match &supply[i] {
                Fetched::Missing => {
                    proof {
                        lemma_digest_fails_on(all, (i + 1) as nat);
                    }
                    return Err(ExecutionError::FetchFailed(i));
                },
                Fetched::NoFeed => {
                    proof {
                        lemma_digest_fails_on(all, (i + 1) as nat);
                    }
                    return Err(ExecutionError::MalformedFeed(i));
                },
                Fetched::Feed(entries) => {
                    let ghost before = output@;
                    let shown = render_entries(entries);
                    output.append("\r\n");
                    output.append(shown.as_str());
                    output.append("\r\n");
                    assert(output@ =~= before + feed_block(entry_models(entries@)));
                },
            }
            i = i + 1;
        }
        assert(fetched_models(supply@).take(supply.len() as int) =~= fetched_models(supply@));
        Ok(output)
    }

    fn usage(&self) -> (text: String) {
        "Show RSS/Atom feeds".to_owned()
    }
}

/// A failure among the first addresses is the failure of them all.
pub proof fn lemma_digest_fails_on(bodies: Seq<FetchedModel>, n: nat)
    requires
        n <= bodies.len(),
        digest(bodies.take(n as int)) is Err,
    ensures
        digest(bodies) == digest(bodies.take(n as int)),
    decreases bodies.len() - n,
{
    if n < bodies.len() {
        assert(bodies.drop_last().take(n as int) =~= bodies.take(n as int));
        lemma_digest_fails_on(bodies.drop_last(), n);
    } else {
        assert(bodies.take(n as int) =~= bodies);
    }
}

} // verus!
