use chrono::DateTime;
use chrono::Utc;
use ihex::Reader;
use ihex::Record;
use seribot::commands::ExecutionError;
use seribot::config::has_distinct_names;
use seribot::config::Config;
use seribot::config::DataBitsDef;
use seribot::config::Feed;
use seribot::config::FlowControlDef;
use seribot::config::ParityDef;
use seribot::config::Serial;
use seribot::config::StopBitsDef;
use seribot::feed::Entry;
use seribot::feed::Fetched;
use seribot::frame::encode;
use seribot::parser::Commands;
use seribot::parser::ParseError;
use seribot::session::conclude;
use seribot::session::is_answer_to_each;
use seribot::session::on_line;
use seribot::session::respond;
use seribot::session::step;
use seribot::session::Action;
use seribot::session::Event;
use seribot::session::Fault;
use seribot::session::Phase;
use seribot::session::MAX_REPLY_BYTES;
use seribot::session::SETTLE_MILLIS;
use seribot::wire::assemble;
use seribot::wire::AssemblyError;

fn news() -> Fetched {
    Fetched::Feed(vec![Entry {
        title: Some("First".to_string()),
        summary: Some("One thing".to_string()),
    }])
}

fn feed(name: &str, url: &str) -> Feed {
    Feed { name: name.to_string(), url: url.to_string() }
}

fn line(text: &str) -> Event {
    Event::Line(text.to_string())
}

fn sent(text: &str) -> Vec<u8> {
    let mut bytes = Vec::new();
    for record in Reader::new(text) {
        match record.unwrap() {
            Record::Data { value, .. } => bytes.extend_from_slice(&value),
            Record::EndOfFile => {}
            other => panic!("{:?}", other),
        }
    }
    bytes
}

#[test]
fn a_date_line_is_answered_with_the_time() {
    let (phase, action) = step(Phase::AwaitingLine, line("date\n"), &None);
    assert_eq!(phase, Phase::Dispatching(Commands::Date));
    assert_eq!(action, Action::ReadClock);
    let now = Utc::now().timestamp();
    let (phase, action) = step(phase, Event::Clock(now), &None);
    assert_eq!(phase, Phase::Transmitting);
    let text = match action {
        Action::Transmit { text } => text,
        other => panic!("{:?}", other),
    };
    assert!(text.ends_with(":00000001FF\n"));
    assert_eq!(text.lines().count(), 2);
    let result = String::from_utf8(sent(&text)).unwrap();
    let shown = result.strip_suffix("\r\n").unwrap();
    assert!(!shown.is_empty() && !shown.contains('\n') && !shown.contains('\r'));
    assert_eq!(DateTime::parse_from_rfc2822(shown).unwrap().timestamp(), now);
}

#[test]
fn a_date_line_at_a_known_time_is_answered_exactly() {
    let (phase, action) = step(Phase::Dispatching(Commands::Date), Event::Clock(0), &None);
    assert_eq!(phase, Phase::Transmitting);
    assert_eq!(
        action,
        Action::Transmit { text: respond("Thu, 1 Jan 1970 00:00:00 +0000").unwrap() }
    );
}

#[test]
fn a_clock_beyond_the_calendar_is_answered_with_the_failure() {
    let (phase, action) = step(Phase::Dispatching(Commands::Date), Event::Clock(i64::MAX), &None);
    assert_eq!(phase, Phase::Transmitting);
    match action {
        Action::Transmit { text } => assert_eq!(sent(&text), b"Could not show time\r\n"),
        other => panic!("{:?}", other),
    }
}

#[test]
fn an_echo_line_is_launched_and_its_output_sent() {
    let (phase, action) = step(Phase::AwaitingLine, line("echo hi\n"), &None);
    assert_eq!(phase, Phase::Dispatching(Commands::Shell("echo".to_string(), Some(vec!["hi".to_string()]))));
    assert_eq!(
        action,
        Action::Launch { program: "echo".to_string(), arguments: vec!["hi".to_string()] }
    );
    let (phase, action) = step(phase, Event::Launched(Some(b"hi\n".to_vec())), &None);
    assert_eq!(phase, Phase::Transmitting);
    assert_eq!(action, Action::Transmit { text: assemble(&encode("hi\r\n\r\n")).unwrap() });
    assert_eq!(
        action,
        Action::Transmit { text: ":0600000068690D0A0D0AFB\n:00000001FF\n".to_string() }
    );
}

#[test]
fn a_program_that_cannot_be_launched_is_answered_all_the_same() {
    let (phase, action) = step(Phase::AwaitingLine, line("nonexistent-binary-xyz"), &None);
    assert_eq!(
        phase,
        Phase::Dispatching(Commands::Shell("nonexistent-binary-xyz".to_string(), None))
    );
    assert_eq!(
        action,
        Action::Launch { program: "nonexistent-binary-xyz".to_string(), arguments: vec![] }
    );
    let (phase, action) = step(phase, Event::Launched(None), &None);
    assert_eq!(phase, Phase::Transmitting);
    match action {
        Action::Transmit { text } => assert_eq!(sent(&text), b"could not run command\r\n"),
        other => panic!("{:?}", other),
    }
}

#[test]
fn a_feeds_line_is_fetched_and_shown() {
    let feeds = Some(vec![feed("news", "http://a.example/rss")]);
    let (phase, action) = step(Phase::AwaitingLine, line("feeds\n"), &feeds);
    assert_eq!(phase, Phase::Dispatching(Commands::Feeds));
    assert_eq!(action, Action::Fetch { urls: vec!["http://a.example/rss".to_string()] });
    let (phase, action) = step(phase, Event::Fetched(vec![news()]), &feeds);
    assert_eq!(phase, Phase::Transmitting);
    match action {
        Action::Transmit { text } => {
            assert_eq!(sent(&text), b"\r\nFirst\r\n\r\nOne thing\r\n\r\n")
        }
        other => panic!("{:?}", other),
    }
}

#[test]
fn a_feeds_line_without_feeds_is_answered_with_the_failure() {
    let (phase, action) = step(Phase::AwaitingLine, line("feeds"), &None);
    assert_eq!(phase, Phase::Transmitting);
    match action {
        Action::Transmit { text } => assert_eq!(sent(&text), b"Could not find feed URLs\r\n"),
        other => panic!("{:?}", other),
    }
}

#[test]
fn a_feed_that_fails_is_answered_with_the_failure() {
    let feeds = Some(vec![feed("a", "http://a.example"), feed("b", "http://b.example")]);
    let (phase, action) = step(
        Phase::Dispatching(Commands::Feeds),
        Event::Fetched(vec![news(), Fetched::Missing]),
        &feeds,
    );
    assert_eq!(phase, Phase::Transmitting);
    match action {
        Action::Transmit { text } => assert_eq!(sent(&text), b"Could not fetch feed\r\n"),
        other => panic!("{:?}", other),
    }
    let (phase, action) = step(
        Phase::Dispatching(Commands::Feeds),
        Event::Fetched(vec![Fetched::NoFeed, news()]),
        &feeds,
    );
    assert_eq!(phase, Phase::Transmitting);
    match action {
        Action::Transmit { text } => assert_eq!(sent(&text), b"Could not parse feed\r\n"),
        other => panic!("{:?}", other),
    }
}

#[test]
fn an_answer_that_is_not_one_for_each_address_ends_the_session() {
    let stop = (Phase::Faulted, Action::Stop(Fault::Unexpected));
    let feeds = Some(vec![feed("a", "http://a.example"), feed("b", "http://b.example")]);
    let fetched = |n: usize| Event::Fetched((0..n).map(|_| news()).collect());
    assert_eq!(step(Phase::Dispatching(Commands::Feeds), fetched(0), &feeds), stop);
    assert_eq!(step(Phase::Dispatching(Commands::Feeds), fetched(1), &feeds), stop);
    assert_eq!(step(Phase::Dispatching(Commands::Feeds), fetched(3), &feeds), stop);
    assert_eq!(step(Phase::Dispatching(Commands::Feeds), fetched(0), &None), stop);
    assert_eq!(step(Phase::Dispatching(Commands::Feeds), fetched(2), &feeds).0, Phase::Transmitting);
    assert_eq!(step(Phase::Dispatching(Commands::Feeds), fetched(0), &Some(vec![])).0, Phase::Transmitting);
    assert!(is_answer_to_each(&feeds, &vec![news(), Fetched::Missing]));
    assert!(!is_answer_to_each(&feeds, &vec![news()]));
    assert!(!is_answer_to_each(&None, &vec![]));
}

#[test]
fn a_blank_line_fails_the_request_and_nothing_is_sent() {
    for text in ["", " ", "\t  \t", "\n"] {
        let (phase, action) = step(Phase::AwaitingLine, line(text), &None);
        assert_eq!(phase, Phase::AwaitingLine);
        assert_eq!(action, Action::Fail(ParseError::Empty));
    }
}

#[test]
fn each_failure_of_a_command_has_its_message() {
    assert_eq!(ExecutionError::ClockOutOfRange.message(), "Could not show time");
    assert_eq!(ExecutionError::NoFeeds.message(), "Could not find feed URLs");
    assert_eq!(ExecutionError::FetchFailed(3).message(), "Could not fetch feed");
    assert_eq!(ExecutionError::MalformedFeed(0).message(), "Could not parse feed");
}

#[test]
fn a_read_that_times_out_is_tried_again() {
    assert_eq!(
        step(Phase::AwaitingLine, Event::ReadTimedOut, &None),
        (Phase::AwaitingLine, Action::ReadLine)
    );
}

#[test]
fn a_read_that_fails_is_reported_and_tried_again() {
    assert_eq!(
        step(Phase::AwaitingLine, Event::ReadFailed, &None),
        (Phase::AwaitingLine, Action::ReportReadFailure)
    );
}

#[test]
fn a_response_that_was_written_is_followed_by_the_next_line() {
    assert_eq!(
        step(Phase::Transmitting, Event::Written, &None),
        (Phase::AwaitingLine, Action::ReadLine)
    );
}

#[test]
fn a_write_that_fails_ends_the_session() {
    assert_eq!(
        step(Phase::Transmitting, Event::WriteFailed, &None),
        (Phase::Faulted, Action::Stop(Fault::Write))
    );
}

#[test]
fn an_event_out_of_turn_ends_the_session() {
    let stop = (Phase::Faulted, Action::Stop(Fault::Unexpected));
    assert_eq!(step(Phase::AwaitingLine, Event::Written, &None), stop);
    assert_eq!(step(Phase::AwaitingLine, Event::Launched(None), &None), stop);
    assert_eq!(step(Phase::Transmitting, line("date"), &None), stop);
    assert_eq!(step(Phase::Dispatching(Commands::Date), Event::Launched(None), &None), stop);
    assert_eq!(step(Phase::AwaitingLine, Event::Clock(0), &None), stop);
    assert_eq!(step(Phase::Dispatching(Commands::Feeds), Event::Clock(0), &None), stop);
    assert_eq!(step(Phase::Dispatching(Commands::Feeds), Event::Launched(None), &None), stop);
    assert_eq!(
        step(
            Phase::Dispatching(Commands::Shell("ls".to_string(), None)),
            Event::Fetched(vec![]),
            &None
        ),
        stop
    );
}

#[test]
fn a_session_that_has_ended_stays_ended() {
    let stop = (Phase::Faulted, Action::Stop(Fault::Unexpected));
    assert_eq!(step(Phase::Faulted, line("date"), &None), stop);
    assert_eq!(step(Phase::Faulted, Event::ReadTimedOut, &None), stop);
    assert_eq!(step(Phase::Faulted, Event::Written, &None), stop);
}

#[test]
fn on_line_decides_as_step_does() {
    assert_eq!(
        on_line("uptime".to_string(), &None),
        (
            Phase::Dispatching(Commands::Shell("uptime".to_string(), None)),
            Action::Launch { program: "uptime".to_string(), arguments: vec![] }
        )
    );
    assert_eq!(
        on_line(" ".to_string(), &None),
        (Phase::AwaitingLine, Action::Fail(ParseError::Empty))
    );
}

#[test]
fn respond_appends_a_line_end_and_assembles() {
    assert_eq!(respond(""), Ok(":020000000D0AE7\n:00000001FF\n".to_string()));
    assert_eq!(respond("hi"), Ok(":0400000068690D0A14\n:00000001FF\n".to_string()));
    let long = "x".repeat(70000);
    let text = respond(&long).unwrap();
    let mut expected = long.into_bytes();
    expected.extend_from_slice(b"\r\n");
    let mut bytes = Vec::new();
    let mut bases = Vec::new();
    for record in Reader::new(&text) {
        match record.unwrap() {
            Record::Data { value, .. } => bytes.extend_from_slice(&value),
            Record::ExtendedLinearAddress(base) => bases.push(base),
            Record::EndOfFile => {}
            other => panic!("{:?}", other),
        }
    }
    assert_eq!(bytes, expected);
    assert_eq!(bases, vec![5]);
}

#[test]
fn conclude_sends_a_result_or_the_message_of_a_failure() {
    assert_eq!(
        conclude(Ok("hi".to_string())),
        (
            Phase::Transmitting,
            Action::Transmit { text: ":0400000068690D0A14\n:00000001FF\n".to_string() }
        )
    );
    assert_eq!(
        conclude(Err(ExecutionError::ClockOutOfRange)),
        (Phase::Transmitting, Action::Transmit { text: respond("Could not show time").unwrap() })
    );
}

#[test]
fn the_limits_of_a_session_are_as_stated() {
    assert_eq!(SETTLE_MILLIS, 1000);
    assert_eq!(MAX_REPLY_BYTES, 255 * (256 * 13108 - 1));
    assert_eq!(AssemblyError::AddressOutOfRange, AssemblyError::AddressOutOfRange);
}

#[test]
fn feed_names_are_checked_for_repeats() {
    assert!(has_distinct_names(&vec![]));
    assert!(has_distinct_names(&vec![feed("a", "u"), feed("b", "u")]));
    assert!(!has_distinct_names(&vec![feed("a", "u"), feed("b", "v"), feed("a", "w")]));
    assert!(!has_distinct_names(&vec![feed("a", "u"), feed("a", "u")]));
}

#[test]
fn a_configuration_is_well_formed_when_feed_names_differ() {
    let serial = || Serial {
        baud: 9600,
        data_bits: DataBitsDef::Eight,
        flow_control: FlowControlDef::Off,
        parity: ParityDef::Off,
        port: "/dev/ttyUSB0".to_string(),
        stop_bits: StopBitsDef::One,
        timeout: 100,
    };
    assert!(Config { serial: serial(), feeds: None }.is_well_formed());
    assert!(Config { serial: serial(), feeds: Some(vec![feed("a", "u"), feed("b", "v")]) }
        .is_well_formed());
    assert!(!Config { serial: serial(), feeds: Some(vec![feed("a", "u"), feed("a", "v")]) }
        .is_well_formed());
}
