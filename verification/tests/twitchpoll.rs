use shaken::request::Request;
use shaken::response::{Context, Response};
use shaken::twitchpoll::{ParseError, TwitchPoll};

// The broadcaster is the test user too: what marks them is their badge, not their id.
const USER: i64 = 1000;
const BROADCASTER: i64 = USER;

fn ctx() -> Context {
    Context {
        target: "#testing".to_string(),
        command: "PRIVMSG".to_string(),
        nick: Some("test".to_string()),
    }
}

fn out(r: Option<Response>) -> Vec<String> {
    match r {
        None => vec![],
        Some(r) => match r.build(Some(&ctx()), Some("test")) {
            None => vec![],
            Some(f) => f
                .into_vec()
                .into_iter()
                .map(|l| l.trim_start_matches("PRIVMSG #testing :").to_string())
                .collect(),
        },
    }
}

fn req<'a>(data: &'a str, sender: i64, cmd: &'a str) -> Request<'a> {
    Request::try_parse("#testing", sender, data)
        .unwrap()
        .search(cmd)
        .unwrap()
}

#[test]
fn parse_poll() {
    let poll = TwitchPoll::parse_poll(
        "#testing",
        "this is a test | option a|option b            |          option c",
    )
    .ok()
    .unwrap();

    assert_eq!(poll.title(), "this is a test");

    let expected = &["option a", "option b", "option c"];
    poll.choices()
        .iter()
        .enumerate()
        .for_each(|(i, c)| assert_eq!(expected[i], c.option));
}

#[test]
fn parse_poll_errors() {
    assert_eq!(TwitchPoll::parse_poll("#testing", " | |").err(), Some(ParseError::Title));
    assert_eq!(
        TwitchPoll::parse_poll("#testing", "just a title |  ").err(),
        Some(ParseError::Options)
    );
    let poll = TwitchPoll::parse_poll("#testing", "t|a").ok().unwrap();
    assert_eq!(poll.target(), "#testing");
    assert_eq!(poll.choices().len(), 1);
    assert_eq!(poll.choices()[0].pos, 0);
    assert_eq!(poll.choices()[0].count, 0);
}

#[test]
fn poll_command() {
    let mut poll = TwitchPoll::create();

    let r = poll.poll_command(&req("!poll", USER, "!poll"), false);
    assert_eq!(out(r), Vec::<String>::new());

    let r = poll.poll_command(&req("!poll", BROADCASTER, "!poll"), true);
    assert_eq!(
        out(r),
        vec!["@test: no title was provided. use !poll title | options | ..."]
    );

    let r = poll.poll_command(&req("!poll test poll", BROADCASTER, "!poll"), true);
    assert_eq!(
        out(r),
        vec!["@test: no options were provided. use !poll title | options | ..."]
    );

    let r = poll.poll_command(
        &req("!poll test poll | option a | option b", BROADCASTER, "!poll"),
        true,
    );
    assert_eq!(
        out(r),
        vec![
            "is this poll correct?",
            "test poll",
            "#1: option a",
            "#2: option b"
        ]
    );
    assert!(poll.has_poll());
}

#[test]
fn poll_start_command() {
    let mut poll = TwitchPoll::create();

    let r = poll.poll_start_command(&req("!poll start", USER, "!poll start"), false, 0);
    assert_eq!(out(r), Vec::<String>::new());

    let r = poll.poll_start_command(&req("!poll start", BROADCASTER, "!poll start"), true, 0);
    assert_eq!(
        out(r),
        vec!["@test: no poll has been configured. use !poll title | options | ..."]
    );

    let r = poll.poll_command(
        &req("!poll test poll | option a | option b", BROADCASTER, "!poll"),
        true,
    );
    assert_eq!(out(r).len(), 4);

    let r = poll.poll_start_command(&req("!poll start", BROADCASTER, "!poll start"), true, 0);
    assert_eq!(out(r), vec!["@test: I don't know how long that is"]);

    let r = poll.poll_start_command(
        &req("!poll start 160", BROADCASTER, "!poll start"),
        true,
        0,
    );
    assert_eq!(
        out(r),
        vec!["starting the poll for the next 160 seconds. use '!vote n' to vote for that option"]
    );
    assert!(poll.is_running());
    assert_eq!(poll.duration(), 160);
    assert_eq!(poll.started_at(), Some(0));
}

#[test]
fn poll_stop_command() {
    let mut poll = TwitchPoll::create();

    let r = poll.poll_stop_command(&req("!poll stop", USER, "!poll stop"), false);
    assert_eq!(out(r), Vec::<String>::new());

    let r = poll.poll_stop_command(&req("!poll stop", BROADCASTER, "!poll stop"), true);
    assert_eq!(out(r), vec!["@test: no poll is running"]);

    poll.poll_command(
        &req("!poll test poll | option a | option b", BROADCASTER, "!poll"),
        true,
    );
    poll.poll_start_command(
        &req("!poll start 160", BROADCASTER, "!poll start"),
        true,
        5,
    );

    let r = poll.poll_stop_command(&req("!poll stop", BROADCASTER, "!poll stop"), true);
    assert_eq!(out(r), Vec::<String>::new());

    let r = poll.poll_stop_command(&req("!poll stop", BROADCASTER, "!poll stop"), true);
    assert_eq!(out(r), vec!["@test: no poll is running"]);

    assert!(!poll.has_poll());
    assert!(poll.started_at().is_none());
    assert_eq!(poll.duration(), 0);
    assert_eq!(poll.is_running(), false);
}

#[test]
fn poll_vote_command() {
    let mut poll = TwitchPoll::create();

    let r = poll.poll_command(&req("!poll vote", USER, "!poll"), false);
    assert_eq!(out(r), Vec::<String>::new());

    poll.poll_command(
        &req("!poll test poll | option a | option b", BROADCASTER, "!poll"),
        true,
    );
    poll.poll_start_command(&req("!poll start 1", BROADCASTER, "!poll start"), true, 0);

    poll.poll_vote_command(&req("!vote 1", 1001, "!vote"));
    poll.poll_vote_command(&req("!vote 2", 1002, "!vote"));
    let r = poll.poll_vote_command(&req("!vote 3", 1003, "!vote"));
    assert_eq!(out(r), vec!["@test: what option is that?"]);
    poll.poll_vote_command(&req("!vote 1", 1003, "!vote"));
    poll.poll_vote_command(&req("!vote 2", 1002, "!vote"));
    poll.poll_vote_command(&req("!vote 1", USER, "!vote"));
    poll.poll_vote_command(&req("!vote 1", BROADCASTER, "!vote"));

    assert_eq!(poll.handle_tick(999), None);

    let r = poll.handle_tick(1000);
    assert_eq!(
        out(r),
        vec!["(3 votes) #1 option a", "(1 votes) #2 option b"]
    );
    assert!(!poll.is_running());
    assert!(!poll.has_poll());
}

#[test]
fn vote_with_hash_and_tally_order() {
    let mut poll = TwitchPoll::create();
    poll.poll_command(&req("!poll t | a | b | c | d", BROADCASTER, "!poll"), true);
    poll.poll_start_command(&req("!poll start 2s", BROADCASTER, "!poll start"), true, 10);
    assert_eq!(poll.duration(), 2);

    poll.poll_vote_command(&req("!vote #4", 1, "!vote"));
    poll.poll_vote_command(&req("!vote ##4", 2, "!vote"));
    poll.poll_vote_command(&req("!vote 2", 3, "!vote"));
    let r = poll.poll_vote_command(&req("!vote 0", 4, "!vote"));
    assert_eq!(out(r), vec!["@test: what option is that?"]);
    let r = poll.poll_vote_command(&req("!vote x", 4, "!vote"));
    assert_eq!(out(r), vec!["@test: what option is that?"]);

    assert_eq!(poll.handle_tick(2009), None);
    let r = poll.handle_tick(2010);
    assert_eq!(
        out(r),
        vec!["(2 votes) #4 d", "(1 votes) #2 b", "(0 votes) #1 a"]
    );
}
