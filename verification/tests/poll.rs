use shaken::poll::collect_options;
use shaken::relay::{Client, Relay};

#[test]
fn quoted_options() {
    assert_eq!(
        collect_options(r#""option a" "option b" "option c""#),
        vec!["option a", "option b", "option c"]
    );
    assert_eq!(collect_options(r#"  "  spaced  "   "#), vec!["spaced"]);
    assert_eq!(collect_options(r#"a b "c" d"#), vec!["a b", "c", "d"]);
    assert_eq!(collect_options(""), Vec::<String>::new());
    assert_eq!(collect_options(r#""" "#), Vec::<String>::new());
    // the reader stops at the first character beyond ASCII
    assert_eq!(collect_options("\"caf\u{e9}\" \"b\""), vec!["caf"]);
}

#[test]
fn relay_pending() {
    let mut relay = Relay::new();
    assert!(relay.pending(0).is_empty());
    relay.push(10, "a".into());
    relay.push(20, "b".into());
    relay.push(30, "c".into());
    assert_eq!(relay.pending(0), vec!["a", "b", "c"]);
    assert_eq!(relay.pending(20), vec!["c"]);
    assert!(relay.pending(30).is_empty());
    for i in 0..20u64 {
        relay.push(100 + i, format!("m{}", i));
    }
    let all = relay.pending(0);
    assert_eq!(all.len(), 16);
    assert_eq!(all[0], "m4");
    assert_eq!(all[15], "m19");
}

use shaken::poll::Poll;

const OWNER: bool = true;
const NOT_OWNER: bool = false;
const OPTIONS: &str = r#""option a" "option b" "option c""#;

#[test]
fn test_poll() {
    let mut poll = Poll::new(0);

    assert!(poll.poll_command(NOT_OWNER, OPTIONS, "#testing").is_empty());

    let said = poll.poll_command(OWNER, OPTIONS, "#testing");
    assert_eq!(
        said,
        vec!["is this poll right?", "#1: option a", "#2: option b", "#3: option c"]
    );

    let p = poll.poll().unwrap();
    assert_eq!(p.options().len(), 3);
}

#[test]
fn test_poll_start() {
    let mut poll = Poll::new(0);
    poll.set_duration(1);

    assert!(poll.start_command(NOT_OWNER, "", 0).is_empty());
    assert_eq!(poll.start_command(OWNER, "", 0), vec!["no poll set up"]);

    poll.poll_command(OWNER, OPTIONS, "#testing");

    assert_eq!(
        poll.start_command(OWNER, "", 0),
        vec!["starting poll for the next 1 seconds. use '!vote n' to vote for that option"]
    );

    assert_eq!(poll.tick(999), None);
    let (target, said) = poll.tick(2000).unwrap();
    assert_eq!(target, "#testing");
    assert_eq!(
        said,
        vec!["(0 votes) #1 option a", "(0 votes) #2 option b", "(0 votes) #3 option c"]
    );
}

#[test]
fn test_poll_vote() {
    let mut poll = Poll::new(0);
    poll.set_duration(1);

    poll.poll_command(OWNER, OPTIONS, "#testing");
    poll.start_command(OWNER, "", 0);

    for i in 0..10 {
        let who = format!("{}", i);
        poll.vote_command(Some(&who), &format!("{}", i % 3));
    }

    let (_, said) = poll.tick(2000).unwrap();
    assert_eq!(
        said,
        vec!["(3 votes) #1 option a", "(3 votes) #2 option b", "(0 votes) #3 option c"]
    );
}

#[test]
fn test_poll_stop() {
    let mut poll = Poll::new(0);

    assert_eq!(poll.stop_command(OWNER), vec!["poll isn't running"]);

    poll.poll_command(OWNER, OPTIONS, "#testing");

    assert_eq!(poll.stop_command(OWNER), vec!["poll isn't running"]);

    poll.start_command(OWNER, "", 0);

    assert_eq!(poll.stop_command(OWNER), vec!["stopped the poll"]);
    assert_eq!(poll.stop_command(OWNER), vec!["poll isn't running"]);
}

#[test]
fn poll_subcommands_and_restarts() {
    let mut poll = Poll::new(0);
    assert!(poll.poll_command(OWNER, "start 10", "#t").is_empty());
    assert!(poll.poll_command(OWNER, "stop", "#t").is_empty());
    poll.poll_command(OWNER, r#""x" "y""#, "#t");
    assert_eq!(
        poll.start_command(OWNER, "#5", 100),
        vec!["starting poll for the next 5 seconds. use '!vote n' to vote for that option"]
    );
    assert_eq!(poll.start_command(OWNER, "", 100), vec!["poll is already running"]);
    poll.vote_command(Some("a"), "#2");
    poll.vote_command(Some("a"), "1");
    poll.vote_command(Some("b"), "0");
    poll.vote_command(None, "1");
    assert_eq!(
        poll.poll_command(OWNER, r#""z""#, "#t"),
        vec!["poll is already running, stopping it", "is this poll right?", "#1: z"]
    );
    assert_eq!(poll.tick(1_000_000), None);
}

#[test]
fn relay_drain() {
    let served = vec![
        (Client { id: 0, last: 0 }, "first", Some(500)),
        (Client { id: 1, last: 40 }, "second", None),
        (Client { id: 2, last: 90 }, "third", Some(510)),
    ];
    let kept = Relay::drain(served);
    assert_eq!(
        kept,
        vec![(Client { id: 0, last: 500 }, "first"), (Client { id: 2, last: 510 }, "third")]
    );
    assert!(Relay::drain::<&str>(vec![]).is_empty());
}
