use shaken::request::Request;
use shaken::response::{Context, Response};
use shaken::shakespeare::{Configure, Sentence, Shakespeare};

const USER: i64 = 1000;
const LINE: &str = "Friends, Romans, countrymen, lend me your ears.";

fn ctx() -> Context {
    Context {
        target: "#testing".to_string(),
        command: "PRIVMSG".to_string(),
        nick: Some("test".to_string()),
    }
}

fn out(r: Option<Response>) -> Option<String> {
    let r = r?;
    let lines = r.build(Some(&ctx()), Some("test"))?.into_vec();
    Some(lines[0].trim_start_matches("PRIVMSG #testing :").to_string())
}

fn req<'a>(data: &'a str, cmd: &'a str) -> Request<'a> {
    Request::try_parse("#testing", USER, data)
        .unwrap()
        .search(cmd)
        .unwrap()
}

// The caller's side of fetching a sentence: the markov service always answers `LINE`.
fn generate(s: &mut Shakespeare, now: u64) -> Option<String> {
    if !s.ready(now) {
        return None;
    }
    loop {
        s.fetched(now);
        match Shakespeare::sentence(LINE).unwrap() {
            Sentence::TooShort => continue,
            Sentence::Ready(t) => return Some(t),
        }
    }
}

// The caller's side of configuring: the numbers with a fraction are read there.
struct Floats {
    interval: f64,
    chance: f64,
}

fn configure(s: &mut Shakespeare, f: &mut Floats, data: &str, privileged: bool) -> Option<String> {
    match s.configure_command(&req(data, "!speak configure"), privileged) {
        Configure::Ignored => None,
        Configure::Answer { reply, .. } => out(reply),
        Configure::Interval(t) => Some(match t.parse::<f64>() {
            Ok(n) => {
                f.interval = n;
                "@test: done".to_string()
            }
            Err(_) => "@test: that is not a number".to_string(),
        }),
        Configure::Chance(t) => Some(match t.parse::<f64>() {
            Ok(n) if n > 1.0 || n < 0.0 => "@test: chance has to be 0.0 <= chance <= 1.0".into(),
            Ok(n) => {
                f.chance = n;
                "@test: done".to_string()
            }
            Err(_) => "@test: that is not a number".to_string(),
        }),
    }
}

#[test]
fn speak_command() {
    let mut s = Shakespeare::create(30, 60, "shaken_bot");
    let line = generate(&mut s, 0);
    assert_eq!(
        out(s.speak_command(line)),
        Some("Friends, Romans, countrymen, lend me your ears.".into())
    );

    let line = generate(&mut s, 1);
    assert_eq!(out(s.speak_command(line)), None);
}

#[test]
fn configure_command() {
    let mut s = Shakespeare::create(30, 60, "shaken_bot");
    let mut f = Floats { interval: 30.0, chance: 0.5 };

    assert_eq!(configure(&mut s, &mut f, "!speak configure", false), None);
    assert_eq!(
        configure(&mut s, &mut f, "!speak configure", true).unwrap(),
        "@test: what do you want to configure: interval, chance, bypass"
    );
    assert_eq!(
        configure(&mut s, &mut f, "!speak configure interval", true).unwrap(),
        "@test: provide a value, please"
    );
    assert_eq!(
        configure(&mut s, &mut f, "!speak configure interval one", true).unwrap(),
        "@test: that is not a number"
    );
    assert_eq!(
        configure(&mut s, &mut f, "!speak configure interval 1", true).unwrap(),
        "@test: done"
    );
    assert_eq!(
        configure(&mut s, &mut f, "!speak configure chance 1.2", true).unwrap(),
        "@test: chance has to be 0.0 <= chance <= 1.0"
    );
    assert_eq!(
        configure(&mut s, &mut f, "!speak configure chance 0.2", true).unwrap(),
        "@test: done"
    );
    assert_eq!(
        configure(&mut s, &mut f, "!speak configure bypass 1", true).unwrap(),
        "@test: done"
    );
    assert_eq!(
        configure(&mut s, &mut f, "!speak configure foobar 1", true).unwrap(),
        "@test: I don't know how to configure that"
    );

    assert_eq!(f.interval, 1.0);
    assert_eq!(f.chance, 0.2);
    assert_eq!(s.bypass(), 1);
}

#[test]
fn auto_speak() {
    let mut s = Shakespeare::create(30, 0, "shaken_bot");
    assert!(Shakespeare::wants_auto("testing this out"));
    assert!(s.should_bypass(0));
    let line = generate(&mut s, 0);
    assert_eq!(
        out(s.speak_command(line)),
        Some("Friends, Romans, countrymen, lend me your ears.".into())
    );
}

#[test]
fn check_mentions() {
    assert!(Shakespeare::check_mentions("hey @shaken_bot", "shaken_bot"));
    assert!(!Shakespeare::check_mentions("@shaken", "shaken_bot"));
    assert!(Shakespeare::check_mentions("@Shaken_Bot!!", "shaken_bot"));
    assert!(!Shakespeare::check_mentions("shaken_bot", "shaken_bot"));
}

#[test]
fn sentences() {
    assert_eq!(
        Shakespeare::sentence("one two three four!!! "),
        Some(Sentence::Ready("one two three four.".into()))
    );
    assert_eq!(Shakespeare::sentence("one two"), Some(Sentence::TooShort));
    // the cut counts characters back from the end in bytes: an ellipsis (three bytes)
    // at the end leaves the cut inside it
    assert_eq!(Shakespeare::sentence("a b c d\u{2026}"), None);
}

#[test]
fn timing() {
    let mut s = Shakespeare::create(2, 5, "bot");
    assert!(s.ready(0));
    assert!(!s.should_bypass(0));
    s.fetched(1000);
    assert!(!s.ready(2999));
    assert!(s.ready(3000));
    assert!(!s.should_bypass(6000));
    assert!(s.should_bypass(6001));
    assert!(!Shakespeare::wants_auto("!speak"));
}

use shaken::shakespeare::prune;
use shaken::state::State;

#[test]
fn state_generates() {
    let mut state = State::new(10);
    assert!(state.ready(0));
    assert_eq!(state.generate(0, "to be or not to be?!"), Some("to be or not to be.".into()));
    assert!(!state.ready(9_999));
    assert!(state.ready(10_000));
    assert_eq!(prune("abc123"), Some("abc"));
    assert_eq!(prune("..."), Some(""));
}
