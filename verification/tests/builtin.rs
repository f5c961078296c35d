use rand::distributions::Alphanumeric;
use rand::{thread_rng, Rng};
use shaken::builtin::{wrap, Builtin, UserCommand};
use shaken::request::Request;
use shaken::response::{Context, Response};
use shaken::twitch::Stream;

const OWNER: i64 = 1000;

fn ctx() -> Context {
    Context {
        target: "#museun".to_string(),
        command: "PRIVMSG".to_string(),
        nick: Some("test".to_string()),
    }
}

fn lines(r: Option<Response>) -> Vec<String> {
    match r {
        None => vec![],
        Some(r) => match r.build(Some(&ctx()), Some("test")) {
            None => vec![],
            Some(f) => f
                .into_vec()
                .into_iter()
                .map(|l| {
                    l.trim_start_matches("PRIVMSG #museun :")
                        .trim_start_matches("PRIVMSG jtv :/w test ")
                        .to_string()
                })
                .collect(),
        },
    }
}

fn req<'a>(data: &'a str, cmd: &'a str) -> Request<'a> {
    Request::try_parse("#museun", OWNER, data)
        .unwrap()
        .search(cmd)
        .unwrap()
}

// What the bot's database does with the user commands.
#[derive(Default)]
struct Store {
    commands: Vec<UserCommand>,
}

impl Store {
    fn insert(&mut self, c: UserCommand) -> Option<usize> {
        if self.commands.iter().any(|x| x.command == c.command) {
            return Some(0);
        }
        self.commands.push(c);
        Some(1)
    }
    fn get(&self, name: &str) -> Option<&UserCommand> {
        self.commands.iter().find(|c| c.command == name)
    }
    fn add(&mut self, builtin: &Builtin, data: &str, reserved: &[String]) -> Vec<String> {
        match builtin.add_command(&req(data, "!add"), true, reserved) {
            Ok(c) => {
                let name = c.command.clone();
                let rows = self.insert(c);
                lines(Builtin::command_added(&name, rows))
            }
            Err(r) => lines(r),
        }
    }
}

#[test]
fn autojoin() {
    let builtin = Builtin::create("museun");
    let r = builtin.event("001", "Welcome to IRC").unwrap();
    let f = r.build(None, None).unwrap().into_vec();
    assert_eq!(f, vec!["JOIN #museun".to_string()]);
}

#[test]
fn autopong() {
    let builtin = Builtin::create("museun");
    let r = builtin.event("PING", "foobar").unwrap();
    let f = r.build(None, None).unwrap().into_vec();
    assert_eq!(f, vec!["PONG :foobar".to_string()]);
    assert_eq!(builtin.event("PRIVMSG", "hello"), None);
}

#[test]
fn version_command() {
    let builtin = Builtin::create("museun");
    let out = lines(builtin.version_command("abc1234", "master"));
    assert!(out[0].starts_with("@test: https://github.com/museun/shaken"));
    assert_eq!(
        out[0],
        "@test: https://github.com/museun/shaken (abc1234 on 'master' branch)"
    );
}

#[test]
fn add_command() {
    let builtin = Builtin::create("museun");
    let mut store = Store::default();

    assert_eq!(
        store.add(&builtin, "!add !test this is a test", &[]),
        vec!["@test: added '!test' as a command"]
    );
    assert_eq!(
        store.add(&builtin, "!add !test this is a test", &[]),
        vec!["@test: '!test' already exists as a command"]
    );

    let reserved = vec!["!foo".to_string()];
    assert_eq!(
        store.add(&builtin, "!add !foo this is a test", &reserved),
        vec!["@test: '!foo' is a reserved name"]
    );
}

#[test]
fn edit_command() {
    let builtin = Builtin::create("museun");
    let mut store = Store::default();
    store.add(&builtin, "!add !test this is a test", &[]);

    let (name, description) = builtin
        .edit_command(&req("!edit !test with different flavor text", "!edit"), true)
        .ok()
        .unwrap();
    let ok = match store.commands.iter_mut().find(|c| c.command == name) {
        Some(c) => {
            c.description = description;
            true
        }
        None => true,
    };
    assert_eq!(
        lines(Builtin::command_edited(&name, ok)),
        vec!["@test: edited '!test'"]
    );

    let cmd = store.get("!test").unwrap();
    assert_eq!(cmd.command, "!test".to_string());
    assert_eq!(cmd.description, "with different flavor text".to_string());
}

#[test]
fn info_command() {
    let builtin = Builtin::create("museun");
    let mut store = Store::default();

    let r = builtin.info_command(&req("!info !test", "!info"), true, store.get("!test"), None);
    assert_eq!(lines(r), vec!["@test: '!test' isn't a command"]);

    store.add(&builtin, "!add !test this is a test", &[]);

    let r = builtin.info_command(
        &req("!info !test", "!info"),
        true,
        store.get("!test"),
        Some("test"),
    );
    let out = lines(r);
    assert_eq!(out[0], "@test: !test -- no description provided");
    assert_eq!(out[1], "@test: this is a test");
    assert!(out[2].starts_with("@test: created by test"));
}

#[test]
fn remove_command() {
    let builtin = Builtin::create("museun");
    let mut store = Store::default();

    let (r, name) = builtin.remove_command(&req("!remove !test", "!remove"), true);
    assert_eq!(
        lines(r),
        vec!["@test: if that was a command, its no longer one"]
    );
    assert_eq!(name.as_deref(), Some("!test"));

    store.add(&builtin, "!add !test this is a test", &[]);

    let (r, name) = builtin.remove_command(&req("!remove !test", "!remove"), true);
    let name = name.unwrap();
    store.commands.retain(|c| c.command != name);
    assert_eq!(
        lines(r),
        vec!["@test: if that was a command, its no longer one"]
    );
    assert!(store.get("!test").is_none());
}

#[test]
fn help_command() {
    let builtin = Builtin::create("museun");
    let mut store = Store::default();
    let mut rng = thread_rng();

    for _ in 0..20 {
        let n = rng.gen_range(3, 8);
        let name = std::iter::repeat(())
            .map(|_| rng.sample(Alphanumeric))
            .take(n)
            .collect::<String>();
        store.add(&builtin, &format!("!add !{} foobar", name), &[]);
    }

    let system: Vec<String> = [
        "!version", "!viewers", "!uptime", "!add", "!edit", "!info", "!remove", "!help",
    ]
    .iter()
    .map(|s| s.to_string())
    .collect();
    let mut user: Vec<String> = store.commands.iter().map(|c| c.command.clone()).collect();
    user.sort_unstable();

    let expected = system.len() + user.len();
    let r = builtin.help_command(system, user);

    let mut max = 0;
    for line in lines(r) {
        max += line.chars().filter(|&c| c == '!').count()
    }
    assert_eq!(max, expected);
}

#[test]
fn privileges_and_arguments() {
    let builtin = Builtin::create("museun");
    assert_eq!(
        lines(builtin.add_command(&req("!add !x y", "!add"), false, &[]).err().unwrap()),
        vec!["@test: you cannot do that"]
    );
    assert_eq!(
        lines(builtin.add_command(&req("!add", "!add"), true, &[]).err().unwrap()),
        vec!["@test: invalid arguments"]
    );
    let c = builtin
        .add_command(&req("!add hello   there   world", "!add"), true, &[])
        .ok()
        .unwrap();
    assert_eq!(c.command, "!hello");
    assert_eq!(c.body, "there world");
    assert_eq!(c.creator, OWNER);
    assert_eq!(c.uses, 0);
    assert!(!c.disabled);

    let (r, name) = builtin.remove_command(&req("!remove", "!remove"), true);
    assert_eq!(lines(r), vec!["@test: invalid arguments"]);
    assert!(name.is_none());
    assert_eq!(
        lines(Builtin::command_edited("!x", false)),
        vec!["@test: couldn't edit '!x'"]
    );
    assert_eq!(
        lines(Builtin::command_added("!x", None)),
        vec!["@test: couldn't add '!x' as a command"]
    );
}

#[test]
fn user_commands() {
    let builtin = Builtin::create("museun");
    let mut c = UserCommand::default();
    c.command = "!hi".into();
    c.body = "hello there".into();
    assert_eq!(lines(builtin.try_user_command(Some(&c))), vec!["hello there"]);
    c.disabled = true;
    assert_eq!(builtin.try_user_command(Some(&c)), None);
    assert_eq!(builtin.try_user_command(None), None);
}

#[test]
fn wrap_lines() {
    let words: Vec<String> = (0..12).map(|i| format!("!command{}", i)).collect();
    let wrapped = wrap(words.clone());
    // the width leaves out the space between names, so a full line can reach 41 bytes
    assert!(wrapped.iter().all(|l| l.len() <= 41));
    assert_eq!(wrapped[2], "!command8 !command9 !command10 !command11");
    assert_eq!(wrapped.join(" "), words.join(" "));
    assert_eq!(wrapped[0], "!command0 !command1 !command2 !command3");
    assert_eq!(wrap(vec![]), Vec::<String>::new());
}

fn stream(live: &str, viewers: usize, started_at: &str) -> Stream {
    Stream {
        id: "1".into(),
        user_id: "2".into(),
        game_id: "3".into(),
        live: live.into(),
        title: "title".into(),
        viewer_count: viewers,
        started_at: started_at.into(),
    }
}

#[test]
fn viewers_and_uptime() {
    let builtin = Builtin::create("museun");
    assert_eq!(
        lines(builtin.viewers_command(None)),
        vec!["@test: the stream doesn't seem to be live"]
    );
    assert_eq!(
        lines(builtin.viewers_command(Some(&[]))),
        vec!["@test: the stream doesn't seem to be live"]
    );
    let s = [stream("", 10, "2018-01-01T00:00:00Z")];
    assert_eq!(
        lines(builtin.viewers_command(Some(&s))),
        vec!["@test: the stream doesn't seem to be live"]
    );
    let s = [stream("live", 12345, "2018-01-01T00:00:00Z")];
    assert_eq!(
        lines(builtin.viewers_command(Some(&s))),
        vec!["@test: viewers: 12,345"]
    );
    let out = lines(builtin.uptime_command(Some(&s)));
    assert_eq!(out.len(), 1);
    assert!(out[0].starts_with("uptime: "));
    assert!(out[0].contains("days"));
    let bad = [stream("live", 1, "not a time")];
    assert_eq!(builtin.uptime_command(Some(&bad)), None);
}

#[test]
fn uptime_at_instant() {
    let builtin = Builtin::create("museun");
    let s = [stream("live", 5, "2018-01-01T00:00:00Z")];
    let start: i64 = 1_514_764_800_000;
    assert_eq!(
        lines(builtin.uptime_at(Some(&s), start + 3_661_500)),
        vec!["uptime: 1 hour, 1 minute and 1 second"]
    );
    assert_eq!(
        lines(builtin.uptime_at(Some(&s), start + 2 * 86_400_000 + 5_000)),
        vec!["uptime: 2 days and 5 seconds"]
    );
    // a start after the instant says nothing
    assert_eq!(builtin.uptime_at(Some(&s), start - 1), None);
    assert_eq!(
        lines(builtin.uptime_at(None, start)),
        vec!["@test: the stream doesn't seem to be live"]
    );
}

#[test]
fn wrap_width() {
    let a = "a".repeat(20);
    let b = "b".repeat(20);
    let c = "c".repeat(50);
    let out = wrap(vec![a.clone(), b.clone(), "!x".to_string(), c.clone()]);
    // the space before a name is not counted against the width of 40
    assert_eq!(out[0], format!("{} {}", a, b));
    assert_eq!(out[0].len(), 41);
    assert_eq!(out[1], "!x");
    // a name longer than the width has a line to itself
    assert_eq!(out[2], c);
    assert_eq!(out.len(), 3);
}
