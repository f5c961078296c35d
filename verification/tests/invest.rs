use rand::distributions::Alphanumeric;
use rand::{thread_rng, Rng};
use shaken::invest::{
    get_credits_from_args, parse_number_or_context, Invest, InvestError,
    InvestGame, InvestUser, Investment, NumType, Outcome, Reward,
};
use shaken::request::Request;
use shaken::text::eq_ignore_ascii_case;
use shaken::response::{Context, Response};

const USER: i64 = 1000;

fn ctx() -> Context {
    Context {
        target: "#testing".to_string(),
        command: "PRIVMSG".to_string(),
        nick: Some("test".to_string()),
    }
}

fn out(r: Option<Response>) -> Option<String> {
    let r = r?;
    let f = r.build(Some(&ctx()), Some("test"))?;
    let lines = f.into_vec();
    assert_eq!(lines.len(), 1);
    Some(lines[0].trim_start_matches("PRIVMSG #testing :").to_string())
}

fn req<'a>(data: &'a str, cmd: &'a str) -> Request<'a> {
    Request::try_parse("#testing", USER, data)
        .unwrap()
        .search(cmd)
        .unwrap()
}

// The caller's side of a command: write back what it changed.
fn apply(o: Outcome, user: &mut InvestUser, other: Option<&mut InvestUser>) -> Option<String> {
    if let Some(u) = o.user {
        *user = u;
    }
    if let (Some(t), Some(slot)) = (o.other, other) {
        *slot = t;
    }
    out(o.reply)
}

#[test]
fn mod_invest_command() {
    let mut invest = Invest::new(5, vec![]);
    let mut user = InvestUser::new(USER);

    let o = invest.invest_command(&req("!invest 10", "!invest"), Some(user), false, 0);
    assert_eq!(
        apply(o, &mut user, None),
        Some("@test: you don't have any credits.".into())
    );

    InvestGame::give(&mut user, 100);
    let o = invest.invest_command(&req("!invest 10", "!invest"), Some(user), false, 0);
    assert_eq!(
        apply(o, &mut user, None),
        Some("@test: success! you went from 100 to 110".into())
    );

    let mut invest = Invest::new(5, vec![]);
    let o = invest.invest_command(&req("!invest 10", "!invest"), Some(user), true, 0);
    assert_eq!(o.collected, 10);
    assert_eq!(
        apply(o, &mut user, None),
        Some("@test: failure! you went from 110 to 100 (-10). try again in a minute".into())
    );
    let o = invest.invest_command(&req("!invest 10", "!invest"), Some(user), true, 1);
    assert_eq!(apply(o, &mut user, None), None);
}

#[test]
fn mod_give_command() {
    let invest = Invest::new(5, vec![]);
    let mut user = InvestUser::new(USER);
    let bot = "shaken_bot";

    let o = invest.give_command(&req("!give foo 10", "!give"), "test", user, bot, None);
    assert_eq!(
        apply(o, &mut user, None),
        Some("@test: you don't have any credits".into())
    );

    InvestGame::give(&mut user, 100);
    let o = invest.give_command(&req("!give", "!give"), "test", user, bot, None);
    assert_eq!(
        apply(o, &mut user, None),
        Some("@test: who do you want to give credits to?".into())
    );

    let o = invest.give_command(&req("!give test", "!give"), "test", user, bot, None);
    assert_eq!(
        apply(o, &mut user, None),
        Some("@test: what are you doing?".into())
    );

    let o = invest.give_command(&req("!give shaken_bot", "!give"), "test", user, bot, None);
    assert_eq!(
        apply(o, &mut user, None),
        Some("@test: I don't want any credits.".into())
    );

    let o = invest.give_command(&req("!give foo", "!give"), "test", user, bot, None);
    assert_eq!(
        apply(o, &mut user, None),
        Some("@test: I don't know who that is.".into())
    );

    let mut foo = InvestUser::new(1001);
    let o = invest.give_command(&req("!give foo", "!give"), "test", user, bot, Some(foo));
    assert_eq!(
        apply(o, &mut user, Some(&mut foo)),
        Some("@test: thats not a number I understand".into())
    );

    let o = invest.give_command(&req("!give foo 101", "!give"), "test", user, bot, Some(foo));
    assert_eq!(
        apply(o, &mut user, Some(&mut foo)),
        Some("@test: you only have 100 credits".into())
    );

    let o = invest.give_command(&req("!give foo 50", "!give"), "test", user, bot, Some(foo));
    assert_eq!(
        apply(o, &mut user, Some(&mut foo)),
        Some("@test: they now have 50 credits and you're down to 50 credits".into())
    );
    assert_eq!(user.current, 50);
    assert_eq!(foo.current, 50);
    assert_eq!(foo.total, 50);
}

#[test]
fn mod_check_command() {
    let invest = Invest::new(5, vec![]);
    let mut user = InvestUser::new(USER);

    assert_eq!(
        out(invest.check_command(&user)),
        Some("@test: you don't have any credits".into())
    );

    InvestGame::give(&mut user, 100);
    assert_eq!(
        out(invest.check_command(&user)),
        Some("@test: you have 100 credits".into())
    );
}

#[test]
fn mod_top5_command() {
    let invest = Invest::new(5, vec![]);
    let mut users: Vec<(String, usize)> = vec![];
    for _ in 1001..1012 {
        let name = thread_rng()
            .sample_iter(&Alphanumeric)
            .take(10)
            .collect::<String>();
        let r = thread_rng().gen::<u16>();
        users.push((name, r as usize));
    }
    users.sort_by(|l, r| r.1.cmp(&l.1));

    for (data, want) in &[
        ("!top5", 5),
        ("!top 5", 5),
        ("!top 10", 10),
        ("!top 100", 10),
        ("!top 0", 5),
    ] {
        let cmd = if data.starts_with("!top5") { "!top5" } else { "!top" };
        let n = Invest::top_count(&req(data, cmd));
        assert_eq!(n as usize, *want);
        let list = users.iter().take(n as usize).cloned().collect::<Vec<_>>();
        assert!(out(invest.top5_command(&list)).is_some());
    }
}

#[test]
fn top_list_format() {
    let invest = Invest::new(5, vec![]);
    let list = vec![("alice".to_string(), 12345), ("bob".to_string(), 7)];
    assert_eq!(
        out(invest.top5_command(&list)),
        Some("@test: (#1) alice: 12,345, (#2) bob: 7".into())
    );
}

#[test]
fn stats_text() {
    let invest = Invest::new(5, vec![]);
    let user = InvestUser {
        id: 1,
        max: 1234,
        current: 10,
        total: 5000,
        invest: (3, 4),
        active: true,
    };
    assert_eq!(
        out(invest.stats_command(&user, 1000000)),
        Some(
            "@test: you've reached a max of 1,234 credits, out of 5,000 total credits with 3 \
             successes and 4 failures. and I've 'collected' 1,000,000 credits from all of the \
             failures."
                .into()
        )
    );
}

#[test]
fn amounts() {
    assert_eq!(parse_number_or_context("42abc"), Some(NumType::Num(42)));
    assert_eq!(parse_number_or_context("all"), Some(NumType::All));
    assert_eq!(parse_number_or_context("half please"), Some(NumType::Half));
    assert_eq!(parse_number_or_context("random"), Some(NumType::Random));
    assert_eq!(parse_number_or_context("alll"), None);
    assert_eq!(parse_number_or_context(""), None);
    assert_eq!(
        parse_number_or_context("99999999999999999999999"),
        None
    );

    assert_eq!(get_credits_from_args(100, None), None);
    assert_eq!(get_credits_from_args(100, Some("all")), Some((NumType::All, 100)));
    assert_eq!(get_credits_from_args(101, Some("half")), Some((NumType::Half, 50)));
    assert_eq!(get_credits_from_args(101, Some("7")), Some((NumType::Num(7), 7)));
    for _ in 0..50 {
        match get_credits_from_args(3, Some("random")) {
            Some((NumType::Random, n)) => assert!(1 <= n && n < 3),
            other => panic!("unexpected {:?}", other),
        }
    }
}

#[test]
fn game_rules() {
    let mut u = InvestUser::new(7);
    assert_eq!(InvestGame::give(&mut u, 30), 30);
    assert_eq!(u.max, 30);
    assert_eq!(InvestGame::take(&mut u, 50), 0);
    assert_eq!(u.max, 30);
    assert_eq!(u.total, 30);

    let mut u = InvestUser::new(7);
    InvestGame::give(&mut u, 20);
    assert_eq!(
        InvestGame::invest(&mut u, 21, false),
        Err(InvestError::NotEnoughCredits { have: 20, want: 21 })
    );
    assert_eq!(
        InvestGame::invest(&mut u, 20, false),
        Ok(Investment::Success { old: 20, new: 40 })
    );
    assert_eq!(u.invest, (1, 0));
    assert_eq!(u.max, 40);
    assert_eq!(
        InvestGame::invest(&mut u, 15, true),
        Ok(Investment::Failure { old: 40, new: 25 })
    );
    assert_eq!(u.invest, (1, 1));
    assert_eq!(u.max, 40);
    assert_eq!(u.total, 40);
}

#[test]
fn rate_limits() {
    let mut invest = Invest::new(5, vec![]);
    assert!(!invest.check_rate_limit(1, 100));
    invest.rate_limit(1, 100);
    assert!(invest.check_rate_limit(1, 100));
    assert!(invest.check_rate_limit(1, 60099));
    assert!(!invest.check_rate_limit(1, 60100));
    assert!(!invest.check_rate_limit(2, 100));
}

#[test]
fn messages_earn() {
    let invest = Invest::new(5, vec![[10, 1], [3, 5]]);
    assert_eq!(invest.on_message("!invest 10", Some(1), None), None);
    assert_eq!(invest.on_message("@someone hi", Some(1), None), None);
    assert_eq!(invest.on_message("hello", None, None), None);
    assert_eq!(
        invest.on_message("hello", Some(1), None),
        Some(Reward { id: 1, line: 5, bonus: None })
    );
    assert_eq!(
        invest.on_message("Kappa", Some(1), Some(1)),
        Some(Reward { id: 1, line: 5, bonus: Some(10) })
    );
    assert_eq!(
        invest.on_message("Kappa Kappa", Some(1), Some(4)),
        Some(Reward { id: 1, line: 5, bonus: Some(3) })
    );
    assert_eq!(
        invest.on_message("lots", Some(1), Some(9)),
        Some(Reward { id: 1, line: 5, bonus: None })
    );
}

#[test]
fn give_target_and_case() {
    assert_eq!(Invest::give_target(&req("!give @Foo 10", "!give")), Some("Foo"));
    assert_eq!(Invest::give_target(&req("!give foo", "!give")), Some("foo"));
    assert_eq!(Invest::give_target(&req("!give", "!give")), None);
    assert!(eq_ignore_ascii_case("Shaken_Bot", "shaken_bot"));
    assert!(!eq_ignore_ascii_case("shaken", "shaken_bot"));
}
