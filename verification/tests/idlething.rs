use shaken::idlething::{Donation, IdleThing, IdleThingError, IdleThingState};
use shaken::response::Response;

fn text(r: Option<Response>) -> Option<String> {
    match r? {
        Response::Reply { data } => Some(data),
        _ => None,
    }
}

#[test]
fn test_default_insert() {
    let mut ch = IdleThingState::default();
    let names = vec!["foo", "bar", "baz", "quux"];
    for name in &names {
        ch.insert(name)
    }
    for name in &names {
        assert_eq!(ch.get_credits_for(name), None);
    }
    assert_eq!(ch.get_credits_for("test"), None);
}

#[test]
fn test_tick() {
    let mut ch = IdleThingState::default();
    ch.insert("foo");
    ch.insert("bar");

    ch.tick(&["foo", "baz", "quux"]);
    assert_eq!(ch.get_credits_for("foo"), Some(1)); // was already there when the tick happened
    assert_eq!(ch.get_credits_for("bar"), None); // not there when the tick happened
    assert_eq!(ch.get_credits_for("baz"), None); // new when the tick happened
    assert_eq!(ch.get_credits_for("quux"), None); // new when the tick happened
}

#[test]
fn test_invest() {
    let mut ch = IdleThingState::default();

    assert_eq!(
        ch.invest("test", 10, false),
        Err(IdleThingError::NotEnoughCredits { have: 0, want: 10 })
    ); // not seen before. so zero credits

    assert_eq!(ch.increment("foo"), 5); // starts at 0, so +5
    assert_eq!(ch.increment("foo"), 10); // then +5

    assert_eq!(
        ch.invest("test", 10, false),
        Err(IdleThingError::NotEnoughCredits { have: 0, want: 10 })
    ); // not seen before. so zero credits

    assert_eq!(
        ch.invest_success("foo", 10, 5),
        Ok(Donation::Success { old: 10, new: 15 })
    );

    assert_eq!(
        ch.invest_success("foo", 15, 15),
        Ok(Donation::Success { old: 15, new: 30 })
    );

    assert_eq!(
        ch.invest_failure("foo", 30, 15),
        Ok(Donation::Failure { old: 30, new: 15 })
    );

    assert_eq!(
        ch.invest_failure("foo", 15, 15),
        Ok(Donation::Failure { old: 15, new: 0 })
    );
}

#[test]
fn give_and_take() {
    let mut ch = IdleThingState::default();
    assert_eq!(ch.give("a", 7), 7);
    assert_eq!(ch.give("a", 3), 10);
    assert_eq!(ch.take("a", 4), 6);
    // taking from a name not seen yet gives it the amount instead
    assert_eq!(ch.take("b", 4), 4);
    assert_eq!(ch.invest("a", 6, true), Ok(Donation::Failure { old: 6, new: 0 }));
    assert_eq!(
        ch.invest("a", 1, false),
        Err(IdleThingError::NotEnoughCredits { have: 0, want: 1 })
    );
    assert_eq!(ch.invest("b", 4, false), Ok(Donation::Success { old: 4, new: 8 }));
}

#[test]
fn sorted_by_credits() {
    let mut ch = IdleThingState::default();
    ch.give("low", 1);
    ch.give("high", 100);
    ch.give("mid", 50);
    ch.give("mid2", 50);
    assert_eq!(
        ch.to_sorted(),
        vec![("high", 100), ("mid", 50), ("mid2", 50), ("low", 1)]
    );
}

#[test]
fn idle_commands() {
    let mut state = IdleThingState::default();
    state.give("1", 1000);
    let mut game = IdleThing::new(state);

    assert_eq!(IdleThing::parse_number("12abc"), Some(12));
    assert_eq!(IdleThing::parse_number("abc"), None);

    assert_eq!(game.invest_command(None, "10", false, 0), None);
    assert_eq!(
        text(game.invest_command(Some("1"), "x", false, 0)),
        Some("thats not a number I understand".into())
    );
    assert_eq!(
        text(game.invest_command(Some("1"), "0", false, 0)),
        Some("zero what?".into())
    );
    assert_eq!(
        text(game.invest_command(Some("1"), "5000", false, 0)),
        Some("you don't have enough. you have 1,000 but you want to invest 5,000 credits".into())
    );
    assert_eq!(
        text(game.invest_command(Some("1"), "500", false, 0)),
        Some("success! 1,000 -> 1,500".into())
    );
    // a minute without investing
    assert_eq!(game.invest_command(Some("1"), "500", true, 59_999), None);
    assert_eq!(
        text(game.invest_command(Some("1"), "500", true, 60_000)),
        Some("failure! 1,500 -> 1,000".into())
    );

    assert_eq!(
        text(game.check_command(Some("1"))),
        Some("you have 1,000 credits".into())
    );
    assert_eq!(
        text(game.check_command(Some("2"))),
        Some("you have no credits".into())
    );

    assert_eq!(IdleThing::give_target("bob 10"), Some("bob"));
    assert_eq!(
        text(game.give_command(Some("1"), Some("alice"), "", None)),
        Some("who do you want to give points to?".into())
    );
    assert_eq!(
        text(game.give_command(Some("1"), Some("alice"), "bob 10", None)),
        Some("I don't know who that is".into())
    );
    assert_eq!(
        text(game.give_command(Some("1"), Some("2"), "bob 10", Some("2"))),
        Some("what are you doing?".into())
    );
    assert_eq!(
        text(game.give_command(Some("1"), Some("alice"), "bob ten", Some("2"))),
        Some("how much is that?".into())
    );
    assert_eq!(
        text(game.give_command(Some("1"), Some("alice"), "bob 0", Some("2"))),
        Some("zero what?".into())
    );
    assert_eq!(
        text(game.give_command(Some("1"), Some("alice"), "bob 5000", Some("2"))),
        Some("you only have 1,000 credits".into())
    );
    assert_eq!(
        text(game.give_command(Some("1"), Some("alice"), "bob 400", Some("2"))),
        Some("they now have 400 credits and you have 600".into())
    );
    assert_eq!(
        text(game.give_command(Some("3"), Some("carol"), "bob 1", Some("2"))),
        Some("you have no credits".into())
    );

    game.on_message("hello there", Some("2"));
    game.on_message("!check", Some("2"));
    game.on_message("@bob hi", Some("2"));
    assert_eq!(game.state().get_credits_for("2"), Some(405));

    assert_eq!(
        text(game.top_command()),
        Some("(#1) 1: 600, (#2) 2: 405".into())
    );
}

use shaken::twitch::{Chatters, Names};

#[test]
fn idle_names_skip_the_bot() {
    let names = Names {
        chatter_count: 5,
        chatters: Chatters {
            moderators: vec!["mod".into(), "shaken_bot".into()],
            staff: vec![],
            admins: vec!["admin".into()],
            global_mods: vec![],
            viewers: vec!["viewer".into(), "shaken_bot".into()],
        },
    };
    assert_eq!(
        IdleThing::idle_names(&names, "shaken_bot"),
        vec!["mod", "admin", "viewer", "shaken_bot"]
    );
    assert_eq!(
        IdleThing::idle_names(&names, "nobody"),
        vec!["mod", "shaken_bot", "admin", "viewer", "shaken_bot"]
    );
}

#[test]
fn give_then_take_restores() {
    let mut ch = IdleThingState::default();
    ch.give("a", 12);
    ch.give("b", 30);
    let before = ch.to_sorted().iter().map(|(k, v)| (k.to_string(), *v)).collect::<Vec<_>>();
    ch.give("a", 8);
    ch.take("a", 8);
    let after = ch.to_sorted().iter().map(|(k, v)| (k.to_string(), *v)).collect::<Vec<_>>();
    assert_eq!(before, after);
    // a transfer keeps the sum of the two
    ch.take("b", 10);
    ch.give("a", 10);
    assert_eq!(ch.get_credits_for("a"), Some(22));
    assert_eq!(ch.get_credits_for("b"), Some(20));
}

#[test]
fn tick_never_lowers() {
    let mut ch = IdleThingState::new(3, 5, 2);
    ch.give("a", 10);
    ch.tick(&["a", "b", "a"]);
    assert_eq!(ch.get_credits_for("a"), Some(14));
    assert_eq!(ch.get_credits_for("b"), Some(3));
}
