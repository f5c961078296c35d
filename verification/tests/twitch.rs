use shaken::response::{multi, Response};
use shaken::twitch::TwitchClient;

fn pairs(v: &[(String, String)]) -> Vec<(&str, &str)> {
    v.iter().map(|(a, b)| (a.as_str(), b.as_str())).collect()
}

#[test]
fn helix_requests() {
    let client = TwitchClient::new("abc123");
    let r = client.get_streams(&["museun", "shaken"]);
    assert_eq!(r.url, "https://api.twitch.tv/helix/streams");
    assert_eq!(pairs(&r.query), vec![("user_login", "museun"), ("user_login", "shaken")]);
    assert_eq!(
        pairs(&r.headers),
        vec![("Client-ID", "abc123"), ("Accept", "application/vnd.twitchtv.v5+json")]
    );
    assert_eq!((r.timeout_connect_ms, r.timeout_read_ms), (5000, 5000));

    let r = client.get_streams_from_ids(&["1"]);
    assert_eq!(r.url, "https://api.twitch.tv/helix/streams");
    assert_eq!(pairs(&r.query), vec![("user_id ", "1")]);

    let r = client.get_users(&["a"]);
    assert_eq!(r.url, "https://api.twitch.tv/helix/users");
    assert_eq!(pairs(&r.query), vec![("login", "a")]);

    let r = client.get_users_from_ids(&["7", "8"]);
    assert_eq!(pairs(&r.query), vec![("id", "7"), ("id", "8")]);
    assert!(client.get_users(&[]).query.is_empty());

    assert_eq!(
        TwitchClient::get_names_for("museun"),
        "https://tmi.twitch.tv/group/user/museun/chatters"
    );
}

#[test]
fn multi_keeps_present_answers() {
    let r = multi(vec![
        Some(Response::Say { data: "a".into() }),
        None,
        Some(Response::Reply { data: "b".into() }),
    ]);
    match r {
        Some(Response::Multi { data }) => {
            assert_eq!(data.len(), 2);
            assert!(matches!(&data[0], Response::Say { data } if data == "a"));
            assert!(matches!(&data[1], Response::Reply { data } if data == "b"));
        }
        _ => panic!("expected a list of answers"),
    }
    assert!(matches!(multi(vec![]), Some(Response::Multi { data }) if data.is_empty()));
}
