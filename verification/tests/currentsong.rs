use shaken::currentsong::{CurrentSong, Req, Song};
use shaken::response::Response;

fn said(r: Option<Response>) -> Option<String> {
    match r? {
        Response::Say { data } => Some(data),
        Response::Reply { data } => Some(format!("reply: {}", data)),
        _ => None,
    }
}

fn song(timestamp: i64) -> Song {
    Song {
        vid: "dQw4w9WgXcQ".into(),
        timestamp,
        duration: 212,
        title: "  Never Gonna Give You Up ".into(),
    }
}

#[test]
fn song_urls() {
    assert_eq!(CurrentSong::song_url(Req::Current), "http://localhost:50006/current");
    assert_eq!(CurrentSong::song_url(Req::Previous), "http://localhost:50006/prev");
}

#[test]
fn no_song() {
    let cs = CurrentSong::create();
    assert_eq!(
        said(cs.info_command(None)),
        Some("reply: no song is currently playing".into())
    );
    assert_eq!(
        said(cs.prev_command(None)),
        Some("reply: I don't remember a song playing then".into())
    );
}

#[test]
fn song_links() {
    let cs = CurrentSong::create();
    // a song that started long ago is far into its video
    let out = said(cs.info_command(Some(&song(1_000_000_000)))).unwrap();
    assert!(out.starts_with("\"Never Gonna Give You Up\" youtu.be/dQw4w9WgXcQ?t="));
    assert!(out.ends_with('s'));
    // one that starts in the future is not
    assert_eq!(
        said(cs.info_command(Some(&song(32_000_000_000)))),
        Some("\"Never Gonna Give You Up\" youtu.be/dQw4w9WgXcQ".into())
    );
    assert_eq!(
        said(cs.prev_command(Some(&song(0)))),
        Some(
            "previous song: (started at 1970-01-01 00:00:00 UTC) \"Never Gonna Give You Up\" \
             youtu.be/dQw4w9WgXcQ"
                .into()
        )
    );
    // a start chrono cannot hold says nothing
    assert_eq!(said(cs.prev_command(Some(&song(i64::MAX)))), None);
}

#[test]
fn song_link_at_instant() {
    let cs = CurrentSong::create();
    let s = song(1_000);
    assert_eq!(
        said(cs.info_at(Some(&s), 1_090_999)),
        Some("\"Never Gonna Give You Up\" youtu.be/dQw4w9WgXcQ?t=90s".into())
    );
    assert_eq!(
        said(cs.info_at(Some(&s), 1_000_999)),
        Some("\"Never Gonna Give You Up\" youtu.be/dQw4w9WgXcQ".into())
    );
    assert_eq!(
        said(cs.info_at(None, 0)),
        Some("reply: no song is currently playing".into())
    );
}
