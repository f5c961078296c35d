//! `!song` and `!prevsong`: the song a local player service says is playing (or
//! played before), with a link into the video at the point it has reached. Asking the
//! service is the caller's part.

use crate::clock::{now_millis, utc_date, utc_date_text};
use crate::response::{is_text, Response};
use crate::text::{decimal, decimal_chars, trim, trim_spec};
use crate::util::push_chars;
use vstd::prelude::*;

verus! {

/// The name the song commands register under.
pub const NAME: &'static str = "CurrentSong";

/// A song the player reports: its video id, when it started (seconds since the Unix
/// epoch), how long it is in seconds, and its title.
#[derive(Debug, Clone, PartialEq)]
pub struct Song {
    pub vid: String,
    pub timestamp: i64,
    pub duration: i64,
    pub title: String,
}

/// Which song to ask the player for.
#[derive(Debug, Clone, Copy, PartialEq, Eq)]
pub enum Req {
    Current,
    Previous,
}

/// The song commands.
pub struct CurrentSong;

/// The player's address for a question.
pub open spec fn song_url_spec(req: Req) -> Seq<char> {
    "http://localhost:50006/"@ + match req {
        Req::Current => "current"@,
        Req::Previous => "prev"@,
    }
}

/// `"title" youtu.be/vid`, with `?t=Ns` when the song is `n` seconds in.
pub open spec fn song_line(s: Song, into: Option<nat>) -> Seq<char> {
    "\""@ + trim_spec(s.title@) + "\" youtu.be/"@ + s.vid@ + match into {
        Some(n) => "?t="@ + decimal(n) + "s"@,
        None => ""@,
    }
}

/// The song an optional reference holds.
pub open spec fn opt_song(s: Option<&Song>) -> Option<Song> {
    match s {
        Some(x) => Some(*x),
        None => None,
    }
}

/// `r` is the answer to `!song` at `now` (milliseconds) for the reported `song`.
pub open spec fn song_answer(r: Option<Response>, song: Option<Song>, now: i64) -> bool {
    match song {
        None => is_reply(r, "no song is currently playing"@),
        Some(s) => if utc_date_text(s.timestamp) is None {
            r is None
        } else {
            let into = now / 1000 - s.timestamp;
            is_say(r, song_line(s, if into > 0 { Some(into as nat) } else { None }))
        },
    }
}

/// The reply `text` to the sender.
pub open spec fn is_reply(r: Option<Response>, text: Seq<char>) -> bool {
    r matches Some(x) && is_text(x, true, text)
}

/// The message `text` to the channel.
pub open spec fn is_say(r: Option<Response>, text: Seq<char>) -> bool {
    r matches Some(x) && is_text(x, false, text)
}

fn song_text(s: &Song) -> (r: String)
    ensures
        r@ == song_line(*s, None),
{
    let mut t = String::from_str("\"");
    t.append(trim(s.title.as_str()));
    t.append("\" youtu.be/");
    t.append(s.vid.as_str());
    proof {
        reveal_strlit("");
    }
    assert(t@ =~= song_line(*s, None));
    t
}

impl CurrentSong {
    /// The song commands.
    pub fn create() -> (r: Self) {
        CurrentSong
    }

    /// Where to ask the player about the song `req` names.
    pub fn song_url(req: Req) -> (r: String)
        ensures
            r@ == song_url_spec(req),
    {
        let mut u = String::from_str("http://localhost:50006/");
        match req {
            Req::Current => u.append("current"),
            Req::Previous => u.append("prev"),
        }
        u
    }

    /// `!song` at `now` (milliseconds since the Unix epoch), with the song the player
    /// says is playing (`None` when it said none): its title and link, into the video by
    /// the seconds since it started when that is more than none. When chrono cannot
    /// represent the start, nothing is said.
    pub fn info_at(&self, song: Option<&Song>, now: i64) -> (r: Option<Response>)
        requires
            song matches Some(s) ==> 0 <= s.duration <= i64::MAX / 1000,
        ensures
            song_answer(r, opt_song(song), now),
    {
        let s = match song {
            Some(s) => s,
            None => return Some(Response::Reply { data: String::from_str("no song is currently playing") }),
        };
        if utc_date(s.timestamp).is_none() {
            return None;
        }
        let secs: i64 = if now >= 0 {
            now / 1000
        } else {
            -((-(now + 1)) / 1000) - 1
        };
        assert(secs == now / 1000) by (nonlinear_arith)
            requires
                now >= 0 ==> secs == now / 1000,
                now < 0 ==> secs == -((-(now + 1)) / 1000) - 1,
        ;
        let into: i128 = secs as i128 - s.timestamp as i128;
        let mut t = song_text(s);
        if into > 0 {
            assert(into < 0x1_0000_0000_0000_0000);
            let d = decimal_chars(into as u64);
            t.append("?t=");
            push_chars(&mut t, &d);
            t.append("s");
            proof {
                reveal_strlit("");
                assert((into as u64) as nat == into as nat);
            }
            assert(t@ =~= song_line(*s, Some(into as nat)));
        } else {
            proof {
                reveal_strlit("");
            }
            assert(t@ =~= song_line(*s, None));
        }
        let r = Some(Response::Say { data: t });
        assert(is_say(
            r,
            song_line(
                *s,
                if now / 1000 - s.timestamp > 0 {
                    Some((now / 1000 - s.timestamp) as nat)
                } else {
                    None
                },
            ),
        ));
        r
    }

    /// `!song` by the system clock: what `info_at` answers at the instant the clock reads.
    /// A clock before the Unix epoch counts as the earliest instant, before the song's
    /// start, so the link then points at the start of the video.
    pub fn info_command(&self, song: Option<&Song>) -> (r: Option<Response>)
        requires
            song matches Some(s) ==> 0 <= s.duration <= i64::MAX / 1000,
        ensures
            exists|now: i64|
                (now == i64::MIN || now >= 0) && #[trigger] song_answer(r, opt_song(song), now),
    {
        let now = match now_millis() {
            Some(ms) => ms,
            None => i64::MIN,
        };
        self.info_at(song, now)
    }

    /// `!prevsong`, with the song the player says played before (`None` when it said
    /// none): when it started, its title and link. When chrono cannot represent the
    /// start, nothing is said.
    pub fn prev_command(&self, song: Option<&Song>) -> (r: Option<Response>)
        ensures
            match song {
                None => is_reply(r, "I don't remember a song playing then"@),
                Some(s) => match utc_date_text(s.timestamp) {
                    None => r is None,
                    Some(when) => is_say(
                        r,
                        "previous song: (started at "@ + when + ") "@ + song_line(*s, None),
                    ),
                },
            },
    {
        let s = match song {
            Some(s) => s,
            None => return Some(
                Response::Reply { data: String::from_str("I don't remember a song playing then") },
            ),
        };
        let when = match utc_date(s.timestamp) {
            Some(w) => w,
            None => return None,
        };
        let mut t = String::from_str("previous song: (started at ");
        t.append(when.as_str());
        t.append(") ");
        let line = song_text(s);
        t.append(line.as_str());
        Some(Response::Say { data: t })
    }
}

} // verus!
