//! A chat user as the bot remembers them: twitch id, display name and color. Storing
//! users is the caller's part; this module reads a user from a message's tags.

use crate::color::{parse_rgb, RGB};
use crate::tags::{tag_value, Tags};
use crate::text::{parse_i64, parse_i64_spec, str_eq};
use vstd::prelude::*;

verus! {

/// A user: twitch id, display name, and chat color.
#[derive(Clone, PartialEq, Debug)]
pub struct User {
    pub userid: i64,
    pub display: String,
    pub color: RGB,
}

/// The color the bot gives a user whose color it does not know.
pub open spec fn default_color() -> RGB {
    parse_rgb("fc0fc0"@)
}

/// The user (id, display name, color) that a message with the IRC command `command` and
/// the tags `tags` names: a `PRIVMSG` or `WHISPER` carries all three (a missing color is
/// white); a `GLOBALUSERSTATE` carries no color, and gets the default one.
pub open spec fn user_spec(command: Seq<char>, tags: Map<Seq<char>, Seq<char>>) -> Option<
    (i64, Seq<char>, RGB),
> {
    let id = match tag_value(tags, "user-id"@) {
        Some(s) => parse_i64_spec(s),
        None => None,
    };
    let display = tag_value(tags, "display-name"@);
    if command == "PRIVMSG"@ || command == "WHISPER"@ || command == "GLOBALUSERSTATE"@ {
        match (id, display) {
            (Some(i), Some(d)) => Some(
                (
                    i as i64,
                    d,
                    if command == "GLOBALUSERSTATE"@ {
                        default_color()
                    } else {
                        match tag_value(tags, "color"@) {
                            Some(c) => parse_rgb(c),
                            None => RGB(255, 255, 255),
                        }
                    },
                ),
            ),
            _ => None,
        }
    } else {
        None
    }
}

impl User {
    /// The user that a message with the IRC command `command` and the tags `tags`
    /// names, if it names one (its id is read as an `i64`).
    pub fn from_tags(command: &str, tags: &Tags) -> (r: Option<User>)
        ensures
            match user_spec(command@, tags@) {
                Some((i, d, c)) => r matches Some(u) && u.userid == i && u.display@ == d
                    && u.color == c,
                None => r is None,
            },
    {
        let global = str_eq(command, "GLOBALUSERSTATE");
        if !(str_eq(command, "PRIVMSG") || str_eq(command, "WHISPER") || global) {
            return None;
        }
        let userid = match tags.get_userid() {
            Some(s) => match parse_i64(s) {
                Some(i) => i,
                None => return None,
            },
            None => return None,
        };
        let display = match tags.get_display() {
            Some(d) => String::from_str(d),
            None => return None,
        };
        let color = if global {
            RGB::from_str("fc0fc0")
        } else {
            match tags.get_color() {
                Some(c) => c,
                None => return None,
            }
        };
        Some(User { userid, display, color })
    }
}

} // verus!
