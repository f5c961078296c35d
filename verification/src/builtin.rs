//! The built-in commands: joining the channel and answering pings, the commands that
//! users add (stored by the caller in a database), help, the version, and the stream's
//! viewers and uptime.

use crate::clock::{now_millis, parse_utc_millis, utc_millis};
use crate::request::Request;
use crate::response::{is_text, IrcCommand, Response};
use crate::text::{split_whitespace, str_eq, trim, trim_spec, views, words};
use crate::twitch::Stream;
use crate::util::{commas, readable_time_spec, signed_commas, CommaSeparated, Timestamp};
use vstd::prelude::*;
use vstd::utf8::encode_utf8;

verus! {

/// A command that a user added: its name, what it says, its description, who made it
/// and when (seconds since the Unix epoch), how often it was used, and whether it is
/// switched off.
#[derive(Default, Debug)]
pub struct UserCommand {
    pub command: String,
    pub body: String,
    pub description: String,
    pub creator: i64,
    pub created_at: i64,
    pub uses: i64,
    pub disabled: bool,
}

/// The name the built-in commands register under.
pub const NAME: &'static str = "Builtin";

/// The built-in commands, for the channel the bot joins.
pub struct Builtin {
    channel: String,
}

/// The reply `text` to the sender.
pub open spec fn is_reply(r: Option<Response>, text: Seq<char>) -> bool {
    r matches Some(x) && is_text(x, true, text)
}

fn reply_string(text: String) -> (r: Option<Response>)
    ensures
        is_reply(r, text@),
{
    Some(Response::Reply { data: text })
}

fn reply_str(text: &str) -> (r: Option<Response>)
    ensures
        is_reply(r, text@),
{
    Some(Response::Reply { data: String::from_str(text) })
}

/// `r` refuses with the reply `text`.
pub open spec fn refused<T>(r: Result<T, Option<Response>>, text: Seq<char>) -> bool {
    r matches Err(e) && is_reply(e, text)
}

/// `a`, then `s` in single quotes, then `b`.
pub open spec fn quoted(a: Seq<char>, s: Seq<char>, b: Seq<char>) -> Seq<char> {
    a + "'"@ + s + "'"@ + b
}

fn quoted_text(a: &str, s: &str, b: &str) -> (r: String)
    ensures
        r@ == quoted(a@, s@, b@),
{
    let mut t = String::from_str(a);
    t.append("'");
    t.append(s);
    t.append("'");
    t.append(b);
    t
}

/// The pieces appended one after another, with a space before each one that follows
/// some text.
pub open spec fn spaced(w: Seq<Seq<char>>) -> Seq<char>
    decreases w.len(),
{
    if w.len() == 0 {
        seq![]
    } else {
        let acc = spaced(w.drop_last());
        if acc.len() > 0 {
            acc + " "@ + w.last()
        } else {
            acc + w.last()
        }
    }
}

/// The first word of the arguments, and the other words joined by single spaces.
pub open spec fn arg_parts_spec(args: Seq<char>) -> Option<(Seq<char>, Seq<char>)> {
    let w = words(args);
    if w.len() == 0 {
        None
    } else {
        Some((w[0], spaced(w.drop_first().map_values(|x: Seq<char>| trim_spec(x)))))
    }
}

/// The name under which `!add name ...` adds a command: the name with a `!` in front
/// when it has none.
pub open spec fn command_name(name: Seq<char>) -> Seq<char> {
    if name.len() > 0 && name[0] == '!' {
        name
    } else {
        "!"@ + name
    }
}

/// The length of a text in UTF-8 bytes, as `str::len` gives it.
pub open spec fn byte_len(s: Seq<char>) -> nat {
    (encode_utf8(s).len() as usize) as nat
}

/// One step of wrapping: the finished lines and the line being filled, after `cmd`.
pub open spec fn wrap_step(lines: Seq<Seq<char>>, line: Seq<char>, cmd: Seq<char>) -> (
    Seq<Seq<char>>,
    Seq<char>,
) {
    let (lines2, line2) = if byte_len(line) + byte_len(cmd) > 40 {
        (lines.push(line), Seq::<char>::empty())
    } else {
        (lines, line)
    };
    (
        lines2,
        if line2.len() > 0 {
            line2 + " "@ + cmd
        } else {
            cmd
        },
    )
}

/// Wrapping `input` so far: the finished lines and the line being filled.
pub open spec fn wrap_fold(input: Seq<Seq<char>>) -> (Seq<Seq<char>>, Seq<char>)
    decreases input.len(),
{
    if input.len() == 0 {
        (seq![], seq![])
    } else {
        let (lines, line) = wrap_fold(input.drop_last());
        wrap_step(lines, line, input.last())
    }
}

/// The words of `input` in lines of words separated by spaces: a line is closed when the
/// next word would take it over 40 bytes; the last line is kept when it is not empty.
pub open spec fn wrap_spec(input: Seq<Seq<char>>) -> Seq<Seq<char>> {
    let (lines, line) = wrap_fold(input);
    if line.len() > 0 {
        lines.push(line)
    } else {
        lines
    }
}

/// The UTF-8 encoding of a concatenation is the concatenation of the encodings.
pub proof fn lemma_encode_concat(a: Seq<char>, b: Seq<char>)
    ensures
        encode_utf8(a + b) == encode_utf8(a) + encode_utf8(b),
    decreases a.len(),
{
    if a.len() == 0 {
        assert(a + b =~= b);
        assert(encode_utf8(a) =~= Seq::<u8>::empty());
        assert(encode_utf8(a) + encode_utf8(b) =~= encode_utf8(b));
    } else {
        lemma_encode_concat(a.drop_first(), b);
        assert((a + b).drop_first() =~= a.drop_first() + b);
        assert((a + b)[0] == a[0]);
        assert(encode_utf8(a + b) =~= encode_utf8(a) + encode_utf8(b));
    }
}

/// The string views of strings.
pub open spec fn string_views(v: Seq<String>) -> Seq<Seq<char>> {
    v.map_values(|s: String| s@)
}

/// Wraps command names into lines of at most 40 bytes (a longer name stands alone).
pub fn wrap(input: Vec<String>) -> (r: Vec<String>)
    ensures
        string_views(r@) == wrap_spec(string_views(input@)),
{
    let ghost all = string_views(input@);
    let mut lines: Vec<String> = Vec::new();
    let mut line = String::new();
    let mut i: usize = 0;
    while i < input.len()
        invariant
            i <= input@.len(),
            all == string_views(input@),
            (string_views(lines@), line@) == wrap_fold(all.subrange(0, i as int)),
        decreases input@.len() - i,
    {
        let command = &input[i];
        assert(all.subrange(0, i + 1).drop_last() =~= all.subrange(0, i as int));
        assert(all.subrange(0, i + 1).last() == command@);
        let ll = line.as_str().len();
        let cl = command.as_str().len();
        assert(ll == byte_len(line@) && cl == byte_len(command@));
        if ll > 40 || cl > 40 - ll {
            let ghost before = lines@;
            lines.push(line.clone());
            assert(string_views(lines@) =~= string_views(before).push(line@));
            line = String::new();
        }
        if !line.as_str().is_empty() {
            crate::text::push_char(&mut line, ' ');
            proof {
                reveal_strlit(" ");
                assert(" "@ =~= seq![' ']);
            }
        }
        line.append(command.as_str());
        i += 1;
    }
    assert(all.subrange(0, i as int) =~= all);
    if !line.as_str().is_empty() {
        let ghost before = lines@;
        lines.push(line);
        assert(string_views(lines@) =~= string_views(before).push(line@));
    }
    lines
}

/// The whisper `text`.
pub open spec fn is_whisper(r: Response, text: Seq<char>) -> bool {
    r matches Response::Whisper { data } && data@ == text
}

/// `r` is a list of whispers of `lines`, in order.
pub open spec fn whispers(r: Response, lines: Seq<Seq<char>>) -> bool {
    &&& r matches Response::Multi { data }
    &&& r->Multi_data@.len() == lines.len()
    &&& forall|k: int| 0 <= k < lines.len() ==> is_whisper(#[trigger] r->Multi_data@[k], lines[k])
}

fn whisper_all(lines: &Vec<String>) -> (r: Response)
    ensures
        whispers(r, string_views(lines@)),
{
    let mut out: Vec<Response> = Vec::new();
    let mut i: usize = 0;
    while i < lines.len()
        invariant
            i <= lines@.len(),
            out@.len() == i,
            forall|k: int| 0 <= k < i ==> is_whisper(#[trigger] out@[k], lines@[k]@),
        decreases lines@.len() - i,
    {
        out.push(Response::Whisper { data: lines[i].clone() });
        i += 1;
    }
    Response::Multi { data: out }
}

/// The streams an optional slice holds.
pub open spec fn opt_streams(s: Option<&[Stream]>) -> Option<Seq<Stream>> {
    match s {
        Some(v) => Some(v@),
        None => None,
    }
}

/// `uptime: ` and how long it is from `start` to `now` (milliseconds), in whole seconds.
pub open spec fn uptime_line(start: i64, now: i64) -> Seq<char> {
    "uptime: "@ + readable_time_spec(((now - start) / 1000) as nat)
}

/// `r` is the answer to `!uptime` at `now` for the listed `streams`.
pub open spec fn uptime_answer(r: Option<Response>, streams: Option<Seq<Stream>>, now: i64) -> bool {
    match live_stream(streams) {
        None => is_reply(r, "the stream doesn't seem to be live"@),
        Some(s) => match utc_millis(s.started_at@) {
            None => r is None,
            Some(start) => if now < start {
                r is None
            } else {
                r matches Some(x) && is_text(x, false, uptime_line(start, now))
            },
        },
    }
}

/// The first of `streams`, when it is live.
pub open spec fn live_stream(streams: Option<Seq<Stream>>) -> Option<Stream> {
    match streams {
        Some(s) => if s.len() > 0 && s[0].live@.len() > 0 {
            Some(s[0])
        } else {
            None
        },
        None => None,
    }
}

/// The reply to `!info` for the command `c`, made by a user shown as `creator`.
pub open spec fn info_lines(c: UserCommand, creator: Seq<char>) -> Seq<Seq<char>> {
    seq![
        c.command@ + " -- "@ + c.description@,
        c.body@,
        "created by "@ + creator + ", at "@ + readable_time_spec((c.created_at as u64) as nat)
            + ". used "@ + signed_commas(c.uses as int) + " times"@,
    ]
}

/// `r` is a list of replies `lines`, in order.
pub open spec fn replies(r: Option<Response>, lines: Seq<Seq<char>>) -> bool {
    &&& r matches Some(Response::Multi { data })
    &&& r->0->Multi_data@.len() == lines.len()
    &&& forall|k: int| 0 <= k < lines.len() ==> is_text(#[trigger] r->0->Multi_data@[k], true, lines[k])
}

impl Builtin {
    /// The channel the bot joins (without `#`).
    pub closed spec fn channel_spec(&self) -> Seq<char> {
        self.channel@
    }

    /// The built-in commands for `channel`.
    pub fn create(channel: &str) -> (r: Self)
        ensures
            r.channel_spec() == channel@,
    {
        Builtin { channel: String::from_str(channel) }
    }

    /// A raw IRC message with the command `command` and the data `data`: the welcome
    /// (`001`) joins the channel, and a `PING` is answered with a `PONG` of its data.
    pub fn event(&self, command: &str, data: &str) -> (r: Option<Response>)
        ensures
            command@ == "001"@ ==> (r matches Some(
                Response::Command { cmd: IrcCommand::Join { channel } },
            ) && channel@ == "#"@ + self.channel_spec()),
            command@ == "PING"@ ==> (r matches Some(
                Response::Command { cmd: IrcCommand::Raw { data: d } },
            ) && d@ == "PONG :"@ + data@),
            command@ != "001"@ && command@ != "PING"@ ==> r is None,
    {
        proof {
            reveal_strlit("001");
            reveal_strlit("PING");
            assert("001"@.len() != "PING"@.len());
        }
        if str_eq(command, "001") {
            let mut ch = String::from_str("#");
            ch.append(self.channel.as_str());
            return crate::response::join(ch.as_str());
        }
        if str_eq(command, "PING") {
            let mut d = String::from_str("PONG :");
            d.append(data);
            return Some(Response::Command { cmd: IrcCommand::Raw { data: d } });
        }
        None
    }

    /// A message that no built-in command matched: the user command of that name
    /// (`command`, as the caller found it) says its body unless it is switched off.
    pub fn try_user_command(&self, command: Option<&UserCommand>) -> (r: Option<Response>)
        ensures
            match command {
                Some(c) => if c.disabled {
                    r is None
                } else {
                    r matches Some(x) && is_text(x, false, c.body@)
                },
                None => r is None,
            },
    {
        match command {
            Some(c) => if c.disabled {
                None
            } else {
                Some(Response::Say { data: c.body.clone() })
            },
            None => None,
        }
    }

    /// The first argument, and the others trimmed and joined by single spaces.
    pub fn arg_parts(req: &Request) -> (r: Option<(String, String)>)
        ensures
            match r {
                Some((h, t)) => arg_parts_spec(req@.args) == Some((h@, t@)),
                None => arg_parts_spec(req@.args) is None,
            },
    {
        let parts = req.args_iter();
        if parts.len() == 0 {
            return None;
        }
        let head = String::from_str(parts[0]);
        let ghost w = words(req@.args);
        let ghost rest = w.drop_first().map_values(|x: Seq<char>| trim_spec(x));
        let mut tail = String::new();
        let mut i: usize = 1;
        assert(rest.subrange(0, 0) =~= Seq::<Seq<char>>::empty());
        while i < parts.len()
            invariant
                1 <= i <= parts@.len(),
                views(parts@) == w,
                rest == w.drop_first().map_values(|x: Seq<char>| trim_spec(x)),
                tail@ == spaced(rest.subrange(0, i - 1)),
            decreases parts@.len() - i,
        {
            let c = trim(parts[i]);
            assert(views(parts@)[i as int] == parts@[i as int]@);
            assert(c@ == rest[i - 1]);
            let ghost sub = rest.subrange(0, i as int);
            assert(sub.drop_last() =~= rest.subrange(0, i - 1));
            assert(sub.last() == c@);
            if !tail.as_str().is_empty() {
                tail.append(" ");
            }
            tail.append(c);
            i += 1;
        }
        assert(rest.subrange(0, i - 1) =~= rest);
        Some((head, tail))
    }

    /// `!add name body` (privileged only): the command to store, with a `!` put in front
    /// of its name when it has none, made by the sender now (`created_at`: the system
    /// clock's whole seconds since the Unix epoch, 0 when the clock reads before it); or
    /// the reply that refuses it (a name in `reserved` is taken by the bot's own commands).
    #[verifier::loop_isolation(false)]
    pub fn add_command(&self, req: &Request, privileged: bool, reserved: &[String]) -> (r: Result<
        UserCommand,
        Option<Response>,
    >)
        ensures
            !privileged ==> refused(r, "you cannot do that"@),
            privileged && arg_parts_spec(req@.args) is None ==> refused(r, "invalid arguments"@),
            privileged ==> (arg_parts_spec(req@.args) matches Some((h, t)) ==> {
                let name = command_name(h);
                if string_views(reserved@).contains(name) {
                    refused(r, quoted(""@, name, " is a reserved name"@))
                } else {
                    r matches Ok(c) && c.command@ == name && c.body@ == t && c.description@
                        == "no description provided"@ && c.creator == req@.sender && c.uses == 0
                        && !c.disabled && 0 <= c.created_at <= i64::MAX / 1000
                }
            }),
    {
        if !privileged {
            return Err(reply_str("you cannot do that"));
        }
        let (head, body) = match Self::arg_parts(req) {
            Some(p) => p,
            None => return Err(reply_str("invalid arguments")),
        };
        let command = if crate::text::starts_with_char(head.as_str(), '!') {
            head
        } else {
            let mut c = String::from_str("!");
            c.append(head.as_str());
            c
        };
        let mut i: usize = 0;
        while i < reserved.len()
            invariant
                i <= reserved@.len(),
                forall|k: int| 0 <= k < i ==> reserved@[k]@ != command@,
            decreases reserved@.len() - i,
        {
            if str_eq(reserved[i].as_str(), command.as_str()) {
                assert(string_views(reserved@)[i as int] == command@);
                return Err(reply_string(quoted_text("", command.as_str(), " is a reserved name")));
            }
            i += 1;
        }
        assert(!string_views(reserved@).contains(command@)) by {
            if string_views(reserved@).contains(command@) {
                let k = choose|k: int| 0 <= k < reserved@.len() && string_views(reserved@)[k] == command@;
                assert(reserved@[k]@ != command@);
            }
        }
        Ok(
            UserCommand {
                command,
                body,
                description: String::from_str("no description provided"),
                creator: req.sender(),
                created_at: match now_millis() {
                    Some(ms) => ms / 1000,
                    None => 0,
                },
                uses: 0,
                disabled: false,
            },
        )
    }

    /// The reply once the command `name` was stored: `rows` is how many rows the insert
    /// changed (none when the name was there already), `None` when it failed.
    pub fn command_added(name: &str, rows: Option<usize>) -> (r: Option<Response>)
        ensures
            match rows {
                Some(0) => is_reply(r, quoted(""@, name@, " already exists as a command"@)),
                Some(_) => is_reply(r, quoted("added "@, name@, " as a command"@)),
                None => is_reply(r, quoted("couldn't add "@, name@, " as a command"@)),
            },
    {
        match rows {
            Some(0) => reply_string(quoted_text("", name, " already exists as a command")),
            Some(_) => reply_string(quoted_text("added ", name, " as a command")),
            None => reply_string(quoted_text("couldn't add ", name, " as a command")),
        }
    }

    /// `!edit name description` (privileged only): the command and its new description,
    /// or the reply that refuses it.
    pub fn edit_command(&self, req: &Request, privileged: bool) -> (r: Result<
        (String, String),
        Option<Response>,
    >)
        ensures
            !privileged ==> refused(r, "you cannot do that"@),
            privileged ==> match arg_parts_spec(req@.args) {
                None => refused(r, "invalid arguments"@),
                Some((h, t)) => r matches Ok((n, d)) && n@ == h && d@ == t,
            },
    {
        if !privileged {
            return Err(reply_str("you cannot do that"));
        }
        match Self::arg_parts(req) {
            Some(p) => Ok(p),
            None => Err(reply_str("invalid arguments")),
        }
    }

    /// The reply once the description of `name` was (`ok`) or was not written.
    pub fn command_edited(name: &str, ok: bool) -> (r: Option<Response>)
        ensures
            ok ==> is_reply(r, quoted("edited "@, name@, ""@)),
            !ok ==> is_reply(r, quoted("couldn't edit "@, name@, ""@)),
    {
        if ok {
            reply_string(quoted_text("edited ", name, ""))
        } else {
            reply_string(quoted_text("couldn't edit ", name, ""))
        }
    }

    /// `!info name` (privileged only), where `command` is the command stored under the
    /// arguments and `creator` the display name of its maker, when known.
    pub fn info_command(
        &self,
        req: &Request,
        privileged: bool,
        command: Option<&UserCommand>,
        creator: Option<&str>,
    ) -> (r: Option<Response>)
        ensures
            !privileged ==> is_reply(r, "you cannot do that"@),
            privileged ==> match command {
                None => is_reply(r, quoted(""@, req@.args, " isn't a command"@)),
                Some(c) => replies(
                    r,
                    info_lines(
                        *c,
                        match creator {
                            Some(n) => n@,
                            None => "unknown"@,
                        },
                    ),
                ),
            },
    {
        if !privileged {
            return reply_str("you cannot do that");
        }
        let c = match command {
            Some(c) => c,
            None => return reply_string(quoted_text("", req.args(), " isn't a command")),
        };
        let user = match creator {
            Some(n) => String::from_str(n),
            None => String::from_str("unknown"),
        };
        let mut first = c.command.clone();
        first.append(" -- ");
        first.append(c.description.as_str());
        let mut third = String::from_str("created by ");
        third.append(user.as_str());
        third.append(", at ");
        let secs: u64 = c.created_at as u64;
        let when = secs.as_readable_time();
        third.append(when.as_str());
        third.append(". used ");
        let uses = c.uses.comma_separate();
        third.append(uses.as_str());
        third.append(" times");
        let mut data: Vec<Response> = Vec::new();
        data.push(Response::Reply { data: first });
        data.push(Response::Reply { data: c.body.clone() });
        data.push(Response::Reply { data: third });
        let r = Some(Response::Multi { data });
        assert(r->0->Multi_data@.len() == 3);
        r
    }

    /// `!remove name` (privileged only): the reply, and the name of the command to
    /// delete.
    pub fn remove_command(&self, req: &Request, privileged: bool) -> (r: (
        Option<Response>,
        Option<String>,
    ))
        ensures
            !privileged ==> is_reply(r.0, "you cannot do that"@) && r.1 is None,
            privileged ==> match arg_parts_spec(req@.args) {
                None => is_reply(r.0, "invalid arguments"@) && r.1 is None,
                Some((h, _)) => is_reply(r.0, "if that was a command, its no longer one"@) && (
                r.1 matches Some(n) && n@ == h),
            },
    {
        if !privileged {
            return (reply_str("you cannot do that"), None);
        }
        match Self::arg_parts(req) {
            Some((head, _)) => (reply_str("if that was a command, its no longer one"), Some(head)),
            None => (reply_str("invalid arguments"), None),
        }
    }

    /// `!help`: whispers the bot's own commands (`system`) and the users' commands
    /// (`user`), each list wrapped into lines.
    pub fn help_command(&self, system: Vec<String>, user: Vec<String>) -> (r: Option<Response>)
        ensures
            r matches Some(Response::Multi { data }),
            r->0->Multi_data@.len() == 4,
            is_whisper(r->0->Multi_data@[0], "system commands:"@),
            whispers(r->0->Multi_data@[1], wrap_spec(string_views(system@))),
            is_whisper(r->0->Multi_data@[2], "user commands:"@),
            whispers(r->0->Multi_data@[3], wrap_spec(string_views(user@))),
    {
        let system = wrap(system);
        let user = wrap(user);
        let mut data: Vec<Response> = Vec::new();
        data.push(Response::Whisper { data: String::from_str("system commands:") });
        data.push(whisper_all(&system));
        data.push(Response::Whisper { data: String::from_str("user commands:") });
        data.push(whisper_all(&user));
        Some(Response::Multi { data })
    }

    /// `!version`, for the revision `rev` on the branch `branch`.
    pub fn version_command(&self, rev: &str, branch: &str) -> (r: Option<Response>)
        ensures
            is_reply(
                r,
                "https://github.com/museun/shaken ("@ + rev@ + " on "@ + quoted(""@, branch@, " branch)"@),
            ),
    {
        let mut s = String::from_str("https://github.com/museun/shaken (");
        s.append(rev);
        s.append(" on ");
        let q = quoted_text("", branch, " branch)");
        s.append(q.as_str());
        reply_string(s)
    }

    /// `!viewers`, with the streams the Helix API listed for the channel (`None` when the
    /// request failed).
    pub fn viewers_command(&self, streams: Option<&[Stream]>) -> (r: Option<Response>)
        ensures
            match live_stream(opt_streams(streams)) {
                None => is_reply(r, "the stream doesn't seem to be live"@),
                Some(s) => is_reply(r, "viewers: "@ + commas(s.viewer_count as nat)),
            },
    {
        let stream = match streams {
            Some(s) => if s.len() > 0 {
                &s[0]
            } else {
                return reply_str("the stream doesn't seem to be live");
            },
            None => return reply_str("the stream doesn't seem to be live"),
        };
        if stream.live.as_str().is_empty() {
            return reply_str("the stream doesn't seem to be live");
        }
        let mut t = String::from_str("viewers: ");
        let n = stream.viewer_count.comma_separate();
        t.append(n.as_str());
        reply_string(t)
    }

    /// `!uptime` at `now` (milliseconds since the Unix epoch), with the streams the Helix
    /// API listed for the channel (`None` when the request failed): how long the stream
    /// has run. When chrono cannot read the start of the stream, or it lies after `now`,
    /// nothing is said.
    pub fn uptime_at(&self, streams: Option<&[Stream]>, now: i64) -> (r: Option<Response>)
        ensures
            uptime_answer(r, opt_streams(streams), now),
    {
        let stream = match streams {
            Some(s) => if s.len() > 0 {
                &s[0]
            } else {
                return reply_str("the stream doesn't seem to be live");
            },
            None => return reply_str("the stream doesn't seem to be live"),
        };
        if stream.live.as_str().is_empty() {
            return reply_str("the stream doesn't seem to be live");
        }
        let start = match parse_utc_millis(stream.started_at.as_str()) {
            Some(t) => t,
            None => return None,
        };
        if now < start {
            return None;
        }
        let secs: u64 = ((now as i128 - start as i128) / 1000) as u64;
        let mut t = String::from_str("uptime: ");
        let d = secs.as_readable_time();
        t.append(d.as_str());
        assert(t@ == uptime_line(start, now));
        Some(Response::Say { data: t })
    }

    /// `!uptime` by the system clock: what `uptime_at` answers at the instant the clock
    /// reads. A clock before the Unix epoch counts as the earliest instant, before any
    /// stream's start, so nothing is said of a live stream then.
    pub fn uptime_command(&self, streams: Option<&[Stream]>) -> (r: Option<Response>)
        ensures
            exists|now: i64|
                (now == i64::MIN || now >= 0) && #[trigger] uptime_answer(r, opt_streams(streams), now),
    {
        let now = match now_millis() {
            Some(ms) => ms,
            None => i64::MIN,
        };
        self.uptime_at(streams, now)
    }
}


/// The lines of a wrap, with what is still being filled.
pub open spec fn wrap_all(input: Seq<Seq<char>>) -> Seq<Seq<char>> {
    let (lines, line) = wrap_fold(input);
    if line.len() > 0 {
        lines.push(line)
    } else {
        lines
    }
}

proof fn lemma_spaced_nonempty(w: Seq<Seq<char>>)
    requires
        w.len() > 0,
        w.last().len() > 0,
    ensures
        spaced(w).len() > 0,
{
}

proof fn lemma_wrap_fold(input: Seq<Seq<char>>)
    requires
        forall|k: int| 0 <= k < input.len() ==> #[trigger] input[k].len() > 0,
    ensures
        spaced(wrap_all(input)) == spaced(input),
        (wrap_fold(input).1.len() == 0) == (input.len() == 0),
        input.len() == 0 ==> wrap_fold(input).0.len() == 0,
        input.len() > 0 ==> spaced(input).len() > 0,
    decreases input.len(),
{
    if input.len() > 0 {
        let prev = input.drop_last();
        let cmd = input.last();
        assert forall|k: int| 0 <= k < prev.len() implies #[trigger] prev[k].len() > 0 by {
            assert(prev[k] == input[k]);
        }
        lemma_wrap_fold(prev);
        let (lines, line) = wrap_fold(prev);
        assert(input.len() > 0 ==> cmd.len() > 0) by {
            assert(input[input.len() - 1] == cmd);
        }
        assert(prev.push(cmd) =~= input);
        if byte_len(line) + byte_len(cmd) > 40 {
            let l2 = lines.push(line);
            assert(wrap_all(input) =~= l2.push(cmd));
            assert(l2.push(cmd).drop_last() =~= l2);
            if line.len() == 0 {
                assert(l2 =~= seq![line]);
                assert(l2.drop_last() =~= Seq::<Seq<char>>::empty());
                assert(spaced(l2) == line);
                assert(prev =~= Seq::<Seq<char>>::empty());
                assert(spaced(input) =~= cmd);
            } else {
                assert(wrap_all(prev) == l2);
                lemma_spaced_nonempty(l2);
            }
        } else {
            let l3 = if line.len() > 0 {
                line + " "@ + cmd
            } else {
                cmd
            };
            assert(wrap_all(input) =~= lines.push(l3));
            assert(lines.push(l3).drop_last() =~= lines);
            if line.len() == 0 {
                assert(prev =~= Seq::<Seq<char>>::empty());
                assert(lines =~= Seq::<Seq<char>>::empty());
                assert(spaced(input) =~= cmd);
            } else {
                assert(wrap_all(prev) == lines.push(line));
                assert(lines.push(line).drop_last() =~= lines);
                let acc = spaced(lines);
                if acc.len() > 0 {
                    assert(acc + " "@ + l3 =~= (acc + " "@ + line) + " "@ + cmd);
                } else {
                    assert(acc + l3 =~= (acc + line) + " "@ + cmd);
                }
            }
        }
    }
}

/// Wrapping keeps every command name, in order: the wrapped lines, joined by spaces,
/// are the names joined by spaces (for names that are not empty).
pub proof fn law_wrap_keeps_names(input: Seq<Seq<char>>)
    requires
        forall|k: int| 0 <= k < input.len() ==> #[trigger] input[k].len() > 0,
    ensures
        spaced(wrap_spec(input)) == spaced(input),
{
    lemma_wrap_fold(input);
}

/// A line fits the width, counting the space before a name, or holds a single name.
pub open spec fn fits_or_single(l: Seq<char>, input: Seq<Seq<char>>) -> bool {
    encode_utf8(l).len() <= 41 || input.contains(l)
}

proof fn lemma_wrap_fold_width(input: Seq<Seq<char>>)
    requires
        forall|k: int| 0 <= k < input.len() ==> encode_utf8(#[trigger] input[k]).len() <= usize::MAX,
    ensures
        forall|i: int| 0 <= i < wrap_fold(input).0.len() ==> fits_or_single(
            #[trigger] wrap_fold(input).0[i],
            input,
        ),
        fits_or_single(wrap_fold(input).1, input),
    decreases input.len(),
{
    if input.len() == 0 {
        assert(encode_utf8(Seq::<char>::empty()) =~= Seq::<u8>::empty());
    } else {
        let prev = input.drop_last();
        let cmd = input.last();
        assert forall|k: int| 0 <= k < prev.len() implies encode_utf8(#[trigger] prev[k]).len()
            <= usize::MAX by {
            assert(prev[k] == input[k]);
        }
        lemma_wrap_fold_width(prev);
        let (lines, line) = wrap_fold(prev);
        assert(input.contains(cmd)) by {
            assert(input[input.len() - 1] == cmd);
        }
        assert forall|l: Seq<char>| fits_or_single(l, prev) implies fits_or_single(l, input) by {
            if prev.contains(l) {
                let k = choose|k: int| 0 <= k < prev.len() && prev[k] == l;
                assert(input[k] == l);
            }
        }
        assert(encode_utf8(cmd).len() <= usize::MAX) by {
            assert(input[input.len() - 1] == cmd);
        }
        let (lines2, line2) = wrap_fold(input);
        assert forall|i: int| 0 <= i < lines2.len() implies fits_or_single(#[trigger] lines2[i], input) by {
            if i < lines.len() {
                assert(fits_or_single(lines[i], prev));
            } else {
                assert(lines2[i] == line);
            }
        }
        if byte_len(line) + byte_len(cmd) <= 40 && line.len() > 0 {
            assert(encode_utf8(line).len() <= usize::MAX) by {
                if !(encode_utf8(line).len() <= 41) {
                    let k = choose|k: int| 0 <= k < prev.len() && prev[k] == line;
                    assert(input[k] == line);
                }
            }
            let sp = seq![' '];
            reveal_strlit(" ");
            assert(" "@ =~= sp);
            assert(sp.drop_first() =~= Seq::<char>::empty());
            assert(encode_utf8(Seq::<char>::empty()) =~= Seq::<u8>::empty());
            assert(encode_utf8(sp).len() == 1);
            lemma_encode_concat(line, sp);
            lemma_encode_concat(line + sp, cmd);
            assert(line2 == line + sp + cmd);
        }
    }
}

/// Wrapping keeps to the width: each line is at most 41 bytes (a line is closed before a
/// name would take it past 40 bytes, and the space before that name is not counted), or
/// holds a single name that is longer on its own.
pub proof fn law_wrap_width(input: Seq<Seq<char>>)
    requires
        forall|k: int| 0 <= k < input.len() ==> encode_utf8(#[trigger] input[k]).len() <= usize::MAX,
    ensures
        forall|i: int| 0 <= i < wrap_spec(input).len() ==> fits_or_single(
            #[trigger] wrap_spec(input)[i],
            input,
        ),
{
    lemma_wrap_fold_width(input);
    let (lines, line) = wrap_fold(input);
    assert forall|i: int| 0 <= i < wrap_spec(input).len() implies fits_or_single(
        #[trigger] wrap_spec(input)[i],
        input,
    ) by {
        if i < lines.len() {
            assert(wrap_spec(input)[i] == lines[i]);
        }
    }
}
} // verus!
