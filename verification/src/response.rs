//! What the bot answers, and the IRC lines that an answer becomes.

use crate::text::str_eq;
use vstd::prelude::*;

verus! {

/// An answer of the bot.
#[derive(Debug, PartialEq)]
pub enum Response {
    /// Several answers, in order.
    Multi { data: Vec<Response> },
    /// A message addressed to the sender.
    Reply { data: String },
    /// A message to the channel.
    Say { data: String },
    /// An action (`/me`) in the channel.
    Action { data: String },
    /// A whisper to the sender.
    Whisper { data: String },
    /// A raw IRC command.
    Command { cmd: IrcCommand },
}

/// An IRC command.
#[derive(Clone, Debug, PartialEq)]
pub enum IrcCommand {
    Join { channel: String },
    Raw { data: String },
    Privmsg { target: String, data: String },
}

/// The IRC lines of an answer: several, or one.
#[derive(Clone, Debug, PartialEq)]
pub enum FormattedResponse {
    List(Vec<String>),
    Single(String),
}

/// The message an answer is for: where it was sent, its IRC command (`PRIVMSG` or
/// `WHISPER`) and the nick of its sender, when the sender is a user.
pub struct Context {
    pub target: String,
    pub command: String,
    pub nick: Option<String>,
}

/// `r` is the command `PRIVMSG target :line`.
pub open spec fn is_privmsg(r: Response, target: Seq<char>, line: Seq<char>) -> bool {
    match r {
        Response::Command { cmd: IrcCommand::Privmsg { target: t, data: d } } => t@ == target && d@
            == line,
        _ => false,
    }
}

/// `r` answers with `line`: a reply when `reply`, a message to the channel otherwise.
pub open spec fn is_text(r: Response, reply: bool, line: Seq<char>) -> bool {
    match r {
        Response::Reply { data } => reply && data@ == line,
        Response::Say { data } => !reply && data@ == line,
        _ => false,
    }
}

/// The message an optional reference points to.
pub open spec fn ctx_of(ctx: Option<&Context>) -> Option<Context> {
    match ctx {
        Some(c) => Some(*c),
        None => None,
    }
}

/// The text an optional string slice holds.
pub open spec fn text_of(s: Option<&str>) -> Option<Seq<char>> {
    match s {
        Some(d) => Some(d@),
        None => None,
    }
}

/// The lines of a formatted answer.
pub open spec fn formatted_lines(f: FormattedResponse) -> Seq<Seq<char>> {
    match f {
        FormattedResponse::List(v) => v@.map_values(|s: String| s@),
        FormattedResponse::Single(s) => seq![s@],
    }
}

/// `PRIVMSG target :data`.
pub open spec fn privmsg_line(target: Seq<char>, data: Seq<char>) -> Seq<char> {
    "PRIVMSG "@ + target + " :"@ + data
}

/// The lines of the answers `rs`, in order, each answer contributing the lines it builds.
pub open spec fn multi_lines(
    rs: Seq<Response>,
    ctx: Option<Context>,
    display: Option<Seq<char>>,
) -> Seq<Seq<char>>
    decreases rs,
{
    if rs.len() == 0 {
        seq![]
    } else {
        let last = rs[rs.len() - 1];
        let init = rs.subrange(0, rs.len() - 1);
        multi_lines(init, ctx, display) + match build_spec(last, ctx, display) {
            Some(f) => f,
            None => seq![],
        }
    }
}

/// The lines that answer `r` builds for the message `ctx`, whose sender shows as
/// `display`; `None` when it builds none. A list of several answers gives a list, any
/// other answer a single line.
pub open spec fn build_spec(r: Response, ctx: Option<Context>, display: Option<Seq<char>>) -> Option<
    Seq<Seq<char>>,
>
    decreases r,
{
    match r {
        Response::Multi { data } => {
            proof {
                assert(decreases_to!(r => data));
                assert(decreases_to!(data => data@));
            }
            Some(multi_lines(data@, ctx, display))
        },
        Response::Command { cmd } => match cmd {
            IrcCommand::Join { channel } => Some(seq!["JOIN "@ + channel@]),
            IrcCommand::Raw { data } => Some(seq![data@]),
            IrcCommand::Privmsg { target, data } => Some(seq![privmsg_line(target@, data@)]),
        },
        _ => match ctx {
            None => None,
            Some(c) => match r {
                Response::Action { data } => Some(
                    seq![privmsg_line(c.target@, "\x01ACTION "@ + data@ + "\x01"@)],
                ),
                _ => match display {
                    None => None,
                    Some(d) => match r {
                        Response::Reply { data } => if c.command@ == "PRIVMSG"@ {
                            Some(seq![privmsg_line(c.target@, "@"@ + d + ": "@ + data@)])
                        } else {
                            Some(seq!["PRIVMSG jtv :/w "@ + d + " "@ + data@])
                        },
                        Response::Say { data } => if c.command@ == "PRIVMSG"@ {
                            Some(seq![privmsg_line(c.target@, data@)])
                        } else {
                            Some(seq!["PRIVMSG jtv :/w "@ + d + " "@ + data@])
                        },
                        Response::Whisper { data } => Some(
                            seq!["PRIVMSG jtv :/w "@ + d + " "@ + data@],
                        ),
                        _ => None,
                    },
                },
            },
        },
    }
}

/// Every answer in `rs` can be built for the message `ctx`.
pub open spec fn multi_ok(rs: Seq<Response>, ctx: Option<Context>, display: Option<Seq<char>>) -> bool
    decreases rs,
{
    if rs.len() == 0 {
        true
    } else {
        let last = rs[rs.len() - 1];
        let init = rs.subrange(0, rs.len() - 1);
        multi_ok(init, ctx, display) && build_ok(last, ctx, display)
    }
}

/// Building `r` for `ctx` reaches no impossible case: an answer to a user needs a
/// message from a user, and a reply or a message to the channel needs a `PRIVMSG` or
/// a `WHISPER`.
pub open spec fn build_ok(r: Response, ctx: Option<Context>, display: Option<Seq<char>>) -> bool
    decreases r,
{
    match r {
        Response::Multi { data } => {
            proof {
                assert(decreases_to!(r => data));
                assert(decreases_to!(data => data@));
            }
            multi_ok(data@, ctx, display)
        },
        Response::Command { .. } => true,
        Response::Action { .. } => true,
        _ => match ctx {
            None => true,
            Some(c) => c.nick is Some && (display is Some ==> (r is Whisper || c.command@
                == "PRIVMSG"@ || c.command@ == "WHISPER"@)),
        },
    }
}

/// Appends the formatted lines of `f` to `out`.
fn push_lines(out: &mut Vec<String>, f: FormattedResponse)
    ensures
        final(out)@.map_values(|s: String| s@) == old(out)@.map_values(|s: String| s@)
            + formatted_lines(f),
{
    match f {
        FormattedResponse::List(v) => {
            let mut v = v;
            let ghost vv = v@;
            let mut rest: Vec<String> = Vec::new();
            let ghost start = out@;
            out.append(&mut v);
            assert(out@.map_values(|s: String| s@) =~= start.map_values(|s: String| s@)
                + vv.map_values(|s: String| s@));
        },
        FormattedResponse::Single(s) => {
            let ghost start = out@;
            let ghost sv = s@;
            out.push(s);
            assert(out@.map_values(|s: String| s@) =~= start.map_values(|s: String| s@) + seq![
                sv,
            ]);
        },
    }
}

/// `PRIVMSG target :data`.
fn privmsg(target: &str, data: &str) -> (r: String)
    ensures
        r@ == privmsg_line(target@, data@),
{
    let mut s = String::from_str("PRIVMSG ");
    s.append(target);
    s.append(" :");
    s.append(data);
    s
}

impl Response {
    /// The IRC lines of this answer for the message `ctx`, whose sender shows as `display`
    /// (the display name the bot has stored for that sender's nick).
    pub fn build(&self, ctx: Option<&Context>, display: Option<&str>) -> (r: Option<
        FormattedResponse,
    >)
        requires
            build_ok(*self, ctx_of(ctx), text_of(display)),
        ensures
            match r {
                Some(f) => build_spec(*self, ctx_of(ctx), text_of(display)) == Some(formatted_lines(f)) && (f is List <==> *self is Multi),
                None => build_spec(*self, ctx_of(ctx), text_of(display)) is None,
            },
        decreases self,
    {
        let ghost cv = ctx_of(ctx);
        let ghost dv = text_of(display);
        match self {
            Response::Multi { data } => {
                let mut out: Vec<String> = Vec::new();
                let mut i: usize = 0;
                while i < data.len()
                    invariant
                        i <= data@.len(),
                        multi_ok(data@, cv, dv),
                        cv == ctx_of(ctx),
                        dv == text_of(display),
                        *self == (Response::Multi { data: *data }),
                        out@.map_values(|s: String| s@) == multi_lines(
                            data@.subrange(0, i as int),
                            cv,
                            dv,
                        ),
                    decreases data@.len() - i,
                {
                    proof {
                        assert(decreases_to!(*self => self->Multi_data));
                        assert(self->Multi_data == *data);
                        assert(decreases_to!(*data => data@));
                        assert(decreases_to!(data@ => data@[i as int]));
                    }
                    let ghost sub = data@.subrange(0, i + 1);
                    assert(sub.subrange(0, sub.len() - 1) =~= data@.subrange(0, i as int));
                    assert(sub[sub.len() - 1] == data@[i as int]);
                    assert(build_ok(data@[i as int], cv, dv)) by {
                        lemma_multi_ok_index(data@, cv, dv, i as int);
                    }
                    match data[i].build(ctx, display) {
                        Some(f) => push_lines(&mut out, f),
                        None => {},
                    }
                    i += 1;
                }
                assert(data@.subrange(0, i as int) =~= data@);
                Some(FormattedResponse::List(out))
            },
            Response::Command { cmd } => match cmd {
                IrcCommand::Join { channel } => {
                    let mut s = String::from_str("JOIN ");
                    s.append(channel.as_str());
                    Some(FormattedResponse::Single(s))
                },
                IrcCommand::Raw { data } => Some(FormattedResponse::Single(data.clone())),
                IrcCommand::Privmsg { target, data } => Some(
                    FormattedResponse::Single(privmsg(target.as_str(), data.as_str())),
                ),
            },
            _ => {
                let c = match ctx {
                    Some(c) => c,
                    None => return None,
                };
                if let Response::Action { data } = self {
                    let mut body = String::from_str("\x01ACTION ");
                    body.append(data.as_str());
                    body.append("\x01");
                    return Some(FormattedResponse::Single(privmsg(c.target.as_str(), body.as_str())));
                }
                let d = match display {
                    Some(d) => d,
                    None => return None,
                };
                let to_channel = str_eq(c.command.as_str(), "PRIVMSG");
                let whisper = |data: &str| -> (w: String)
                    ensures
                        w@ == "PRIVMSG jtv :/w "@ + d@ + " "@ + data@,
                    {
                        let mut w = String::from_str("PRIVMSG jtv :/w ");
                        w.append(d);
                        w.append(" ");
                        w.append(data);
                        w
                    };
                match self {
                    Response::Reply { data } => {
                        if to_channel {
                            let mut body = String::from_str("@");
                            body.append(d);
                            body.append(": ");
                            body.append(data.as_str());
                            Some(FormattedResponse::Single(privmsg(c.target.as_str(), body.as_str())))
                        } else {
                            Some(FormattedResponse::Single(whisper(data.as_str())))
                        }
                    },
                    Response::Say { data } => {
                        if to_channel {
                            Some(FormattedResponse::Single(privmsg(c.target.as_str(), data.as_str())))
                        } else {
                            Some(FormattedResponse::Single(whisper(data.as_str())))
                        }
                    },
                    Response::Whisper { data } => Some(FormattedResponse::Single(whisper(data.as_str()))),
                    _ => None,
                }
            },
        }
    }
}

/// Each answer of a list that can be built can be built.
pub proof fn lemma_multi_ok_index(rs: Seq<Response>, ctx: Option<Context>, display: Option<Seq<char>>, i: int)
    requires
        multi_ok(rs, ctx, display),
        0 <= i < rs.len(),
    ensures
        build_ok(rs[i], ctx, display),
    decreases rs.len(),
{
    if i < rs.len() - 1 {
        let init = rs.subrange(0, rs.len() - 1);
        assert(init[i] == rs[i]);
        lemma_multi_ok_index(init, ctx, display, i);
    }
}

impl FormattedResponse {
    /// The lines, in order.
    pub fn into_vec(self) -> (r: Vec<String>)
        ensures
            r@.map_values(|s: String| s@) == formatted_lines(self),
    {
        let mut out: Vec<String> = Vec::new();
        push_lines(&mut out, self);
        assert(out@.map_values(|s: String| s@) =~= formatted_lines(self));
        out
    }
}

/// The answers that are there, as one list of answers.
pub fn multi(iter: Vec<Option<Response>>) -> (r: Option<Response>)
    ensures
        r matches Some(Response::Multi { data }) && data@ == present(iter@),
{
    let ghost all = iter@;
    let mut rest = iter;
    let mut data: Vec<Response> = Vec::new();
    while rest.len() > 0
        invariant
            0 <= all.len() - rest@.len() <= all.len(),
            rest@ == all.subrange(all.len() - rest@.len(), all.len() as int),
            data@ == present(all.subrange(0, all.len() - rest@.len())),
        decreases rest@.len(),
    {
        let ghost k = all.len() - rest@.len();
        assert(all.subrange(0, k + 1).drop_last() =~= all.subrange(0, k));
        assert(all[k] == rest@[0]);
        let x = rest.remove(0);
        assert(rest@ =~= all.subrange(all.len() - rest@.len(), all.len() as int));
        match x {
            Some(x) => data.push(x),
            None => {},
        }
    }
    assert(all.subrange(0, all.len() as int) =~= all);
    Some(Response::Multi { data })
}

/// The values that are there, in order.
pub open spec fn present<T>(v: Seq<Option<T>>) -> Seq<T>
    decreases v.len(),
{
    if v.len() == 0 {
        seq![]
    } else {
        let rest = present(v.drop_last());
        match v.last() {
            Some(x) => rest.push(x),
            None => rest,
        }
    }
}

/// The answer that joins the channel `ch`.
pub fn join(ch: &str) -> (r: Option<Response>)
    ensures
        r matches Some(Response::Command { cmd: IrcCommand::Join { channel } }) && channel@ == ch@,
{
    Some(Response::Command { cmd: IrcCommand::Join { channel: String::from_str(ch) } })
}


/// A whisper goes privately to the sender: answering a message whose sender shows as
/// `d`, it builds exactly one line, `PRIVMSG jtv :/w <d> <text>`, whatever the channel or
/// the kind of message answered.
pub proof fn law_whisper_is_private(data: String, c: Context, d: Seq<char>)
    ensures
        build_spec(Response::Whisper { data }, Some(c), Some(d)) == Some(
            seq!["PRIVMSG jtv :/w "@ + d + " "@ + data@],
        ),
{
}

/// An answer goes back the way the message came: to a whisper, a reply or a message is
/// whispered to the sender (`PRIVMSG jtv :/w <d> <text>`); to a channel message, a reply
/// is addressed to the sender in that channel (`PRIVMSG <target> :@<d>: <text>`) and a
/// message is said in it (`PRIVMSG <target> :<text>`).
pub proof fn law_answer_follows_message(data: String, c: Context, d: Seq<char>)
    ensures
        c.command@ == "WHISPER"@ ==> build_spec(Response::Reply { data }, Some(c), Some(d))
            == Some(seq!["PRIVMSG jtv :/w "@ + d + " "@ + data@]) && build_spec(
            Response::Say { data },
            Some(c),
            Some(d),
        ) == Some(seq!["PRIVMSG jtv :/w "@ + d + " "@ + data@]),
        c.command@ == "PRIVMSG"@ ==> build_spec(Response::Reply { data }, Some(c), Some(d))
            == Some(seq!["PRIVMSG "@ + c.target@ + " :@"@ + d + ": "@ + data@]) && build_spec(
            Response::Say { data },
            Some(c),
            Some(d),
        ) == Some(seq!["PRIVMSG "@ + c.target@ + " :"@ + data@]),
{
    reveal_strlit("WHISPER");
    reveal_strlit("PRIVMSG");
    reveal_strlit(" :@");
    reveal_strlit(" :");
    reveal_strlit("@");
    reveal_strlit(": ");
    assert("WHISPER"@[0] != "PRIVMSG"@[0]);
    assert("PRIVMSG "@ + c.target@ + " :@"@ + d + ": "@ + data@ =~= privmsg_line(
        c.target@,
        "@"@ + d + ": "@ + data@,
    ));
}
} // verus!
