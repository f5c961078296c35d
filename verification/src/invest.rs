//! The invest game: viewers collect credits by chatting and being around, and can
//! invest them (a coin flip that doubles or loses the stake), give them away, and see
//! where they stand. The credits live in a database that the caller reads and writes;
//! this module decides what each command does with the records it is handed.

use crate::request::Request;
use crate::response::{is_text, Response};
use crate::text::{
    decimal, decimal_chars, digits_from, eq_ignore_ascii_case, eq_ignore_case_spec, parse_unsigned,
    parse_usize_chars, str_eq, take_digits, trim, trim_spec, views, words,
};
use crate::util::{commas, join_spec, join_with, push_chars, push_commas, string_views};
use rand::Rng;
use std::collections::HashMap;
use vstd::prelude::*;

verus! {

/// An amount of credits.
pub type Credit = usize;

/// The result of an operation of the game.
pub type InvestResult<T> = Result<T, InvestError>;

/// Why an operation of the game failed.
#[derive(Debug, PartialEq, Eq, Clone, Copy)]
pub enum InvestError {
    /// The user has fewer credits than they want to invest.
    NotEnoughCredits { have: Credit, want: Credit },
    /// The user's record could not be written.
    CannotInsert { id: i64 },
    /// The user's record could not be read.
    UserNotFound { id: i64 },
    /// No record was found.
    NoRowsFound { id: i64 },
}

/// How an investment went, with the credits before and after.
#[derive(Debug, PartialEq, Eq, Clone, Copy)]
pub enum Investment {
    Success { old: Credit, new: Credit },
    Failure { old: Credit, new: Credit },
}

/// What earned a user credits: a line of chat, or emotes (with their count).
#[derive(Debug, PartialEq, Eq, Clone, Copy)]
pub enum IncrementType {
    Line,
    Emote(usize),
}

/// A column to rank users by.
#[derive(Debug, PartialEq, Eq, Clone, Copy)]
pub enum SortBy {
    Current,
    Max,
    Total,
    Success,
    Failure,
}

/// A user's record in the game.
#[derive(Clone, Copy, Debug, PartialEq, Default)]
pub struct InvestUser {
    /// The user's twitch id.
    pub id: i64,
    /// The most credits the user has held.
    pub max: Credit,
    /// The credits the user holds.
    pub current: Credit,
    /// All the credits the user has earned.
    pub total: Credit,
    /// How many investments succeeded and failed.
    pub invest: (Credit, Credit),
    /// Whether the user earns idle credits.
    pub active: bool,
}

/// An amount that a command names: a number, or all, half, or a random part of the
/// credits the user holds.
#[derive(Debug, PartialEq, Eq, Clone, Copy)]
pub enum NumType {
    Num(Credit),
    All,
    Half,
    Random,
}

/// `u` with its highest balance brought up to its balance.
pub open spec fn with_max(u: InvestUser) -> InvestUser {
    InvestUser {
        max: if u.max < u.current {
            u.current
        } else {
            u.max
        },
        ..u
    }
}

/// Investing `n` overflows nothing for `u`: a win adds `n` to the balance and the total
/// and counts a success; a loss (`fails`) counts a failure.
pub open spec fn has_room(u: InvestUser, n: nat, fails: bool) -> bool {
    if fails {
        u.invest.1 < usize::MAX
    } else {
        &&& u.current + n <= usize::MAX
        &&& u.total + n <= usize::MAX
        &&& u.invest.0 < usize::MAX
    }
}

/// `u` after being given `n` credits.
pub open spec fn given(u: InvestUser, n: nat) -> InvestUser {
    with_max(
        InvestUser { current: (u.current + n) as usize, total: (u.total + n) as usize, ..u },
    )
}

/// `u` after `n` credits are taken (down to zero at most).
pub open spec fn taken(u: InvestUser, n: nat) -> InvestUser {
    with_max(
        InvestUser {
            current: if n > u.current {
                0
            } else {
                (u.current - n) as usize
            },
            ..u
        },
    )
}

/// What investing `want` credits does to `u`, when the coin flip `fails` or not, and
/// what it answers.
pub open spec fn invest_spec(u: InvestUser, want: Credit, fails: bool) -> (
    InvestUser,
    InvestResult<Investment>,
) {
    if u.current < want {
        (u, Err(InvestError::NotEnoughCredits { have: u.current, want }))
    } else if fails {
        let n = InvestUser {
            current: (u.current - want) as usize,
            invest: (u.invest.0, (u.invest.1 + 1) as usize),
            ..u
        };
        (with_max(n), Ok(Investment::Failure { old: u.current, new: n.current }))
    } else {
        let n = InvestUser {
            current: (u.current + want) as usize,
            total: (u.total + want) as usize,
            invest: ((u.invest.0 + 1) as usize, u.invest.1),
            ..u
        };
        (with_max(n), Ok(Investment::Success { old: u.current, new: n.current }))
    }
}

impl InvestUser {
    /// A new user with nothing.
    pub fn new(id: i64) -> (r: InvestUser)
        ensures
            r == (InvestUser {
                id,
                max: 0,
                current: 0,
                total: 0,
                invest: (0, 0),
                active: false,
            }),
    {
        InvestUser { id, max: 0, current: 0, total: 0, invest: (0, 0), active: false }
    }
}

/// The rules of the game on a user's record.
#[derive(Debug)]
pub struct InvestGame;

impl InvestGame {
    /// Raises the user's highest balance to their balance.
    pub fn update_max(user: &mut InvestUser)
        ensures
            *final(user) == with_max(*old(user)),
    {
        if user.max < user.current {
            user.max = user.current;
        }
    }

    /// Gives the user `credits`; gives their new balance.
    pub fn give(user: &mut InvestUser, credits: Credit) -> (r: Credit)
        requires
            old(user).current + credits <= usize::MAX,
            old(user).total + credits <= usize::MAX,
        ensures
            *final(user) == given(*old(user), credits as nat),
            r == final(user).current,
    {
        user.current = user.current + credits;
        user.total = user.total + credits;
        Self::update_max(user);
        user.current
    }

    /// Takes `credits` from the user, leaving them at zero at least; gives their new
    /// balance.
    pub fn take(user: &mut InvestUser, credits: Credit) -> (r: Credit)
        ensures
            *final(user) == taken(*old(user), credits as nat),
            r == final(user).current,
    {
        if credits > user.current {
            user.current = 0;
        } else {
            user.current = user.current - credits;
        }
        Self::update_max(user);
        user.current
    }

    /// Invests `want` of the user's credits: when the coin flip `fails` they lose them
    /// (and the game collects them), otherwise they double them. A user who holds fewer
    /// than `want` gets `NotEnoughCredits` and keeps everything.
    pub fn invest(user: &mut InvestUser, want: Credit, fails: bool) -> (r: InvestResult<
        Investment,
    >)
        requires
            old(user).current >= want ==> has_room(*old(user), want as nat, fails),
        ensures
            (*final(user), r) == invest_spec(*old(user), want, fails),
    {
        if user.current < want {
            return Err(InvestError::NotEnoughCredits { have: user.current, want });
        }
        if fails {
            Self::failure(user, want)
        } else {
            Self::success(user, want)
        }
    }

    fn success(user: &mut InvestUser, want: Credit) -> (r: InvestResult<Investment>)
        requires
            old(user).current >= want,
            has_room(*old(user), want as nat, false),
        ensures
            (*final(user), r) == invest_spec(*old(user), want, false),
    {
        let old = user.current;
        user.current = user.current + want;
        user.total = user.total + want;
        user.invest.0 = user.invest.0 + 1;
        let new = user.current;
        Self::update_max(user);
        Ok(Investment::Success { old, new })
    }

    fn failure(user: &mut InvestUser, want: Credit) -> (r: InvestResult<Investment>)
        requires
            old(user).current >= want,
            has_room(*old(user), want as nat, true),
        ensures
            (*final(user), r) == invest_spec(*old(user), want, true),
    {
        let old = user.current;
        user.current = user.current - want;
        user.invest.1 = user.invest.1 + 1;
        let new = user.current;
        Self::update_max(user);
        Ok(Investment::Failure { old, new })
    }
}

/// The amount that `data` names: the number its leading digits make, else its first
/// word when that is `all`, `half` or `random`.
pub open spec fn num_type_spec(data: Seq<char>) -> Option<NumType> {
    match parse_unsigned(take_digits(data), usize::MAX as nat) {
        Some(n) => Some(NumType::Num(n as usize)),
        None => {
            let w = words(data);
            if w.len() == 0 {
                None
            } else if w[0] == "all"@ {
                Some(NumType::All)
            } else if w[0] == "half"@ {
                Some(NumType::Half)
            } else if w[0] == "random"@ {
                Some(NumType::Random)
            } else {
                None
            }
        },
    }
}

/// Reads an amount: leading digits, or one of `all`, `half`, `random`.
pub fn parse_number_or_context(data: &str) -> (r: Option<NumType>)
    ensures
        r == num_type_spec(data@),
{
    let v = crate::text::chars_of(data);
    assert(v@.subrange(0, v@.len() as int) =~= v@);
    let digits = digits_from(&v, 0);
    match parse_usize_chars(&digits) {
        Some(n) => {
            return Some(NumType::Num(n));
        },
        None => {},
    }
    let parts = crate::text::split_whitespace(data);
    if parts.len() == 0 {
        return None;
    }
    let part = parts[0];
    assert(part@ == words(data@)[0]);
    proof {
        reveal_strlit("all");
        reveal_strlit("half");
        reveal_strlit("random");
    }
    if str_eq(part, "all") {
        Some(NumType::All)
    } else if str_eq(part, "half") {
        Some(NumType::Half)
    } else if str_eq(part, "random") {
        Some(NumType::Random)
    } else {
        None
    }
}

/// `rand::thread_rng().gen_range(low, high)`: a random number with `low <= r < high`
/// (the crate documents that it panics unless `low < high`).
#[verifier::external_body]
fn random_in(low: usize, high: usize) -> (r: usize)
    requires
        low < high,
    ensures
        low <= r < high,
{
    rand::thread_rng().gen_range(low, high)
}

/// The amount of credits that an argument names for a user holding `credits`, and the
/// kind of amount it is; `None` when there is no argument or it names none.
pub open spec fn credits_arg_ok(credits: Credit, arg: Option<Seq<char>>, r: Option<(NumType, Credit)>) -> bool {
    match arg {
        None => r is None,
        Some(a) => match num_type_spec(trim_spec(a)) {
            None => r is None,
            Some(NumType::Num(n)) => r == Some((NumType::Num(n), n)),
            Some(NumType::All) => r == Some((NumType::All, credits)),
            Some(NumType::Half) => r == Some((NumType::Half, (credits / 2) as usize)),
            Some(NumType::Random) => r matches Some((NumType::Random, n)) && 1 <= n < credits,
        },
    }
}

/// An amount that an argument can name for a user holding `credits` (for a random
/// amount, the smallest it can be).
pub open spec fn some_amount(credits: Credit, arg: Option<Seq<char>>) -> Option<(NumType, Credit)> {
    match arg {
        None => None,
        Some(a) => match num_type_spec(trim_spec(a)) {
            None => None,
            Some(NumType::Num(n)) => Some((NumType::Num(n), n)),
            Some(NumType::All) => Some((NumType::All, credits)),
            Some(NumType::Half) => Some((NumType::Half, (credits / 2) as usize)),
            Some(NumType::Random) => Some((NumType::Random, 1)),
        },
    }
}

/// `arg` names a random amount.
pub open spec fn is_random_arg(arg: Option<Seq<char>>) -> bool {
    arg matches Some(a) && num_type_spec(trim_spec(a)) == Some(NumType::Random)
}

/// Investing the amount that `arg` names, for a user holding some credits, overflows
/// nothing, and a random amount has a range to come from: whatever can be staked fits on
/// top of the user's credits and totals.
pub open spec fn stake_fits(u: InvestUser, arg: Option<Seq<char>>, fails: bool) -> bool {
    match arg {
        None => true,
        Some(a) => match num_type_spec(trim_spec(a)) {
            None => true,
            Some(NumType::Num(n)) => n == 0 || n > u.current || has_room(u, n as nat, fails),
            Some(NumType::All) => has_room(u, u.current as nat, fails),
            Some(NumType::Half) => u.current / 2 == 0 || has_room(u, (u.current / 2) as nat, fails),
            Some(NumType::Random) => u.current != 1 && (u.current < 2 || has_room(
                u,
                (u.current - 1) as nat,
                fails,
            )),
        },
    }
}

/// `t` can take `n` more credits without its balance or total overflowing.
pub open spec fn takes_more(t: InvestUser, n: nat) -> bool {
    t.current + n <= usize::MAX && t.total + n <= usize::MAX
}

/// Giving `t` the amount that `arg` names, out of a sender's `credits`, overflows
/// nothing, and a random amount has a range to come from.
pub open spec fn gift_fits(t: InvestUser, credits: Credit, arg: Option<Seq<char>>) -> bool {
    match arg {
        None => true,
        Some(a) => match num_type_spec(trim_spec(a)) {
            None => true,
            Some(NumType::Num(n)) => n == 0 || n > credits || takes_more(t, n as nat),
            Some(NumType::All) => takes_more(t, credits as nat),
            Some(NumType::Half) => takes_more(t, (credits / 2) as nat),
            Some(NumType::Random) => credits != 1 && (credits < 2 || takes_more(
                t,
                (credits - 1) as nat,
            )),
        },
    }
}

/// The word at `i` of a request's arguments, if there is one.
pub open spec fn arg_at(req_args: Seq<char>, i: int) -> Option<Seq<char>> {
    if 0 <= i < words(req_args).len() {
        Some(words(req_args)[i])
    } else {
        None
    }
}

/// The string an optional slice holds.
pub open spec fn opt_str(s: Option<&str>) -> Option<Seq<char>> {
    match s {
        Some(x) => Some(x@),
        None => None,
    }
}

/// `InvestUser`s with `credits` credits asking for the amount `arg` names. A random
/// amount is drawn from `1..credits`.
pub fn get_credits_from_args(credits: Credit, arg: Option<&str>) -> (r: Option<(NumType, Credit)>)
    requires
        is_random_arg(opt_str(arg)) ==> credits > 1,
    ensures
        credits_arg_ok(credits, opt_str(arg), r),
{
    let data = match arg {
        Some(a) => trim(a),
        None => return None,
    };
    match parse_number_or_context(data) {
        None => None,
        Some(NumType::Num(n)) => Some((NumType::Num(n), n)),
        Some(NumType::All) => Some((NumType::All, credits)),
        Some(NumType::Half) => Some((NumType::Half, credits / 2)),
        Some(NumType::Random) => Some((NumType::Random, random_in(1, credits))),
    }
}

/// The reply `text` to the sender.
pub open spec fn is_reply(r: Option<Response>, text: Seq<char>) -> bool {
    r matches Some(x) && is_text(x, true, text)
}

fn reply(text: String) -> (r: Option<Response>)
    ensures
        is_reply(r, text@),
{
    Some(Response::Reply { data: text })
}

fn reply_str(text: &str) -> (r: Option<Response>)
    ensures
        is_reply(r, text@),
{
    Some(Response::Reply { data: String::from_str(text) })
}

/// `a` followed by `n` with thousands separators and `b`.
fn text_with(a: &str, n: Credit, b: &str) -> (r: String)
    ensures
        r@ == a@ + commas(n as nat) + b@,
{
    let mut s = String::from_str(a);
    push_commas(&mut s, n as u64);
    s.append(b);
    s
}

/// `a`, `n`, `b`, `m`, `c`, the numbers with thousands separators.
fn text_with2(a: &str, n: Credit, b: &str, m: Credit, c: &str) -> (r: String)
    ensures
        r@ == a@ + commas(n as nat) + b@ + commas(m as nat) + c@,
{
    let mut s = text_with(a, n, b);
    push_commas(&mut s, m as u64);
    s.append(c);
    s
}

/// The reply to an investment of kind `ty` that went as `res`.
pub open spec fn invest_text(ty: NumType, res: InvestResult<Investment>) -> Option<Seq<char>> {
    match res {
        Ok(Investment::Success { old, new }) => if ty == NumType::Random {
            Some(
                "success! you went from "@ + commas(old as nat) + " to "@ + commas(new as nat)
                    + " (+"@ + commas((new - old) as nat) + ")"@,
            )
        } else {
            Some("success! you went from "@ + commas(old as nat) + " to "@ + commas(new as nat))
        },
        Ok(Investment::Failure { old, new }) => Some(
            "failure! you went from "@ + commas(old as nat) + " to "@ + commas(new as nat) + " (-"@
                + commas((old - new) as nat) + "). try again in a minute"@,
        ),
        Err(InvestError::NotEnoughCredits { have, want }) => Some(
            "you don't have enough. you have "@ + commas(have as nat)
                + " but you want to invest "@ + commas(want as nat) + "."@,
        ),
        Err(_) => None,
    }
}

/// What a command did to the records it was handed: the answer, the sender's record to
/// write back, another user's record to write back, and the credits the game collected.
pub struct Outcome {
    pub reply: Option<Response>,
    pub user: Option<InvestUser>,
    pub other: Option<InvestUser>,
    pub collected: Credit,
}

/// An outcome that only answers.
pub open spec fn answers_only(o: Outcome) -> bool {
    o.user is None && o.other is None && o.collected == 0
}

fn answer(reply: Option<Response>) -> (o: Outcome)
    ensures
        answers_only(o),
        o.reply == reply,
{
    Outcome { reply, user: None, other: None, collected: 0 }
}

/// What a line of chat earns: the sender's id, the credits per line, and the bonus for
/// emotes, if any.
#[derive(Debug, PartialEq, Eq, Clone, Copy)]
pub struct Reward {
    pub id: i64,
    pub line: Credit,
    pub bonus: Option<Credit>,
}

/// The credits of the first bonus `[credits, most]` with at least `count` as its most.
pub open spec fn first_bonus(table: Seq<[usize; 2]>, count: usize) -> Option<Credit>
    decreases table.len(),
{
    if table.len() == 0 {
        None
    } else if count <= table[0][1] {
        Some(table[0][0])
    } else {
        first_bonus(table.drop_first(), count)
    }
}

/// How long a failed investment keeps a user from investing again, in milliseconds.
pub const RATE_LIMIT_MS: u64 = 60000;

/// The invest commands: credits per line of chat, the bonus per count of emotes
/// (`[credits, at most this many emotes]`, first match wins), and when each user last
/// lost an investment (milliseconds on the caller's clock).
pub struct Invest {
    line_value: Credit,
    kappas: Vec<[usize; 2]>,
    limit: HashMap<i64, u64>,
}

/// `id` lost an investment less than a minute before `now`.
pub open spec fn limited(limits: Map<i64, u64>, id: i64, now: u64) -> bool {
    limits.contains_key(id) && (if now < limits[id] {
        0
    } else {
        now - limits[id]
    }) < RATE_LIMIT_MS
}

/// The reply to `!check` for a user holding `credits`.
pub open spec fn check_text(credits: Credit) -> Seq<char> {
    if credits > 0 {
        "you have "@ + commas(credits as nat) + " credits"@
    } else {
        "you don't have any credits"@
    }
}

/// The reply to `!stats`.
pub open spec fn stats_text(u: InvestUser, collected: Credit) -> Seq<char> {
    "you've reached a max of "@ + commas(u.max as nat) + " credits, out of "@ + commas(
        u.total as nat,
    ) + " total credits with "@ + commas(u.invest.0 as nat) + " successes and "@ + commas(
        u.invest.1 as nat,
    ) + " failures. and I've 'collected' "@ + commas(collected as nat)
        + " credits from all of the failures."@
}

/// `(#place) name: credits`, the place counted from one.
pub open spec fn top_entry(i: int, name: Seq<char>, credits: Credit) -> Seq<char> {
    "(#"@ + decimal((i + 1) as nat) + ") "@ + name + ": "@ + commas(credits as nat)
}

/// The entries of a ranking, in order.
pub open spec fn top_entries(list: Seq<(String, Credit)>) -> Seq<Seq<char>> {
    Seq::new(list.len(), |i: int| top_entry(i, list[i].0@, list[i].1))
}

/// How many users `!top n` ranks: `n` (as a `u16`; 5 when missing or not a number),
/// kept between 5 and 10.
pub open spec fn top_count_spec(args: Seq<char>) -> u16 {
    let n: nat = match arg_at(args, 0) {
        Some(w) => match parse_unsigned(w, u16::MAX as nat) {
            Some(n) => n,
            None => 5,
        },
        None => 5,
    };
    if n > 10 {
        10
    } else if n < 5 {
        5
    } else {
        n as u16
    }
}

/// The name a `!give` names: the first argument, without one leading `@`.
pub open spec fn give_target_spec(args: Seq<char>) -> Option<Seq<char>> {
    match arg_at(args, 0) {
        Some(w) => if w.len() > 0 && w[0] == '@' {
            Some(w.drop_first())
        } else {
            Some(w)
        },
        None => None,
    }
}

/// The reply to `!give`, and what it does to the sender's and the target's records.
pub open spec fn give_spec(
    args: Seq<char>,
    sender: Seq<char>,
    user: InvestUser,
    bot: Seq<char>,
    target: Option<InvestUser>,
    amount: Option<(NumType, Credit)>,
) -> (Seq<char>, Option<(InvestUser, InvestUser)>) {
    if user.current == 0 {
        ("you don't have any credits"@, None)
    } else {
        match give_target_spec(args) {
            None => ("who do you want to give credits to?"@, None),
            Some(name) => if eq_ignore_case_spec(name, sender) {
                ("what are you doing?"@, None)
            } else if eq_ignore_case_spec(name, bot) {
                ("I don't want any credits."@, None)
            } else {
                match target {
                    None => ("I don't know who that is."@, None),
                    Some(t) => match amount {
                        None => ("thats not a number I understand"@, None),
                        Some((_, num)) => if num == 0 {
                            ("zero what?"@, None)
                        } else if num > user.current {
                            ("you only have "@ + commas(user.current as nat) + " credits"@, None)
                        } else {
                            let t2 = given(t, num as nat);
                            let u2 = taken(user, num as nat);
                            (
                                "they now have "@ + commas(t2.current as nat)
                                    + " credits and you're down to "@ + commas(u2.current as nat)
                                    + " credits"@,
                                Some((u2, t2)),
                            )
                        },
                    },
                }
            },
        }
    }
}

impl Invest {
    /// The rate limits, by user id.
    pub closed spec fn limits(&self) -> Map<i64, u64> {
        self.limit@
    }

    /// The credits per line of chat.
    pub closed spec fn line_value_spec(&self) -> Credit {
        self.line_value
    }

    /// The emote bonuses: `[credits, at most this many emotes]`.
    pub closed spec fn kappas_spec(&self) -> Seq<[usize; 2]> {
        self.kappas@
    }

    /// The commands with the credits per line and the emote bonuses, nobody limited.
    pub fn new(line_value: Credit, kappas: Vec<[usize; 2]>) -> (r: Self)
        ensures
            r.line_value_spec() == line_value,
            r.kappas_spec() == kappas@,
            r.limits() == Map::<i64, u64>::empty(),
    {
        Invest { line_value, kappas, limit: HashMap::new() }
    }

    /// Keeps `id` from investing for a minute from `now`.
    pub fn rate_limit(&mut self, id: i64, now: u64)
        ensures
            final(self).limits() == old(self).limits().insert(id, now),
            final(self).line_value_spec() == old(self).line_value_spec(),
            final(self).kappas_spec() == old(self).kappas_spec(),
    {
        broadcast use vstd::std_specs::hash::group_hash_axioms;

        self.limit.insert(id, now);
    }

    /// Whether `id` lost an investment less than a minute before `now`.
    pub fn check_rate_limit(&self, id: i64, now: u64) -> (r: bool)
        ensures
            r == limited(self.limits(), id, now),
    {
        broadcast use vstd::std_specs::hash::group_hash_axioms;

        match self.limit.get(&id) {
            Some(t) => {
                let elapsed: u64 = if now < *t {
                    0
                } else {
                    now - *t
                };
                elapsed < RATE_LIMIT_MS
            },
            None => false,
        }
    }

    /// `!invest n` from the sender of `req`, whose record is `user` (`None` when it could
    /// not be read), at `now`; `fails` is the coin flip of the investment.
    pub fn invest_command(&mut self, req: &Request, user: Option<InvestUser>, fails: bool, now: u64) -> (o: Outcome)
        requires
            user matches Some(u) ==> (!limited(old(self).limits(), req@.sender, now) && u.current
                > 0 ==> stake_fits(u, arg_at(req@.args, 0), fails)),
        ensures
            final(self).line_value_spec() == old(self).line_value_spec(),
            final(self).kappas_spec() == old(self).kappas_spec(),
            ({
                let id = req@.sender;
                if limited(old(self).limits(), id, now) {
                    o.reply is None && answers_only(o) && final(self).limits() == old(self).limits()
                } else if user is None || user->0.current == 0 {
                    is_reply(o.reply, "you don't have any credits."@) && answers_only(o)
                        && final(self).limits() == old(self).limits()
                } else {
                    let u = user->0;
                    let arg = arg_at(req@.args, 0);
                    match arg {
                        None => is_reply(o.reply, "thats not a number I understand"@)
                            && answers_only(o) && final(self).limits() == old(self).limits(),
                        Some(a) => match num_type_spec(trim_spec(a)) {
                            None => is_reply(o.reply, "thats not a number I understand"@)
                                && answers_only(o) && final(self).limits() == old(self).limits(),
                            Some(ty) => exists|num: Credit|
                                #![trigger invest_spec(u, num, fails)]
                                credits_arg_ok(u.current, arg, Some((ty, num))) && if num == 0 {
                                    is_reply(o.reply, "zero what?"@) && answers_only(o)
                                        && final(self).limits() == old(self).limits()
                                } else {
                                    let (u2, res) = invest_spec(u, num, fails);
                                    &&& o.user == (if res is Ok {
                                        Some(u2)
                                    } else {
                                        None
                                    })
                                    &&& o.other is None
                                    &&& match invest_text(ty, res) {
                                        Some(t) => is_reply(o.reply, t),
                                        None => o.reply is None,
                                    }
                                    &&& o.collected == (if res matches Ok(Investment::Failure { .. }) {
                                        num
                                    } else {
                                        0
                                    })
                                    &&& final(self).limits() == (if res matches Ok(
                                        Investment::Failure { .. },
                                    ) {
                                        old(self).limits().insert(id, now)
                                    } else {
                                        old(self).limits()
                                    })
                                },
                        },
                    }
                }
            }),
    {
        let id = req.sender();
        if self.check_rate_limit(id, now) {
            return answer(None);
        }
        let mut u = match user {
            Some(u) => {
                if u.current > 0 {
                    u
                } else {
                    return answer(reply_str("you don't have any credits."));
                }
            },
            None => return answer(reply_str("you don't have any credits.")),
        };
        let args = req.args_iter();
        let arg: Option<&str> = if args.len() > 0 {
            Some(args[0])
        } else {
            None
        };
        assert(opt_str(arg) == arg_at(req@.args, 0));
        let (ty, num) = match get_credits_from_args(u.current, arg) {
            Some((ty, num)) => (ty, num),
            None => return answer(reply_str("thats not a number I understand")),
        };
        if num == 0 {
            // the amount read is the witness the contract speaks of
            assert(invest_spec(u, num, fails) == invest_spec(u, num, fails));
            return answer(reply_str("zero what?"));
        }
        assert(u.current >= num ==> has_room(u, num as nat, fails));
        let res = InvestGame::invest(&mut u, num, fails);
        match res {
            Ok(Investment::Success { old, new }) => {
                let random = match ty {
                    NumType::Random => true,
                    _ => false,
                };
                let text = if random {
                    let mut t = text_with2("success! you went from ", old, " to ", new, " (+");
                    push_commas(&mut t, (new - old) as u64);
                    t.append(")");
                    t
                } else {
                    let mut t = text_with("success! you went from ", old, " to ");
                    push_commas(&mut t, new as u64);
                    t
                };
                proof {
                    assert(text@ =~= invest_text(ty, res)->0);
                }
                Outcome { reply: reply(text), user: Some(u), other: None, collected: 0 }
            },
            Ok(Investment::Failure { old, new }) => {
                self.rate_limit(id, now);
                let mut text = text_with2("failure! you went from ", old, " to ", new, " (-");
                push_commas(&mut text, (old - new) as u64);
                text.append("). try again in a minute");
                proof {
                    assert(text@ == invest_text(ty, res)->0);
                }
                Outcome { reply: reply(text), user: Some(u), other: None, collected: num }
            },
            Err(InvestError::NotEnoughCredits { have, want }) => {
                let text = text_with2(
                    "you don't have enough. you have ",
                    have,
                    " but you want to invest ",
                    want,
                    ".",
                );
                answer(reply(text))
            },
            Err(_) => answer(None),
        }
    }

    /// The name that `!give` names: its first argument without one leading `@`.
    pub fn give_target<'a>(req: &Request<'a>) -> (r: Option<&'a str>)
        ensures
            opt_str(r) == give_target_spec(req@.args),
    {
        let args = req.args_iter();
        if args.len() == 0 {
            return None;
        }
        let t = args[0];
        assert(t@ == arg_at(req@.args, 0)->0);
        if crate::text::starts_with_char(t, '@') {
            let n = t.unicode_len();
            let rest = t.substring_char(1, n);
            assert(rest@ =~= t@.drop_first());
            Some(rest)
        } else {
            Some(t)
        }
    }

    /// `!give name n` from a sender shown as `sender`, whose record is `user`; the bot
    /// shows as `bot`, and `target` is the record of the user that `give_target` named
    /// (`None` when nobody has that name). `amount` is read from the second argument.
    pub fn give_command(
        &self,
        req: &Request,
        sender: &str,
        user: InvestUser,
        bot: &str,
        target: Option<InvestUser>,
    ) -> (o: Outcome)
        requires
            target matches Some(t) ==> gift_fits(t, user.current, arg_at(req@.args, 1)),
        ensures
            o.collected == 0,
            user.current == 0 ==> is_reply(o.reply, "you don't have any credits"@) && o.user is None
                && o.other is None,
            user.current != 0 ==> exists|amount: Option<(NumType, Credit)>|
                #![trigger give_spec(req@.args, sender@, user, bot@, target, amount)]
                {
                    &&& (credits_arg_ok(user.current, arg_at(req@.args, 1), amount) || (
                    is_random_arg(arg_at(req@.args, 1)) && user.current < 2))
                    &&& is_reply(
                        o.reply,
                        give_spec(req@.args, sender@, user, bot@, target, amount).0,
                    )
                    &&& match give_spec(req@.args, sender@, user, bot@, target, amount).1 {
                        Some((u2, t2)) => o.user == Some(u2) && o.other == Some(t2),
                        None => o.user is None && o.other is None,
                    }
                },
    {
        let ghost args_v = req@.args;
        if user.current == 0 {
            return answer(reply_str("you don't have any credits"));
        }
        let ghost w = some_amount(user.current, arg_at(args_v, 1));
        assert(credits_arg_ok(user.current, arg_at(args_v, 1), w) || (is_random_arg(
            arg_at(args_v, 1),
        ) && user.current < 2));
        let name = match Self::give_target(req) {
            Some(n) => n,
            None => {
                assert(give_spec(args_v, sender@, user, bot@, target, w).1 is None);
                return answer(reply_str("who do you want to give credits to?"));
            },
        };
        if eq_ignore_ascii_case(name, sender) {
            assert(give_spec(args_v, sender@, user, bot@, target, w).1 is None);
            return answer(reply_str("what are you doing?"));
        }
        if eq_ignore_ascii_case(name, bot) {
            assert(give_spec(args_v, sender@, user, bot@, target, w).1 is None);
            return answer(reply_str("I don't want any credits."));
        }
        let mut t = match target {
            Some(t) => t,
            None => {
                assert(give_spec(args_v, sender@, user, bot@, target, w).1 is None);
                return answer(reply_str("I don't know who that is."));
            },
        };
        let args = req.args_iter();
        let arg: Option<&str> = if args.len() > 1 {
            Some(args[1])
        } else {
            None
        };
        assert(opt_str(arg) == arg_at(req@.args, 1));
        let amount = get_credits_from_args(user.current, arg);
        let num = match amount {
            Some((_, num)) => num,
            None => {
                assert(give_spec(args_v, sender@, user, bot@, target, amount).1 is None);
                return answer(reply_str("thats not a number I understand"));
            },
        };
        if num == 0 {
            assert(give_spec(args_v, sender@, user, bot@, target, amount).1 is None);
            return answer(reply_str("zero what?"));
        }
        if num > user.current {
            assert(give_spec(args_v, sender@, user, bot@, target, amount).1 is None);
            return answer(reply(text_with("you only have ", user.current, " credits")));
        }
        let mut u = user;
        let c = InvestGame::give(&mut t, num);
        let d = InvestGame::take(&mut u, num);
        let text = text_with2("they now have ", c, " credits and you're down to ", d, " credits");
        assert(give_spec(args_v, sender@, user, bot@, target, amount).1 == Some((u, t)));
        Outcome { reply: reply(text), user: Some(u), other: Some(t), collected: 0 }
    }

    /// `!check` from a user whose record is `user`.
    pub fn check_command(&self, user: &InvestUser) -> (r: Option<Response>)
        ensures
            is_reply(r, check_text(user.current)),
    {
        if user.current > 0 {
            reply(text_with("you have ", user.current, " credits"))
        } else {
            reply_str("you don't have any credits")
        }
    }

    /// How many users `!top n` ranks.
    pub fn top_count(req: &Request) -> (r: u16)
        ensures
            r == top_count_spec(req@.args),
    {
        let args = req.args_iter();
        let mut n: u16 = if args.len() > 0 {
            assert(args@[0]@ == arg_at(req@.args, 0)->0);
            match crate::text::parse_u16(args[0]) {
                Some(n) => n,
                None => 5,
            }
        } else {
            5
        };
        if n > 10 {
            n = 10;
        }
        if n < 5 {
            n = 5;
        }
        n
    }

    /// `!top`: the ranking `list` (each user's display name and credits, best first),
    /// as `(#1) name: credits, (#2) ...`.
    pub fn top5_command(&self, list: &[(String, Credit)]) -> (r: Option<Response>)
        ensures
            is_reply(r, join_spec(top_entries(list@), ", "@)),
    {
        let mut entries: Vec<String> = Vec::new();
        let mut i: usize = 0;
        while i < list.len()
            invariant
                i <= list@.len(),
                string_views(entries@) == top_entries(list@).subrange(0, i as int),
            decreases list@.len() - i,
        {
            let mut s = String::from_str("(#");
            let place = decimal_chars((i + 1) as u64);
            push_chars(&mut s, &place);
            s.append(") ");
            s.append(list[i].0.as_str());
            s.append(": ");
            push_commas(&mut s, list[i].1 as u64);
            let ghost before = entries@;
            entries.push(s);
            assert(string_views(entries@) =~= string_views(before).push(s@));
            assert(string_views(entries@) =~= top_entries(list@).subrange(0, i + 1));
            i += 1;
        }
        assert(top_entries(list@).subrange(0, i as int) =~= top_entries(list@));
        reply(join_with(entries.as_slice(), ", "))
    }

    /// `!stats` for a user whose record is `user`, with `collected` the credits the game
    /// has collected from failed investments.
    pub fn stats_command(&self, user: &InvestUser, collected: Credit) -> (r: Option<Response>)
        ensures
            is_reply(r, stats_text(*user, collected)),
    {
        let mut s = text_with2(
            "you've reached a max of ",
            user.max,
            " credits, out of ",
            user.total,
            " total credits with ",
        );
        push_commas(&mut s, user.invest.0 as u64);
        s.append(" successes and ");
        push_commas(&mut s, user.invest.1 as u64);
        s.append(" failures. and I've 'collected' ");
        push_commas(&mut s, collected as u64);
        s.append(" credits from all of the failures.");
        reply(s)
    }
    /// What a line of chat `data` earns its sender `userid` (when known): the credits
    /// per line, and the bonus for `kappas` emotes when it has any. Commands and
    /// mentions (lines starting with `!` or `@`) earn nothing.
    pub fn on_message(&self, data: &str, userid: Option<i64>, kappas: Option<usize>) -> (r: Option<
        Reward,
    >)
        ensures
            if (data@.len() > 0 && (data@[0] == '!' || data@[0] == '@')) || userid is None {
                r is None
            } else {
                r == Some(
                    Reward {
                        id: userid->0,
                        line: self.line_value_spec(),
                        bonus: match kappas {
                            Some(n) => first_bonus(self.kappas_spec(), n),
                            None => None,
                        },
                    },
                )
            },
    {
        if crate::text::starts_with_char(data, '!') || crate::text::starts_with_char(data, '@') {
            return None;
        }
        let id = match userid {
            Some(id) => id,
            None => return None,
        };
        let bonus = match kappas {
            Some(n) => {
                let mut i: usize = 0;
                let mut found: Option<Credit> = None;
                assert(self.kappas@.subrange(0, self.kappas@.len() as int) =~= self.kappas@);
                while i < self.kappas.len() && found.is_none()
                    invariant
                        i <= self.kappas@.len(),
                        found is None ==> first_bonus(self.kappas@, n) == first_bonus(
                            self.kappas@.subrange(i as int, self.kappas@.len() as int),
                            n,
                        ),
                        found is Some ==> first_bonus(self.kappas@, n) == found,
                    decreases self.kappas@.len() - i,
                {
                    let a = self.kappas[i];
                    let ghost rest = self.kappas@.subrange(i as int, self.kappas@.len() as int);
                    assert(rest.drop_first() =~= self.kappas@.subrange(
                        i + 1,
                        self.kappas@.len() as int,
                    ));
                    assert(rest[0] == a);
                    if n <= a[1] {
                        found = Some(a[0]);
                    }
                    i += 1;
                }
                if found.is_none() {
                    assert(self.kappas@.subrange(i as int, self.kappas@.len() as int).len() == 0);
                }
                found
            },
            None => None,
        };
        Some(Reward { id, line: self.line_value, bonus })
    }
}


/// Giving a user credits and taking the same credits back leaves their balance as it
/// was, and their highest balance at least what it was.
pub proof fn law_give_then_take(u: InvestUser, n: nat)
    requires
        u.current + n <= usize::MAX,
        u.total + n <= usize::MAX,
    ensures
        taken(given(u, n), n).current == u.current,
        taken(given(u, n), n).total == u.total + n,
        taken(given(u, n), n).max >= u.max,
{
}

/// A gift moves credits from one user to another: the sender loses what the target
/// gains.
pub proof fn law_give_conserves(sender: InvestUser, target: InvestUser, n: nat)
    requires
        n <= sender.current,
        target.current + n <= usize::MAX,
        target.total + n <= usize::MAX,
    ensures
        taken(sender, n).current + given(target, n).current == sender.current + target.current,
{
}

/// An investment that goes through doubles the stake or loses it: the balance moves by
/// exactly the stake, a loss is what the game collects, and nothing else about the
/// user changes but the counts of successes and failures.
pub proof fn law_invest_stake(u: InvestUser, want: Credit, fails: bool)
    requires
        u.current >= want,
        has_room(u, want as nat, fails),
    ensures
        fails ==> invest_spec(u, want, fails).1 == Ok::<Investment, InvestError>(
            Investment::Failure { old: u.current, new: (u.current - want) as usize },
        ),
        !fails ==> invest_spec(u, want, fails).1 == Ok::<Investment, InvestError>(
            Investment::Success { old: u.current, new: (u.current + want) as usize },
        ),
        invest_spec(u, want, fails).0.id == u.id,
        invest_spec(u, want, fails).0.active == u.active,
        invest_spec(u, want, fails).0.invest.0 + invest_spec(u, want, fails).0.invest.1 == u.invest.0
            + u.invest.1 + 1,
{
}

/// Asking to invest more than one holds changes nothing.
pub proof fn law_invest_refused(u: InvestUser, want: Credit, fails: bool)
    requires
        u.current < want,
    ensures
        invest_spec(u, want, fails) == (u, Err::<Investment, InvestError>(
            InvestError::NotEnoughCredits { have: u.current, want },
        )),
{
}

/// After every operation a user's highest balance is at least their balance.
pub proof fn law_max_covers_current(u: InvestUser, n: nat, want: Credit, fails: bool)
    requires
        u.current + n <= usize::MAX,
        u.total + n <= usize::MAX,
        u.current >= want ==> has_room(u, want as nat, fails),
        u.max >= u.current,
    ensures
        given(u, n).max >= given(u, n).current,
        taken(u, n).max >= taken(u, n).current,
        invest_spec(u, want, fails).0.max >= invest_spec(u, want, fails).0.current,
{
}

/// A user who lost an investment at `then` is kept from investing until a minute has
/// passed, and not after.
pub proof fn law_rate_limit_minute(limits: Map<i64, u64>, id: i64, then: u64, now: u64)
    requires
        then <= now,
    ensures
        limited(limits.insert(id, then), id, now) <==> now - then < RATE_LIMIT_MS,
{
}
} // verus!
