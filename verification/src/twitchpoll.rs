//! Polls in chat: the broadcaster sets one up (`!poll title | option | ...`), starts it for
//! some seconds, everyone votes once (`!vote n`), and when the time is up the bot
//! announces the three options with the most votes.

use crate::request::Request;
use crate::response::{is_privmsg, is_text, IrcCommand, Response};
use crate::text::{
    chars_of, digits_from, parse_unsigned, parse_usize_chars, split, split_spec, take_digits, trim,
    trim_spec, views, words,
};
use crate::sort::{lemma_insert_pos_by, lemma_sort_desc_by, sort_desc_by};
use crate::util::push_chars;
use hashbrown::HashSet;
use vstd::prelude::*;

verus! {

/// The ids of those who voted in a poll, held in a `hashbrown::HashSet`.
#[verifier::external_body]
pub struct VoterSet {
    set: HashSet<i64>,
}

/// The ids that a set of voters holds.
pub uninterp spec fn seen_ids(s: VoterSet) -> Set<i64>;

/// An empty set (`hashbrown::HashSet::new`).
#[verifier::external_body]
fn seen_new() -> (r: VoterSet)
    ensures
        seen_ids(r) == Set::<i64>::empty(),
{
    VoterSet { set: HashSet::new() }
}

/// Whether `id` is in the set (`hashbrown::HashSet::contains`).
#[verifier::external_body]
fn seen_contains(s: &VoterSet, id: i64) -> (r: bool)
    ensures
        r == seen_ids(*s).contains(id),
{
    s.set.contains(&id)
}

/// Adds `id` to the set (`hashbrown::HashSet::insert`).
#[verifier::external_body]
fn seen_insert(s: &mut VoterSet, id: i64)
    ensures
        seen_ids(*final(s)) == seen_ids(*old(s)).insert(id),
{
    s.set.insert(id);
}

/// The number of ids in the set (`hashbrown::HashSet::len`).
#[verifier::external_body]
fn seen_len(s: &VoterSet) -> (r: usize)
    ensures
        r == seen_ids(*s).len(),
{
    s.set.len()
}

/// An option of a poll: its place in the list as given, its votes, its text.
#[derive(Debug, Clone)]
pub struct Choice {
    pub pos: usize,
    pub count: usize,
    pub option: String,
}

/// A poll: where it runs, its title, its options, and who has voted.
pub struct Poll {
    target: String,
    title: String,
    choices: Vec<Choice>,
    seen: VoterSet,
}

/// Why a poll could not be set up.
#[derive(Debug, PartialEq, Eq, Clone, Copy)]
pub enum ParseError {
    /// No title was given.
    Title,
    /// No option was given.
    Options,
}

impl ParseError {
    /// The text that explains the error.
    pub fn to_text(&self) -> (r: String)
        ensures
            r@ == parse_error_text(*self),
    {
        match self {
            ParseError::Title => String::from_str(
                "no title was provided. use !poll title | options | ...",
            ),
            ParseError::Options => String::from_str(
                "no options were provided. use !poll title | options | ...",
            ),
        }
    }
}

/// The text that explains a parse error.
pub open spec fn parse_error_text(e: ParseError) -> Seq<char> {
    match e {
        ParseError::Title => "no title was provided. use !poll title | options | ..."@,
        ParseError::Options => "no options were provided. use !poll title | options | ..."@,
    }
}

/// The `(pos, count, option)` of each choice.
pub open spec fn choice_views(v: Seq<Choice>) -> Seq<(usize, usize, Seq<char>)> {
    v.map_values(|c: Choice| (c.pos, c.count, c.option@))
}

/// The choices of fresh options: numbered from zero, with no votes.
pub open spec fn fresh_choices(options: Seq<Seq<char>>) -> Seq<(usize, usize, Seq<char>)> {
    Seq::new(options.len(), |i: int| (i as usize, 0usize, options[i]))
}

/// No option has more votes than there are voters.
pub open spec fn counts_bounded(choices: Seq<Choice>, voters: Set<i64>) -> bool {
    forall|k: int| 0 <= k < choices.len() ==> #[trigger] choices[k].count <= voters.len()
}

/// Orders choices by votes.
pub open spec fn votes_key() -> spec_fn(Choice) -> int {
    |c: Choice| c.count as int
}

/// The choices sorted by votes, most first, keeping the order of choices with equal
/// votes (a stable sort).
pub open spec fn sort_by_votes(s: Seq<Choice>) -> Seq<Choice> {
    sort_desc_by(s, votes_key())
}

impl Poll {
    /// Where the poll runs.
    pub closed spec fn target_text(&self) -> Seq<char> {
        self.target@
    }

    /// The poll's title.
    pub closed spec fn title_text(&self) -> Seq<char> {
        self.title@
    }

    /// The poll's options in their current order.
    pub closed spec fn choices_spec(&self) -> Seq<Choice> {
        self.choices@
    }

    /// The ids of those who voted.
    pub closed spec fn voters(&self) -> Set<i64> {
        seen_ids(self.seen)
    }

    /// What every poll keeps: finitely many voters, and no option with more votes than
    /// there are voters.
    pub open spec fn wf(&self) -> bool {
        &&& self.voters().finite()
        &&& counts_bounded(self.choices_spec(), self.voters())
        &&& forall|k: int|
            0 <= k < self.choices_spec().len() ==> #[trigger] self.choices_spec()[k].pos
                < self.choices_spec().len()
    }

    /// Where the poll runs.
    pub fn target(&self) -> (r: &str)
        ensures
            r@ == self.target_text(),
    {
        self.target.as_str()
    }

    /// The poll's title.
    pub fn title(&self) -> (r: &str)
        ensures
            r@ == self.title_text(),
    {
        self.title.as_str()
    }

    /// The poll's options in their current order.
    pub fn choices(&self) -> (r: &[Choice])
        ensures
            r@ == self.choices_spec(),
    {
        self.choices.as_slice()
    }

    /// A poll for `target` titled `title` with the options `choices`, none voted for;
    /// `Options` when there is no option.
    pub fn new(target: &str, title: &str, choices: Vec<&str>) -> (r: Result<Self, ParseError>)
        ensures
            match r {
                Ok(p) => choices@.len() > 0 && p.target_text() == target@ && p.title_text()
                    == title@ && choice_views(p.choices_spec()) == fresh_choices(views(choices@))
                    && p.voters() == Set::<i64>::empty() && p.wf(),
                Err(e) => choices@.len() == 0 && e == ParseError::Options,
            },
    {
        let mut out: Vec<Choice> = Vec::new();
        let mut i: usize = 0;
        while i < choices.len()
            invariant
                i <= choices@.len(),
                choice_views(out@) == fresh_choices(views(choices@)).subrange(0, i as int),
            decreases choices@.len() - i,
        {
            let ghost before = out@;
            let text = String::from_str(choices[i]);
            assert(text@ == views(choices@)[i as int]);
            out.push(Choice { option: text, pos: i, count: 0 });
            assert(choice_views(out@) =~= choice_views(before).push((i, 0usize, text@)));
            assert(choice_views(out@) =~= fresh_choices(views(choices@)).subrange(0, i + 1));
            i += 1;
        }
        if out.len() == 0 {
            return Err(ParseError::Options);
        }
        assert(fresh_choices(views(choices@)).subrange(0, i as int) =~= fresh_choices(
            views(choices@),
        ));
        assert forall|k: int| 0 <= k < out@.len() implies #[trigger] out@[k].pos < out@.len()
            by {
            assert(choice_views(out@)[k] == fresh_choices(views(choices@))[k]);
        }
        assert forall|k: int| 0 <= k < out@.len() implies #[trigger] out@[k].count == 0 by {
            assert(choice_views(out@)[k] == fresh_choices(views(choices@))[k]);
        }
        let p = Poll {
            target: String::from_str(target),
            title: String::from_str(title),
            choices: out,
            seen: seen_new(),
        };
        assert(p.voters().finite() && p.voters().len() == 0);
        assert(counts_bounded(p.choices_spec(), p.voters()));
        assert(choice_views(p.choices_spec()) == fresh_choices(views(choices@)));
        Ok(p)
    }

    /// A vote of `id` for option number `option` (from zero): counted when `id` has not
    /// voted and the option exists.
    pub fn vote(&mut self, id: i64, option: usize)
        requires
            old(self).wf(),
        ensures
            final(self).wf(),
            vote_result(*old(self), *final(self), id, option),
    {
        if seen_contains(&self.seen, id) {
            return;
        }
        if option >= self.choices.len() {
            return;
        }
        let n = seen_len(&self.seen);
        if n == usize::MAX {
            return;
        }
        seen_insert(&mut self.seen, id);
        let cur = &self.choices[option];
        assert(cur.count <= n);
        let c = Choice { pos: cur.pos, count: cur.count + 1, option: cur.option.clone() };
        self.choices.set(option, c);
        proof {
            let old_set = seen_ids(old(self).seen);
            assert(!old_set.contains(id));
            assert(old_set.insert(id).len() == old_set.len() + 1);
        }
    }

    /// Sorts the options by votes, most first, keeping the order of options with equal
    /// votes, and gives them.
    pub fn tally(&mut self) -> (r: &[Choice])
        requires
            old(self).wf(),
        ensures
            final(self).wf(),
            final(self).choices_spec() == sort_by_votes(old(self).choices_spec()),
            r@ == final(self).choices_spec(),
            final(self).target_text() == old(self).target_text(),
            final(self).title_text() == old(self).title_text(),
            final(self).voters() == old(self).voters(),
    {
        let mut rest: Vec<Choice> = Vec::new();
        std::mem::swap(&mut rest, &mut self.choices);
        let ghost all = rest@;
        let total: usize = rest.len();
        let mut sorted: Vec<Choice> = Vec::new();
        let mut taken: usize = 0;
        while rest.len() > 0
            invariant
                all.len() == total,
                taken + rest@.len() == all.len(),
                rest@ == all.subrange(taken as int, all.len() as int),
                sorted@ == sort_by_votes(all.subrange(0, taken as int)),
            decreases rest@.len(),
        {
            let x = rest.remove(0);
            assert(x == all[taken as int]);
            let mut p: usize = 0;
            while p < sorted.len() && sorted[p].count >= x.count
                invariant
                    p <= sorted@.len(),
                    forall|k: int| 0 <= k < p ==> #[trigger] sorted@[k].count >= x.count,
                decreases sorted@.len() - p,
            {
                p += 1;
            }
            proof {
                assert forall|k: int| 0 <= k < p implies votes_key()(#[trigger] sorted@[k])
                    >= votes_key()(x) by {}
                lemma_insert_pos_by(sorted@, votes_key(), votes_key()(x), p as int);
                let sub = all.subrange(0, taken + 1);
                assert(sub.drop_last() =~= all.subrange(0, taken as int));
                assert(sub.last() == x);
            }
            sorted.insert(p, x);
            taken += 1;
            assert(rest@ =~= all.subrange(taken as int, all.len() as int));
        }
        assert(all.subrange(0, taken as int) =~= all);
        proof {
            lemma_sort_desc_by(all, votes_key());
            assert forall|k: int| 0 <= k < sorted@.len() implies #[trigger] sorted@[k].count
                <= self.voters().len() by {
                broadcast use vstd::seq_lib::to_multiset_contains;

                let c = sorted@[k];
                assert(sorted@.to_multiset().count(c) > 0);
                assert(all.to_multiset().count(c) > 0);
                assert(all.contains(c));
                let j = choose|j: int| 0 <= j < all.len() && all[j] == c;
                assert(all[j].count <= self.voters().len());
            }
            assert forall|k: int| 0 <= k < sorted@.len() implies #[trigger] sorted@[k].pos
                < sorted@.len() by {
                broadcast use vstd::seq_lib::to_multiset_contains;

                let c = sorted@[k];
                assert(sorted@.to_multiset().count(c) > 0);
                assert(all.to_multiset().count(c) > 0);
                assert(all.contains(c));
                let j = choose|j: int| 0 <= j < all.len() && all[j] == c;
                assert(all[j].pos < all.len());
            }
        }
        self.choices = sorted;
        self.choices.as_slice()
    }

    /// The announcement of the options with the most votes (at most three), in order:
    /// `(n votes) #place option`, sent to where the poll ran.
    fn results(&self) -> (r: Option<Response>)
        requires
            self.wf(),
        ensures
            r matches Some(Response::Multi { data }) && data@.len() == if self.choices_spec().len()
                < 3 {
                self.choices_spec().len()
            } else {
                3
            } && forall|k: int|
                0 <= k < data@.len() ==> is_privmsg(
                    #[trigger] data@[k],
                    self.target_text(),
                    result_line(self.choices_spec()[k]),
                ),
    {
        let mut out: Vec<Response> = Vec::new();
        let mut i: usize = 0;
        let len = self.choices.len();
        let n = if self.choices.len() < 3 {
            self.choices.len()
        } else {
            3
        };
        while i < n
            invariant
                n <= self.choices@.len(),
                len == self.choices@.len(),
                n == if self.choices@.len() < 3 {
                    self.choices@.len()
                } else {
                    3
                },
                i <= n,
                out@.len() == i,
                forall|k: int|
                    0 <= k < self.choices@.len() ==> #[trigger] self.choices@[k].pos
                        < self.choices@.len(),
                forall|k: int|
                    0 <= k < i ==> is_privmsg(
                        #[trigger] out@[k],
                        self.target@,
                        result_line(self.choices@[k]),
                    ),
            decreases n - i,
        {
            let c = &self.choices[i];
            assert(self.choices@[i as int].pos < self.choices@.len());
            let line = result_text(c);
            out.push(
                Response::Command {
                    cmd: IrcCommand::Privmsg { target: self.target.clone(), data: line },
                },
            );
            i += 1;
        }
        Some(Response::Multi { data: out })
    }
}

/// `(n votes) #place option`, the place counted from one.
pub open spec fn result_line(c: Choice) -> Seq<char> {
    "("@ + crate::text::decimal(c.count as nat) + " votes) #"@ + crate::text::decimal(
        c.pos as nat + 1,
    ) + " "@ + c.option@
}

fn result_text(c: &Choice) -> (r: String)
    requires
        c.pos < usize::MAX,
    ensures
        r@ == result_line(*c),
{
    let mut s = String::from_str("(");
    let count = crate::text::decimal_chars(c.count as u64);
    push_chars(&mut s, &count);
    s.append(" votes) #");
    let place = crate::text::decimal_chars((c.pos + 1) as u64);
    push_chars(&mut s, &place);
    s.append(" ");
    s.append(c.option.as_str());
    s
}


/// What `vote` does to a poll: a vote of `id` for option number `option` (from zero)
/// counts when `id` has not voted yet, the option exists, and the voters can still be
/// counted in a `usize`; otherwise nothing changes.
pub open spec fn vote_result(before: Poll, after: Poll, id: i64, option: usize) -> bool {
    &&& after.target_text() == before.target_text()
    &&& after.title_text() == before.title_text()
    &&& if !before.voters().contains(id) && option < before.choices_spec().len()
        && before.voters().len() < usize::MAX {
        &&& after.voters() == before.voters().insert(id)
        &&& after.choices_spec() == before.choices_spec().update(
            option as int,
            Choice {
                pos: before.choices_spec()[option as int].pos,
                count: (before.choices_spec()[option as int].count + 1) as usize,
                option: before.choices_spec()[option as int].option,
            },
        )
    } else {
        &&& after.voters() == before.voters()
        &&& after.choices_spec() == before.choices_spec()
    }
}

/// The pieces of `!poll title | option | ...` between the bars, trimmed, without the
/// empty ones.
pub open spec fn poll_parts(data: Seq<char>) -> Seq<Seq<char>> {
    nonempty_trimmed(split_spec(data, '|'))
}

/// The trimmed pieces that are not empty, in order.
pub open spec fn nonempty_trimmed(parts: Seq<Seq<char>>) -> Seq<Seq<char>>
    decreases parts.len(),
{
    if parts.len() == 0 {
        seq![]
    } else {
        let rest = nonempty_trimmed(parts.drop_last());
        let t = trim_spec(parts.last());
        if t.len() > 0 {
            rest.push(t)
        } else {
            rest
        }
    }
}

/// `s` without the `#` characters it starts with.
pub open spec fn skip_hashes(s: Seq<char>) -> Seq<char>
    decreases s.len(),
{
    if s.len() > 0 && s[0] == '#' {
        skip_hashes(s.drop_first())
    } else {
        s
    }
}

/// The number that a word starts with (after any `#` when `hash` is set), as
/// `str::parse::<usize>` reads it.
pub open spec fn leading_number(word: Seq<char>, hash: bool) -> Option<nat> {
    let w = if hash {
        skip_hashes(word)
    } else {
        word
    };
    parse_unsigned(take_digits(w), usize::MAX as nat)
}

/// The number that the first word of `args` starts with.
pub open spec fn first_number(args: Seq<char>, hash: bool) -> Option<nat> {
    let w = words(args);
    if w.len() > 0 {
        leading_number(w[0], hash)
    } else {
        None
    }
}

/// The number that `word` starts with (after any `#` when `hash` is set).
pub(crate) fn parse_leading(word: &str, hash: bool) -> (r: Option<usize>)
    ensures
        r == (match leading_number(word@, hash) {
            Some(n) => Some(n as usize),
            None => None,
        }),
{
    let v = chars_of(word);
    let mut i: usize = 0;
    assert(v@.subrange(0, v@.len() as int) =~= v@);
    if hash {
        while i < v.len() && v[i] == '#'
            invariant
                i <= v@.len(),
                skip_hashes(v@) == skip_hashes(v@.subrange(i as int, v@.len() as int)),
            decreases v@.len() - i,
        {
            let ghost sub = v@.subrange(i as int, v@.len() as int);
            assert(sub.drop_first() =~= v@.subrange(i + 1, v@.len() as int));
            i += 1;
        }
        let ghost sub = v@.subrange(i as int, v@.len() as int);
        assert(skip_hashes(sub) == sub);
    } else {
        assert(v@.subrange(0, v@.len() as int) =~= v@);
    }
    let digits = digits_from(&v, i);
    parse_usize_chars(&digits)
}

/// The number that the first word of `args` starts with.
fn first_arg_number(req: &Request, hash: bool) -> (r: Option<usize>)
    ensures
        r == (match first_number(req@.args, hash) {
            Some(n) => Some(n as usize),
            None => None,
        }),
{
    let args = req.args_iter();
    if args.len() == 0 {
        return None;
    }
    assert(views(args@)[0] == args@[0]@);
    parse_leading(args[0], hash)
}

/// A poll command: the poll that the broadcaster set up, when it started (on the
/// caller's clock, in milliseconds), for how many seconds it runs, and whether it runs.
pub struct TwitchPoll {
    poll: Option<Poll>,
    start: Option<u64>,
    duration: usize,
    running: bool,
}

/// `#n: option`, the place counted from one.
pub open spec fn option_line(i: int, option: Seq<char>) -> Seq<char> {
    "#"@ + crate::text::decimal((i + 1) as nat) + ": "@ + option
}

/// `r` asks the broadcaster to check the poll: the question, the title, then each option
/// with its number.
pub open spec fn is_confirmation(r: Option<Response>, title: Seq<char>, options: Seq<Seq<char>>) -> bool {
    &&& r matches Some(Response::Multi { data })
    &&& r->0->Multi_data@.len() == 3
    &&& is_text(r->0->Multi_data@[0], false, "is this poll correct?"@)
    &&& is_text(r->0->Multi_data@[1], false, title)
    &&& r->0->Multi_data@[2] matches Response::Multi { data: lines }
    &&& r->0->Multi_data@[2]->Multi_data@.len() == options.len()
    &&& forall|k: int|
        0 <= k < options.len() ==> is_text(
            #[trigger] r->0->Multi_data@[2]->Multi_data@[k],
            false,
            option_line(k, options[k]),
        )
}

/// `starting the poll for the next n seconds. ...`
pub open spec fn start_line(n: nat) -> Seq<char> {
    "starting the poll for the next "@ + crate::text::decimal(n)
        + " seconds. use '!vote n' to vote for that option"@
}

/// `r` is the reply `line` to the sender.
pub open spec fn is_reply(r: Option<Response>, line: Seq<char>) -> bool {
    r matches Some(x) && is_text(x, true, line)
}

fn reply(text: &str) -> (r: Option<Response>)
    ensures
        is_reply(r, text@),
{
    Some(Response::Reply { data: String::from_str(text) })
}

fn say(data: String) -> (r: Response)
    ensures
        is_text(r, false, data@),
{
    Response::Say { data }
}

impl TwitchPoll {
    /// The poll that is set up.
    pub closed spec fn poll_spec(&self) -> Option<Poll> {
        self.poll
    }

    /// When the running poll started, on the caller's clock in milliseconds.
    pub closed spec fn start_spec(&self) -> Option<u64> {
        self.start
    }

    /// How many seconds the poll runs.
    pub closed spec fn duration_spec(&self) -> usize {
        self.duration
    }

    /// Whether a poll runs.
    pub closed spec fn running_spec(&self) -> bool {
        self.running
    }

    /// What every state keeps: a running poll is set up and has a start, and the poll
    /// that is set up is well formed.
    pub open spec fn wf(&self) -> bool {
        &&& self.running_spec() ==> self.poll_spec() is Some && self.start_spec() is Some
        &&& self.poll_spec() matches Some(p) ==> p.wf()
    }

    /// Sets up a poll from `title | option | ...`: the pieces between the bars are trimmed
    /// and the empty ones dropped; the first is the title, the others the options.
    pub fn parse_poll(target: &str, data: &str) -> (r: Result<Poll, ParseError>)
        ensures
            match r {
                Ok(p) => {
                    let parts = poll_parts(data@);
                    &&& parts.len() >= 2
                    &&& p.wf()
                    &&& p.target_text() == target@
                    &&& p.title_text() == parts[0]
                    &&& choice_views(p.choices_spec()) == fresh_choices(parts.drop_first())
                    &&& p.voters() == Set::<i64>::empty()
                },
                Err(e) => (poll_parts(data@).len() == 0 && e == ParseError::Title) || (poll_parts(
                    data@,
                ).len() == 1 && e == ParseError::Options),
            },
    {
        let pieces = split(data, '|');
        let mut parts: Vec<&str> = Vec::new();
        let mut i: usize = 0;
        while i < pieces.len()
            invariant
                i <= pieces@.len(),
                views(pieces@) == split_spec(data@, '|'),
                views(parts@) == nonempty_trimmed(views(pieces@).subrange(0, i as int)),
            decreases pieces@.len() - i,
        {
            let t = trim(pieces[i]);
            let ghost before = parts@;
            assert(views(pieces@).subrange(0, i + 1).drop_last() =~= views(pieces@).subrange(
                0,
                i as int,
            ));
            assert(views(pieces@).subrange(0, i + 1).last() == pieces@[i as int]@);
            if t.unicode_len() > 0 {
                parts.push(t);
                assert(views(parts@) =~= views(before).push(t@));
            }
            i += 1;
        }
        assert(views(pieces@).subrange(0, i as int) =~= views(pieces@));
        if parts.len() == 0 {
            return Err(ParseError::Title);
        }
        let title = parts.remove(0);
        proof {
            assert(views(parts@) =~= poll_parts(data@).drop_first());
        }
        let r = Poll::new(target, title, parts);
        r
    }

    /// No poll set up, none running.
    pub fn create() -> (r: Self)
        ensures
            r.wf(),
            r.poll_spec() is None,
            r.start_spec() is None,
            r.duration_spec() == 0,
            !r.running_spec(),
    {
        TwitchPoll { poll: None, start: None, duration: 0, running: false }
    }

    /// Whether a poll is set up.
    pub fn has_poll(&self) -> (r: bool)
        ensures
            r == self.poll_spec() is Some,
    {
        self.poll.is_some()
    }

    /// When the running poll started.
    pub fn started_at(&self) -> (r: Option<u64>)
        ensures
            r == self.start_spec(),
    {
        self.start
    }

    /// How many seconds the poll runs.
    pub fn duration(&self) -> (r: usize)
        ensures
            r == self.duration_spec(),
    {
        self.duration
    }

    /// Whether a poll runs.
    pub fn is_running(&self) -> (r: bool)
        ensures
            r == self.running_spec(),
    {
        self.running
    }

    /// `!poll title | option | ...` (broadcaster only): sets up a poll, unless one runs,
    /// and asks whether it is right.
    pub fn poll_command(&mut self, req: &Request, is_broadcaster: bool) -> (r: Option<Response>)
        requires
            old(self).wf(),
        ensures
            final(self).wf(),
            ({
                let parts = poll_parts(req@.args);
                if !is_broadcaster {
                    r is None && *final(self) == *old(self)
                } else if parts.len() == 0 {
                    is_reply(r, parse_error_text(ParseError::Title)) && *final(self) == *old(self)
                } else if parts.len() == 1 {
                    is_reply(r, parse_error_text(ParseError::Options)) && *final(self) == *old(
                        self,
                    )
                } else if old(self).running_spec() {
                    is_reply(r, "poll is already running. use !poll stop to stop it"@)
                        && *final(self) == *old(self)
                } else {
                    &&& is_confirmation(r, parts[0], parts.drop_first())
                    &&& final(self).running_spec() == old(self).running_spec()
                    &&& final(self).start_spec() == old(self).start_spec()
                    &&& final(self).duration_spec() == old(self).duration_spec()
                    &&& final(self).poll_spec() matches Some(p) && p.target_text() == req@.target
                        && p.title_text() == parts[0] && choice_views(p.choices_spec())
                        == fresh_choices(parts.drop_first()) && p.voters() == Set::<
                        i64,
                    >::empty()
                }
            }),
    {
        if !is_broadcaster {
            return None;
        }
        let poll = match Self::parse_poll(req.target(), req.args()) {
            Ok(poll) => poll,
            Err(err) => {
                let text = err.to_text();
                return Some(Response::Reply { data: text });
            },
        };
        if self.running {
            return reply("poll is already running. use !poll stop to stop it");
        }
        let mut lines: Vec<Response> = Vec::new();
        let n = poll.choices.len();
        let mut i: usize = 0;
        while i < n
            invariant
                n == poll.choices@.len(),
                i <= n,
                lines@.len() == i,
                forall|k: int|
                    0 <= k < i ==> is_text(
                        #[trigger] lines@[k],
                        false,
                        option_line(k, poll.choices@[k].option@),
                    ),
            decreases n - i,
        {
            let mut line = String::from_str("#");
            let place = crate::text::decimal_chars((i + 1) as u64);
            push_chars(&mut line, &place);
            line.append(": ");
            line.append(poll.choices[i].option.as_str());
            lines.push(say(line));
            i += 1;
        }
        let mut data: Vec<Response> = Vec::new();
        data.push(say(String::from_str("is this poll correct?")));
        data.push(say(poll.title.clone()));
        data.push(Response::Multi { data: lines });
        proof {
            let parts = poll_parts(req@.args);
            assert(choice_views(poll.choices@).len() == poll.choices@.len());
            assert(poll.choices@.len() == parts.drop_first().len());
            assert forall|k: int| 0 <= k < parts.drop_first().len() implies #[trigger] option_line(
                k,
                poll.choices@[k].option@,
            ) == option_line(k, parts.drop_first()[k]) by {
                assert(choice_views(poll.choices@)[k] == fresh_choices(parts.drop_first())[k]);
            }
            assert(data@[2]->Multi_data@ == lines@);
        }
        self.poll = Some(poll);
        Some(Response::Multi { data })
    }

    /// `!poll start n` (broadcaster only): starts the poll that is set up for `n`
    /// seconds, from `now` (milliseconds on the caller's clock).
    pub fn poll_start_command(&mut self, req: &Request, is_broadcaster: bool, now: u64) -> (r:
        Option<Response>)
        requires
            old(self).wf(),
        ensures
            final(self).wf(),
            if !is_broadcaster {
                r is None && *final(self) == *old(self)
            } else if old(self).poll_spec() is None {
                is_reply(r, "no poll has been configured. use !poll title | options | ..."@)
                    && *final(self) == *old(self)
            } else {
                match first_number(req@.args, false) {
                    None => is_reply(r, "I don't know how long that is"@) && *final(self) == *old(
                        self,
                    ),
                    Some(n) => {
                        &&& r matches Some(x) && is_text(x, false, start_line(n))
                        &&& final(self).running_spec()
                        &&& final(self).duration_spec() == n
                        &&& final(self).start_spec() == Some(now)
                        &&& final(self).poll_spec() == old(self).poll_spec()
                    },
                }
            },
    {
        if !is_broadcaster {
            return None;
        }
        if self.poll.is_none() {
            return reply("no poll has been configured. use !poll title | options | ...");
        }
        let dur = match first_arg_number(req, false) {
            Some(n) => n,
            None => return reply("I don't know how long that is"),
        };
        self.running = true;
        self.duration = dur;
        self.start = Some(now);
        let mut line = String::from_str("starting the poll for the next ");
        let digits = crate::text::decimal_chars(dur as u64);
        push_chars(&mut line, &digits);
        line.append(" seconds. use '!vote n' to vote for that option");
        Some(say(line))
    }

    /// `!poll stop` (broadcaster only): drops the running poll without results.
    pub fn poll_stop_command(&mut self, req: &Request, is_broadcaster: bool) -> (r: Option<
        Response,
    >)
        requires
            old(self).wf(),
        ensures
            final(self).wf(),
            if !is_broadcaster {
                r is None && *final(self) == *old(self)
            } else if !old(self).running_spec() {
                is_reply(r, "no poll is running"@) && *final(self) == *old(self)
            } else {
                &&& r is None
                &&& !final(self).running_spec()
                &&& final(self).duration_spec() == 0
                &&& final(self).start_spec() is None
                &&& final(self).poll_spec() is None
            },
    {
        if !is_broadcaster {
            return None;
        }
        if !self.running {
            return reply("no poll is running");
        }
        self.running = false;
        self.duration = 0;
        self.start = None;
        self.poll = None;
        None
    }

    /// `!vote n`: the sender's vote for option `n` (counted from one, `#` allowed before
    /// it) in the running poll.
    pub fn poll_vote_command(&mut self, req: &Request) -> (r: Option<Response>)
        requires
            old(self).wf(),
        ensures
            final(self).wf(),
            if !old(self).running_spec() || old(self).poll_spec() is None {
                r is None && *final(self) == *old(self)
            } else {
                let max = old(self).poll_spec()->0.choices_spec().len();
                match first_number(req@.args, true) {
                    Some(n) if 1 <= n <= max => {
                        &&& r is None
                        &&& final(self).running_spec() == old(self).running_spec()
                        &&& final(self).start_spec() == old(self).start_spec()
                        &&& final(self).duration_spec() == old(self).duration_spec()
                        &&& final(self).poll_spec() matches Some(p) && vote_result(
                            old(self).poll_spec()->0,
                            p,
                            req@.sender,
                            (n - 1) as usize,
                        )
                    },
                    _ => is_reply(r, "what option is that?"@) && *final(self) == *old(self),
                }
            },
    {
        if !self.running {
            return None;
        }
        if self.poll.is_none() {
            return None;
        }
        let mut taken: Option<Poll> = None;
        std::mem::swap(&mut taken, &mut self.poll);
        let mut poll = match taken {
            Some(p) => p,
            None => return None,
        };
        let max = poll.choices.len();
        let n = match first_arg_number(req, true) {
            Some(n) => n,
            None => {
                self.poll = Some(poll);
                return reply("what option is that?");
            },
        };
        if n == 0 || n > max {
            self.poll = Some(poll);
            return reply("what option is that?");
        }
        poll.vote(req.sender(), n - 1);
        self.poll = Some(poll);
        None
    }

    /// A tick at `now` (milliseconds on the caller's clock): once the running poll has run
    /// its seconds, it ends and the three options with the most votes are announced.
    pub fn handle_tick(&mut self, now: u64) -> (r: Option<Response>)
        requires
            old(self).wf(),
        ensures
            final(self).wf(),
            if !old(self).running_spec() || old(self).start_spec() is None || (if now
                < old(self).start_spec()->0 {
                0
            } else {
                now - old(self).start_spec()->0
            }) < old(self).duration_spec() * 1000 {
                r is None && *final(self) == *old(self)
            } else {
                let p = old(self).poll_spec()->0;
                let sorted = sort_by_votes(p.choices_spec());
                &&& !final(self).running_spec()
                &&& final(self).start_spec() is None
                &&& final(self).poll_spec() is None
                &&& final(self).duration_spec() == old(self).duration_spec()
                &&& r matches Some(Response::Multi { data })
                &&& r->0->Multi_data@.len() == (if sorted.len() < 3 {
                    sorted.len()
                } else {
                    3
                })
                &&& forall|k: int|
                    0 <= k < r->0->Multi_data@.len() ==> is_privmsg(
                        #[trigger] r->0->Multi_data@[k],
                        p.target_text(),
                        result_line(sorted[k]),
                    )
            },
    {
        if !self.running {
            return None;
        }
        let start = match self.start {
            Some(s) => s,
            None => return None,
        };
        let elapsed: u64 = if now < start {
            0
        } else {
            now - start
        };
        if elapsed / 1000 < self.duration as u64 {
            return None;
        }
        self.running = false;
        self.start = None;
        let mut taken: Option<Poll> = None;
        std::mem::swap(&mut taken, &mut self.poll);
        let mut poll = match taken {
            Some(p) => p,
            None => return None,
        };
        poll.tally();
        poll.results()
    }
}


/// Once a voter's vote has counted, their later votes change nothing.
pub proof fn law_vote_counted_once(p0: Poll, p1: Poll, p2: Poll, id: i64, first: usize, again: usize)
    requires
        !p0.voters().contains(id),
        first < p0.choices_spec().len(),
        p0.voters().len() < usize::MAX,
        vote_result(p0, p1, id, first),
        vote_result(p1, p2, id, again),
    ensures
        p2.voters() == p1.voters(),
        p2.choices_spec() == p1.choices_spec(),
{
    assert(p1.voters().contains(id));
}

/// All the votes of the choices, added up.
pub open spec fn total_votes(s: Seq<Choice>) -> int
    decreases s.len(),
{
    if s.len() == 0 {
        0
    } else {
        total_votes(s.drop_last()) + s.last().count
    }
}

proof fn lemma_total_update(s: Seq<Choice>, i: int, c: Choice)
    requires
        0 <= i < s.len(),
    ensures
        total_votes(s.update(i, c)) == total_votes(s) - s[i].count + c.count,
    decreases s.len(),
{
    let u = s.update(i, c);
    if i < s.len() - 1 {
        assert(u.drop_last() =~= s.drop_last().update(i, c));
        lemma_total_update(s.drop_last(), i, c);
    } else {
        assert(u.drop_last() =~= s.drop_last());
    }
}

proof fn lemma_total_insert(s: Seq<Choice>, p: int, x: Choice)
    requires
        0 <= p <= s.len(),
    ensures
        total_votes(s.insert(p, x)) == total_votes(s) + x.count,
    decreases s.len(),
{
    let u = s.insert(p, x);
    if p == s.len() {
        assert(u.drop_last() =~= s);
    } else {
        assert(u.drop_last() =~= s.drop_last().insert(p, x));
        lemma_total_insert(s.drop_last(), p, x);
    }
}

proof fn lemma_total_sort(s: Seq<Choice>)
    ensures
        total_votes(sort_by_votes(s)) == total_votes(s),
    decreases s.len(),
{
    if s.len() == 0 {
        assert(sort_by_votes(s) =~= Seq::<Choice>::empty());
    } else {
        let t = s.drop_last();
        lemma_total_sort(t);
        let sorted = sort_by_votes(t);
        crate::sort::lemma_insert_pos_by_bounds(sorted, votes_key(), votes_key()(s.last()));
        lemma_total_insert(
            sorted,
            crate::sort::insert_pos_by(sorted, votes_key(), votes_key()(s.last())),
            s.last(),
        );
    }
}

/// Every vote that counts is one voter's: a new poll has no votes and no voters, and
/// voting and tallying keep the votes of all choices equal to the number of voters.
pub proof fn law_votes_match_voters(p0: Poll, p1: Poll, id: i64, option: usize, options: Seq<Seq<char>>)
    requires
        p0.wf(),
        total_votes(p0.choices_spec()) == p0.voters().len(),
        vote_result(p0, p1, id, option),
    ensures
        total_votes(p1.choices_spec()) == p1.voters().len(),
        total_votes(sort_by_votes(p1.choices_spec())) == p1.voters().len(),
        choice_views(p0.choices_spec()) == fresh_choices(options) ==> total_votes(
            p0.choices_spec(),
        ) == 0,
{
    if !p0.voters().contains(id) && option < p0.choices_spec().len() && p0.voters().len()
        < usize::MAX {
        let c = p0.choices_spec()[option as int];
        assert(c.count <= p0.voters().len());
        assert(p0.voters().insert(id).len() == p0.voters().len() + 1);
        lemma_total_update(
            p0.choices_spec(),
            option as int,
            Choice { pos: c.pos, count: (c.count + 1) as usize, option: c.option },
        );
    }
    lemma_total_sort(p1.choices_spec());
    if choice_views(p0.choices_spec()) == fresh_choices(options) {
        lemma_fresh_total(p0.choices_spec(), options);
    }
}

proof fn lemma_fresh_total(s: Seq<Choice>, options: Seq<Seq<char>>)
    requires
        choice_views(s) == fresh_choices(options),
    ensures
        total_votes(s) == 0,
    decreases s.len(),
{
    assert(choice_views(s).len() == s.len());
    assert(s.len() == options.len());
    if s.len() > 0 {
        assert(choice_views(s)[s.len() - 1] == fresh_choices(options)[s.len() - 1]);
        let t = s.drop_last();
        let o = options.drop_last();
        assert(choice_views(t) =~= fresh_choices(o)) by {
            assert forall|k: int| 0 <= k < t.len() implies choice_views(t)[k] == fresh_choices(
                o,
            )[k] by {
                assert(t[k] == s[k]);
                assert(o[k] == options[k]);
                assert(choice_views(s)[k] == fresh_choices(options)[k]);
            }
        }
        lemma_fresh_total(t, o);
    }
}
} // verus!
