//! A poll run by the bot's owner: the options are quoted phrases (`!poll "a" "b"`), it
//! runs for some seconds, everyone votes once (`!vote n`), and the three options with
//! the most votes are said when it ends. Each command gives the lines the bot says.

use crate::sort::{
    is_desc_by, lemma_insert_pos_by, lemma_insert_pos_by_bounds, lemma_sort_desc_by,
    sort_desc_by,
};
use crate::text::{
    chars_of, decimal, decimal_chars, is_prefix, parse_unsigned, parse_usize_chars,
    split_whitespace, starts_with, string_from_chars, take_digits, trim, trim_spec, views, words,
};
use crate::util::push_chars;
use vstd::prelude::*;
use vstd::utf8::{encode_utf8, is_char_boundary};

verus! {

/// The ASCII characters that `input` starts with (a character beyond ASCII ends the
/// options: the reader takes one byte at a time and stops where a byte is no
/// character).
pub open spec fn ascii_prefix(s: Seq<char>) -> Seq<char>
    decreases s.len(),
{
    if s.len() > 0 && (s[0] as u32) < 0x80 {
        seq![s[0]] + ascii_prefix(s.drop_first())
    } else {
        seq![]
    }
}

/// The options from `i` on, between options: quotes and spaces are skipped, and the
/// next other character starts an option.
pub open spec fn options_from(s: Seq<char>, i: int) -> Seq<Seq<char>>
    decreases s.len() - i, 1int,
{
    if i < 0 || i >= s.len() {
        seq![]
    } else if s[i] == '"' || s[i] == ' ' {
        options_from(s, i + 1)
    } else {
        option_at(s, i, i)
    }
}

/// The options from `i` on, inside an option that started at `start`: a quote ends it
/// (trimmed); the end of the text ends it too, and it is kept when something is left
/// after trimming.
pub open spec fn option_at(s: Seq<char>, start: int, i: int) -> Seq<Seq<char>>
    decreases s.len() - i, 0int,
{
    if i < 0 || start < 0 || start > i || i >= s.len() {
        let t = trim_spec(s.subrange(start, s.len() as int));
        if 0 <= start <= s.len() && t.len() > 0 {
            seq![t]
        } else {
            seq![]
        }
    } else if s[i] == '"' {
        seq![trim_spec(s.subrange(start, i))] + options_from(s, i + 1)
    } else {
        option_at(s, start, i + 1)
    }
}

/// The options that `input` writes.
pub open spec fn options_spec(input: Seq<char>) -> Seq<Seq<char>> {
    options_from(ascii_prefix(input), 0)
}

/// The views of strings.
pub open spec fn string_views(v: Seq<String>) -> Seq<Seq<char>> {
    v.map_values(|s: String| s@)
}

proof fn lemma_ascii_prefix(s: Seq<char>, n: int)
    requires
        0 <= n <= s.len(),
        forall|k: int| 0 <= k < n ==> (#[trigger] s[k] as u32) < 0x80,
        n == s.len() || (s[n] as u32) >= 0x80,
    ensures
        ascii_prefix(s) == s.subrange(0, n),
    decreases n,
{
    if n > 0 {
        let t = s.drop_first();
        assert forall|k: int| 0 <= k < n - 1 implies (#[trigger] t[k] as u32) < 0x80 by {
            assert(t[k] == s[k + 1]);
        }
        if n < s.len() {
            assert(t[n - 1] == s[n]);
        }
        lemma_ascii_prefix(t, n - 1);
        assert(seq![s[0]] + t.subrange(0, n - 1) =~= s.subrange(0, n));
    } else {
        assert(s.subrange(0, 0) =~= Seq::<char>::empty());
    }
}

fn trimmed(v: &Vec<char>, start: usize, end: usize) -> (r: String)
    requires
        start <= end <= v@.len(),
    ensures
        r@ == trim_spec(v@.subrange(start as int, end as int)),
{
    let mut buf: Vec<char> = Vec::new();
    let mut k = start;
    while k < end
        invariant
            start <= k <= end,
            end <= v@.len(),
            buf@ == v@.subrange(start as int, k as int),
        decreases end - k,
    {
        buf.push(v[k]);
        k += 1;
        assert(buf@ =~= v@.subrange(start as int, k as int));
    }
    let s = string_from_chars(&buf);
    String::from_str(trim(s.as_str()))
}

/// Reads the options of a poll: phrases in double quotes, or runs of words between
/// quotes; each is trimmed.
pub fn collect_options(input: &str) -> (r: Vec<String>)
    ensures
        string_views(r@) == options_spec(input@),
{
    let all = chars_of(input);
    let mut n: usize = 0;
    while n < all.len() && (all[n] as u32) < 0x80
        invariant
            n <= all@.len(),
            forall|k: int| 0 <= k < n ==> (#[trigger] all@[k] as u32) < 0x80,
        decreases all@.len() - n,
    {
        n += 1;
    }
    proof {
        lemma_ascii_prefix(all@, n as int);
    }
    let mut v: Vec<char> = Vec::new();
    let mut k: usize = 0;
    while k < n
        invariant
            k <= n <= all@.len(),
            v@ == all@.subrange(0, k as int),
        decreases n - k,
    {
        v.push(all[k]);
        k += 1;
        assert(v@ =~= all@.subrange(0, k as int));
    }
    let ghost s = v@;
    assert(s == ascii_prefix(input@));
    let mut options: Vec<String> = Vec::new();
    let mut i: usize = 0;
    let mut in_option = false;
    let mut start: usize = 0;
    while i < v.len()
        invariant
            s == v@,
            i <= v@.len(),
            start <= i,
            in_option ==> string_views(options@) + option_at(s, start as int, i as int)
                == options_from(s, 0),
            !in_option ==> string_views(options@) + options_from(s, i as int) == options_from(
                s,
                0,
            ),
        decreases v@.len() - i, if in_option {
            0int
        } else {
            1int
        },
    {
        let c = v[i];
        if !in_option {
            if c == '"' || c == ' ' {
                i += 1;
            } else {
                in_option = true;
                start = i;
            }
        } else if c == '"' {
            let t = trimmed(&v, start, i);
            let ghost before = options@;
            options.push(t);
            proof {
                assert(string_views(options@) =~= string_views(before).push(t@));
                assert(string_views(before) + option_at(s, start as int, i as int) =~= string_views(
                    options@,
                ) + options_from(s, i + 1));
            }
            in_option = false;
            i += 1;
        } else {
            i += 1;
        }
    }
    if in_option {
        let t = trimmed(&v, start, v.len());
        assert(s.subrange(start as int, s.len() as int) == v@.subrange(start as int, v@.len() as int));
        if t.as_str().unicode_len() > 0 {
            let ghost before = options@;
            options.push(t);
            assert(string_views(options@) =~= string_views(before) + option_at(
                s,
                start as int,
                i as int,
            ));
        } else {
            assert(string_views(options@) =~= string_views(options@) + option_at(
                s,
                start as int,
                i as int,
            ));
        }
    } else {
        assert(string_views(options@) =~= string_views(options@) + options_from(s, i as int));
    }
    options
}


/// An option of a poll: its text, its place in the list as given, and its votes.
#[derive(Debug, Clone)]
pub struct Choice {
    pub option: String,
    pub position: usize,
    pub count: usize,
}

/// A poll: where it was set up, its options, and who has voted.
pub struct TwitchPoll {
    target: String,
    options: Vec<Choice>,
    seen: Vec<String>,
}

/// Orders choices by votes.
pub open spec fn by_count() -> spec_fn(Choice) -> int {
    |c: Choice| c.count as int
}

/// `#n: option`, the place counted from one.
pub open spec fn option_line(i: int, option: Seq<char>) -> Seq<char> {
    "#"@ + decimal((i + 1) as nat) + ": "@ + option
}

/// `(n votes) #place option`.
pub open spec fn result_line(c: Choice) -> Seq<char> {
    "("@ + decimal(c.count as nat) + " votes) #"@ + decimal(c.position as nat + 1) + " "@
        + c.option@
}

impl TwitchPoll {
    /// Where the poll was set up.
    pub closed spec fn target_text(&self) -> Seq<char> {
        self.target@
    }

    /// The options in their current order.
    pub closed spec fn options_spec(&self) -> Seq<Choice> {
        self.options@
    }

    /// Who has voted, in order.
    pub closed spec fn voters(&self) -> Seq<Seq<char>> {
        string_views(self.seen@)
    }

    /// The options in their current order.
    pub fn options(&self) -> (r: &Vec<Choice>)
        ensures
            r@ == self.options_spec(),
    {
        &self.options
    }

    /// What every poll keeps: no option has more votes than there are voters, and each
    /// place is within the options.
    pub open spec fn wf(&self) -> bool {
        &&& forall|k: int|
            0 <= k < self.options_spec().len() ==> #[trigger] self.options_spec()[k].count
                <= self.voters().len()
        &&& forall|k: int|
            0 <= k < self.options_spec().len() ==> #[trigger] self.options_spec()[k].position
                < self.options_spec().len()
    }

    /// A poll at `target` with the options `options`, none voted for.
    pub fn new(target: &str, options: &[String]) -> (r: Self)
        ensures
            r.wf(),
            r.target_text() == target@,
            r.voters() == Seq::<Seq<char>>::empty(),
            r.options_spec().len() == options@.len(),
            forall|k: int|
                0 <= k < options@.len() ==> (#[trigger] r.options_spec()[k]).option@
                    == options@[k]@ && r.options_spec()[k].position == k
                    && r.options_spec()[k].count == 0,
    {
        let mut out: Vec<Choice> = Vec::new();
        let mut i: usize = 0;
        while i < options.len()
            invariant
                i <= options@.len(),
                out@.len() == i,
                forall|k: int|
                    0 <= k < i ==> (#[trigger] out@[k]).option@ == options@[k]@ && out@[k].position
                        == k && out@[k].count == 0,
            decreases options@.len() - i,
        {
            out.push(Choice { option: options[i].clone(), position: i, count: 0 });
            i += 1;
        }
        let r = TwitchPoll { target: String::from_str(target), options: out, seen: Vec::new() };
        assert(r.voters() =~= Seq::<Seq<char>>::empty());
        r
    }

    /// A vote of `who` for option number `option` (from zero): counted when `who` has not
    /// voted and the option exists.
    pub fn vote(&mut self, who: &str, option: usize)
        requires
            old(self).wf(),
        ensures
            final(self).wf(),
            final(self).target_text() == old(self).target_text(),
            if !old(self).voters().contains(who@) && option < old(self).options_spec().len() {
                &&& final(self).voters() == old(self).voters().push(who@)
                &&& final(self).options_spec() == old(self).options_spec().update(
                    option as int,
                    Choice {
                        count: (old(self).options_spec()[option as int].count + 1) as usize,
                        ..old(self).options_spec()[option as int]
                    },
                )
            } else {
                &&& final(self).voters() == old(self).voters()
                &&& final(self).options_spec() == old(self).options_spec()
            },
    {
        let mut i: usize = 0;
        while i < self.seen.len()
            invariant
                i <= self.seen@.len(),
                self.wf(),
                *self == *old(self),
                forall|k: int| 0 <= k < i ==> self.seen@[k]@ != who@,
            decreases self.seen@.len() - i,
        {
            if crate::text::str_eq(self.seen[i].as_str(), who) {
                assert(self.voters()[i as int] == who@);
                return;
            }
            i += 1;
        }
        assert(!self.voters().contains(who@)) by {
            if self.voters().contains(who@) {
                let k = choose|k: int| 0 <= k < self.voters().len() && self.voters()[k] == who@;
                assert(self.seen@[k]@ != who@);
            }
        }
        if option >= self.options.len() {
            return;
        }
        let ghost before = self.seen@;
        self.seen.push(String::from_str(who));
        let n = self.seen.len();
        assert(string_views(self.seen@) =~= string_views(before).push(who@));
        let cur = &self.options[option];
        assert(cur.count <= n - 1);
        let c = Choice { option: cur.option.clone(), position: cur.position, count: cur.count + 1 };
        self.options.set(option, c);
    }

    /// Sorts the options by votes, most first, keeping the order of options with equal
    /// votes, and gives them.
    pub fn tally(&mut self) -> (r: &Vec<Choice>)
        requires
            old(self).wf(),
        ensures
            final(self).wf(),
            final(self).options_spec() == sort_desc_by(old(self).options_spec(), by_count()),
            r@ == final(self).options_spec(),
            final(self).target_text() == old(self).target_text(),
            final(self).voters() == old(self).voters(),
    {
        let mut rest: Vec<Choice> = Vec::new();
        std::mem::swap(&mut rest, &mut self.options);
        let ghost all = rest@;
        let total: usize = rest.len();
        let mut sorted: Vec<Choice> = Vec::new();
        let mut taken: usize = 0;
        while rest.len() > 0
            invariant
                all.len() == total,
                all == old(self).options_spec(),
                self.seen == old(self).seen,
                self.target == old(self).target,
                taken + rest@.len() == all.len(),
                rest@ == all.subrange(taken as int, all.len() as int),
                sorted@ == sort_desc_by(all.subrange(0, taken as int), by_count()),
            decreases rest@.len(),
        {
            let x = rest.remove(0);
            assert(x == all[taken as int]);
            let mut p: usize = 0;
            while p < sorted.len() && sorted[p].count >= x.count
                invariant
                    p <= sorted@.len(),
                    forall|k: int| 0 <= k < p ==> #[trigger] sorted@[k].count >= x.count,
                decreases sorted@.len() - p,
            {
                p += 1;
            }
            proof {
                assert forall|k: int| 0 <= k < p implies by_count()(#[trigger] sorted@[k])
                    >= by_count()(x) by {}
                lemma_insert_pos_by(sorted@, by_count(), by_count()(x), p as int);
                let sub = all.subrange(0, taken + 1);
                assert(sub.drop_last() =~= all.subrange(0, taken as int));
                assert(sub.last() == x);
            }
            sorted.insert(p, x);
            taken += 1;
            assert(rest@ =~= all.subrange(taken as int, all.len() as int));
        }
        assert(all.subrange(0, taken as int) =~= all);
        proof {
            lemma_sort_desc_by(all, by_count());
            assert forall|k: int| 0 <= k < sorted@.len() implies #[trigger] sorted@[k].count
                <= self.voters().len() by {
                broadcast use vstd::seq_lib::to_multiset_contains;

                let c = sorted@[k];
                assert(sorted@.to_multiset().count(c) > 0);
                assert(all.to_multiset().count(c) > 0);
                assert(all.contains(c));
                let j = choose|j: int| 0 <= j < all.len() && all[j] == c;
                assert(all[j].count <= self.voters().len());
            }
            assert forall|k: int| 0 <= k < sorted@.len() implies #[trigger] sorted@[k].position
                < sorted@.len() by {
                broadcast use vstd::seq_lib::to_multiset_contains;

                let c = sorted@[k];
                assert(sorted@.to_multiset().count(c) > 0);
                assert(all.to_multiset().count(c) > 0);
                assert(all.contains(c));
                let j = choose|j: int| 0 <= j < all.len() && all[j] == c;
                assert(all[j].position < all.len());
            }
        }
        self.options = sorted;
        &self.options
    }
}

/// The default seconds a poll runs.
pub const DEFAULT_DURATION: usize = 30;

/// The owner's poll: the poll set up (if any), when it started (milliseconds on the
/// caller's clock), whether it runs, and for how many seconds.
pub struct Poll {
    poll: Option<TwitchPoll>,
    tick: u64,
    running: bool,
    duration: usize,
}

/// The seconds that `!poll start n` names: `n` after any `#`, when its digits make a
/// number.
pub open spec fn start_number(data: Seq<char>) -> Option<nat> {
    parse_unsigned(take_digits(crate::twitchpoll::skip_hashes(data)), usize::MAX as nat)
}

impl Poll {
    /// The poll that is set up.
    pub closed spec fn poll_spec(&self) -> Option<TwitchPoll> {
        self.poll
    }

    /// Whether the poll runs.
    pub closed spec fn running_spec(&self) -> bool {
        self.running
    }

    /// How many seconds the poll runs.
    pub closed spec fn duration_spec(&self) -> usize {
        self.duration
    }

    /// When the poll started.
    pub closed spec fn tick_spec(&self) -> u64 {
        self.tick
    }

    /// The poll that is set up is well formed.
    pub open spec fn wf(&self) -> bool {
        self.poll_spec() matches Some(p) ==> p.wf()
    }

    /// No poll; a poll runs for thirty seconds unless told otherwise; `now` is when this
    /// was made.
    pub fn new(now: u64) -> (r: Self)
        ensures
            r.wf(),
            r.poll_spec() is None,
            !r.running_spec(),
            r.duration_spec() == DEFAULT_DURATION,
            r.tick_spec() == now,
    {
        Poll { poll: None, tick: now, running: false, duration: DEFAULT_DURATION }
    }

    /// Sets for how many seconds a poll runs when started without a number.
    pub fn set_duration(&mut self, secs: usize)
        ensures
            final(self).duration_spec() == secs,
            final(self).poll_spec() == old(self).poll_spec(),
            final(self).running_spec() == old(self).running_spec(),
            final(self).tick_spec() == old(self).tick_spec(),
    {
        self.duration = secs;
    }

    /// The poll that is set up.
    pub fn poll(&self) -> (r: Option<&TwitchPoll>)
        ensures
            match r {
                Some(p) => self.poll_spec() == Some(*p),
                None => self.poll_spec() is None,
            },
    {
        match &self.poll {
            Some(p) => Some(p),
            None => None,
        }
    }

    /// `!poll "a" "b" ...` at `target` (the owner only; `!poll start` and `!poll stop`
    /// are left to their commands): stops a running poll, sets up the new one and asks
    /// whether it is right.
    pub fn poll_command(&mut self, is_owner: bool, data: &str, target: &str) -> (r: Vec<String>)
        requires
            old(self).wf(),
            is_owner && encode_utf8(data@).len() >= 4 ==> is_char_boundary(encode_utf8(data@), 4),
            is_owner && encode_utf8(data@).len() >= 5 && !is_prefix("stop"@, data@)
                ==> is_char_boundary(encode_utf8(data@), 5),
        ensures
            final(self).wf(),
            final(self).duration_spec() == old(self).duration_spec(),
            final(self).tick_spec() == old(self).tick_spec(),
            if !is_owner || is_prefix("stop"@, data@) || is_prefix("start"@, data@) {
                r@.len() == 0 && *final(self) == *old(self)
            } else {
                let opts = options_spec(data@);
                let head: Seq<Seq<char>> = if old(self).running_spec() {
                    seq!["poll is already running, stopping it"@, "is this poll right?"@]
                } else {
                    seq!["is this poll right?"@]
                };
                &&& string_views(r@) == head + Seq::new(opts.len(), |i: int| option_line(i, opts[i]))
                &&& !final(self).running_spec()
                &&& final(self).poll_spec() matches Some(p) && p.target_text() == target@
                    && p.voters().len() == 0 && p.options_spec().len() == opts.len()
                    && forall|k: int|
                    0 <= k < opts.len() ==> (#[trigger] p.options_spec()[k]).option@ == opts[k]
                        && p.options_spec()[k].position == k && p.options_spec()[k].count == 0
            },
    {
        let mut out: Vec<String> = Vec::new();
        if !is_owner {
            return out;
        }
        if starts_with(data, "stop") || starts_with(data, "start") {
            return out;
        }
        if self.running {
            out.push(String::from_str("poll is already running, stopping it"));
            self.running = false;
        }
        let options = collect_options(data);
        out.push(String::from_str("is this poll right?"));
        let ghost head = string_views(out@);
        let mut i: usize = 0;
        while i < options.len()
            invariant
                i <= options@.len(),
                string_views(options@) == options_spec(data@),
                string_views(out@) == head + Seq::new(
                    i as nat,
                    |k: int| option_line(k, options@[k]@),
                ),
            decreases options@.len() - i,
        {
            let mut line = String::from_str("#");
            let place = decimal_chars((i + 1) as u64);
            push_chars(&mut line, &place);
            line.append(": ");
            line.append(options[i].as_str());
            let ghost before = out@;
            out.push(line);
            assert(string_views(out@) =~= head + Seq::new(
                (i + 1) as nat,
                |k: int| option_line(k, options@[k]@),
            )) by {
                assert(string_views(out@) =~= string_views(before).push(line@));
            }
            i += 1;
        }
        proof {
            let opts = options_spec(data@);
            assert forall|k: int| 0 <= k < opts.len() implies options@[k]@ == opts[k] by {
                assert(string_views(options@)[k] == options@[k]@);
            }
            assert(Seq::new(i as nat, |k: int| option_line(k, options@[k]@)) =~= Seq::new(
                opts.len(),
                |k: int| option_line(k, opts[k]),
            ));
        }
        self.poll = Some(TwitchPoll::new(target, options.as_slice()));
        out
    }

    /// `!poll start n` (the owner only) at `now`: starts the poll that is set up, for `n`
    /// seconds (`#` allowed before it), or for as long as the last one when there is no
    /// number.
    pub fn start_command(&mut self, is_owner: bool, data: &str, now: u64) -> (r: Vec<String>)
        requires
            old(self).wf(),
        ensures
            final(self).wf(),
            final(self).poll_spec() == old(self).poll_spec(),
            if !is_owner {
                r@.len() == 0 && *final(self) == *old(self)
            } else if old(self).running_spec() {
                string_views(r@) == seq!["poll is already running"@] && *final(self) == *old(self)
            } else if old(self).poll_spec() is None {
                string_views(r@) == seq!["no poll set up"@] && *final(self) == *old(self)
            } else {
                let d: nat = match start_number(data@) {
                    Some(n) => n,
                    None => old(self).duration_spec() as nat,
                };
                &&& final(self).running_spec()
                &&& final(self).duration_spec() == d
                &&& final(self).tick_spec() == now
                &&& string_views(r@) == seq![
                    "starting poll for the next "@ + decimal(d)
                        + " seconds. use '!vote n' to vote for that option"@,
                ]
            },
    {
        let mut out: Vec<String> = Vec::new();
        if !is_owner {
            return out;
        }
        if self.running {
            out.push(String::from_str("poll is already running"));
            assert(string_views(out@) =~= seq!["poll is already running"@]);
            return out;
        }
        if self.poll.is_none() {
            out.push(String::from_str("no poll set up"));
            assert(string_views(out@) =~= seq!["no poll set up"@]);
            return out;
        }
        let n = match crate::twitchpoll::parse_leading(data, true) {
            Some(n) => n,
            None => self.duration,
        };
        self.duration = n;
        let mut line = String::from_str("starting poll for the next ");
        let digits = decimal_chars(n as u64);
        push_chars(&mut line, &digits);
        line.append(" seconds. use '!vote n' to vote for that option");
        out.push(line);
        assert(string_views(out@) =~= seq![line@]);
        self.tick = now;
        self.running = true;
        out
    }

    /// `!poll stop` (the owner only): stops the running poll, keeping it set up.
    pub fn stop_command(&mut self, is_owner: bool) -> (r: Vec<String>)
        requires
            old(self).wf(),
        ensures
            final(self).wf(),
            final(self).poll_spec() == old(self).poll_spec(),
            final(self).duration_spec() == old(self).duration_spec(),
            final(self).tick_spec() == old(self).tick_spec(),
            if !is_owner {
                r@.len() == 0 && *final(self) == *old(self)
            } else if !old(self).running_spec() {
                string_views(r@) == seq!["poll isn't running"@] && *final(self) == *old(self)
            } else {
                string_views(r@) == seq!["stopped the poll"@] && !final(self).running_spec()
            },
    {
        let mut out: Vec<String> = Vec::new();
        if !is_owner {
            return out;
        }
        if !self.running {
            out.push(String::from_str("poll isn't running"));
            assert(string_views(out@) =~= seq!["poll isn't running"@]);
            return out;
        }
        self.running = false;
        out.push(String::from_str("stopped the poll"));
        assert(string_views(out@) =~= seq!["stopped the poll"@]);
        out
    }

    /// `!vote n` from `who` (`None` without a user id): a vote for option `n` (from one,
    /// `#` allowed before it) in the running poll.
    pub fn vote_command(&mut self, who: Option<&str>, data: &str)
        requires
            old(self).wf(),
        ensures
            final(self).wf(),
            final(self).running_spec() == old(self).running_spec(),
            final(self).duration_spec() == old(self).duration_spec(),
            final(self).tick_spec() == old(self).tick_spec(),
            ({
                let n = match crate::invest::arg_at(data@, 0) {
                    Some(w) => start_number(w),
                    None => None,
                };
                if !old(self).running_spec() || who is None || old(self).poll_spec() is None
                    || n is None || n == Some(0nat) {
                    *final(self) == *old(self)
                } else {
                    final(self).poll_spec() matches Some(p) && {
                        let q = old(self).poll_spec()->0;
                        let option = (n->0 - 1) as usize;
                        &&& p.target_text() == q.target_text()
                        &&& if !q.voters().contains(who->0@) && option < q.options_spec().len() {
                            p.voters() == q.voters().push(who->0@) && p.options_spec()
                                == q.options_spec().update(
                                option as int,
                                Choice {
                                    count: (q.options_spec()[option as int].count + 1) as usize,
                                    ..q.options_spec()[option as int]
                                },
                            )
                        } else {
                            p.voters() == q.voters() && p.options_spec() == q.options_spec()
                        }
                    }
                }
            }),
    {
        if !self.running {
            return;
        }
        let w = match who {
            Some(w) => w,
            None => return,
        };
        let parts = split_whitespace(data);
        if parts.len() == 0 {
            return;
        }
        assert(parts@[0]@ == words(data@)[0]);
        let n = match crate::twitchpoll::parse_leading(parts[0], true) {
            Some(n) => n,
            None => return,
        };
        if n == 0 {
            return;
        }
        let mut taken: Option<TwitchPoll> = None;
        std::mem::swap(&mut taken, &mut self.poll);
        match taken {
            Some(mut p) => {
                p.vote(w, n - 1);
                self.poll = Some(p);
            },
            None => {},
        }
    }

    /// A tick at `now`: once the running poll has run its seconds, it stops, is sorted by
    /// votes, and the three options with the most votes are said where it was set up.
    pub fn tick(&mut self, now: u64) -> (r: Option<(String, Vec<String>)>)
        requires
            old(self).wf(),
        ensures
            final(self).wf(),
            final(self).duration_spec() == old(self).duration_spec(),
            final(self).tick_spec() == old(self).tick_spec(),
            if !old(self).running_spec() || (if now < old(self).tick_spec() {
                0
            } else {
                now - old(self).tick_spec()
            }) < old(self).duration_spec() * 1000 {
                r is None && *final(self) == *old(self)
            } else {
                &&& !final(self).running_spec()
                &&& match old(self).poll_spec() {
                    None => r is None && final(self).poll_spec() is None,
                    Some(p) => {
                        let sorted = sort_desc_by(p.options_spec(), by_count());
                        let n = if sorted.len() < 3 {
                            sorted.len() as int
                        } else {
                            3
                        };
                        &&& final(self).poll_spec() matches Some(q) && q.options_spec() == sorted
                            && q.voters() == p.voters() && q.target_text() == p.target_text()
                        &&& r matches Some((t, lines)) && t@ == p.target_text()
                            && string_views(lines@) == Seq::new(
                            n as nat,
                            |k: int| result_line(sorted[k]),
                        )
                    },
                }
            },
    {
        if !self.running {
            return None;
        }
        let elapsed: u64 = if now < self.tick {
            0
        } else {
            now - self.tick
        };
        if elapsed / 1000 < self.duration as u64 {
            return None;
        }
        self.running = false;
        let mut taken: Option<TwitchPoll> = None;
        std::mem::swap(&mut taken, &mut self.poll);
        let mut p = match taken {
            Some(p) => p,
            None => return None,
        };
        let target = p.target.clone();
        let len = p.options.len();
        let ghost opts = p.options@;
        p.tally();
        proof {
            lemma_sort_desc_by(opts, by_count());
        }
        let n = if len < 3 {
            len
        } else {
            3
        };
        let mut lines: Vec<String> = Vec::new();
        let mut i: usize = 0;
        while i < n
            invariant
                n <= len,
                len == p.options@.len(),
                i <= n,
                p.wf(),
                string_views(lines@) == Seq::new(i as nat, |k: int| result_line(p.options@[k])),
            decreases n - i,
        {
            let c = &p.options[i];
            assert(p.options_spec()[i as int].position < p.options_spec().len());
            let mut line = String::from_str("(");
            let count = decimal_chars(c.count as u64);
            push_chars(&mut line, &count);
            line.append(" votes) #");
            let place = decimal_chars((c.position + 1) as u64);
            push_chars(&mut line, &place);
            line.append(" ");
            line.append(c.option.as_str());
            let ghost before = lines@;
            lines.push(line);
            assert(string_views(lines@) =~= Seq::new(
                (i + 1) as nat,
                |k: int| result_line(p.options@[k]),
            )) by {
                assert(string_views(lines@) =~= string_views(before).push(line@));
            }
            i += 1;
        }
        self.poll = Some(p);
        Some((target, lines))
    }
}
} // verus!
