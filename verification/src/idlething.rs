//! The idle game: viewers earn credits for being in the channel and for chatting, and
//! can invest them (a coin flip), give them away and see the leaders. Loading and
//! saving the credits, asking Twitch who is watching, and rolling the coin are the
//! caller's part.

use crate::sort::{
    is_desc_by, lemma_insert_pos_by, lemma_insert_pos_by_bounds, lemma_sort_desc_by,
    sort_desc_by,
};
use crate::text::{
    chars_of, decimal, decimal_chars, digits_from, parse_unsigned, parse_usize_chars,
    split_whitespace, str_eq, take_digits, trim, trim_spec, views, words,
};
use crate::util::{commas, push_chars, push_commas};
use vstd::hash_map::StringHashMap;
use vstd::string::StringSliceAdditionalSpecFns;
use vstd::prelude::*;

verus! {

broadcast use vstd::hash_map::axiom_string_hash_map_spec_len;

/// An amount of credits.
pub type Credit = usize;

/// Why an investment was refused.
#[derive(Debug, PartialEq, Eq, Clone, Copy)]
pub enum IdleThingError {
    NotEnoughCredits { have: Credit, want: Credit },
}

/// How an investment went, with the credits before and after.
#[derive(Debug, PartialEq, Eq, Clone, Copy)]
pub enum Donation {
    Success { old: Credit, new: Credit },
    Failure { old: Credit, new: Credit },
}

/// The credits of every name the game has seen, with the names in the order they came,
/// and what a newcomer starts with, a line of chat earns, and a tick of being around
/// earns.
pub struct IdleThingState {
    state: StringHashMap<Credit>,
    names: Vec<String>,
    starting: Credit,
    line_value: Credit,
    idle_value: Credit,
}

/// The views of strings.
pub open spec fn string_views(v: Seq<String>) -> Seq<Seq<char>> {
    v.map_values(|s: String| s@)
}

/// `credits` after `name` was given `c`: added to what it has, or `c` for a new name.
pub open spec fn credited(credits: Map<Seq<char>, Credit>, name: Seq<char>, c: Credit) -> Map<
    Seq<char>,
    Credit,
> {
    let n = if credits.contains_key(name) {
        (credits[name] + c) as Credit
    } else {
        c
    };
    credits.insert(name, n)
}

/// `credits` after `c` was taken from `name`: subtracted from what it has, or set to `c`
/// for a new name.
pub open spec fn debited(credits: Map<Seq<char>, Credit>, name: Seq<char>, c: Credit) -> Map<
    Seq<char>,
    Credit,
> {
    let n = if credits.contains_key(name) {
        (credits[name] - c) as Credit
    } else {
        c
    };
    credits.insert(name, n)
}

/// `credits` after a tick over `names`: each name it has gets `idle` more, each name it
/// lacks starts at `starting`, in the order of `names`.
pub open spec fn tick_spec(
    credits: Map<Seq<char>, Credit>,
    names: Seq<Seq<char>>,
    idle: Credit,
    starting: Credit,
) -> Map<Seq<char>, Credit>
    decreases names.len(),
{
    if names.len() == 0 {
        credits
    } else {
        let m = tick_spec(credits, names.drop_last(), idle, starting);
        let n = names.last();
        if m.contains_key(n) {
            m.insert(n, (m[n] + idle) as Credit)
        } else {
            m.insert(n, starting)
        }
    }
}

/// No credits overflow during a tick over `names`.
pub open spec fn tick_fits(
    credits: Map<Seq<char>, Credit>,
    names: Seq<Seq<char>>,
    idle: Credit,
    starting: Credit,
) -> bool
    decreases names.len(),
{
    names.len() == 0 || ({
        let m = tick_spec(credits, names.drop_last(), idle, starting);
        let n = names.last();
        &&& tick_fits(credits, names.drop_last(), idle, starting)
        &&& m.contains_key(n) ==> m[n] + idle <= usize::MAX
    })
}

proof fn lemma_tick_fits_prefix(
    credits: Map<Seq<char>, Credit>,
    names: Seq<Seq<char>>,
    idle: Credit,
    starting: Credit,
    i: int,
)
    requires
        0 <= i <= names.len(),
        tick_fits(credits, names, idle, starting),
    ensures
        tick_fits(credits, names.subrange(0, i), idle, starting),
    decreases names.len() - i,
{
    if i < names.len() {
        assert(names.drop_last().subrange(0, i) =~= names.subrange(0, i));
        lemma_tick_fits_prefix(credits, names.drop_last(), idle, starting, i);
    } else {
        assert(names.subrange(0, i) =~= names);
    }
}

/// The entries of the credits in the order of `names`.
pub open spec fn entries(names: Seq<Seq<char>>, credits: Map<Seq<char>, Credit>) -> Seq<
    (Seq<char>, Credit),
> {
    names.map_values(|n: Seq<char>| (n, credits[n]))
}

/// Orders entries by credits.
pub open spec fn by_credits() -> spec_fn((Seq<char>, Credit)) -> int {
    |e: (Seq<char>, Credit)| e.1 as int
}

/// The text of the entries of a ranking.
pub open spec fn entry_views(v: Seq<(&str, Credit)>) -> Seq<(Seq<char>, Credit)> {
    v.map_values(|e: (&str, Credit)| (e.0@, e.1))
}

impl IdleThingState {
    /// The credits by name.
    pub closed spec fn credits(&self) -> Map<Seq<char>, Credit> {
        self.state@
    }

    /// The names in the order they came.
    pub closed spec fn order(&self) -> Seq<Seq<char>> {
        string_views(self.names@)
    }

    /// What a newcomer starts with.
    pub closed spec fn starting_spec(&self) -> Credit {
        self.starting
    }

    /// What a line of chat earns.
    pub closed spec fn line_value_spec(&self) -> Credit {
        self.line_value
    }

    /// What a tick of being around earns.
    pub closed spec fn idle_value_spec(&self) -> Credit {
        self.idle_value
    }

    /// The names are those that have credits, each once.
    pub open spec fn wf(&self) -> bool {
        &&& self.order().no_duplicates()
        &&& forall|k: int|
            0 <= k < self.order().len() ==> self.credits().contains_key(#[trigger] self.order()[k])
        &&& forall|n: Seq<char>| #[trigger] self.credits().contains_key(n) ==> self.order().contains(n)
    }

    /// No credits yet; a newcomer starts with `starting`, a line earns `line_value` and a
    /// tick `idle_value`.
    pub fn new(starting: Credit, line_value: Credit, idle_value: Credit) -> (r: Self)
        ensures
            r.wf(),
            r.credits() == Map::<Seq<char>, Credit>::empty(),
            r.order() == Seq::<Seq<char>>::empty(),
            r.starting_spec() == starting,
            r.line_value_spec() == line_value,
            r.idle_value_spec() == idle_value,
    {
        let r = IdleThingState {
            state: StringHashMap::new(),
            names: Vec::new(),
            starting,
            line_value,
            idle_value,
        };
        assert(r.order() =~= Seq::<Seq<char>>::empty());
        r
    }

    /// Sets the credits of `name`.
    fn put(&mut self, name: &str, value: Credit)
        requires
            old(self).wf(),
        ensures
            final(self).wf(),
            final(self).credits() == old(self).credits().insert(name@, value),
            final(self).order() == (if old(self).credits().contains_key(name@) {
                old(self).order()
            } else {
                old(self).order().push(name@)
            }),
            final(self).starting_spec() == old(self).starting_spec(),
            final(self).line_value_spec() == old(self).line_value_spec(),
            final(self).idle_value_spec() == old(self).idle_value_spec(),
    {
        if !self.state.contains_key(name) {
            let ghost before = self.names@;
            self.names.push(String::from_str(name));
            assert(string_views(self.names@) =~= string_views(before).push(name@));
        }
        self.state.insert(String::from_str(name), value);
        proof {
            let o = self.order();
            let c = self.credits();
            assert forall|n: Seq<char>| #[trigger] c.contains_key(n) implies o.contains(n) by {
                if n != name@ {
                    assert(old(self).credits().contains_key(n));
                    assert(old(self).order().contains(n));
                    let k = choose|k: int| 0 <= k < old(self).order().len() && old(self).order()[k] == n;
                    assert(o[k] == n);
                } else {
                    if old(self).credits().contains_key(name@) {
                        assert(old(self).order().contains(name@));
                        let k = choose|k: int| 0 <= k < old(self).order().len() && old(self).order()[k] == n;
                        assert(o[k] == n);
                    } else {
                        assert(o[o.len() - 1] == n);
                    }
                }
            }
            if !old(self).credits().contains_key(name@) {
                assert forall|i: int, j: int| 0 <= i < j < o.len() implies o[i] != o[j] by {
                    if j == o.len() - 1 {
                        assert(old(self).credits().contains_key(old(self).order()[i]));
                    }
                }
            }
        }
    }

    /// A tick over the names in the channel: each one seen before earns the idle value,
    /// each new one starts at the starting value.
    pub fn tick(&mut self, names: &[&str])
        requires
            old(self).wf(),
            tick_fits(old(self).credits(), views(names@), old(self).idle_value_spec(), old(self).starting_spec()),
        ensures
            final(self).wf(),
            final(self).credits() == tick_spec(
                old(self).credits(),
                views(names@),
                old(self).idle_value_spec(),
                old(self).starting_spec(),
            ),
            final(self).starting_spec() == old(self).starting_spec(),
            final(self).line_value_spec() == old(self).line_value_spec(),
            final(self).idle_value_spec() == old(self).idle_value_spec(),
    {
        let ghost all = views(names@);
        let ghost start = self.credits();
        let idle = self.idle_value;
        let starting = self.starting;
        let mut i: usize = 0;
        assert(all.subrange(0, 0) =~= Seq::<Seq<char>>::empty());
        while i < names.len()
            invariant
                i <= names@.len(),
                all == views(names@),
                self.wf(),
                idle == self.idle_value_spec(),
                starting == self.starting_spec(),
                self.idle_value_spec() == old(self).idle_value_spec(),
                self.starting_spec() == old(self).starting_spec(),
                self.line_value_spec() == old(self).line_value_spec(),
                start == old(self).credits(),
                tick_fits(start, all, idle, starting),
                self.credits() == tick_spec(start, all.subrange(0, i as int), idle, starting),
            decreases names@.len() - i,
        {
            let name = names[i];
            let ghost sub = all.subrange(0, i + 1);
            assert(sub.drop_last() =~= all.subrange(0, i as int));
            assert(sub.last() == name@);
            proof {
                lemma_tick_fits_prefix(start, all, idle, starting, i + 1);
            }
            match self.state.get(name) {
                Some(v) => {
                    let n = *v + idle;
                    self.put(name, n);
                },
                None => {
                    self.put(name, starting);
                },
            }
            i += 1;
        }
        assert(all.subrange(0, i as int) =~= all);
    }

    /// Gives `name` `credits` (a new name starts with them); gives its new credits.
    pub fn give(&mut self, name: &str, credits: Credit) -> (r: Credit)
        requires
            old(self).wf(),
            old(self).credits().contains_key(name@) ==> old(self).credits()[name@] + credits
                <= usize::MAX,
        ensures
            final(self).wf(),
            final(self).credits() == credited(old(self).credits(), name@, credits),
            r == final(self).credits()[name@],
            final(self).starting_spec() == old(self).starting_spec(),
            final(self).line_value_spec() == old(self).line_value_spec(),
            final(self).idle_value_spec() == old(self).idle_value_spec(),
    {
        let n = match self.state.get(name) {
            Some(v) => *v + credits,
            None => credits,
        };
        self.put(name, n);
        n
    }

    /// Takes `credits` from `name`; a name it has never seen is set to `credits`
    /// instead. Gives its new credits.
    pub fn take(&mut self, name: &str, credits: Credit) -> (r: Credit)
        requires
            old(self).wf(),
            old(self).credits().contains_key(name@) ==> credits <= old(self).credits()[name@],
        ensures
            final(self).wf(),
            final(self).credits() == debited(old(self).credits(), name@, credits),
            r == final(self).credits()[name@],
            final(self).starting_spec() == old(self).starting_spec(),
            final(self).line_value_spec() == old(self).line_value_spec(),
            final(self).idle_value_spec() == old(self).idle_value_spec(),
    {
        let n = match self.state.get(name) {
            Some(v) => *v - credits,
            None => credits,
        };
        self.put(name, n);
        n
    }

    /// Gives `name` one line's worth of credits; gives its new credits.
    pub fn increment(&mut self, name: &str) -> (r: Credit)
        requires
            old(self).wf(),
            old(self).credits().contains_key(name@) ==> old(self).credits()[name@]
                + old(self).line_value_spec() <= usize::MAX,
        ensures
            final(self).wf(),
            r == (if old(self).credits().contains_key(name@) {
                old(self).credits()[name@] + old(self).line_value_spec()
            } else {
                old(self).line_value_spec() as int
            }),
            final(self).credits() == old(self).credits().insert(name@, r),
            final(self).starting_spec() == old(self).starting_spec(),
            final(self).line_value_spec() == old(self).line_value_spec(),
            final(self).idle_value_spec() == old(self).idle_value_spec(),
    {
        let line_value = self.line_value;
        self.give(name, line_value)
    }

    /// Sets `name` to the starting value, seen before or not.
    pub fn insert(&mut self, name: &str)
        requires
            old(self).wf(),
        ensures
            final(self).wf(),
            final(self).credits() == old(self).credits().insert(name@, old(self).starting_spec()),
            final(self).starting_spec() == old(self).starting_spec(),
            final(self).line_value_spec() == old(self).line_value_spec(),
            final(self).idle_value_spec() == old(self).idle_value_spec(),
    {
        let starting = self.starting;
        self.put(name, starting);
    }

    /// A won investment of `want` by `name`, who had `have`: `name` gets `want` more.
    pub fn invest_success(&mut self, name: &str, have: Credit, want: Credit) -> (r: Result<
        Donation,
        IdleThingError,
    >)
        requires
            old(self).wf(),
            old(self).credits().contains_key(name@),
            old(self).credits()[name@] + want <= usize::MAX,
        ensures
            final(self).wf(),
            final(self).credits() == old(self).credits().insert(
                name@,
                (old(self).credits()[name@] + want) as Credit,
            ),
            r == Ok::<Donation, IdleThingError>(
                Donation::Success { old: have, new: (old(self).credits()[name@] + want) as Credit },
            ),
            final(self).starting_spec() == old(self).starting_spec(),
            final(self).line_value_spec() == old(self).line_value_spec(),
            final(self).idle_value_spec() == old(self).idle_value_spec(),
    {
        let v = match self.state.get(name) {
            Some(v) => *v,
            None => 0,
        };
        let amount = v + want;
        self.put(name, amount);
        Ok(Donation::Success { old: have, new: amount })
    }

    /// A lost investment of `want` by `name`, who had `have`: `name` loses `want`, down
    /// to zero at most.
    pub fn invest_failure(&mut self, name: &str, have: Credit, want: Credit) -> (r: Result<
        Donation,
        IdleThingError,
    >)
        requires
            old(self).wf(),
            old(self).credits().contains_key(name@),
        ensures
            final(self).wf(),
            ({
                let v = old(self).credits()[name@];
                let n: Credit = if want > v {
                    0
                } else {
                    (v - want) as Credit
                };
                &&& final(self).credits() == old(self).credits().insert(name@, n)
                &&& r == Ok::<Donation, IdleThingError>(Donation::Failure { old: have, new: n })
            }),
            final(self).starting_spec() == old(self).starting_spec(),
            final(self).line_value_spec() == old(self).line_value_spec(),
            final(self).idle_value_spec() == old(self).idle_value_spec(),
    {
        let v = match self.state.get(name) {
            Some(v) => *v,
            None => 0,
        };
        let amount = if want > v {
            0
        } else {
            v - want
        };
        self.put(name, amount);
        Ok(Donation::Failure { old: have, new: amount })
    }

    /// An investment of `want` by `name`, who has `have`: refused when they have nothing
    /// or less than `want`; otherwise lost when the coin flip `fails`, won when not.
    pub fn try_donation(&mut self, name: &str, have: Credit, want: Credit, fails: bool) -> (r:
        Result<Donation, IdleThingError>)
        requires
            old(self).wf(),
            have != 0 && want <= have ==> old(self).credits().contains_key(name@),
            have != 0 && want <= have && !fails ==> old(self).credits()[name@] + want
                <= usize::MAX,
        ensures
            final(self).wf(),
            have == 0 || want > have ==> r == Err::<Donation, IdleThingError>(
                IdleThingError::NotEnoughCredits { have, want },
            ) && final(self).credits() == old(self).credits(),
            have != 0 && want <= have && fails ==> r is Ok && r->Ok_0 is Failure,
            have != 0 && want <= have && !fails ==> r is Ok && r->Ok_0 is Success,
            have != 0 && want <= have ==> {
                let v = old(self).credits()[name@];
                let n: Credit = if fails {
                    if want > v {
                        0
                    } else {
                        (v - want) as Credit
                    }
                } else {
                    (v + want) as Credit
                };
                &&& final(self).credits() == old(self).credits().insert(name@, n)
                &&& r == Ok::<Donation, IdleThingError>(
                    if fails {
                        Donation::Failure { old: have, new: n }
                    } else {
                        Donation::Success { old: have, new: n }
                    },
                )
            },
            final(self).starting_spec() == old(self).starting_spec(),
            final(self).line_value_spec() == old(self).line_value_spec(),
            final(self).idle_value_spec() == old(self).idle_value_spec(),
    {
        if have == 0 || want > have {
            return Err(IdleThingError::NotEnoughCredits { have, want });
        }
        if fails {
            self.invest_failure(name, have, want)
        } else {
            self.invest_success(name, have, want)
        }
    }

    /// The credits of `name`, when it has any.
    pub fn get_credits_for(&self, name: &str) -> (r: Option<Credit>)
        ensures
            r == (if self.credits().contains_key(name@) && self.credits()[name@] != 0 {
                Some(self.credits()[name@])
            } else {
                None
            }),
    {
        match self.state.get(name) {
            Some(c) => if *c == 0 {
                None
            } else {
                Some(*c)
            },
            None => None,
        }
    }

    /// An investment of `want` by `name`, with the coin flip `fails`: refused with what
    /// they have (nothing for a name without credits) when that is less than `want`.
    pub fn invest(&mut self, name: &str, want: Credit, fails: bool) -> (r: Result<
        Donation,
        IdleThingError,
    >)
        requires
            old(self).wf(),
            old(self).credits().contains_key(name@) && want <= old(self).credits()[name@]
                && !fails ==> old(self).credits()[name@] + want <= usize::MAX,
        ensures
            final(self).wf(),
            ({
                let have: Credit = if old(self).credits().contains_key(name@) {
                    old(self).credits()[name@]
                } else {
                    0
                };
                if have == 0 || want > have {
                    r == Err::<Donation, IdleThingError>(
                        IdleThingError::NotEnoughCredits { have, want },
                    ) && final(self).credits() == old(self).credits()
                } else {
                    let n: Credit = if fails {
                        (have - want) as Credit
                    } else {
                        (have + want) as Credit
                    };
                    &&& final(self).credits() == old(self).credits().insert(name@, n)
                    &&& r == Ok::<Donation, IdleThingError>(
                        if fails {
                            Donation::Failure { old: have, new: n }
                        } else {
                            Donation::Success { old: have, new: n }
                        },
                    )
                }
            }),
            final(self).starting_spec() == old(self).starting_spec(),
            final(self).line_value_spec() == old(self).line_value_spec(),
            final(self).idle_value_spec() == old(self).idle_value_spec(),
    {
        match self.get_credits_for(name) {
            Some(have) => self.try_donation(name, have, want, fails),
            None => Err(IdleThingError::NotEnoughCredits { have: 0, want }),
        }
    }

    /// Every name with its credits, most first (names with equal credits in the order
    /// they came).
    pub fn to_sorted<'a>(&'a self) -> (r: Vec<(&'a str, Credit)>)
        requires
            self.wf(),
        ensures
            entry_views(r@) == sort_desc_by(entries(self.order(), self.credits()), by_credits()),
    {
        let ghost all = entries(self.order(), self.credits());
        let mut sorted: Vec<(&'a str, Credit)> = Vec::new();
        let mut i: usize = 0;
        assert(all.subrange(0, 0) =~= Seq::<(Seq<char>, Credit)>::empty());
        while i < self.names.len()
            invariant
                i <= self.names@.len(),
                self.wf(),
                all == entries(self.order(), self.credits()),
                entry_views(sorted@) == sort_desc_by(all.subrange(0, i as int), by_credits()),
            decreases self.names@.len() - i,
        {
            let name = self.names[i].as_str();
            assert(self.order()[i as int] == name@);
            let c = match self.state.get(name) {
                Some(v) => *v,
                None => 0,
            };
            assert(self.credits().contains_key(name@));
            let ghost x = (name@, c);
            assert(all[i as int] == x);
            let mut p: usize = 0;
            while p < sorted.len() && sorted[p].1 >= c
                invariant
                    p <= sorted@.len(),
                    forall|k: int| 0 <= k < p ==> #[trigger] sorted@[k].1 >= c,
                decreases sorted@.len() - p,
            {
                p += 1;
            }
            proof {
                let ev = entry_views(sorted@);
                assert forall|k: int| 0 <= k < p implies by_credits()(#[trigger] ev[k]) >= c by {
                    assert(ev[k].1 == sorted@[k].1);
                }
                if p < sorted@.len() {
                    assert(ev[p as int].1 == sorted@[p as int].1);
                }
                lemma_insert_pos_by(ev, by_credits(), c as int, p as int);
                let sub = all.subrange(0, i + 1);
                assert(sub.drop_last() =~= all.subrange(0, i as int));
                assert(sub.last() == x);
            }
            let ghost before = sorted@;
            sorted.insert(p, (name, c));
            assert(entry_views(sorted@) =~= entry_views(before).insert(p as int, x));
            i += 1;
        }
        assert(all.subrange(0, i as int) =~= all);
        sorted
    }
}


impl Default for IdleThingState {
    /// No credits; a newcomer starts with nothing, a line earns five and a tick one.
    fn default() -> (r: Self)
        ensures
            r.wf(),
            r.credits() == Map::<Seq<char>, Credit>::empty(),
            r.starting_spec() == 0,
            r.line_value_spec() == 5,
            r.idle_value_spec() == 1,
    {
        IdleThingState::new(0, 5, 1)
    }
}

/// How long a finished investment keeps a user from investing again, in milliseconds.
pub const LIMIT_MS: u64 = 60000;

/// The idle game's commands: the credits, and when each user last invested
/// (milliseconds on the caller's clock).
pub struct IdleThing {
    state: IdleThingState,
    limit: StringHashMap<u64>,
}

/// The reply `text` to the sender.
pub open spec fn is_reply(r: Option<crate::response::Response>, text: Seq<char>) -> bool {
    r matches Some(x) && crate::response::is_text(x, true, text)
}

fn reply(text: String) -> (r: Option<crate::response::Response>)
    ensures
        is_reply(r, text@),
{
    Some(crate::response::Response::Reply { data: text })
}

fn reply_str(text: &str) -> (r: Option<crate::response::Response>)
    ensures
        is_reply(r, text@),
{
    Some(crate::response::Response::Reply { data: String::from_str(text) })
}

/// The number that the digits `data` starts with make, as `str::parse::<usize>` reads
/// them.
pub open spec fn number_spec(data: Seq<char>) -> Option<nat> {
    parse_unsigned(take_digits(data), usize::MAX as nat)
}

/// The first word of `data` in bytes, and where the text after it starts: the bytes of
/// `data` from the length of that word on (the game cuts there, whatever comes before
/// the word).
pub open spec fn rest_after_first(data: Seq<char>) -> Seq<char> {
    let n = vstd::utf8::encode_utf8(words(data)[0]).len();
    vstd::utf8::decode_utf8(vstd::utf8::encode_utf8(data).subrange(n as int, vstd::utf8::encode_utf8(data).len() as int))
}

/// The cut after the first word falls between two characters.
pub open spec fn rest_ok(data: Seq<char>) -> bool {
    words(data).len() > 0 ==> vstd::utf8::is_char_boundary(
        vstd::utf8::encode_utf8(data),
        vstd::utf8::encode_utf8(words(data)[0]).len() as int,
    )
}

/// The entries of the ranking, as `(#n) name: credits, ` each.
pub open spec fn top_raw(list: Seq<(Seq<char>, Credit)>) -> Seq<char>
    decreases list.len(),
{
    if list.len() == 0 {
        seq![]
    } else {
        top_raw(list.drop_last()) + "(#"@ + decimal(list.len()) + ") "@ + list.last().0 + ": "@
            + decimal(list.last().1 as nat) + ", "@
    }
}

/// The ranking as the game writes it: the entries, trimmed, without the last comma.
pub open spec fn top_text(list: Seq<(Seq<char>, Credit)>) -> Seq<char> {
    let t = crate::text::trim_spec(top_raw(list));
    if t.len() > 0 && t.last() == ',' {
        t.drop_last()
    } else {
        t
    }
}

/// The name a user invested last, and whether that was less than a minute before `now`.
pub open spec fn limited(limits: Map<Seq<char>, u64>, who: Seq<char>, now: u64) -> bool {
    limits.contains_key(who) && (if now < limits[who] {
        0
    } else {
        now - limits[who]
    }) < LIMIT_MS
}

impl IdleThing {
    /// When each user last invested.
    pub closed spec fn limits(&self) -> Map<Seq<char>, u64> {
        self.limit@
    }

    /// The credits.
    pub closed spec fn game(&self) -> IdleThingState {
        self.state
    }

    /// The credits.
    pub fn state(&self) -> (r: &IdleThingState)
        ensures
            *r == self.game(),
    {
        &self.state
    }

    /// A tick over the ids of the users in the channel.
    pub fn tick(&mut self, ids: &[&str])
        requires
            old(self).game().wf(),
            tick_fits(
                old(self).game().credits(),
                views(ids@),
                old(self).game().idle_value_spec(),
                old(self).game().starting_spec(),
            ),
        ensures
            final(self).game().wf(),
            final(self).game().credits() == tick_spec(
                old(self).game().credits(),
                views(ids@),
                old(self).game().idle_value_spec(),
                old(self).game().starting_spec(),
            ),
            final(self).limits() == old(self).limits(),
    {
        self.state.tick(ids);
    }

    /// The game with `state`, nobody limited.
    pub fn new(state: IdleThingState) -> (r: Self)
        ensures
            r.game() == state,
            r.limits() == Map::<Seq<char>, u64>::empty(),
    {
        IdleThing { state, limit: StringHashMap::new() }
    }

    /// The number that `data` starts with.
    pub fn parse_number(data: &str) -> (r: Option<usize>)
        ensures
            r == (match number_spec(data@) {
                Some(n) => Some(n as usize),
                None => None,
            }),
    {
        let v = chars_of(data);
        assert(v@.subrange(0, v@.len() as int) =~= v@);
        let d = digits_from(&v, 0);
        parse_usize_chars(&d)
    }

    /// Whether `who` invested less than a minute before `now`.
    pub fn check_limit(&self, who: &str, now: u64) -> (r: bool)
        ensures
            r == limited(self.limits(), who@, now),
    {
        match self.limit.get(who) {
            Some(t) => {
                let elapsed: u64 = if now < *t {
                    0
                } else {
                    now - *t
                };
                elapsed < LIMIT_MS
            },
            None => false,
        }
    }

    /// `who` invested at `now`.
    pub fn rate_limit(&mut self, who: &str, now: u64)
        ensures
            final(self).limits() == old(self).limits().insert(who@, now),
            final(self).game() == old(self).game(),
    {
        self.limit.insert(String::from_str(who), now);
    }

    /// `!invest n` from `who` (`None` when the message has no user id) at `now`, with the
    /// coin flip `fails`.
    pub fn invest_command(&mut self, who: Option<&str>, data: &str, fails: bool, now: u64) -> (r:
        Option<crate::response::Response>)
        requires
            old(self).game().wf(),
            who matches Some(w) ==> (number_spec(data@) matches Some(n) ==> (old(
                self,
            ).game().credits().contains_key(w@) && n <= old(self).game().credits()[w@] && !fails
                ==> old(self).game().credits()[w@] + n <= usize::MAX)),
        ensures
            final(self).game().wf(),
            match who {
                None => r is None && final(self).game() == old(self).game() && final(self).limits()
                    == old(self).limits(),
                Some(w) => if limited(old(self).limits(), w@, now) {
                    r is None && final(self).game() == old(self).game() && final(self).limits()
                        == old(self).limits()
                } else {
                    match number_spec(data@) {
                        None => is_reply(r, "thats not a number I understand"@)
                            && final(self).game().credits() == old(self).game().credits()
                            && final(self).limits() == old(self).limits(),
                        Some(n) => if n == 0 {
                            is_reply(r, "zero what?"@) && final(self).game().credits() == old(self).game().credits()
                                && final(self).limits() == old(self).limits()
                        } else {
                            let have: Credit = if old(self).game().credits().contains_key(w@) {
                                old(self).game().credits()[w@]
                            } else {
                                0
                            };
                            if have == 0 || n > have {
                                is_reply(
                                    r,
                                    "you don't have enough. you have "@ + commas(have as nat)
                                        + " but you want to invest "@ + commas(n) + " credits"@,
                                ) && final(self).game().credits() == old(self).game().credits()
                                    && final(self).limits() == old(self).limits()
                            } else {
                                let new: nat = if fails {
                                    (have - n) as nat
                                } else {
                                    (have + n) as nat
                                };
                                &&& final(self).game().credits() == old(self).game().credits().insert(
                                    w@,
                                    new as Credit,
                                )
                                &&& final(self).limits() == old(self).limits().insert(w@, now)
                                &&& is_reply(
                                    r,
                                    (if fails {
                                        "failure! "@
                                    } else {
                                        "success! "@
                                    }) + commas(have as nat) + " -> "@ + commas(new),
                                )
                            }
                        },
                    }
                },
            },
    {
        let w = match who {
            Some(w) => w,
            None => return None,
        };
        if self.check_limit(w, now) {
            return None;
        }
        let num = match Self::parse_number(data) {
            Some(n) => n,
            None => return reply_str("thats not a number I understand"),
        };
        if num == 0 {
            return reply_str("zero what?");
        }
        match self.state.invest(w, num, fails) {
            Ok(Donation::Success { old, new }) => {
                let mut t = String::from_str("success! ");
                push_commas(&mut t, old as u64);
                t.append(" -> ");
                push_commas(&mut t, new as u64);
                self.rate_limit(w, now);
                reply(t)
            },
            Ok(Donation::Failure { old, new }) => {
                let mut t = String::from_str("failure! ");
                push_commas(&mut t, old as u64);
                t.append(" -> ");
                push_commas(&mut t, new as u64);
                self.rate_limit(w, now);
                reply(t)
            },
            Err(IdleThingError::NotEnoughCredits { have, want }) => {
                let mut t = String::from_str("you don't have enough. you have ");
                push_commas(&mut t, have as u64);
                t.append(" but you want to invest ");
                push_commas(&mut t, want as u64);
                t.append(" credits");
                reply(t)
            },
        }
    }

    /// The name a `!give` names: the first word of its text.
    pub fn give_target<'a>(data: &'a str) -> (r: Option<&'a str>)
        ensures
            match r {
                Some(t) => words(data@).len() > 0 && t@ == words(data@)[0],
                None => words(data@).len() == 0,
            },
    {
        let parts = split_whitespace(data);
        if parts.len() == 0 {
            None
        } else {
            assert(views(parts@)[0] == parts@[0]@);
            Some(parts[0])
        }
    }

    /// `!give name n` from `who` (`None` without a user id), whose nick is `sender`;
    /// `target` is the id Twitch gave for `name` (`None` when it knows no such user).
    pub fn give_command(
        &mut self,
        who: Option<&str>,
        sender: Option<&str>,
        data: &str,
        target: Option<&str>,
    ) -> (r: Option<crate::response::Response>)
        requires
            old(self).game().wf(),
            rest_ok(data@),
            who matches Some(w) ==> (target matches Some(t) ==> (number_spec(
                trim_spec(rest_after_first(data@)),
            ) matches Some(n) ==> (old(self).game().credits().contains_key(w@) && n <= old(
                self,
            ).game().credits()[w@] && old(self).game().credits().contains_key(t@) ==> old(
                self,
            ).game().credits()[t@] + n <= usize::MAX))),
        ensures
            final(self).game().wf(),
            final(self).limits() == old(self).limits(),
            who is None || sender is None ==> r is None && final(self).game() == old(self).game(),
            who is Some && sender is Some ==> {
                let w = who->0@;
                let c = old(self).game().credits();
                if words(data@).len() == 0 {
                    is_reply(r, "who do you want to give points to?"@)
                        && final(self).game().credits() == c
                } else if target is None {
                    is_reply(r, "I don't know who that is"@) && final(self).game().credits() == c
                } else if sender->0@ == target->0@ {
                    is_reply(r, "what are you doing?"@) && final(self).game().credits() == c
                } else {
                    let t = target->0@;
                    match number_spec(trim_spec(rest_after_first(data@))) {
                        None => is_reply(r, "how much is that?"@) && final(self).game().credits()
                            == c,
                        Some(n) => if n == 0 {
                            is_reply(r, "zero what?"@) && final(self).game().credits() == c
                        } else if !(c.contains_key(w) && c[w] != 0) {
                            is_reply(r, "you have no credits"@) && final(self).game().credits() == c
                        } else if n > c[w] {
                            is_reply(r, "you only have "@ + commas(c[w] as nat) + " credits"@)
                                && final(self).game().credits() == c
                        } else {
                            let gifted = credited(c, t, n as Credit);
                            let after = debited(gifted, w, n as Credit);
                            &&& final(self).game().credits() == after
                            &&& is_reply(
                                r,
                                "they now have "@ + commas(gifted[t] as nat) + " credits and you have "@
                                    + commas(after[w] as nat),
                            )
                        },
                    }
                }
            },
    {
        let w = match who {
            Some(w) => w,
            None => return None,
        };
        let s = match sender {
            Some(s) => s,
            None => return None,
        };
        let first = match Self::give_target(data) {
            Some(t) => t,
            None => return reply_str("who do you want to give points to?"),
        };
        let t = match target {
            Some(t) => t,
            None => return reply_str("I don't know who that is"),
        };
        if str_eq(s, t) {
            return reply_str("what are you doing?");
        }
        let n = first.as_bytes().len();
        assert(n == vstd::utf8::encode_utf8(words(data@)[0]).len());
        let (_, rest) = data.split_at(n);
        proof {
            vstd::utf8::encode_utf8_decode_utf8(rest@);
            assert(vstd::utf8::encode_utf8(rest@) == rest.spec_bytes());
            assert(rest@ == rest_after_first(data@));
        }
        let num = match Self::parse_number(trim(rest)) {
            Some(num) => num,
            None => return reply_str("how much is that?"),
        };
        if num == 0 {
            return reply_str("zero what?");
        }
        match self.state.get_credits_for(w) {
            Some(credits) => {
                if num <= credits {
                    let c = self.state.give(t, num);
                    let d = self.state.take(w, num);
                    let mut text = String::from_str("they now have ");
                    push_commas(&mut text, c as u64);
                    text.append(" credits and you have ");
                    push_commas(&mut text, d as u64);
                    reply(text)
                } else {
                    let mut text = String::from_str("you only have ");
                    push_commas(&mut text, credits as u64);
                    text.append(" credits");
                    reply(text)
                }
            },
            None => reply_str("you have no credits"),
        }
    }

    /// `!check` from `who`.
    pub fn check_command(&self, who: Option<&str>) -> (r: Option<crate::response::Response>)
        ensures
            match who {
                None => r is None,
                Some(w) => if self.game().credits().contains_key(w@) && self.game().credits()[w@]
                    != 0 {
                    is_reply(
                        r,
                        "you have "@ + commas(self.game().credits()[w@] as nat) + " credits"@,
                    )
                } else {
                    is_reply(r, "you have no credits"@)
                },
            },
    {
        let w = match who {
            Some(w) => w,
            None => return None,
        };
        match self.state.get_credits_for(w) {
            Some(c) => {
                let mut text = String::from_str("you have ");
                push_commas(&mut text, c as u64);
                text.append(" credits");
                reply(text)
            },
            None => reply_str("you have no credits"),
        }
    }

    /// `!top5`: the five names with the most credits.
    pub fn top_command(&self) -> (r: Option<crate::response::Response>)
        requires
            self.game().wf(),
        ensures
            ({
                let sorted = sort_desc_by(
                    entries(self.game().order(), self.game().credits()),
                    by_credits(),
                );
                is_reply(
                    r,
                    top_text(sorted.subrange(0, if sorted.len() < 5 {
                        sorted.len() as int
                    } else {
                        5
                    })),
                )
            }),
    {
        let sorted = self.state.to_sorted();
        let ghost all = entry_views(sorted@);
        let n = if sorted.len() < 5 {
            sorted.len()
        } else {
            5
        };
        let mut buf = String::new();
        let mut i: usize = 0;
        assert(all.subrange(0, 0) =~= Seq::<(Seq<char>, Credit)>::empty());
        while i < n
            invariant
                n <= sorted@.len(),
                n <= 5,
                i <= n,
                all == entry_views(sorted@),
                buf@ == top_raw(all.subrange(0, i as int)),
            decreases n - i,
        {
            let (k, v) = sorted[i];
            let ghost sub = all.subrange(0, i + 1);
            assert(sub.drop_last() =~= all.subrange(0, i as int));
            assert(sub.last() == (k@, v));
            buf.append("(#");
            let place = decimal_chars((i + 1) as u64);
            push_chars(&mut buf, &place);
            buf.append(") ");
            buf.append(k);
            buf.append(": ");
            let num = decimal_chars(v as u64);
            push_chars(&mut buf, &num);
            buf.append(", ");
            i += 1;
            assert(buf@ =~= top_raw(sub));
        }
        let t = trim(buf.as_str());
        let tv = chars_of(t);
        let out = if tv.len() > 0 && tv[tv.len() - 1] == ',' {
            t.substring_char(0, tv.len() - 1)
        } else {
            t
        };
        assert(out@ == top_text(all.subrange(0, n as int))) by {
            if tv.len() > 0 && tv@[tv.len() - 1] == ',' {
                assert(out@ =~= t@.drop_last());
            }
        }
        reply(String::from_str(out))
    }

    /// A line of chat `data` from `who`: earns the line value unless it is a command or
    /// a mention.
    pub fn on_message(&mut self, data: &str, who: Option<&str>)
        requires
            old(self).game().wf(),
            who matches Some(w) ==> (old(self).game().credits().contains_key(w@) ==> old(self).game().credits()[w@] + old(self).game().line_value_spec() <= usize::MAX),
        ensures
            final(self).game().wf(),
            final(self).limits() == old(self).limits(),
            if (data@.len() > 0 && (data@[0] == '!' || data@[0] == '@')) || who is None {
                final(self).game() == old(self).game()
            } else {
                let w = who->0@;
                let c = old(self).game().credits();
                final(self).game().credits() == c.insert(
                    w,
                    (if c.contains_key(w) {
                        c[w] + old(self).game().line_value_spec()
                    } else {
                        old(self).game().line_value_spec() as int
                    }) as Credit,
                )
            },
    {
        if crate::text::starts_with_char(data, '!') || crate::text::starts_with_char(data, '@') {
            return;
        }
        if let Some(w) = who {
            self.state.increment(w);
        }
    }
}

/// Everyone in a chat, by role in the order moderators, staff, admins, global
/// moderators, viewers, without the first occurrence of the bot itself (`me`).
pub open spec fn idle_names_spec(c: crate::twitch::Chatters, me: Seq<char>) -> Seq<Seq<char>> {
    let all = idle_names_spec_all(c);
    let k = first_index(all, me);
    if k >= 0 {
        all.remove(k)
    } else {
        all
    }
}

/// Where `x` first occurs in `s`, or -1.
pub open spec fn first_index(s: Seq<Seq<char>>, x: Seq<char>) -> int
    decreases s.len(),
{
    if s.len() == 0 {
        -1
    } else if s[0] == x {
        0
    } else {
        let r = first_index(s.drop_first(), x);
        if r < 0 {
            -1
        } else {
            r + 1
        }
    }
}

proof fn lemma_first_index(s: Seq<Seq<char>>, x: Seq<char>, i: int)
    requires
        0 <= i <= s.len(),
        forall|j: int| 0 <= j < i ==> s[j] != x,
    ensures
        i < s.len() && s[i] == x ==> first_index(s, x) == i,
        i == s.len() ==> first_index(s, x) == -1,
    decreases i,
{
    if i > 0 {
        let t = s.drop_first();
        assert forall|j: int| 0 <= j < i - 1 implies t[j] != x by {
            assert(t[j] == s[j + 1]);
        }
        if i < s.len() {
            assert(t[i - 1] == s[i]);
        }
        lemma_first_index(t, x, i - 1);
    } else if s.len() == 0 {
    }
}

fn append_names(out: &mut Vec<String>, names: &Vec<String>)
    ensures
        string_views(final(out)@) == string_views(old(out)@) + string_views(names@),
{
    let mut i: usize = 0;
    while i < names.len()
        invariant
            i <= names@.len(),
            string_views(out@) == string_views(old(out)@) + string_views(names@).subrange(0, i as int),
        decreases names@.len() - i,
    {
        let ghost before = out@;
        out.push(names[i].clone());
        assert(string_views(out@) =~= string_views(before).push(names@[i as int]@));
        assert(string_views(names@).subrange(0, i + 1) =~= string_views(names@).subrange(0, i as int).push(names@[i as int]@));
        i += 1;
    }
    assert(string_views(names@).subrange(0, i as int) =~= string_views(names@));
}

impl IdleThing {
    /// The names a tick covers: everyone in the chat (as `names` lists them) but the bot,
    /// whose nick is `me`.
    pub fn idle_names(names: &crate::twitch::Names, me: &str) -> (r: Vec<String>)
        ensures
            string_views(r@) == idle_names_spec(names.chatters, me@),
    {
        let mut v: Vec<String> = Vec::new();
        append_names(&mut v, &names.chatters.moderators);
        append_names(&mut v, &names.chatters.staff);
        append_names(&mut v, &names.chatters.admins);
        append_names(&mut v, &names.chatters.global_mods);
        append_names(&mut v, &names.chatters.viewers);
        let ghost all = string_views(v@);
        assert(all =~= idle_names_spec_all(names.chatters));
        let mut i: usize = 0;
        while i < v.len()
            invariant
                i <= v@.len(),
                all == string_views(v@),
                all == idle_names_spec_all(names.chatters),
                forall|j: int| 0 <= j < i ==> all[j] != me@,
            decreases v@.len() - i,
        {
            if crate::text::str_eq(v[i].as_str(), me) {
                proof {
                    assert(all[i as int] == me@);
                    lemma_first_index(all, me@, i as int);
                }
                v.remove(i);
                assert(string_views(v@) =~= all.remove(i as int));
                return v;
            }
            i += 1;
        }
        proof {
            lemma_first_index(all, me@, i as int);
        }
        v
    }
}

/// Everyone in a chat, by role.
pub open spec fn idle_names_spec_all(c: crate::twitch::Chatters) -> Seq<Seq<char>> {
    string_views(c.moderators@) + string_views(c.staff@) + string_views(c.admins@)
        + string_views(c.global_mods@) + string_views(c.viewers@)
}

/// Giving a known name some credits and then taking the same amount back leaves every
/// name's credits as they were.
pub proof fn law_idle_give_then_take(credits: Map<Seq<char>, Credit>, name: Seq<char>, c: Credit)
    requires
        credits.contains_key(name),
        credits[name] + c <= usize::MAX,
    ensures
        debited(credited(credits, name, c), name, c) == credits,
{
    assert(debited(credited(credits, name, c), name, c) =~= credits);
}

/// A gift moves the credits: giving `c` to `to` and taking them from `from` leaves the
/// two amounts summing to what they summed to before, and nobody else's credits change.
pub proof fn law_idle_transfer(
    credits: Map<Seq<char>, Credit>,
    from: Seq<char>,
    to: Seq<char>,
    c: Credit,
)
    requires
        credits.contains_key(from),
        credits.contains_key(to),
        from != to,
        c <= credits[from],
        credits[to] + c <= usize::MAX,
    ensures
        ({
            let after = debited(credited(credits, to, c), from, c);
            &&& after[from] + after[to] == credits[from] + credits[to]
            &&& forall|k: Seq<char>| k != from && k != to ==> after.contains_key(k) == credits.contains_key(k)
                && (credits.contains_key(k) ==> after[k] == credits[k])
        }),
{
}

/// A tick takes nobody's credits: everyone known before is known after with at least
/// as many credits, and everyone named in the tick is known after it.
pub proof fn law_tick_never_lowers(
    credits: Map<Seq<char>, Credit>,
    names: Seq<Seq<char>>,
    idle: Credit,
    starting: Credit,
)
    requires
        tick_fits(credits, names, idle, starting),
    ensures
        forall|k: Seq<char>| #[trigger] credits.contains_key(k) ==> tick_spec(credits, names, idle, starting).contains_key(k)
            && tick_spec(credits, names, idle, starting)[k] >= credits[k],
        forall|i: int| 0 <= i < names.len() ==> tick_spec(credits, names, idle, starting).contains_key(#[trigger] names[i]),
    decreases names.len(),
{
    if names.len() > 0 {
        let prev = names.drop_last();
        law_tick_never_lowers(credits, prev, idle, starting);
        let m = tick_spec(credits, prev, idle, starting);
        assert forall|i: int| 0 <= i < names.len() implies tick_spec(credits, names, idle, starting).contains_key(#[trigger] names[i]) by {
            if i < names.len() - 1 {
                assert(names[i] == prev[i]);
            }
        }
    }
}

proof fn lemma_first_index_found(s: Seq<Seq<char>>, x: Seq<char>)
    ensures
        first_index(s, x) >= 0 <==> s.contains(x),
        first_index(s, x) >= 0 ==> first_index(s, x) < s.len() && s[first_index(s, x)] == x
            && forall|j: int| 0 <= j < first_index(s, x) ==> s[j] != x,
    decreases s.len(),
{
    if s.len() > 0 {
        let t = s.drop_first();
        lemma_first_index_found(t, x);
        if s[0] != x {
            if t.contains(x) {
                let j = choose|j: int| 0 <= j < t.len() && t[j] == x;
                assert(s[j + 1] == x);
            }
            if s.contains(x) {
                let j = choose|j: int| 0 <= j < s.len() && s[j] == x;
                assert(t[j - 1] == x);
            }
            if first_index(s, x) >= 0 {
                let k = first_index(s, x);
                assert(s[k] == t[k - 1]);
                assert forall|j: int| 0 <= j < k implies s[j] != x by {
                    if j > 0 {
                        assert(s[j] == t[j - 1]);
                    }
                }
            }
        } else {
            assert(s.contains(x)) by {
                assert(s[0] == x);
            }
        }
    }
}

/// Everyone in the chat earns on a tick but the bot: the names are those of the
/// moderators, staff, admins, global moderators and viewers, in that order, with the
/// bot's own name left out once (its first time) when it is there; each other name
/// stays, as often as it is listed.
pub proof fn law_idle_names_all_but_the_bot(c: crate::twitch::Chatters, me: Seq<char>)
    ensures
        ({
            let all = string_views(c.moderators@) + string_views(c.staff@) + string_views(
                c.admins@,
            ) + string_views(c.global_mods@) + string_views(c.viewers@);
            let r = idle_names_spec(c, me);
            &&& r.to_multiset() == all.to_multiset().remove(me)
            &&& forall|i: int| 0 <= i < all.len() && all[i] != me ==> r.contains(#[trigger] all[i])
            &&& !all.contains(me) ==> r == all
            &&& all.contains(me) ==> exists|k: int|
                0 <= k < all.len() && all[k] == me && (forall|j: int| 0 <= j < k ==> all[j] != me)
                    && r == all.remove(k)
        }),
{
    broadcast use vstd::seq_lib::group_to_multiset_ensures;

    let all = string_views(c.moderators@) + string_views(c.staff@) + string_views(c.admins@)
        + string_views(c.global_mods@) + string_views(c.viewers@);
    assert(idle_names_spec_all(c) == all);
    let r = idle_names_spec(c, me);
    lemma_first_index_found(all, me);
    let k = first_index(all, me);
    if k >= 0 {
        vstd::seq_lib::to_multiset_remove(all, k);
        assert(r.to_multiset() == all.to_multiset().remove(me));
    } else {
        assert(all.to_multiset().count(me) == 0);
        assert(all.to_multiset().remove(me) =~= all.to_multiset());
    }
    assert forall|i: int| 0 <= i < all.len() && all[i] != me implies r.contains(#[trigger] all[i]) by {
        let n = all[i];
        assert(all.to_multiset().count(n) > 0);
        assert(r.to_multiset().count(n) == all.to_multiset().count(n));
    }
}
} // verus!
