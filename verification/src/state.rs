//! The pacing of generated sentences: at most one every so many seconds, each cut after
//! its last word and ended with a period. Fetching a sentence is the caller's part.

use crate::shakespeare::{prune, prune_ok, pruned};
use vstd::prelude::*;

verus! {

/// When a sentence was last fetched (milliseconds on the caller's clock) and how many
/// seconds must pass before the next.
pub struct State {
    previous: Option<u64>,
    limit: u64,
}

impl State {
    /// When a sentence was last fetched.
    pub closed spec fn previous_spec(&self) -> Option<u64> {
        self.previous
    }

    /// The seconds between sentences.
    pub closed spec fn limit_spec(&self) -> u64 {
        self.limit
    }

    /// Nothing fetched yet; `interval` seconds between sentences.
    pub fn new(interval: usize) -> (r: Self)
        ensures
            r.previous_spec() is None,
            r.limit_spec() == interval,
    {
        State { previous: None, limit: interval as u64 }
    }

    /// Whether a sentence may be fetched at `now`.
    pub fn ready(&self, now: u64) -> (r: bool)
        ensures
            r == match self.previous_spec() {
                None => true,
                Some(p) => (if now < p {
                    0
                } else {
                    now - p
                }) >= self.limit_spec() * 1000,
            },
    {
        match self.previous {
            None => true,
            Some(p) => {
                let elapsed: u64 = if now < p {
                    0
                } else {
                    now - p
                };
                (elapsed as u128) >= (self.limit as u128) * 1000
            },
        }
    }

    /// The sentence `data` fetched at `now`: it is cut after its last alphabetic
    /// character and ended with `.`; `None` when the cut does not fall between two
    /// characters.
    pub fn generate(&mut self, now: u64, data: &str) -> (r: Option<String>)
        ensures
            final(self).previous_spec() == Some(now),
            final(self).limit_spec() == old(self).limit_spec(),
            match r {
                Some(t) => prune_ok(data@) && t@ == pruned(data@) + "."@,
                None => !prune_ok(data@),
            },
    {
        self.previous = Some(now);
        match prune(data) {
            Some(p) => {
                let mut s = String::from_str(p);
                s.append(".");
                Some(s)
            },
            None => None,
        }
    }
}

} // verus!
