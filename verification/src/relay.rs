//! The chat relay for display clients: the latest chat lines (JSON, stamped with when
//! they were sent) kept in a bounded queue, the lines each client has not had yet, and
//! which clients stay after a round of writing to them. Accepting clients and writing
//! to them is the caller's part.

use crate::queue::Queue;
use vstd::prelude::*;

verus! {

/// How many lines the relay keeps.
pub const MAX_MESSAGES: usize = 16;

/// The lines, stamped, oldest first.
pub struct Relay {
    queue: Queue<(u64, String)>,
}

/// The lines stamped after `last`, oldest first.
pub open spec fn newer(items: Seq<(u64, String)>, last: u64) -> Seq<Seq<char>>
    decreases items.len(),
{
    if items.len() == 0 {
        seq![]
    } else {
        let rest = newer(items.drop_last(), last);
        if items.last().0 > last {
            rest.push(items.last().1@)
        } else {
            rest
        }
    }
}

/// The views of strings.
pub open spec fn string_views(v: Seq<String>) -> Seq<Seq<char>> {
    v.map_values(|s: String| s@)
}

/// A display client as the relay tracks it: its number, and when it was last served
/// (0 before it ever was).
#[derive(Clone, Copy, Debug, PartialEq, Eq)]
pub struct Client {
    pub id: u64,
    pub last: u64,
}

/// The clients kept after a round of serving, with their connections: each one that was
/// served (`Some(t)`: its lines were written and flushed, and the clock then read `t`)
/// stays, in order, marked `t`; each one whose write or flush failed (`None`) is dropped.
pub open spec fn drained<S>(served: Seq<(Client, S, Option<u64>)>) -> Seq<(Client, S)>
    decreases served.len(),
{
    if served.len() == 0 {
        seq![]
    } else {
        let rest = drained(served.drop_last());
        let (c, s, t) = served.last();
        match t {
            Some(t) => rest.push((Client { id: c.id, last: t }, s)),
            None => rest,
        }
    }
}

impl Relay {
    /// The lines the relay keeps, oldest first.
    pub closed spec fn items(&self) -> Seq<(u64, String)> {
        self.queue@
    }

    /// The most lines the relay keeps.
    pub closed spec fn capacity(&self) -> nat {
        self.queue.size()
    }

    /// A relay with no lines that keeps the latest `MAX_MESSAGES`.
    pub fn new() -> (r: Self)
        ensures
            r.items() == Seq::<(u64, String)>::empty(),
            r.capacity() == MAX_MESSAGES,
    {
        Relay { queue: Queue::new(MAX_MESSAGES) }
    }

    /// Keeps `line`, stamped `ts`; when the relay is full its oldest line goes.
    pub fn push(&mut self, ts: u64, line: String)
        ensures
            final(self).items() == crate::queue::push_spec(
                old(self).items(),
                old(self).capacity(),
                (ts, line),
            ).0,
            final(self).capacity() == old(self).capacity(),
    {
        self.queue.push((ts, line));
    }

    /// The lines a client that last had lines at `last` has not had: those stamped
    /// after it, oldest first.
    pub fn pending(&self, last: u64) -> (r: Vec<String>)
        ensures
            string_views(r@) == newer(self.items(), last),
    {
        let q = self.queue.queue();
        let ghost items = self.items();
        let mut out: Vec<String> = Vec::new();
        let mut i: usize = 0;
        while i < q.len()
            invariant
                q@ == items,
                i <= items.len(),
                string_views(out@) == newer(items.subrange(0, i as int), last),
            decreases items.len() - i,
        {
            let item = &q[i];
            let ghost sub = items.subrange(0, i + 1);
            assert(sub.drop_last() =~= items.subrange(0, i as int));
            assert(sub.last() == *item);
            if item.0 > last {
                let ghost before = out@;
                out.push(item.1.clone());
                assert(string_views(out@) =~= string_views(before).push(item.1@));
            }
            i += 1;
        }
        assert(items.subrange(0, i as int) =~= items);
        out
    }
    /// The clients that stay after a round of serving (see `drained`): the served ones,
    /// in order, each marked with the time it was served; those that failed are dropped.
    pub fn drain<S>(served: Vec<(Client, S, Option<u64>)>) -> (r: Vec<(Client, S)>)
        ensures
            r@ == drained(served@),
    {
        let ghost all = served@;
        let mut rest = served;
        let mut kept: Vec<(Client, S)> = Vec::new();
        assert(all.subrange(0, 0) =~= Seq::<(Client, S, Option<u64>)>::empty());
        while rest.len() > 0
            invariant
                0 <= all.len() - rest@.len() <= all.len(),
                rest@ == all.subrange(all.len() - rest@.len(), all.len() as int),
                kept@ == drained(all.subrange(0, all.len() - rest@.len())),
            decreases rest@.len(),
        {
            let ghost k = all.len() - rest@.len();
            assert(all.subrange(0, k + 1).drop_last() =~= all.subrange(0, k));
            assert(all[k] == rest@[0]);
            let (c, conn, t) = rest.remove(0);
            assert(rest@ =~= all.subrange(all.len() - rest@.len(), all.len() as int));
            match t {
                Some(t) => kept.push((Client { id: c.id, last: t }, conn)),
                None => {},
            }
        }
        assert(all.subrange(0, all.len() as int) =~= all);
        kept
    }
}

} // verus!
