//! A chat command: a message that starts with `!`, with the part of it that matched a
//! command's name split off.

use crate::text::{
    chars_of, is_prefix, split_whitespace, starts_with, starts_with_char, str_eq, trim, trim_spec,
    views, words,
};
use vstd::prelude::*;

verus! {

/// A command request: the matched name (none until a search matched one), the rest of
/// the message, who sent it and where it was sent.
#[derive(Clone, Copy, Debug, PartialEq, Default)]
pub struct Request<'a> {
    name: Option<&'a str>,
    args: &'a str,
    sender: i64,
    target: &'a str,
}

/// What a request holds, as text.
pub struct RequestView {
    pub name: Option<Seq<char>>,
    pub args: Seq<char>,
    pub sender: i64,
    pub target: Seq<char>,
}

impl<'a> View for Request<'a> {
    type V = RequestView;

    closed spec fn view(&self) -> RequestView {
        RequestView {
            name: match self.name {
                Some(n) => Some(n@),
                None => None,
            },
            args: self.args@,
            sender: self.sender,
            target: self.target@,
        }
    }
}

/// The sender id that marks a message whose sender is unknown.
pub const UNKNOWN_SENDER: i64 = -1;

/// A message is a command when its sender is known and it is `!` followed by at least
/// one more character.
pub open spec fn is_command(sender: i64, data: Seq<char>) -> bool {
    sender != UNKNOWN_SENDER && data.len() > 1 && data[0] == '!'
}

/// What a search for `query` finds in a request.
pub open spec fn search_spec(r: RequestView, query: Seq<char>) -> Option<RequestView> {
    if query == seq!['!'] {
        None
    } else if r.name == Some(query) {
        Some(r)
    } else if is_prefix(query, r.args) {
        Some(
            RequestView {
                name: Some(query),
                args: trim_spec(r.args.subrange(query.len() as int, r.args.len() as int)),
                sender: r.sender,
                target: r.target,
            },
        )
    } else {
        None
    }
}

impl<'a> Request<'a> {
    /// The request that `data`, sent by `sender` to `target`, makes, if it is a command.
    pub fn try_parse(target: &'a str, sender: i64, data: &'a str) -> (r: Option<Self>)
        ensures
            r.is_some() == is_command(sender, data@),
            r matches Some(q) ==> q@ == (RequestView {
                name: None,
                args: data@,
                sender,
                target: target@,
            }),
    {
        if sender == UNKNOWN_SENDER {
            return None;
        }
        if starts_with_char(data, '!') && data.unicode_len() > 1 {
            return Some(Request { name: None, args: data, sender, target });
        }
        None
    }

    /// The command name that a search matched.
    pub fn name(&self) -> (r: Option<&'a str>)
        ensures
            match r {
                Some(n) => self@.name == Some(n@),
                None => self@.name is None,
            },
    {
        self.name
    }

    /// The text after the matched name.
    pub fn args(&self) -> (r: &'a str)
        ensures
            r@ == self@.args,
    {
        self.args
    }

    /// The whitespace-separated words of the arguments.
    pub fn args_iter(&self) -> (r: Vec<&'a str>)
        ensures
            views(r@) == words(self@.args),
    {
        split_whitespace(self.args)
    }

    /// Where the request was sent.
    pub fn target(&self) -> (r: &'a str)
        ensures
            r@ == self@.target,
    {
        self.target
    }

    /// Who sent the request.
    pub fn sender(&self) -> (r: i64)
        ensures
            r == self@.sender,
    {
        self.sender
    }

    /// Whether the sender is one of `owners`.
    pub fn is_from_owner(&self, owners: &[i64]) -> (r: bool)
        ensures
            r == owners@.contains(self@.sender),
    {
        let mut i: usize = 0;
        while i < owners.len()
            invariant
                i <= owners@.len(),
                forall|k: int| 0 <= k < i ==> owners@[k] != self@.sender,
            decreases owners@.len() - i,
        {
            if owners[i] == self.sender {
                assert(owners@[i as int] == self@.sender);
                return true;
            }
            i += 1;
        }
        false
    }

    /// The request for the command `query`: this request if a search already matched
    /// `query`, or the request with `query` split off the front of the arguments.
    pub fn search(&self, query: &'a str) -> (r: Option<Request<'a>>)
        ensures
            match r {
                Some(q) => search_spec(self@, query@) == Some(q@),
                None => search_spec(self@, query@) is None,
            },
    {
        let bang = str_eq(query, "!");
        proof {
            reveal_strlit("!");
            assert("!"@ =~= seq!['!']);
        }
        if bang {
            return None;
        }
        if let Some(name) = self.name {
            if str_eq(name, query) {
                assert(self@.name == Some(query@));
                return Some(*self);
            }
        }
        if starts_with(self.args, query) {
            let n = self.args.unicode_len();
            let q = query.unicode_len();
            let rest = self.args.substring_char(q, n);
            let r = Request { name: Some(query), args: trim(rest), sender: self.sender, target: self.target };
            return Some(r);
        }
        None
    }
}

/// A request found by a search for `query` is found again, unchanged, by the same search.
pub proof fn law_search_idempotent(r: RequestView, query: Seq<char>)
    requires
        search_spec(r, query) is Some,
    ensures
        search_spec(search_spec(r, query)->0, query) == search_spec(r, query),
{
}

} // verus!
