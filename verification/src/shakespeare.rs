//! The bot's chatter: sentences from a markov service, said on `!speak`, when the bot is
//! mentioned, or now and then on its own. Fetching a sentence and rolling the chance to
//! speak are the caller's part; this module decides when to speak and what to say.

use crate::request::Request;
use crate::response::{is_text, Response};
use crate::text::{
    chars_of, eq_ignore_ascii_case, eq_ignore_case_spec, parse_unsigned, parse_usize, str_eq,
    views, words,
};
use vstd::prelude::*;
use vstd::string::StringSliceAdditionalSpecFns;
use vstd::utf8::{decode_utf8, encode_utf8, is_char_boundary};

verus! {

broadcast use vstd::utf8::encode_utf8_decode_utf8;

/// Whether a character has the Unicode `Alphabetic` property, as `char::is_alphabetic`
/// says.
pub uninterp spec fn alphabetic(c: char) -> bool;

/// `char::is_alphabetic`: whether `c` has the `Alphabetic` property, as `alphabetic` names
/// it.
#[verifier::external_body]
fn is_alphabetic(c: char) -> (r: bool)
    ensures
        r == alphabetic(c),
{
    c.is_alphabetic()
}

/// How many characters at the end of `s` are not alphabetic.
pub open spec fn trailing_non_alphabetic(s: Seq<char>) -> nat
    decreases s.len(),
{
    if s.len() > 0 && !alphabetic(s.last()) {
        1 + trailing_non_alphabetic(s.drop_last())
    } else {
        0
    }
}

/// Where a sentence is cut: its length in bytes less the count of characters that end
/// it and are not alphabetic.
pub open spec fn prune_cut(s: Seq<char>) -> int {
    encode_utf8(s).len() - trailing_non_alphabetic(s)
}

/// The cut falls between two characters.
pub open spec fn prune_ok(s: Seq<char>) -> bool {
    is_char_boundary(encode_utf8(s), prune_cut(s))
}

/// The text before the cut.
pub open spec fn pruned(s: Seq<char>) -> Seq<char> {
    decode_utf8(encode_utf8(s).subrange(0, prune_cut(s)))
}

/// `char::is_ascii_whitespace`.
pub open spec fn is_ascii_ws(c: char) -> bool {
    c == ' ' || c == '\t' || c == '\n' || c == '\x0C' || c == '\r'
}

/// How many ASCII whitespace characters `s` holds.
pub open spec fn ws_count(s: Seq<char>) -> nat
    decreases s.len(),
{
    if s.len() == 0 {
        0
    } else {
        ws_count(s.drop_last()) + if is_ascii_ws(s.last()) {
            1nat
        } else {
            0nat
        }
    }
}

/// `char::is_ascii_alphanumeric`.
pub open spec fn is_ascii_alnum(c: char) -> bool {
    ('0' <= c && c <= '9') || ('a' <= c && c <= 'z') || ('A' <= c && c <= 'Z')
}

/// `s` without the characters at its end that are not ASCII letters or digits.
pub open spec fn strip_non_alnum(s: Seq<char>) -> Seq<char>
    decreases s.len(),
{
    if s.len() > 0 && !is_ascii_alnum(s.last()) {
        strip_non_alnum(s.drop_last())
    } else {
        s
    }
}

/// `word` (an `@` and a name) names `nick`, ignoring ASCII case and what follows the
/// name that is not a letter or digit.
pub open spec fn names(word: Seq<char>, nick: Seq<char>) -> bool {
    let t = strip_non_alnum(word);
    t.len() > 0 && eq_ignore_case_spec(t.drop_first(), nick)
}

/// A word of `data` is `@nick`.
pub open spec fn mentions(data: Seq<char>, nick: Seq<char>) -> bool {
    exists|k: int|
        0 <= k < words(data).len() && words(data)[k].len() > 0 && words(data)[k][0] == '@'
            && #[trigger] names(words(data)[k], nick)
}

/// A sentence from the markov service, made ready to say.
#[derive(Debug, PartialEq)]
pub enum Sentence {
    /// It has fewer than three spaces: ask for another.
    TooShort,
    /// The sentence to say.
    Ready(String),
}

/// What `!speak configure` does.
#[derive(Debug, PartialEq)]
pub enum Configure {
    /// The sender may not configure: nothing is answered.
    Ignored,
    /// Answer this; when `save` is set, the configuration is written back.
    Answer { reply: Option<Response>, save: bool },
    /// The interval is given as this text, to be read as a number of seconds.
    Interval(String),
    /// The chance is given as this text, to be read as a probability.
    Chance(String),
}

/// The reply `text` to the sender.
pub open spec fn is_reply(r: Option<Response>, text: Seq<char>) -> bool {
    r matches Some(x) && is_text(x, true, text)
}

/// An answer with the reply `text`, saved when `save`.
pub open spec fn answers(c: Configure, text: Seq<char>, save: bool) -> bool {
    c matches Configure::Answer { reply, save: s } && is_reply(reply, text) && s == save
}

/// The UTF-8 encoding is at least as long as the text.
pub proof fn lemma_encode_len(s: Seq<char>)
    ensures
        encode_utf8(s).len() >= s.len(),
    decreases s.len(),
{
    if s.len() > 0 {
        lemma_encode_len(s.drop_first());
    }
}

/// `data` cut after its last alphabetic character, the cut counted back from the end
/// in bytes, one for each character after that one; `None` when the cut does not fall
/// between two characters.
pub fn prune(data: &str) -> (r: Option<&str>)
    ensures
        match r {
            Some(p) => prune_ok(data@) && p@ == pruned(data@),
            None => !prune_ok(data@),
        },
{
    let v = chars_of(data);
    let mut i: usize = v.len();
    let mut pos: usize = 0;
    assert(v@.subrange(0, v@.len() as int) =~= v@);
    while i > 0 && !is_alphabetic(v[i - 1])
        invariant
            i <= v@.len(),
            v@ == data@,
            pos + i == v@.len(),
            trailing_non_alphabetic(v@) == pos + trailing_non_alphabetic(v@.subrange(0, i as int)),
        decreases i,
    {
        let ghost sub = v@.subrange(0, i as int);
        assert(sub.drop_last() =~= v@.subrange(0, i - 1));
        assert(sub.last() == v@[i - 1]);
        pos += 1;
        i -= 1;
    }
    proof {
        let sub = v@.subrange(0, i as int);
        if i > 0 {
            assert(sub.last() == v@[i - 1]);
        }
        assert(trailing_non_alphabetic(sub) == 0);
        lemma_encode_len(data@);
    }
    let bytes = data.as_bytes();
    let n = bytes.len();
    let cut = n - pos;
    if !data.is_char_boundary(cut) {
        return None;
    }
    let (p, _) = data.split_at(cut);
    proof {
        assert(encode_utf8(p@) == p.spec_bytes());
        assert(decode_utf8(encode_utf8(p@)) == p@);
    }
    Some(p)
}

/// The chatter's state: when it last fetched a sentence (milliseconds on the caller's
/// clock), how many seconds it waits between sentences, how many seconds of quiet make
/// it speak without rolling, and the bot's name.
pub struct Shakespeare {
    previous: Option<u64>,
    limit: u64,
    bypass: usize,
    name: String,
}

fn answer(text: &str, save: bool) -> (r: Configure)
    ensures
        answers(r, text@, save),
{
    Configure::Answer { reply: Some(Response::Reply { data: String::from_str(text) }), save }
}

impl Shakespeare {
    /// When a sentence was last fetched.
    pub closed spec fn previous_spec(&self) -> Option<u64> {
        self.previous
    }

    /// The seconds between sentences.
    pub closed spec fn limit_spec(&self) -> u64 {
        self.limit
    }

    /// The seconds of quiet after which the bot speaks without rolling.
    pub closed spec fn bypass_spec(&self) -> usize {
        self.bypass
    }

    /// Nothing said yet, waiting `limit` seconds between sentences and speaking without a
    /// roll after `bypass` seconds of quiet.
    pub fn create(limit: u64, bypass: usize, name: &str) -> (r: Self)
        ensures
            r.previous_spec() is None,
            r.limit_spec() == limit,
            r.bypass_spec() == bypass,
    {
        Shakespeare { previous: None, limit, bypass, name: String::from_str(name) }
    }

    /// The seconds of quiet after which the bot speaks without rolling.
    pub fn bypass(&self) -> (r: usize)
        ensures
            r == self.bypass_spec(),
    {
        self.bypass
    }

    /// Whether a sentence may be fetched at `now`: none was, or the last was at least
    /// `limit` seconds ago.
    pub fn ready(&self, now: u64) -> (r: bool)
        ensures
            r == match self.previous_spec() {
                None => true,
                Some(p) => (if now < p {
                    0
                } else {
                    now - p
                }) >= self.limit_spec() * 1000,
            },
    {
        match self.previous {
            None => true,
            Some(p) => {
                let elapsed: u64 = if now < p {
                    0
                } else {
                    now - p
                };
                (elapsed as u128) >= (self.limit as u128) * 1000
            },
        }
    }

    /// A sentence was fetched at `now`.
    pub fn fetched(&mut self, now: u64)
        ensures
            final(self).previous_spec() == Some(now),
            final(self).limit_spec() == old(self).limit_spec(),
            final(self).bypass_spec() == old(self).bypass_spec(),
    {
        self.previous = Some(now);
    }

    /// Whether the bot speaks at `now` without rolling: more than `bypass` seconds passed
    /// since the last sentence, or, before any, `bypass` is zero.
    pub fn should_bypass(&self, now: u64) -> (r: bool)
        ensures
            r == match self.previous_spec() {
                None => self.bypass_spec() == 0,
                Some(p) => (if now < p {
                    0
                } else {
                    now - p
                }) > self.bypass_spec() * 1000,
            },
    {
        match self.previous {
            None => self.bypass == 0,
            Some(p) => {
                let elapsed: u64 = if now < p {
                    0
                } else {
                    now - p
                };
                (elapsed as u128) > (self.bypass as u128) * 1000
            },
        }
    }

    /// Makes a fetched sentence ready: cut after its last alphabetic character (the cut
    /// counts characters back from the end in bytes, as the bot always has), then a `.`
    /// added; fewer than three spaces ask for another. `None` when the cut does not fall
    /// between two characters.
    pub fn sentence(data: &str) -> (r: Option<Sentence>)
        ensures
            r is None <==> !prune_ok(data@),
            prune_ok(data@) ==> if ws_count(pruned(data@)) < 3 {
                r == Some(Sentence::TooShort)
            } else {
                r matches Some(Sentence::Ready(t)) && t@ == pruned(data@) + "."@
            },
    {
        let p = match prune(data) {
            Some(p) => p,
            None => return None,
        };
        let w = chars_of(p);
        let mut count: usize = 0;
        let mut k: usize = 0;
        while k < w.len()
            invariant
                k <= w@.len(),
                w@ == p@,
                count == ws_count(w@.subrange(0, k as int)),
                count <= k,
            decreases w@.len() - k,
        {
            let c = w[k];
            let ghost sub = w@.subrange(0, k + 1);
            assert(sub.drop_last() =~= w@.subrange(0, k as int));
            assert(sub.last() == c);
            if c == ' ' || c == '\t' || c == '\n' || c == '\x0C' || c == '\r' {
                count += 1;
            }
            k += 1;
        }
        assert(w@.subrange(0, k as int) =~= w@);
        if count < 3 {
            return Some(Sentence::TooShort);
        }
        let mut s = String::from_str(p);
        s.append(".");
        Some(Sentence::Ready(s))
    }

    /// `!speak` with a sentence ready (`None` when there is none): says it.
    pub fn speak_command(&self, sentence: Option<String>) -> (r: Option<Response>)
        ensures
            match sentence {
                Some(s) => r matches Some(x) && is_text(x, false, s@),
                None => r is None,
            },
    {
        match sentence {
            Some(s) => Some(Response::Say { data: s }),
            None => None,
        }
    }

    /// Whether a line of chat mentions the bot (shown as `nick`): a word `@nick`, in
    /// any ASCII case, with anything not a letter or digit after it.
    pub fn check_mentions(data: &str, nick: &str) -> (r: bool)
        ensures
            r == mentions(data@, nick@),
    {
        let parts = crate::text::split_whitespace(data);
        let mut i: usize = 0;
        while i < parts.len()
            invariant
                i <= parts@.len(),
                views(parts@) == words(data@),
                forall|k: int|
                    0 <= k < i ==> !(words(data@)[k].len() > 0 && words(data@)[k][0] == '@'
                        && #[trigger] names(words(data@)[k], nick@)),
            decreases parts@.len() - i,
        {
            let part = parts[i];
            assert(part@ == words(data@)[i as int]);
            if crate::text::starts_with_char(part, '@') && Self::trim_then_check(part, nick) {
                return true;
            }
            i += 1;
        }
        false
    }

    /// `s` (which starts with `@`), without what ends it that is not a letter or digit,
    /// names `nick`.
    fn trim_then_check(s: &str, nick: &str) -> (r: bool)
        requires
            s@.len() > 0,
            s@[0] == '@',
        ensures
            r == names(s@, nick@),
    {
        let v = chars_of(s);
        let mut j: usize = v.len();
        assert(v@.subrange(0, v@.len() as int) =~= v@);
        while j > 0 && !(('0' <= v[j - 1] && v[j - 1] <= '9') || ('a' <= v[j - 1] && v[j - 1]
            <= 'z') || ('A' <= v[j - 1] && v[j - 1] <= 'Z'))
            invariant
                j <= v@.len(),
                v@ == s@,
                strip_non_alnum(s@) == strip_non_alnum(v@.subrange(0, j as int)),
            decreases j,
        {
            let ghost sub = v@.subrange(0, j as int);
            assert(sub.drop_last() =~= v@.subrange(0, j - 1));
            assert(sub.last() == v@[j - 1]);
            j -= 1;
        }
        let ghost t = v@.subrange(0, j as int);
        assert(strip_non_alnum(t) == t) by {
            if j > 0 {
                assert(t.last() == v@[j - 1]);
            }
        }
        if j == 0 {
            return false;
        }
        let rest = s.substring_char(1, j);
        assert(rest@ =~= t.drop_first());
        eq_ignore_ascii_case(rest, nick)
    }

    /// Whether a line of chat may make the bot speak on its own: it is not a command.
    pub fn wants_auto(data: &str) -> (r: bool)
        ensures
            r == !(data@.len() > 0 && data@[0] == '!'),
    {
        !crate::text::starts_with_char(data, '!')
    }

    /// `!speak configure what value` (privileged only). The bypass is set here; an
    /// interval or a chance is handed back as text to be read as a number.
    pub fn configure_command(&mut self, req: &Request, privileged: bool) -> (r: Configure)
        ensures
            final(self).previous_spec() == old(self).previous_spec(),
            final(self).limit_spec() == old(self).limit_spec(),
            ({
                let w = words(req@.args);
                if !privileged {
                    r == Configure::Ignored && final(self).bypass_spec() == old(self).bypass_spec()
                } else if w.len() == 0 {
                    answers(r, "what do you want to configure: interval, chance, bypass"@, false)
                        && final(self).bypass_spec() == old(self).bypass_spec()
                } else if w.len() == 2 && w[0] == "interval"@ {
                    r matches Configure::Interval(t) && t@ == w[1] && final(self).bypass_spec()
                        == old(self).bypass_spec()
                } else if w.len() == 2 && w[0] == "chance"@ {
                    r matches Configure::Chance(t) && t@ == w[1] && final(self).bypass_spec()
                        == old(self).bypass_spec()
                } else if w.len() == 2 && w[0] == "bypass"@ {
                    match parse_unsigned(w[1], usize::MAX as nat) {
                        Some(n) => answers(r, "done"@, true) && final(self).bypass_spec() == n,
                        None => answers(r, "that is not a number"@, true)
                            && final(self).bypass_spec() == old(self).bypass_spec(),
                    }
                } else if w.len() == 1 && (w[0] == "interval"@ || w[0] == "chance"@ || w[0]
                    == "bypass"@) {
                    answers(r, "provide a value, please"@, true) && final(self).bypass_spec()
                        == old(self).bypass_spec()
                } else {
                    answers(r, "I don't know how to configure that"@, true)
                        && final(self).bypass_spec() == old(self).bypass_spec()
                }
            }),
    {
        if !privileged {
            return Configure::Ignored;
        }
        let args = req.args_iter();
        proof {
            assert(views(args@) == words(req@.args));
        }
        if args.len() == 0 {
            return answer("what do you want to configure: interval, chance, bypass", false);
        }
        assert(args@[0]@ == words(req@.args)[0]);
        let head = args[0];
        let is_interval = str_eq(head, "interval");
        let is_chance = str_eq(head, "chance");
        let is_bypass = str_eq(head, "bypass");
        if args.len() == 2 {
            assert(args@[1]@ == words(req@.args)[1]);
            let value = args[1];
            if is_interval {
                return Configure::Interval(String::from_str(value));
            }
            if is_chance {
                return Configure::Chance(String::from_str(value));
            }
            if is_bypass {
                return match parse_usize(value) {
                    Some(n) => {
                        self.bypass = n;
                        answer("done", true)
                    },
                    None => answer("that is not a number", true),
                };
            }
        }
        if args.len() == 1 && (is_interval || is_chance || is_bypass) {
            return answer("provide a value, please", true);
        }
        answer("I don't know how to configure that", true)
    }
}

} // verus!
