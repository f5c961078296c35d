//! Formatting helpers: numbers with thousands separators, durations, lists of words,
//! and the current time.

use crate::text::{
    decimal, decimal_chars, digit_char, i64_to_string, push_char, signed_decimal, u64_to_string,
};
use vstd::prelude::*;

verus! {

/// The decimal digits of `n < 1000`, padded with zeros to three digits (`{:03}`).
pub open spec fn pad3(n: nat) -> Seq<char> {
    if n < 10 {
        seq!['0', '0'] + decimal(n)
    } else if n < 100 {
        seq!['0'] + decimal(n)
    } else {
        decimal(n)
    }
}

/// The decimal digits of `n`, padded with a zero to two digits (`{:02}`).
pub open spec fn pad2(n: nat) -> Seq<char> {
    if n < 10 {
        seq!['0'] + decimal(n)
    } else {
        decimal(n)
    }
}

/// `n` in decimal with a `,` between each group of three digits.
pub open spec fn commas(n: nat) -> Seq<char>
    decreases n,
{
    if n < 1000 {
        decimal(n)
    } else {
        commas(n / 1000) + seq![','] + pad3(n % 1000)
    }
}

/// A signed number with thousands separators: a number below 1000 (a negative one
/// included) is written plainly.
pub open spec fn signed_commas(n: int) -> Seq<char> {
    if n < 1000 {
        signed_decimal(n)
    } else {
        commas(n as nat)
    }
}

/// Appends the characters of `v` to `s`.
pub fn push_chars(s: &mut String, v: &Vec<char>)
    ensures
        final(s)@ == old(s)@ + v@,
{
    let mut i: usize = 0;
    while i < v.len()
        invariant
            i <= v@.len(),
            s@ == old(s)@ + v@.subrange(0, i as int),
        decreases v@.len() - i,
    {
        push_char(s, v[i]);
        i += 1;
        assert(s@ =~= old(s)@ + v@.subrange(0, i as int));
    }
    assert(v@.subrange(0, i as int) =~= v@);
}

/// Appends `{:03}` of `n` to `s`.
fn push_pad3(s: &mut String, n: u64)
    requires
        n < 1000,
    ensures
        final(s)@ == old(s)@ + pad3(n as nat),
{
    if n < 10 {
        push_char(s, '0');
        push_char(s, '0');
    } else if n < 100 {
        push_char(s, '0');
    }
    let d = decimal_chars(n);
    push_chars(s, &d);
    assert(s@ =~= old(s)@ + pad3(n as nat));
}

/// Appends `{:02}` of `n` to `s`.
fn push_pad2(s: &mut String, n: u64)
    ensures
        final(s)@ == old(s)@ + pad2(n as nat),
{
    if n < 10 {
        push_char(s, '0');
    }
    let d = decimal_chars(n);
    push_chars(s, &d);
    assert(s@ =~= old(s)@ + pad2(n as nat));
}

/// Appends `commas(n)` to `s`.
pub fn push_commas(s: &mut String, n: u64)
    ensures
        final(s)@ == old(s)@ + commas(n as nat),
    decreases n,
{
    if n < 1000 {
        let d = decimal_chars(n);
        push_chars(s, &d);
    } else {
        push_commas(s, n / 1000);
        push_char(s, ',');
        push_pad3(s, n % 1000);
        assert(s@ =~= old(s)@ + commas(n as nat));
    }
}

/// `n` with thousands separators.
pub fn commas_u64(n: u64) -> (r: String)
    ensures
        r@ == commas(n as nat),
{
    let mut s = String::new();
    push_commas(&mut s, n);
    assert(s@ =~= commas(n as nat));
    s
}

/// A signed `n` with thousands separators.
pub fn commas_i64(n: i64) -> (r: String)
    ensures
        r@ == signed_commas(n as int),
{
    if n < 1000 {
        i64_to_string(n)
    } else {
        commas_u64(n as u64)
    }
}

/// Numbers that can be written with thousands separators.
pub trait CommaSeparated {
    /// The text that `comma_separate` gives.
    spec fn comma_spec(&self) -> Seq<char>;

    /// The number with a `,` between each group of three digits.
    fn comma_separate(&self) -> (r: String)
        ensures
            r@ == self.comma_spec(),
    ;
}

impl CommaSeparated for u64 {
    open spec fn comma_spec(&self) -> Seq<char> {
        commas(*self as nat)
    }

    fn comma_separate(&self) -> (r: String) {
        commas_u64(*self)
    }
}

impl CommaSeparated for u32 {
    open spec fn comma_spec(&self) -> Seq<char> {
        commas(*self as nat)
    }

    fn comma_separate(&self) -> (r: String) {
        commas_u64(*self as u64)
    }
}

impl CommaSeparated for usize {
    open spec fn comma_spec(&self) -> Seq<char> {
        commas(*self as nat)
    }

    fn comma_separate(&self) -> (r: String) {
        commas_u64(*self as u64)
    }
}

impl CommaSeparated for i64 {
    open spec fn comma_spec(&self) -> Seq<char> {
        signed_commas(*self as int)
    }

    fn comma_separate(&self) -> (r: String) {
        commas_i64(*self)
    }
}

impl CommaSeparated for i32 {
    open spec fn comma_spec(&self) -> Seq<char> {
        signed_commas(*self as int)
    }

    fn comma_separate(&self) -> (r: String) {
        commas_i64(*self as i64)
    }
}

impl CommaSeparated for isize {
    open spec fn comma_spec(&self) -> Seq<char> {
        signed_commas(*self as int)
    }

    fn comma_separate(&self) -> (r: String) {
        commas_i64(*self as i64)
    }
}


/// The items joined with `sep` between each two.
pub open spec fn join_spec(items: Seq<Seq<char>>, sep: Seq<char>) -> Seq<char>
    decreases items.len(),
{
    if items.len() == 0 {
        seq![]
    } else if items.len() == 1 {
        items[0]
    } else {
        join_spec(items.drop_last(), sep) + sep + items.last()
    }
}

/// The views of a sequence of strings.
pub open spec fn string_views(v: Seq<String>) -> Seq<Seq<char>> {
    v.map_values(|s: String| s@)
}

/// The items joined with `sep` between each two.
pub fn join_with(items: &[String], sep: &str) -> (r: String)
    ensures
        r@ == join_spec(string_views(items@), sep@),
{
    let ghost sv = string_views(items@);
    let mut buf = String::new();
    if items.len() == 0 {
        return buf;
    }
    buf.append(items[0].as_str());
    let mut i: usize = 1;
    assert(sv.subrange(0, 1) =~= seq![sv[0]]);
    while i < items.len()
        invariant
            sv == string_views(items@),
            1 <= i <= items@.len(),
            buf@ == join_spec(sv.subrange(0, i as int), sep@),
        decreases items@.len() - i,
    {
        buf.append(sep);
        buf.append(items[i].as_str());
        assert(sv.subrange(0, i + 1).drop_last() =~= sv.subrange(0, i as int));
        i += 1;
    }
    assert(sv.subrange(0, i as int) =~= sv);
    buf
}

/// `n` and a unit name: the name as given for more than one, without its last
/// character for exactly one.
pub open spec fn plural_spec(n: nat, s: Seq<char>) -> Seq<char> {
    decimal(n) + seq![' '] + (if n > 1 {
        s
    } else {
        s.drop_last()
    })
}

/// The nonzero entries of `list`, each written by `plural_spec`, in order.
pub open spec fn time_items(list: Seq<(Seq<char>, u64)>) -> Seq<Seq<char>>
    decreases list.len(),
{
    if list.len() == 0 {
        seq![]
    } else {
        let rest = time_items(list.drop_last());
        let (name, n) = list.last();
        if n > 0 {
            rest.push(plural_spec(n as nat, name))
        } else {
            rest
        }
    }
}

/// The words of a list in prose: a `,` after each item but the last two, and `and`
/// before the last one.
pub open spec fn prose_words(items: Seq<Seq<char>>) -> Seq<Seq<char>> {
    let len = items.len();
    if len > 1 {
        Seq::new(
            len,
            |i: int|
                if len > 2 && i < len - 2 {
                    items[i] + seq![',']
                } else {
                    items[i]
                },
        ).insert(len - 1, seq!['a', 'n', 'd'])
    } else {
        items
    }
}

/// The text that `format_time_map` gives for `list`.
pub open spec fn time_map_spec(list: Seq<(Seq<char>, u64)>) -> Seq<char> {
    join_spec(prose_words(time_items(list)), seq![' '])
}

/// The unit names of `list` and their counts, as text.
pub open spec fn entry_views(list: Seq<(&str, u64)>) -> Seq<(Seq<char>, u64)> {
    list.map_values(|e: (&str, u64)| (e.0@, e.1))
}

/// A name of a single unit ends with a one-byte character that can be cut off.
pub open spec fn singular_ok(list: Seq<(&str, u64)>) -> bool {
    forall|i: int|
        0 <= i < list.len() && #[trigger] list[i].1 == 1 ==> list[i].0@.len() > 0 && (
        list[i].0@.last() as u32) < 128
}

/// A list of counted units in prose, such as "1 day, 2 hours and 3 seconds".
pub fn format_time_map(list: &[(&str, u64)]) -> (r: String)
    requires
        singular_ok(list@),
    ensures
        r@ == time_map_spec(entry_views(list@)),
{
    let ghost ev = entry_views(list@);
    let mut items: Vec<String> = Vec::new();
    let mut i: usize = 0;
    while i < list.len()
        invariant
            ev == entry_views(list@),
            singular_ok(list@),
            i <= list@.len(),
            string_views(items@) == time_items(ev.subrange(0, i as int)),
        decreases list@.len() - i,
    {
        let (name, n) = list[i];
        assert(ev.subrange(0, i + 1).drop_last() =~= ev.subrange(0, i as int));
        assert(ev.subrange(0, i + 1).last() == (name@, n));
        if n > 0 {
            let mut s = u64_to_string(n);
            push_char(&mut s, ' ');
            if n > 1 {
                s.append(name);
            } else {
                assert(list@[i as int].1 == 1);
                let len = name.unicode_len();
                s.append(name.substring_char(0, len - 1));
                assert(name@.subrange(0, len - 1) =~= name@.drop_last());
            }
            assert(s@ =~= plural_spec(n as nat, name@));
            let ghost before = items@;
            items.push(s);
            assert(string_views(items@) =~= string_views(before).push(s@));
        }
        assert(time_items(ev.subrange(0, i + 1)) == (if n > 0 {
            time_items(ev.subrange(0, i as int)).push(plural_spec(n as nat, name@))
        } else {
            time_items(ev.subrange(0, i as int))
        }));
        i += 1;
    }
    assert(ev.subrange(0, i as int) =~= ev);
    let ghost its = string_views(items@);
    let len = items.len();
    if len > 1 {
        if len > 2 {
            let mut j: usize = 0;
            while j < len - 2
                invariant
                    len == items@.len(),
                    its.len() == len,
                    len > 2,
                    j <= len - 2,
                    forall|k: int|
                        0 <= k < len ==> #[trigger] items@[k]@ == (if k < j {
                            its[k] + seq![',']
                        } else {
                            its[k]
                        }),
                decreases len - 2 - j,
            {
                let mut e = items[j].clone();
                push_char(&mut e, ',');
                items.set(j, e);
                j += 1;
            }
        }
        let ghost mid = string_views(items@);
        assert(mid =~= Seq::new(
            len as nat,
            |i: int|
                if len > 2 && i < len - 2 {
                    its[i] + seq![',']
                } else {
                    its[i]
                },
        ));
        let and = String::from_str("and");
        proof {
            reveal_strlit("and");
            assert(and@ =~= seq!['a', 'n', 'd']);
        }
        items.insert(len - 1, and);
        assert(string_views(items@) =~= mid.insert(len - 1, and@));
        assert(string_views(items@) =~= prose_words(its));
    } else {
        assert(string_views(items@) =~= prose_words(its));
    }
    proof {
        reveal_strlit(" ");
        assert(" "@ =~= seq![' ']);
    }
    join_with(items.as_slice(), " ")
}


/// A count of seconds as `hh:mm:ss`, or `mm:ss` when under an hour.
pub open spec fn timestamp_spec(secs: nat) -> Seq<char> {
    let hours = secs / 3600;
    let minutes = (secs / 60) % 60;
    let seconds = secs % 60;
    if hours > 0 {
        pad2(hours) + seq![':'] + pad2(minutes) + seq![':'] + pad2(seconds)
    } else {
        pad2(minutes) + seq![':'] + pad2(seconds)
    }
}

/// A count of seconds as days, hours, minutes and seconds in prose, leaving out the
/// units with a count of zero ("1 day, 2 hours and 3 seconds").
pub open spec fn readable_time_spec(secs: nat) -> Seq<char> {
    time_map_spec(
        seq![
            (seq!['d', 'a', 'y', 's'], (secs / 86400) as u64),
            (seq!['h', 'o', 'u', 'r', 's'], ((secs % 86400) / 3600) as u64),
            (seq!['m', 'i', 'n', 'u', 't', 'e', 's'], ((secs % 3600) / 60) as u64),
            (seq!['s', 'e', 'c', 'o', 'n', 'd', 's'], (secs % 60) as u64),
        ],
    )
}

/// Durations, in seconds, written for people.
pub trait Timestamp {
    /// The text that `as_timestamp` gives.
    spec fn timestamp_text(&self) -> Seq<char>;

    /// The text that `as_readable_time` gives.
    spec fn readable_text(&self) -> Seq<char>;

    /// The duration as `hh:mm:ss`, or `mm:ss` when under an hour.
    fn as_timestamp(&self) -> (r: String)
        ensures
            r@ == self.timestamp_text(),
    ;

    /// The duration in days, hours, minutes and seconds, in prose.
    fn as_readable_time(&self) -> (r: String)
        ensures
            r@ == self.readable_text(),
    ;
}

/// A count of seconds.
impl Timestamp for u64 {
    open spec fn timestamp_text(&self) -> Seq<char> {
        timestamp_spec(*self as nat)
    }

    open spec fn readable_text(&self) -> Seq<char> {
        readable_time_spec(*self as nat)
    }

    fn as_timestamp(&self) -> (r: String) {
        let time = *self;
        let hours = time / 3600;
        let minutes = (time / 60) % 60;
        let seconds = time % 60;
        let mut s = String::new();
        if hours > 0 {
            push_pad2(&mut s, hours);
            push_char(&mut s, ':');
        }
        push_pad2(&mut s, minutes);
        push_char(&mut s, ':');
        push_pad2(&mut s, seconds);
        assert(s@ =~= timestamp_spec(time as nat));
        s
    }

    fn as_readable_time(&self) -> (r: String) {
        let secs = *self;
        let days = secs / 86400;
        let hours = (secs % 86400) / 3600;
        let minutes = (secs % 3600) / 60;
        let seconds = secs % 60;
        let list = [("days", days), ("hours", hours), ("minutes", minutes), ("seconds", seconds)];
        proof {
            reveal_strlit("days");
            reveal_strlit("hours");
            reveal_strlit("minutes");
            reveal_strlit("seconds");
            assert("days"@ =~= seq!['d', 'a', 'y', 's']);
            assert("hours"@ =~= seq!['h', 'o', 'u', 'r', 's']);
            assert("minutes"@ =~= seq!['m', 'i', 'n', 'u', 't', 'e', 's']);
            assert("seconds"@ =~= seq!['s', 'e', 'c', 'o', 'n', 'd', 's']);
            assert(list@[0] == ("days", days));
            assert(list@[1] == ("hours", hours));
            assert(list@[2] == ("minutes", minutes));
            assert(list@[3] == ("seconds", seconds));
            assert(entry_views(list@) =~= seq![
                (seq!['d', 'a', 'y', 's'], days),
                (seq!['h', 'o', 'u', 'r', 's'], hours),
                (seq!['m', 'i', 'n', 'u', 't', 'e', 's'], minutes),
                (seq!['s', 'e', 'c', 'o', 'n', 'd', 's'], seconds),
            ]);
        }
        format_time_map(&list)
    }
}

/// The milliseconds that `secs` seconds and `nanos` nanoseconds make.
pub open spec fn millis_spec(secs: nat, nanos: nat) -> nat {
    secs * 1000 + nanos / 1_000_000
}

/// The milliseconds that `secs` seconds and `nanos` nanoseconds make, if they fit.
pub fn to_millis(secs: u64, nanos: u32) -> (r: Option<u64>)
    ensures
        match r {
            Some(ms) => ms == millis_spec(secs as nat, nanos as nat),
            None => millis_spec(secs as nat, nanos as nat) > u64::MAX,
        },
{
    if secs > (u64::MAX - (nanos as u64) / 1_000_000) / 1000 {
        assert(secs * 1000 + (nanos as u64) / 1_000_000 > u64::MAX) by (nonlinear_arith)
            requires
                secs > (u64::MAX - (nanos as u64) / 1_000_000) / 1000,
        ;
        return None;
    }
    assert(secs * 1000 + (nanos as u64) / 1_000_000 <= u64::MAX) by (nonlinear_arith)
        requires
            secs <= (u64::MAX - (nanos as u64) / 1_000_000) / 1000,
    ;
    Some(secs * 1000 + (nanos as u64) / 1_000_000)
}

/// The time since the Unix epoch as whole seconds and the nanoseconds past them, or
/// `None` when the system clock is set before the epoch (`SystemTime::duration_since`).
#[verifier::external_body]
pub(crate) fn unix_time() -> (r: Option<(u64, u32)>)
    ensures
        r matches Some(t) ==> t.1 < 1_000_000_000,
{
    match std::time::SystemTime::now().duration_since(std::time::UNIX_EPOCH) {
        Ok(d) => Some((d.as_secs(), d.subsec_nanos())),
        Err(_) => None,
    }
}

/// The current time in milliseconds since the Unix epoch; 0 when the system clock is
/// set before the epoch or the count does not fit.
pub fn get_timestamp() -> (r: u64)
    ensures
        r == 0 || exists|secs: nat, nanos: nat| nanos < 1_000_000_000 && r == millis_spec(secs, nanos),
{
    match unix_time() {
        Some((secs, nanos)) => match to_millis(secs, nanos) {
            Some(ms) => {
                assert(ms == millis_spec(secs as nat, nanos as nat));
                ms
            },
            None => 0,
        },
        None => 0,
    }
}


/// `s` without its `,` characters.
pub open spec fn drop_commas(s: Seq<char>) -> Seq<char>
    decreases s.len(),
{
    if s.len() == 0 {
        s
    } else if s.last() == ',' {
        drop_commas(s.drop_last())
    } else {
        drop_commas(s.drop_last()).push(s.last())
    }
}

proof fn lemma_drop_commas_concat(a: Seq<char>, b: Seq<char>)
    ensures
        drop_commas(a + b) == drop_commas(a) + drop_commas(b),
    decreases b.len(),
{
    if b.len() == 0 {
        assert(a + b =~= a);
        assert(drop_commas(a) + drop_commas(b) =~= drop_commas(a));
    } else {
        assert((a + b).drop_last() =~= a + b.drop_last());
        lemma_drop_commas_concat(a, b.drop_last());
        if b.last() != ',' {
            assert(drop_commas(a) + drop_commas(b.drop_last()).push(b.last()) =~= (drop_commas(a)
                + drop_commas(b.drop_last())).push(b.last()));
        }
    }
}

proof fn lemma_drop_commas_none(s: Seq<char>)
    requires
        forall|i: int| 0 <= i < s.len() ==> s[i] != ',',
    ensures
        drop_commas(s) == s,
    decreases s.len(),
{
    if s.len() > 0 {
        lemma_drop_commas_none(s.drop_last());
        assert(s.drop_last().push(s.last()) =~= s);
    }
}

proof fn lemma_decimal_digits(n: nat)
    ensures
        forall|i: int| 0 <= i < decimal(n).len() ==> decimal(n)[i] != ',',
        decimal(n).len() > 0,
    decreases n,
{
    if n >= 10 {
        lemma_decimal_digits(n / 10);
    }
}

proof fn lemma_pad3_digits(r: nat)
    requires
        r < 1000,
    ensures
        pad3(r) == seq![digit_char(r / 100), digit_char((r / 10) % 10), digit_char(r % 10)],
{
    assert(digit_char(0) == '0') by {
        assert('0' as int == 48);
    }
    if r < 10 {
        assert(r / 100 == 0 && (r / 10) % 10 == 0 && r % 10 == r);
        assert(pad3(r) =~= seq![digit_char(r / 100), digit_char((r / 10) % 10), digit_char(r % 10)]);
    } else if r < 100 {
        assert(r / 100 == 0 && (r / 10) % 10 == r / 10 && r / 10 < 10);
        assert(decimal(r) == decimal(r / 10).push(digit_char(r % 10)));
        assert(decimal(r / 10) == seq![digit_char(r / 10)]);
        assert(pad3(r) =~= seq![digit_char(r / 100), digit_char((r / 10) % 10), digit_char(r % 10)]);
    } else {
        assert((r / 10) / 10 == r / 100 && r / 100 < 10 && r / 10 >= 10);
        assert(decimal(r) == decimal(r / 10).push(digit_char(r % 10)));
        assert(decimal(r / 10) == decimal(r / 100).push(digit_char((r / 10) % 10)));
        assert(decimal(r / 100) == seq![digit_char(r / 100)]);
        assert(pad3(r) =~= seq![digit_char(r / 100), digit_char((r / 10) % 10), digit_char(r % 10)]);
    }
}

proof fn lemma_decimal_split(q: nat, r: nat)
    requires
        q >= 1,
        r < 1000,
    ensures
        decimal(q * 1000 + r) == decimal(q) + pad3(r),
{
    let n = q * 1000 + r;
    let m1 = n / 10;
    let m2 = m1 / 10;
    assert(m1 == q * 100 + r / 10 && n % 10 == r % 10) by (nonlinear_arith)
        requires
            n == q * 1000 + r,
            m1 == n / 10,
            r < 1000,
    ;
    assert(m2 == q * 10 + r / 100 && m1 % 10 == (r / 10) % 10) by (nonlinear_arith)
        requires
            m1 == q * 100 + r / 10,
            m2 == m1 / 10,
            r < 1000,
    ;
    assert(m2 / 10 == q && m2 % 10 == r / 100) by (nonlinear_arith)
        requires
            m2 == q * 10 + r / 100,
            r < 1000,
    ;
    assert(n >= 1000 && m1 >= 100 && m2 >= 10) by (nonlinear_arith)
        requires
            q >= 1,
            n == q * 1000 + r,
            m1 == q * 100 + r / 10,
            m2 == q * 10 + r / 100,
    ;
    assert(decimal(n) == decimal(m1).push(digit_char(r % 10)));
    assert(decimal(m1) == decimal(m2).push(digit_char((r / 10) % 10)));
    assert(decimal(m2) == decimal(q).push(digit_char(r / 100)));
    lemma_pad3_digits(r);
    assert(decimal(n) =~= decimal(q) + pad3(r));
}

/// The separators only group the digits: without its commas, `n` with thousands
/// separators is `n` in decimal.
pub proof fn law_commas_keep_digits(n: nat)
    ensures
        drop_commas(commas(n)) == decimal(n),
    decreases n,
{
    if n < 1000 {
        lemma_decimal_digits(n);
        lemma_drop_commas_none(decimal(n));
    } else {
        let q = n / 1000;
        let r = n % 1000;
        law_commas_keep_digits(q);
        lemma_drop_commas_concat(commas(q) + seq![','], pad3(r));
        lemma_drop_commas_concat(commas(q), seq![',']);
        assert(drop_commas(seq![',']) =~= Seq::<char>::empty()) by {
            let c = seq![','];
            assert(c.last() == ',');
            assert(c.drop_last() =~= Seq::<char>::empty());
            assert(drop_commas(c) == drop_commas(c.drop_last()));
        }
        lemma_decimal_digits(r);
        assert forall|i: int| 0 <= i < pad3(r).len() implies pad3(r)[i] != ',' by {
            if r < 10 {
                assert(pad3(r) == seq!['0', '0'] + decimal(r));
            } else if r < 100 {
                assert(pad3(r) == seq!['0'] + decimal(r));
            }
        }
        lemma_drop_commas_none(pad3(r));
        assert(n == q * 1000 + r);
        assert(q >= 1);
        lemma_decimal_split(q, r);
        assert(drop_commas(commas(q)) + Seq::<char>::empty() =~= drop_commas(commas(q)));
    }
}
} // verus!
