//! The tags that Twitch attaches to a chat message (`key=value;key=value`), and the
//! emotes ("kappas") that the `emotes` tag lists.

use crate::color::{parse_rgb, white, RGB};
use crate::text::{
    chars_of, next_char, parse_u16, parse_unsigned, parse_usize, split_terminator,
    split_terminator_spec, views,
};
use core::ops::Range;
use vstd::hash_map::StringHashMap;
use vstd::prelude::*;

verus! {

/// The tags of a message, by name.
pub struct Tags(StringHashMap<String>);

impl View for Tags {
    type V = Map<Seq<char>, Seq<char>>;

    closed spec fn view(&self) -> Map<Seq<char>, Seq<char>> {
        self.0@.map_values(|v: String| v@)
    }
}

/// The tags that the pieces `key=value` name; a piece without `=` names none, and a
/// later piece overrides an earlier one with the same key.
pub open spec fn tag_pairs_map(pieces: Seq<Seq<char>>) -> Map<Seq<char>, Seq<char>>
    decreases pieces.len(),
{
    if pieces.len() == 0 {
        Map::empty()
    } else {
        let m = tag_pairs_map(pieces.drop_last());
        let p = pieces.last();
        let k = next_char(p, '=', 0);
        if k < p.len() {
            m.insert(p.subrange(0, k), p.subrange(k + 1, p.len() as int))
        } else {
            m
        }
    }
}

/// The tags that `input` (`key=value;key=value...`) names.
pub open spec fn tags_spec(input: Seq<char>) -> Map<Seq<char>, Seq<char>> {
    tag_pairs_map(split_terminator_spec(input, ';'))
}

/// The value of tag `key` in `m`, if it has one.
pub open spec fn tag_value(m: Map<Seq<char>, Seq<char>>, key: Seq<char>) -> Option<Seq<char>> {
    if m.contains_key(key) {
        Some(m[key])
    } else {
        None
    }
}

/// The key that a piece `key=value` names (before its first `=`), or `None` without `=`.
pub open spec fn piece_key(p: Seq<char>) -> Option<Seq<char>> {
    let k = next_char(p, '=', 0);
    if k < p.len() {
        Some(p.subrange(0, k))
    } else {
        None
    }
}

/// The value that a piece `key=value` names (after its first `=`).
pub open spec fn piece_value(p: Seq<char>) -> Seq<char> {
    p.subrange(next_char(p, '=', 0) + 1, p.len() as int)
}

proof fn lemma_last_piece_wins(pieces: Seq<Seq<char>>, key: Seq<char>, j: int)
    requires
        0 <= j < pieces.len(),
        piece_key(pieces[j]) == Some(key),
        forall|i: int| j < i < pieces.len() ==> piece_key(#[trigger] pieces[i]) != Some(key),
    ensures
        tag_value(tag_pairs_map(pieces), key) == Some(piece_value(pieces[j])),
    decreases pieces.len(),
{
    if j < pieces.len() - 1 {
        let prev = pieces.drop_last();
        assert forall|i: int| j < i < prev.len() implies piece_key(#[trigger] prev[i]) != Some(key) by {
            assert(prev[i] == pieces[i]);
        }
        assert(prev[j] == pieces[j]);
        lemma_last_piece_wins(prev, key, j);
        assert(piece_key(pieces[pieces.len() - 1]) != Some(key));
    }
}

proof fn lemma_no_piece(pieces: Seq<Seq<char>>, key: Seq<char>)
    requires
        forall|i: int| 0 <= i < pieces.len() ==> piece_key(#[trigger] pieces[i]) != Some(key),
    ensures
        tag_value(tag_pairs_map(pieces), key) is None,
    decreases pieces.len(),
{
    if pieces.len() > 0 {
        let prev = pieces.drop_last();
        assert forall|i: int| 0 <= i < prev.len() implies piece_key(#[trigger] prev[i]) != Some(key) by {
            assert(prev[i] == pieces[i]);
        }
        lemma_no_piece(prev, key);
        assert(piece_key(pieces[pieces.len() - 1]) != Some(key));
    }
}

/// Each `;`-separated piece `key=value` of the input gives its key that value, a later
/// piece with the same key winning; a key that no piece names has no value.
pub proof fn law_tags_last_piece_wins(input: Seq<char>, key: Seq<char>)
    ensures
        ({
            let pieces = split_terminator_spec(input, ';');
            &&& forall|j: int|
                0 <= j < pieces.len() && piece_key(pieces[j]) == Some(key) && (forall|i: int|
                    j < i < pieces.len() ==> piece_key(#[trigger] pieces[i]) != Some(key))
                    ==> tag_value(tags_spec(input), key) == Some(piece_value(#[trigger] pieces[j]))
            &&& (forall|i: int| 0 <= i < pieces.len() ==> piece_key(#[trigger] pieces[i]) != Some(key))
                ==> tag_value(tags_spec(input), key) is None
        }),
{
    let pieces = split_terminator_spec(input, ';');
    assert forall|j: int|
        0 <= j < pieces.len() && piece_key(pieces[j]) == Some(key) && (forall|i: int|
            j < i < pieces.len() ==> piece_key(#[trigger] pieces[i]) != Some(key))
        implies tag_value(tags_spec(input), key) == Some(piece_value(#[trigger] pieces[j])) by {
        lemma_last_piece_wins(pieces, key, j);
    }
    if forall|i: int| 0 <= i < pieces.len() ==> piece_key(#[trigger] pieces[i]) != Some(key) {
        lemma_no_piece(pieces, key);
    }
}

/// The view of an optional string slice.
pub open spec fn opt_view(o: Option<&str>) -> Option<Seq<char>> {
    match o {
        Some(s) => Some(s@),
        None => None,
    }
}

/// The index of the first `c` in `s` (or its length).
pub fn find_char(s: &str, c: char) -> (k: usize)
    ensures
        k == next_char(s@, c, 0),
        k <= s@.len(),
{
    let v = chars_of(s);
    let mut k: usize = 0;
    while k < v.len() && v[k] != c
        invariant
            v@ == s@,
            k <= v@.len(),
            forall|j: int| 0 <= j < k ==> #[trigger] v@[j] != c,
        decreases v@.len() - k,
    {
        k += 1;
    }
    proof {
        crate::text::lemma_next_char(s@, c, 0, k as int);
    }
    k
}

impl Tags {
    /// The tags that `input` names.
    pub fn new(input: &str) -> (r: Self)
        ensures
            r@ == tags_spec(input@),
    {
        let pieces = split_terminator(input, ';');
        let ghost ps = views(pieces@);
        let mut map: StringHashMap<String> = StringHashMap::new();
        let mut i: usize = 0;
        while i < pieces.len()
            invariant
                ps == views(pieces@),
                ps == split_terminator_spec(input@, ';'),
                i <= pieces@.len(),
                map@.map_values(|v: String| v@) =~= tag_pairs_map(ps.subrange(0, i as int)),
            decreases pieces@.len() - i,
        {
            let part = pieces[i];
            let k = find_char(part, '=');
            let ghost before = map@;
            assert(ps.subrange(0, i + 1).drop_last() =~= ps.subrange(0, i as int));
            assert(ps.subrange(0, i + 1).last() == part@);
            if k < part.unicode_len() {
                let n = part.unicode_len();
                let key = String::from_str(part.substring_char(0, k));
                let val = String::from_str(part.substring_char(k + 1, n));
                map.insert(key, val);
                assert(map@.map_values(|v: String| v@) =~= before.map_values(|v: String| v@).insert(
                    part@.subrange(0, k as int),
                    part@.subrange(k + 1, n as int),
                ));
            }
            i += 1;
        }
        assert(ps.subrange(0, i as int) =~= ps);
        Tags(map)
    }

    /// The value of tag `s`.
    pub fn get<'a>(&'a self, s: &str) -> (r: Option<&'a str>)
        ensures
            opt_view(r) == tag_value(self@, s@),
    {
        match self.0.get(s) {
            Some(v) => Some(v.as_str()),
            None => None,
        }
    }

    /// The `display-name` tag.
    pub fn get_display<'a>(&'a self) -> (r: Option<&'a str>)
        ensures
            opt_view(r) == tag_value(self@, "display-name"@),
    {
        self.get("display-name")
    }

    /// The `user-id` tag.
    pub fn get_userid<'a>(&'a self) -> (r: Option<&'a str>)
        ensures
            opt_view(r) == tag_value(self@, "user-id"@),
    {
        self.get("user-id")
    }

    /// The color that the `color` tag writes, or white when there is no such tag.
    pub fn get_color(&self) -> (r: Option<RGB>)
        ensures
            r == Some(
                match tag_value(self@, "color"@) {
                    Some(c) => parse_rgb(c),
                    None => white(),
                },
            ),
    {
        match self.get("color") {
            Some(s) => Some(RGB::from_str(s)),
            None => Some(RGB::from_rgb(255, 255, 255)),
        }
    }

    /// The emotes that the `emotes` tag lists, when it is there and not empty.
    pub fn get_kappas(&self) -> (r: Option<Vec<Kappa>>)
        requires
            tag_value(self@, "emotes"@) matches Some(e) ==> kappa_input_ok(e),
        ensures
            match tag_value(self@, "emotes"@) {
                Some(e) => if e.len() > 0 {
                    r matches Some(v) && kappa_views(v@) == kappas_spec(e)
                } else {
                    r is None
                },
                None => r is None,
            },
    {
        match self.get("emotes") {
            Some(e) => {
                if e.unicode_len() > 0 {
                    Some(Kappa::new(e))
                } else {
                    None
                }
            },
            None => None,
        }
    }
}

/// An emote: its id and the character ranges of the message that show it.
#[derive(PartialEq, Debug, Clone)]
pub struct Kappa {
    pub ranges: Vec<Range<u16>>,
    pub id: usize,
}

/// What a `Kappa` holds: its id and its ranges as `(start, end)` pairs.
pub struct KappaView {
    pub id: usize,
    pub ranges: Seq<(u16, u16)>,
}

/// The `(start, end)` pairs of a sequence of ranges.
pub open spec fn range_views(v: Seq<Range<u16>>) -> Seq<(u16, u16)> {
    v.map_values(|r: Range<u16>| (r.start, r.end))
}

impl View for Kappa {
    type V = KappaView;

    open spec fn view(&self) -> KappaView {
        KappaView { id: self.id, ranges: range_views(self.ranges@) }
    }
}

/// The views of a sequence of emotes.
pub open spec fn kappa_views(v: Seq<Kappa>) -> Seq<KappaView> {
    v.map_values(|k: Kappa| k@)
}

/// The first two pieces, if there are two.
pub open spec fn first_two(p: Seq<Seq<char>>) -> Option<(Seq<char>, Seq<char>)> {
    if p.len() >= 2 {
        Some((p[0], p[1]))
    } else {
        None
    }
}

/// The range that `start-end` writes.
pub open spec fn parse_range_spec(s: Seq<char>) -> Option<(u16, u16)> {
    match first_two(split_terminator_spec(s, '-')) {
        Some((a, b)) => match (parse_unsigned(a, 65535), parse_unsigned(b, 65535)) {
            (Some(x), Some(y)) => Some((x as u16, y as u16)),
            _ => None,
        },
        None => None,
    }
}

/// Every piece writes a range.
pub open spec fn ranges_ok(p: Seq<Seq<char>>) -> bool {
    forall|i: int| 0 <= i < p.len() ==> (#[trigger] parse_range_spec(p[i])) is Some
}

/// The ranges that `tail` (`start-end,start-end...`) writes, if every piece writes one.
pub open spec fn parse_ranges_spec(tail: Seq<char>) -> Option<Seq<(u16, u16)>> {
    let p = split_terminator_spec(tail, ',');
    if ranges_ok(p) {
        Some(p.map_values(|x: Seq<char>| parse_range_spec(x)->0))
    } else {
        None
    }
}

/// The emote that `id:ranges` writes, if its ranges are well formed.
pub open spec fn emote_spec(e: Seq<char>) -> Option<KappaView> {
    match first_two(split_terminator_spec(e, ':')) {
        Some((h, t)) => match parse_ranges_spec(t) {
            Some(r) => Some(
                KappaView {
                    id: match parse_unsigned(h, usize::MAX as nat) {
                        Some(n) => n as usize,
                        None => 0,
                    },
                    ranges: r,
                },
            ),
            None => None,
        },
        None => None,
    }
}

/// An emote whose ranges are well formed has an id that is a number.
pub open spec fn emote_id_ok(e: Seq<char>) -> bool {
    match first_two(split_terminator_spec(e, ':')) {
        Some((h, t)) => parse_ranges_spec(t) is Some ==> parse_unsigned(h, usize::MAX as nat) is Some,
        None => true,
    }
}

/// The emotes that the pieces write, in order, skipping the malformed ones.
pub open spec fn kappa_list(es: Seq<Seq<char>>) -> Seq<KappaView>
    decreases es.len(),
{
    if es.len() == 0 {
        seq![]
    } else {
        let rest = kappa_list(es.drop_last());
        match emote_spec(es.last()) {
            Some(k) => rest.push(k),
            None => rest,
        }
    }
}

/// The emotes that an `emotes` tag (`id:ranges/id:ranges...`) lists.
pub open spec fn kappas_spec(s: Seq<char>) -> Seq<KappaView> {
    kappa_list(split_terminator_spec(s, '/'))
}

/// Every emote in `s` with well-formed ranges has a numeric id.
pub open spec fn kappa_input_ok(s: Seq<char>) -> bool {
    let es = split_terminator_spec(s, '/');
    forall|i: int| 0 <= i < es.len() ==> emote_id_ok(#[trigger] es[i])
}

/// The range that `start-end` writes.
fn parse_range(s: &str) -> (r: Option<Range<u16>>)
    ensures
        match r {
            Some(x) => parse_range_spec(s@) == Some((x.start, x.end)),
            None => parse_range_spec(s@) is None,
        },
{
    let p = split_terminator(s, '-');
    if p.len() < 2 {
        return None;
    }
    let a = parse_u16(p[0]);
    let b = parse_u16(p[1]);
    match (a, b) {
        (Some(x), Some(y)) => Some(Range { start: x, end: y }),
        _ => None,
    }
}

/// The ranges that `tail` writes.
fn get_ranges(tail: &str) -> (r: Option<Vec<Range<u16>>>)
    ensures
        match r {
            Some(v) => parse_ranges_spec(tail@) == Some(range_views(v@)),
            None => parse_ranges_spec(tail@) is None,
        },
{
    let p = split_terminator(tail, ',');
    let ghost ps = views(p@);
    let mut out: Vec<Range<u16>> = Vec::new();
    let mut i: usize = 0;
    while i < p.len()
        invariant
            ps == views(p@),
            ps == split_terminator_spec(tail@, ','),
            i <= p@.len(),
            out@.len() == i,
            forall|k: int| 0 <= k < i ==> parse_range_spec(#[trigger] ps[k]) == Some(
                (out@[k].start, out@[k].end),
            ),
        decreases p@.len() - i,
    {
        match parse_range(p[i]) {
            Some(x) => out.push(x),
            None => {
                assert(parse_range_spec(ps[i as int]) is None);
                assert(!ranges_ok(ps));
                return None;
            },
        }
        i += 1;
    }
    assert(ranges_ok(ps));
    assert(range_views(out@) =~= ps.map_values(|x: Seq<char>| parse_range_spec(x)->0));
    Some(out)
}

impl Kappa {
    /// The emotes that an `emotes` tag lists, in order; a piece that is not `id:ranges`
    /// with well-formed ranges is skipped.
    pub fn new(s: &str) -> (r: Vec<Self>)
        requires
            kappa_input_ok(s@),
        ensures
            kappa_views(r@) == kappas_spec(s@),
    {
        let es = split_terminator(s, '/');
        let ghost ev = views(es@);
        let mut kappas: Vec<Kappa> = Vec::new();
        let mut i: usize = 0;
        while i < es.len()
            invariant
                ev == views(es@),
                ev == split_terminator_spec(s@, '/'),
                kappa_input_ok(s@),
                i <= es@.len(),
                kappa_views(kappas@) == kappa_list(ev.subrange(0, i as int)),
            decreases es@.len() - i,
        {
            let e = es[i];
            assert(ev.subrange(0, i + 1).drop_last() =~= ev.subrange(0, i as int));
            assert(ev.subrange(0, i + 1).last() == e@);
            assert(emote_id_ok(ev[i as int]));
            let parts = split_terminator(e, ':');
            let ghost before = kappas@;
            if parts.len() >= 2 {
                let head = parts[0];
                let tail = parts[1];
                match get_ranges(tail) {
                    Some(ranges) => {
                        let id = match parse_usize(head) {
                            Some(n) => n,
                            None => 0,
                        };
                        kappas.push(Kappa { id, ranges });
                        assert(kappa_views(kappas@) =~= kappa_views(before).push(
                            emote_spec(e@)->0,
                        ));
                    },
                    None => {},
                }
            }
            i += 1;
        }
        assert(ev.subrange(0, i as int) =~= ev);
        kappas
    }
}

} // verus!
