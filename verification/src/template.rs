//! Text templates with `${name}` placeholders, filled in by name. Positions are byte
//! offsets into the template's UTF-8 encoding.

use crate::text::{
    chars_of, decimal, split_terminator, split_terminator_spec, trim, trim_spec, u64_to_string, views,
};
use core::ops::Range;
use vstd::prelude::*;
use vstd::string::StringSliceAdditionalSpecFns;
use vstd::utf8::{
    encode_utf8, is_char_boundary, is_char_boundary_iff_not_is_continuation_byte,
    length_of_first_scalar, pop_first_scalar, valid_utf8, valid_utf8_split,
};

verus! {

broadcast use vstd::utf8::encode_utf8_valid_utf8;

/// A parsed template: its text and its placeholders, in order of appearance.
#[derive(Debug)]
pub struct Template<'a> {
    data: &'a str,
    map: Vec<(&'a str, Range<usize>)>,
}

/// Why a template could not be parsed or filled in.
#[derive(Debug, PartialEq)]
pub enum TemplateError<'a> {
    /// A `${` at this byte offset is never closed.
    Unbalanced(usize),
    /// The placeholder named first was filled with the value named second.
    Unexpected(&'a str, &'a str),
    /// The number of values given, and the number of placeholders.
    Mismatch(usize, usize),
    /// No template has this name.
    Missing(&'a str),
}

/// A placeholder: the UTF-8 bytes of its name, and the byte range of `${name}`.
pub struct Hole {
    pub name: Seq<u8>,
    pub start: int,
    pub end: int,
}

/// What a template holds: the UTF-8 bytes of its text and its placeholders.
pub struct TemplateView {
    pub data: Seq<u8>,
    pub holes: Seq<Hole>,
}

/// The placeholder of a parsed entry.
pub open spec fn hole_of(e: (&str, Range<usize>)) -> Hole {
    Hole { name: e.0.spec_bytes(), start: e.1.start as int, end: e.1.end as int }
}

impl<'a> View for Template<'a> {
    type V = TemplateView;

    closed spec fn view(&self) -> TemplateView {
        TemplateView {
            data: self.data.spec_bytes(),
            holes: self.map@.map_values(|e: (&'a str, Range<usize>)| hole_of(e)),
        }
    }
}

/// The byte `$`.
pub open spec fn dollar() -> u8 {
    0x24
}

/// The byte `{`.
pub open spec fn open_brace() -> u8 {
    0x7B
}

/// The byte `}`.
pub open spec fn close_brace() -> u8 {
    0x7D
}

/// Scanning `b` from byte `i`, with a placeholder open at `start` (if any) and the
/// closed placeholders `parts`: a `}` closes the open placeholder, and a `$` followed by
/// `{` opens one (replacing any placeholder still open). Gives the placeholder still
/// open at the end, and the closed ones as byte ranges including `${` and `}`.
pub open spec fn scan(b: Seq<u8>, i: int, start: Option<int>, parts: Seq<(int, int)>) -> (
    Option<int>,
    Seq<(int, int)>,
)
    decreases b.len() - i,
{
    if i < 0 || i >= b.len() {
        (start, parts)
    } else {
        let closes = start is Some && b[i] == close_brace();
        let parts1 = if closes {
            parts.push((start->0, i + 1))
        } else {
            parts
        };
        let start1 = if closes {
            None
        } else {
            start
        };
        let start2 = if b[i] == dollar() && i + 1 < b.len() && b[i + 1] == open_brace() {
            Some(i)
        } else {
            start1
        };
        scan(b, i + 1, start2, parts1)
    }
}

/// The placeholder still open after scanning `b`.
pub open spec fn unclosed(b: Seq<u8>) -> Option<int> {
    scan(b, 0, None, seq![]).0
}

/// The placeholders of `b`, in order: the name between `${` and `}` and the range.
pub open spec fn holes_spec(b: Seq<u8>) -> Seq<Hole> {
    scan(b, 0, None, seq![]).1.map_values(
        |p: (int, int)| Hole { name: b.subrange(p.0 + 2, p.1 - 1), start: p.0, end: p.1 },
    )
}

/// A closed placeholder's range: `{` after its start, `}` at its end.
pub open spec fn part_ok(b: Seq<u8>, p: (int, int)) -> bool {
    &&& 0 <= p.0
    &&& p.0 + 2 <= p.1 - 1
    &&& p.1 <= b.len()
    &&& b[p.0 + 1] == open_brace()
    &&& b[p.1 - 1] == close_brace()
}

/// In valid UTF-8, the byte after a one-byte character starts a character.
pub proof fn lemma_after_ascii(bytes: Seq<u8>, k: int)
    requires
        valid_utf8(bytes),
        0 <= k < bytes.len(),
        bytes[k] < 0x80,
        is_char_boundary(bytes, k),
    ensures
        is_char_boundary(bytes, k + 1),
    decreases bytes.len(),
{
    reveal_with_fuel(is_char_boundary, 2);
    if k > 0 {
        let l = length_of_first_scalar(bytes);
        let t = pop_first_scalar(bytes);
        assert(t =~= bytes.subrange(l, bytes.len() as int));
        assert(t[k - l] == bytes[k]);
        lemma_after_ascii(t, k - l);
    }
}

/// A placeholder's name starts and ends on character boundaries.
pub proof fn lemma_name_boundaries(b: Seq<u8>, p: (int, int))
    requires
        valid_utf8(b),
        part_ok(b, p),
    ensures
        is_char_boundary(b, p.0 + 2),
        is_char_boundary(b, p.1 - 1),
{
    is_char_boundary_iff_not_is_continuation_byte(b, p.0 + 1);
    lemma_after_ascii(b, p.0 + 1);
    is_char_boundary_iff_not_is_continuation_byte(b, p.1 - 1);
}

/// The name of a placeholder, as a slice of `input`.
fn name_slice<'a>(input: &'a str, s: usize, e: usize) -> (r: &'a str)
    requires
        part_ok(input.spec_bytes(), (s as int, e as int)),
    ensures
        r.spec_bytes() == input.spec_bytes().subrange(s + 2, e - 1),
{
    let ghost b = input.spec_bytes();
    proof {
        lemma_name_boundaries(b, (s as int, e as int));
    }
    let (_, rest) = input.split_at(s + 2);
    let ghost rb = rest.spec_bytes();
    proof {
        assert(rb =~= b.subrange(s + 2, b.len() as int));
        assert(rb[e - 1 - (s + 2)] == close_brace());
        is_char_boundary_iff_not_is_continuation_byte(rb, e - 1 - (s + 2));
    }
    let (name, _) = rest.split_at(e - 1 - (s + 2));
    assert(name.spec_bytes() =~= b.subrange(s + 2, e - 1));
    name
}

/// The byte range that placeholder `h` covers once the text before it has shifted by
/// `off` bytes towards the start.
pub open spec fn shifted(h: Hole, off: Option<int>) -> (int, int) {
    match off {
        Some(o) => (h.start - o, h.end - o),
        None => (h.start, h.end),
    }
}

/// The difference in length between a value and the placeholder it replaces.
pub open spec fn len_diff(h: Hole, value: Seq<u8>) -> int {
    let a = value.len() as int;
    let b = h.end - h.start;
    if a > b {
        a - b
    } else {
        b - a
    }
}

/// The shift after replacing `h` with `value`: the differences in length so far, added up
/// regardless of sign.
pub open spec fn next_off(off: Option<int>, h: Hole, value: Seq<u8>) -> int {
    match off {
        Some(o) => o + len_diff(h, value),
        None => len_diff(h, value),
    }
}

/// Replacing `h` with `value` in `buf` can be done: its shifted range lies in `buf` on
/// character boundaries, and the new shift fits in a `usize`.
pub open spec fn fill_step_ok(buf: Seq<u8>, off: Option<int>, h: Hole, value: Seq<u8>) -> bool {
    let (s, e) = shifted(h, off);
    &&& 0 <= s <= e <= buf.len()
    &&& valid_utf8(buf)
    &&& is_char_boundary(buf, s)
    &&& is_char_boundary(buf, e)
    &&& next_off(off, h, value) <= usize::MAX
}

/// `buf` and the shift after replacing `h` with `value`.
pub open spec fn fill_step(buf: Seq<u8>, off: Option<int>, h: Hole, value: Seq<u8>) -> (
    Seq<u8>,
    Option<int>,
) {
    let (s, e) = shifted(h, off);
    (buf.subrange(0, s) + value + buf.subrange(e, buf.len() as int), Some(next_off(off, h, value)))
}

/// The text's bytes and the shift after filling the first `i` placeholders in order.
pub open spec fn fill_state(data: Seq<u8>, holes: Seq<Hole>, values: Seq<Seq<u8>>, i: int) -> (
    Seq<u8>,
    Option<int>,
)
    decreases i,
{
    if i <= 0 {
        (data, None)
    } else {
        let (b, o) = fill_state(data, holes, values, i - 1);
        fill_step(b, o, holes[i - 1], values[i - 1])
    }
}

/// The index of the first placeholder, from `i` on, whose name is not the key given for it
/// (or the number of placeholders).
pub open spec fn first_unexpected(holes: Seq<Hole>, keys: Seq<Seq<u8>>, i: int) -> int
    decreases holes.len() - i,
{
    if i < 0 || i >= holes.len() {
        holes.len() as int
    } else if holes[i].name != keys[i] {
        i
    } else {
        first_unexpected(holes, keys, i + 1)
    }
}

pub proof fn lemma_first_unexpected_bounds(holes: Seq<Hole>, keys: Seq<Seq<u8>>, i: int)
    requires
        0 <= i <= holes.len(),
    ensures
        i <= first_unexpected(holes, keys, i) <= holes.len(),
    decreases holes.len() - i,
{
    if i < holes.len() && holes[i].name == keys[i] {
        lemma_first_unexpected_bounds(holes, keys, i + 1);
    }
}

/// The UTF-8 bytes of the keys given.
pub open spec fn key_bytes<'b>(parts: Seq<(&'b str, String)>) -> Seq<Seq<u8>> {
    parts.map_values(|p: (&'b str, String)| p.0.spec_bytes())
}

/// The UTF-8 bytes of the values given.
pub open spec fn value_bytes<'b>(parts: Seq<(&'b str, String)>) -> Seq<Seq<u8>> {
    parts.map_values(|p: (&'b str, String)| encode_utf8(p.1@))
}

/// Filling in the placeholders before the first unexpected key can be done.
pub open spec fn fill_ok<'b>(t: TemplateView, parts: Seq<(&'b str, String)>) -> bool {
    let k = first_unexpected(t.holes, key_bytes(parts), 0);
    forall|i: int|
        0 <= i < k ==> fill_step_ok(
            #[trigger] fill_state(t.data, t.holes, value_bytes(parts), i).0,
            fill_state(t.data, t.holes, value_bytes(parts), i).1,
            t.holes[i],
            value_bytes(parts)[i],
        )
}

/// `s` with the bytes `start..end` replaced by `with` (`String::replace_range`).
#[verifier::external_body]
fn replace_range(s: &mut String, start: usize, end: usize, with: &str)
    requires
        start <= end <= encode_utf8(old(s)@).len(),
        is_char_boundary(encode_utf8(old(s)@), start as int),
        is_char_boundary(encode_utf8(old(s)@), end as int),
    ensures
        encode_utf8(final(s)@) == encode_utf8(old(s)@).subrange(0, start as int) + with.spec_bytes()
            + encode_utf8(old(s)@).subrange(end as int, encode_utf8(old(s)@).len() as int),
{
    s.replace_range(start..end, with)
}

/// Whether `a` and `b` have the same UTF-8 bytes.
pub fn bytes_eq(a: &str, b: &str) -> (r: bool)
    ensures
        r == (a.spec_bytes() == b.spec_bytes()),
{
    let x = a.as_bytes();
    let y = b.as_bytes();
    if x.len() != y.len() {
        return false;
    }
    let mut i: usize = 0;
    while i < x.len()
        invariant
            x@ == a.spec_bytes(),
            y@ == b.spec_bytes(),
            x@.len() == y@.len(),
            i <= x@.len(),
            forall|k: int| 0 <= k < i ==> x@[k] == y@[k],
        decreases x@.len() - i,
    {
        if x[i] != y[i] {
            return false;
        }
        i += 1;
    }
    assert(x@ =~= y@);
    true
}

/// The message for a template error.
pub open spec fn error_text(e: TemplateError) -> Seq<char> {
    match e {
        TemplateError::Unbalanced(start) => "unbalanced bracket starting at: "@ + decimal(
            start as nat,
        ),
        TemplateError::Unexpected(expected, got) => "expected "@ + expected@ + ", got: "@ + got@,
        TemplateError::Mismatch(parts, holes) => "mismatch counts expected: "@ + decimal(
            holes as nat,
        ) + ", got: "@ + decimal(parts as nat),
        TemplateError::Missing(key) => "template '"@ + key@ + "' is missing"@,
    }
}

impl<'a> TemplateError<'a> {
    /// The message for the error.
    pub fn to_text(&self) -> (r: String)
        ensures
            r@ == error_text(*self),
    {
        match self {
            TemplateError::Unbalanced(start) => {
                let mut s = String::from_str("unbalanced bracket starting at: ");
                let n = u64_to_string(*start as u64);
                s.append(n.as_str());
                s
            },
            TemplateError::Unexpected(expected, got) => {
                let mut s = String::from_str("expected ");
                s.append(expected);
                s.append(", got: ");
                s.append(got);
                s
            },
            TemplateError::Mismatch(parts, holes) => {
                let mut s = String::from_str("mismatch counts expected: ");
                let h = u64_to_string(*holes as u64);
                s.append(h.as_str());
                s.append(", got: ");
                let p = u64_to_string(*parts as u64);
                s.append(p.as_str());
                s
            },
            TemplateError::Missing(key) => {
                let mut s = String::from_str("template '");
                s.append(key);
                s.append("' is missing");
                s
            },
        }
    }
}

impl<'a> Template<'a> {
    /// The placeholders of `input`; an error at the offset of a `${` that is never closed.
    pub fn parse(input: &'a str) -> (r: Result<Self, TemplateError<'a>>)
        ensures
            match r {
                Ok(t) => unclosed(input.spec_bytes()) is None && t@ == (TemplateView {
                    data: input.spec_bytes(),
                    holes: holes_spec(input.spec_bytes()),
                }),
                Err(e) => unclosed(input.spec_bytes()) matches Some(st) && e
                    == TemplateError::Unbalanced(st as usize),
            },
    {
        let b = input.as_bytes();
        let ghost bs = input.spec_bytes();
        let mut parts: Vec<(usize, usize)> = Vec::new();
        let mut start: Option<usize> = None;
        let mut i: usize = 0;
        assert(parts@.map_values(|p: (usize, usize)| (p.0 as int, p.1 as int)) =~= seq![]);
        while i < b.len()
            invariant
                b@ == bs,
                bs == input.spec_bytes(),
                i <= b@.len(),
                scan(bs, 0, None, seq![]) == scan(
                    bs,
                    i as int,
                    match start {
                        Some(s) => Some(s as int),
                        None => None,
                    },
                    parts@.map_values(|p: (usize, usize)| (p.0 as int, p.1 as int)),
                ),
                forall|k: int|
                    0 <= k < parts@.len() ==> part_ok(
                        bs,
                        (#[trigger] parts@[k].0 as int, parts@[k].1 as int),
                    ),
                start matches Some(st) ==> st + 1 < bs.len() && bs[st + 1] == open_brace() && (
                st + 1 == i || st + 2 <= i),
            decreases b@.len() - i,
        {
            let c = b[i];
            let ghost old_parts = parts@;
            let closes = start.is_some() && c == 0x7D;
            if closes {
                let st = start.unwrap();
                parts.push((st, i + 1));
                start = None;
                assert(parts@.map_values(|p: (usize, usize)| (p.0 as int, p.1 as int))
                    =~= old_parts.map_values(|p: (usize, usize)| (p.0 as int, p.1 as int)).push(
                    (st as int, i + 1),
                ));
            }
            if c == 0x24 && i + 1 < b.len() && b[i + 1] == 0x7B {
                start = Some(i);
            }
            i += 1;
        }
        if let Some(st) = start {
            return Err(TemplateError::Unbalanced(st));
        }
        let mut map: Vec<(&'a str, Range<usize>)> = Vec::new();
        let mut j: usize = 0;
        let ghost pv = parts@.map_values(|p: (usize, usize)| (p.0 as int, p.1 as int));
        while j < parts.len()
            invariant
                bs == input.spec_bytes(),
                pv == parts@.map_values(|p: (usize, usize)| (p.0 as int, p.1 as int)),
                forall|k: int|
                    0 <= k < parts@.len() ==> part_ok(
                        bs,
                        (#[trigger] parts@[k].0 as int, parts@[k].1 as int),
                    ),
                j <= parts@.len(),
                map@.len() == j,
                forall|k: int|
                    0 <= k < j ==> #[trigger] hole_of(map@[k]) == (Hole {
                        name: bs.subrange(pv[k].0 + 2, pv[k].1 - 1),
                        start: pv[k].0,
                        end: pv[k].1,
                    }),
            decreases parts@.len() - j,
        {
            let (s, e) = parts[j];
            assert(part_ok(bs, (parts@[j as int].0 as int, parts@[j as int].1 as int)));
            let name = name_slice(input, s, e);
            map.push((name, Range { start: s, end: e }));
            j += 1;
        }
        let t = Template { data: input, map };
        assert(t@.holes =~= holes_spec(bs));
        Ok(t)
    }

    /// The text with each placeholder replaced, in order, by the value given for it. The
    /// keys must name the placeholders in order. A placeholder's range is shifted
    /// towards the start by the differences in length of the replacements before it,
    /// added up regardless of sign.
    pub fn apply(self, parts: &[(&'a str, String)]) -> (r: Result<String, TemplateError<'a>>)
        requires
            parts@.len() == self@.holes.len() ==> fill_ok(self@, parts@),
        ensures
            ({
                let t = self@;
                let k = first_unexpected(t.holes, key_bytes(parts@), 0);
                if parts@.len() != t.holes.len() {
                    r == Err::<String, TemplateError<'a>>(
                        TemplateError::Mismatch(parts@.len() as usize, t.holes.len() as usize),
                    )
                } else if k < t.holes.len() {
                    r matches Err(TemplateError::Unexpected(b, key)) && b.spec_bytes()
                        == t.holes[k].name && key == parts@[k].0
                } else {
                    r matches Ok(s) && encode_utf8(s@) == fill_state(
                        t.data,
                        t.holes,
                        value_bytes(parts@),
                        t.holes.len() as int,
                    ).0
                }
            }),
    {
        let ghost t = self@;
        let ghost keys = key_bytes(parts@);
        let ghost vals = value_bytes(parts@);
        if parts.len() != self.map.len() {
            return Err(TemplateError::Mismatch(parts.len(), self.map.len()));
        }
        let mut buf = String::from_str(self.data);
        let mut off: Option<usize> = None;
        let mut i: usize = 0;
        while i < parts.len()
            invariant
                t == self@,
                keys == key_bytes(parts@),
                vals == value_bytes(parts@),
                parts@.len() == t.holes.len(),
                self.map@.len() == t.holes.len(),
                fill_ok(t, parts@),
                i <= parts@.len(),
                first_unexpected(t.holes, keys, 0) == first_unexpected(t.holes, keys, i as int),
                encode_utf8(buf@) == fill_state(t.data, t.holes, vals, i as int).0,
                fill_state(t.data, t.holes, vals, i as int).1 == match off {
                    Some(o) => Some(o as int),
                    None => None,
                },
            decreases parts@.len() - i,
        {
            let (binding, range) = &self.map[i];
            let (key, repr) = &parts[i];
            assert(t.holes[i as int] == hole_of(self.map@[i as int]));
            if !bytes_eq(binding, key) {
                return Err(TemplateError::Unexpected(binding, key));
            }
            assert(keys[i as int] == key.spec_bytes());
            assert(t.holes[i as int].name == binding.spec_bytes());
            assert(first_unexpected(t.holes, keys, i as int) == first_unexpected(
                t.holes,
                keys,
                i + 1,
            ));
            proof {
                lemma_first_unexpected_bounds(t.holes, keys, i + 1);
            }
            assert(fill_step_ok(
                fill_state(t.data, t.holes, vals, i as int).0,
                fill_state(t.data, t.holes, vals, i as int).1,
                t.holes[i as int],
                vals[i as int],
            ));
            let (s2, e2) = match off {
                Some(o) => (range.start - o, range.end - o),
                None => (range.start, range.end),
            };
            let rs = repr.as_str();
            let a = rs.as_bytes().len();
            assert(a == encode_utf8(repr@).len());
            let b = e2 - s2;
            let diff = if a > b {
                a - b
            } else {
                b - a
            };
            assert(vals[i as int] == encode_utf8(repr@));
            assert(rs.spec_bytes() == encode_utf8(repr@));
            replace_range(&mut buf, s2, e2, rs);
            off = Some(
                match off {
                    Some(o) => o + diff,
                    None => diff,
                },
            );
            i += 1;
        }
        Ok(buf)
    }

    /// The template's text.
    pub fn inner(&self) -> (r: &str)
        ensures
            r.spec_bytes() == self@.data,
    {
        self.data
    }
}


/// Closed placeholder ranges in order, apart, and before `bound`; an open one starts
/// after all of them.
pub open spec fn parts_ordered(parts: Seq<(int, int)>, bound: int, start: Option<int>) -> bool {
    &&& forall|k: int| 0 <= k < parts.len() ==> 0 <= (#[trigger] parts[k]).0 < parts[k].1 <= bound
    &&& forall|k: int, j: int|
        0 <= k < j < parts.len() ==> (#[trigger] parts[k]).1 <= (#[trigger] parts[j]).0
    &&& start matches Some(st) ==> 0 <= st < bound && (parts.len() > 0 ==> parts.last().1 <= st)
}

proof fn lemma_scan_ordered(b: Seq<u8>, i: int, start: Option<int>, parts: Seq<(int, int)>)
    requires
        0 <= i <= b.len(),
        parts_ordered(parts, i, start),
    ensures
        parts_ordered(scan(b, i, start, parts).1, b.len() as int, scan(b, i, start, parts).0),
    decreases b.len() - i,
{
    if i < b.len() {
        let closes = start is Some && b[i] == close_brace();
        let parts1 = if closes {
            parts.push((start->0, i + 1))
        } else {
            parts
        };
        let start1 = if closes {
            None
        } else {
            start
        };
        let start2 = if b[i] == dollar() && i + 1 < b.len() && b[i + 1] == open_brace() {
            Some(i)
        } else {
            start1
        };
        if closes {
            assert forall|k: int, j: int| 0 <= k < j < parts1.len() implies (
            #[trigger] parts1[k]).1 <= (#[trigger] parts1[j]).0 by {
                if j == parts.len() {
                    if k < parts.len() - 1 {
                        assert(parts[k].1 <= parts[parts.len() - 1].0);
                    }
                }
            }
        }
        assert(parts_ordered(parts1, i + 1, start2));
        lemma_scan_ordered(b, i + 1, start2, parts1);
    }
}

/// The placeholders are in order, apart, and inside the text.
pub open spec fn holes_ordered(holes: Seq<Hole>, len: int) -> bool {
    &&& forall|k: int| 0 <= k < holes.len() ==> 0 <= (#[trigger] holes[k]).start < holes[k].end <= len
    &&& forall|k: int, j: int|
        0 <= k < j < holes.len() ==> (#[trigger] holes[k]).end <= (#[trigger] holes[j]).start
}

/// The placeholders a parse finds are in order, apart, and inside the text.
pub proof fn lemma_holes_ordered(b: Seq<u8>)
    ensures
        holes_ordered(holes_spec(b), b.len() as int),
{
    lemma_scan_ordered(b, 0, None, seq![]);
    let parts = scan(b, 0, None, seq![]).1;
    let h = holes_spec(b);
    assert forall|k: int| 0 <= k < h.len() implies 0 <= (#[trigger] h[k]).start < h[k].end
        <= b.len() by {
        assert(h[k].start == parts[k].0 && h[k].end == parts[k].1);
    }
    assert forall|k: int, j: int| 0 <= k < j < h.len() implies (#[trigger] h[k]).end <= (
    #[trigger] h[j]).start by {
        assert(h[k].end == parts[k].1 && h[j].start == parts[j].0);
    }
}

/// Where the text after the first `i` placeholders starts.
pub open spec fn prev_end(holes: Seq<Hole>, i: int) -> int {
    if i <= 0 {
        0
    } else {
        holes[i - 1].end
    }
}

/// The text up to the end of placeholder `i - 1` with the first `i` placeholders
/// replaced by their values.
pub open spec fn glue(data: Seq<u8>, holes: Seq<Hole>, values: Seq<Seq<u8>>, i: int) -> Seq<u8>
    decreases i,
{
    if i <= 0 {
        seq![]
    } else {
        glue(data, holes, values, i - 1) + data.subrange(prev_end(holes, i - 1), holes[i - 1].start)
            + values[i - 1]
    }
}

/// The text with every placeholder replaced by its value.
pub open spec fn substituted(data: Seq<u8>, holes: Seq<Hole>, values: Seq<Seq<u8>>) -> Seq<u8> {
    glue(data, holes, values, holes.len() as int) + data.subrange(
        prev_end(holes, holes.len() as int),
        data.len() as int,
    )
}

/// How much shorter the first `i` values are than their placeholders, together.
pub open spec fn shrink(holes: Seq<Hole>, values: Seq<Seq<u8>>, i: int) -> int
    decreases i,
{
    if i <= 0 {
        0
    } else {
        shrink(holes, values, i - 1) + (holes[i - 1].end - holes[i - 1].start)
            - values[i - 1].len()
    }
}

/// The step that fills placeholder `i` after the first `i` were filled correctly.
proof fn lemma_fill_step(data: Seq<u8>, holes: Seq<Hole>, values: Seq<Seq<u8>>, i: int)
    requires
        0 <= i < holes.len(),
        holes_ordered(holes, data.len() as int),
        glue(data, holes, values, i).len() == prev_end(holes, i) - shrink(holes, values, i),
        fill_state(data, holes, values, i).0 == glue(data, holes, values, i) + data.subrange(
            prev_end(holes, i),
            data.len() as int,
        ),
        fill_state(data, holes, values, i).1 == (if i == 0 {
            None
        } else {
            Some(shrink(holes, values, i))
        }),
    ensures
        fill_state(data, holes, values, i + 1).0 == glue(data, holes, values, i + 1)
            + data.subrange(prev_end(holes, i + 1), data.len() as int),
        glue(data, holes, values, i + 1).len() == prev_end(holes, i + 1) - shrink(holes, values, i + 1),
{
    let g = glue(data, holes, values, i);
    let e = prev_end(holes, i);
    let h = holes[i];
    let buf = fill_state(data, holes, values, i).0;
    let off = fill_state(data, holes, values, i).1;
    let sh = shrink(holes, values, i);
    assert(e <= h.start) by {
        if i > 0 {
            assert(holes[i - 1].end <= holes[i].start);
        }
    }
    let (st, en) = shifted(h, off);
    assert(st == h.start - sh && en == h.end - sh);
    let tail = data.subrange(e, data.len() as int);
    assert(buf.subrange(0, st) =~= g + data.subrange(e, h.start));
    assert(buf.subrange(en, buf.len() as int) =~= data.subrange(h.end, data.len() as int));
    assert(fill_state(data, holes, values, i + 1).0 =~= glue(data, holes, values, i + 1)
        + data.subrange(prev_end(holes, i + 1), data.len() as int));
}

proof fn lemma_fill_prefix(data: Seq<u8>, holes: Seq<Hole>, values: Seq<Seq<u8>>, i: int)
    requires
        0 <= i <= holes.len(),
        holes_ordered(holes, data.len() as int),
        forall|k: int| 0 <= k < i ==> (#[trigger] values[k]).len() <= holes[k].end - holes[k].start,
    ensures
        glue(data, holes, values, i).len() == prev_end(holes, i) - shrink(holes, values, i),
        fill_state(data, holes, values, i).0 == glue(data, holes, values, i) + data.subrange(
            prev_end(holes, i),
            data.len() as int,
        ),
        fill_state(data, holes, values, i).1 == (if i == 0 {
            None
        } else {
            Some(shrink(holes, values, i))
        }),
    decreases i,
{
    if i == 0 {
        assert(data.subrange(0, data.len() as int) =~= data);
        assert(glue(data, holes, values, 0) + data =~= data);
    } else {
        lemma_fill_prefix(data, holes, values, i - 1);
        lemma_fill_step(data, holes, values, i - 1);
        let h = holes[i - 1];
        let v = values[i - 1];
        assert(v.len() <= h.end - h.start);
        assert(len_diff(h, v) == (h.end - h.start) - v.len());
    }
}

/// Filling in a template whose values, but for the last, are no longer than their
/// placeholders gives the text with each placeholder replaced by its value. (A longer
/// value before the last shifts the later placeholders the wrong way: the fill adds up
/// the differences in length regardless of sign.)
pub proof fn law_fill_substitutes(data: Seq<u8>, values: Seq<Seq<u8>>)
    requires
        values.len() == holes_spec(data).len(),
        forall|k: int|
            0 <= k < values.len() - 1 ==> (#[trigger] values[k]).len() <= holes_spec(data)[k].end
                - holes_spec(data)[k].start,
    ensures
        fill_state(data, holes_spec(data), values, values.len() as int).0 == substituted(
            data,
            holes_spec(data),
            values,
        ),
{
    let holes = holes_spec(data);
    lemma_holes_ordered(data);
    let n = holes.len() as int;
    if n == 0 {
        lemma_fill_prefix(data, holes, values, 0);
    } else {
        lemma_fill_prefix(data, holes, values, n - 1);
        lemma_fill_step(data, holes, values, n - 1);
    }
}

/// The named templates, held in a `hashbrown::HashMap`.
#[verifier::external_body]
pub struct TemplateMap {
    map: hashbrown::HashMap<String, String>,
}

/// The templates a map holds, by name.
pub uninterp spec fn template_entries(m: TemplateMap) -> Map<Seq<char>, Seq<char>>;

/// No templates.
pub open spec fn no_templates() -> Map<Seq<char>, Seq<char>> {
    Map::empty()
}

/// An empty map (`hashbrown::HashMap::new`).
#[verifier::external_body]
fn templates_new() -> (r: TemplateMap)
    ensures
        template_entries(r) == no_templates(),
{
    TemplateMap { map: hashbrown::HashMap::new() }
}

/// Sets the template `k` to `v` (`hashbrown::HashMap::insert`).
#[verifier::external_body]
fn templates_insert(m: &mut TemplateMap, k: String, v: String)
    ensures
        template_entries(*final(m)) == template_entries(*old(m)).insert(k@, v@),
{
    m.map.insert(k, v);
}

/// The template named `k` (`hashbrown::HashMap::get`).
#[verifier::external_body]
fn templates_get<'a>(m: &'a TemplateMap, k: &str) -> (r: Option<&'a str>)
    ensures
        match r {
            Some(v) => template_entries(*m).contains_key(k@) && template_entries(*m)[k@] == v@,
            None => !template_entries(*m).contains_key(k@),
        },
{
    m.map.get(k).map(|v| v.as_str())
}

/// Every template, each once, in the map's order (`hashbrown::HashMap::iter`).
#[verifier::external_body]
fn templates_entries(m: &TemplateMap) -> (r: Vec<(String, String)>)
    ensures
        r@.len() == template_entries(*m).len(),
        forall|i: int|
            0 <= i < r@.len() ==> template_entries(*m).contains_key(#[trigger] r@[i].0@)
                && template_entries(*m)[r@[i].0@] == r@[i].1@,
        forall|i: int, j: int| 0 <= i < j < r@.len() ==> #[trigger] r@[i].0@ != #[trigger] r@[j].0@,
{
    m.map.iter().map(|(k, v)| (k.clone(), v.clone())).collect()
}

/// The lines of a text as `str::lines` gives them: split at `\n`, a `\r` before the
/// `\n` removed, no line after a final `\n`.
pub open spec fn lines_spec(s: Seq<char>) -> Seq<Seq<char>> {
    let p = split_terminator_spec(s, '\n');
    Seq::new(
        p.len(),
        |i: int|
            if (i < p.len() - 1 || (s.len() > 0 && s.last() == '\n')) && p[i].len() > 0
                && p[i].last() == '\r' {
                p[i].drop_last()
            } else {
                p[i]
            },
    )
}

/// Where the first `=>` in `s` at or after `from` starts, or the length.
pub open spec fn arrow_at(s: Seq<char>, from: int) -> int
    decreases s.len() - from,
{
    if from < 0 || from + 1 >= s.len() {
        s.len() as int
    } else if s[from] == '=' && s[from + 1] == '>' {
        from
    } else {
        arrow_at(s, from + 1)
    }
}

/// A `=>` starts at `k`.
pub open spec fn is_arrow(s: Seq<char>, k: int) -> bool {
    0 <= k && k + 1 < s.len() && s[k] == '=' && s[k + 1] == '>'
}

/// `s` without the `"` characters at both ends.
pub open spec fn unquote(s: Seq<char>) -> Seq<char>
    decreases s.len(),
{
    if s.len() > 0 && s[0] == '"' {
        unquote(s.drop_first())
    } else if s.len() > 0 && s.last() == '"' {
        unquote(s.drop_last())
    } else {
        s
    }
}

/// The name and template that a line `name => template` gives (each trimmed, then
/// without quotes at its ends); `None` without a `=>`.
pub open spec fn response_line(line: Seq<char>) -> Option<(Seq<char>, Seq<char>)> {
    let a = arrow_at(line, 0);
    if a >= line.len() {
        None
    } else {
        let b = arrow_at(line, a + 2);
        Some(
            (
                unquote(trim_spec(line.subrange(0, a))),
                unquote(trim_spec(line.subrange(a + 2, b))),
            ),
        )
    }
}

/// The templates that the lines give, later lines winning.
pub open spec fn responses_spec(lines: Seq<Seq<char>>) -> Map<Seq<char>, Seq<char>>
    decreases lines.len(),
{
    if lines.len() == 0 {
        Map::empty()
    } else {
        let m = responses_spec(lines.drop_last());
        match response_line(lines.last()) {
            Some((k, v)) => m.insert(k, v),
            None => m,
        }
    }
}

proof fn lemma_arrow_at(s: Seq<char>, from: int, i: int)
    requires
        0 <= from <= i <= s.len(),
        forall|k: int| from <= k < i ==> !#[trigger] is_arrow(s, k),
        i + 1 >= s.len() || is_arrow(s, i),
    ensures
        arrow_at(s, from) == (if i + 1 >= s.len() {
            s.len() as int
        } else {
            i
        }),
    decreases i - from,
{
    if from < i {
        if from + 1 < s.len() {
            assert(!is_arrow(s, from));
        }
        lemma_arrow_at(s, from + 1, i);
    }
}

fn find_arrow(v: &Vec<char>, from: usize) -> (r: usize)
    requires
        from <= v@.len(),
    ensures
        r == arrow_at(v@, from as int),
        from <= r <= v@.len(),
        r < v@.len() ==> is_arrow(v@, r as int),
{
    let mut i = from;
    while i < v.len() && i + 1 < v.len() && !(v[i] == '=' && v[i + 1] == '>')
        invariant
            from <= i <= v@.len(),
            forall|k: int| from <= k < i ==> !#[trigger] is_arrow(v@, k),
        decreases v@.len() - i,
    {
        i += 1;
    }
    proof {
        lemma_arrow_at(v@, from as int, i as int);
    }
    if i >= v.len() || i + 1 >= v.len() {
        v.len()
    } else {
        i
    }
}

fn unquoted(v: &Vec<char>, start: usize, end: usize) -> (r: String)
    requires
        start <= end <= v@.len(),
    ensures
        r@ == unquote(trim_spec(v@.subrange(start as int, end as int))),
{
    let mut buf: Vec<char> = Vec::new();
    let mut k = start;
    while k < end
        invariant
            start <= k <= end <= v@.len(),
            buf@ == v@.subrange(start as int, k as int),
        decreases end - k,
    {
        buf.push(v[k]);
        k += 1;
        assert(buf@ =~= v@.subrange(start as int, k as int));
    }
    let whole = crate::text::string_from_chars(&buf);
    let t = chars_of(trim(whole.as_str()));
    let mut a: usize = 0;
    let mut b: usize = t.len();
    assert(t@.subrange(0, t@.len() as int) =~= t@);
    while a < b && t[a] == '"'
        invariant
            a <= b <= t@.len(),
            unquote(t@) == unquote(t@.subrange(a as int, b as int)),
            b == t@.len(),
        decreases b - a,
    {
        let ghost sub = t@.subrange(a as int, b as int);
        assert(sub.drop_first() =~= t@.subrange(a + 1, b as int));
        a += 1;
    }
    while a < b && t[b - 1] == '"'
        invariant
            a <= b <= t@.len(),
            unquote(t@) == unquote(t@.subrange(a as int, b as int)),
            a < b ==> t@[a as int] != '"',
        decreases b - a,
    {
        let ghost sub = t@.subrange(a as int, b as int);
        assert(sub.drop_last() =~= t@.subrange(a as int, b - 1));
        assert(sub[0] == t@[a as int]);
        b -= 1;
    }
    let ghost sub = t@.subrange(a as int, b as int);
    assert(unquote(sub) == sub) by {
        if sub.len() > 0 {
            assert(sub[0] == t@[a as int]);
            assert(sub.last() == t@[b - 1]);
        }
    }
    let mut out: Vec<char> = Vec::new();
    let mut k = a;
    while k < b
        invariant
            a <= k <= b <= t@.len(),
            out@ == t@.subrange(a as int, k as int),
        decreases b - k,
    {
        out.push(t[k]);
        k += 1;
        assert(out@ =~= t@.subrange(a as int, k as int));
    }
    crate::text::string_from_chars(&out)
}

/// The named response templates.
pub struct ResponseFinder {
    map: TemplateMap,
}

impl ResponseFinder {
    /// The templates, by name.
    pub closed spec fn templates(&self) -> Map<Seq<char>, Seq<char>> {
        template_entries(self.map)
    }

    /// The templates that `text` lists, one `name => template` per line (later lines
    /// win; lines without `=>` are skipped).
    pub fn from_text(text: &str) -> (r: Self)
        ensures
            r.templates() == responses_spec(lines_spec(text@)),
    {
        let pieces = split_terminator(text, '\n');
        let ends_nl = text.unicode_len() > 0 && text.get_char(text.unicode_len() - 1) == '\n';
        let ghost p = split_terminator_spec(text@, '\n');
        let ghost lines = lines_spec(text@);
        let mut map = templates_new();
        let mut i: usize = 0;
        assert(lines.subrange(0, 0) =~= Seq::<Seq<char>>::empty());
        while i < pieces.len()
            invariant
                i <= pieces@.len(),
                views(pieces@) == p,
                p == split_terminator_spec(text@, '\n'),
                lines == lines_spec(text@),
                ends_nl == (text@.len() > 0 && text@.last() == '\n'),
                template_entries(map) == responses_spec(lines.subrange(0, i as int)),
            decreases pieces@.len() - i,
        {
            let v0 = chars_of(pieces[i]);
            assert(v0@ == p[i as int]);
            let strip = (i + 1 < pieces.len() || ends_nl) && v0.len() > 0 && v0[v0.len() - 1]
                == '\r';
            let n = if strip {
                v0.len() - 1
            } else {
                v0.len()
            };
            let mut v: Vec<char> = Vec::new();
            let mut k: usize = 0;
            while k < n
                invariant
                    k <= n <= v0@.len(),
                    v@ == v0@.subrange(0, k as int),
                decreases n - k,
            {
                v.push(v0[k]);
                k += 1;
                assert(v@ =~= v0@.subrange(0, k as int));
            }
            assert(v@ =~= lines[i as int]);
            let ghost sub = lines.subrange(0, i + 1);
            assert(sub.drop_last() =~= lines.subrange(0, i as int));
            assert(sub.last() == v@);
            let a = find_arrow(&v, 0);
            if a < v.len() {
                let b = find_arrow(&v, a + 2);
                let key = unquoted(&v, 0, a);
                let value = unquoted(&v, a + 2, b);
                templates_insert(&mut map, key, value);
            }
            i += 1;
        }
        assert(lines.subrange(0, i as int) =~= lines);
        ResponseFinder { map }
    }

    /// Sets the template `k` to `v`.
    pub fn insert(&mut self, k: String, v: String)
        ensures
            final(self).templates() == old(self).templates().insert(k@, v@),
    {
        templates_insert(&mut self.map, k, v);
    }

    /// The template named `k`, parsed; `Missing` when there is none.
    pub fn get<'a>(&'a self, k: &'a str) -> (r: Result<Template<'a>, TemplateError<'a>>)
        ensures
            !self.templates().contains_key(k@) ==> r == Err::<Template<'a>, TemplateError<'a>>(
                TemplateError::Missing(k),
            ),
            self.templates().contains_key(k@) ==> match r {
                Ok(t) => unclosed(encode_utf8(self.templates()[k@])) is None && t@ == (
                TemplateView {
                    data: encode_utf8(self.templates()[k@]),
                    holes: holes_spec(encode_utf8(self.templates()[k@])),
                }),
                Err(e) => unclosed(encode_utf8(self.templates()[k@])) matches Some(st) && e
                    == TemplateError::Unbalanced(st as usize),
            },
    {
        match templates_get(&self.map, k) {
            Some(v) => Template::parse(v),
            None => Err(TemplateError::Missing(k)),
        }
    }

    /// Every template with its name, each once, in no particular order.
    pub fn entries(&self) -> (r: Vec<(String, String)>)
        ensures
            r@.len() == self.templates().len(),
            forall|i: int|
                0 <= i < r@.len() ==> self.templates().contains_key(#[trigger] r@[i].0@)
                    && self.templates()[r@[i].0@] == r@[i].1@,
            forall|i: int, j: int| 0 <= i < j < r@.len() ==> #[trigger] r@[i].0@ != #[trigger] r@[j].0@,
    {
        templates_entries(&self.map)
    }
}
} // verus!
