//! The GFA line grammar: one record per line, tab- or space-delimited
//! fields, with integer segment names and `+`/`-` orientation markers.

use vstd::prelude::*;
use crate::flat::{LineKind, Orientation};

verus! {

/// Field delimiter: tab or space.
pub open spec fn is_delim(b: u8) -> bool {
    b == 9u8 || b == 32u8
}

/// A decimal digit byte.
pub open spec fn is_digit(b: u8) -> bool {
    48u8 <= b && b <= 57u8
}

/// The index just past the field that starts at `i`: the first delimiter
/// at or after `i`, or the end of the line.
pub open spec fn field_end(s: Seq<u8>, i: int) -> int
    decreases s.len() - i when 0 <= i <= s.len()
{
    if i >= s.len() {
        s.len() as int
    } else if is_delim(s[i]) {
        i
    } else {
        field_end(s, i + 1)
    }
}

pub proof fn lemma_field_end_bounds(s: Seq<u8>, i: int)
    requires
        0 <= i <= s.len(),
    ensures
        i <= field_end(s, i) <= s.len(),
        field_end(s, i) < s.len() ==> is_delim(s[field_end(s, i)]),
    decreases s.len() - i,
{
    if i < s.len() && !is_delim(s[i]) {
        lemma_field_end_bounds(s, i + 1);
    }
}

/// The index of the first comma at or after `i`, or the end.
pub open spec fn comma_end(s: Seq<u8>, i: int) -> int
    decreases s.len() - i when 0 <= i <= s.len()
{
    if i >= s.len() {
        s.len() as int
    } else if s[i] == 44u8 {
        i
    } else {
        comma_end(s, i + 1)
    }
}

pub proof fn lemma_comma_end_bounds(s: Seq<u8>, i: int)
    requires
        0 <= i <= s.len(),
    ensures
        i <= comma_end(s, i) <= s.len(),
    decreases s.len() - i,
{
    if i < s.len() && s[i] != 44u8 {
        lemma_comma_end_bounds(s, i + 1);
    }
}

/// Whether every byte of `s` is a decimal digit.
pub open spec fn all_digits(s: Seq<u8>) -> bool {
    forall|i: int| 0 <= i < s.len() ==> is_digit(#[trigger] s[i])
}

/// The value of `s` read as a decimal numeral.
pub open spec fn dec_val(s: Seq<u8>) -> int
    decreases s.len(),
{
    if s.len() == 0 {
        0
    } else {
        dec_val(s.drop_last()) * 10 + (s.last() - 48)
    }
}

pub proof fn lemma_dec_val_nonneg(s: Seq<u8>)
    requires
        all_digits(s),
    ensures
        dec_val(s) >= 0,
    decreases s.len(),
{
    if s.len() > 0 {
        assert(all_digits(s.drop_last()));
        lemma_dec_val_nonneg(s.drop_last());
    }
}

/// A numeral is at least as large as any of its prefixes.
pub proof fn lemma_dec_val_prefix(s: Seq<u8>, k: int)
    requires
        all_digits(s),
        0 <= k <= s.len(),
    ensures
        dec_val(s.take(k)) <= dec_val(s),
    decreases s.len(),
{
    if k < s.len() {
        assert(all_digits(s.drop_last()));
        assert(s.drop_last().take(k) =~= s.take(k));
        lemma_dec_val_prefix(s.drop_last(), k);
        lemma_dec_val_nonneg(s.drop_last());
    } else {
        assert(s.take(k) =~= s);
    }
}

/// Find the end of the field that starts at `from`.
pub fn find_field_end(s: &[u8], from: usize) -> (e: usize)
    requires
        from <= s@.len(),
    ensures
        e == field_end(s@, from as int),
        from <= e <= s@.len(),
        e < s@.len() ==> is_delim(s@[e as int]),
{
    let n = s.len();
    let mut j = from;
    while j < n
        invariant
            from <= j <= n,
            n == s@.len(),
            field_end(s@, from as int) == field_end(s@, j as int),
        decreases n - j,
    {
        let b = s[j];
        if b == 9 || b == 32 {
            return j;
        }
        j = j + 1;
    }
    j
}

/// Find the first comma at or after `from`.
pub fn find_comma_end(s: &[u8], from: usize) -> (e: usize)
    requires
        from <= s@.len(),
    ensures
        e == comma_end(s@, from as int),
        from <= e <= s@.len(),
        e < s@.len() ==> s@[e as int] == 44u8,
{
    let n = s.len();
    let mut j = from;
    while j < n
        invariant
            from <= j <= n,
            n == s@.len(),
            comma_end(s@, from as int) == comma_end(s@, j as int),
        decreases n - j,
    {
        let b = s[j];
        if b == 44 {
            return j;
        }
        j = j + 1;
    }
    j
}

/// Parse the bytes `s[from..to]` as a decimal numeral.
///
/// Succeeds exactly when the range is nonempty, all digits, and the
/// value fits in `usize`.
pub fn parse_num(s: &[u8], from: usize, to: usize) -> (r: Option<usize>)
    requires
        from <= to <= s@.len(),
    ensures
        r.is_some() <==> (from < to && all_digits(s@.subrange(from as int, to as int)) && dec_val(
            s@.subrange(from as int, to as int),
        ) <= usize::MAX),
        r.is_some() ==> r.unwrap() == dec_val(s@.subrange(from as int, to as int)),
    {
        let ghost sub = s@.subrange(from as int, to as int);
        if from == to {
            return None;
        }
        let mut acc: usize = 0;
        let mut i = from;
        while i < to
            invariant
                from <= i <= to <= s@.len(),
                sub == s@.subrange(from as int, to as int),
                all_digits(sub.take(i - from)),
                acc == dec_val(sub.take(i - from)),
            decreases to - i,
        {
            let b = s[i];
            if b < 48 || b > 57 {
                assert(sub[i - from] == s@[i as int]);
                assert(!all_digits(sub));
                return None;
            }
            let d = (b - 48) as usize;
            proof {
                assert(sub.take(i + 1 - from).drop_last() =~= sub.take(i - from));
                assert(sub.take(i + 1 - from).last() == s@[i as int]);
            }
            let next = match acc.checked_mul(10) {
                Some(m) => m.checked_add(d),
                None => None,
            };
            match next {
                Some(v) => {
                    acc = v;
                }
                None => {
                    proof {
                        if all_digits(sub) {
                            lemma_dec_val_prefix(sub, i + 1 - from);
                            assert(dec_val(sub.take(i + 1 - from)) > usize::MAX);
                        }
                    }
                    return None;
                }
            }
            i = i + 1;
        }
        proof {
            assert(sub.take(to - from) =~= sub);
        }
        Some(acc)
    }

/// Copy the bytes `s[from..to]` out into an owned vector.
pub fn copy_range(s: &[u8], from: usize, to: usize) -> (r: Vec<u8>)
    requires
        from <= to <= s@.len(),
    ensures
        r@ == s@.subrange(from as int, to as int),
{
    vstd::slice::slice_to_vec(vstd::slice::slice_subrange(s, from, to))
}

/// The orientation a `+` (forward) or `-` (backward) marker denotes.
pub open spec fn spec_ori(fwd: bool) -> Orientation {
    if fwd {
        Orientation::Forward
    } else {
        Orientation::Backward
    }
}

/// A nonempty all-digit field starts at `i` and its value fits.
pub open spec fn name_ok_at(s: Seq<u8>, i: int) -> bool {
    let e = field_end(s, i);
    i < e && all_digits(s.subrange(i, e)) && dec_val(s.subrange(i, e)) <= usize::MAX
}

/// The value of the name field that starts at `i`.
pub open spec fn name_at(s: Seq<u8>, i: int) -> int {
    dec_val(s.subrange(i, field_end(s, i)))
}

/// A one-byte `+`/`-` field starts at `i`.
pub open spec fn ori_ok_at(s: Seq<u8>, i: int) -> bool {
    i < s.len() && field_end(s, i) == i + 1 && (s[i] == 43u8 || s[i] == 45u8)
}

/// A header line: `H`, alone or followed by verbatim data.
pub open spec fn header_ok(s: Seq<u8>) -> bool {
    s.len() >= 1 && s[0] == 72u8 && (s.len() == 1 || is_delim(s[1]))
}

/// The verbatim bytes after `H` and its delimiter.
pub open spec fn header_data(s: Seq<u8>) -> Seq<u8> {
    if s.len() >= 2 {
        s.subrange(2, s.len() as int)
    } else {
        Seq::empty()
    }
}

/// A segment line: `S`, an integer name, a nonempty sequence field, and
/// optionally a verbatim tag blob.
pub open spec fn seg_ok(s: Seq<u8>) -> bool {
    &&& s.len() >= 2
    &&& s[0] == 83u8
    &&& is_delim(s[1])
    &&& name_ok_at(s, 2)
    &&& field_end(s, 2) < s.len()
    &&& field_end(s, field_end(s, 2) + 1) > field_end(s, 2) + 1
}

pub open spec fn seg_name(s: Seq<u8>) -> int {
    name_at(s, 2)
}

pub open spec fn seg_seq(s: Seq<u8>) -> Seq<u8> {
    let e1 = field_end(s, 2);
    s.subrange(e1 + 1, field_end(s, e1 + 1))
}

pub open spec fn seg_tags(s: Seq<u8>) -> Seq<u8> {
    let e2 = field_end(s, field_end(s, 2) + 1);
    if e2 < s.len() {
        s.subrange(e2 + 1, s.len() as int)
    } else {
        Seq::empty()
    }
}

/// A link line: `L`, from-name, `+`/`-`, to-name, `+`/`-`, and the
/// overlap descriptor as the verbatim rest of the line.
pub open spec fn link_ok(s: Seq<u8>) -> bool {
    let e1 = field_end(s, 2);
    &&& s.len() >= 2
    &&& s[0] == 76u8
    &&& is_delim(s[1])
    &&& name_ok_at(s, 2)
    &&& e1 < s.len()
    &&& ori_ok_at(s, e1 + 1)
    &&& e1 + 2 < s.len()
    &&& name_ok_at(s, e1 + 3)
    &&& field_end(s, e1 + 3) < s.len()
    &&& ori_ok_at(s, field_end(s, e1 + 3) + 1)
    &&& field_end(s, e1 + 3) + 2 < s.len()
}

pub open spec fn link_from_name(s: Seq<u8>) -> int {
    name_at(s, 2)
}

pub open spec fn link_from_fwd(s: Seq<u8>) -> bool {
    s[field_end(s, 2) + 1] == 43u8
}

pub open spec fn link_to_name(s: Seq<u8>) -> int {
    name_at(s, field_end(s, 2) + 3)
}

pub open spec fn link_to_fwd(s: Seq<u8>) -> bool {
    s[field_end(s, field_end(s, 2) + 3) + 1] == 43u8
}

pub open spec fn link_overlap(s: Seq<u8>) -> Seq<u8> {
    s.subrange(field_end(s, field_end(s, 2) + 3) + 3, s.len() as int)
}

/// A path line: `P`, an integer name, a nonempty step-list field, and
/// optionally a comma-separated overlap field.
pub open spec fn path_ok(s: Seq<u8>) -> bool {
    let e1 = field_end(s, 2);
    &&& s.len() >= 2
    &&& s[0] == 80u8
    &&& is_delim(s[1])
    &&& name_ok_at(s, 2)
    &&& e1 < s.len()
    &&& field_end(s, e1 + 1) > e1 + 1
}

pub open spec fn path_name(s: Seq<u8>) -> int {
    name_at(s, 2)
}

/// The raw bytes of the step-list field.
pub open spec fn path_steps_field(s: Seq<u8>) -> Seq<u8> {
    let e1 = field_end(s, 2);
    s.subrange(e1 + 1, field_end(s, e1 + 1))
}

/// The raw bytes of the overlap field, or empty when it is absent.
pub open spec fn path_overlaps_field(s: Seq<u8>) -> Seq<u8> {
    let e2 = field_end(s, field_end(s, 2) + 1);
    if e2 < s.len() {
        s.subrange(e2 + 1, s.len() as int)
    } else {
        Seq::empty()
    }
}

/// Whether the path line carries an overlap field at all.
pub open spec fn path_has_overlaps(s: Seq<u8>) -> bool {
    field_end(s, field_end(s, 2) + 1) < s.len()
}

/// Split on commas, from position `i` to the end.
pub open spec fn comma_split_from(s: Seq<u8>, i: int) -> Seq<Seq<u8>>
    decreases s.len() - i when 0 <= i <= s.len() via comma_split_from_dec
{
    let e = comma_end(s, i);
    if e >= s.len() {
        seq![s.subrange(i, s.len() as int)]
    } else {
        seq![s.subrange(i, e)] + comma_split_from(s, e + 1)
    }
}

#[via_fn]
proof fn comma_split_from_dec(s: Seq<u8>, i: int) {
    lemma_comma_end_bounds(s, i);
}

/// The comma-separated overlap descriptors of a path line.
pub open spec fn path_overlaps(s: Seq<u8>) -> Seq<Seq<u8>> {
    if path_has_overlaps(s) {
        comma_split_from(path_overlaps_field(s), 0)
    } else {
        Seq::empty()
    }
}

/// Parse a comma-separated step list from position `i`: each step is an
/// integer name followed by `+` or `-`, and the whole list must be well
/// formed for any step to count.
pub open spec fn steps_from(s: Seq<u8>, i: int) -> Option<Seq<(int, bool)>>
    decreases s.len() - i when 0 <= i <= s.len() via steps_from_dec
{
    let e = comma_end(s, i);
    if !(e - i >= 2 && all_digits(s.subrange(i, e - 1)) && dec_val(s.subrange(i, e - 1))
        <= usize::MAX && (s[e - 1] == 43u8 || s[e - 1] == 45u8)) {
        None
    } else {
        let st = (dec_val(s.subrange(i, e - 1)), s[e - 1] == 43u8);
        if e >= s.len() {
            Some(seq![st])
        } else {
            match steps_from(s, e + 1) {
                Some(r) => Some(seq![st] + r),
                None => None,
            }
        }
    }
}

#[via_fn]
proof fn steps_from_dec(s: Seq<u8>, i: int) {
    lemma_comma_end_bounds(s, i);
}

/// The kind of record a line's leading byte announces.
pub open spec fn line_kind(s: Seq<u8>) -> LineKind {
    if s.len() > 0 && s[0] == 72u8 {
        LineKind::Header
    } else if s.len() > 0 && s[0] == 83u8 {
        LineKind::Segment
    } else if s.len() > 0 && s[0] == 76u8 {
        LineKind::Link
    } else {
        LineKind::Path
    }
}

/// Structural well-formedness of one line. For a path line the step
/// list's own grammar is checked separately, when the deferred line is
/// finally parsed.
pub open spec fn line_ok(s: Seq<u8>) -> bool {
    s.len() > 0 && if s[0] == 72u8 {
        header_ok(s)
    } else if s[0] == 83u8 {
        seg_ok(s)
    } else if s[0] == 76u8 {
        link_ok(s)
    } else if s[0] == 80u8 {
        path_ok(s)
    } else {
        false
    }
}

/// Full well-formedness: structure plus, for a path line, its step list.
pub open spec fn line_full_ok(s: Seq<u8>) -> bool {
    line_ok(s) && (s.len() > 0 && s[0] == 80u8 ==> steps_from(path_steps_field(s), 0).is_some())
}

/// A structurally parsed segment line.
#[derive(Debug)]
pub struct Seg {
    pub name: usize,
    pub seq: Vec<u8>,
    pub data: Vec<u8>,
}

/// A structurally parsed link line; its two names are not yet resolved.
#[derive(Debug)]
pub struct Link {
    pub from_seg: usize,
    pub from_orient: Orientation,
    pub to_seg: usize,
    pub to_orient: Orientation,
    pub overlap: Vec<u8>,
}

/// A structurally parsed path line; its step list is still raw text.
#[derive(Debug)]
pub struct Path {
    pub name: usize,
    pub steps: Vec<u8>,
    pub overlaps: Vec<Vec<u8>>,
}

/// One parsed line.
#[derive(Debug)]
pub enum Line {
    Header(Vec<u8>),
    Segment(Seg),
    Link(Link),
    Path(Path),
}

/// Parse a one-byte orientation field that starts at `i`.
fn parse_ori(s: &[u8], i: usize) -> (r: Option<Orientation>)
    requires
        i <= s@.len(),
    ensures
        r.is_some() <==> ori_ok_at(s@, i as int),
        r.is_some() ==> r.unwrap() == spec_ori(s@[i as int] == 43u8),
{
    if i == s.len() {
        return None;
    }
    let e = find_field_end(s, i);
    if e != i + 1 {
        return None;
    }
    let b = s[i];
    if b == 43 {
        Some(Orientation::Forward)
    } else if b == 45 {
        Some(Orientation::Backward)
    } else {
        None
    }
}

/// Split a whole byte string on commas into owned pieces.
fn split_commas(s: &[u8]) -> (r: Vec<Vec<u8>>)
    ensures
        r@.map_values(|v: Vec<u8>| v@) == comma_split_from(s@, 0),
{
    let mut out: Vec<Vec<u8>> = Vec::new();
    let mut i: usize = 0;
    loop
        invariant
            i <= s@.len(),
            comma_split_from(s@, 0) == out@.map_values(|v: Vec<u8>| v@) + comma_split_from(
                s@,
                i as int,
            ),
        decreases s@.len() - i,
    {
        let e = find_comma_end(s, i);
        let piece = copy_range(s, i, e);
        let ghost prev = out@;
        out.push(piece);
        proof {
            assert(out@.map_values(|v: Vec<u8>| v@) =~= prev.map_values(|v: Vec<u8>| v@).push(
                s@.subrange(i as int, e as int),
            ));
        }
        if e == s.len() {
            proof {
                assert(comma_split_from(s@, i as int) =~= seq![s@.subrange(i as int, e as int)]);
                assert(comma_split_from(s@, 0) =~= out@.map_values(|v: Vec<u8>| v@));
            }
            return out;
        }
        proof {
            assert(comma_split_from(s@, i as int) =~= seq![s@.subrange(i as int, e as int)]
                + comma_split_from(s@, e + 1));
            assert(comma_split_from(s@, 0) =~= out@.map_values(|v: Vec<u8>| v@)
                + comma_split_from(s@, e + 1));
        }
        i = e + 1;
    }
}

/// Parse a whole step-list field into resolved (name, forward) pairs.
///
/// Succeeds exactly when the field matches the step-list grammar.
pub fn parse_steps(s: &[u8]) -> (r: Option<Vec<(usize, bool)>>)
    ensures
        r.is_some() <==> steps_from(s@, 0).is_some(),
        r.is_some() ==> r.unwrap()@.map_values(|p: (usize, bool)| (p.0 as int, p.1))
            == steps_from(s@, 0).unwrap(),
{
    let mut out: Vec<(usize, bool)> = Vec::new();
    let mut i: usize = 0;
    loop
        invariant
            i <= s@.len(),
            match steps_from(s@, i as int) {
                Some(rest) => steps_from(s@, 0) == Some(
                    out@.map_values(|p: (usize, bool)| (p.0 as int, p.1)) + rest,
                ),
                None => steps_from(s@, 0).is_none(),
            },
        decreases s@.len() - i,
    {
        let e = find_comma_end(s, i);
        if e - i < 2 {
            return None;
        }
        let name = match parse_num(s, i, e - 1) {
            Some(n) => n,
            None => {
                return None;
            }
        };
        let c = s[e - 1];
        let fwd = if c == 43 {
            true
        } else if c == 45 {
            false
        } else {
            return None;
        };
        let ghost prev = out@;
        out.push((name, fwd));
        proof {
            assert(out@.map_values(|p: (usize, bool)| (p.0 as int, p.1)) =~= prev.map_values(
                |p: (usize, bool)| (p.0 as int, p.1),
            ).push((name as int, fwd)));
        }
        if e == s.len() {
            return Some(out);
        }
        i = e + 1;
    }
}

/// Parse one GFA line into its structural form.
///
/// Returns `None` exactly when the line breaks the line grammar; a path
/// line's step list is kept raw and is not checked here.
pub fn parse_line(line: &[u8]) -> (r: Option<Line>)
    ensures
        r.is_some() <==> line_ok(line@),
        match r {
            Option::None => !line_ok(line@),
            Option::Some(Line::Header(d)) => line_kind(line@) == LineKind::Header && d@
                == header_data(line@),
            Option::Some(Line::Segment(g)) => line_kind(line@) == LineKind::Segment && g.name
                == seg_name(line@) && g.seq@ == seg_seq(line@) && g.data@ == seg_tags(line@),
            Option::Some(Line::Link(l)) => line_kind(line@) == LineKind::Link && l.from_seg
                == link_from_name(line@) && l.from_orient == spec_ori(link_from_fwd(line@))
                && l.to_seg == link_to_name(line@) && l.to_orient == spec_ori(link_to_fwd(line@))
                && l.overlap@ == link_overlap(line@),
            Option::Some(Line::Path(p)) => line_kind(line@) == LineKind::Path && p.name
                == path_name(line@) && p.steps@ == path_steps_field(line@)
                && p.overlaps@.map_values(|v: Vec<u8>| v@) == path_overlaps(line@),
        },
{
    let n = line.len();
    if n == 0 {
        return None;
    }
    let b0 = line[0];
    if b0 == 72 {
        if n == 1 {
            return Some(Line::Header(Vec::new()));
        }
        let b1 = line[1];
        if !(b1 == 9 || b1 == 32) {
            return None;
        }
        let data = copy_range(line, 2, n);
        Some(Line::Header(data))
    } else if b0 == 83 {
        if n < 2 {
            return None;
        }
        let b1 = line[1];
        if !(b1 == 9 || b1 == 32) {
            return None;
        }
        let e1 = find_field_end(line, 2);
        let name = match parse_num(line, 2, e1) {
            Some(v) => v,
            None => {
                return None;
            }
        };
        if e1 == n {
            return None;
        }
        let e2 = find_field_end(line, e1 + 1);
        if e2 == e1 + 1 {
            return None;
        }
        let seq = copy_range(line, e1 + 1, e2);
        let data = if e2 < n {
            copy_range(line, e2 + 1, n)
        } else {
            Vec::new()
        };
        Some(Line::Segment(Seg { name, seq, data }))
    } else if b0 == 76 {
        if n < 2 {
            return None;
        }
        let b1 = line[1];
        if !(b1 == 9 || b1 == 32) {
            return None;
        }
        let e1 = find_field_end(line, 2);
        let from_seg = match parse_num(line, 2, e1) {
            Some(v) => v,
            None => {
                return None;
            }
        };
        if e1 == n {
            return None;
        }
        let from_orient = match parse_ori(line, e1 + 1) {
            Some(o) => o,
            None => {
                return None;
            }
        };
        if e1 + 2 >= n {
            return None;
        }
        let e3 = find_field_end(line, e1 + 3);
        let to_seg = match parse_num(line, e1 + 3, e3) {
            Some(v) => v,
            None => {
                return None;
            }
        };
        if e3 == n {
            return None;
        }
        let to_orient = match parse_ori(line, e3 + 1) {
            Some(o) => o,
            None => {
                return None;
            }
        };
        if e3 + 2 >= n {
            return None;
        }
        let overlap = copy_range(line, e3 + 3, n);
        Some(Line::Link(Link { from_seg, from_orient, to_seg, to_orient, overlap }))
    } else if b0 == 80 {
        if n < 2 {
            return None;
        }
        let b1 = line[1];
        if !(b1 == 9 || b1 == 32) {
            return None;
        }
        let e1 = find_field_end(line, 2);
        let name = match parse_num(line, 2, e1) {
            Some(v) => v,
            None => {
                return None;
            }
        };
        if e1 == n {
            return None;
        }
        let e2 = find_field_end(line, e1 + 1);
        if e2 == e1 + 1 {
            return None;
        }
        let steps = copy_range(line, e1 + 1, e2);
        let overlaps = if e2 < n {
            let field = copy_range(line, e2 + 1, n);
            let pieces = split_commas(field.as_slice());
            proof {
                assert(field@ == path_overlaps_field(line@));
            }
            pieces
        } else {
            Vec::new()
        };
        Some(Line::Path(Path { name, steps, overlaps }))
    } else {
        None
    }
}

} // verus!

