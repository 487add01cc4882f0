//! The two-pass streaming parser: segments and headers are stored as
//! they are read, while links and paths are deferred until every
//! segment name is known, then resolved and stored in original order.

use vstd::prelude::*;
use std::collections::HashMap;
use crate::flat::{FlatGFAStore, Handle, LineKind, Orientation};
use crate::gfaline;
use crate::gfaline::{line_kind, line_ok, line_full_ok};

verus! {

broadcast use vstd::std_specs::hash::group_hash_axioms;

/// The mathematical content of a name table: the verified sequential
/// prefix, and the explicit map holding every name that broke the
/// sequential pattern.
pub struct NameModel {
    pub seq_max: int,
    pub others: Map<usize, u32>,
}

/// The table with nothing registered.
pub open spec fn nm_empty() -> NameModel {
    NameModel { seq_max: 0, others: Map::empty() }
}

/// Registering one name: the next sequential name (value `seq_max + 1`
/// assigned id `seq_max`) just widens the verified prefix; any other
/// name goes to the explicit map.
pub open spec fn nm_insert(m: NameModel, name: usize, id: u32) -> NameModel {
    if name == m.seq_max + 1 && name - 1 == id {
        NameModel { seq_max: m.seq_max + 1, others: m.others }
    } else {
        NameModel { seq_max: m.seq_max, others: m.others.insert(name, id) }
    }
}

/// Looking a name up: the sequential fast path answers without probing
/// the explicit map; otherwise the map decides.
pub open spec fn nm_resolve(m: NameModel, name: usize) -> Option<u32> {
    if 1 <= name && name <= m.seq_max {
        Some((name - 1) as u32)
    } else if m.others.contains_key(name) {
        Some(m.others[name])
    } else {
        None
    }
}

/// The table after registering `names[j]` against id `j`, for all `j`.
pub open spec fn nm_of(names: Seq<usize>) -> NameModel
    decreases names.len(),
{
    if names.len() == 0 {
        nm_empty()
    } else {
        nm_insert(nm_of(names.drop_last()), names.last(), (names.len() - 1) as u32)
    }
}

/// Every id the table can answer is below `n`.
pub open spec fn nm_bounded(m: NameModel, n: int) -> bool {
    m.seq_max <= n && (forall|k: usize| m.others.contains_key(k) ==> #[trigger] m.others[k] < n)
}

/// A table built from `n` names only hands out ids below `n`.
pub proof fn lemma_nm_of_bounded(names: Seq<usize>)
    ensures
        nm_bounded(nm_of(names), names.len() as int),
    decreases names.len(),
{
    if names.len() > 0 {
        lemma_nm_of_bounded(names.drop_last());
    }
}

pub proof fn lemma_nm_resolve_bounded(m: NameModel, n: int, name: usize)
    requires
        nm_bounded(m, n),
        n <= u32::MAX,
        nm_resolve(m, name).is_some(),
    ensures
        (nm_resolve(m, name).unwrap() as int) < n,
{
}

/// The sequential fast path: registering the names `1..=n` in order
/// leaves the explicit map exactly as it was found, widens the verified
/// prefix to `n`, and resolves every registered name without a probe.
pub proof fn lemma_sequential_fast_path(names: Seq<usize>)
    requires
        forall|j: int| 0 <= j < names.len() ==> #[trigger] names[j] == j + 1,
        names.len() <= u32::MAX,
    ensures
        nm_of(names).others == nm_empty().others,
        nm_of(names).seq_max == names.len(),
        forall|j: int|
            0 <= j < names.len() ==> nm_resolve(nm_of(names), #[trigger] names[j]) == Some(
                j as u32,
            ) && 1 <= names[j] <= nm_of(names).seq_max,
    decreases names.len(),
{
    if names.len() > 0 {
        assert(forall|j: int|
            0 <= j < names.drop_last().len() ==> #[trigger] names.drop_last()[j] == j + 1);
        lemma_sequential_fast_path(names.drop_last());
    }
}

/// The name table: an optimization of name-to-id lookup for the common
/// case where segment names are `1..=n` in declaration order. Names in
/// the verified sequential prefix resolve arithmetically; the rest sit
/// in an explicit hash table.
pub struct NameMap {
    sequential_max: usize,
    others: HashMap<usize, u32>,
}

impl NameMap {
    /// The table's mathematical content.
    pub closed spec fn model(&self) -> NameModel {
        NameModel { seq_max: self.sequential_max as int, others: self.others@ }
    }

    pub fn new() -> (r: NameMap)
        ensures
            r.model() == nm_empty(),
    {
        let r = NameMap { sequential_max: 0, others: HashMap::new() };
        proof {
            assert(r.model().others =~= nm_empty().others);
        }
        r
    }

    /// Register `name` against `id`.
    pub fn insert(&mut self, name: usize, id: u32)
        ensures
            final(self).model() == nm_insert(old(self).model(), name, id),
    {
        let sequential = self.sequential_max < usize::MAX && name == self.sequential_max + 1
            && id as usize == name - 1;
        if sequential {
            self.sequential_max = self.sequential_max + 1;
        } else {
            self.others.insert(name, id);
            proof {
                if name == old(self).model().seq_max + 1 && name - 1 == id {
                    assert(false);
                }
            }
        }
        proof {
            assert(final(self).model().others =~= nm_insert(old(self).model(), name, id).others);
        }
    }

    /// How many names the explicit table holds.
    pub fn explicit_len(&self) -> (r: usize)
        ensures
            r == self.model().others.len(),
    {
        self.others.len()
    }

    /// The length of the verified sequential prefix.
    pub fn sequential_limit(&self) -> (r: usize)
        ensures
            r == self.model().seq_max,
    {
        self.sequential_max
    }

    /// Look `name` up, failing exactly when it was never registered and
    /// does not fall in the verified sequential prefix.
    pub fn get(&self, name: usize) -> (r: Option<u32>)
        ensures
            r == nm_resolve(self.model(), name),
    {
        if 1 <= name && name <= self.sequential_max {
            Some(((name - 1) as u32))
        } else {
            match self.others.get(&name) {
                Some(v) => Some(*v),
                None => None,
            }
        }
    }
}

/// The views of a list of owned byte lines.
pub open spec fn views(lines: Seq<Vec<u8>>) -> Seq<Seq<u8>> {
    lines.map_values(|v: Vec<u8>| v@)
}

/// The accounting weight of a list of lines: every line contributes its
/// byte count plus one. No pool of a store built from the lines ever
/// holds more entries than this.
pub open spec fn total_weight(ls: Seq<Seq<u8>>) -> int
    decreases ls.len(),
{
    if ls.len() == 0 {
        0
    } else {
        total_weight(ls.drop_last()) + ls.last().len() + 1
    }
}

pub proof fn lemma_tw_take(ls: Seq<Seq<u8>>, i: int)
    requires
        0 < i <= ls.len(),
    ensures
        total_weight(ls.take(i)) == total_weight(ls.take(i - 1)) + ls[i - 1].len() + 1,
{
    assert(ls.take(i).drop_last() =~= ls.take(i - 1));
    assert(ls.take(i).last() == ls[i - 1]);
}

pub proof fn lemma_tw_mono(ls: Seq<Seq<u8>>, i: int)
    requires
        0 <= i <= ls.len(),
    ensures
        total_weight(ls.take(i)) + (ls.len() - i) <= total_weight(ls),
        total_weight(ls.take(i)) >= i,
    decreases i,
{
    if i == 0 {
        assert(ls.take(0) =~= Seq::<Seq<u8>>::empty());
    } else {
        lemma_tw_take(ls, i);
        lemma_tw_mono(ls, i - 1);
    }
    if i < ls.len() {
        lemma_tw_mono_upper(ls, i);
    } else {
        assert(ls.take(i) =~= ls);
    }
}

proof fn lemma_tw_mono_upper(ls: Seq<Seq<u8>>, i: int)
    requires
        0 <= i < ls.len(),
    ensures
        total_weight(ls.take(i)) + (ls.len() - i) <= total_weight(ls),
    decreases ls.len() - i,
{
    lemma_tw_take(ls, i + 1);
    if i + 1 == ls.len() {
        assert(ls.take(i + 1) =~= ls);
    } else {
        lemma_tw_mono_upper(ls, i + 1);
    }
}

/// The sub-list of lines announcing records of kind `k`, in order.
pub open spec fn lines_of_kind(ls: Seq<Seq<u8>>, k: LineKind) -> Seq<Seq<u8>>
    decreases ls.len(),
{
    if ls.len() == 0 {
        Seq::empty()
    } else if line_kind(ls.last()) == k {
        lines_of_kind(ls.drop_last(), k).push(ls.last())
    } else {
        lines_of_kind(ls.drop_last(), k)
    }
}

pub proof fn lemma_lok_push(ls: Seq<Seq<u8>>, l: Seq<u8>, k: LineKind)
    ensures
        lines_of_kind(ls.push(l), k) == if line_kind(l) == k {
            lines_of_kind(ls, k).push(l)
        } else {
            lines_of_kind(ls, k)
        },
{
    assert(ls.push(l).drop_last() =~= ls);
    assert(ls.push(l).last() == l);
}

/// Every collected line of kind `k` is a line of the input.
pub proof fn lemma_lok_mem(ls: Seq<Seq<u8>>, k: LineKind, j: int)
    requires
        0 <= j < lines_of_kind(ls, k).len(),
    ensures
        exists|i: int|
            0 <= i < ls.len() && ls[i] == lines_of_kind(ls, k)[j] && line_kind(#[trigger] ls[i])
                == k,
    decreases ls.len(),
{
    if ls.len() > 0 {
        let prev = lines_of_kind(ls.drop_last(), k);
        if line_kind(ls.last()) == k && j == prev.len() {
            assert(ls[ls.len() - 1] == lines_of_kind(ls, k)[j]);
        } else {
            lemma_lok_mem(ls.drop_last(), k, j);
            let i = choose|i: int|
                0 <= i < ls.drop_last().len() && ls.drop_last()[i] == prev[j] && line_kind(
                    #[trigger] ls.drop_last()[i],
                ) == k;
            assert(ls[i] == ls.drop_last()[i]);
        }
    }
}

/// Every input line of kind `k` is among the collected lines.
pub proof fn lemma_lok_mem_rev(ls: Seq<Seq<u8>>, k: LineKind, i: int)
    requires
        0 <= i < ls.len(),
        line_kind(ls[i]) == k,
    ensures
        exists|j: int| 0 <= j < lines_of_kind(ls, k).len() && lines_of_kind(ls, k)[j] == ls[i],
    decreases ls.len(),
{
    if i == ls.len() - 1 {
        assert(lines_of_kind(ls, k).last() == ls[i]);
    } else {
        lemma_lok_mem_rev(ls.drop_last(), k, i);
        let j = choose|j: int|
            0 <= j < lines_of_kind(ls.drop_last(), k).len() && lines_of_kind(ls.drop_last(), k)[j]
                == ls.drop_last()[i];
        assert(lines_of_kind(ls, k)[j] == ls[i]);
    }
}

pub proof fn lemma_lok_len(ls: Seq<Seq<u8>>, k: LineKind)
    ensures
        lines_of_kind(ls, k).len() <= ls.len(),
    decreases ls.len(),
{
    if ls.len() > 0 {
        lemma_lok_len(ls.drop_last(), k);
    }
}

/// The external names of the segment lines, in declaration order.
pub open spec fn seg_names_of(ls: Seq<Seq<u8>>) -> Seq<usize> {
    lines_of_kind(ls, LineKind::Segment).map_values(|l: Seq<u8>| gfaline::seg_name(l) as usize)
}

/// The name table the whole input gives rise to.
pub open spec fn table_of(ls: Seq<Seq<u8>>) -> NameModel {
    nm_of(seg_names_of(ls))
}

/// Whether the line is deferred whole by the first-byte path check.
pub open spec fn is_path(l: Seq<u8>) -> bool {
    l.len() > 0 && l[0] == 80u8
}

/// Both endpoint names of a link line are known to the table.
pub open spec fn link_resolves(l: Seq<u8>, m: NameModel) -> bool {
    nm_resolve(m, gfaline::link_from_name(l) as usize).is_some() && nm_resolve(
        m,
        gfaline::link_to_name(l) as usize,
    ).is_some()
}

/// Every step name of a parsed step list is known to the table.
pub open spec fn steps_resolve(sts: Seq<(int, bool)>, m: NameModel) -> bool {
    forall|j: int| 0 <= j < sts.len() ==> nm_resolve(m, (#[trigger] sts[j]).0 as usize).is_some()
}

/// Every step name of a path line is known to the table.
pub open spec fn path_resolves(l: Seq<u8>, m: NameModel) -> bool {
    match gfaline::steps_from(gfaline::path_steps_field(l), 0) {
        Some(sts) => steps_resolve(sts, m),
        None => true,
    }
}

/// Every line matches the grammar, step lists included.
pub open spec fn all_lines_ok(ls: Seq<Seq<u8>>) -> bool {
    forall|i: int| 0 <= i < ls.len() ==> line_full_ok(#[trigger] ls[i])
}

/// Every reference anywhere in the input is known to the final table.
pub open spec fn all_resolve(ls: Seq<Seq<u8>>) -> bool {
    forall|i: int|
        0 <= i < ls.len() ==> {
            let l = #[trigger] ls[i];
            &&& (line_kind(l) == LineKind::Link && line_ok(l) ==> link_resolves(l, table_of(ls)))
            &&& (line_kind(l) == LineKind::Path && line_ok(l) ==> path_resolves(l, table_of(ls)))
        }
}

/// The handles a resolved step list denotes.
pub open spec fn resolved_steps(sts: Seq<(int, bool)>, m: NameModel) -> Seq<Handle> {
    sts.map_values(
        |st: (int, bool)|
            Handle {
                segment: nm_resolve(m, st.0 as usize).unwrap(),
                orient: gfaline::spec_ori(st.1),
            },
    )
}

/// The stored headers read back as the header lines' data, in order.
pub open spec fn headers_match(st: FlatGFAStore, ls: Seq<Seq<u8>>) -> bool {
    let hl = lines_of_kind(ls, LineKind::Header);
    st.headers@.len() == hl.len() && forall|i: int|
        0 <= i < hl.len() ==> {
            let sp = #[trigger] st.headers@[i];
            st.header_data@.subrange(sp.start as int, sp.end as int) == gfaline::header_data(
                hl[i],
            )
        }
}

/// The stored segments carry the segment lines' names, sequences and
/// tags, in declaration order.
pub open spec fn segs_match(st: FlatGFAStore, ls: Seq<Seq<u8>>) -> bool {
    let sl = lines_of_kind(ls, LineKind::Segment);
    st.segs@.len() == sl.len() && forall|i: int|
        0 <= i < sl.len() ==> {
            let g = #[trigger] st.segs@[i];
            &&& g.name as int == gfaline::seg_name(sl[i])
            &&& st.seq_data@.subrange(g.seq.start as int, g.seq.end as int) == gfaline::seg_seq(
                sl[i],
            )
            &&& st.seg_data@.subrange(g.data.start as int, g.data.end as int) == gfaline::seg_tags(
                sl[i],
            )
        }
}

/// The stored links carry the link lines' resolved handles and overlap
/// bytes, in declaration order.
pub open spec fn links_match(st: FlatGFAStore, ls: Seq<Seq<u8>>) -> bool {
    let ll = lines_of_kind(ls, LineKind::Link);
    let m = table_of(ls);
    st.links@.len() == ll.len() && forall|i: int|
        0 <= i < ll.len() ==> {
            let lk = #[trigger] st.links@[i];
            &&& lk.from.segment == nm_resolve(m, gfaline::link_from_name(ll[i]) as usize).unwrap()
            &&& lk.from.orient == gfaline::spec_ori(gfaline::link_from_fwd(ll[i]))
            &&& lk.to.segment == nm_resolve(m, gfaline::link_to_name(ll[i]) as usize).unwrap()
            &&& lk.to.orient == gfaline::spec_ori(gfaline::link_to_fwd(ll[i]))
            &&& st.overlap_data@.subrange(lk.overlap.start as int, lk.overlap.end as int)
                == gfaline::link_overlap(ll[i])
        }
}

/// The stored paths carry the path lines' names, resolved step handles,
/// and overlap descriptors, in declaration order.
pub open spec fn paths_match(st: FlatGFAStore, ls: Seq<Seq<u8>>) -> bool {
    let pl = lines_of_kind(ls, LineKind::Path);
    let m = table_of(ls);
    st.paths@.len() == pl.len() && forall|i: int|
        0 <= i < pl.len() ==> {
            let p = #[trigger] st.paths@[i];
            let ov = gfaline::path_overlaps(pl[i]);
            &&& p.name as int == gfaline::path_name(pl[i])
            &&& p.steps.wf()
            &&& p.steps.end <= st.steps@.len()
            &&& st.steps@.subrange(p.steps.start as int, p.steps.end as int) == resolved_steps(
                gfaline::steps_from(gfaline::path_steps_field(pl[i]), 0).unwrap(),
                m,
            )
            &&& p.overlaps.spec_len() == ov.len()
            &&& forall|j: int|
                0 <= j < ov.len() ==> {
                    let sp = #[trigger] st.overlaps@[p.overlaps.start + j];
                    st.overlap_data@.subrange(sp.start as int, sp.end as int) == ov[j]
                }
        }
}

/// The deferred-link weight: what resolving the buffered links can
/// still add to the pools, at most.
pub open spec fn links_weight(s: Seq<gfaline::Link>) -> int
    decreases s.len(),
{
    if s.len() == 0 {
        0
    } else {
        links_weight(s.drop_last()) + s.last().overlap@.len() + 2
    }
}

/// The deferred-path weight: what resolving the buffered path lines can
/// still add to the pools, at most.
pub open spec fn paths_weight(s: Seq<(usize, Vec<u8>)>) -> int
    decreases s.len(),
{
    if s.len() == 0 {
        0
    } else {
        paths_weight(s.drop_last()) + s.last().1@.len() + 1
    }
}

pub proof fn lemma_lw_take(s: Seq<gfaline::Link>, j: int)
    requires
        0 < j <= s.len(),
    ensures
        links_weight(s.take(j)) == links_weight(s.take(j - 1)) + s[j - 1].overlap@.len() + 2,
{
    assert(s.take(j).drop_last() =~= s.take(j - 1));
    assert(s.take(j).last() == s[j - 1]);
}

pub proof fn lemma_lw_push(s: Seq<gfaline::Link>, x: gfaline::Link)
    ensures
        links_weight(s.push(x)) == links_weight(s) + x.overlap@.len() + 2,
{
    assert(s.push(x).drop_last() =~= s);
}

pub proof fn lemma_pw_take(s: Seq<(usize, Vec<u8>)>, j: int)
    requires
        0 < j <= s.len(),
    ensures
        paths_weight(s.take(j)) == paths_weight(s.take(j - 1)) + s[j - 1].1@.len() + 1,
{
    assert(s.take(j).drop_last() =~= s.take(j - 1));
    assert(s.take(j).last() == s[j - 1]);
}

pub proof fn lemma_pw_push(s: Seq<(usize, Vec<u8>)>, x: (usize, Vec<u8>))
    ensures
        paths_weight(s.push(x)) == paths_weight(s) + x.1@.len() + 1,
{
    assert(s.push(x).drop_last() =~= s);
}

pub proof fn lemma_lw_bounds(s: Seq<gfaline::Link>, j: int)
    requires
        0 <= j <= s.len(),
    ensures
        0 <= links_weight(s.take(j)) <= links_weight(s),
        links_weight(s.take(j)) + 2 * (s.len() - j) <= links_weight(s),
    decreases s.len() - j,
{
    if j == s.len() {
        lemma_lw_nonneg(s.take(j));
        assert(s.take(j) =~= s);
    } else {
        lemma_lw_take(s, j + 1);
        lemma_lw_bounds(s, j + 1);
        lemma_lw_nonneg(s.take(j));
    }
}

proof fn lemma_lw_nonneg(s: Seq<gfaline::Link>)
    ensures
        links_weight(s) >= 0,
    decreases s.len(),
{
    if s.len() > 0 {
        lemma_lw_nonneg(s.drop_last());
    }
}

pub proof fn lemma_pw_bounds(s: Seq<(usize, Vec<u8>)>, j: int)
    requires
        0 <= j <= s.len(),
    ensures
        0 <= paths_weight(s.take(j)) <= paths_weight(s),
        paths_weight(s.take(j)) + (s.len() - j) <= paths_weight(s),
    decreases s.len() - j,
{
    if j == s.len() {
        lemma_pw_nonneg(s.take(j));
        assert(s.take(j) =~= s);
    } else {
        lemma_pw_take(s, j + 1);
        lemma_pw_bounds(s, j + 1);
        lemma_pw_nonneg(s.take(j));
    }
}

proof fn lemma_pw_nonneg(s: Seq<(usize, Vec<u8>)>)
    ensures
        paths_weight(s) >= 0,
    decreases s.len(),
{
    if s.len() > 0 {
        lemma_pw_nonneg(s.drop_last());
    }
}

/// The total byte count of a list of byte strings plus one per string.
pub open spec fn pieces_weight(ps: Seq<Seq<u8>>) -> int
    decreases ps.len(),
{
    if ps.len() == 0 {
        0
    } else {
        pieces_weight(ps.drop_last()) + ps.last().len() + 1
    }
}

pub proof fn lemma_pieces_weight_prepend(x: Seq<u8>, r: Seq<Seq<u8>>)
    ensures
        pieces_weight(seq![x] + r) == x.len() + 1 + pieces_weight(r),
    decreases r.len(),
{
    if r.len() == 0 {
        assert(seq![x] + r =~= seq![x]);
        assert(seq![x].drop_last() =~= Seq::<Seq<u8>>::empty());
        assert(seq![x].last() == x);
        assert(pieces_weight(r) == 0);
        assert(pieces_weight(seq![x] + r) == pieces_weight(seq![x]));
        assert(pieces_weight(Seq::<Seq<u8>>::empty()) == 0);
        assert(pieces_weight(seq![x]) == x.len() + 1);
    } else {
        assert((seq![x] + r).drop_last() =~= seq![x] + r.drop_last());
        assert((seq![x] + r).last() == r.last());
        lemma_pieces_weight_prepend(x, r.drop_last());
        assert(pieces_weight(r) == pieces_weight(r.drop_last()) + r.last().len() + 1);
        assert(pieces_weight(seq![x] + r) == pieces_weight(seq![x] + r.drop_last())
            + r.last().len() + 1);
    }
}

/// Splitting on commas weighs exactly the bytes plus one.
pub proof fn lemma_comma_split_weight(s: Seq<u8>, i: int)
    requires
        0 <= i <= s.len(),
    ensures
        pieces_weight(gfaline::comma_split_from(s, i)) == s.len() - i + 1,
    decreases s.len() - i,
{
    gfaline::lemma_comma_end_bounds(s, i);
    let e = gfaline::comma_end(s, i);
    if e >= s.len() {
        let piece = s.subrange(i, s.len() as int);
        assert(seq![piece].drop_last() =~= Seq::<Seq<u8>>::empty());
        assert(seq![piece].last() == piece);
        assert(gfaline::comma_split_from(s, i) == seq![piece]);
        assert(pieces_weight(Seq::<Seq<u8>>::empty()) == 0);
        assert(pieces_weight(seq![piece]) == piece.len() + 1);
    } else {
        lemma_comma_split_weight(s, e + 1);
        assert(gfaline::comma_split_from(s, i) == seq![s.subrange(i, e)]
            + gfaline::comma_split_from(s, e + 1));
        lemma_pieces_weight_prepend(s.subrange(i, e), gfaline::comma_split_from(s, e + 1));
    }
}

/// Flattening yields the pieces' bytes: one less than the weight per
/// piece.
pub proof fn lemma_flat_bytes_weight(ps: Seq<Seq<u8>>)
    ensures
        crate::flat::flat_bytes(ps).len() + ps.len() == pieces_weight(ps),
    decreases ps.len(),
{
    if ps.len() > 0 {
        lemma_flat_bytes_weight(ps.drop_last());
    }
}

/// A parsed step list holds fewer steps than its field has bytes.
pub proof fn lemma_steps_count(s: Seq<u8>, i: int)
    requires
        0 <= i <= s.len(),
        gfaline::steps_from(s, i).is_some(),
    ensures
        gfaline::steps_from(s, i).unwrap().len() <= s.len() - i - 1,
    decreases s.len() - i,
{
    gfaline::lemma_comma_end_bounds(s, i);
    let e = gfaline::comma_end(s, i);
    if e < s.len() {
        lemma_steps_count(s, e + 1);
    }
}

/// Grammar bounds for a segment line: its name is a valid integer and
/// its copied fields fit inside the line.
pub proof fn lemma_seg_bounds(l: Seq<u8>)
    requires
        gfaline::seg_ok(l),
    ensures
        0 <= gfaline::seg_name(l) <= usize::MAX,
        gfaline::seg_seq(l).len() <= l.len(),
        gfaline::seg_tags(l).len() <= l.len(),
{
    gfaline::lemma_field_end_bounds(l, 2);
    let e1 = gfaline::field_end(l, 2);
    gfaline::lemma_field_end_bounds(l, e1 + 1);
    gfaline::lemma_dec_val_nonneg(l.subrange(2, e1));
}

/// Grammar bounds for a link line.
pub proof fn lemma_link_bounds(l: Seq<u8>)
    requires
        gfaline::link_ok(l),
    ensures
        0 <= gfaline::link_from_name(l) <= usize::MAX,
        0 <= gfaline::link_to_name(l) <= usize::MAX,
        gfaline::link_overlap(l).len() + 2 <= l.len() + 1,
{
    gfaline::lemma_field_end_bounds(l, 2);
    let e1 = gfaline::field_end(l, 2);
    gfaline::lemma_field_end_bounds(l, e1 + 3);
    let e3 = gfaline::field_end(l, e1 + 3);
    gfaline::lemma_dec_val_nonneg(l.subrange(2, e1));
    gfaline::lemma_dec_val_nonneg(l.subrange(e1 + 3, e3));
}

/// Grammar bounds for a path line: name valid, and the step and overlap
/// fields leave room for the fixed parts of the line.
pub proof fn lemma_path_bounds(l: Seq<u8>)
    requires
        gfaline::path_ok(l),
    ensures
        0 <= gfaline::path_name(l) <= usize::MAX,
        gfaline::path_steps_field(l).len() + (if gfaline::path_has_overlaps(l) {
            gfaline::path_overlaps_field(l).len() + 1int
        } else {
            0int
        }) + 3 <= l.len(),
{
    gfaline::lemma_field_end_bounds(l, 2);
    let e1 = gfaline::field_end(l, 2);
    gfaline::lemma_field_end_bounds(l, e1 + 1);
    gfaline::lemma_dec_val_nonneg(l.subrange(2, e1));
}

/// Grammar bound for a header line.
pub proof fn lemma_header_bounds(l: Seq<u8>)
    requires
        gfaline::header_ok(l),
    ensures
        gfaline::header_data(l).len() <= l.len(),
{
}

/// One raw buffered link carries exactly the fields of a link line.
pub open spec fn link_fields_match(k: gfaline::Link, l: Seq<u8>) -> bool {
    &&& k.from_seg as int == gfaline::link_from_name(l)
    &&& k.from_orient == gfaline::spec_ori(gfaline::link_from_fwd(l))
    &&& k.to_seg as int == gfaline::link_to_name(l)
    &&& k.to_orient == gfaline::spec_ori(gfaline::link_to_fwd(l))
    &&& k.overlap@ == gfaline::link_overlap(l)
}

/// The buffered raw links are the link lines seen so far, in order.
pub open spec fn deferred_links_match(dl: Seq<gfaline::Link>, pf: Seq<Seq<u8>>) -> bool {
    let ll = lines_of_kind(pf, LineKind::Link);
    dl.len() == ll.len() && forall|j: int|
        0 <= j < dl.len() ==> link_fields_match(#[trigger] dl[j], ll[j])
}

/// The buffered path lines are the path lines seen so far, verbatim and
/// in order, each remembering the index it stood at.
pub open spec fn deferred_paths_match(dp: Seq<(usize, Vec<u8>)>, pf: Seq<Seq<u8>>) -> bool {
    let pl = lines_of_kind(pf, LineKind::Path);
    dp.len() == pl.len() && forall|j: int|
        0 <= j < dp.len() ==> (#[trigger] dp[j]).1@ == pl[j] && dp[j].0 < pf.len() && pf[dp[j].0 as int]
            == pl[j]
}

/// Every scanned line was either structurally valid or deferred whole.
pub open spec fn scanned_ok(pf: Seq<Seq<u8>>) -> bool {
    forall|i: int| 0 <= i < pf.len() ==> is_path(#[trigger] pf[i]) || line_ok(pf[i])
}

/// What links and paths can still add to the pools.
pub open spec fn pools_sum(st: FlatGFAStore) -> int {
    st.links@.len() + st.paths@.len() + st.steps@.len() + st.overlaps@.len()
        + st.overlap_data@.len() as int
}

/// Data structures buffered during the scan because their references
/// cannot be resolved until every segment has been seen.
pub struct Deferred {
    pub links: Vec<gfaline::Link>,
    pub paths: Vec<(usize, Vec<u8>)>,
}

/// Why a parse was aborted: a line breaking the grammar, or a link or
/// path step naming a segment never declared.
#[derive(Clone, Copy, PartialEq, Eq, Structural, Debug)]
pub enum ParseError {
    Malformed { line: usize },
    Undefined { name: usize },
}

/// The full state of the scan over a prefix `pf` of the input.
pub open spec fn scan_inv(p: Parser, d: Deferred, pf: Seq<Seq<u8>>) -> bool {
    &&& p.flat.wf()
    &&& p.flat.line_order@ == pf.map_values(|l: Seq<u8>| line_kind(l))
    &&& headers_match(p.flat, pf)
    &&& segs_match(p.flat, pf)
    &&& p.seg_ids.model() == table_of(pf)
    &&& p.flat.links@.len() == 0
    &&& p.flat.paths@.len() == 0
    &&& p.flat.steps@.len() == 0
    &&& p.flat.overlaps@.len() == 0
    &&& p.flat.overlap_data@.len() == 0
    &&& deferred_links_match(d.links@, pf)
    &&& deferred_paths_match(d.paths@, pf)
    &&& scanned_ok(pf)
    &&& p.flat.header_data@.len() <= total_weight(pf)
    &&& p.flat.headers@.len() <= total_weight(pf)
    &&& p.flat.segs@.len() <= total_weight(pf)
    &&& p.flat.seq_data@.len() <= total_weight(pf)
    &&& p.flat.seg_data@.len() <= total_weight(pf)
    &&& links_weight(d.links@) + paths_weight(d.paths@) <= total_weight(pf)
}

/// The streaming parser: a store under construction plus the name table
/// that records every segment id against its external name.
pub struct Parser {
    pub flat: FlatGFAStore,
    pub seg_ids: NameMap,
}

/// With forward-sequential segment names (`1..=n` in declaration
/// order) the resolution table's sequential fast path alone resolves
/// every registered name, and the explicit table stays empty.
pub proof fn lemma_sequential_input_fast_path(lv: Seq<Seq<u8>>)
    requires
        forall|j: int| 0 <= j < seg_names_of(lv).len() ==> #[trigger] seg_names_of(lv)[j] == j + 1,
        seg_names_of(lv).len() <= u32::MAX,
    ensures
        table_of(lv).others == Map::<usize, u32>::empty(),
        table_of(lv).seq_max == seg_names_of(lv).len(),
        forall|j: int|
            0 <= j < seg_names_of(lv).len() ==> nm_resolve(
                table_of(lv),
                #[trigger] seg_names_of(lv)[j],
            ) == Some(j as u32) && 1 <= seg_names_of(lv)[j] <= table_of(lv).seq_max,
{
    lemma_sequential_fast_path(seg_names_of(lv));
    assert(nm_empty().others =~= Map::<usize, u32>::empty());
}

/// Appending bytes to a pool leaves every earlier span's bytes intact.
pub proof fn lemma_subrange_stable(a: Seq<u8>, b: Seq<u8>, x: int, y: int)
    requires
        0 <= x <= y <= a.len(),
    ensures
        (a + b).subrange(x, y) == a.subrange(x, y),
{
    assert((a + b).subrange(x, y) =~= a.subrange(x, y));
}

impl Parser {
    /// Scan one line: headers and segments are stored at once, links and
    /// paths are buffered. Returns false exactly when the line is
    /// malformed and not deferred whole.
    fn parse_line(
        &mut self,
        line: &Vec<u8>,
        idx: usize,
        deferred: &mut Deferred,
        Ghost(pf): Ghost<Seq<Seq<u8>>>,
    ) -> (ok: bool)
        requires
            scan_inv(*old(self), *old(deferred), pf),
            idx == pf.len(),
            total_weight(pf) + line@.len() + 1 <= u32::MAX,
        ensures
            ok == (is_path(line@) || line_ok(line@)),
            ok ==> scan_inv(*final(self), *final(deferred), pf.push(line@)),
    {
        let ghost npf = pf.push(line@);
        proof {
            assert(npf.drop_last() =~= pf);
            assert(npf.last() == line@);
            lemma_tw_mono(pf, pf.len() as int);
            assert(pf.take(pf.len() as int) =~= pf);
            lemma_lok_push(pf, line@, LineKind::Header);
            lemma_lok_push(pf, line@, LineKind::Segment);
            lemma_lok_push(pf, line@, LineKind::Link);
            lemma_lok_push(pf, line@, LineKind::Path);
        }
        let n = line.len();
        if n > 0 && line[0] == 80 {
            self.flat.record_line(LineKind::Path);
            let copy = gfaline::copy_range(line.as_slice(), 0, n);
            proof {
                assert(copy@ =~= line@);
            }
            deferred.paths.push((idx, copy));
            proof {
                lemma_pw_push(old(deferred).paths@, (idx, copy));
                assert(self.flat.line_order@ =~= npf.map_values(|l: Seq<u8>| line_kind(l)));
                assert(deferred.paths@.drop_last() =~= old(deferred).paths@);
            }
            return true;
        }
        let parsed = gfaline::parse_line(line.as_slice());
        match parsed {
            None => false,
            Some(gfaline::Line::Header(d)) => {
                proof {
                    lemma_header_bounds(line@);
                }
                self.flat.record_line(LineKind::Header);
                self.flat.add_header(d.as_slice());
                proof {
                    assert(self.flat.line_order@ =~= npf.map_values(|l: Seq<u8>| line_kind(l)));
                    let hl = lines_of_kind(pf, LineKind::Header);
                    let ohd = old(self).flat.header_data@;
                    assert forall|i: int| 0 <= i < hl.len() + 1 implies {
                        let sp = #[trigger] self.flat.headers@[i];
                        self.flat.header_data@.subrange(sp.start as int, sp.end as int)
                            == gfaline::header_data(lines_of_kind(npf, LineKind::Header)[i])
                    } by {
                        if i < hl.len() {
                            let sp = old(self).flat.headers@[i];
                            lemma_subrange_stable(ohd, d@, sp.start as int, sp.end as int);
                        } else {
                            assert(self.flat.header_data@.subrange(
                                ohd.len() as int,
                                ohd.len() + d@.len() as int,
                            ) =~= d@);
                        }
                    }
                }
                true
            },
            Some(gfaline::Line::Segment(g)) => {
                proof {
                    lemma_seg_bounds(line@);
                }
                self.flat.record_line(LineKind::Segment);
                let id = self.flat.add_seg(g.name, g.seq.as_slice(), g.data.as_slice());
                self.seg_ids.insert(g.name, id);
                proof {
                    assert(self.flat.line_order@ =~= npf.map_values(|l: Seq<u8>| line_kind(l)));
                    let sl = lines_of_kind(pf, LineKind::Segment);
                    let osq = old(self).flat.seq_data@;
                    let osd = old(self).flat.seg_data@;
                    assert forall|i: int| 0 <= i < sl.len() + 1 implies {
                        let gg = #[trigger] self.flat.segs@[i];
                        &&& gg.name as int == gfaline::seg_name(
                            lines_of_kind(npf, LineKind::Segment)[i],
                        )
                        &&& self.flat.seq_data@.subrange(gg.seq.start as int, gg.seq.end as int)
                            == gfaline::seg_seq(lines_of_kind(npf, LineKind::Segment)[i])
                        &&& self.flat.seg_data@.subrange(gg.data.start as int, gg.data.end as int)
                            == gfaline::seg_tags(lines_of_kind(npf, LineKind::Segment)[i])
                    } by {
                        if i < sl.len() {
                            let gg = old(self).flat.segs@[i];
                            lemma_subrange_stable(osq, g.seq@, gg.seq.start as int, gg.seq.end as int);
                            lemma_subrange_stable(osd, g.data@, gg.data.start as int, gg.data.end as int);
                        } else {
                            assert(self.flat.seq_data@.subrange(
                                osq.len() as int,
                                osq.len() + g.seq@.len() as int,
                            ) =~= g.seq@);
                            assert(self.flat.seg_data@.subrange(
                                osd.len() as int,
                                osd.len() + g.data@.len() as int,
                            ) =~= g.data@);
                        }
                    }
                    assert(seg_names_of(npf) =~= seg_names_of(pf).push(g.name));
                    assert(seg_names_of(npf).drop_last() =~= seg_names_of(pf));
                    assert(self.seg_ids.model() == table_of(npf));
                }
                true
            },
            Some(gfaline::Line::Link(l)) => {
                proof {
                    lemma_link_bounds(line@);
                }
                self.flat.record_line(LineKind::Link);
                deferred.links.push(l);
                proof {
                    lemma_lw_push(old(deferred).links@, deferred.links@.last());
                    assert(deferred.links@.drop_last() =~= old(deferred).links@);
                    assert(self.flat.line_order@ =~= npf.map_values(|l2: Seq<u8>| line_kind(l2)));
                }
                true
            },
            Some(gfaline::Line::Path(_)) => {
                proof {
                    assert(false);
                }
                false
            },
        }
    }

    /// Resolve one buffered raw link's two names and store the link.
    fn add_link(&mut self, link: &gfaline::Link) -> (r: Result<(), ParseError>)
        requires
            old(self).flat.wf(),
            nm_bounded(old(self).seg_ids.model(), old(self).flat.segs@.len() as int),
            old(self).flat.segs@.len() <= u32::MAX,
            old(self).flat.links@.len() < u32::MAX,
            old(self).flat.overlap_data@.len() + link.overlap@.len() <= u32::MAX,
        ensures
            final(self).seg_ids == old(self).seg_ids,
            final(self).flat.headers@ == old(self).flat.headers@,
            final(self).flat.header_data@ == old(self).flat.header_data@,
            final(self).flat.segs@ == old(self).flat.segs@,
            final(self).flat.seq_data@ == old(self).flat.seq_data@,
            final(self).flat.seg_data@ == old(self).flat.seg_data@,
            final(self).flat.paths@ == old(self).flat.paths@,
            final(self).flat.steps@ == old(self).flat.steps@,
            final(self).flat.overlaps@ == old(self).flat.overlaps@,
            final(self).flat.line_order@ == old(self).flat.line_order@,
            final(self).flat.wf(),
            r.is_ok() <==> (nm_resolve(old(self).seg_ids.model(), link.from_seg).is_some()
                && nm_resolve(old(self).seg_ids.model(), link.to_seg).is_some()),
            r.is_ok() ==> final(self).flat.links@ == old(self).flat.links@.push(
                (crate::flat::Link {
                    from: (Handle {
                        segment: nm_resolve(old(self).seg_ids.model(), link.from_seg).unwrap(),
                        orient: link.from_orient,
                    }),
                    to: (Handle {
                        segment: nm_resolve(old(self).seg_ids.model(), link.to_seg).unwrap(),
                        orient: link.to_orient,
                    }),
                    overlap: (crate::pool::Span {
                        start: old(self).flat.overlap_data@.len() as u32,
                        end: (old(self).flat.overlap_data@.len() + link.overlap@.len()) as u32,
                    }),
                }),
            ) && final(self).flat.overlap_data@ == old(self).flat.overlap_data@ + link.overlap@,
            r.is_err() ==> final(self).flat == old(self).flat,
            match r {
                Ok(_) => true,
                Err(ParseError::Undefined { name }) => (name == link.from_seg || name
                    == link.to_seg) && nm_resolve(old(self).seg_ids.model(), name).is_none(),
                Err(ParseError::Malformed { .. }) => false,
            },
    {
        let from_id = match self.seg_ids.get(link.from_seg) {
            Some(id) => id,
            None => {
                return Err(ParseError::Undefined { name: link.from_seg });
            },
        };
        let to_id = match self.seg_ids.get(link.to_seg) {
            Some(id) => id,
            None => {
                return Err(ParseError::Undefined { name: link.to_seg });
            },
        };
        proof {
            lemma_nm_resolve_bounded(
                self.seg_ids.model(),
                self.flat.segs@.len() as int,
                link.from_seg,
            );
            lemma_nm_resolve_bounded(
                self.seg_ids.model(),
                self.flat.segs@.len() as int,
                link.to_seg,
            );
        }
        let from = Handle::new(from_id, link.from_orient);
        let to = Handle::new(to_id, link.to_orient);
        let _ = self.flat.add_link(from, to, link.overlap.as_slice());
        Ok(())
    }

    /// Re-parse one buffered path line's step list, resolve every step
    /// name, and store the path.
    fn add_path(&mut self, idx: usize, p: &gfaline::Path) -> (r: Result<(), ParseError>)
        requires
            old(self).flat.wf(),
            nm_bounded(old(self).seg_ids.model(), old(self).flat.segs@.len() as int),
            old(self).flat.segs@.len() <= u32::MAX,
            old(self).flat.paths@.len() < u32::MAX,
            old(self).flat.steps@.len() + p.steps@.len() <= u32::MAX,
            old(self).flat.overlaps@.len() + p.overlaps@.len() <= u32::MAX,
            old(self).flat.overlap_data@.len() + crate::flat::flat_bytes(
                p.overlaps@.map_values(|v: Vec<u8>| v@),
            ).len() <= u32::MAX,
        ensures
            final(self).seg_ids == old(self).seg_ids,
            final(self).flat.headers@ == old(self).flat.headers@,
            final(self).flat.header_data@ == old(self).flat.header_data@,
            final(self).flat.segs@ == old(self).flat.segs@,
            final(self).flat.seq_data@ == old(self).flat.seq_data@,
            final(self).flat.seg_data@ == old(self).flat.seg_data@,
            final(self).flat.links@ == old(self).flat.links@,
            final(self).flat.line_order@ == old(self).flat.line_order@,
            final(self).flat.wf(),
            r.is_ok() <==> (gfaline::steps_from(p.steps@, 0).is_some() && steps_resolve(
                gfaline::steps_from(p.steps@, 0).unwrap(),
                old(self).seg_ids.model(),
            )),
            r.is_ok() ==> {
                let m = old(self).seg_ids.model();
                let raw = gfaline::steps_from(p.steps@, 0).unwrap();
                let ov = p.overlaps@.map_values(|v: Vec<u8>| v@);
                &&& final(self).flat.steps@ == old(self).flat.steps@ + resolved_steps(raw, m)
                &&& final(self).flat.paths@ == old(self).flat.paths@.push(
                    (crate::flat::Path {
                        name: p.name,
                        steps: (crate::pool::Span {
                            start: old(self).flat.steps@.len() as u32,
                            end: (old(self).flat.steps@.len() + raw.len()) as u32,
                        }),
                        overlaps: (crate::pool::Span {
                            start: old(self).flat.overlaps@.len() as u32,
                            end: (old(self).flat.overlaps@.len() + ov.len()) as u32,
                        }),
                    }),
                )
                &&& final(self).flat.overlaps@.len() == old(self).flat.overlaps@.len() + ov.len()
                &&& (forall|j: int|
                    0 <= j < old(self).flat.overlaps@.len() ==> final(self).flat.overlaps@[j]
                        == old(self).flat.overlaps@[j])
                &&& (forall|j: int|
                    0 <= j < ov.len() ==> {
                        let sp = #[trigger] final(self).flat.overlaps@[old(
                            self,
                        ).flat.overlaps@.len() + j];
                        final(self).flat.overlap_data@.subrange(sp.start as int, sp.end as int)
                            == ov[j]
                    })
                &&& final(self).flat.overlap_data@ == old(self).flat.overlap_data@
                    + crate::flat::flat_bytes(ov)
            },
            r.is_err() ==> final(self).flat == old(self).flat,
            match r {
                Ok(_) => true,
                Err(ParseError::Malformed { line }) => line == idx && gfaline::steps_from(
                    p.steps@,
                    0,
                ).is_none(),
                Err(ParseError::Undefined { .. }) => gfaline::steps_from(p.steps@, 0).is_some()
                    && !steps_resolve(
                    gfaline::steps_from(p.steps@, 0).unwrap(),
                    old(self).seg_ids.model(),
                ),
            },
    {
        let raw = match gfaline::parse_steps(p.steps.as_slice()) {
            Some(v) => v,
            None => {
                return Err(ParseError::Malformed { line: idx });
            },
        };
        let ghost m = self.seg_ids.model();
        let ghost sts = gfaline::steps_from(p.steps@, 0).unwrap();
        let mut handles: Vec<Handle> = Vec::new();
        let mut k: usize = 0;
        while k < raw.len()
            invariant
                0 <= k <= raw@.len(),
                raw@.map_values(|q: (usize, bool)| (q.0 as int, q.1)) == sts,
                gfaline::steps_from(p.steps@, 0) == Some(sts),
                m == self.seg_ids.model(),
                *self == *old(self),
                self.flat.wf(),
                nm_bounded(m, self.flat.segs@.len() as int),
                self.flat.segs@.len() <= u32::MAX,
                handles@ == resolved_steps(sts.take(k as int), m),
                forall|x: int|
                    0 <= x < handles@.len() ==> crate::flat::handle_in(
                        #[trigger] handles@[x],
                        self.flat.segs@.len(),
                    ),
                forall|x: int| 0 <= x < k ==> nm_resolve(m, (#[trigger] sts[x]).0 as usize).is_some(),
            decreases raw@.len() - k,
        {
            let pair = raw[k];
            let name = pair.0;
            let fwd = pair.1;
            proof {
                assert(sts[k as int] == (name as int, fwd));
            }
            let id = match self.seg_ids.get(name) {
                Some(id) => id,
                None => {
                    proof {
                        assert(nm_resolve(m, (sts[k as int]).0 as usize).is_none());
                        assert(!steps_resolve(sts, m));
                    }
                    return Err(ParseError::Undefined { name });
                },
            };
            proof {
                lemma_nm_resolve_bounded(m, self.flat.segs@.len() as int, name);
            }
            let o = if fwd {
                Orientation::Forward
            } else {
                Orientation::Backward
            };
            handles.push(Handle::new(id, o));
            proof {
                assert(sts.take(k + 1).drop_last() =~= sts.take(k as int));
                assert(handles@ =~= resolved_steps(sts.take(k + 1), m));
            }
            k = k + 1;
        }
        proof {
            assert(sts.take(sts.len() as int) =~= sts);
            lemma_steps_count(p.steps@, 0);
        }
        let _ = self.flat.add_path(p.name, handles, &p.overlaps);
        Ok(())
    }

    /// Resolve and store the deferred links, then the deferred paths,
    /// and hand the finished store out.
    fn finish(self, deferred: Deferred, Ghost(lv): Ghost<Seq<Seq<u8>>>) -> (r: Result<
        FlatGFAStore,
        ParseError,
    >)
        requires
            scan_inv(self, deferred, lv),
            total_weight(lv) <= u32::MAX,
        ensures
            r.is_ok() <==> (all_lines_ok(lv) && all_resolve(lv)),
            match r {
                Result::Ok(st) => st.wf() && st.line_order@ == lv.map_values(
                    |l: Seq<u8>| line_kind(l),
                ) && headers_match(st, lv) && segs_match(st, lv) && links_match(st, lv)
                    && paths_match(st, lv),
                Result::Err(ParseError::Malformed { line }) => line < lv.len() && !line_full_ok(
                    lv[line as int],
                ),
                Result::Err(ParseError::Undefined { .. }) => !all_resolve(lv),
            },
    {
        let ghost m = table_of(lv);
        let ghost ll = lines_of_kind(lv, LineKind::Link);
        let ghost pl = lines_of_kind(lv, LineKind::Path);
        let ghost dl = deferred.links@;
        let ghost dp = deferred.paths@;
        let mut s = self;
        proof {
            lemma_nm_of_bounded(seg_names_of(lv));
            lemma_lw_bounds(dl, 0);
            lemma_pw_bounds(dp, 0);
            assert(dl.take(0) =~= Seq::<gfaline::Link>::empty());
        }
        let mut j: usize = 0;
        while j < deferred.links.len()
            invariant
                0 <= j <= dl.len(),
                dl == deferred.links@,
                dp == deferred.paths@,
                m == table_of(lv),
                ll == lines_of_kind(lv, LineKind::Link),
                pl == lines_of_kind(lv, LineKind::Path),
                s.flat.wf(),
                s.seg_ids.model() == m,
                nm_bounded(m, s.flat.segs@.len() as int),
                s.flat.segs@.len() <= u32::MAX,
                s.flat.line_order@ == lv.map_values(|l: Seq<u8>| line_kind(l)),
                headers_match(s.flat, lv),
                segs_match(s.flat, lv),
                deferred_links_match(dl, lv),
                deferred_paths_match(dp, lv),
                scanned_ok(lv),
                total_weight(lv) <= u32::MAX,
                s.flat.links@.len() == j,
                forall|i: int| 0 <= i < j ==> link_resolves(#[trigger] ll[i], m),
                forall|i: int|
                    0 <= i < j ==> {
                        let lk = #[trigger] s.flat.links@[i];
                        &&& lk.from.segment == nm_resolve(
                            m,
                            gfaline::link_from_name(ll[i]) as usize,
                        ).unwrap()
                        &&& lk.from.orient == gfaline::spec_ori(gfaline::link_from_fwd(ll[i]))
                        &&& lk.to.segment == nm_resolve(
                            m,
                            gfaline::link_to_name(ll[i]) as usize,
                        ).unwrap()
                        &&& lk.to.orient == gfaline::spec_ori(gfaline::link_to_fwd(ll[i]))
                        &&& s.flat.overlap_data@.subrange(
                            lk.overlap.start as int,
                            lk.overlap.end as int,
                        ) == gfaline::link_overlap(ll[i])
                    },
                s.flat.paths@.len() == 0,
                s.flat.steps@.len() == 0,
                s.flat.overlaps@.len() == 0,
                pools_sum(s.flat) + (links_weight(dl) - links_weight(dl.take(j as int)))
                    + paths_weight(dp) <= total_weight(lv),
            decreases dl.len() - j,
        {
            proof {
                lemma_lw_take(dl, j + 1);
                lemma_lw_bounds(dl, j + 1);
                lemma_pw_bounds(dp, 0);
                assert(link_fields_match(dl[j as int], ll[j as int]));
            }
            let link = &deferred.links[j];
            let ghost fprev = s.flat;
            let res = s.add_link(link);
            match res {
                Result::Ok(_) => {},
                Result::Err(e) => {
                    proof {
                        assert(!link_resolves(ll[j as int], m));
                        lemma_lok_mem(lv, LineKind::Link, j as int);
                        assert(!all_resolve(lv)) by {
                            if all_resolve(lv) {
                                let i = choose|i: int|
                                    0 <= i < lv.len() && lv[i] == ll[j as int] && line_kind(
                                        #[trigger] lv[i],
                                    ) == LineKind::Link;
                                assert(line_ok(lv[i]));
                                assert(link_resolves(lv[i], table_of(lv)));
                            }
                        }
                    }
                    return Err(e);
                },
            }
            proof {
                let ov = dl[j as int].overlap@;
                assert forall|i: int| 0 <= i < j + 1 implies {
                    let lk = #[trigger] s.flat.links@[i];
                    &&& lk.from.segment == nm_resolve(
                        m,
                        gfaline::link_from_name(ll[i]) as usize,
                    ).unwrap()
                    &&& lk.from.orient == gfaline::spec_ori(gfaline::link_from_fwd(ll[i]))
                    &&& lk.to.segment == nm_resolve(m, gfaline::link_to_name(ll[i]) as usize).unwrap()
                    &&& lk.to.orient == gfaline::spec_ori(gfaline::link_to_fwd(ll[i]))
                    &&& s.flat.overlap_data@.subrange(lk.overlap.start as int, lk.overlap.end as int)
                        == gfaline::link_overlap(ll[i])
                } by {
                    if i < j {
                        let lk = fprev.links@[i];
                        assert(s.flat.links@[i] == lk);
                        lemma_subrange_stable(
                            fprev.overlap_data@,
                            ov,
                            lk.overlap.start as int,
                            lk.overlap.end as int,
                        );
                    } else {
                        assert((fprev.overlap_data@ + ov).subrange(
                            fprev.overlap_data@.len() as int,
                            fprev.overlap_data@.len() + ov.len() as int,
                        ) =~= ov);
                    }
                }
            }
            j = j + 1;
        }
        proof {
            assert(dl.take(dl.len() as int) =~= dl);
            assert(links_match(s.flat, lv));
            assert(dp.take(0) =~= Seq::<(usize, Vec<u8>)>::empty());
        }
        let mut jp: usize = 0;
        while jp < deferred.paths.len()
            invariant
                0 <= jp <= dp.len(),
                dl == deferred.links@,
                dp == deferred.paths@,
                m == table_of(lv),
                ll == lines_of_kind(lv, LineKind::Link),
                pl == lines_of_kind(lv, LineKind::Path),
                s.flat.wf(),
                s.seg_ids.model() == m,
                nm_bounded(m, s.flat.segs@.len() as int),
                s.flat.segs@.len() <= u32::MAX,
                s.flat.line_order@ == lv.map_values(|l: Seq<u8>| line_kind(l)),
                headers_match(s.flat, lv),
                segs_match(s.flat, lv),
                links_match(s.flat, lv),
                deferred_paths_match(dp, lv),
                scanned_ok(lv),
                total_weight(lv) <= u32::MAX,
                forall|i: int| 0 <= i < ll.len() ==> link_resolves(#[trigger] ll[i], m),
                s.flat.paths@.len() == jp,
                forall|i: int|
                    0 <= i < jp ==> line_full_ok(#[trigger] pl[i]) && path_resolves(pl[i], m),
                forall|i: int|
                    0 <= i < jp ==> {
                        let p = #[trigger] s.flat.paths@[i];
                        let ov = gfaline::path_overlaps(pl[i]);
                        &&& p.name as int == gfaline::path_name(pl[i])
                        &&& p.steps.wf()
                        &&& p.steps.end <= s.flat.steps@.len()
                        &&& s.flat.steps@.subrange(p.steps.start as int, p.steps.end as int)
                            == resolved_steps(
                            gfaline::steps_from(gfaline::path_steps_field(pl[i]), 0).unwrap(),
                            m,
                        )
                        &&& p.overlaps.spec_len() == ov.len()
                        &&& forall|jj: int|
                            0 <= jj < ov.len() ==> {
                                let sp = #[trigger] s.flat.overlaps@[p.overlaps.start + jj];
                                s.flat.overlap_data@.subrange(sp.start as int, sp.end as int)
                                    == ov[jj]
                            }
                    },
                pools_sum(s.flat) + (paths_weight(dp) - paths_weight(dp.take(jp as int)))
                    <= total_weight(lv),
            decreases dp.len() - jp,
        {
            proof {
                lemma_pw_take(dp, jp + 1);
                lemma_pw_bounds(dp, jp + 1);
            }
            let idx = deferred.paths[jp].0;
            let pline = &deferred.paths[jp].1;
            proof {
                assert(pline@ == pl[jp as int]);
                assert(lv[idx as int] == pl[jp as int]);
            }
            let parsed = gfaline::parse_line(pline.as_slice());
            match parsed {
                Option::None => {
                    proof {
                        assert(!line_full_ok(lv[idx as int]));
                        assert(!all_lines_ok(lv));
                    }
                    return Err(ParseError::Malformed { line: idx });
                },
                Option::Some(gfaline::Line::Path(p)) => {
                    proof {
                        lemma_path_bounds(pline@);
                        if gfaline::path_has_overlaps(pline@) {
                            lemma_comma_split_weight(gfaline::path_overlaps_field(pline@), 0);
                        }
                        lemma_flat_bytes_weight(p.overlaps@.map_values(|v: Vec<u8>| v@));
                    }
                    let ghost fprev = s.flat;
                    let res = s.add_path(idx, &p);
                    match res {
                        Result::Ok(_) => {
                            proof {
                                let ov = gfaline::path_overlaps(pl[jp as int]);
                                let raw = gfaline::steps_from(p.steps@, 0).unwrap();
                                lemma_steps_count(p.steps@, 0);
                                assert(s.flat.steps@.subrange(
                                    fprev.steps@.len() as int,
                                    fprev.steps@.len() + raw.len() as int,
                                ) =~= resolved_steps(raw, m));
                                let newp = s.flat.paths@[jp as int];
                                assert(newp.name == p.name);
                                assert(newp.steps.start as int == fprev.steps@.len());
                                assert(newp.steps.end as int == fprev.steps@.len() + raw.len());
                                assert(newp.overlaps.start as int == fprev.overlaps@.len());
                                assert(newp.overlaps.end as int == fprev.overlaps@.len()
                                    + p.overlaps@.len());
                                assert(p.steps@ == gfaline::path_steps_field(pl[jp as int]));
                                assert(p.overlaps@.map_values(|v: Vec<u8>| v@) == ov);
                                assert(s.flat.steps@.subrange(
                                    newp.steps.start as int,
                                    newp.steps.end as int,
                                ) == resolved_steps(raw, m));
                                assert forall|i: int| 0 <= i < ll.len() implies {
                                    let lk = #[trigger] s.flat.links@[i];
                                    &&& lk.from.segment == nm_resolve(
                                        m,
                                        gfaline::link_from_name(ll[i]) as usize,
                                    ).unwrap()
                                    &&& lk.from.orient == gfaline::spec_ori(
                                        gfaline::link_from_fwd(ll[i]),
                                    )
                                    &&& lk.to.segment == nm_resolve(
                                        m,
                                        gfaline::link_to_name(ll[i]) as usize,
                                    ).unwrap()
                                    &&& lk.to.orient == gfaline::spec_ori(
                                        gfaline::link_to_fwd(ll[i]),
                                    )
                                    &&& s.flat.overlap_data@.subrange(
                                        lk.overlap.start as int,
                                        lk.overlap.end as int,
                                    ) == gfaline::link_overlap(ll[i])
                                } by {
                                    let lk = fprev.links@[i];
                                    assert(s.flat.links@[i] == lk);
                                    lemma_subrange_stable(
                                        fprev.overlap_data@,
                                        crate::flat::flat_bytes(
                                            p.overlaps@.map_values(|v: Vec<u8>| v@),
                                        ),
                                        lk.overlap.start as int,
                                        lk.overlap.end as int,
                                    );
                                }
                                assert forall|i: int| 0 <= i < jp + 1 implies {
                                    let pr = #[trigger] s.flat.paths@[i];
                                    let ovi = gfaline::path_overlaps(pl[i]);
                                    &&& pr.name as int == gfaline::path_name(pl[i])
                                    &&& pr.steps.wf()
                                    &&& pr.steps.end <= s.flat.steps@.len()
                                    &&& s.flat.steps@.subrange(pr.steps.start as int, pr.steps.end as int)
                                        == resolved_steps(
                                        gfaline::steps_from(
                                            gfaline::path_steps_field(pl[i]),
                                            0,
                                        ).unwrap(),
                                        m,
                                    )
                                    &&& pr.overlaps.spec_len() == ovi.len()
                                    &&& forall|jj: int|
                                        0 <= jj < ovi.len() ==> {
                                            let sp = #[trigger] s.flat.overlaps@[pr.overlaps.start
                                                + jj];
                                            s.flat.overlap_data@.subrange(
                                                sp.start as int,
                                                sp.end as int,
                                            ) == ovi[jj]
                                        }
                                } by {
                                    if i < jp {
                                        let pr = fprev.paths@[i];
                                        assert(s.flat.paths@[i] == pr);
                                        assert(s.flat.steps@.subrange(
                                            pr.steps.start as int,
                                            pr.steps.end as int,
                                        ) =~= fprev.steps@.subrange(
                                            pr.steps.start as int,
                                            pr.steps.end as int,
                                        ));
                                        let ovi = gfaline::path_overlaps(pl[i]);
                                        assert forall|jj: int| 0 <= jj < ovi.len() implies {
                                            let sp = #[trigger] s.flat.overlaps@[pr.overlaps.start
                                                + jj];
                                            s.flat.overlap_data@.subrange(
                                                sp.start as int,
                                                sp.end as int,
                                            ) == ovi[jj]
                                        } by {
                                            assert(pr.overlaps.start + jj
                                                < fprev.overlaps@.len());
                                            let sp = fprev.overlaps@[pr.overlaps.start + jj];
                                            assert(s.flat.overlaps@[pr.overlaps.start + jj] == sp);
                                            lemma_subrange_stable(
                                                fprev.overlap_data@,
                                                crate::flat::flat_bytes(
                                                    p.overlaps@.map_values(|v: Vec<u8>| v@),
                                                ),
                                                sp.start as int,
                                                sp.end as int,
                                            );
                                        }
                                    } else {
                                        let pr = s.flat.paths@[i];
                                        assert(pl[i] == pl[jp as int]);
                                        let ovi = gfaline::path_overlaps(pl[i]);
                                        assert(p.overlaps@.map_values(|v: Vec<u8>| v@) == ovi);
                                        assert(pr.overlaps.start as int
                                            == fprev.overlaps@.len());
                                        assert(pr.steps.start as int == fprev.steps@.len());
                                        assert forall|jj: int| 0 <= jj < ovi.len() implies {
                                            let sp = #[trigger] s.flat.overlaps@[pr.overlaps.start
                                                + jj];
                                            s.flat.overlap_data@.subrange(
                                                sp.start as int,
                                                sp.end as int,
                                            ) == ovi[jj]
                                        } by {
                                            assert(s.flat.overlaps@[fprev.overlaps@.len() + jj]
                                                == s.flat.overlaps@[pr.overlaps.start + jj]);
                                        }
                                    }
                                }
                            }
                        },
                        Result::Err(e) => {
                            proof {
                                match e {
                                    ParseError::Malformed { line } => {
                                        assert(!line_full_ok(lv[idx as int]));
                                        assert(!all_lines_ok(lv));
                                    },
                                    ParseError::Undefined { .. } => {
                                        assert(!path_resolves(pl[jp as int], m));
                                        lemma_lok_mem(lv, LineKind::Path, jp as int);
                                        assert(!all_resolve(lv)) by {
                                            if all_resolve(lv) {
                                                let i = choose|i: int|
                                                    0 <= i < lv.len() && lv[i] == pl[jp as int]
                                                        && line_kind(#[trigger] lv[i])
                                                        == LineKind::Path;
                                                assert(line_ok(lv[i]));
                                                assert(path_resolves(lv[i], table_of(lv)));
                                            }
                                        }
                                    },
                                }
                            }
                            return Err(e);
                        },
                    }
                },
                Option::Some(_) => {
                    proof {
                        lemma_lok_mem(lv, LineKind::Path, jp as int);
                        let i = choose|i: int|
                            0 <= i < lv.len() && lv[i] == pl[jp as int] && line_kind(
                                #[trigger] lv[i],
                            ) == LineKind::Path;
                        assert(is_path(lv[i]) || line_ok(lv[i]));
                        assert(is_path(pl[jp as int]));
                        assert(false);
                    }
                    return Err(ParseError::Malformed { line: idx });
                },
            }
            jp = jp + 1;
        }
        proof {
            assert(paths_match(s.flat, lv));
            assert forall|i: int| 0 <= i < lv.len() implies line_full_ok(#[trigger] lv[i]) by {
                if is_path(lv[i]) {
                    lemma_lok_mem_rev(lv, LineKind::Path, i);
                } else {
                    assert(line_ok(lv[i]));
                }
            }
            assert forall|i: int|
                0 <= i < lv.len() implies {
                    let l = #[trigger] lv[i];
                    &&& (line_kind(l) == LineKind::Link && line_ok(l) ==> link_resolves(
                        l,
                        table_of(lv),
                    ))
                    &&& (line_kind(l) == LineKind::Path && line_ok(l) ==> path_resolves(
                        l,
                        table_of(lv),
                    ))
                } by {
                if line_kind(lv[i]) == LineKind::Link && line_ok(lv[i]) {
                    lemma_lok_mem_rev(lv, LineKind::Link, i);
                }
                if line_kind(lv[i]) == LineKind::Path && line_ok(lv[i]) {
                    lemma_lok_mem_rev(lv, LineKind::Path, i);
                }
            }
        }
        Ok(s.flat)
    }

    /// Parse a GFA text given as one byte string per line, building the
    /// flat store, resolving every link and path step through the name
    /// table once all segments are known.
    ///
    /// Succeeds exactly when every line matches the grammar and every
    /// referenced segment name is declared; the store then holds every
    /// record in declaration order, with the original line interleaving
    /// in its line-order table.
    pub fn parse(lines: &Vec<Vec<u8>>) -> (r: Result<FlatGFAStore, ParseError>)
        requires
            total_weight(views(lines@)) <= u32::MAX,
        ensures
            r.is_ok() <==> (all_lines_ok(views(lines@)) && all_resolve(views(lines@))),
            match r {
                Result::Ok(st) => st.wf() && st.line_order@ == views(lines@).map_values(
                    |l: Seq<u8>| line_kind(l),
                ) && headers_match(st, views(lines@)) && segs_match(st, views(lines@))
                    && links_match(st, views(lines@)) && paths_match(st, views(lines@)),
                Result::Err(ParseError::Malformed { line }) => line < lines@.len()
                    && !line_full_ok(views(lines@)[line as int]),
                Result::Err(ParseError::Undefined { .. }) => !all_resolve(views(lines@)),
            },
    {
        let ghost lv = views(lines@);
        let mut parser = Parser { flat: FlatGFAStore::new(), seg_ids: NameMap::new() };
        let mut deferred = Deferred { links: Vec::new(), paths: Vec::new() };
        proof {
            let pf0 = lv.take(0);
            assert(pf0 =~= Seq::<Seq<u8>>::empty());
            assert(parser.flat.line_order@ =~= pf0.map_values(|l: Seq<u8>| line_kind(l)));
            assert(seg_names_of(pf0) =~= Seq::<usize>::empty());
            assert(parser.seg_ids.model().others =~= table_of(pf0).others);
            assert(scan_inv(parser, deferred, pf0));
        }
        let mut i: usize = 0;
        while i < lines.len()
            invariant
                0 <= i <= lines@.len(),
                lv == views(lines@),
                total_weight(lv) <= u32::MAX,
                scan_inv(parser, deferred, lv.take(i as int)),
            decreases lines@.len() - i,
        {
            proof {
                lemma_tw_take(lv, i + 1);
                lemma_tw_mono(lv, i + 1);
                assert(lv[i as int] == lines@[i as int]@);
            }
            let ok = parser.parse_line(&lines[i], i, &mut deferred, Ghost(lv.take(i as int)));
            if !ok {
                proof {
                    assert(!line_ok(lv[i as int]) && !is_path(lv[i as int]));
                    assert(!line_full_ok(lv[i as int]));
                }
                return Err(ParseError::Malformed { line: i });
            }
            proof {
                assert(lv.take(i as int).push(lv[i as int]) =~= lv.take(i + 1));
            }
            i = i + 1;
        }
        proof {
            assert(lv.take(lines@.len() as int) =~= lv);
        }
        parser.finish(deferred, Ghost(lv))
    }
}

} // verus!
