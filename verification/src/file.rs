//! The mapped-file side of the dual backing: a fixed little-endian byte
//! layout for every pool of a graph, and a read-only view that decodes
//! records straight out of a byte region (such as a memory-mapped
//! file), with no deserialization pass.
//!
//! The region starts with a section table of eleven 32-bit counts, then
//! the pools in a fixed order. Fixed-size wire forms: a span is two
//! 32-bit ids (8 bytes); a segment is its name as a 64-bit integer plus
//! two spans (24 bytes); a handle is a 32-bit id plus one orientation
//! byte (5 bytes); a link is two handles plus a span (18 bytes); a path
//! is a 64-bit name plus two spans (24 bytes); a line kind is one byte.

use vstd::prelude::*;
use vstd::bytes::{
    spec_u32_to_le_bytes, spec_u32_from_le_bytes, spec_u64_to_le_bytes, spec_u64_from_le_bytes,
    u32_to_le_bytes, u32_from_le_bytes, u64_to_le_bytes, u64_from_le_bytes,
    lemma_auto_spec_u32_to_from_le_bytes, lemma_auto_spec_u64_to_from_le_bytes,
};
use crate::pool::Span;
use crate::flat::{Segment, Handle, Link, Path, LineKind, Orientation, FlatGFAStore};

verus! {

/// The wire form of one span: start then end.
pub open spec fn enc_span(sp: Span) -> Seq<u8> {
    spec_u32_to_le_bytes(sp.start) + spec_u32_to_le_bytes(sp.end)
}

/// The wire form of one orientation: 0 forward, 1 backward.
pub open spec fn enc_ori(o: Orientation) -> Seq<u8> {
    if o == Orientation::Forward {
        seq![0u8]
    } else {
        seq![1u8]
    }
}

/// The wire form of one handle: segment id then orientation byte.
pub open spec fn enc_handle(h: Handle) -> Seq<u8> {
    spec_u32_to_le_bytes(h.segment) + enc_ori(h.orient)
}

/// The wire form of one segment record.
pub open spec fn enc_seg(g: Segment) -> Seq<u8> {
    spec_u64_to_le_bytes(g.name as u64) + enc_span(g.seq) + enc_span(g.data)
}

/// The wire form of one link record.
pub open spec fn enc_link(l: Link) -> Seq<u8> {
    enc_handle(l.from) + enc_handle(l.to) + enc_span(l.overlap)
}

/// The wire form of one path record.
pub open spec fn enc_path(p: Path) -> Seq<u8> {
    spec_u64_to_le_bytes(p.name as u64) + enc_span(p.steps) + enc_span(p.overlaps)
}

/// The wire form of one line-order entry.
pub open spec fn enc_kind(k: LineKind) -> Seq<u8> {
    match k {
        LineKind::Header => seq![0u8],
        LineKind::Segment => seq![1u8],
        LineKind::Link => seq![2u8],
        LineKind::Path => seq![3u8],
    }
}

/// The concatenated wire forms of a whole pool.
pub open spec fn enc_concat<T>(s: Seq<T>, f: spec_fn(T) -> Seq<u8>) -> Seq<u8>
    decreases s.len(),
{
    if s.len() == 0 {
        Seq::empty()
    } else {
        enc_concat(s.drop_last(), f) + f(s.last())
    }
}

pub proof fn lemma_enc_concat_len<T>(s: Seq<T>, f: spec_fn(T) -> Seq<u8>, k: int)
    requires
        forall|x: T| (#[trigger] f(x)).len() == k,
    ensures
        enc_concat(s, f).len() == k * s.len(),
    decreases s.len(),
{
    if s.len() > 0 {
        lemma_enc_concat_len(s.drop_last(), f, k);
        assert(k * (s.len() - 1) + k == k * s.len()) by (nonlinear_arith);
    }
}

/// Record `i` sits at bytes `k * i .. k * (i + 1)` of its pool image.
pub proof fn lemma_enc_concat_at<T>(s: Seq<T>, f: spec_fn(T) -> Seq<u8>, k: int, i: int)
    requires
        forall|x: T| (#[trigger] f(x)).len() == k,
        0 <= i < s.len(),
        k >= 0,
    ensures
        enc_concat(s, f).subrange(k * i, k * (i + 1)) == f(s[i]),
    decreases s.len(),
{
    lemma_enc_concat_len(s.drop_last(), f, k);
    assert(k * (i + 1) == k * i + k) by (nonlinear_arith);
    if i == s.len() - 1 {
        assert(enc_concat(s, f).subrange(k * i, k * (i + 1)) =~= f(s[i]));
    } else {
        lemma_enc_concat_at(s.drop_last(), f, k, i);
        assert(k * (i + 1) <= k * (s.len() - 1)) by (nonlinear_arith)
            requires
                k >= 0,
                i + 1 <= s.len() - 1,
        ;
        assert(enc_concat(s, f).subrange(k * i, k * (i + 1)) =~= enc_concat(
            s.drop_last(),
            f,
        ).subrange(k * i, k * (i + 1)));
    }
}

/// The whole byte image of a store: the section table, then each pool.
pub open spec fn enc_store(st: FlatGFAStore) -> Seq<u8> {
    spec_u32_to_le_bytes(st.headers@.len() as u32) + spec_u32_to_le_bytes(
        st.header_data@.len() as u32,
    ) + spec_u32_to_le_bytes(st.segs@.len() as u32) + spec_u32_to_le_bytes(
        st.seq_data@.len() as u32,
    ) + spec_u32_to_le_bytes(st.seg_data@.len() as u32) + spec_u32_to_le_bytes(
        st.links@.len() as u32,
    ) + spec_u32_to_le_bytes(st.paths@.len() as u32) + spec_u32_to_le_bytes(
        st.steps@.len() as u32,
    ) + spec_u32_to_le_bytes(st.overlaps@.len() as u32) + spec_u32_to_le_bytes(
        st.overlap_data@.len() as u32,
    ) + spec_u32_to_le_bytes(st.line_order@.len() as u32) + enc_concat(
        st.headers@,
        |sp: Span| enc_span(sp),
    ) + st.header_data@ + enc_concat(st.segs@, |g: Segment| enc_seg(g)) + st.seq_data@
        + st.seg_data@ + enc_concat(st.links@, |l: Link| enc_link(l)) + enc_concat(
        st.paths@,
        |p: Path| enc_path(p),
    ) + enc_concat(st.steps@, |h: Handle| enc_handle(h)) + enc_concat(
        st.overlaps@,
        |sp: Span| enc_span(sp),
    ) + st.overlap_data@ + enc_concat(st.line_order@, |k: LineKind| enc_kind(k))
}

/// The span decoded from bytes `off .. off + 8`.
pub open spec fn dec_span_at(data: Seq<u8>, off: int) -> Span {
    Span {
        start: spec_u32_from_le_bytes(data.subrange(off, off + 4)),
        end: spec_u32_from_le_bytes(data.subrange(off + 4, off + 8)),
    }
}

/// The handle decoded from bytes `off .. off + 5`.
pub open spec fn dec_handle_at(data: Seq<u8>, off: int) -> Handle {
    Handle {
        segment: spec_u32_from_le_bytes(data.subrange(off, off + 4)),
        orient: if data[off + 4] == 0u8 {
            Orientation::Forward
        } else {
            Orientation::Backward
        },
    }
}

/// The segment record decoded from bytes `off .. off + 24`.
pub open spec fn dec_seg_at(data: Seq<u8>, off: int) -> Segment {
    Segment {
        name: spec_u64_from_le_bytes(data.subrange(off, off + 8)) as usize,
        seq: dec_span_at(data, off + 8),
        data: dec_span_at(data, off + 16),
    }
}

/// The link record decoded from bytes `off .. off + 18`.
pub open spec fn dec_link_at(data: Seq<u8>, off: int) -> Link {
    Link {
        from: dec_handle_at(data, off),
        to: dec_handle_at(data, off + 5),
        overlap: dec_span_at(data, off + 10),
    }
}

/// The path record decoded from bytes `off .. off + 24`.
pub open spec fn dec_path_at(data: Seq<u8>, off: int) -> Path {
    Path {
        name: spec_u64_from_le_bytes(data.subrange(off, off + 8)) as usize,
        steps: dec_span_at(data, off + 8),
        overlaps: dec_span_at(data, off + 16),
    }
}

/// The line kind decoded from the byte at `off`.
pub open spec fn dec_kind_at(data: Seq<u8>, off: int) -> LineKind {
    if data[off] == 0u8 {
        LineKind::Header
    } else if data[off] == 1u8 {
        LineKind::Segment
    } else if data[off] == 2u8 {
        LineKind::Link
    } else {
        LineKind::Path
    }
}

/// A read-only view over a byte region holding a whole graph: the
/// record counts and each section's base offset.
#[derive(Clone, Copy, PartialEq, Eq, Structural, Debug)]
pub struct FileView {
    pub n_headers: u32,
    pub hd_len: u32,
    pub n_segs: u32,
    pub seq_len: u32,
    pub sd_len: u32,
    pub n_links: u32,
    pub n_paths: u32,
    pub n_steps: u32,
    pub n_overlaps: u32,
    pub od_len: u32,
    pub n_lo: u32,
    pub off_headers: usize,
    pub off_hd: usize,
    pub off_segs: usize,
    pub off_seq: usize,
    pub off_sd: usize,
    pub off_links: usize,
    pub off_paths: usize,
    pub off_steps: usize,
    pub off_overlaps: usize,
    pub off_od: usize,
    pub off_lo: usize,
}

/// The region is exactly a section table plus the declared sections.
pub open spec fn view_ok(v: FileView, data: Seq<u8>) -> bool {
    &&& data.len() >= 44
    &&& v.n_headers == spec_u32_from_le_bytes(data.subrange(0, 4))
    &&& v.hd_len == spec_u32_from_le_bytes(data.subrange(4, 8))
    &&& v.n_segs == spec_u32_from_le_bytes(data.subrange(8, 12))
    &&& v.seq_len == spec_u32_from_le_bytes(data.subrange(12, 16))
    &&& v.sd_len == spec_u32_from_le_bytes(data.subrange(16, 20))
    &&& v.n_links == spec_u32_from_le_bytes(data.subrange(20, 24))
    &&& v.n_paths == spec_u32_from_le_bytes(data.subrange(24, 28))
    &&& v.n_steps == spec_u32_from_le_bytes(data.subrange(28, 32))
    &&& v.n_overlaps == spec_u32_from_le_bytes(data.subrange(32, 36))
    &&& v.od_len == spec_u32_from_le_bytes(data.subrange(36, 40))
    &&& v.n_lo == spec_u32_from_le_bytes(data.subrange(40, 44))
    &&& v.off_headers == 44
    &&& v.off_hd == v.off_headers + 8 * (v.n_headers as int)
    &&& v.off_segs == v.off_hd + v.hd_len
    &&& v.off_seq == v.off_segs + 24 * (v.n_segs as int)
    &&& v.off_sd == v.off_seq + v.seq_len
    &&& v.off_links == v.off_sd + v.sd_len
    &&& v.off_paths == v.off_links + 18 * (v.n_links as int)
    &&& v.off_steps == v.off_paths + 24 * (v.n_paths as int)
    &&& v.off_overlaps == v.off_steps + 5 * (v.n_steps as int)
    &&& v.off_od == v.off_overlaps + 8 * (v.n_overlaps as int)
    &&& v.off_lo == v.off_od + v.od_len
    &&& data.len() == v.off_lo + v.n_lo
}

/// The end of a section that starts at `prev` and holds `count`
/// records of `size` bytes, if it fits in an address.
fn sec_end(prev: usize, count: u32, size: usize) -> (r: Option<usize>)
    ensures
        r.is_some() <==> prev + (count as int) * size <= usize::MAX,
        r.is_some() ==> r.unwrap() == prev + (count as int) * size,
{
    match (count as usize).checked_mul(size) {
        Some(b) => prev.checked_add(b),
        None => None,
    }
}

/// Read the 32-bit count at entry `i` of the section table.
fn table_entry(data: &[u8], i: usize) -> (r: u32)
    requires
        data@.len() >= 44,
        i < 11,
    ensures
        r == spec_u32_from_le_bytes(data@.subrange(4 * i, 4 * i + 4)),
{
    u32_from_le_bytes(vstd::slice::slice_subrange(data, 4 * i, 4 * i + 4))
}

impl FileView {
    /// Interpret a byte region as a graph, checking that its declared
    /// section sizes add up to exactly the region's length.
    pub fn new(data: &[u8]) -> (r: Option<FileView>)
        ensures
            r.is_some() ==> view_ok(r.unwrap(), data@),
            r.is_none() ==> (forall|v: FileView| !view_ok(v, data@)),
    {
        if data.len() < 44 {
            return None;
        }
        let n_headers = table_entry(data, 0);
        let hd_len = table_entry(data, 1);
        let n_segs = table_entry(data, 2);
        let seq_len = table_entry(data, 3);
        let sd_len = table_entry(data, 4);
        let n_links = table_entry(data, 5);
        let n_paths = table_entry(data, 6);
        let n_steps = table_entry(data, 7);
        let n_overlaps = table_entry(data, 8);
        let od_len = table_entry(data, 9);
        let n_lo = table_entry(data, 10);
        let off_headers: usize = 44;
        let off_hd = match sec_end(off_headers, n_headers, 8) {
            Some(x) => x,
            None => {
                return None;
            },
        };
        let off_segs = match sec_end(off_hd, hd_len, 1) {
            Some(x) => x,
            None => {
                return None;
            },
        };
        let off_seq = match sec_end(off_segs, n_segs, 24) {
            Some(x) => x,
            None => {
                return None;
            },
        };
        let off_sd = match sec_end(off_seq, seq_len, 1) {
            Some(x) => x,
            None => {
                return None;
            },
        };
        let off_links = match sec_end(off_sd, sd_len, 1) {
            Some(x) => x,
            None => {
                return None;
            },
        };
        let off_paths = match sec_end(off_links, n_links, 18) {
            Some(x) => x,
            None => {
                return None;
            },
        };
        let off_steps = match sec_end(off_paths, n_paths, 24) {
            Some(x) => x,
            None => {
                return None;
            },
        };
        let off_overlaps = match sec_end(off_steps, n_steps, 5) {
            Some(x) => x,
            None => {
                return None;
            },
        };
        let off_od = match sec_end(off_overlaps, n_overlaps, 8) {
            Some(x) => x,
            None => {
                return None;
            },
        };
        let off_lo = match sec_end(off_od, od_len, 1) {
            Some(x) => x,
            None => {
                return None;
            },
        };
        let total = match sec_end(off_lo, n_lo, 1) {
            Some(x) => x,
            None => {
                return None;
            },
        };
        if data.len() != total {
            return None;
        }
        Some(
            FileView {
                n_headers,
                hd_len,
                n_segs,
                seq_len,
                sd_len,
                n_links,
                n_paths,
                n_steps,
                n_overlaps,
                od_len,
                n_lo,
                off_headers,
                off_hd,
                off_segs,
                off_seq,
                off_sd,
                off_links,
                off_paths,
                off_steps,
                off_overlaps,
                off_od,
                off_lo,
            },
        )
    }

    /// The number of segment records the region holds.
    pub fn count(&self) -> (r: usize)
        ensures
            r == self.n_segs,
    {
        self.n_segs as usize
    }

    /// Decode header span `i` straight out of the region.
    pub fn get_header(&self, data: &[u8], i: u32) -> (r: Span)
        requires
            view_ok(*self, data@),
            i < self.n_headers,
        ensures
            r == dec_span_at(data@, self.off_headers + 8 * (i as int)),
    {
        read_span(data, self.off_headers + 8 * (i as usize))
    }

    /// Decode segment record `i` straight out of the region.
    pub fn get_seg(&self, data: &[u8], i: u32) -> (r: Segment)
        requires
            view_ok(*self, data@),
            i < self.n_segs,
        ensures
            r == dec_seg_at(data@, self.off_segs + 24 * (i as int)),
    {
        let off = self.off_segs + 24 * (i as usize);
        let name = u64_from_le_bytes(vstd::slice::slice_subrange(data, off, off + 8));
        Segment {
            name: name as usize,
            seq: read_span(data, off + 8),
            data: read_span(data, off + 16),
        }
    }

    /// Decode link record `i` straight out of the region.
    pub fn get_link(&self, data: &[u8], i: u32) -> (r: Link)
        requires
            view_ok(*self, data@),
            i < self.n_links,
        ensures
            r == dec_link_at(data@, self.off_links + 18 * (i as int)),
    {
        let off = self.off_links + 18 * (i as usize);
        Link {
            from: read_handle(data, off),
            to: read_handle(data, off + 5),
            overlap: read_span(data, off + 10),
        }
    }

    /// Decode path record `i` straight out of the region.
    pub fn get_path(&self, data: &[u8], i: u32) -> (r: Path)
        requires
            view_ok(*self, data@),
            i < self.n_paths,
        ensures
            r == dec_path_at(data@, self.off_paths + 24 * (i as int)),
    {
        let off = self.off_paths + 24 * (i as usize);
        let name = u64_from_le_bytes(vstd::slice::slice_subrange(data, off, off + 8));
        Path {
            name: name as usize,
            steps: read_span(data, off + 8),
            overlaps: read_span(data, off + 16),
        }
    }

    /// Decode step handle `i` straight out of the region.
    pub fn get_step(&self, data: &[u8], i: u32) -> (r: Handle)
        requires
            view_ok(*self, data@),
            i < self.n_steps,
        ensures
            r == dec_handle_at(data@, self.off_steps + 5 * (i as int)),
    {
        read_handle(data, self.off_steps + 5 * (i as usize))
    }

    /// Decode overlap descriptor span `i` straight out of the region.
    pub fn get_overlap(&self, data: &[u8], i: u32) -> (r: Span)
        requires
            view_ok(*self, data@),
            i < self.n_overlaps,
        ensures
            r == dec_span_at(data@, self.off_overlaps + 8 * (i as int)),
    {
        read_span(data, self.off_overlaps + 8 * (i as usize))
    }

    /// Decode line-order entry `i` straight out of the region.
    pub fn get_line_kind(&self, data: &[u8], i: u32) -> (r: LineKind)
        requires
            view_ok(*self, data@),
            i < self.n_lo,
        ensures
            r == dec_kind_at(data@, self.off_lo + i as int),
    {
        let n = data.len();
        let b = data[self.off_lo + (i as usize)];
        if b == 0 {
            LineKind::Header
        } else if b == 1 {
            LineKind::Segment
        } else if b == 2 {
            LineKind::Link
        } else {
            LineKind::Path
        }
    }

    /// Borrow a segment's sequence bytes straight out of the region.
    pub fn get_seq<'a>(&self, data: &'a [u8], g: &Segment) -> (r: &'a [u8])
        requires
            view_ok(*self, data@),
            g.seq.wf(),
            g.seq.end <= self.seq_len,
        ensures
            r@ == data@.subrange(self.off_seq + g.seq.start as int, self.off_seq + g.seq.end as int),
    {
        let dn = data.len();
        proof {
            assert(self.off_seq + g.seq.end as int <= dn);
        }
        vstd::slice::slice_subrange(
            data,
            self.off_seq + g.seq.start as usize,
            self.off_seq + g.seq.end as usize,
        )
    }

    /// Borrow an overlap descriptor's bytes straight out of the region.
    pub fn get_overlap_data<'a>(&self, data: &'a [u8], sp: Span) -> (r: &'a [u8])
        requires
            view_ok(*self, data@),
            sp.wf(),
            sp.end <= self.od_len,
        ensures
            r@ == data@.subrange(self.off_od + sp.start as int, self.off_od + sp.end as int),
    {
        let dn = data.len();
        proof {
            assert(self.off_od + sp.end as int <= dn);
        }
        vstd::slice::slice_subrange(
            data,
            self.off_od + sp.start as usize,
            self.off_od + sp.end as usize,
        )
    }
}

/// Decode the span at byte offset `off`.
fn read_span(data: &[u8], off: usize) -> (r: Span)
    requires
        off + 8 <= data@.len(),
    ensures
        r == dec_span_at(data@, off as int),
{
    let n = data.len();
    Span {
        start: u32_from_le_bytes(vstd::slice::slice_subrange(data, off, off + 4)),
        end: u32_from_le_bytes(vstd::slice::slice_subrange(data, off + 4, off + 8)),
    }
}

/// Decode the handle at byte offset `off`.
fn read_handle(data: &[u8], off: usize) -> (r: Handle)
    requires
        off + 5 <= data@.len(),
    ensures
        r == dec_handle_at(data@, off as int),
{
    let n = data.len();
    let segment = u32_from_le_bytes(vstd::slice::slice_subrange(data, off, off + 4));
    let b = data[off + 4];
    Handle {
        segment,
        orient: if b == 0 {
            Orientation::Forward
        } else {
            Orientation::Backward
        },
    }
}

/// Append one span's wire form.
fn push_span(out: &mut Vec<u8>, sp: Span)
    ensures
        final(out)@ == old(out)@ + enc_span(sp),
{
    let mut b = u32_to_le_bytes(sp.start);
    out.append(&mut b);
    let mut b = u32_to_le_bytes(sp.end);
    out.append(&mut b);
    proof {
        assert(final(out)@ =~= old(out)@ + enc_span(sp));
    }
}

/// Append one handle's wire form.
fn push_handle(out: &mut Vec<u8>, h: Handle)
    ensures
        final(out)@ == old(out)@ + enc_handle(h),
{
    let mut b = u32_to_le_bytes(h.segment);
    out.append(&mut b);
    let o: u8 = if matches!(h.orient, Orientation::Forward) {
        0
    } else {
        1
    };
    out.push(o);
    proof {
        assert(final(out)@ =~= old(out)@ + enc_handle(h));
    }
}

/// Append one segment record's wire form.
fn push_seg(out: &mut Vec<u8>, g: &Segment)
    ensures
        final(out)@ == old(out)@ + enc_seg(*g),
{
    let mut b = u64_to_le_bytes(g.name as u64);
    out.append(&mut b);
    push_span(out, g.seq);
    push_span(out, g.data);
    proof {
        assert(final(out)@ =~= old(out)@ + enc_seg(*g));
    }
}

/// Append one link record's wire form.
fn push_link(out: &mut Vec<u8>, l: &Link)
    ensures
        final(out)@ == old(out)@ + enc_link(*l),
{
    push_handle(out, l.from);
    push_handle(out, l.to);
    push_span(out, l.overlap);
    proof {
        assert(final(out)@ =~= old(out)@ + enc_link(*l));
    }
}

/// Append one path record's wire form.
fn push_path(out: &mut Vec<u8>, p: &Path)
    ensures
        final(out)@ == old(out)@ + enc_path(*p),
{
    let mut b = u64_to_le_bytes(p.name as u64);
    out.append(&mut b);
    push_span(out, p.steps);
    push_span(out, p.overlaps);
    proof {
        assert(final(out)@ =~= old(out)@ + enc_path(*p));
    }
}

/// Append one line-order entry's wire form.
fn push_kind(out: &mut Vec<u8>, k: LineKind)
    ensures
        final(out)@ == old(out)@ + enc_kind(k),
{
    let b: u8 = match k {
        LineKind::Header => 0,
        LineKind::Segment => 1,
        LineKind::Link => 2,
        LineKind::Path => 3,
    };
    out.push(b);
    proof {
        assert(final(out)@ =~= old(out)@ + enc_kind(k));
    }
}

/// Write a store into the flat byte layout. The image is byte-for-byte
/// what a mapped reader expects: decoding it yields exactly the records
/// the store holds, so the layout is identical whether produced by heap
/// construction or reinterpreted from bytes.
pub fn encode_store(st: &FlatGFAStore) -> (r: Vec<u8>)
    requires
        st.headers@.len() <= u32::MAX,
        st.header_data@.len() <= u32::MAX,
        st.segs@.len() <= u32::MAX,
        st.seq_data@.len() <= u32::MAX,
        st.seg_data@.len() <= u32::MAX,
        st.links@.len() <= u32::MAX,
        st.paths@.len() <= u32::MAX,
        st.steps@.len() <= u32::MAX,
        st.overlaps@.len() <= u32::MAX,
        st.overlap_data@.len() <= u32::MAX,
        st.line_order@.len() <= u32::MAX,
    ensures
        r@ == enc_store(*st),
{
    let mut out: Vec<u8> = Vec::new();
    let mut b = u32_to_le_bytes(st.headers.len() as u32);
    out.append(&mut b);
    let mut b = u32_to_le_bytes(st.header_data.len() as u32);
    out.append(&mut b);
    let mut b = u32_to_le_bytes(st.segs.len() as u32);
    out.append(&mut b);
    let mut b = u32_to_le_bytes(st.seq_data.len() as u32);
    out.append(&mut b);
    let mut b = u32_to_le_bytes(st.seg_data.len() as u32);
    out.append(&mut b);
    let mut b = u32_to_le_bytes(st.links.len() as u32);
    out.append(&mut b);
    let mut b = u32_to_le_bytes(st.paths.len() as u32);
    out.append(&mut b);
    let mut b = u32_to_le_bytes(st.steps.len() as u32);
    out.append(&mut b);
    let mut b = u32_to_le_bytes(st.overlaps.len() as u32);
    out.append(&mut b);
    let mut b = u32_to_le_bytes(st.overlap_data.len() as u32);
    out.append(&mut b);
    let mut b = u32_to_le_bytes(st.line_order.len() as u32);
    out.append(&mut b);
    let ghost base0 = out@;
    let mut i: usize = 0;
    while i < st.headers.len()
        invariant
            0 <= i <= st.headers@.len(),
            out@ == base0 + enc_concat(st.headers@.take(i as int), |sp: Span| enc_span(sp)),
        decreases st.headers@.len() - i,
    {
        push_span(&mut out, st.headers[i]);
        proof {
            lemma_concat_take_step(st.headers@, |sp: Span| enc_span(sp), i as int);
        }
        i = i + 1;
    }
    proof {
        assert(st.headers@.take(st.headers@.len() as int) =~= st.headers@);
    }
    let mut raw = vstd::slice::slice_to_vec(st.header_data.as_slice());
    out.append(&mut raw);
    let ghost base1 = out@;
    let mut i: usize = 0;
    while i < st.segs.len()
        invariant
            0 <= i <= st.segs@.len(),
            out@ == base1 + enc_concat(st.segs@.take(i as int), |g: Segment| enc_seg(g)),
        decreases st.segs@.len() - i,
    {
        push_seg(&mut out, &st.segs[i]);
        proof {
            lemma_concat_take_step(st.segs@, |g: Segment| enc_seg(g), i as int);
        }
        i = i + 1;
    }
    proof {
        assert(st.segs@.take(st.segs@.len() as int) =~= st.segs@);
    }
    let mut raw = vstd::slice::slice_to_vec(st.seq_data.as_slice());
    out.append(&mut raw);
    let mut raw = vstd::slice::slice_to_vec(st.seg_data.as_slice());
    out.append(&mut raw);
    let ghost base2 = out@;
    let mut i: usize = 0;
    while i < st.links.len()
        invariant
            0 <= i <= st.links@.len(),
            out@ == base2 + enc_concat(st.links@.take(i as int), |l: Link| enc_link(l)),
        decreases st.links@.len() - i,
    {
        push_link(&mut out, &st.links[i]);
        proof {
            lemma_concat_take_step(st.links@, |l: Link| enc_link(l), i as int);
        }
        i = i + 1;
    }
    proof {
        assert(st.links@.take(st.links@.len() as int) =~= st.links@);
    }
    let ghost base3 = out@;
    let mut i: usize = 0;
    while i < st.paths.len()
        invariant
            0 <= i <= st.paths@.len(),
            out@ == base3 + enc_concat(st.paths@.take(i as int), |p: Path| enc_path(p)),
        decreases st.paths@.len() - i,
    {
        push_path(&mut out, &st.paths[i]);
        proof {
            lemma_concat_take_step(st.paths@, |p: Path| enc_path(p), i as int);
        }
        i = i + 1;
    }
    proof {
        assert(st.paths@.take(st.paths@.len() as int) =~= st.paths@);
    }
    let ghost base4 = out@;
    let mut i: usize = 0;
    while i < st.steps.len()
        invariant
            0 <= i <= st.steps@.len(),
            out@ == base4 + enc_concat(st.steps@.take(i as int), |h: Handle| enc_handle(h)),
        decreases st.steps@.len() - i,
    {
        push_handle(&mut out, st.steps[i]);
        proof {
            lemma_concat_take_step(st.steps@, |h: Handle| enc_handle(h), i as int);
        }
        i = i + 1;
    }
    proof {
        assert(st.steps@.take(st.steps@.len() as int) =~= st.steps@);
    }
    let ghost base5 = out@;
    let mut i: usize = 0;
    while i < st.overlaps.len()
        invariant
            0 <= i <= st.overlaps@.len(),
            out@ == base5 + enc_concat(st.overlaps@.take(i as int), |sp: Span| enc_span(sp)),
        decreases st.overlaps@.len() - i,
    {
        push_span(&mut out, st.overlaps[i]);
        proof {
            lemma_concat_take_step(st.overlaps@, |sp: Span| enc_span(sp), i as int);
        }
        i = i + 1;
    }
    proof {
        assert(st.overlaps@.take(st.overlaps@.len() as int) =~= st.overlaps@);
    }
    let mut raw = vstd::slice::slice_to_vec(st.overlap_data.as_slice());
    out.append(&mut raw);
    let ghost base6 = out@;
    let mut i: usize = 0;
    while i < st.line_order.len()
        invariant
            0 <= i <= st.line_order@.len(),
            out@ == base6 + enc_concat(st.line_order@.take(i as int), |k: LineKind| enc_kind(k)),
        decreases st.line_order@.len() - i,
    {
        push_kind(&mut out, st.line_order[i]);
        proof {
            lemma_concat_take_step(st.line_order@, |k: LineKind| enc_kind(k), i as int);
        }
        i = i + 1;
    }
    proof {
        assert(st.line_order@.take(st.line_order@.len() as int) =~= st.line_order@);
        assert(out@ =~= enc_store(*st));
    }
    out
}

/// One loop step extends a pool image by exactly one record.
proof fn lemma_concat_take_step<T>(s: Seq<T>, f: spec_fn(T) -> Seq<u8>, i: int)
    requires
        0 <= i < s.len(),
    ensures
        enc_concat(s.take(i + 1), f) == enc_concat(s.take(i), f) + f(s[i]),
{
    assert(s.take(i + 1).drop_last() =~= s.take(i));
    assert(s.take(i + 1).last() == s[i]);
}

proof fn lemma_dec_span(data: Seq<u8>, off: int, sp: Span)
    requires
        0 <= off,
        off + 8 <= data.len(),
        data.subrange(off, off + 8) == enc_span(sp),
    ensures
        dec_span_at(data, off) == sp,
{
    lemma_auto_spec_u32_to_from_le_bytes();
    assert(spec_u32_to_le_bytes(sp.start).len() == 4);
    assert(spec_u32_to_le_bytes(sp.end).len() == 4);
    assert forall|j: int| off <= j < off + 8 implies data[j] == enc_span(sp)[j - off] by {
        assert(data.subrange(off, off + 8)[j - off] == enc_span(sp)[j - off]);
    }
    assert(data.subrange(off, off + 4) =~= spec_u32_to_le_bytes(sp.start));
    assert(data.subrange(off + 4, off + 8) =~= spec_u32_to_le_bytes(sp.end));
}

proof fn lemma_dec_handle(data: Seq<u8>, off: int, h: Handle)
    requires
        0 <= off,
        off + 5 <= data.len(),
        data.subrange(off, off + 5) == enc_handle(h),
    ensures
        dec_handle_at(data, off) == h,
{
    lemma_auto_spec_u32_to_from_le_bytes();
    assert(spec_u32_to_le_bytes(h.segment).len() == 4);
    assert forall|j: int| off <= j < off + 5 implies data[j] == enc_handle(h)[j - off] by {
        assert(data.subrange(off, off + 5)[j - off] == enc_handle(h)[j - off]);
    }
    assert(data.subrange(off, off + 4) =~= spec_u32_to_le_bytes(h.segment));
    assert(data[off + 4] == enc_handle(h)[4]);
}

proof fn lemma_dec_seg(data: Seq<u8>, off: int, g: Segment)
    requires
        0 <= off,
        off + 24 <= data.len(),
        data.subrange(off, off + 24) == enc_seg(g),
    ensures
        dec_seg_at(data, off) == g,
{
    lemma_auto_spec_u64_to_from_le_bytes();
    lemma_auto_spec_u32_to_from_le_bytes();
    assert(spec_u64_to_le_bytes(g.name as u64).len() == 8);
    assert(enc_span(g.seq).len() == 8);
    assert(enc_span(g.data).len() == 8);
    assert forall|j: int| off <= j < off + 24 implies data[j] == enc_seg(g)[j - off] by {
        assert(data.subrange(off, off + 24)[j - off] == enc_seg(g)[j - off]);
    }
    assert(data.subrange(off, off + 8) =~= spec_u64_to_le_bytes(g.name as u64));
    assert(data.subrange(off + 8, off + 16) =~= enc_span(g.seq));
    assert(data.subrange(off + 16, off + 24) =~= enc_span(g.data));
    lemma_dec_span(data, off + 8, g.seq);
    lemma_dec_span(data, off + 16, g.data);
}

proof fn lemma_dec_link(data: Seq<u8>, off: int, l: Link)
    requires
        0 <= off,
        off + 18 <= data.len(),
        data.subrange(off, off + 18) == enc_link(l),
    ensures
        dec_link_at(data, off) == l,
{
    lemma_auto_spec_u32_to_from_le_bytes();
    assert(enc_handle(l.from).len() == 5);
    assert(enc_handle(l.to).len() == 5);
    assert(enc_span(l.overlap).len() == 8);
    assert forall|j: int| off <= j < off + 18 implies data[j] == enc_link(l)[j - off] by {
        assert(data.subrange(off, off + 18)[j - off] == enc_link(l)[j - off]);
    }
    assert(data.subrange(off, off + 5) =~= enc_handle(l.from));
    assert(data.subrange(off + 5, off + 10) =~= enc_handle(l.to));
    assert(data.subrange(off + 10, off + 18) =~= enc_span(l.overlap));
    lemma_dec_handle(data, off, l.from);
    lemma_dec_handle(data, off + 5, l.to);
    lemma_dec_span(data, off + 10, l.overlap);
}

proof fn lemma_dec_path(data: Seq<u8>, off: int, p: Path)
    requires
        0 <= off,
        off + 24 <= data.len(),
        data.subrange(off, off + 24) == enc_path(p),
    ensures
        dec_path_at(data, off) == p,
{
    lemma_auto_spec_u64_to_from_le_bytes();
    lemma_auto_spec_u32_to_from_le_bytes();
    assert(spec_u64_to_le_bytes(p.name as u64).len() == 8);
    assert(enc_span(p.steps).len() == 8);
    assert(enc_span(p.overlaps).len() == 8);
    assert forall|j: int| off <= j < off + 24 implies data[j] == enc_path(p)[j - off] by {
        assert(data.subrange(off, off + 24)[j - off] == enc_path(p)[j - off]);
    }
    assert(data.subrange(off, off + 8) =~= spec_u64_to_le_bytes(p.name as u64));
    assert(data.subrange(off + 8, off + 16) =~= enc_span(p.steps));
    assert(data.subrange(off + 16, off + 24) =~= enc_span(p.overlaps));
    lemma_dec_span(data, off + 8, p.steps);
    lemma_dec_span(data, off + 16, p.overlaps);
}

/// A record pool decodes back record by record.
proof fn lemma_pool_section<T>(
    data: Seq<u8>,
    off: int,
    s: Seq<T>,
    f: spec_fn(T) -> Seq<u8>,
    k: int,
)
    requires
        forall|x: T| (#[trigger] f(x)).len() == k,
        k >= 0,
        0 <= off,
        off + k * s.len() <= data.len(),
        data.subrange(off, off + k * s.len()) == enc_concat(s, f),
    ensures
        forall|i: int|
            0 <= i < s.len() ==> data.subrange(off + k * i, off + k * (i + 1)) == f(#[trigger] s[i]),
{
    assert forall|i: int| 0 <= i < s.len() implies data.subrange(off + k * i, off + k * (i + 1))
        == f(#[trigger] s[i]) by {
        lemma_enc_concat_len(s, f, k);
        lemma_enc_concat_at(s, f, k, i);
        assert(k * (i + 1) == k * i + k) by (nonlinear_arith);
        assert(k * (i + 1) <= k * s.len()) by (nonlinear_arith)
            requires
                k >= 0,
                i + 1 <= s.len(),
        ;
        assert(0 <= k * i) by (nonlinear_arith)
            requires
                k >= 0,
                i >= 0,
        ;
        assert(data.subrange(off + k * i, off + k * (i + 1)) =~= enc_concat(s, f).subrange(
            k * i,
            k * (i + 1),
        ));
    }
}

/// Round trip: interpreting the byte image of a store gives a view
/// that decodes every record of every pool, and reads back every raw
/// byte section, exactly as the store holds them.

/// One section of the byte image holds exactly its pool's bytes.
proof fn lemma_rt_sec_0(st: FlatGFAStore)
    ensures
        enc_store(st).subrange((0) as int, (4) as int) == spec_u32_to_le_bytes(st.headers@.len() as u32),
{
    lemma_auto_spec_u32_to_from_le_bytes();
    lemma_auto_spec_u64_to_from_le_bytes();
    lemma_enc_concat_len(st.headers@, |sp: Span| enc_span(sp), 8);
    lemma_enc_concat_len(st.segs@, |g: Segment| enc_seg(g), 24);
    lemma_enc_concat_len(st.links@, |l: Link| enc_link(l), 18);
    lemma_enc_concat_len(st.paths@, |p: Path| enc_path(p), 24);
    lemma_enc_concat_len(st.steps@, |h: Handle| enc_handle(h), 5);
    lemma_enc_concat_len(st.overlaps@, |sp: Span| enc_span(sp), 8);
    lemma_enc_concat_len(st.line_order@, |k: LineKind| enc_kind(k), 1);
    let data = enc_store(st);
    let p0 = spec_u32_to_le_bytes(st.headers@.len() as u32);
    let p1 = spec_u32_to_le_bytes(st.header_data@.len() as u32);
    let p2 = spec_u32_to_le_bytes(st.segs@.len() as u32);
    let p3 = spec_u32_to_le_bytes(st.seq_data@.len() as u32);
    let p4 = spec_u32_to_le_bytes(st.seg_data@.len() as u32);
    let p5 = spec_u32_to_le_bytes(st.links@.len() as u32);
    let p6 = spec_u32_to_le_bytes(st.paths@.len() as u32);
    let p7 = spec_u32_to_le_bytes(st.steps@.len() as u32);
    let p8 = spec_u32_to_le_bytes(st.overlaps@.len() as u32);
    let p9 = spec_u32_to_le_bytes(st.overlap_data@.len() as u32);
    let p10 = spec_u32_to_le_bytes(st.line_order@.len() as u32);
    let p11 = enc_concat(st.headers@, |sp: Span| enc_span(sp));
    let p12 = st.header_data@;
    let p13 = enc_concat(st.segs@, |g: Segment| enc_seg(g));
    let p14 = st.seq_data@;
    let p15 = st.seg_data@;
    let p16 = enc_concat(st.links@, |l: Link| enc_link(l));
    let p17 = enc_concat(st.paths@, |p: Path| enc_path(p));
    let p18 = enc_concat(st.steps@, |h: Handle| enc_handle(h));
    let p19 = enc_concat(st.overlaps@, |sp: Span| enc_span(sp));
    let p20 = st.overlap_data@;
    let p21 = enc_concat(st.line_order@, |k: LineKind| enc_kind(k));
    let s0 = p0;
    let s1 = s0 + p1;
    let s2 = s1 + p2;
    let s3 = s2 + p3;
    let s4 = s3 + p4;
    let s5 = s4 + p5;
    let s6 = s5 + p6;
    let s7 = s6 + p7;
    let s8 = s7 + p8;
    let s9 = s8 + p9;
    let s10 = s9 + p10;
    let s11 = s10 + p11;
    let s12 = s11 + p12;
    let s13 = s12 + p13;
    let s14 = s13 + p14;
    let s15 = s14 + p15;
    let s16 = s15 + p16;
    let s17 = s16 + p17;
    let s18 = s17 + p18;
    let s19 = s18 + p19;
    let s20 = s19 + p20;
    let s21 = s20 + p21;
    assert(data == s21);
    assert(forall|i: int| 0 <= i < s20.len() ==> #[trigger] s21[i] == s20[i]);
    assert(forall|i: int| 0 <= i < s19.len() ==> #[trigger] s20[i] == s19[i]);
    assert(forall|i: int| 0 <= i < s18.len() ==> #[trigger] s19[i] == s18[i]);
    assert(forall|i: int| 0 <= i < s17.len() ==> #[trigger] s18[i] == s17[i]);
    assert(forall|i: int| 0 <= i < s16.len() ==> #[trigger] s17[i] == s16[i]);
    assert(forall|i: int| 0 <= i < s15.len() ==> #[trigger] s16[i] == s15[i]);
    assert(forall|i: int| 0 <= i < s14.len() ==> #[trigger] s15[i] == s14[i]);
    assert(forall|i: int| 0 <= i < s13.len() ==> #[trigger] s14[i] == s13[i]);
    assert(forall|i: int| 0 <= i < s12.len() ==> #[trigger] s13[i] == s12[i]);
    assert(forall|i: int| 0 <= i < s11.len() ==> #[trigger] s12[i] == s11[i]);
    assert(forall|i: int| 0 <= i < s10.len() ==> #[trigger] s11[i] == s10[i]);
    assert(forall|i: int| 0 <= i < s9.len() ==> #[trigger] s10[i] == s9[i]);
    assert(forall|i: int| 0 <= i < s8.len() ==> #[trigger] s9[i] == s8[i]);
    assert(forall|i: int| 0 <= i < s7.len() ==> #[trigger] s8[i] == s7[i]);
    assert(forall|i: int| 0 <= i < s6.len() ==> #[trigger] s7[i] == s6[i]);
    assert(forall|i: int| 0 <= i < s5.len() ==> #[trigger] s6[i] == s5[i]);
    assert(forall|i: int| 0 <= i < s4.len() ==> #[trigger] s5[i] == s4[i]);
    assert(forall|i: int| 0 <= i < s3.len() ==> #[trigger] s4[i] == s3[i]);
    assert(forall|i: int| 0 <= i < s2.len() ==> #[trigger] s3[i] == s2[i]);
    assert(forall|i: int| 0 <= i < s1.len() ==> #[trigger] s2[i] == s1[i]);
    assert(forall|i: int| 0 <= i < s0.len() ==> #[trigger] s1[i] == s0[i]);
    assert(data.subrange(s0.len() - p0.len(), s0.len() as int) =~= p0);
}

/// One section of the byte image holds exactly its pool's bytes.
proof fn lemma_rt_sec_1(st: FlatGFAStore)
    ensures
        enc_store(st).subrange((4) as int, (4 + 4) as int) == spec_u32_to_le_bytes(st.header_data@.len() as u32),
{
    lemma_auto_spec_u32_to_from_le_bytes();
    lemma_auto_spec_u64_to_from_le_bytes();
    lemma_enc_concat_len(st.headers@, |sp: Span| enc_span(sp), 8);
    lemma_enc_concat_len(st.segs@, |g: Segment| enc_seg(g), 24);
    lemma_enc_concat_len(st.links@, |l: Link| enc_link(l), 18);
    lemma_enc_concat_len(st.paths@, |p: Path| enc_path(p), 24);
    lemma_enc_concat_len(st.steps@, |h: Handle| enc_handle(h), 5);
    lemma_enc_concat_len(st.overlaps@, |sp: Span| enc_span(sp), 8);
    lemma_enc_concat_len(st.line_order@, |k: LineKind| enc_kind(k), 1);
    let data = enc_store(st);
    let p0 = spec_u32_to_le_bytes(st.headers@.len() as u32);
    let p1 = spec_u32_to_le_bytes(st.header_data@.len() as u32);
    let p2 = spec_u32_to_le_bytes(st.segs@.len() as u32);
    let p3 = spec_u32_to_le_bytes(st.seq_data@.len() as u32);
    let p4 = spec_u32_to_le_bytes(st.seg_data@.len() as u32);
    let p5 = spec_u32_to_le_bytes(st.links@.len() as u32);
    let p6 = spec_u32_to_le_bytes(st.paths@.len() as u32);
    let p7 = spec_u32_to_le_bytes(st.steps@.len() as u32);
    let p8 = spec_u32_to_le_bytes(st.overlaps@.len() as u32);
    let p9 = spec_u32_to_le_bytes(st.overlap_data@.len() as u32);
    let p10 = spec_u32_to_le_bytes(st.line_order@.len() as u32);
    let p11 = enc_concat(st.headers@, |sp: Span| enc_span(sp));
    let p12 = st.header_data@;
    let p13 = enc_concat(st.segs@, |g: Segment| enc_seg(g));
    let p14 = st.seq_data@;
    let p15 = st.seg_data@;
    let p16 = enc_concat(st.links@, |l: Link| enc_link(l));
    let p17 = enc_concat(st.paths@, |p: Path| enc_path(p));
    let p18 = enc_concat(st.steps@, |h: Handle| enc_handle(h));
    let p19 = enc_concat(st.overlaps@, |sp: Span| enc_span(sp));
    let p20 = st.overlap_data@;
    let p21 = enc_concat(st.line_order@, |k: LineKind| enc_kind(k));
    let s0 = p0;
    let s1 = s0 + p1;
    let s2 = s1 + p2;
    let s3 = s2 + p3;
    let s4 = s3 + p4;
    let s5 = s4 + p5;
    let s6 = s5 + p6;
    let s7 = s6 + p7;
    let s8 = s7 + p8;
    let s9 = s8 + p9;
    let s10 = s9 + p10;
    let s11 = s10 + p11;
    let s12 = s11 + p12;
    let s13 = s12 + p13;
    let s14 = s13 + p14;
    let s15 = s14 + p15;
    let s16 = s15 + p16;
    let s17 = s16 + p17;
    let s18 = s17 + p18;
    let s19 = s18 + p19;
    let s20 = s19 + p20;
    let s21 = s20 + p21;
    assert(data == s21);
    assert(forall|i: int| 0 <= i < s20.len() ==> #[trigger] s21[i] == s20[i]);
    assert(forall|i: int| 0 <= i < s19.len() ==> #[trigger] s20[i] == s19[i]);
    assert(forall|i: int| 0 <= i < s18.len() ==> #[trigger] s19[i] == s18[i]);
    assert(forall|i: int| 0 <= i < s17.len() ==> #[trigger] s18[i] == s17[i]);
    assert(forall|i: int| 0 <= i < s16.len() ==> #[trigger] s17[i] == s16[i]);
    assert(forall|i: int| 0 <= i < s15.len() ==> #[trigger] s16[i] == s15[i]);
    assert(forall|i: int| 0 <= i < s14.len() ==> #[trigger] s15[i] == s14[i]);
    assert(forall|i: int| 0 <= i < s13.len() ==> #[trigger] s14[i] == s13[i]);
    assert(forall|i: int| 0 <= i < s12.len() ==> #[trigger] s13[i] == s12[i]);
    assert(forall|i: int| 0 <= i < s11.len() ==> #[trigger] s12[i] == s11[i]);
    assert(forall|i: int| 0 <= i < s10.len() ==> #[trigger] s11[i] == s10[i]);
    assert(forall|i: int| 0 <= i < s9.len() ==> #[trigger] s10[i] == s9[i]);
    assert(forall|i: int| 0 <= i < s8.len() ==> #[trigger] s9[i] == s8[i]);
    assert(forall|i: int| 0 <= i < s7.len() ==> #[trigger] s8[i] == s7[i]);
    assert(forall|i: int| 0 <= i < s6.len() ==> #[trigger] s7[i] == s6[i]);
    assert(forall|i: int| 0 <= i < s5.len() ==> #[trigger] s6[i] == s5[i]);
    assert(forall|i: int| 0 <= i < s4.len() ==> #[trigger] s5[i] == s4[i]);
    assert(forall|i: int| 0 <= i < s3.len() ==> #[trigger] s4[i] == s3[i]);
    assert(forall|i: int| 0 <= i < s2.len() ==> #[trigger] s3[i] == s2[i]);
    assert(forall|i: int| 0 <= i < s1.len() ==> #[trigger] s2[i] == s1[i]);
    assert(forall|i: int| 0 <= i < s0.len() ==> #[trigger] s1[i] == s0[i]);
    assert(data.subrange(s1.len() - p1.len(), s1.len() as int) =~= p1);
}

/// One section of the byte image holds exactly its pool's bytes.
proof fn lemma_rt_sec_2(st: FlatGFAStore)
    ensures
        enc_store(st).subrange((4 + 4) as int, (4 + 4 + 4) as int) == spec_u32_to_le_bytes(st.segs@.len() as u32),
{
    lemma_auto_spec_u32_to_from_le_bytes();
    lemma_auto_spec_u64_to_from_le_bytes();
    lemma_enc_concat_len(st.headers@, |sp: Span| enc_span(sp), 8);
    lemma_enc_concat_len(st.segs@, |g: Segment| enc_seg(g), 24);
    lemma_enc_concat_len(st.links@, |l: Link| enc_link(l), 18);
    lemma_enc_concat_len(st.paths@, |p: Path| enc_path(p), 24);
    lemma_enc_concat_len(st.steps@, |h: Handle| enc_handle(h), 5);
    lemma_enc_concat_len(st.overlaps@, |sp: Span| enc_span(sp), 8);
    lemma_enc_concat_len(st.line_order@, |k: LineKind| enc_kind(k), 1);
    let data = enc_store(st);
    let p0 = spec_u32_to_le_bytes(st.headers@.len() as u32);
    let p1 = spec_u32_to_le_bytes(st.header_data@.len() as u32);
    let p2 = spec_u32_to_le_bytes(st.segs@.len() as u32);
    let p3 = spec_u32_to_le_bytes(st.seq_data@.len() as u32);
    let p4 = spec_u32_to_le_bytes(st.seg_data@.len() as u32);
    let p5 = spec_u32_to_le_bytes(st.links@.len() as u32);
    let p6 = spec_u32_to_le_bytes(st.paths@.len() as u32);
    let p7 = spec_u32_to_le_bytes(st.steps@.len() as u32);
    let p8 = spec_u32_to_le_bytes(st.overlaps@.len() as u32);
    let p9 = spec_u32_to_le_bytes(st.overlap_data@.len() as u32);
    let p10 = spec_u32_to_le_bytes(st.line_order@.len() as u32);
    let p11 = enc_concat(st.headers@, |sp: Span| enc_span(sp));
    let p12 = st.header_data@;
    let p13 = enc_concat(st.segs@, |g: Segment| enc_seg(g));
    let p14 = st.seq_data@;
    let p15 = st.seg_data@;
    let p16 = enc_concat(st.links@, |l: Link| enc_link(l));
    let p17 = enc_concat(st.paths@, |p: Path| enc_path(p));
    let p18 = enc_concat(st.steps@, |h: Handle| enc_handle(h));
    let p19 = enc_concat(st.overlaps@, |sp: Span| enc_span(sp));
    let p20 = st.overlap_data@;
    let p21 = enc_concat(st.line_order@, |k: LineKind| enc_kind(k));
    let s0 = p0;
    let s1 = s0 + p1;
    let s2 = s1 + p2;
    let s3 = s2 + p3;
    let s4 = s3 + p4;
    let s5 = s4 + p5;
    let s6 = s5 + p6;
    let s7 = s6 + p7;
    let s8 = s7 + p8;
    let s9 = s8 + p9;
    let s10 = s9 + p10;
    let s11 = s10 + p11;
    let s12 = s11 + p12;
    let s13 = s12 + p13;
    let s14 = s13 + p14;
    let s15 = s14 + p15;
    let s16 = s15 + p16;
    let s17 = s16 + p17;
    let s18 = s17 + p18;
    let s19 = s18 + p19;
    let s20 = s19 + p20;
    let s21 = s20 + p21;
    assert(data == s21);
    assert(forall|i: int| 0 <= i < s20.len() ==> #[trigger] s21[i] == s20[i]);
    assert(forall|i: int| 0 <= i < s19.len() ==> #[trigger] s20[i] == s19[i]);
    assert(forall|i: int| 0 <= i < s18.len() ==> #[trigger] s19[i] == s18[i]);
    assert(forall|i: int| 0 <= i < s17.len() ==> #[trigger] s18[i] == s17[i]);
    assert(forall|i: int| 0 <= i < s16.len() ==> #[trigger] s17[i] == s16[i]);
    assert(forall|i: int| 0 <= i < s15.len() ==> #[trigger] s16[i] == s15[i]);
    assert(forall|i: int| 0 <= i < s14.len() ==> #[trigger] s15[i] == s14[i]);
    assert(forall|i: int| 0 <= i < s13.len() ==> #[trigger] s14[i] == s13[i]);
    assert(forall|i: int| 0 <= i < s12.len() ==> #[trigger] s13[i] == s12[i]);
    assert(forall|i: int| 0 <= i < s11.len() ==> #[trigger] s12[i] == s11[i]);
    assert(forall|i: int| 0 <= i < s10.len() ==> #[trigger] s11[i] == s10[i]);
    assert(forall|i: int| 0 <= i < s9.len() ==> #[trigger] s10[i] == s9[i]);
    assert(forall|i: int| 0 <= i < s8.len() ==> #[trigger] s9[i] == s8[i]);
    assert(forall|i: int| 0 <= i < s7.len() ==> #[trigger] s8[i] == s7[i]);
    assert(forall|i: int| 0 <= i < s6.len() ==> #[trigger] s7[i] == s6[i]);
    assert(forall|i: int| 0 <= i < s5.len() ==> #[trigger] s6[i] == s5[i]);
    assert(forall|i: int| 0 <= i < s4.len() ==> #[trigger] s5[i] == s4[i]);
    assert(forall|i: int| 0 <= i < s3.len() ==> #[trigger] s4[i] == s3[i]);
    assert(forall|i: int| 0 <= i < s2.len() ==> #[trigger] s3[i] == s2[i]);
    assert(forall|i: int| 0 <= i < s1.len() ==> #[trigger] s2[i] == s1[i]);
    assert(forall|i: int| 0 <= i < s0.len() ==> #[trigger] s1[i] == s0[i]);
    assert(data.subrange(s2.len() - p2.len(), s2.len() as int) =~= p2);
}

/// One section of the byte image holds exactly its pool's bytes.
proof fn lemma_rt_sec_3(st: FlatGFAStore)
    ensures
        enc_store(st).subrange((4 + 4 + 4) as int, (4 + 4 + 4 + 4) as int) == spec_u32_to_le_bytes(st.seq_data@.len() as u32),
{
    lemma_auto_spec_u32_to_from_le_bytes();
    lemma_auto_spec_u64_to_from_le_bytes();
    lemma_enc_concat_len(st.headers@, |sp: Span| enc_span(sp), 8);
    lemma_enc_concat_len(st.segs@, |g: Segment| enc_seg(g), 24);
    lemma_enc_concat_len(st.links@, |l: Link| enc_link(l), 18);
    lemma_enc_concat_len(st.paths@, |p: Path| enc_path(p), 24);
    lemma_enc_concat_len(st.steps@, |h: Handle| enc_handle(h), 5);
    lemma_enc_concat_len(st.overlaps@, |sp: Span| enc_span(sp), 8);
    lemma_enc_concat_len(st.line_order@, |k: LineKind| enc_kind(k), 1);
    let data = enc_store(st);
    let p0 = spec_u32_to_le_bytes(st.headers@.len() as u32);
    let p1 = spec_u32_to_le_bytes(st.header_data@.len() as u32);
    let p2 = spec_u32_to_le_bytes(st.segs@.len() as u32);
    let p3 = spec_u32_to_le_bytes(st.seq_data@.len() as u32);
    let p4 = spec_u32_to_le_bytes(st.seg_data@.len() as u32);
    let p5 = spec_u32_to_le_bytes(st.links@.len() as u32);
    let p6 = spec_u32_to_le_bytes(st.paths@.len() as u32);
    let p7 = spec_u32_to_le_bytes(st.steps@.len() as u32);
    let p8 = spec_u32_to_le_bytes(st.overlaps@.len() as u32);
    let p9 = spec_u32_to_le_bytes(st.overlap_data@.len() as u32);
    let p10 = spec_u32_to_le_bytes(st.line_order@.len() as u32);
    let p11 = enc_concat(st.headers@, |sp: Span| enc_span(sp));
    let p12 = st.header_data@;
    let p13 = enc_concat(st.segs@, |g: Segment| enc_seg(g));
    let p14 = st.seq_data@;
    let p15 = st.seg_data@;
    let p16 = enc_concat(st.links@, |l: Link| enc_link(l));
    let p17 = enc_concat(st.paths@, |p: Path| enc_path(p));
    let p18 = enc_concat(st.steps@, |h: Handle| enc_handle(h));
    let p19 = enc_concat(st.overlaps@, |sp: Span| enc_span(sp));
    let p20 = st.overlap_data@;
    let p21 = enc_concat(st.line_order@, |k: LineKind| enc_kind(k));
    let s0 = p0;
    let s1 = s0 + p1;
    let s2 = s1 + p2;
    let s3 = s2 + p3;
    let s4 = s3 + p4;
    let s5 = s4 + p5;
    let s6 = s5 + p6;
    let s7 = s6 + p7;
    let s8 = s7 + p8;
    let s9 = s8 + p9;
    let s10 = s9 + p10;
    let s11 = s10 + p11;
    let s12 = s11 + p12;
    let s13 = s12 + p13;
    let s14 = s13 + p14;
    let s15 = s14 + p15;
    let s16 = s15 + p16;
    let s17 = s16 + p17;
    let s18 = s17 + p18;
    let s19 = s18 + p19;
    let s20 = s19 + p20;
    let s21 = s20 + p21;
    assert(data == s21);
    assert(forall|i: int| 0 <= i < s20.len() ==> #[trigger] s21[i] == s20[i]);
    assert(forall|i: int| 0 <= i < s19.len() ==> #[trigger] s20[i] == s19[i]);
    assert(forall|i: int| 0 <= i < s18.len() ==> #[trigger] s19[i] == s18[i]);
    assert(forall|i: int| 0 <= i < s17.len() ==> #[trigger] s18[i] == s17[i]);
    assert(forall|i: int| 0 <= i < s16.len() ==> #[trigger] s17[i] == s16[i]);
    assert(forall|i: int| 0 <= i < s15.len() ==> #[trigger] s16[i] == s15[i]);
    assert(forall|i: int| 0 <= i < s14.len() ==> #[trigger] s15[i] == s14[i]);
    assert(forall|i: int| 0 <= i < s13.len() ==> #[trigger] s14[i] == s13[i]);
    assert(forall|i: int| 0 <= i < s12.len() ==> #[trigger] s13[i] == s12[i]);
    assert(forall|i: int| 0 <= i < s11.len() ==> #[trigger] s12[i] == s11[i]);
    assert(forall|i: int| 0 <= i < s10.len() ==> #[trigger] s11[i] == s10[i]);
    assert(forall|i: int| 0 <= i < s9.len() ==> #[trigger] s10[i] == s9[i]);
    assert(forall|i: int| 0 <= i < s8.len() ==> #[trigger] s9[i] == s8[i]);
    assert(forall|i: int| 0 <= i < s7.len() ==> #[trigger] s8[i] == s7[i]);
    assert(forall|i: int| 0 <= i < s6.len() ==> #[trigger] s7[i] == s6[i]);
    assert(forall|i: int| 0 <= i < s5.len() ==> #[trigger] s6[i] == s5[i]);
    assert(forall|i: int| 0 <= i < s4.len() ==> #[trigger] s5[i] == s4[i]);
    assert(forall|i: int| 0 <= i < s3.len() ==> #[trigger] s4[i] == s3[i]);
    assert(forall|i: int| 0 <= i < s2.len() ==> #[trigger] s3[i] == s2[i]);
    assert(forall|i: int| 0 <= i < s1.len() ==> #[trigger] s2[i] == s1[i]);
    assert(forall|i: int| 0 <= i < s0.len() ==> #[trigger] s1[i] == s0[i]);
    assert(data.subrange(s3.len() - p3.len(), s3.len() as int) =~= p3);
}

/// One section of the byte image holds exactly its pool's bytes.
proof fn lemma_rt_sec_4(st: FlatGFAStore)
    ensures
        enc_store(st).subrange((4 + 4 + 4 + 4) as int, (4 + 4 + 4 + 4 + 4) as int) == spec_u32_to_le_bytes(st.seg_data@.len() as u32),
{
    lemma_auto_spec_u32_to_from_le_bytes();
    lemma_auto_spec_u64_to_from_le_bytes();
    lemma_enc_concat_len(st.headers@, |sp: Span| enc_span(sp), 8);
    lemma_enc_concat_len(st.segs@, |g: Segment| enc_seg(g), 24);
    lemma_enc_concat_len(st.links@, |l: Link| enc_link(l), 18);
    lemma_enc_concat_len(st.paths@, |p: Path| enc_path(p), 24);
    lemma_enc_concat_len(st.steps@, |h: Handle| enc_handle(h), 5);
    lemma_enc_concat_len(st.overlaps@, |sp: Span| enc_span(sp), 8);
    lemma_enc_concat_len(st.line_order@, |k: LineKind| enc_kind(k), 1);
    let data = enc_store(st);
    let p0 = spec_u32_to_le_bytes(st.headers@.len() as u32);
    let p1 = spec_u32_to_le_bytes(st.header_data@.len() as u32);
    let p2 = spec_u32_to_le_bytes(st.segs@.len() as u32);
    let p3 = spec_u32_to_le_bytes(st.seq_data@.len() as u32);
    let p4 = spec_u32_to_le_bytes(st.seg_data@.len() as u32);
    let p5 = spec_u32_to_le_bytes(st.links@.len() as u32);
    let p6 = spec_u32_to_le_bytes(st.paths@.len() as u32);
    let p7 = spec_u32_to_le_bytes(st.steps@.len() as u32);
    let p8 = spec_u32_to_le_bytes(st.overlaps@.len() as u32);
    let p9 = spec_u32_to_le_bytes(st.overlap_data@.len() as u32);
    let p10 = spec_u32_to_le_bytes(st.line_order@.len() as u32);
    let p11 = enc_concat(st.headers@, |sp: Span| enc_span(sp));
    let p12 = st.header_data@;
    let p13 = enc_concat(st.segs@, |g: Segment| enc_seg(g));
    let p14 = st.seq_data@;
    let p15 = st.seg_data@;
    let p16 = enc_concat(st.links@, |l: Link| enc_link(l));
    let p17 = enc_concat(st.paths@, |p: Path| enc_path(p));
    let p18 = enc_concat(st.steps@, |h: Handle| enc_handle(h));
    let p19 = enc_concat(st.overlaps@, |sp: Span| enc_span(sp));
    let p20 = st.overlap_data@;
    let p21 = enc_concat(st.line_order@, |k: LineKind| enc_kind(k));
    let s0 = p0;
    let s1 = s0 + p1;
    let s2 = s1 + p2;
    let s3 = s2 + p3;
    let s4 = s3 + p4;
    let s5 = s4 + p5;
    let s6 = s5 + p6;
    let s7 = s6 + p7;
    let s8 = s7 + p8;
    let s9 = s8 + p9;
    let s10 = s9 + p10;
    let s11 = s10 + p11;
    let s12 = s11 + p12;
    let s13 = s12 + p13;
    let s14 = s13 + p14;
    let s15 = s14 + p15;
    let s16 = s15 + p16;
    let s17 = s16 + p17;
    let s18 = s17 + p18;
    let s19 = s18 + p19;
    let s20 = s19 + p20;
    let s21 = s20 + p21;
    assert(data == s21);
    assert(forall|i: int| 0 <= i < s20.len() ==> #[trigger] s21[i] == s20[i]);
    assert(forall|i: int| 0 <= i < s19.len() ==> #[trigger] s20[i] == s19[i]);
    assert(forall|i: int| 0 <= i < s18.len() ==> #[trigger] s19[i] == s18[i]);
    assert(forall|i: int| 0 <= i < s17.len() ==> #[trigger] s18[i] == s17[i]);
    assert(forall|i: int| 0 <= i < s16.len() ==> #[trigger] s17[i] == s16[i]);
    assert(forall|i: int| 0 <= i < s15.len() ==> #[trigger] s16[i] == s15[i]);
    assert(forall|i: int| 0 <= i < s14.len() ==> #[trigger] s15[i] == s14[i]);
    assert(forall|i: int| 0 <= i < s13.len() ==> #[trigger] s14[i] == s13[i]);
    assert(forall|i: int| 0 <= i < s12.len() ==> #[trigger] s13[i] == s12[i]);
    assert(forall|i: int| 0 <= i < s11.len() ==> #[trigger] s12[i] == s11[i]);
    assert(forall|i: int| 0 <= i < s10.len() ==> #[trigger] s11[i] == s10[i]);
    assert(forall|i: int| 0 <= i < s9.len() ==> #[trigger] s10[i] == s9[i]);
    assert(forall|i: int| 0 <= i < s8.len() ==> #[trigger] s9[i] == s8[i]);
    assert(forall|i: int| 0 <= i < s7.len() ==> #[trigger] s8[i] == s7[i]);
    assert(forall|i: int| 0 <= i < s6.len() ==> #[trigger] s7[i] == s6[i]);
    assert(forall|i: int| 0 <= i < s5.len() ==> #[trigger] s6[i] == s5[i]);
    assert(forall|i: int| 0 <= i < s4.len() ==> #[trigger] s5[i] == s4[i]);
    assert(forall|i: int| 0 <= i < s3.len() ==> #[trigger] s4[i] == s3[i]);
    assert(forall|i: int| 0 <= i < s2.len() ==> #[trigger] s3[i] == s2[i]);
    assert(forall|i: int| 0 <= i < s1.len() ==> #[trigger] s2[i] == s1[i]);
    assert(forall|i: int| 0 <= i < s0.len() ==> #[trigger] s1[i] == s0[i]);
    assert(data.subrange(s4.len() - p4.len(), s4.len() as int) =~= p4);
}

/// One section of the byte image holds exactly its pool's bytes.
proof fn lemma_rt_sec_5(st: FlatGFAStore)
    ensures
        enc_store(st).subrange((4 + 4 + 4 + 4 + 4) as int, (4 + 4 + 4 + 4 + 4 + 4) as int) == spec_u32_to_le_bytes(st.links@.len() as u32),
{
    lemma_auto_spec_u32_to_from_le_bytes();
    lemma_auto_spec_u64_to_from_le_bytes();
    lemma_enc_concat_len(st.headers@, |sp: Span| enc_span(sp), 8);
    lemma_enc_concat_len(st.segs@, |g: Segment| enc_seg(g), 24);
    lemma_enc_concat_len(st.links@, |l: Link| enc_link(l), 18);
    lemma_enc_concat_len(st.paths@, |p: Path| enc_path(p), 24);
    lemma_enc_concat_len(st.steps@, |h: Handle| enc_handle(h), 5);
    lemma_enc_concat_len(st.overlaps@, |sp: Span| enc_span(sp), 8);
    lemma_enc_concat_len(st.line_order@, |k: LineKind| enc_kind(k), 1);
    let data = enc_store(st);
    let p0 = spec_u32_to_le_bytes(st.headers@.len() as u32);
    let p1 = spec_u32_to_le_bytes(st.header_data@.len() as u32);
    let p2 = spec_u32_to_le_bytes(st.segs@.len() as u32);
    let p3 = spec_u32_to_le_bytes(st.seq_data@.len() as u32);
    let p4 = spec_u32_to_le_bytes(st.seg_data@.len() as u32);
    let p5 = spec_u32_to_le_bytes(st.links@.len() as u32);
    let p6 = spec_u32_to_le_bytes(st.paths@.len() as u32);
    let p7 = spec_u32_to_le_bytes(st.steps@.len() as u32);
    let p8 = spec_u32_to_le_bytes(st.overlaps@.len() as u32);
    let p9 = spec_u32_to_le_bytes(st.overlap_data@.len() as u32);
    let p10 = spec_u32_to_le_bytes(st.line_order@.len() as u32);
    let p11 = enc_concat(st.headers@, |sp: Span| enc_span(sp));
    let p12 = st.header_data@;
    let p13 = enc_concat(st.segs@, |g: Segment| enc_seg(g));
    let p14 = st.seq_data@;
    let p15 = st.seg_data@;
    let p16 = enc_concat(st.links@, |l: Link| enc_link(l));
    let p17 = enc_concat(st.paths@, |p: Path| enc_path(p));
    let p18 = enc_concat(st.steps@, |h: Handle| enc_handle(h));
    let p19 = enc_concat(st.overlaps@, |sp: Span| enc_span(sp));
    let p20 = st.overlap_data@;
    let p21 = enc_concat(st.line_order@, |k: LineKind| enc_kind(k));
    let s0 = p0;
    let s1 = s0 + p1;
    let s2 = s1 + p2;
    let s3 = s2 + p3;
    let s4 = s3 + p4;
    let s5 = s4 + p5;
    let s6 = s5 + p6;
    let s7 = s6 + p7;
    let s8 = s7 + p8;
    let s9 = s8 + p9;
    let s10 = s9 + p10;
    let s11 = s10 + p11;
    let s12 = s11 + p12;
    let s13 = s12 + p13;
    let s14 = s13 + p14;
    let s15 = s14 + p15;
    let s16 = s15 + p16;
    let s17 = s16 + p17;
    let s18 = s17 + p18;
    let s19 = s18 + p19;
    let s20 = s19 + p20;
    let s21 = s20 + p21;
    assert(data == s21);
    assert(forall|i: int| 0 <= i < s20.len() ==> #[trigger] s21[i] == s20[i]);
    assert(forall|i: int| 0 <= i < s19.len() ==> #[trigger] s20[i] == s19[i]);
    assert(forall|i: int| 0 <= i < s18.len() ==> #[trigger] s19[i] == s18[i]);
    assert(forall|i: int| 0 <= i < s17.len() ==> #[trigger] s18[i] == s17[i]);
    assert(forall|i: int| 0 <= i < s16.len() ==> #[trigger] s17[i] == s16[i]);
    assert(forall|i: int| 0 <= i < s15.len() ==> #[trigger] s16[i] == s15[i]);
    assert(forall|i: int| 0 <= i < s14.len() ==> #[trigger] s15[i] == s14[i]);
    assert(forall|i: int| 0 <= i < s13.len() ==> #[trigger] s14[i] == s13[i]);
    assert(forall|i: int| 0 <= i < s12.len() ==> #[trigger] s13[i] == s12[i]);
    assert(forall|i: int| 0 <= i < s11.len() ==> #[trigger] s12[i] == s11[i]);
    assert(forall|i: int| 0 <= i < s10.len() ==> #[trigger] s11[i] == s10[i]);
    assert(forall|i: int| 0 <= i < s9.len() ==> #[trigger] s10[i] == s9[i]);
    assert(forall|i: int| 0 <= i < s8.len() ==> #[trigger] s9[i] == s8[i]);
    assert(forall|i: int| 0 <= i < s7.len() ==> #[trigger] s8[i] == s7[i]);
    assert(forall|i: int| 0 <= i < s6.len() ==> #[trigger] s7[i] == s6[i]);
    assert(forall|i: int| 0 <= i < s5.len() ==> #[trigger] s6[i] == s5[i]);
    assert(forall|i: int| 0 <= i < s4.len() ==> #[trigger] s5[i] == s4[i]);
    assert(forall|i: int| 0 <= i < s3.len() ==> #[trigger] s4[i] == s3[i]);
    assert(forall|i: int| 0 <= i < s2.len() ==> #[trigger] s3[i] == s2[i]);
    assert(forall|i: int| 0 <= i < s1.len() ==> #[trigger] s2[i] == s1[i]);
    assert(forall|i: int| 0 <= i < s0.len() ==> #[trigger] s1[i] == s0[i]);
    assert(data.subrange(s5.len() - p5.len(), s5.len() as int) =~= p5);
}

/// One section of the byte image holds exactly its pool's bytes.
proof fn lemma_rt_sec_6(st: FlatGFAStore)
    ensures
        enc_store(st).subrange((4 + 4 + 4 + 4 + 4 + 4) as int, (4 + 4 + 4 + 4 + 4 + 4 + 4) as int) == spec_u32_to_le_bytes(st.paths@.len() as u32),
{
    lemma_auto_spec_u32_to_from_le_bytes();
    lemma_auto_spec_u64_to_from_le_bytes();
    lemma_enc_concat_len(st.headers@, |sp: Span| enc_span(sp), 8);
    lemma_enc_concat_len(st.segs@, |g: Segment| enc_seg(g), 24);
    lemma_enc_concat_len(st.links@, |l: Link| enc_link(l), 18);
    lemma_enc_concat_len(st.paths@, |p: Path| enc_path(p), 24);
    lemma_enc_concat_len(st.steps@, |h: Handle| enc_handle(h), 5);
    lemma_enc_concat_len(st.overlaps@, |sp: Span| enc_span(sp), 8);
    lemma_enc_concat_len(st.line_order@, |k: LineKind| enc_kind(k), 1);
    let data = enc_store(st);
    let p0 = spec_u32_to_le_bytes(st.headers@.len() as u32);
    let p1 = spec_u32_to_le_bytes(st.header_data@.len() as u32);
    let p2 = spec_u32_to_le_bytes(st.segs@.len() as u32);
    let p3 = spec_u32_to_le_bytes(st.seq_data@.len() as u32);
    let p4 = spec_u32_to_le_bytes(st.seg_data@.len() as u32);
    let p5 = spec_u32_to_le_bytes(st.links@.len() as u32);
    let p6 = spec_u32_to_le_bytes(st.paths@.len() as u32);
    let p7 = spec_u32_to_le_bytes(st.steps@.len() as u32);
    let p8 = spec_u32_to_le_bytes(st.overlaps@.len() as u32);
    let p9 = spec_u32_to_le_bytes(st.overlap_data@.len() as u32);
    let p10 = spec_u32_to_le_bytes(st.line_order@.len() as u32);
    let p11 = enc_concat(st.headers@, |sp: Span| enc_span(sp));
    let p12 = st.header_data@;
    let p13 = enc_concat(st.segs@, |g: Segment| enc_seg(g));
    let p14 = st.seq_data@;
    let p15 = st.seg_data@;
    let p16 = enc_concat(st.links@, |l: Link| enc_link(l));
    let p17 = enc_concat(st.paths@, |p: Path| enc_path(p));
    let p18 = enc_concat(st.steps@, |h: Handle| enc_handle(h));
    let p19 = enc_concat(st.overlaps@, |sp: Span| enc_span(sp));
    let p20 = st.overlap_data@;
    let p21 = enc_concat(st.line_order@, |k: LineKind| enc_kind(k));
    let s0 = p0;
    let s1 = s0 + p1;
    let s2 = s1 + p2;
    let s3 = s2 + p3;
    let s4 = s3 + p4;
    let s5 = s4 + p5;
    let s6 = s5 + p6;
    let s7 = s6 + p7;
    let s8 = s7 + p8;
    let s9 = s8 + p9;
    let s10 = s9 + p10;
    let s11 = s10 + p11;
    let s12 = s11 + p12;
    let s13 = s12 + p13;
    let s14 = s13 + p14;
    let s15 = s14 + p15;
    let s16 = s15 + p16;
    let s17 = s16 + p17;
    let s18 = s17 + p18;
    let s19 = s18 + p19;
    let s20 = s19 + p20;
    let s21 = s20 + p21;
    assert(data == s21);
    assert(forall|i: int| 0 <= i < s20.len() ==> #[trigger] s21[i] == s20[i]);
    assert(forall|i: int| 0 <= i < s19.len() ==> #[trigger] s20[i] == s19[i]);
    assert(forall|i: int| 0 <= i < s18.len() ==> #[trigger] s19[i] == s18[i]);
    assert(forall|i: int| 0 <= i < s17.len() ==> #[trigger] s18[i] == s17[i]);
    assert(forall|i: int| 0 <= i < s16.len() ==> #[trigger] s17[i] == s16[i]);
    assert(forall|i: int| 0 <= i < s15.len() ==> #[trigger] s16[i] == s15[i]);
    assert(forall|i: int| 0 <= i < s14.len() ==> #[trigger] s15[i] == s14[i]);
    assert(forall|i: int| 0 <= i < s13.len() ==> #[trigger] s14[i] == s13[i]);
    assert(forall|i: int| 0 <= i < s12.len() ==> #[trigger] s13[i] == s12[i]);
    assert(forall|i: int| 0 <= i < s11.len() ==> #[trigger] s12[i] == s11[i]);
    assert(forall|i: int| 0 <= i < s10.len() ==> #[trigger] s11[i] == s10[i]);
    assert(forall|i: int| 0 <= i < s9.len() ==> #[trigger] s10[i] == s9[i]);
    assert(forall|i: int| 0 <= i < s8.len() ==> #[trigger] s9[i] == s8[i]);
    assert(forall|i: int| 0 <= i < s7.len() ==> #[trigger] s8[i] == s7[i]);
    assert(forall|i: int| 0 <= i < s6.len() ==> #[trigger] s7[i] == s6[i]);
    assert(forall|i: int| 0 <= i < s5.len() ==> #[trigger] s6[i] == s5[i]);
    assert(forall|i: int| 0 <= i < s4.len() ==> #[trigger] s5[i] == s4[i]);
    assert(forall|i: int| 0 <= i < s3.len() ==> #[trigger] s4[i] == s3[i]);
    assert(forall|i: int| 0 <= i < s2.len() ==> #[trigger] s3[i] == s2[i]);
    assert(forall|i: int| 0 <= i < s1.len() ==> #[trigger] s2[i] == s1[i]);
    assert(forall|i: int| 0 <= i < s0.len() ==> #[trigger] s1[i] == s0[i]);
    assert(data.subrange(s6.len() - p6.len(), s6.len() as int) =~= p6);
}

/// One section of the byte image holds exactly its pool's bytes.
proof fn lemma_rt_sec_7(st: FlatGFAStore)
    ensures
        enc_store(st).subrange((4 + 4 + 4 + 4 + 4 + 4 + 4) as int, (4 + 4 + 4 + 4 + 4 + 4 + 4 + 4) as int) == spec_u32_to_le_bytes(st.steps@.len() as u32),
{
    lemma_auto_spec_u32_to_from_le_bytes();
    lemma_auto_spec_u64_to_from_le_bytes();
    lemma_enc_concat_len(st.headers@, |sp: Span| enc_span(sp), 8);
    lemma_enc_concat_len(st.segs@, |g: Segment| enc_seg(g), 24);
    lemma_enc_concat_len(st.links@, |l: Link| enc_link(l), 18);
    lemma_enc_concat_len(st.paths@, |p: Path| enc_path(p), 24);
    lemma_enc_concat_len(st.steps@, |h: Handle| enc_handle(h), 5);
    lemma_enc_concat_len(st.overlaps@, |sp: Span| enc_span(sp), 8);
    lemma_enc_concat_len(st.line_order@, |k: LineKind| enc_kind(k), 1);
    let data = enc_store(st);
    let p0 = spec_u32_to_le_bytes(st.headers@.len() as u32);
    let p1 = spec_u32_to_le_bytes(st.header_data@.len() as u32);
    let p2 = spec_u32_to_le_bytes(st.segs@.len() as u32);
    let p3 = spec_u32_to_le_bytes(st.seq_data@.len() as u32);
    let p4 = spec_u32_to_le_bytes(st.seg_data@.len() as u32);
    let p5 = spec_u32_to_le_bytes(st.links@.len() as u32);
    let p6 = spec_u32_to_le_bytes(st.paths@.len() as u32);
    let p7 = spec_u32_to_le_bytes(st.steps@.len() as u32);
    let p8 = spec_u32_to_le_bytes(st.overlaps@.len() as u32);
    let p9 = spec_u32_to_le_bytes(st.overlap_data@.len() as u32);
    let p10 = spec_u32_to_le_bytes(st.line_order@.len() as u32);
    let p11 = enc_concat(st.headers@, |sp: Span| enc_span(sp));
    let p12 = st.header_data@;
    let p13 = enc_concat(st.segs@, |g: Segment| enc_seg(g));
    let p14 = st.seq_data@;
    let p15 = st.seg_data@;
    let p16 = enc_concat(st.links@, |l: Link| enc_link(l));
    let p17 = enc_concat(st.paths@, |p: Path| enc_path(p));
    let p18 = enc_concat(st.steps@, |h: Handle| enc_handle(h));
    let p19 = enc_concat(st.overlaps@, |sp: Span| enc_span(sp));
    let p20 = st.overlap_data@;
    let p21 = enc_concat(st.line_order@, |k: LineKind| enc_kind(k));
    let s0 = p0;
    let s1 = s0 + p1;
    let s2 = s1 + p2;
    let s3 = s2 + p3;
    let s4 = s3 + p4;
    let s5 = s4 + p5;
    let s6 = s5 + p6;
    let s7 = s6 + p7;
    let s8 = s7 + p8;
    let s9 = s8 + p9;
    let s10 = s9 + p10;
    let s11 = s10 + p11;
    let s12 = s11 + p12;
    let s13 = s12 + p13;
    let s14 = s13 + p14;
    let s15 = s14 + p15;
    let s16 = s15 + p16;
    let s17 = s16 + p17;
    let s18 = s17 + p18;
    let s19 = s18 + p19;
    let s20 = s19 + p20;
    let s21 = s20 + p21;
    assert(data == s21);
    assert(forall|i: int| 0 <= i < s20.len() ==> #[trigger] s21[i] == s20[i]);
    assert(forall|i: int| 0 <= i < s19.len() ==> #[trigger] s20[i] == s19[i]);
    assert(forall|i: int| 0 <= i < s18.len() ==> #[trigger] s19[i] == s18[i]);
    assert(forall|i: int| 0 <= i < s17.len() ==> #[trigger] s18[i] == s17[i]);
    assert(forall|i: int| 0 <= i < s16.len() ==> #[trigger] s17[i] == s16[i]);
    assert(forall|i: int| 0 <= i < s15.len() ==> #[trigger] s16[i] == s15[i]);
    assert(forall|i: int| 0 <= i < s14.len() ==> #[trigger] s15[i] == s14[i]);
    assert(forall|i: int| 0 <= i < s13.len() ==> #[trigger] s14[i] == s13[i]);
    assert(forall|i: int| 0 <= i < s12.len() ==> #[trigger] s13[i] == s12[i]);
    assert(forall|i: int| 0 <= i < s11.len() ==> #[trigger] s12[i] == s11[i]);
    assert(forall|i: int| 0 <= i < s10.len() ==> #[trigger] s11[i] == s10[i]);
    assert(forall|i: int| 0 <= i < s9.len() ==> #[trigger] s10[i] == s9[i]);
    assert(forall|i: int| 0 <= i < s8.len() ==> #[trigger] s9[i] == s8[i]);
    assert(forall|i: int| 0 <= i < s7.len() ==> #[trigger] s8[i] == s7[i]);
    assert(forall|i: int| 0 <= i < s6.len() ==> #[trigger] s7[i] == s6[i]);
    assert(forall|i: int| 0 <= i < s5.len() ==> #[trigger] s6[i] == s5[i]);
    assert(forall|i: int| 0 <= i < s4.len() ==> #[trigger] s5[i] == s4[i]);
    assert(forall|i: int| 0 <= i < s3.len() ==> #[trigger] s4[i] == s3[i]);
    assert(forall|i: int| 0 <= i < s2.len() ==> #[trigger] s3[i] == s2[i]);
    assert(forall|i: int| 0 <= i < s1.len() ==> #[trigger] s2[i] == s1[i]);
    assert(forall|i: int| 0 <= i < s0.len() ==> #[trigger] s1[i] == s0[i]);
    assert(data.subrange(s7.len() - p7.len(), s7.len() as int) =~= p7);
}

/// One section of the byte image holds exactly its pool's bytes.
proof fn lemma_rt_sec_8(st: FlatGFAStore)
    ensures
        enc_store(st).subrange((4 + 4 + 4 + 4 + 4 + 4 + 4 + 4) as int, (4 + 4 + 4 + 4 + 4 + 4 + 4 + 4 + 4) as int) == spec_u32_to_le_bytes(st.overlaps@.len() as u32),
{
    lemma_auto_spec_u32_to_from_le_bytes();
    lemma_auto_spec_u64_to_from_le_bytes();
    lemma_enc_concat_len(st.headers@, |sp: Span| enc_span(sp), 8);
    lemma_enc_concat_len(st.segs@, |g: Segment| enc_seg(g), 24);
    lemma_enc_concat_len(st.links@, |l: Link| enc_link(l), 18);
    lemma_enc_concat_len(st.paths@, |p: Path| enc_path(p), 24);
    lemma_enc_concat_len(st.steps@, |h: Handle| enc_handle(h), 5);
    lemma_enc_concat_len(st.overlaps@, |sp: Span| enc_span(sp), 8);
    lemma_enc_concat_len(st.line_order@, |k: LineKind| enc_kind(k), 1);
    let data = enc_store(st);
    let p0 = spec_u32_to_le_bytes(st.headers@.len() as u32);
    let p1 = spec_u32_to_le_bytes(st.header_data@.len() as u32);
    let p2 = spec_u32_to_le_bytes(st.segs@.len() as u32);
    let p3 = spec_u32_to_le_bytes(st.seq_data@.len() as u32);
    let p4 = spec_u32_to_le_bytes(st.seg_data@.len() as u32);
    let p5 = spec_u32_to_le_bytes(st.links@.len() as u32);
    let p6 = spec_u32_to_le_bytes(st.paths@.len() as u32);
    let p7 = spec_u32_to_le_bytes(st.steps@.len() as u32);
    let p8 = spec_u32_to_le_bytes(st.overlaps@.len() as u32);
    let p9 = spec_u32_to_le_bytes(st.overlap_data@.len() as u32);
    let p10 = spec_u32_to_le_bytes(st.line_order@.len() as u32);
    let p11 = enc_concat(st.headers@, |sp: Span| enc_span(sp));
    let p12 = st.header_data@;
    let p13 = enc_concat(st.segs@, |g: Segment| enc_seg(g));
    let p14 = st.seq_data@;
    let p15 = st.seg_data@;
    let p16 = enc_concat(st.links@, |l: Link| enc_link(l));
    let p17 = enc_concat(st.paths@, |p: Path| enc_path(p));
    let p18 = enc_concat(st.steps@, |h: Handle| enc_handle(h));
    let p19 = enc_concat(st.overlaps@, |sp: Span| enc_span(sp));
    let p20 = st.overlap_data@;
    let p21 = enc_concat(st.line_order@, |k: LineKind| enc_kind(k));
    let s0 = p0;
    let s1 = s0 + p1;
    let s2 = s1 + p2;
    let s3 = s2 + p3;
    let s4 = s3 + p4;
    let s5 = s4 + p5;
    let s6 = s5 + p6;
    let s7 = s6 + p7;
    let s8 = s7 + p8;
    let s9 = s8 + p9;
    let s10 = s9 + p10;
    let s11 = s10 + p11;
    let s12 = s11 + p12;
    let s13 = s12 + p13;
    let s14 = s13 + p14;
    let s15 = s14 + p15;
    let s16 = s15 + p16;
    let s17 = s16 + p17;
    let s18 = s17 + p18;
    let s19 = s18 + p19;
    let s20 = s19 + p20;
    let s21 = s20 + p21;
    assert(data == s21);
    assert(forall|i: int| 0 <= i < s20.len() ==> #[trigger] s21[i] == s20[i]);
    assert(forall|i: int| 0 <= i < s19.len() ==> #[trigger] s20[i] == s19[i]);
    assert(forall|i: int| 0 <= i < s18.len() ==> #[trigger] s19[i] == s18[i]);
    assert(forall|i: int| 0 <= i < s17.len() ==> #[trigger] s18[i] == s17[i]);
    assert(forall|i: int| 0 <= i < s16.len() ==> #[trigger] s17[i] == s16[i]);
    assert(forall|i: int| 0 <= i < s15.len() ==> #[trigger] s16[i] == s15[i]);
    assert(forall|i: int| 0 <= i < s14.len() ==> #[trigger] s15[i] == s14[i]);
    assert(forall|i: int| 0 <= i < s13.len() ==> #[trigger] s14[i] == s13[i]);
    assert(forall|i: int| 0 <= i < s12.len() ==> #[trigger] s13[i] == s12[i]);
    assert(forall|i: int| 0 <= i < s11.len() ==> #[trigger] s12[i] == s11[i]);
    assert(forall|i: int| 0 <= i < s10.len() ==> #[trigger] s11[i] == s10[i]);
    assert(forall|i: int| 0 <= i < s9.len() ==> #[trigger] s10[i] == s9[i]);
    assert(forall|i: int| 0 <= i < s8.len() ==> #[trigger] s9[i] == s8[i]);
    assert(forall|i: int| 0 <= i < s7.len() ==> #[trigger] s8[i] == s7[i]);
    assert(forall|i: int| 0 <= i < s6.len() ==> #[trigger] s7[i] == s6[i]);
    assert(forall|i: int| 0 <= i < s5.len() ==> #[trigger] s6[i] == s5[i]);
    assert(forall|i: int| 0 <= i < s4.len() ==> #[trigger] s5[i] == s4[i]);
    assert(forall|i: int| 0 <= i < s3.len() ==> #[trigger] s4[i] == s3[i]);
    assert(forall|i: int| 0 <= i < s2.len() ==> #[trigger] s3[i] == s2[i]);
    assert(forall|i: int| 0 <= i < s1.len() ==> #[trigger] s2[i] == s1[i]);
    assert(forall|i: int| 0 <= i < s0.len() ==> #[trigger] s1[i] == s0[i]);
    assert(data.subrange(s8.len() - p8.len(), s8.len() as int) =~= p8);
}

/// One section of the byte image holds exactly its pool's bytes.
proof fn lemma_rt_sec_9(st: FlatGFAStore)
    ensures
        enc_store(st).subrange((4 + 4 + 4 + 4 + 4 + 4 + 4 + 4 + 4) as int, (4 + 4 + 4 + 4 + 4 + 4 + 4 + 4 + 4 + 4) as int) == spec_u32_to_le_bytes(st.overlap_data@.len() as u32),
{
    lemma_auto_spec_u32_to_from_le_bytes();
    lemma_auto_spec_u64_to_from_le_bytes();
    lemma_enc_concat_len(st.headers@, |sp: Span| enc_span(sp), 8);
    lemma_enc_concat_len(st.segs@, |g: Segment| enc_seg(g), 24);
    lemma_enc_concat_len(st.links@, |l: Link| enc_link(l), 18);
    lemma_enc_concat_len(st.paths@, |p: Path| enc_path(p), 24);
    lemma_enc_concat_len(st.steps@, |h: Handle| enc_handle(h), 5);
    lemma_enc_concat_len(st.overlaps@, |sp: Span| enc_span(sp), 8);
    lemma_enc_concat_len(st.line_order@, |k: LineKind| enc_kind(k), 1);
    let data = enc_store(st);
    let p0 = spec_u32_to_le_bytes(st.headers@.len() as u32);
    let p1 = spec_u32_to_le_bytes(st.header_data@.len() as u32);
    let p2 = spec_u32_to_le_bytes(st.segs@.len() as u32);
    let p3 = spec_u32_to_le_bytes(st.seq_data@.len() as u32);
    let p4 = spec_u32_to_le_bytes(st.seg_data@.len() as u32);
    let p5 = spec_u32_to_le_bytes(st.links@.len() as u32);
    let p6 = spec_u32_to_le_bytes(st.paths@.len() as u32);
    let p7 = spec_u32_to_le_bytes(st.steps@.len() as u32);
    let p8 = spec_u32_to_le_bytes(st.overlaps@.len() as u32);
    let p9 = spec_u32_to_le_bytes(st.overlap_data@.len() as u32);
    let p10 = spec_u32_to_le_bytes(st.line_order@.len() as u32);
    let p11 = enc_concat(st.headers@, |sp: Span| enc_span(sp));
    let p12 = st.header_data@;
    let p13 = enc_concat(st.segs@, |g: Segment| enc_seg(g));
    let p14 = st.seq_data@;
    let p15 = st.seg_data@;
    let p16 = enc_concat(st.links@, |l: Link| enc_link(l));
    let p17 = enc_concat(st.paths@, |p: Path| enc_path(p));
    let p18 = enc_concat(st.steps@, |h: Handle| enc_handle(h));
    let p19 = enc_concat(st.overlaps@, |sp: Span| enc_span(sp));
    let p20 = st.overlap_data@;
    let p21 = enc_concat(st.line_order@, |k: LineKind| enc_kind(k));
    let s0 = p0;
    let s1 = s0 + p1;
    let s2 = s1 + p2;
    let s3 = s2 + p3;
    let s4 = s3 + p4;
    let s5 = s4 + p5;
    let s6 = s5 + p6;
    let s7 = s6 + p7;
    let s8 = s7 + p8;
    let s9 = s8 + p9;
    let s10 = s9 + p10;
    let s11 = s10 + p11;
    let s12 = s11 + p12;
    let s13 = s12 + p13;
    let s14 = s13 + p14;
    let s15 = s14 + p15;
    let s16 = s15 + p16;
    let s17 = s16 + p17;
    let s18 = s17 + p18;
    let s19 = s18 + p19;
    let s20 = s19 + p20;
    let s21 = s20 + p21;
    assert(data == s21);
    assert(forall|i: int| 0 <= i < s20.len() ==> #[trigger] s21[i] == s20[i]);
    assert(forall|i: int| 0 <= i < s19.len() ==> #[trigger] s20[i] == s19[i]);
    assert(forall|i: int| 0 <= i < s18.len() ==> #[trigger] s19[i] == s18[i]);
    assert(forall|i: int| 0 <= i < s17.len() ==> #[trigger] s18[i] == s17[i]);
    assert(forall|i: int| 0 <= i < s16.len() ==> #[trigger] s17[i] == s16[i]);
    assert(forall|i: int| 0 <= i < s15.len() ==> #[trigger] s16[i] == s15[i]);
    assert(forall|i: int| 0 <= i < s14.len() ==> #[trigger] s15[i] == s14[i]);
    assert(forall|i: int| 0 <= i < s13.len() ==> #[trigger] s14[i] == s13[i]);
    assert(forall|i: int| 0 <= i < s12.len() ==> #[trigger] s13[i] == s12[i]);
    assert(forall|i: int| 0 <= i < s11.len() ==> #[trigger] s12[i] == s11[i]);
    assert(forall|i: int| 0 <= i < s10.len() ==> #[trigger] s11[i] == s10[i]);
    assert(forall|i: int| 0 <= i < s9.len() ==> #[trigger] s10[i] == s9[i]);
    assert(forall|i: int| 0 <= i < s8.len() ==> #[trigger] s9[i] == s8[i]);
    assert(forall|i: int| 0 <= i < s7.len() ==> #[trigger] s8[i] == s7[i]);
    assert(forall|i: int| 0 <= i < s6.len() ==> #[trigger] s7[i] == s6[i]);
    assert(forall|i: int| 0 <= i < s5.len() ==> #[trigger] s6[i] == s5[i]);
    assert(forall|i: int| 0 <= i < s4.len() ==> #[trigger] s5[i] == s4[i]);
    assert(forall|i: int| 0 <= i < s3.len() ==> #[trigger] s4[i] == s3[i]);
    assert(forall|i: int| 0 <= i < s2.len() ==> #[trigger] s3[i] == s2[i]);
    assert(forall|i: int| 0 <= i < s1.len() ==> #[trigger] s2[i] == s1[i]);
    assert(forall|i: int| 0 <= i < s0.len() ==> #[trigger] s1[i] == s0[i]);
    assert(data.subrange(s9.len() - p9.len(), s9.len() as int) =~= p9);
}

/// One section of the byte image holds exactly its pool's bytes.
proof fn lemma_rt_sec_10(st: FlatGFAStore)
    ensures
        enc_store(st).subrange((4 + 4 + 4 + 4 + 4 + 4 + 4 + 4 + 4 + 4) as int, (4 + 4 + 4 + 4 + 4 + 4 + 4 + 4 + 4 + 4 + 4) as int) == spec_u32_to_le_bytes(st.line_order@.len() as u32),
{
    lemma_auto_spec_u32_to_from_le_bytes();
    lemma_auto_spec_u64_to_from_le_bytes();
    lemma_enc_concat_len(st.headers@, |sp: Span| enc_span(sp), 8);
    lemma_enc_concat_len(st.segs@, |g: Segment| enc_seg(g), 24);
    lemma_enc_concat_len(st.links@, |l: Link| enc_link(l), 18);
    lemma_enc_concat_len(st.paths@, |p: Path| enc_path(p), 24);
    lemma_enc_concat_len(st.steps@, |h: Handle| enc_handle(h), 5);
    lemma_enc_concat_len(st.overlaps@, |sp: Span| enc_span(sp), 8);
    lemma_enc_concat_len(st.line_order@, |k: LineKind| enc_kind(k), 1);
    let data = enc_store(st);
    let p0 = spec_u32_to_le_bytes(st.headers@.len() as u32);
    let p1 = spec_u32_to_le_bytes(st.header_data@.len() as u32);
    let p2 = spec_u32_to_le_bytes(st.segs@.len() as u32);
    let p3 = spec_u32_to_le_bytes(st.seq_data@.len() as u32);
    let p4 = spec_u32_to_le_bytes(st.seg_data@.len() as u32);
    let p5 = spec_u32_to_le_bytes(st.links@.len() as u32);
    let p6 = spec_u32_to_le_bytes(st.paths@.len() as u32);
    let p7 = spec_u32_to_le_bytes(st.steps@.len() as u32);
    let p8 = spec_u32_to_le_bytes(st.overlaps@.len() as u32);
    let p9 = spec_u32_to_le_bytes(st.overlap_data@.len() as u32);
    let p10 = spec_u32_to_le_bytes(st.line_order@.len() as u32);
    let p11 = enc_concat(st.headers@, |sp: Span| enc_span(sp));
    let p12 = st.header_data@;
    let p13 = enc_concat(st.segs@, |g: Segment| enc_seg(g));
    let p14 = st.seq_data@;
    let p15 = st.seg_data@;
    let p16 = enc_concat(st.links@, |l: Link| enc_link(l));
    let p17 = enc_concat(st.paths@, |p: Path| enc_path(p));
    let p18 = enc_concat(st.steps@, |h: Handle| enc_handle(h));
    let p19 = enc_concat(st.overlaps@, |sp: Span| enc_span(sp));
    let p20 = st.overlap_data@;
    let p21 = enc_concat(st.line_order@, |k: LineKind| enc_kind(k));
    let s0 = p0;
    let s1 = s0 + p1;
    let s2 = s1 + p2;
    let s3 = s2 + p3;
    let s4 = s3 + p4;
    let s5 = s4 + p5;
    let s6 = s5 + p6;
    let s7 = s6 + p7;
    let s8 = s7 + p8;
    let s9 = s8 + p9;
    let s10 = s9 + p10;
    let s11 = s10 + p11;
    let s12 = s11 + p12;
    let s13 = s12 + p13;
    let s14 = s13 + p14;
    let s15 = s14 + p15;
    let s16 = s15 + p16;
    let s17 = s16 + p17;
    let s18 = s17 + p18;
    let s19 = s18 + p19;
    let s20 = s19 + p20;
    let s21 = s20 + p21;
    assert(data == s21);
    assert(forall|i: int| 0 <= i < s20.len() ==> #[trigger] s21[i] == s20[i]);
    assert(forall|i: int| 0 <= i < s19.len() ==> #[trigger] s20[i] == s19[i]);
    assert(forall|i: int| 0 <= i < s18.len() ==> #[trigger] s19[i] == s18[i]);
    assert(forall|i: int| 0 <= i < s17.len() ==> #[trigger] s18[i] == s17[i]);
    assert(forall|i: int| 0 <= i < s16.len() ==> #[trigger] s17[i] == s16[i]);
    assert(forall|i: int| 0 <= i < s15.len() ==> #[trigger] s16[i] == s15[i]);
    assert(forall|i: int| 0 <= i < s14.len() ==> #[trigger] s15[i] == s14[i]);
    assert(forall|i: int| 0 <= i < s13.len() ==> #[trigger] s14[i] == s13[i]);
    assert(forall|i: int| 0 <= i < s12.len() ==> #[trigger] s13[i] == s12[i]);
    assert(forall|i: int| 0 <= i < s11.len() ==> #[trigger] s12[i] == s11[i]);
    assert(forall|i: int| 0 <= i < s10.len() ==> #[trigger] s11[i] == s10[i]);
    assert(forall|i: int| 0 <= i < s9.len() ==> #[trigger] s10[i] == s9[i]);
    assert(forall|i: int| 0 <= i < s8.len() ==> #[trigger] s9[i] == s8[i]);
    assert(forall|i: int| 0 <= i < s7.len() ==> #[trigger] s8[i] == s7[i]);
    assert(forall|i: int| 0 <= i < s6.len() ==> #[trigger] s7[i] == s6[i]);
    assert(forall|i: int| 0 <= i < s5.len() ==> #[trigger] s6[i] == s5[i]);
    assert(forall|i: int| 0 <= i < s4.len() ==> #[trigger] s5[i] == s4[i]);
    assert(forall|i: int| 0 <= i < s3.len() ==> #[trigger] s4[i] == s3[i]);
    assert(forall|i: int| 0 <= i < s2.len() ==> #[trigger] s3[i] == s2[i]);
    assert(forall|i: int| 0 <= i < s1.len() ==> #[trigger] s2[i] == s1[i]);
    assert(forall|i: int| 0 <= i < s0.len() ==> #[trigger] s1[i] == s0[i]);
    assert(data.subrange(s10.len() - p10.len(), s10.len() as int) =~= p10);
}

/// One section of the byte image holds exactly its pool's bytes.
proof fn lemma_rt_sec_11(st: FlatGFAStore)
    ensures
        enc_store(st).subrange((4 + 4 + 4 + 4 + 4 + 4 + 4 + 4 + 4 + 4 + 4) as int, (4 + 4 + 4 + 4 + 4 + 4 + 4 + 4 + 4 + 4 + 4 + 8 * st.headers@.len()) as int) == enc_concat(st.headers@, |sp: Span| enc_span(sp)),
{
    lemma_auto_spec_u32_to_from_le_bytes();
    lemma_auto_spec_u64_to_from_le_bytes();
    lemma_enc_concat_len(st.headers@, |sp: Span| enc_span(sp), 8);
    lemma_enc_concat_len(st.segs@, |g: Segment| enc_seg(g), 24);
    lemma_enc_concat_len(st.links@, |l: Link| enc_link(l), 18);
    lemma_enc_concat_len(st.paths@, |p: Path| enc_path(p), 24);
    lemma_enc_concat_len(st.steps@, |h: Handle| enc_handle(h), 5);
    lemma_enc_concat_len(st.overlaps@, |sp: Span| enc_span(sp), 8);
    lemma_enc_concat_len(st.line_order@, |k: LineKind| enc_kind(k), 1);
    let data = enc_store(st);
    let p0 = spec_u32_to_le_bytes(st.headers@.len() as u32);
    let p1 = spec_u32_to_le_bytes(st.header_data@.len() as u32);
    let p2 = spec_u32_to_le_bytes(st.segs@.len() as u32);
    let p3 = spec_u32_to_le_bytes(st.seq_data@.len() as u32);
    let p4 = spec_u32_to_le_bytes(st.seg_data@.len() as u32);
    let p5 = spec_u32_to_le_bytes(st.links@.len() as u32);
    let p6 = spec_u32_to_le_bytes(st.paths@.len() as u32);
    let p7 = spec_u32_to_le_bytes(st.steps@.len() as u32);
    let p8 = spec_u32_to_le_bytes(st.overlaps@.len() as u32);
    let p9 = spec_u32_to_le_bytes(st.overlap_data@.len() as u32);
    let p10 = spec_u32_to_le_bytes(st.line_order@.len() as u32);
    let p11 = enc_concat(st.headers@, |sp: Span| enc_span(sp));
    let p12 = st.header_data@;
    let p13 = enc_concat(st.segs@, |g: Segment| enc_seg(g));
    let p14 = st.seq_data@;
    let p15 = st.seg_data@;
    let p16 = enc_concat(st.links@, |l: Link| enc_link(l));
    let p17 = enc_concat(st.paths@, |p: Path| enc_path(p));
    let p18 = enc_concat(st.steps@, |h: Handle| enc_handle(h));
    let p19 = enc_concat(st.overlaps@, |sp: Span| enc_span(sp));
    let p20 = st.overlap_data@;
    let p21 = enc_concat(st.line_order@, |k: LineKind| enc_kind(k));
    let s0 = p0;
    let s1 = s0 + p1;
    let s2 = s1 + p2;
    let s3 = s2 + p3;
    let s4 = s3 + p4;
    let s5 = s4 + p5;
    let s6 = s5 + p6;
    let s7 = s6 + p7;
    let s8 = s7 + p8;
    let s9 = s8 + p9;
    let s10 = s9 + p10;
    let s11 = s10 + p11;
    let s12 = s11 + p12;
    let s13 = s12 + p13;
    let s14 = s13 + p14;
    let s15 = s14 + p15;
    let s16 = s15 + p16;
    let s17 = s16 + p17;
    let s18 = s17 + p18;
    let s19 = s18 + p19;
    let s20 = s19 + p20;
    let s21 = s20 + p21;
    assert(data == s21);
    assert(forall|i: int| 0 <= i < s20.len() ==> #[trigger] s21[i] == s20[i]);
    assert(forall|i: int| 0 <= i < s19.len() ==> #[trigger] s20[i] == s19[i]);
    assert(forall|i: int| 0 <= i < s18.len() ==> #[trigger] s19[i] == s18[i]);
    assert(forall|i: int| 0 <= i < s17.len() ==> #[trigger] s18[i] == s17[i]);
    assert(forall|i: int| 0 <= i < s16.len() ==> #[trigger] s17[i] == s16[i]);
    assert(forall|i: int| 0 <= i < s15.len() ==> #[trigger] s16[i] == s15[i]);
    assert(forall|i: int| 0 <= i < s14.len() ==> #[trigger] s15[i] == s14[i]);
    assert(forall|i: int| 0 <= i < s13.len() ==> #[trigger] s14[i] == s13[i]);
    assert(forall|i: int| 0 <= i < s12.len() ==> #[trigger] s13[i] == s12[i]);
    assert(forall|i: int| 0 <= i < s11.len() ==> #[trigger] s12[i] == s11[i]);
    assert(forall|i: int| 0 <= i < s10.len() ==> #[trigger] s11[i] == s10[i]);
    assert(forall|i: int| 0 <= i < s9.len() ==> #[trigger] s10[i] == s9[i]);
    assert(forall|i: int| 0 <= i < s8.len() ==> #[trigger] s9[i] == s8[i]);
    assert(forall|i: int| 0 <= i < s7.len() ==> #[trigger] s8[i] == s7[i]);
    assert(forall|i: int| 0 <= i < s6.len() ==> #[trigger] s7[i] == s6[i]);
    assert(forall|i: int| 0 <= i < s5.len() ==> #[trigger] s6[i] == s5[i]);
    assert(forall|i: int| 0 <= i < s4.len() ==> #[trigger] s5[i] == s4[i]);
    assert(forall|i: int| 0 <= i < s3.len() ==> #[trigger] s4[i] == s3[i]);
    assert(forall|i: int| 0 <= i < s2.len() ==> #[trigger] s3[i] == s2[i]);
    assert(forall|i: int| 0 <= i < s1.len() ==> #[trigger] s2[i] == s1[i]);
    assert(forall|i: int| 0 <= i < s0.len() ==> #[trigger] s1[i] == s0[i]);
    assert(data.subrange(s11.len() - p11.len(), s11.len() as int) =~= p11);
}

/// One section of the byte image holds exactly its pool's bytes.
proof fn lemma_rt_sec_12(st: FlatGFAStore)
    ensures
        enc_store(st).subrange((4 + 4 + 4 + 4 + 4 + 4 + 4 + 4 + 4 + 4 + 4 + 8 * st.headers@.len()) as int, (4 + 4 + 4 + 4 + 4 + 4 + 4 + 4 + 4 + 4 + 4 + 8 * st.headers@.len() + st.header_data@.len()) as int) == st.header_data@,
{
    lemma_auto_spec_u32_to_from_le_bytes();
    lemma_auto_spec_u64_to_from_le_bytes();
    lemma_enc_concat_len(st.headers@, |sp: Span| enc_span(sp), 8);
    lemma_enc_concat_len(st.segs@, |g: Segment| enc_seg(g), 24);
    lemma_enc_concat_len(st.links@, |l: Link| enc_link(l), 18);
    lemma_enc_concat_len(st.paths@, |p: Path| enc_path(p), 24);
    lemma_enc_concat_len(st.steps@, |h: Handle| enc_handle(h), 5);
    lemma_enc_concat_len(st.overlaps@, |sp: Span| enc_span(sp), 8);
    lemma_enc_concat_len(st.line_order@, |k: LineKind| enc_kind(k), 1);
    let data = enc_store(st);
    let p0 = spec_u32_to_le_bytes(st.headers@.len() as u32);
    let p1 = spec_u32_to_le_bytes(st.header_data@.len() as u32);
    let p2 = spec_u32_to_le_bytes(st.segs@.len() as u32);
    let p3 = spec_u32_to_le_bytes(st.seq_data@.len() as u32);
    let p4 = spec_u32_to_le_bytes(st.seg_data@.len() as u32);
    let p5 = spec_u32_to_le_bytes(st.links@.len() as u32);
    let p6 = spec_u32_to_le_bytes(st.paths@.len() as u32);
    let p7 = spec_u32_to_le_bytes(st.steps@.len() as u32);
    let p8 = spec_u32_to_le_bytes(st.overlaps@.len() as u32);
    let p9 = spec_u32_to_le_bytes(st.overlap_data@.len() as u32);
    let p10 = spec_u32_to_le_bytes(st.line_order@.len() as u32);
    let p11 = enc_concat(st.headers@, |sp: Span| enc_span(sp));
    let p12 = st.header_data@;
    let p13 = enc_concat(st.segs@, |g: Segment| enc_seg(g));
    let p14 = st.seq_data@;
    let p15 = st.seg_data@;
    let p16 = enc_concat(st.links@, |l: Link| enc_link(l));
    let p17 = enc_concat(st.paths@, |p: Path| enc_path(p));
    let p18 = enc_concat(st.steps@, |h: Handle| enc_handle(h));
    let p19 = enc_concat(st.overlaps@, |sp: Span| enc_span(sp));
    let p20 = st.overlap_data@;
    let p21 = enc_concat(st.line_order@, |k: LineKind| enc_kind(k));
    let s0 = p0;
    let s1 = s0 + p1;
    let s2 = s1 + p2;
    let s3 = s2 + p3;
    let s4 = s3 + p4;
    let s5 = s4 + p5;
    let s6 = s5 + p6;
    let s7 = s6 + p7;
    let s8 = s7 + p8;
    let s9 = s8 + p9;
    let s10 = s9 + p10;
    let s11 = s10 + p11;
    let s12 = s11 + p12;
    let s13 = s12 + p13;
    let s14 = s13 + p14;
    let s15 = s14 + p15;
    let s16 = s15 + p16;
    let s17 = s16 + p17;
    let s18 = s17 + p18;
    let s19 = s18 + p19;
    let s20 = s19 + p20;
    let s21 = s20 + p21;
    assert(data == s21);
    assert(forall|i: int| 0 <= i < s20.len() ==> #[trigger] s21[i] == s20[i]);
    assert(forall|i: int| 0 <= i < s19.len() ==> #[trigger] s20[i] == s19[i]);
    assert(forall|i: int| 0 <= i < s18.len() ==> #[trigger] s19[i] == s18[i]);
    assert(forall|i: int| 0 <= i < s17.len() ==> #[trigger] s18[i] == s17[i]);
    assert(forall|i: int| 0 <= i < s16.len() ==> #[trigger] s17[i] == s16[i]);
    assert(forall|i: int| 0 <= i < s15.len() ==> #[trigger] s16[i] == s15[i]);
    assert(forall|i: int| 0 <= i < s14.len() ==> #[trigger] s15[i] == s14[i]);
    assert(forall|i: int| 0 <= i < s13.len() ==> #[trigger] s14[i] == s13[i]);
    assert(forall|i: int| 0 <= i < s12.len() ==> #[trigger] s13[i] == s12[i]);
    assert(forall|i: int| 0 <= i < s11.len() ==> #[trigger] s12[i] == s11[i]);
    assert(forall|i: int| 0 <= i < s10.len() ==> #[trigger] s11[i] == s10[i]);
    assert(forall|i: int| 0 <= i < s9.len() ==> #[trigger] s10[i] == s9[i]);
    assert(forall|i: int| 0 <= i < s8.len() ==> #[trigger] s9[i] == s8[i]);
    assert(forall|i: int| 0 <= i < s7.len() ==> #[trigger] s8[i] == s7[i]);
    assert(forall|i: int| 0 <= i < s6.len() ==> #[trigger] s7[i] == s6[i]);
    assert(forall|i: int| 0 <= i < s5.len() ==> #[trigger] s6[i] == s5[i]);
    assert(forall|i: int| 0 <= i < s4.len() ==> #[trigger] s5[i] == s4[i]);
    assert(forall|i: int| 0 <= i < s3.len() ==> #[trigger] s4[i] == s3[i]);
    assert(forall|i: int| 0 <= i < s2.len() ==> #[trigger] s3[i] == s2[i]);
    assert(forall|i: int| 0 <= i < s1.len() ==> #[trigger] s2[i] == s1[i]);
    assert(forall|i: int| 0 <= i < s0.len() ==> #[trigger] s1[i] == s0[i]);
    assert(data.subrange(s12.len() - p12.len(), s12.len() as int) =~= p12);
}

/// One section of the byte image holds exactly its pool's bytes.
proof fn lemma_rt_sec_13(st: FlatGFAStore)
    ensures
        enc_store(st).subrange((4 + 4 + 4 + 4 + 4 + 4 + 4 + 4 + 4 + 4 + 4 + 8 * st.headers@.len() + st.header_data@.len()) as int, (4 + 4 + 4 + 4 + 4 + 4 + 4 + 4 + 4 + 4 + 4 + 8 * st.headers@.len() + st.header_data@.len() + 24 * st.segs@.len()) as int) == enc_concat(st.segs@, |g: Segment| enc_seg(g)),
{
    lemma_auto_spec_u32_to_from_le_bytes();
    lemma_auto_spec_u64_to_from_le_bytes();
    lemma_enc_concat_len(st.headers@, |sp: Span| enc_span(sp), 8);
    lemma_enc_concat_len(st.segs@, |g: Segment| enc_seg(g), 24);
    lemma_enc_concat_len(st.links@, |l: Link| enc_link(l), 18);
    lemma_enc_concat_len(st.paths@, |p: Path| enc_path(p), 24);
    lemma_enc_concat_len(st.steps@, |h: Handle| enc_handle(h), 5);
    lemma_enc_concat_len(st.overlaps@, |sp: Span| enc_span(sp), 8);
    lemma_enc_concat_len(st.line_order@, |k: LineKind| enc_kind(k), 1);
    let data = enc_store(st);
    let p0 = spec_u32_to_le_bytes(st.headers@.len() as u32);
    let p1 = spec_u32_to_le_bytes(st.header_data@.len() as u32);
    let p2 = spec_u32_to_le_bytes(st.segs@.len() as u32);
    let p3 = spec_u32_to_le_bytes(st.seq_data@.len() as u32);
    let p4 = spec_u32_to_le_bytes(st.seg_data@.len() as u32);
    let p5 = spec_u32_to_le_bytes(st.links@.len() as u32);
    let p6 = spec_u32_to_le_bytes(st.paths@.len() as u32);
    let p7 = spec_u32_to_le_bytes(st.steps@.len() as u32);
    let p8 = spec_u32_to_le_bytes(st.overlaps@.len() as u32);
    let p9 = spec_u32_to_le_bytes(st.overlap_data@.len() as u32);
    let p10 = spec_u32_to_le_bytes(st.line_order@.len() as u32);
    let p11 = enc_concat(st.headers@, |sp: Span| enc_span(sp));
    let p12 = st.header_data@;
    let p13 = enc_concat(st.segs@, |g: Segment| enc_seg(g));
    let p14 = st.seq_data@;
    let p15 = st.seg_data@;
    let p16 = enc_concat(st.links@, |l: Link| enc_link(l));
    let p17 = enc_concat(st.paths@, |p: Path| enc_path(p));
    let p18 = enc_concat(st.steps@, |h: Handle| enc_handle(h));
    let p19 = enc_concat(st.overlaps@, |sp: Span| enc_span(sp));
    let p20 = st.overlap_data@;
    let p21 = enc_concat(st.line_order@, |k: LineKind| enc_kind(k));
    let s0 = p0;
    let s1 = s0 + p1;
    let s2 = s1 + p2;
    let s3 = s2 + p3;
    let s4 = s3 + p4;
    let s5 = s4 + p5;
    let s6 = s5 + p6;
    let s7 = s6 + p7;
    let s8 = s7 + p8;
    let s9 = s8 + p9;
    let s10 = s9 + p10;
    let s11 = s10 + p11;
    let s12 = s11 + p12;
    let s13 = s12 + p13;
    let s14 = s13 + p14;
    let s15 = s14 + p15;
    let s16 = s15 + p16;
    let s17 = s16 + p17;
    let s18 = s17 + p18;
    let s19 = s18 + p19;
    let s20 = s19 + p20;
    let s21 = s20 + p21;
    assert(data == s21);
    assert(forall|i: int| 0 <= i < s20.len() ==> #[trigger] s21[i] == s20[i]);
    assert(forall|i: int| 0 <= i < s19.len() ==> #[trigger] s20[i] == s19[i]);
    assert(forall|i: int| 0 <= i < s18.len() ==> #[trigger] s19[i] == s18[i]);
    assert(forall|i: int| 0 <= i < s17.len() ==> #[trigger] s18[i] == s17[i]);
    assert(forall|i: int| 0 <= i < s16.len() ==> #[trigger] s17[i] == s16[i]);
    assert(forall|i: int| 0 <= i < s15.len() ==> #[trigger] s16[i] == s15[i]);
    assert(forall|i: int| 0 <= i < s14.len() ==> #[trigger] s15[i] == s14[i]);
    assert(forall|i: int| 0 <= i < s13.len() ==> #[trigger] s14[i] == s13[i]);
    assert(forall|i: int| 0 <= i < s12.len() ==> #[trigger] s13[i] == s12[i]);
    assert(forall|i: int| 0 <= i < s11.len() ==> #[trigger] s12[i] == s11[i]);
    assert(forall|i: int| 0 <= i < s10.len() ==> #[trigger] s11[i] == s10[i]);
    assert(forall|i: int| 0 <= i < s9.len() ==> #[trigger] s10[i] == s9[i]);
    assert(forall|i: int| 0 <= i < s8.len() ==> #[trigger] s9[i] == s8[i]);
    assert(forall|i: int| 0 <= i < s7.len() ==> #[trigger] s8[i] == s7[i]);
    assert(forall|i: int| 0 <= i < s6.len() ==> #[trigger] s7[i] == s6[i]);
    assert(forall|i: int| 0 <= i < s5.len() ==> #[trigger] s6[i] == s5[i]);
    assert(forall|i: int| 0 <= i < s4.len() ==> #[trigger] s5[i] == s4[i]);
    assert(forall|i: int| 0 <= i < s3.len() ==> #[trigger] s4[i] == s3[i]);
    assert(forall|i: int| 0 <= i < s2.len() ==> #[trigger] s3[i] == s2[i]);
    assert(forall|i: int| 0 <= i < s1.len() ==> #[trigger] s2[i] == s1[i]);
    assert(forall|i: int| 0 <= i < s0.len() ==> #[trigger] s1[i] == s0[i]);
    assert(data.subrange(s13.len() - p13.len(), s13.len() as int) =~= p13);
}

/// One section of the byte image holds exactly its pool's bytes.
proof fn lemma_rt_sec_14(st: FlatGFAStore)
    ensures
        enc_store(st).subrange((4 + 4 + 4 + 4 + 4 + 4 + 4 + 4 + 4 + 4 + 4 + 8 * st.headers@.len() + st.header_data@.len() + 24 * st.segs@.len()) as int, (4 + 4 + 4 + 4 + 4 + 4 + 4 + 4 + 4 + 4 + 4 + 8 * st.headers@.len() + st.header_data@.len() + 24 * st.segs@.len() + st.seq_data@.len()) as int) == st.seq_data@,
{
    lemma_auto_spec_u32_to_from_le_bytes();
    lemma_auto_spec_u64_to_from_le_bytes();
    lemma_enc_concat_len(st.headers@, |sp: Span| enc_span(sp), 8);
    lemma_enc_concat_len(st.segs@, |g: Segment| enc_seg(g), 24);
    lemma_enc_concat_len(st.links@, |l: Link| enc_link(l), 18);
    lemma_enc_concat_len(st.paths@, |p: Path| enc_path(p), 24);
    lemma_enc_concat_len(st.steps@, |h: Handle| enc_handle(h), 5);
    lemma_enc_concat_len(st.overlaps@, |sp: Span| enc_span(sp), 8);
    lemma_enc_concat_len(st.line_order@, |k: LineKind| enc_kind(k), 1);
    let data = enc_store(st);
    let p0 = spec_u32_to_le_bytes(st.headers@.len() as u32);
    let p1 = spec_u32_to_le_bytes(st.header_data@.len() as u32);
    let p2 = spec_u32_to_le_bytes(st.segs@.len() as u32);
    let p3 = spec_u32_to_le_bytes(st.seq_data@.len() as u32);
    let p4 = spec_u32_to_le_bytes(st.seg_data@.len() as u32);
    let p5 = spec_u32_to_le_bytes(st.links@.len() as u32);
    let p6 = spec_u32_to_le_bytes(st.paths@.len() as u32);
    let p7 = spec_u32_to_le_bytes(st.steps@.len() as u32);
    let p8 = spec_u32_to_le_bytes(st.overlaps@.len() as u32);
    let p9 = spec_u32_to_le_bytes(st.overlap_data@.len() as u32);
    let p10 = spec_u32_to_le_bytes(st.line_order@.len() as u32);
    let p11 = enc_concat(st.headers@, |sp: Span| enc_span(sp));
    let p12 = st.header_data@;
    let p13 = enc_concat(st.segs@, |g: Segment| enc_seg(g));
    let p14 = st.seq_data@;
    let p15 = st.seg_data@;
    let p16 = enc_concat(st.links@, |l: Link| enc_link(l));
    let p17 = enc_concat(st.paths@, |p: Path| enc_path(p));
    let p18 = enc_concat(st.steps@, |h: Handle| enc_handle(h));
    let p19 = enc_concat(st.overlaps@, |sp: Span| enc_span(sp));
    let p20 = st.overlap_data@;
    let p21 = enc_concat(st.line_order@, |k: LineKind| enc_kind(k));
    let s0 = p0;
    let s1 = s0 + p1;
    let s2 = s1 + p2;
    let s3 = s2 + p3;
    let s4 = s3 + p4;
    let s5 = s4 + p5;
    let s6 = s5 + p6;
    let s7 = s6 + p7;
    let s8 = s7 + p8;
    let s9 = s8 + p9;
    let s10 = s9 + p10;
    let s11 = s10 + p11;
    let s12 = s11 + p12;
    let s13 = s12 + p13;
    let s14 = s13 + p14;
    let s15 = s14 + p15;
    let s16 = s15 + p16;
    let s17 = s16 + p17;
    let s18 = s17 + p18;
    let s19 = s18 + p19;
    let s20 = s19 + p20;
    let s21 = s20 + p21;
    assert(data == s21);
    assert(forall|i: int| 0 <= i < s20.len() ==> #[trigger] s21[i] == s20[i]);
    assert(forall|i: int| 0 <= i < s19.len() ==> #[trigger] s20[i] == s19[i]);
    assert(forall|i: int| 0 <= i < s18.len() ==> #[trigger] s19[i] == s18[i]);
    assert(forall|i: int| 0 <= i < s17.len() ==> #[trigger] s18[i] == s17[i]);
    assert(forall|i: int| 0 <= i < s16.len() ==> #[trigger] s17[i] == s16[i]);
    assert(forall|i: int| 0 <= i < s15.len() ==> #[trigger] s16[i] == s15[i]);
    assert(forall|i: int| 0 <= i < s14.len() ==> #[trigger] s15[i] == s14[i]);
    assert(forall|i: int| 0 <= i < s13.len() ==> #[trigger] s14[i] == s13[i]);
    assert(forall|i: int| 0 <= i < s12.len() ==> #[trigger] s13[i] == s12[i]);
    assert(forall|i: int| 0 <= i < s11.len() ==> #[trigger] s12[i] == s11[i]);
    assert(forall|i: int| 0 <= i < s10.len() ==> #[trigger] s11[i] == s10[i]);
    assert(forall|i: int| 0 <= i < s9.len() ==> #[trigger] s10[i] == s9[i]);
    assert(forall|i: int| 0 <= i < s8.len() ==> #[trigger] s9[i] == s8[i]);
    assert(forall|i: int| 0 <= i < s7.len() ==> #[trigger] s8[i] == s7[i]);
    assert(forall|i: int| 0 <= i < s6.len() ==> #[trigger] s7[i] == s6[i]);
    assert(forall|i: int| 0 <= i < s5.len() ==> #[trigger] s6[i] == s5[i]);
    assert(forall|i: int| 0 <= i < s4.len() ==> #[trigger] s5[i] == s4[i]);
    assert(forall|i: int| 0 <= i < s3.len() ==> #[trigger] s4[i] == s3[i]);
    assert(forall|i: int| 0 <= i < s2.len() ==> #[trigger] s3[i] == s2[i]);
    assert(forall|i: int| 0 <= i < s1.len() ==> #[trigger] s2[i] == s1[i]);
    assert(forall|i: int| 0 <= i < s0.len() ==> #[trigger] s1[i] == s0[i]);
    assert(data.subrange(s14.len() - p14.len(), s14.len() as int) =~= p14);
}

/// One section of the byte image holds exactly its pool's bytes.
proof fn lemma_rt_sec_15(st: FlatGFAStore)
    ensures
        enc_store(st).subrange((4 + 4 + 4 + 4 + 4 + 4 + 4 + 4 + 4 + 4 + 4 + 8 * st.headers@.len() + st.header_data@.len() + 24 * st.segs@.len() + st.seq_data@.len()) as int, (4 + 4 + 4 + 4 + 4 + 4 + 4 + 4 + 4 + 4 + 4 + 8 * st.headers@.len() + st.header_data@.len() + 24 * st.segs@.len() + st.seq_data@.len() + st.seg_data@.len()) as int) == st.seg_data@,
{
    lemma_auto_spec_u32_to_from_le_bytes();
    lemma_auto_spec_u64_to_from_le_bytes();
    lemma_enc_concat_len(st.headers@, |sp: Span| enc_span(sp), 8);
    lemma_enc_concat_len(st.segs@, |g: Segment| enc_seg(g), 24);
    lemma_enc_concat_len(st.links@, |l: Link| enc_link(l), 18);
    lemma_enc_concat_len(st.paths@, |p: Path| enc_path(p), 24);
    lemma_enc_concat_len(st.steps@, |h: Handle| enc_handle(h), 5);
    lemma_enc_concat_len(st.overlaps@, |sp: Span| enc_span(sp), 8);
    lemma_enc_concat_len(st.line_order@, |k: LineKind| enc_kind(k), 1);
    let data = enc_store(st);
    let p0 = spec_u32_to_le_bytes(st.headers@.len() as u32);
    let p1 = spec_u32_to_le_bytes(st.header_data@.len() as u32);
    let p2 = spec_u32_to_le_bytes(st.segs@.len() as u32);
    let p3 = spec_u32_to_le_bytes(st.seq_data@.len() as u32);
    let p4 = spec_u32_to_le_bytes(st.seg_data@.len() as u32);
    let p5 = spec_u32_to_le_bytes(st.links@.len() as u32);
    let p6 = spec_u32_to_le_bytes(st.paths@.len() as u32);
    let p7 = spec_u32_to_le_bytes(st.steps@.len() as u32);
    let p8 = spec_u32_to_le_bytes(st.overlaps@.len() as u32);
    let p9 = spec_u32_to_le_bytes(st.overlap_data@.len() as u32);
    let p10 = spec_u32_to_le_bytes(st.line_order@.len() as u32);
    let p11 = enc_concat(st.headers@, |sp: Span| enc_span(sp));
    let p12 = st.header_data@;
    let p13 = enc_concat(st.segs@, |g: Segment| enc_seg(g));
    let p14 = st.seq_data@;
    let p15 = st.seg_data@;
    let p16 = enc_concat(st.links@, |l: Link| enc_link(l));
    let p17 = enc_concat(st.paths@, |p: Path| enc_path(p));
    let p18 = enc_concat(st.steps@, |h: Handle| enc_handle(h));
    let p19 = enc_concat(st.overlaps@, |sp: Span| enc_span(sp));
    let p20 = st.overlap_data@;
    let p21 = enc_concat(st.line_order@, |k: LineKind| enc_kind(k));
    let s0 = p0;
    let s1 = s0 + p1;
    let s2 = s1 + p2;
    let s3 = s2 + p3;
    let s4 = s3 + p4;
    let s5 = s4 + p5;
    let s6 = s5 + p6;
    let s7 = s6 + p7;
    let s8 = s7 + p8;
    let s9 = s8 + p9;
    let s10 = s9 + p10;
    let s11 = s10 + p11;
    let s12 = s11 + p12;
    let s13 = s12 + p13;
    let s14 = s13 + p14;
    let s15 = s14 + p15;
    let s16 = s15 + p16;
    let s17 = s16 + p17;
    let s18 = s17 + p18;
    let s19 = s18 + p19;
    let s20 = s19 + p20;
    let s21 = s20 + p21;
    assert(data == s21);
    assert(forall|i: int| 0 <= i < s20.len() ==> #[trigger] s21[i] == s20[i]);
    assert(forall|i: int| 0 <= i < s19.len() ==> #[trigger] s20[i] == s19[i]);
    assert(forall|i: int| 0 <= i < s18.len() ==> #[trigger] s19[i] == s18[i]);
    assert(forall|i: int| 0 <= i < s17.len() ==> #[trigger] s18[i] == s17[i]);
    assert(forall|i: int| 0 <= i < s16.len() ==> #[trigger] s17[i] == s16[i]);
    assert(forall|i: int| 0 <= i < s15.len() ==> #[trigger] s16[i] == s15[i]);
    assert(forall|i: int| 0 <= i < s14.len() ==> #[trigger] s15[i] == s14[i]);
    assert(forall|i: int| 0 <= i < s13.len() ==> #[trigger] s14[i] == s13[i]);
    assert(forall|i: int| 0 <= i < s12.len() ==> #[trigger] s13[i] == s12[i]);
    assert(forall|i: int| 0 <= i < s11.len() ==> #[trigger] s12[i] == s11[i]);
    assert(forall|i: int| 0 <= i < s10.len() ==> #[trigger] s11[i] == s10[i]);
    assert(forall|i: int| 0 <= i < s9.len() ==> #[trigger] s10[i] == s9[i]);
    assert(forall|i: int| 0 <= i < s8.len() ==> #[trigger] s9[i] == s8[i]);
    assert(forall|i: int| 0 <= i < s7.len() ==> #[trigger] s8[i] == s7[i]);
    assert(forall|i: int| 0 <= i < s6.len() ==> #[trigger] s7[i] == s6[i]);
    assert(forall|i: int| 0 <= i < s5.len() ==> #[trigger] s6[i] == s5[i]);
    assert(forall|i: int| 0 <= i < s4.len() ==> #[trigger] s5[i] == s4[i]);
    assert(forall|i: int| 0 <= i < s3.len() ==> #[trigger] s4[i] == s3[i]);
    assert(forall|i: int| 0 <= i < s2.len() ==> #[trigger] s3[i] == s2[i]);
    assert(forall|i: int| 0 <= i < s1.len() ==> #[trigger] s2[i] == s1[i]);
    assert(forall|i: int| 0 <= i < s0.len() ==> #[trigger] s1[i] == s0[i]);
    assert(data.subrange(s15.len() - p15.len(), s15.len() as int) =~= p15);
}

/// One section of the byte image holds exactly its pool's bytes.
proof fn lemma_rt_sec_16(st: FlatGFAStore)
    ensures
        enc_store(st).subrange((4 + 4 + 4 + 4 + 4 + 4 + 4 + 4 + 4 + 4 + 4 + 8 * st.headers@.len() + st.header_data@.len() + 24 * st.segs@.len() + st.seq_data@.len() + st.seg_data@.len()) as int, (4 + 4 + 4 + 4 + 4 + 4 + 4 + 4 + 4 + 4 + 4 + 8 * st.headers@.len() + st.header_data@.len() + 24 * st.segs@.len() + st.seq_data@.len() + st.seg_data@.len() + 18 * st.links@.len()) as int) == enc_concat(st.links@, |l: Link| enc_link(l)),
{
    lemma_auto_spec_u32_to_from_le_bytes();
    lemma_auto_spec_u64_to_from_le_bytes();
    lemma_enc_concat_len(st.headers@, |sp: Span| enc_span(sp), 8);
    lemma_enc_concat_len(st.segs@, |g: Segment| enc_seg(g), 24);
    lemma_enc_concat_len(st.links@, |l: Link| enc_link(l), 18);
    lemma_enc_concat_len(st.paths@, |p: Path| enc_path(p), 24);
    lemma_enc_concat_len(st.steps@, |h: Handle| enc_handle(h), 5);
    lemma_enc_concat_len(st.overlaps@, |sp: Span| enc_span(sp), 8);
    lemma_enc_concat_len(st.line_order@, |k: LineKind| enc_kind(k), 1);
    let data = enc_store(st);
    let p0 = spec_u32_to_le_bytes(st.headers@.len() as u32);
    let p1 = spec_u32_to_le_bytes(st.header_data@.len() as u32);
    let p2 = spec_u32_to_le_bytes(st.segs@.len() as u32);
    let p3 = spec_u32_to_le_bytes(st.seq_data@.len() as u32);
    let p4 = spec_u32_to_le_bytes(st.seg_data@.len() as u32);
    let p5 = spec_u32_to_le_bytes(st.links@.len() as u32);
    let p6 = spec_u32_to_le_bytes(st.paths@.len() as u32);
    let p7 = spec_u32_to_le_bytes(st.steps@.len() as u32);
    let p8 = spec_u32_to_le_bytes(st.overlaps@.len() as u32);
    let p9 = spec_u32_to_le_bytes(st.overlap_data@.len() as u32);
    let p10 = spec_u32_to_le_bytes(st.line_order@.len() as u32);
    let p11 = enc_concat(st.headers@, |sp: Span| enc_span(sp));
    let p12 = st.header_data@;
    let p13 = enc_concat(st.segs@, |g: Segment| enc_seg(g));
    let p14 = st.seq_data@;
    let p15 = st.seg_data@;
    let p16 = enc_concat(st.links@, |l: Link| enc_link(l));
    let p17 = enc_concat(st.paths@, |p: Path| enc_path(p));
    let p18 = enc_concat(st.steps@, |h: Handle| enc_handle(h));
    let p19 = enc_concat(st.overlaps@, |sp: Span| enc_span(sp));
    let p20 = st.overlap_data@;
    let p21 = enc_concat(st.line_order@, |k: LineKind| enc_kind(k));
    let s0 = p0;
    let s1 = s0 + p1;
    let s2 = s1 + p2;
    let s3 = s2 + p3;
    let s4 = s3 + p4;
    let s5 = s4 + p5;
    let s6 = s5 + p6;
    let s7 = s6 + p7;
    let s8 = s7 + p8;
    let s9 = s8 + p9;
    let s10 = s9 + p10;
    let s11 = s10 + p11;
    let s12 = s11 + p12;
    let s13 = s12 + p13;
    let s14 = s13 + p14;
    let s15 = s14 + p15;
    let s16 = s15 + p16;
    let s17 = s16 + p17;
    let s18 = s17 + p18;
    let s19 = s18 + p19;
    let s20 = s19 + p20;
    let s21 = s20 + p21;
    assert(data == s21);
    assert(forall|i: int| 0 <= i < s20.len() ==> #[trigger] s21[i] == s20[i]);
    assert(forall|i: int| 0 <= i < s19.len() ==> #[trigger] s20[i] == s19[i]);
    assert(forall|i: int| 0 <= i < s18.len() ==> #[trigger] s19[i] == s18[i]);
    assert(forall|i: int| 0 <= i < s17.len() ==> #[trigger] s18[i] == s17[i]);
    assert(forall|i: int| 0 <= i < s16.len() ==> #[trigger] s17[i] == s16[i]);
    assert(forall|i: int| 0 <= i < s15.len() ==> #[trigger] s16[i] == s15[i]);
    assert(forall|i: int| 0 <= i < s14.len() ==> #[trigger] s15[i] == s14[i]);
    assert(forall|i: int| 0 <= i < s13.len() ==> #[trigger] s14[i] == s13[i]);
    assert(forall|i: int| 0 <= i < s12.len() ==> #[trigger] s13[i] == s12[i]);
    assert(forall|i: int| 0 <= i < s11.len() ==> #[trigger] s12[i] == s11[i]);
    assert(forall|i: int| 0 <= i < s10.len() ==> #[trigger] s11[i] == s10[i]);
    assert(forall|i: int| 0 <= i < s9.len() ==> #[trigger] s10[i] == s9[i]);
    assert(forall|i: int| 0 <= i < s8.len() ==> #[trigger] s9[i] == s8[i]);
    assert(forall|i: int| 0 <= i < s7.len() ==> #[trigger] s8[i] == s7[i]);
    assert(forall|i: int| 0 <= i < s6.len() ==> #[trigger] s7[i] == s6[i]);
    assert(forall|i: int| 0 <= i < s5.len() ==> #[trigger] s6[i] == s5[i]);
    assert(forall|i: int| 0 <= i < s4.len() ==> #[trigger] s5[i] == s4[i]);
    assert(forall|i: int| 0 <= i < s3.len() ==> #[trigger] s4[i] == s3[i]);
    assert(forall|i: int| 0 <= i < s2.len() ==> #[trigger] s3[i] == s2[i]);
    assert(forall|i: int| 0 <= i < s1.len() ==> #[trigger] s2[i] == s1[i]);
    assert(forall|i: int| 0 <= i < s0.len() ==> #[trigger] s1[i] == s0[i]);
    assert(data.subrange(s16.len() - p16.len(), s16.len() as int) =~= p16);
}

/// One section of the byte image holds exactly its pool's bytes.
proof fn lemma_rt_sec_17(st: FlatGFAStore)
    ensures
        enc_store(st).subrange((4 + 4 + 4 + 4 + 4 + 4 + 4 + 4 + 4 + 4 + 4 + 8 * st.headers@.len() + st.header_data@.len() + 24 * st.segs@.len() + st.seq_data@.len() + st.seg_data@.len() + 18 * st.links@.len()) as int, (4 + 4 + 4 + 4 + 4 + 4 + 4 + 4 + 4 + 4 + 4 + 8 * st.headers@.len() + st.header_data@.len() + 24 * st.segs@.len() + st.seq_data@.len() + st.seg_data@.len() + 18 * st.links@.len() + 24 * st.paths@.len()) as int) == enc_concat(st.paths@, |p: Path| enc_path(p)),
{
    lemma_auto_spec_u32_to_from_le_bytes();
    lemma_auto_spec_u64_to_from_le_bytes();
    lemma_enc_concat_len(st.headers@, |sp: Span| enc_span(sp), 8);
    lemma_enc_concat_len(st.segs@, |g: Segment| enc_seg(g), 24);
    lemma_enc_concat_len(st.links@, |l: Link| enc_link(l), 18);
    lemma_enc_concat_len(st.paths@, |p: Path| enc_path(p), 24);
    lemma_enc_concat_len(st.steps@, |h: Handle| enc_handle(h), 5);
    lemma_enc_concat_len(st.overlaps@, |sp: Span| enc_span(sp), 8);
    lemma_enc_concat_len(st.line_order@, |k: LineKind| enc_kind(k), 1);
    let data = enc_store(st);
    let p0 = spec_u32_to_le_bytes(st.headers@.len() as u32);
    let p1 = spec_u32_to_le_bytes(st.header_data@.len() as u32);
    let p2 = spec_u32_to_le_bytes(st.segs@.len() as u32);
    let p3 = spec_u32_to_le_bytes(st.seq_data@.len() as u32);
    let p4 = spec_u32_to_le_bytes(st.seg_data@.len() as u32);
    let p5 = spec_u32_to_le_bytes(st.links@.len() as u32);
    let p6 = spec_u32_to_le_bytes(st.paths@.len() as u32);
    let p7 = spec_u32_to_le_bytes(st.steps@.len() as u32);
    let p8 = spec_u32_to_le_bytes(st.overlaps@.len() as u32);
    let p9 = spec_u32_to_le_bytes(st.overlap_data@.len() as u32);
    let p10 = spec_u32_to_le_bytes(st.line_order@.len() as u32);
    let p11 = enc_concat(st.headers@, |sp: Span| enc_span(sp));
    let p12 = st.header_data@;
    let p13 = enc_concat(st.segs@, |g: Segment| enc_seg(g));
    let p14 = st.seq_data@;
    let p15 = st.seg_data@;
    let p16 = enc_concat(st.links@, |l: Link| enc_link(l));
    let p17 = enc_concat(st.paths@, |p: Path| enc_path(p));
    let p18 = enc_concat(st.steps@, |h: Handle| enc_handle(h));
    let p19 = enc_concat(st.overlaps@, |sp: Span| enc_span(sp));
    let p20 = st.overlap_data@;
    let p21 = enc_concat(st.line_order@, |k: LineKind| enc_kind(k));
    let s0 = p0;
    let s1 = s0 + p1;
    let s2 = s1 + p2;
    let s3 = s2 + p3;
    let s4 = s3 + p4;
    let s5 = s4 + p5;
    let s6 = s5 + p6;
    let s7 = s6 + p7;
    let s8 = s7 + p8;
    let s9 = s8 + p9;
    let s10 = s9 + p10;
    let s11 = s10 + p11;
    let s12 = s11 + p12;
    let s13 = s12 + p13;
    let s14 = s13 + p14;
    let s15 = s14 + p15;
    let s16 = s15 + p16;
    let s17 = s16 + p17;
    let s18 = s17 + p18;
    let s19 = s18 + p19;
    let s20 = s19 + p20;
    let s21 = s20 + p21;
    assert(data == s21);
    assert(forall|i: int| 0 <= i < s20.len() ==> #[trigger] s21[i] == s20[i]);
    assert(forall|i: int| 0 <= i < s19.len() ==> #[trigger] s20[i] == s19[i]);
    assert(forall|i: int| 0 <= i < s18.len() ==> #[trigger] s19[i] == s18[i]);
    assert(forall|i: int| 0 <= i < s17.len() ==> #[trigger] s18[i] == s17[i]);
    assert(forall|i: int| 0 <= i < s16.len() ==> #[trigger] s17[i] == s16[i]);
    assert(forall|i: int| 0 <= i < s15.len() ==> #[trigger] s16[i] == s15[i]);
    assert(forall|i: int| 0 <= i < s14.len() ==> #[trigger] s15[i] == s14[i]);
    assert(forall|i: int| 0 <= i < s13.len() ==> #[trigger] s14[i] == s13[i]);
    assert(forall|i: int| 0 <= i < s12.len() ==> #[trigger] s13[i] == s12[i]);
    assert(forall|i: int| 0 <= i < s11.len() ==> #[trigger] s12[i] == s11[i]);
    assert(forall|i: int| 0 <= i < s10.len() ==> #[trigger] s11[i] == s10[i]);
    assert(forall|i: int| 0 <= i < s9.len() ==> #[trigger] s10[i] == s9[i]);
    assert(forall|i: int| 0 <= i < s8.len() ==> #[trigger] s9[i] == s8[i]);
    assert(forall|i: int| 0 <= i < s7.len() ==> #[trigger] s8[i] == s7[i]);
    assert(forall|i: int| 0 <= i < s6.len() ==> #[trigger] s7[i] == s6[i]);
    assert(forall|i: int| 0 <= i < s5.len() ==> #[trigger] s6[i] == s5[i]);
    assert(forall|i: int| 0 <= i < s4.len() ==> #[trigger] s5[i] == s4[i]);
    assert(forall|i: int| 0 <= i < s3.len() ==> #[trigger] s4[i] == s3[i]);
    assert(forall|i: int| 0 <= i < s2.len() ==> #[trigger] s3[i] == s2[i]);
    assert(forall|i: int| 0 <= i < s1.len() ==> #[trigger] s2[i] == s1[i]);
    assert(forall|i: int| 0 <= i < s0.len() ==> #[trigger] s1[i] == s0[i]);
    assert(data.subrange(s17.len() - p17.len(), s17.len() as int) =~= p17);
}

/// One section of the byte image holds exactly its pool's bytes.
proof fn lemma_rt_sec_18(st: FlatGFAStore)
    ensures
        enc_store(st).subrange((4 + 4 + 4 + 4 + 4 + 4 + 4 + 4 + 4 + 4 + 4 + 8 * st.headers@.len() + st.header_data@.len() + 24 * st.segs@.len() + st.seq_data@.len() + st.seg_data@.len() + 18 * st.links@.len() + 24 * st.paths@.len()) as int, (4 + 4 + 4 + 4 + 4 + 4 + 4 + 4 + 4 + 4 + 4 + 8 * st.headers@.len() + st.header_data@.len() + 24 * st.segs@.len() + st.seq_data@.len() + st.seg_data@.len() + 18 * st.links@.len() + 24 * st.paths@.len() + 5 * st.steps@.len()) as int) == enc_concat(st.steps@, |h: Handle| enc_handle(h)),
{
    lemma_auto_spec_u32_to_from_le_bytes();
    lemma_auto_spec_u64_to_from_le_bytes();
    lemma_enc_concat_len(st.headers@, |sp: Span| enc_span(sp), 8);
    lemma_enc_concat_len(st.segs@, |g: Segment| enc_seg(g), 24);
    lemma_enc_concat_len(st.links@, |l: Link| enc_link(l), 18);
    lemma_enc_concat_len(st.paths@, |p: Path| enc_path(p), 24);
    lemma_enc_concat_len(st.steps@, |h: Handle| enc_handle(h), 5);
    lemma_enc_concat_len(st.overlaps@, |sp: Span| enc_span(sp), 8);
    lemma_enc_concat_len(st.line_order@, |k: LineKind| enc_kind(k), 1);
    let data = enc_store(st);
    let p0 = spec_u32_to_le_bytes(st.headers@.len() as u32);
    let p1 = spec_u32_to_le_bytes(st.header_data@.len() as u32);
    let p2 = spec_u32_to_le_bytes(st.segs@.len() as u32);
    let p3 = spec_u32_to_le_bytes(st.seq_data@.len() as u32);
    let p4 = spec_u32_to_le_bytes(st.seg_data@.len() as u32);
    let p5 = spec_u32_to_le_bytes(st.links@.len() as u32);
    let p6 = spec_u32_to_le_bytes(st.paths@.len() as u32);
    let p7 = spec_u32_to_le_bytes(st.steps@.len() as u32);
    let p8 = spec_u32_to_le_bytes(st.overlaps@.len() as u32);
    let p9 = spec_u32_to_le_bytes(st.overlap_data@.len() as u32);
    let p10 = spec_u32_to_le_bytes(st.line_order@.len() as u32);
    let p11 = enc_concat(st.headers@, |sp: Span| enc_span(sp));
    let p12 = st.header_data@;
    let p13 = enc_concat(st.segs@, |g: Segment| enc_seg(g));
    let p14 = st.seq_data@;
    let p15 = st.seg_data@;
    let p16 = enc_concat(st.links@, |l: Link| enc_link(l));
    let p17 = enc_concat(st.paths@, |p: Path| enc_path(p));
    let p18 = enc_concat(st.steps@, |h: Handle| enc_handle(h));
    let p19 = enc_concat(st.overlaps@, |sp: Span| enc_span(sp));
    let p20 = st.overlap_data@;
    let p21 = enc_concat(st.line_order@, |k: LineKind| enc_kind(k));
    let s0 = p0;
    let s1 = s0 + p1;
    let s2 = s1 + p2;
    let s3 = s2 + p3;
    let s4 = s3 + p4;
    let s5 = s4 + p5;
    let s6 = s5 + p6;
    let s7 = s6 + p7;
    let s8 = s7 + p8;
    let s9 = s8 + p9;
    let s10 = s9 + p10;
    let s11 = s10 + p11;
    let s12 = s11 + p12;
    let s13 = s12 + p13;
    let s14 = s13 + p14;
    let s15 = s14 + p15;
    let s16 = s15 + p16;
    let s17 = s16 + p17;
    let s18 = s17 + p18;
    let s19 = s18 + p19;
    let s20 = s19 + p20;
    let s21 = s20 + p21;
    assert(data == s21);
    assert(forall|i: int| 0 <= i < s20.len() ==> #[trigger] s21[i] == s20[i]);
    assert(forall|i: int| 0 <= i < s19.len() ==> #[trigger] s20[i] == s19[i]);
    assert(forall|i: int| 0 <= i < s18.len() ==> #[trigger] s19[i] == s18[i]);
    assert(forall|i: int| 0 <= i < s17.len() ==> #[trigger] s18[i] == s17[i]);
    assert(forall|i: int| 0 <= i < s16.len() ==> #[trigger] s17[i] == s16[i]);
    assert(forall|i: int| 0 <= i < s15.len() ==> #[trigger] s16[i] == s15[i]);
    assert(forall|i: int| 0 <= i < s14.len() ==> #[trigger] s15[i] == s14[i]);
    assert(forall|i: int| 0 <= i < s13.len() ==> #[trigger] s14[i] == s13[i]);
    assert(forall|i: int| 0 <= i < s12.len() ==> #[trigger] s13[i] == s12[i]);
    assert(forall|i: int| 0 <= i < s11.len() ==> #[trigger] s12[i] == s11[i]);
    assert(forall|i: int| 0 <= i < s10.len() ==> #[trigger] s11[i] == s10[i]);
    assert(forall|i: int| 0 <= i < s9.len() ==> #[trigger] s10[i] == s9[i]);
    assert(forall|i: int| 0 <= i < s8.len() ==> #[trigger] s9[i] == s8[i]);
    assert(forall|i: int| 0 <= i < s7.len() ==> #[trigger] s8[i] == s7[i]);
    assert(forall|i: int| 0 <= i < s6.len() ==> #[trigger] s7[i] == s6[i]);
    assert(forall|i: int| 0 <= i < s5.len() ==> #[trigger] s6[i] == s5[i]);
    assert(forall|i: int| 0 <= i < s4.len() ==> #[trigger] s5[i] == s4[i]);
    assert(forall|i: int| 0 <= i < s3.len() ==> #[trigger] s4[i] == s3[i]);
    assert(forall|i: int| 0 <= i < s2.len() ==> #[trigger] s3[i] == s2[i]);
    assert(forall|i: int| 0 <= i < s1.len() ==> #[trigger] s2[i] == s1[i]);
    assert(forall|i: int| 0 <= i < s0.len() ==> #[trigger] s1[i] == s0[i]);
    assert(data.subrange(s18.len() - p18.len(), s18.len() as int) =~= p18);
}

/// One section of the byte image holds exactly its pool's bytes.
proof fn lemma_rt_sec_19(st: FlatGFAStore)
    ensures
        enc_store(st).subrange((4 + 4 + 4 + 4 + 4 + 4 + 4 + 4 + 4 + 4 + 4 + 8 * st.headers@.len() + st.header_data@.len() + 24 * st.segs@.len() + st.seq_data@.len() + st.seg_data@.len() + 18 * st.links@.len() + 24 * st.paths@.len() + 5 * st.steps@.len()) as int, (4 + 4 + 4 + 4 + 4 + 4 + 4 + 4 + 4 + 4 + 4 + 8 * st.headers@.len() + st.header_data@.len() + 24 * st.segs@.len() + st.seq_data@.len() + st.seg_data@.len() + 18 * st.links@.len() + 24 * st.paths@.len() + 5 * st.steps@.len() + 8 * st.overlaps@.len()) as int) == enc_concat(st.overlaps@, |sp: Span| enc_span(sp)),
{
    lemma_auto_spec_u32_to_from_le_bytes();
    lemma_auto_spec_u64_to_from_le_bytes();
    lemma_enc_concat_len(st.headers@, |sp: Span| enc_span(sp), 8);
    lemma_enc_concat_len(st.segs@, |g: Segment| enc_seg(g), 24);
    lemma_enc_concat_len(st.links@, |l: Link| enc_link(l), 18);
    lemma_enc_concat_len(st.paths@, |p: Path| enc_path(p), 24);
    lemma_enc_concat_len(st.steps@, |h: Handle| enc_handle(h), 5);
    lemma_enc_concat_len(st.overlaps@, |sp: Span| enc_span(sp), 8);
    lemma_enc_concat_len(st.line_order@, |k: LineKind| enc_kind(k), 1);
    let data = enc_store(st);
    let p0 = spec_u32_to_le_bytes(st.headers@.len() as u32);
    let p1 = spec_u32_to_le_bytes(st.header_data@.len() as u32);
    let p2 = spec_u32_to_le_bytes(st.segs@.len() as u32);
    let p3 = spec_u32_to_le_bytes(st.seq_data@.len() as u32);
    let p4 = spec_u32_to_le_bytes(st.seg_data@.len() as u32);
    let p5 = spec_u32_to_le_bytes(st.links@.len() as u32);
    let p6 = spec_u32_to_le_bytes(st.paths@.len() as u32);
    let p7 = spec_u32_to_le_bytes(st.steps@.len() as u32);
    let p8 = spec_u32_to_le_bytes(st.overlaps@.len() as u32);
    let p9 = spec_u32_to_le_bytes(st.overlap_data@.len() as u32);
    let p10 = spec_u32_to_le_bytes(st.line_order@.len() as u32);
    let p11 = enc_concat(st.headers@, |sp: Span| enc_span(sp));
    let p12 = st.header_data@;
    let p13 = enc_concat(st.segs@, |g: Segment| enc_seg(g));
    let p14 = st.seq_data@;
    let p15 = st.seg_data@;
    let p16 = enc_concat(st.links@, |l: Link| enc_link(l));
    let p17 = enc_concat(st.paths@, |p: Path| enc_path(p));
    let p18 = enc_concat(st.steps@, |h: Handle| enc_handle(h));
    let p19 = enc_concat(st.overlaps@, |sp: Span| enc_span(sp));
    let p20 = st.overlap_data@;
    let p21 = enc_concat(st.line_order@, |k: LineKind| enc_kind(k));
    let s0 = p0;
    let s1 = s0 + p1;
    let s2 = s1 + p2;
    let s3 = s2 + p3;
    let s4 = s3 + p4;
    let s5 = s4 + p5;
    let s6 = s5 + p6;
    let s7 = s6 + p7;
    let s8 = s7 + p8;
    let s9 = s8 + p9;
    let s10 = s9 + p10;
    let s11 = s10 + p11;
    let s12 = s11 + p12;
    let s13 = s12 + p13;
    let s14 = s13 + p14;
    let s15 = s14 + p15;
    let s16 = s15 + p16;
    let s17 = s16 + p17;
    let s18 = s17 + p18;
    let s19 = s18 + p19;
    let s20 = s19 + p20;
    let s21 = s20 + p21;
    assert(data == s21);
    assert(forall|i: int| 0 <= i < s20.len() ==> #[trigger] s21[i] == s20[i]);
    assert(forall|i: int| 0 <= i < s19.len() ==> #[trigger] s20[i] == s19[i]);
    assert(forall|i: int| 0 <= i < s18.len() ==> #[trigger] s19[i] == s18[i]);
    assert(forall|i: int| 0 <= i < s17.len() ==> #[trigger] s18[i] == s17[i]);
    assert(forall|i: int| 0 <= i < s16.len() ==> #[trigger] s17[i] == s16[i]);
    assert(forall|i: int| 0 <= i < s15.len() ==> #[trigger] s16[i] == s15[i]);
    assert(forall|i: int| 0 <= i < s14.len() ==> #[trigger] s15[i] == s14[i]);
    assert(forall|i: int| 0 <= i < s13.len() ==> #[trigger] s14[i] == s13[i]);
    assert(forall|i: int| 0 <= i < s12.len() ==> #[trigger] s13[i] == s12[i]);
    assert(forall|i: int| 0 <= i < s11.len() ==> #[trigger] s12[i] == s11[i]);
    assert(forall|i: int| 0 <= i < s10.len() ==> #[trigger] s11[i] == s10[i]);
    assert(forall|i: int| 0 <= i < s9.len() ==> #[trigger] s10[i] == s9[i]);
    assert(forall|i: int| 0 <= i < s8.len() ==> #[trigger] s9[i] == s8[i]);
    assert(forall|i: int| 0 <= i < s7.len() ==> #[trigger] s8[i] == s7[i]);
    assert(forall|i: int| 0 <= i < s6.len() ==> #[trigger] s7[i] == s6[i]);
    assert(forall|i: int| 0 <= i < s5.len() ==> #[trigger] s6[i] == s5[i]);
    assert(forall|i: int| 0 <= i < s4.len() ==> #[trigger] s5[i] == s4[i]);
    assert(forall|i: int| 0 <= i < s3.len() ==> #[trigger] s4[i] == s3[i]);
    assert(forall|i: int| 0 <= i < s2.len() ==> #[trigger] s3[i] == s2[i]);
    assert(forall|i: int| 0 <= i < s1.len() ==> #[trigger] s2[i] == s1[i]);
    assert(forall|i: int| 0 <= i < s0.len() ==> #[trigger] s1[i] == s0[i]);
    assert(data.subrange(s19.len() - p19.len(), s19.len() as int) =~= p19);
}

/// One section of the byte image holds exactly its pool's bytes.
proof fn lemma_rt_sec_20(st: FlatGFAStore)
    ensures
        enc_store(st).subrange((4 + 4 + 4 + 4 + 4 + 4 + 4 + 4 + 4 + 4 + 4 + 8 * st.headers@.len() + st.header_data@.len() + 24 * st.segs@.len() + st.seq_data@.len() + st.seg_data@.len() + 18 * st.links@.len() + 24 * st.paths@.len() + 5 * st.steps@.len() + 8 * st.overlaps@.len()) as int, (4 + 4 + 4 + 4 + 4 + 4 + 4 + 4 + 4 + 4 + 4 + 8 * st.headers@.len() + st.header_data@.len() + 24 * st.segs@.len() + st.seq_data@.len() + st.seg_data@.len() + 18 * st.links@.len() + 24 * st.paths@.len() + 5 * st.steps@.len() + 8 * st.overlaps@.len() + st.overlap_data@.len()) as int) == st.overlap_data@,
{
    lemma_auto_spec_u32_to_from_le_bytes();
    lemma_auto_spec_u64_to_from_le_bytes();
    lemma_enc_concat_len(st.headers@, |sp: Span| enc_span(sp), 8);
    lemma_enc_concat_len(st.segs@, |g: Segment| enc_seg(g), 24);
    lemma_enc_concat_len(st.links@, |l: Link| enc_link(l), 18);
    lemma_enc_concat_len(st.paths@, |p: Path| enc_path(p), 24);
    lemma_enc_concat_len(st.steps@, |h: Handle| enc_handle(h), 5);
    lemma_enc_concat_len(st.overlaps@, |sp: Span| enc_span(sp), 8);
    lemma_enc_concat_len(st.line_order@, |k: LineKind| enc_kind(k), 1);
    let data = enc_store(st);
    let p0 = spec_u32_to_le_bytes(st.headers@.len() as u32);
    let p1 = spec_u32_to_le_bytes(st.header_data@.len() as u32);
    let p2 = spec_u32_to_le_bytes(st.segs@.len() as u32);
    let p3 = spec_u32_to_le_bytes(st.seq_data@.len() as u32);
    let p4 = spec_u32_to_le_bytes(st.seg_data@.len() as u32);
    let p5 = spec_u32_to_le_bytes(st.links@.len() as u32);
    let p6 = spec_u32_to_le_bytes(st.paths@.len() as u32);
    let p7 = spec_u32_to_le_bytes(st.steps@.len() as u32);
    let p8 = spec_u32_to_le_bytes(st.overlaps@.len() as u32);
    let p9 = spec_u32_to_le_bytes(st.overlap_data@.len() as u32);
    let p10 = spec_u32_to_le_bytes(st.line_order@.len() as u32);
    let p11 = enc_concat(st.headers@, |sp: Span| enc_span(sp));
    let p12 = st.header_data@;
    let p13 = enc_concat(st.segs@, |g: Segment| enc_seg(g));
    let p14 = st.seq_data@;
    let p15 = st.seg_data@;
    let p16 = enc_concat(st.links@, |l: Link| enc_link(l));
    let p17 = enc_concat(st.paths@, |p: Path| enc_path(p));
    let p18 = enc_concat(st.steps@, |h: Handle| enc_handle(h));
    let p19 = enc_concat(st.overlaps@, |sp: Span| enc_span(sp));
    let p20 = st.overlap_data@;
    let p21 = enc_concat(st.line_order@, |k: LineKind| enc_kind(k));
    let s0 = p0;
    let s1 = s0 + p1;
    let s2 = s1 + p2;
    let s3 = s2 + p3;
    let s4 = s3 + p4;
    let s5 = s4 + p5;
    let s6 = s5 + p6;
    let s7 = s6 + p7;
    let s8 = s7 + p8;
    let s9 = s8 + p9;
    let s10 = s9 + p10;
    let s11 = s10 + p11;
    let s12 = s11 + p12;
    let s13 = s12 + p13;
    let s14 = s13 + p14;
    let s15 = s14 + p15;
    let s16 = s15 + p16;
    let s17 = s16 + p17;
    let s18 = s17 + p18;
    let s19 = s18 + p19;
    let s20 = s19 + p20;
    let s21 = s20 + p21;
    assert(data == s21);
    assert(forall|i: int| 0 <= i < s20.len() ==> #[trigger] s21[i] == s20[i]);
    assert(forall|i: int| 0 <= i < s19.len() ==> #[trigger] s20[i] == s19[i]);
    assert(forall|i: int| 0 <= i < s18.len() ==> #[trigger] s19[i] == s18[i]);
    assert(forall|i: int| 0 <= i < s17.len() ==> #[trigger] s18[i] == s17[i]);
    assert(forall|i: int| 0 <= i < s16.len() ==> #[trigger] s17[i] == s16[i]);
    assert(forall|i: int| 0 <= i < s15.len() ==> #[trigger] s16[i] == s15[i]);
    assert(forall|i: int| 0 <= i < s14.len() ==> #[trigger] s15[i] == s14[i]);
    assert(forall|i: int| 0 <= i < s13.len() ==> #[trigger] s14[i] == s13[i]);
    assert(forall|i: int| 0 <= i < s12.len() ==> #[trigger] s13[i] == s12[i]);
    assert(forall|i: int| 0 <= i < s11.len() ==> #[trigger] s12[i] == s11[i]);
    assert(forall|i: int| 0 <= i < s10.len() ==> #[trigger] s11[i] == s10[i]);
    assert(forall|i: int| 0 <= i < s9.len() ==> #[trigger] s10[i] == s9[i]);
    assert(forall|i: int| 0 <= i < s8.len() ==> #[trigger] s9[i] == s8[i]);
    assert(forall|i: int| 0 <= i < s7.len() ==> #[trigger] s8[i] == s7[i]);
    assert(forall|i: int| 0 <= i < s6.len() ==> #[trigger] s7[i] == s6[i]);
    assert(forall|i: int| 0 <= i < s5.len() ==> #[trigger] s6[i] == s5[i]);
    assert(forall|i: int| 0 <= i < s4.len() ==> #[trigger] s5[i] == s4[i]);
    assert(forall|i: int| 0 <= i < s3.len() ==> #[trigger] s4[i] == s3[i]);
    assert(forall|i: int| 0 <= i < s2.len() ==> #[trigger] s3[i] == s2[i]);
    assert(forall|i: int| 0 <= i < s1.len() ==> #[trigger] s2[i] == s1[i]);
    assert(forall|i: int| 0 <= i < s0.len() ==> #[trigger] s1[i] == s0[i]);
    assert(data.subrange(s20.len() - p20.len(), s20.len() as int) =~= p20);
}

/// One section of the byte image holds exactly its pool's bytes.
proof fn lemma_rt_sec_21(st: FlatGFAStore)
    ensures
        enc_store(st).subrange((4 + 4 + 4 + 4 + 4 + 4 + 4 + 4 + 4 + 4 + 4 + 8 * st.headers@.len() + st.header_data@.len() + 24 * st.segs@.len() + st.seq_data@.len() + st.seg_data@.len() + 18 * st.links@.len() + 24 * st.paths@.len() + 5 * st.steps@.len() + 8 * st.overlaps@.len() + st.overlap_data@.len()) as int, (4 + 4 + 4 + 4 + 4 + 4 + 4 + 4 + 4 + 4 + 4 + 8 * st.headers@.len() + st.header_data@.len() + 24 * st.segs@.len() + st.seq_data@.len() + st.seg_data@.len() + 18 * st.links@.len() + 24 * st.paths@.len() + 5 * st.steps@.len() + 8 * st.overlaps@.len() + st.overlap_data@.len() + st.line_order@.len()) as int) == enc_concat(st.line_order@, |k: LineKind| enc_kind(k)),
{
    lemma_auto_spec_u32_to_from_le_bytes();
    lemma_auto_spec_u64_to_from_le_bytes();
    lemma_enc_concat_len(st.headers@, |sp: Span| enc_span(sp), 8);
    lemma_enc_concat_len(st.segs@, |g: Segment| enc_seg(g), 24);
    lemma_enc_concat_len(st.links@, |l: Link| enc_link(l), 18);
    lemma_enc_concat_len(st.paths@, |p: Path| enc_path(p), 24);
    lemma_enc_concat_len(st.steps@, |h: Handle| enc_handle(h), 5);
    lemma_enc_concat_len(st.overlaps@, |sp: Span| enc_span(sp), 8);
    lemma_enc_concat_len(st.line_order@, |k: LineKind| enc_kind(k), 1);
    let data = enc_store(st);
    let p0 = spec_u32_to_le_bytes(st.headers@.len() as u32);
    let p1 = spec_u32_to_le_bytes(st.header_data@.len() as u32);
    let p2 = spec_u32_to_le_bytes(st.segs@.len() as u32);
    let p3 = spec_u32_to_le_bytes(st.seq_data@.len() as u32);
    let p4 = spec_u32_to_le_bytes(st.seg_data@.len() as u32);
    let p5 = spec_u32_to_le_bytes(st.links@.len() as u32);
    let p6 = spec_u32_to_le_bytes(st.paths@.len() as u32);
    let p7 = spec_u32_to_le_bytes(st.steps@.len() as u32);
    let p8 = spec_u32_to_le_bytes(st.overlaps@.len() as u32);
    let p9 = spec_u32_to_le_bytes(st.overlap_data@.len() as u32);
    let p10 = spec_u32_to_le_bytes(st.line_order@.len() as u32);
    let p11 = enc_concat(st.headers@, |sp: Span| enc_span(sp));
    let p12 = st.header_data@;
    let p13 = enc_concat(st.segs@, |g: Segment| enc_seg(g));
    let p14 = st.seq_data@;
    let p15 = st.seg_data@;
    let p16 = enc_concat(st.links@, |l: Link| enc_link(l));
    let p17 = enc_concat(st.paths@, |p: Path| enc_path(p));
    let p18 = enc_concat(st.steps@, |h: Handle| enc_handle(h));
    let p19 = enc_concat(st.overlaps@, |sp: Span| enc_span(sp));
    let p20 = st.overlap_data@;
    let p21 = enc_concat(st.line_order@, |k: LineKind| enc_kind(k));
    let s0 = p0;
    let s1 = s0 + p1;
    let s2 = s1 + p2;
    let s3 = s2 + p3;
    let s4 = s3 + p4;
    let s5 = s4 + p5;
    let s6 = s5 + p6;
    let s7 = s6 + p7;
    let s8 = s7 + p8;
    let s9 = s8 + p9;
    let s10 = s9 + p10;
    let s11 = s10 + p11;
    let s12 = s11 + p12;
    let s13 = s12 + p13;
    let s14 = s13 + p14;
    let s15 = s14 + p15;
    let s16 = s15 + p16;
    let s17 = s16 + p17;
    let s18 = s17 + p18;
    let s19 = s18 + p19;
    let s20 = s19 + p20;
    let s21 = s20 + p21;
    assert(data == s21);
    assert(forall|i: int| 0 <= i < s20.len() ==> #[trigger] s21[i] == s20[i]);
    assert(forall|i: int| 0 <= i < s19.len() ==> #[trigger] s20[i] == s19[i]);
    assert(forall|i: int| 0 <= i < s18.len() ==> #[trigger] s19[i] == s18[i]);
    assert(forall|i: int| 0 <= i < s17.len() ==> #[trigger] s18[i] == s17[i]);
    assert(forall|i: int| 0 <= i < s16.len() ==> #[trigger] s17[i] == s16[i]);
    assert(forall|i: int| 0 <= i < s15.len() ==> #[trigger] s16[i] == s15[i]);
    assert(forall|i: int| 0 <= i < s14.len() ==> #[trigger] s15[i] == s14[i]);
    assert(forall|i: int| 0 <= i < s13.len() ==> #[trigger] s14[i] == s13[i]);
    assert(forall|i: int| 0 <= i < s12.len() ==> #[trigger] s13[i] == s12[i]);
    assert(forall|i: int| 0 <= i < s11.len() ==> #[trigger] s12[i] == s11[i]);
    assert(forall|i: int| 0 <= i < s10.len() ==> #[trigger] s11[i] == s10[i]);
    assert(forall|i: int| 0 <= i < s9.len() ==> #[trigger] s10[i] == s9[i]);
    assert(forall|i: int| 0 <= i < s8.len() ==> #[trigger] s9[i] == s8[i]);
    assert(forall|i: int| 0 <= i < s7.len() ==> #[trigger] s8[i] == s7[i]);
    assert(forall|i: int| 0 <= i < s6.len() ==> #[trigger] s7[i] == s6[i]);
    assert(forall|i: int| 0 <= i < s5.len() ==> #[trigger] s6[i] == s5[i]);
    assert(forall|i: int| 0 <= i < s4.len() ==> #[trigger] s5[i] == s4[i]);
    assert(forall|i: int| 0 <= i < s3.len() ==> #[trigger] s4[i] == s3[i]);
    assert(forall|i: int| 0 <= i < s2.len() ==> #[trigger] s3[i] == s2[i]);
    assert(forall|i: int| 0 <= i < s1.len() ==> #[trigger] s2[i] == s1[i]);
    assert(forall|i: int| 0 <= i < s0.len() ==> #[trigger] s1[i] == s0[i]);
    assert(data.subrange(s21.len() - p21.len(), s21.len() as int) =~= p21);
}

/// The section table decodes back, and each section's bytes are its
/// pool's image.
#[verifier::rlimit(100)]
proof fn lemma_rt_sections(st: FlatGFAStore)
    requires
        st.headers@.len() <= u32::MAX,
        st.header_data@.len() <= u32::MAX,
        st.segs@.len() <= u32::MAX,
        st.seq_data@.len() <= u32::MAX,
        st.seg_data@.len() <= u32::MAX,
        st.links@.len() <= u32::MAX,
        st.paths@.len() <= u32::MAX,
        st.steps@.len() <= u32::MAX,
        st.overlaps@.len() <= u32::MAX,
        st.overlap_data@.len() <= u32::MAX,
        st.line_order@.len() <= u32::MAX,
        44 + 8 * st.headers@.len() + st.header_data@.len() + 24 * st.segs@.len()
            + st.seq_data@.len() + st.seg_data@.len() + 18 * st.links@.len() + 24
            * st.paths@.len() + 5 * st.steps@.len() + 8 * st.overlaps@.len()
            + st.overlap_data@.len() + st.line_order@.len() <= usize::MAX,
    ensures
        ({
            let data = enc_store(st);
            let v = spec_view_of(st);
            &&& view_ok(v, data)
            &&& data.subrange(v.off_headers as int, v.off_hd as int) == enc_concat(
                st.headers@,
                |sp: Span| enc_span(sp),
            )
            &&& data.subrange(v.off_hd as int, v.off_segs as int) == st.header_data@
            &&& data.subrange(v.off_segs as int, v.off_seq as int) == enc_concat(
                st.segs@,
                |g: Segment| enc_seg(g),
            )
            &&& data.subrange(v.off_seq as int, v.off_sd as int) == st.seq_data@
            &&& data.subrange(v.off_sd as int, v.off_links as int) == st.seg_data@
            &&& data.subrange(v.off_links as int, v.off_paths as int) == enc_concat(
                st.links@,
                |l: Link| enc_link(l),
            )
            &&& data.subrange(v.off_paths as int, v.off_steps as int) == enc_concat(
                st.paths@,
                |p: Path| enc_path(p),
            )
            &&& data.subrange(v.off_steps as int, v.off_overlaps as int) == enc_concat(
                st.steps@,
                |h: Handle| enc_handle(h),
            )
            &&& data.subrange(v.off_overlaps as int, v.off_od as int) == enc_concat(
                st.overlaps@,
                |sp: Span| enc_span(sp),
            )
            &&& data.subrange(v.off_od as int, v.off_lo as int) == st.overlap_data@
            &&& data.subrange(v.off_lo as int, data.len() as int) == enc_concat(
                st.line_order@,
                |k: LineKind| enc_kind(k),
            )
        }),
{
    lemma_auto_spec_u32_to_from_le_bytes();
    lemma_auto_spec_u64_to_from_le_bytes();
    lemma_enc_concat_len(st.headers@, |sp: Span| enc_span(sp), 8);
    lemma_enc_concat_len(st.segs@, |g: Segment| enc_seg(g), 24);
    lemma_enc_concat_len(st.links@, |l: Link| enc_link(l), 18);
    lemma_enc_concat_len(st.paths@, |p: Path| enc_path(p), 24);
    lemma_enc_concat_len(st.steps@, |h: Handle| enc_handle(h), 5);
    lemma_enc_concat_len(st.overlaps@, |sp: Span| enc_span(sp), 8);
    lemma_enc_concat_len(st.line_order@, |k: LineKind| enc_kind(k), 1);
    lemma_rt_sec_0(st);
    lemma_rt_sec_1(st);
    lemma_rt_sec_2(st);
    lemma_rt_sec_3(st);
    lemma_rt_sec_4(st);
    lemma_rt_sec_5(st);
    lemma_rt_sec_6(st);
    lemma_rt_sec_7(st);
    lemma_rt_sec_8(st);
    lemma_rt_sec_9(st);
    lemma_rt_sec_10(st);
    lemma_rt_sec_11(st);
    lemma_rt_sec_12(st);
    lemma_rt_sec_13(st);
    lemma_rt_sec_14(st);
    lemma_rt_sec_15(st);
    lemma_rt_sec_16(st);
    lemma_rt_sec_17(st);
    lemma_rt_sec_18(st);
    lemma_rt_sec_19(st);
    lemma_rt_sec_20(st);
    lemma_rt_sec_21(st);
}

#[verifier::rlimit(100)]
pub proof fn lemma_encode_view_round_trip(st: FlatGFAStore)
    requires
        st.headers@.len() <= u32::MAX,
        st.header_data@.len() <= u32::MAX,
        st.segs@.len() <= u32::MAX,
        st.seq_data@.len() <= u32::MAX,
        st.seg_data@.len() <= u32::MAX,
        st.links@.len() <= u32::MAX,
        st.paths@.len() <= u32::MAX,
        st.steps@.len() <= u32::MAX,
        st.overlaps@.len() <= u32::MAX,
        st.overlap_data@.len() <= u32::MAX,
        st.line_order@.len() <= u32::MAX,
        44 + 8 * st.headers@.len() + st.header_data@.len() + 24 * st.segs@.len()
            + st.seq_data@.len() + st.seg_data@.len() + 18 * st.links@.len() + 24
            * st.paths@.len() + 5 * st.steps@.len() + 8 * st.overlaps@.len()
            + st.overlap_data@.len() + st.line_order@.len() <= usize::MAX,
    ensures
        ({
            let data = enc_store(st);
            let v = spec_view_of(st);
            &&& view_ok(v, data)
            &&& forall|i: int|
                0 <= i < st.headers@.len() ==> dec_span_at(data, v.off_headers + 8 * i)
                    == st.headers@[i]
            &&& data.subrange(v.off_hd as int, v.off_hd + v.hd_len as int) == st.header_data@
            &&& forall|i: int|
                0 <= i < st.segs@.len() ==> dec_seg_at(data, v.off_segs + 24 * i) == st.segs@[i]
            &&& data.subrange(v.off_seq as int, v.off_seq + v.seq_len as int) == st.seq_data@
            &&& data.subrange(v.off_sd as int, v.off_sd + v.sd_len as int) == st.seg_data@
            &&& forall|i: int|
                0 <= i < st.links@.len() ==> dec_link_at(data, v.off_links + 18 * i)
                    == st.links@[i]
            &&& forall|i: int|
                0 <= i < st.paths@.len() ==> dec_path_at(data, v.off_paths + 24 * i)
                    == st.paths@[i]
            &&& forall|i: int|
                0 <= i < st.steps@.len() ==> dec_handle_at(data, v.off_steps + 5 * i)
                    == st.steps@[i]
            &&& forall|i: int|
                0 <= i < st.overlaps@.len() ==> dec_span_at(data, v.off_overlaps + 8 * i)
                    == st.overlaps@[i]
            &&& data.subrange(v.off_od as int, v.off_od + v.od_len as int) == st.overlap_data@
            &&& forall|i: int|
                0 <= i < st.line_order@.len() ==> dec_kind_at(data, v.off_lo + i)
                    == st.line_order@[i]
        }),
{
    lemma_auto_spec_u32_to_from_le_bytes();
    lemma_auto_spec_u64_to_from_le_bytes();
    let data = enc_store(st);
    let v = spec_view_of(st);
    lemma_rt_sections(st);
    lemma_enc_concat_len(st.headers@, |sp: Span| enc_span(sp), 8);
    lemma_enc_concat_len(st.segs@, |g: Segment| enc_seg(g), 24);
    lemma_enc_concat_len(st.links@, |l: Link| enc_link(l), 18);
    lemma_enc_concat_len(st.paths@, |p: Path| enc_path(p), 24);
    lemma_enc_concat_len(st.steps@, |h: Handle| enc_handle(h), 5);
    lemma_enc_concat_len(st.overlaps@, |sp: Span| enc_span(sp), 8);
    lemma_enc_concat_len(st.line_order@, |k: LineKind| enc_kind(k), 1);
    lemma_pool_section(data, v.off_headers as int, st.headers@, |sp: Span| enc_span(sp), 8);
    lemma_pool_section(data, v.off_segs as int, st.segs@, |g: Segment| enc_seg(g), 24);
    lemma_pool_section(data, v.off_links as int, st.links@, |l: Link| enc_link(l), 18);
    lemma_pool_section(data, v.off_paths as int, st.paths@, |p: Path| enc_path(p), 24);
    lemma_pool_section(data, v.off_steps as int, st.steps@, |h: Handle| enc_handle(h), 5);
    lemma_pool_section(data, v.off_overlaps as int, st.overlaps@, |sp: Span| enc_span(sp), 8);
    lemma_pool_section(data, v.off_lo as int, st.line_order@, |k: LineKind| enc_kind(k), 1);
    assert forall|i: int| 0 <= i < st.headers@.len() implies dec_span_at(
        data,
        v.off_headers + 8 * i,
    ) == st.headers@[i] by {
        lemma_dec_span(data, v.off_headers + 8 * i, st.headers@[i]);
    }
    assert forall|i: int| 0 <= i < st.segs@.len() implies dec_seg_at(data, v.off_segs + 24 * i)
        == st.segs@[i] by {
        lemma_dec_seg(data, v.off_segs + 24 * i, st.segs@[i]);
    }
    assert forall|i: int| 0 <= i < st.links@.len() implies dec_link_at(data, v.off_links + 18 * i)
        == st.links@[i] by {
        lemma_dec_link(data, v.off_links + 18 * i, st.links@[i]);
    }
    assert forall|i: int| 0 <= i < st.paths@.len() implies dec_path_at(data, v.off_paths + 24 * i)
        == st.paths@[i] by {
        lemma_dec_path(data, v.off_paths + 24 * i, st.paths@[i]);
    }
    assert forall|i: int| 0 <= i < st.steps@.len() implies dec_handle_at(data, v.off_steps + 5 * i)
        == st.steps@[i] by {
        lemma_dec_handle(data, v.off_steps + 5 * i, st.steps@[i]);
    }
    assert forall|i: int| 0 <= i < st.overlaps@.len() implies dec_span_at(
        data,
        v.off_overlaps + 8 * i,
    ) == st.overlaps@[i] by {
        lemma_dec_span(data, v.off_overlaps + 8 * i, st.overlaps@[i]);
    }
    assert forall|i: int| 0 <= i < st.line_order@.len() implies dec_kind_at(data, v.off_lo + i)
        == st.line_order@[i] by {
        assert(data.subrange(v.off_lo + i, v.off_lo + i + 1) == enc_kind(st.line_order@[i]));
        assert(data[v.off_lo + i] == enc_kind(st.line_order@[i])[0]);
    }
}

/// The view that the byte image of a store gives rise to.
pub open spec fn spec_view_of(st: FlatGFAStore) -> FileView {
    FileView {
        n_headers: st.headers@.len() as u32,
        hd_len: st.header_data@.len() as u32,
        n_segs: st.segs@.len() as u32,
        seq_len: st.seq_data@.len() as u32,
        sd_len: st.seg_data@.len() as u32,
        n_links: st.links@.len() as u32,
        n_paths: st.paths@.len() as u32,
        n_steps: st.steps@.len() as u32,
        n_overlaps: st.overlaps@.len() as u32,
        od_len: st.overlap_data@.len() as u32,
        n_lo: st.line_order@.len() as u32,
        off_headers: 44,
        off_hd: (44 + 8 * st.headers@.len()) as usize,
        off_segs: (44 + 8 * st.headers@.len() + st.header_data@.len()) as usize,
        off_seq: (44 + 8 * st.headers@.len() + st.header_data@.len() + 24 * st.segs@.len()) as usize,
        off_sd: (44 + 8 * st.headers@.len() + st.header_data@.len() + 24 * st.segs@.len()
            + st.seq_data@.len()) as usize,
        off_links: (44 + 8 * st.headers@.len() + st.header_data@.len() + 24 * st.segs@.len()
            + st.seq_data@.len() + st.seg_data@.len()) as usize,
        off_paths: (44 + 8 * st.headers@.len() + st.header_data@.len() + 24 * st.segs@.len()
            + st.seq_data@.len() + st.seg_data@.len() + 18 * st.links@.len()) as usize,
        off_steps: (44 + 8 * st.headers@.len() + st.header_data@.len() + 24 * st.segs@.len()
            + st.seq_data@.len() + st.seg_data@.len() + 18 * st.links@.len() + 24
            * st.paths@.len()) as usize,
        off_overlaps: (44 + 8 * st.headers@.len() + st.header_data@.len() + 24 * st.segs@.len()
            + st.seq_data@.len() + st.seg_data@.len() + 18 * st.links@.len() + 24
            * st.paths@.len() + 5 * st.steps@.len()) as usize,
        off_od: (44 + 8 * st.headers@.len() + st.header_data@.len() + 24 * st.segs@.len()
            + st.seq_data@.len() + st.seg_data@.len() + 18 * st.links@.len() + 24
            * st.paths@.len() + 5 * st.steps@.len() + 8 * st.overlaps@.len()) as usize,
        off_lo: (44 + 8 * st.headers@.len() + st.header_data@.len() + 24 * st.segs@.len()
            + st.seq_data@.len() + st.seg_data@.len() + 18 * st.links@.len() + 24
            * st.paths@.len() + 5 * st.steps@.len() + 8 * st.overlaps@.len()
            + st.overlap_data@.len()) as usize,
    }
}

} // verus!
