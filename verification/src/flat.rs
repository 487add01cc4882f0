//! The flat graph representation: fixed-layout records, the bundle of
//! pools that holds them, and the heap-backed builder used during
//! construction.

use vstd::prelude::*;
use crate::pool::{Id, Span, Pool, Store, span_in};

verus! {

/// Which strand of a segment a handle reads.
#[derive(Clone, Copy, PartialEq, Eq, Structural, Debug)]
pub enum Orientation {
    Forward,
    Backward,
}

/// The kind of one input line, recorded in original order so the
/// interleaving of the source file can be reproduced.
#[derive(Clone, Copy, PartialEq, Eq, Structural, Debug)]
pub enum LineKind {
    Header,
    Segment,
    Link,
    Path,
}

/// An oriented reference to a segment.
#[derive(Clone, Copy, PartialEq, Eq, Structural, Debug)]
pub struct Handle {
    pub segment: Id,
    pub orient: Orientation,
}

impl Handle {
    pub fn new(segment: Id, orient: Orientation) -> (r: Handle)
        ensures
            r == (Handle { segment, orient }),
    {
        Handle { segment, orient }
    }
}

/// A graph node: an external integer name, its sequence bytes, and an
/// optional verbatim tag blob, both held by span in shared byte pools.
#[derive(Clone, Copy, PartialEq, Eq, Structural, Debug)]
pub struct Segment {
    pub name: usize,
    pub seq: Span,
    pub data: Span,
}

/// An edge between two oriented segment ends, with its overlap
/// descriptor held by span in the overlap byte pool.
#[derive(Clone, Copy, PartialEq, Eq, Structural, Debug)]
pub struct Link {
    pub from: Handle,
    pub to: Handle,
    pub overlap: Span,
}

/// An ordered walk: a span of steps in the shared handle pool and a
/// parallel span of overlap descriptors.
#[derive(Clone, Copy, PartialEq, Eq, Structural, Debug)]
pub struct Path {
    pub name: usize,
    pub steps: Span,
    pub overlaps: Span,
}

/// Whether a handle points at one of `n` segments.
pub open spec fn handle_in(h: Handle, n: nat) -> bool {
    h.segment < n
}

/// The byte sequences of a list of byte vectors, concatenated.
pub open spec fn flat_bytes(s: Seq<Seq<u8>>) -> Seq<u8>
    decreases s.len(),
{
    if s.len() == 0 {
        Seq::empty()
    } else {
        flat_bytes(s.drop_last()) + s.last()
    }
}

/// The growable bundle of pools a graph is built into.
///
/// Once construction ends the bundle is read only; every accessor is a
/// pure read, so unlimited concurrent readers are safe.
#[derive(Debug)]
pub struct FlatGFAStore {
    pub header_data: Vec<u8>,
    pub headers: Vec<Span>,
    pub segs: Vec<Segment>,
    pub seq_data: Vec<u8>,
    pub seg_data: Vec<u8>,
    pub links: Vec<Link>,
    pub paths: Vec<Path>,
    pub steps: Vec<Handle>,
    pub overlaps: Vec<Span>,
    pub overlap_data: Vec<u8>,
    pub line_order: Vec<LineKind>,
}

impl FlatGFAStore {
    /// Every span stored in any record stays inside its target pool, and
    /// every stored handle points at an existing segment.
    pub open spec fn wf(&self) -> bool {
        &&& forall|i: int|
            0 <= i < self.headers@.len() ==> span_in(
                #[trigger] self.headers@[i],
                self.header_data@.len(),
            )
        &&& forall|i: int|
            0 <= i < self.segs@.len() ==> span_in(
                (#[trigger] self.segs@[i]).seq,
                self.seq_data@.len(),
            ) && span_in(self.segs@[i].data, self.seg_data@.len())
        &&& forall|i: int|
            0 <= i < self.links@.len() ==> handle_in(
                (#[trigger] self.links@[i]).from,
                self.segs@.len(),
            ) && handle_in(self.links@[i].to, self.segs@.len()) && span_in(
                self.links@[i].overlap,
                self.overlap_data@.len(),
            )
        &&& forall|i: int|
            0 <= i < self.steps@.len() ==> handle_in(#[trigger] self.steps@[i], self.segs@.len())
        &&& forall|i: int|
            0 <= i < self.overlaps@.len() ==> span_in(
                #[trigger] self.overlaps@[i],
                self.overlap_data@.len(),
            )
        &&& forall|i: int|
            0 <= i < self.paths@.len() ==> span_in(
                (#[trigger] self.paths@[i]).steps,
                self.steps@.len(),
            ) && span_in(self.paths@[i].overlaps, self.overlaps@.len())
    }

    /// An empty bundle: every pool empty.
    pub fn new() -> (r: FlatGFAStore)
        ensures
            r.header_data@ == Seq::<u8>::empty(),
            r.headers@ == Seq::<Span>::empty(),
            r.segs@ == Seq::<Segment>::empty(),
            r.seq_data@ == Seq::<u8>::empty(),
            r.seg_data@ == Seq::<u8>::empty(),
            r.links@ == Seq::<Link>::empty(),
            r.paths@ == Seq::<Path>::empty(),
            r.steps@ == Seq::<Handle>::empty(),
            r.overlaps@ == Seq::<Span>::empty(),
            r.overlap_data@ == Seq::<u8>::empty(),
            r.line_order@ == Seq::<LineKind>::empty(),
            r.wf(),
    {
        FlatGFAStore {
            header_data: Vec::new(),
            headers: Vec::new(),
            segs: Vec::new(),
            seq_data: Vec::new(),
            seg_data: Vec::new(),
            links: Vec::new(),
            paths: Vec::new(),
            steps: Vec::new(),
            overlaps: Vec::new(),
            overlap_data: Vec::new(),
            line_order: Vec::new(),
        }
    }

    /// Record the kind of the next input line in the line-order table.
    pub fn record_line(&mut self, kind: LineKind)
        requires
            old(self).line_order@.len() < u32::MAX,
        ensures
            final(self).line_order@ == old(self).line_order@.push(kind),
            final(self).header_data@ == old(self).header_data@,
            final(self).headers@ == old(self).headers@,
            final(self).segs@ == old(self).segs@,
            final(self).seq_data@ == old(self).seq_data@,
            final(self).seg_data@ == old(self).seg_data@,
            final(self).links@ == old(self).links@,
            final(self).paths@ == old(self).paths@,
            final(self).steps@ == old(self).steps@,
            final(self).overlaps@ == old(self).overlaps@,
            final(self).overlap_data@ == old(self).overlap_data@,
            old(self).wf() ==> final(self).wf(),
    {
        self.line_order.add(kind);
    }

    /// Append one header line's bytes and get the new header id.
    pub fn add_header(&mut self, data: &[u8]) -> (id: Id)
        requires
            old(self).header_data@.len() + data@.len() <= u32::MAX,
            old(self).headers@.len() < u32::MAX,
        ensures
            id == old(self).headers@.len(),
            final(self).header_data@ == old(self).header_data@ + data@,
            final(self).headers@ == old(self).headers@.push(
                Span {
                    start: old(self).header_data@.len() as Id,
                    end: (old(self).header_data@.len() + data@.len()) as Id,
                },
            ),
            final(self).segs@ == old(self).segs@,
            final(self).seq_data@ == old(self).seq_data@,
            final(self).seg_data@ == old(self).seg_data@,
            final(self).links@ == old(self).links@,
            final(self).paths@ == old(self).paths@,
            final(self).steps@ == old(self).steps@,
            final(self).overlaps@ == old(self).overlaps@,
            final(self).overlap_data@ == old(self).overlap_data@,
            final(self).line_order@ == old(self).line_order@,
            old(self).wf() ==> final(self).wf(),
    {
        let span = self.header_data.add_slice(data);
        self.headers.add(span)
    }

    /// Append one segment record, copying its sequence and tag bytes
    /// into the shared byte pools, and get the new segment id.
    pub fn add_seg(&mut self, name: usize, seq: &[u8], data: &[u8]) -> (id: Id)
        requires
            old(self).seq_data@.len() + seq@.len() <= u32::MAX,
            old(self).seg_data@.len() + data@.len() <= u32::MAX,
            old(self).segs@.len() < u32::MAX,
        ensures
            id == old(self).segs@.len(),
            final(self).seq_data@ == old(self).seq_data@ + seq@,
            final(self).seg_data@ == old(self).seg_data@ + data@,
            final(self).segs@ == old(self).segs@.push(
                Segment {
                    name,
                    seq: Span {
                        start: old(self).seq_data@.len() as Id,
                        end: (old(self).seq_data@.len() + seq@.len()) as Id,
                    },
                    data: Span {
                        start: old(self).seg_data@.len() as Id,
                        end: (old(self).seg_data@.len() + data@.len()) as Id,
                    },
                },
            ),
            final(self).header_data@ == old(self).header_data@,
            final(self).headers@ == old(self).headers@,
            final(self).links@ == old(self).links@,
            final(self).paths@ == old(self).paths@,
            final(self).steps@ == old(self).steps@,
            final(self).overlaps@ == old(self).overlaps@,
            final(self).overlap_data@ == old(self).overlap_data@,
            final(self).line_order@ == old(self).line_order@,
            old(self).wf() ==> final(self).wf(),
    {
        let seq_span = self.seq_data.add_slice(seq);
        let data_span = self.seg_data.add_slice(data);
        self.segs.add(Segment { name, seq: seq_span, data: data_span })
    }

    /// Append one link record, copying its overlap descriptor into the
    /// overlap byte pool, and get the new link id.
    pub fn add_link(&mut self, from: Handle, to: Handle, overlap: &[u8]) -> (id: Id)
        requires
            handle_in(from, old(self).segs@.len()),
            handle_in(to, old(self).segs@.len()),
            old(self).overlap_data@.len() + overlap@.len() <= u32::MAX,
            old(self).links@.len() < u32::MAX,
        ensures
            id == old(self).links@.len(),
            final(self).overlap_data@ == old(self).overlap_data@ + overlap@,
            final(self).links@ == old(self).links@.push(
                Link {
                    from,
                    to,
                    overlap: Span {
                        start: old(self).overlap_data@.len() as Id,
                        end: (old(self).overlap_data@.len() + overlap@.len()) as Id,
                    },
                },
            ),
            final(self).header_data@ == old(self).header_data@,
            final(self).headers@ == old(self).headers@,
            final(self).segs@ == old(self).segs@,
            final(self).seq_data@ == old(self).seq_data@,
            final(self).seg_data@ == old(self).seg_data@,
            final(self).paths@ == old(self).paths@,
            final(self).steps@ == old(self).steps@,
            final(self).overlaps@ == old(self).overlaps@,
            final(self).line_order@ == old(self).line_order@,
            old(self).wf() ==> final(self).wf(),
    {
        let span = self.overlap_data.add_slice(overlap);
        self.links.add(Link { from, to, overlap: span })
    }

    /// Append one path record: its steps go to the shared handle pool,
    /// each overlap descriptor's bytes to the overlap byte pool, and a
    /// span per descriptor to the overlap pool.
    pub fn add_path(&mut self, name: usize, steps: Vec<Handle>, overlaps: &Vec<Vec<u8>>) -> (id:
        Id)
        requires
            forall|i: int|
                0 <= i < steps@.len() ==> handle_in(#[trigger] steps@[i], old(self).segs@.len()),
            old(self).steps@.len() + steps@.len() <= u32::MAX,
            old(self).overlaps@.len() + overlaps@.len() <= u32::MAX,
            old(self).overlap_data@.len() + flat_bytes(overlaps@.map_values(|v: Vec<u8>| v@)).len()
                <= u32::MAX,
            old(self).paths@.len() < u32::MAX,
        ensures
            id == old(self).paths@.len(),
            final(self).steps@ == old(self).steps@ + steps@,
            final(self).overlap_data@ == old(self).overlap_data@ + flat_bytes(
                overlaps@.map_values(|v: Vec<u8>| v@),
            ),
            final(self).overlaps@.len() == old(self).overlaps@.len() + overlaps@.len(),
            forall|j: int|
                0 <= j < old(self).overlaps@.len()
                    ==> final(self).overlaps@[j] == old(self).overlaps@[j],
            forall|j: int|
                0 <= j < overlaps@.len() ==> {
                    let sp = #[trigger] final(self).overlaps@[old(self).overlaps@.len() + j];
                    span_in(sp, final(self).overlap_data@.len())
                        && final(self).overlap_data@.subrange(sp.start as int, sp.end as int)
                        == overlaps@[j]@
                },
            final(self).paths@ == old(self).paths@.push(
                Path {
                    name,
                    steps: Span {
                        start: old(self).steps@.len() as Id,
                        end: (old(self).steps@.len() + steps@.len()) as Id,
                    },
                    overlaps: Span {
                        start: old(self).overlaps@.len() as Id,
                        end: (old(self).overlaps@.len() + overlaps@.len()) as Id,
                    },
                },
            ),
            final(self).header_data@ == old(self).header_data@,
            final(self).headers@ == old(self).headers@,
            final(self).segs@ == old(self).segs@,
            final(self).seq_data@ == old(self).seq_data@,
            final(self).seg_data@ == old(self).seg_data@,
            final(self).links@ == old(self).links@,
            final(self).line_order@ == old(self).line_order@,
            old(self).wf() ==> final(self).wf(),
    {
        let ghost prior = *self;
        let step_span = self.steps.add_iter(steps);
        let ostart = self.overlaps.next_id();
        let mut i: usize = 0;
        let ghost flat_all = flat_bytes(overlaps@.map_values(|v: Vec<u8>| v@));
        while i < overlaps.len()
            invariant
                0 <= i <= overlaps@.len(),
                prior.overlap_data@.len() + flat_all.len() <= u32::MAX,
                flat_all == flat_bytes(overlaps@.map_values(|v: Vec<u8>| v@)),
                self.overlap_data@ == prior.overlap_data@ + flat_bytes(
                    overlaps@.map_values(|v: Vec<u8>| v@).take(i as int),
                ),
                flat_bytes(overlaps@.map_values(|v: Vec<u8>| v@).take(i as int)).len()
                    <= flat_all.len(),
                self.overlaps@.len() == prior.overlaps@.len() + i,
                forall|j: int|
                    0 <= j < prior.overlaps@.len() ==> self.overlaps@[j] == prior.overlaps@[j],
                forall|j: int|
                    0 <= j < i ==> {
                        let sp = #[trigger] self.overlaps@[prior.overlaps@.len() + j];
                        span_in(sp, self.overlap_data@.len()) && self.overlap_data@.subrange(
                            sp.start as int,
                            sp.end as int,
                        ) == overlaps@[j]@
                    },
                self.steps@ == prior.steps@ + steps@,
                self.header_data@ == prior.header_data@,
                self.headers@ == prior.headers@,
                self.segs@ == prior.segs@,
                self.seq_data@ == prior.seq_data@,
                self.seg_data@ == prior.seg_data@,
                self.links@ == prior.links@,
                self.paths@ == prior.paths@,
                self.line_order@ == prior.line_order@,
                prior.overlaps@.len() + overlaps@.len() <= u32::MAX,
            decreases overlaps@.len() - i,
        {
            proof {
                lemma_flat_bytes_take(overlaps@.map_values(|v: Vec<u8>| v@), i + 1);
                assert(overlaps@.map_values(|v: Vec<u8>| v@).take(i + 1).drop_last()
                    =~= overlaps@.map_values(|v: Vec<u8>| v@).take(i as int));
                lemma_flat_bytes_len_mono(overlaps@.map_values(|v: Vec<u8>| v@), i + 1);
            }
            let sp = self.overlap_data.add_slice(overlaps[i].as_slice());
            self.overlaps.add(sp);
            proof {
                assert(self.overlap_data@ =~= prior.overlap_data@ + flat_bytes(
                    overlaps@.map_values(|v: Vec<u8>| v@).take(i + 1),
                ));
                assert(self.overlap_data@.subrange(sp.start as int, sp.end as int)
                    =~= overlaps@[i as int]@);
            }
            i = i + 1;
        }
        proof {
            assert(overlaps@.map_values(|v: Vec<u8>| v@).take(overlaps@.len() as int)
                =~= overlaps@.map_values(|v: Vec<u8>| v@));
        }
        let oend = self.overlaps.next_id();
        let p = Path { name, steps: step_span, overlaps: Span { start: ostart, end: oend } };
        let id = self.paths.add(p);
        proof {
            if prior.wf() {
                assert forall|k: int| 0 <= k < self.steps@.len() implies handle_in(
                    #[trigger] self.steps@[k],
                    self.segs@.len(),
                ) by {
                    if k < prior.steps@.len() {
                        assert(self.steps@[k] == prior.steps@[k]);
                    } else {
                        assert(self.steps@[k] == steps@[k - prior.steps@.len()]);
                    }
                }
                assert forall|k: int| 0 <= k < self.overlaps@.len() implies span_in(
                    #[trigger] self.overlaps@[k],
                    self.overlap_data@.len(),
                ) by {
                    if k < prior.overlaps@.len() {
                        assert(self.overlaps@[k] == prior.overlaps@[k]);
                        assert(prior.overlap_data@.len() <= self.overlap_data@.len());
                    } else {
                        let j = k - prior.overlaps@.len();
                        assert(span_in(
                            self.overlaps@[prior.overlaps@.len() + j],
                            self.overlap_data@.len(),
                        ));
                    }
                }
                assert forall|k: int| 0 <= k < self.paths@.len() implies span_in(
                    (#[trigger] self.paths@[k]).steps,
                    self.steps@.len(),
                ) && span_in(self.paths@[k].overlaps, self.overlaps@.len()) by {
                    if k < prior.paths@.len() {
                        assert(self.paths@[k] == prior.paths@[k]);
                    } else {
                        assert(self.paths@[k] == p);
                    }
                }
            }
        }
        id
    }
}

/// Every handle reachable from any link or any path step of a
/// well-formed store references a segment id below the segment count.
pub proof fn lemma_handles_reference_segments(st: FlatGFAStore)
    requires
        st.wf(),
    ensures
        forall|i: int|
            0 <= i < st.links@.len() ==> (#[trigger] st.links@[i]).from.segment < st.segs@.len()
                && st.links@[i].to.segment < st.segs@.len(),
        forall|i: int|
            0 <= i < st.steps@.len() ==> (#[trigger] st.steps@[i]).segment < st.segs@.len(),
{
}

/// Every span stored in any record of a well-formed store ends at or
/// before the count of the pool it points into.
pub proof fn lemma_spans_in_bounds(st: FlatGFAStore)
    requires
        st.wf(),
    ensures
        forall|i: int|
            0 <= i < st.headers@.len() ==> (#[trigger] st.headers@[i]).end
                <= st.header_data@.len(),
        forall|i: int|
            0 <= i < st.segs@.len() ==> (#[trigger] st.segs@[i]).seq.end <= st.seq_data@.len()
                && st.segs@[i].data.end <= st.seg_data@.len(),
        forall|i: int|
            0 <= i < st.links@.len() ==> (#[trigger] st.links@[i]).overlap.end
                <= st.overlap_data@.len(),
        forall|i: int|
            0 <= i < st.overlaps@.len() ==> (#[trigger] st.overlaps@[i]).end
                <= st.overlap_data@.len(),
        forall|i: int|
            0 <= i < st.paths@.len() ==> (#[trigger] st.paths@[i]).steps.end <= st.steps@.len()
                && st.paths@[i].overlaps.end <= st.overlaps@.len(),
{
}

/// Taking one more element appends exactly its bytes to the flattening.
pub proof fn lemma_flat_bytes_take(s: Seq<Seq<u8>>, i: int)
    requires
        0 < i <= s.len(),
    ensures
        flat_bytes(s.take(i)) == flat_bytes(s.take(i).drop_last()) + s[i - 1],
{
    assert(s.take(i).last() == s[i - 1]);
}

/// A prefix of the list flattens to no more bytes than the whole.
pub proof fn lemma_flat_bytes_len_mono(s: Seq<Seq<u8>>, i: int)
    requires
        0 <= i <= s.len(),
    ensures
        flat_bytes(s.take(i)).len() <= flat_bytes(s).len(),
    decreases s.len() - i,
{
    if i < s.len() {
        lemma_flat_bytes_take(s, i + 1);
        assert(s.take(i + 1).drop_last() =~= s.take(i));
        lemma_flat_bytes_len_mono(s, i + 1);
    } else {
        assert(s.take(i) =~= s);
    }
}

} // verus!
