//! The ELF object model: an immutable byte buffer parsed into a header,
//! segments and dynamic-section entries.
//!
//! Every view into the file is an explicit (start, end) index pair into the
//! buffer the caller owns; nothing is borrowed and nothing is reinterpreted.

use vstd::prelude::*;
use vstd::slice::slice_subrange;
use core::ops::Range;
use crate::error::PixieError;
use crate::format::header::{ObjectHeader, spec_header, spec_magic_ok};
use crate::format::program_header::{ProgramHeader, SegmentType, spec_program_header};
use crate::format::dynamic::{DynamicTag, DynamicTagType, spec_dynamic_tag};

verus! {

/// A program header paired with the byte range of the owning buffer that
/// its file range covers.
#[derive(Clone, Copy, Debug)]
pub struct Segment {
    pub header: ProgramHeader,
    pub start: usize,
    pub end: usize,
}

impl Segment {
    /// The segment's indices agree with its header and lie inside a buffer
    /// of `buf_len` bytes, and its memory range does not wrap the address
    /// space.
    pub open spec fn wf(self, buf_len: nat) -> bool {
        &&& self.start == self.header.offset
        &&& self.end == self.header.offset + self.header.file_size
        &&& self.end <= buf_len
        &&& self.header.vaddr + self.header.mem_size <= u64::MAX
    }

    /// The segment's type.
    pub fn typ(&self) -> (r: SegmentType)
        ensures
            r == self.header.typ,
    {
        self.header.typ
    }

    /// The segment's program header.
    pub fn header(&self) -> (r: &ProgramHeader)
        ensures
            r == self.header,
    {
        &self.header
    }

    /// The bytes of `buf` this segment covers.
    pub fn slice<'a>(&self, buf: &'a [u8]) -> (r: &'a [u8])
        requires
            self.wf(buf@.len()),
        ensures
            r@ == buf@.subrange(self.start as int, self.end as int),
    {
        slice_subrange(buf, self.start, self.end)
    }
}

/// The ordered collection of an object's segments.
#[derive(Debug)]
pub struct Segments {
    pub segments: Vec<Segment>,
}

/// True when segment `s` is a LOAD segment.
pub open spec fn is_load(s: Segment) -> bool {
    s.header.typ is Load
}

/// True when at least one LOAD segment stands in `segs`.
pub open spec fn spec_has_load(segs: Seq<Segment>) -> bool
    decreases segs.len()
{
    if segs.len() == 0 {
        false
    } else {
        is_load(segs.last()) || spec_has_load(segs.drop_last())
    }
}

/// The smallest LOAD-segment start address in `segs`; zero when none.
pub open spec fn spec_hull_start(segs: Seq<Segment>) -> u64
    decreases segs.len()
{
    if segs.len() == 0 {
        0
    } else {
        let rest = segs.drop_last();
        let v = segs.last().header.vaddr;
        if !is_load(segs.last()) {
            spec_hull_start(rest)
        } else if !spec_has_load(rest) {
            v
        } else if v < spec_hull_start(rest) {
            v
        } else {
            spec_hull_start(rest)
        }
    }
}

/// The largest LOAD-segment end address in `segs`; zero when none.
pub open spec fn spec_hull_end(segs: Seq<Segment>) -> int
    decreases segs.len()
{
    if segs.len() == 0 {
        0
    } else {
        let rest = segs.drop_last();
        let e = segs.last().header.vaddr + segs.last().header.mem_size;
        if !is_load(segs.last()) {
            spec_hull_end(rest)
        } else if !spec_has_load(rest) {
            e
        } else if e > spec_hull_end(rest) {
            e
        } else {
            spec_hull_end(rest)
        }
    }
}


/// The LOAD segments of `segs`, in order.
pub open spec fn spec_filter_loads(segs: Seq<Segment>) -> Seq<Segment>
    decreases segs.len()
{
    if segs.len() == 0 {
        Seq::empty()
    } else if is_load(segs.last()) {
        spec_filter_loads(segs.drop_last()).push(segs.last())
    } else {
        spec_filter_loads(segs.drop_last())
    }
}

/// Every element of the LOAD filter is an element of the original list.
pub proof fn lemma_filter_loads_member(segs: Seq<Segment>, k: int)
    requires
        0 <= k < spec_filter_loads(segs).len(),
    ensures
        is_load(spec_filter_loads(segs)[k]),
        exists|w: int| 0 <= w < segs.len() && segs[w] == spec_filter_loads(segs)[k],
    decreases segs.len(),
{
    if segs.len() > 0 {
        if is_load(segs.last()) && k == spec_filter_loads(segs).len() - 1 {
            assert(segs[segs.len() - 1] == spec_filter_loads(segs)[k]);
        } else {
            lemma_filter_loads_member(segs.drop_last(), k);
            let w0 = choose|w: int| 0 <= w < segs.drop_last().len()
                && segs.drop_last()[w] == spec_filter_loads(segs.drop_last())[k];
            assert(segs[w0] == spec_filter_loads(segs)[k]);
        }
    }
}

impl Segments {
    /// Every segment lies inside a buffer of `buf_len` bytes.
    pub open spec fn wf(self, buf_len: nat) -> bool {
        forall|i: int| 0 <= i < self.segments@.len() ==> (#[trigger] self.segments@[i]).wf(buf_len)
    }

    /// All segments, in file order.
    pub fn all(&self) -> (r: &Vec<Segment>)
        ensures
            r == self.segments,
    {
        &self.segments
    }

    /// All the segments of a given type, in order.
    pub fn of_type(&self, typ: SegmentType) -> (r: Vec<Segment>)
        ensures
            r@ == self.segments@.filter(|s: Segment| s.header.typ == typ),
    {
        let mut r: Vec<Segment> = Vec::new();
        let n = self.segments.len();
        let mut i: usize = 0;
        proof {
            assert(self.segments@.take(0).filter(|s: Segment| s.header.typ == typ) =~= Seq::<Segment>::empty());
        }
        while i < n
            invariant
                0 <= i <= n,
                n == self.segments@.len(),
                r@ == self.segments@.take(i as int).filter(|s: Segment| s.header.typ == typ),
            decreases n - i,
        {
            let ghost pre = self.segments@.take(i as int);
            let seg = &self.segments[i];
            if seg.header.typ == typ {
                r.push(seg.clone());
            }
            proof {
                let f = |s: Segment| s.header.typ == typ;
                reveal(Seq::filter);
                assert(self.segments@.take(i + 1).drop_last() =~= pre);
                assert(self.segments@.take(i + 1).last() == self.segments@[i as int]);
                assert(r@ == self.segments@.take(i + 1).filter(f));
            }
            i += 1;
        }
        proof {
            assert(self.segments@.take(n as int) =~= self.segments@);
        }
        r
    }

    /// All the LOAD segments, in order.
    pub fn load_segments(&self) -> (r: Vec<Segment>)
        ensures
            r@ == spec_filter_loads(self.segments@),
    {
        let mut r: Vec<Segment> = Vec::new();
        let n = self.segments.len();
        let mut i: usize = 0;
        proof {
            assert(spec_filter_loads(self.segments@.take(0)) =~= Seq::<Segment>::empty());
        }
        while i < n
            invariant
                0 <= i <= n,
                n == self.segments@.len(),
                r@ == spec_filter_loads(self.segments@.take(i as int)),
            decreases n - i,
        {
            let ghost pre = self.segments@.take(i as int);
            let seg = &self.segments[i];
            if seg.header.typ == SegmentType::Load {
                r.push(seg.clone());
            }
            proof {
                assert(self.segments@.take(i + 1).drop_last() =~= pre);
                assert(self.segments@.take(i + 1).last() == self.segments@[i as int]);
                assert(r@ == spec_filter_loads(self.segments@.take(i + 1)));
            }
            i += 1;
        }
        proof {
            assert(self.segments@.take(n as int) =~= self.segments@);
        }
        r
    }

    /// The first segment of a given type, or an error when none exists.
    pub fn find(&self, typ: SegmentType) -> (r: Result<&Segment, PixieError>)
        ensures
            r is Ok <==> (exists|i: int| 0 <= i < self.segments@.len()
                && (#[trigger] self.segments@[i]).header.typ == typ),
            r is Ok ==> (exists|i: int| 0 <= i < self.segments@.len()
                && *r->Ok_0 == self.segments@[i]
                && (#[trigger] self.segments@[i]).header.typ == typ
                && (forall|j: int| 0 <= j < i ==> (#[trigger] self.segments@[j]).header.typ != typ)),
            r is Err ==> r->Err_0 == PixieError::SegmentNotFound(typ),
    {
        let n = self.segments.len();
        let mut i: usize = 0;
        while i < n
            invariant
                0 <= i <= n,
                n == self.segments@.len(),
                forall|j: int| 0 <= j < i ==> (#[trigger] self.segments@[j]).header.typ != typ,
            decreases n - i,
        {
            let seg = &self.segments[i];
            if seg.header.typ == typ {
                return Ok(seg);
            }
            i += 1;
        }
        Err(PixieError::SegmentNotFound(typ))
    }

    /// The smallest contiguous virtual-address range covering every LOAD
    /// segment's memory range: componentwise minimum of starts and maximum
    /// of ends. An error when no LOAD segment exists.
    pub fn load_convex_hull(&self) -> (r: Result<Range<u64>, PixieError>)
        requires
            forall|i: int| 0 <= i < self.segments@.len()
                ==> (#[trigger] self.segments@[i]).header.vaddr
                    + self.segments@[i].header.mem_size <= u64::MAX,
        ensures
            r is Ok <==> spec_has_load(self.segments@),
            r is Ok <==> (exists|i: int| 0 <= i < self.segments@.len()
                && is_load(#[trigger] self.segments@[i])),
            r is Ok ==> r->Ok_0.start == spec_hull_start(self.segments@)
                && r->Ok_0.end == spec_hull_end(self.segments@),
            r is Ok ==> {
                let h = r->Ok_0;
                &&& forall|i: int| 0 <= i < self.segments@.len()
                    && is_load(#[trigger] self.segments@[i])
                    ==> h.start <= self.segments@[i].header.vaddr
                        && self.segments@[i].header.vaddr
                            + self.segments@[i].header.mem_size <= h.end
                &&& exists|i: int| 0 <= i < self.segments@.len()
                    && is_load(#[trigger] self.segments@[i])
                    && h.start == self.segments@[i].header.vaddr
                &&& exists|i: int| 0 <= i < self.segments@.len()
                    && is_load(#[trigger] self.segments@[i])
                    && h.end == self.segments@[i].header.vaddr
                        + self.segments@[i].header.mem_size
            },
            r is Err ==> r->Err_0 == PixieError::NoSegmentsFound,
    {
        let n = self.segments.len();
        let mut found = false;
        let mut start: u64 = 0;
        let mut end: u64 = 0;
        let mut i: usize = 0;
        proof {
            assert(self.segments@.take(0int) =~= Seq::<Segment>::empty());
        }
        while i < n
            invariant
                0 <= i <= n,
                n == self.segments@.len(),
                forall|k: int| 0 <= k < n
                    ==> (#[trigger] self.segments@[k]).header.vaddr
                        + self.segments@[k].header.mem_size <= u64::MAX,
                found <==> (exists|k: int| 0 <= k < i && is_load(#[trigger] self.segments@[k])),
                found == spec_has_load(self.segments@.take(i as int)),
                found ==> start == spec_hull_start(self.segments@.take(i as int)),
                found ==> end == spec_hull_end(self.segments@.take(i as int)),
                found ==> forall|k: int| 0 <= k < i && is_load(#[trigger] self.segments@[k])
                    ==> start <= self.segments@[k].header.vaddr
                        && self.segments@[k].header.vaddr
                            + self.segments@[k].header.mem_size <= end,
                found ==> (exists|k: int| 0 <= k < i && is_load(#[trigger] self.segments@[k])
                    && start == self.segments@[k].header.vaddr),
                found ==> (exists|k: int| 0 <= k < i && is_load(#[trigger] self.segments@[k])
                    && end == self.segments@[k].header.vaddr
                        + self.segments@[k].header.mem_size),
            decreases n - i,
        {
            let seg = &self.segments[i];
            if seg.header.typ == SegmentType::Load {
                let s = seg.header.vaddr;
                let e = seg.header.vaddr + seg.header.mem_size;
                if !found {
                    found = true;
                    start = s;
                    end = e;
                } else {
                    if s < start {
                        start = s;
                    }
                    if e > end {
                        end = e;
                    }
                }
            }
            proof {
                assert(self.segments@.take(i + 1).drop_last() =~= self.segments@.take(i as int));
                assert(self.segments@.take(i + 1).last() == self.segments@[i as int]);
            }
            i += 1;
        }
        proof {
            assert(self.segments@.take(n as int) =~= self.segments@);
        }
        if found {
            Ok(Range { start, end })
        } else {
            Err(PixieError::NoSegmentsFound)
        }
    }
}

/// True when the first 64 bytes of `s` parse as an object header whose
/// program-header table, and every program header in it, lies inside the
/// buffer and inside the 64-bit address space.
pub open spec fn spec_object_ok(s: Seq<u8>) -> bool {
    &&& s.len() >= 64
    &&& spec_magic_ok(s)
    &&& spec_header(s).ph_offset + 56 * spec_header(s).ph_count <= s.len()
    &&& forall|i: int| 0 <= i < spec_header(s).ph_count
        ==> spec_ph_wf(#[trigger] spec_program_header(s, spec_header(s).ph_offset + 56 * i), s.len())
}

/// Program header `ph` describes a file range inside a buffer of `buf_len`
/// bytes and a memory range that does not wrap.
pub open spec fn spec_ph_wf(ph: ProgramHeader, buf_len: nat) -> bool {
    &&& ph.offset + ph.file_size <= buf_len
    &&& ph.vaddr + ph.mem_size <= u64::MAX
}

/// The segment list a well-formed buffer parses to: one segment per
/// program header, each covering its own file range.
pub open spec fn spec_segs(s: Seq<u8>) -> Seq<Segment> {
    Seq::new(spec_header(s).ph_count as nat, |i: int|
        {
            let ph = spec_program_header(s, spec_header(s).ph_offset + 56 * i);
            Segment {
                header: ph,
                start: ph.offset as usize,
                end: (ph.offset + ph.file_size) as usize,
            }
        })
}

/// An ELF object parsed from a byte buffer: its header and its segments.
/// The buffer itself stays with the caller and is passed to every
/// operation that reads segment contents.
#[derive(Debug)]
pub struct Object {
    pub header: ObjectHeader,
    pub segments: Segments,
}

impl Object {
    /// The object agrees with the buffer `s` it was parsed from.
    pub open spec fn wf(self, s: Seq<u8>) -> bool {
        &&& spec_object_ok(s)
        &&& self.header == spec_header(s)
        &&& self.segments.segments@.len() == self.header.ph_count
        &&& forall|i: int| 0 <= i < self.header.ph_count
            ==> (#[trigger] self.segments.segments@[i]).header
                == spec_program_header(s, self.header.ph_offset + 56 * i)
        &&& self.segments.wf(s.len())
    }

    /// Read an ELF object from a byte buffer.
    ///
    /// Succeeds exactly when the buffer starts with a well-formed header
    /// and every program header lies inside the buffer and the address
    /// space; the parsed object then agrees with the buffer field by field.
    ///
    /// A program header whose memory range wraps the 64-bit address space
    /// (`vaddr + mem_size` overflowing) is rejected here, at parse time,
    /// so that every hull and mapping computation downstream is plain
    /// arithmetic; such a segment could never be mapped anyway.
    pub fn new(buf: &[u8]) -> (r: Result<Object, PixieError>)
        ensures
            r is Ok <==> spec_object_ok(buf@),
            r is Ok ==> r->Ok_0.wf(buf@),
            r is Ok ==> r->Ok_0.segments.segments@ == spec_segs(buf@),
            r is Err ==> (r->Err_0 == PixieError::BadObjectHeader
                || r->Err_0 == PixieError::ProgramHeaderOutOfBounds),
            r is Err && r->Err_0 == PixieError::BadObjectHeader
                ==> !(buf@.len() >= 64 && spec_magic_ok(buf@)),
    {
        let header = match ObjectHeader::parse(buf) {
            Ok(h) => h,
            Err(e) => {
                return Err(e);
            },
        };
        let buf_len = buf.len();
        let ph_count = header.ph_count as usize;
        let ph_offset = header.ph_offset;

        // The whole program-header table must lie inside the buffer.
        if ph_offset > buf_len as u64 || (56 * ph_count) as u64 > buf_len as u64 - ph_offset {
            return Err(PixieError::ProgramHeaderOutOfBounds);
        }
        let ph_start = ph_offset as usize;

        let mut segments: Vec<Segment> = Vec::new();
        let mut i: usize = 0;
        while i < ph_count
            invariant
                0 <= i <= ph_count,
                buf_len == buf@.len(),
                header == spec_header(buf@),
                ph_count == header.ph_count,
                ph_start == header.ph_offset,
                ph_start + 56 * ph_count <= buf_len,
                segments@.len() == i,
                forall|k: int| 0 <= k < i
                    ==> (#[trigger] segments@[k]).header
                        == spec_program_header(buf@, ph_start + 56 * k),
                forall|k: int| 0 <= k < i ==> (#[trigger] segments@[k]).wf(buf@.len()),
            decreases ph_count - i,
        {
            let ph = match ProgramHeader::parse_at(buf, ph_start + 56 * i) {
                Ok(ph) => ph,
                Err(e) => {
                    return Err(e);
                },
            };
            // The segment's file range must lie inside the buffer, and its
            // memory range inside the address space.
            if ph.offset > buf_len as u64 || ph.file_size > buf_len as u64 - ph.offset
                || ph.mem_size > u64::MAX - ph.vaddr {
                proof {
                    assert(!spec_ph_wf(
                        spec_program_header(buf@, spec_header(buf@).ph_offset + 56 * (i as int)),
                        buf@.len()));
                }
                return Err(PixieError::ProgramHeaderOutOfBounds);
            }
            let start = ph.offset as usize;
            let end = (ph.offset + ph.file_size) as usize;
            segments.push(Segment { header: ph, start, end });
            i += 1;
        }
        proof {
            assert forall|k: int| 0 <= k < spec_header(buf@).ph_count
                implies spec_ph_wf(
                    #[trigger] spec_program_header(buf@, spec_header(buf@).ph_offset + 56 * k),
                    buf@.len()) by {
                assert(segments@[k].wf(buf@.len()));
                assert(segments@[k].header == spec_program_header(buf@, ph_start + 56 * k));
            }
            assert(spec_object_ok(buf@));
            assert forall|k: int| 0 <= k < segments@.len()
                implies segments@[k] == spec_segs(buf@)[k] by {
                assert(segments@[k].header == spec_program_header(buf@, ph_start + 56 * k));
                assert(segments@[k].wf(buf@.len()));
            }
            assert(segments@ =~= spec_segs(buf@));
        }
        Ok(Object { header, segments: Segments { segments } })
    }

    /// The object's header.
    pub fn header(&self) -> (r: &ObjectHeader)
        ensures
            r == self.header,
    {
        &self.header
    }

    /// The object's segments.
    pub fn segments(&self) -> (r: &Segments)
        ensures
            r == self.segments,
    {
        &self.segments
    }
}

/// The number of dynamic records stored back to back at `off` before the
/// first Null-tagged one, when a Null terminator exists inside `[off, end)`;
/// nothing otherwise.
pub open spec fn spec_dyn_count(s: Seq<u8>, off: int, end: int) -> Option<int>
    decreases end - off when off <= end
{
    if off + 16 > end {
        None
    } else if spec_dynamic_tag(s, off).typ is Null {
        Some(0)
    } else {
        match spec_dyn_count(s, off + 16, end) {
            Some(k) => Some(k + 1),
            None => None,
        }
    }
}

/// One entry of the `DYNAMIC` segment.
#[derive(Clone, Copy, Debug, PartialEq, Eq, Structural)]
pub struct DynamicEntry {
    pub tag: DynamicTag,
}

impl DynamicEntry {
    /// The entry's tag type.
    pub fn typ(&self) -> (r: DynamicTagType)
        ensures
            r == self.tag.typ,
    {
        self.tag.typ
    }

    /// The entry's value as a `u64`.
    pub fn as_u64(&self) -> (r: u64)
        ensures
            r == self.tag.addr,
    {
        self.tag.addr
    }

    /// The entry's value as a `usize`, used as an offset into the file.
    pub fn as_usize(&self) -> (r: usize)
        requires
            self.tag.addr <= usize::MAX,
        ensures
            r == self.tag.addr,
    {
        self.tag.addr as usize
    }
}

/// The entries of the `DYNAMIC` segment, in order, up to the Null
/// terminator.
#[derive(Debug)]
pub struct DynamicEntries {
    pub items: Vec<DynamicEntry>,
}

impl DynamicEntries {
    /// All entries.
    pub fn all(&self) -> (r: &Vec<DynamicEntry>)
        ensures
            r == self.items,
    {
        &self.items
    }

    /// The first entry of a given type, or an error when none exists.
    pub fn find(&self, typ: DynamicTagType) -> (r: Result<DynamicEntry, PixieError>)
        ensures
            r is Ok <==> (exists|i: int| 0 <= i < self.items@.len()
                && (#[trigger] self.items@[i]).tag.typ == typ),
            r is Ok ==> (exists|i: int| 0 <= i < self.items@.len()
                && r->Ok_0 == self.items@[i]
                && (#[trigger] self.items@[i]).tag.typ == typ
                && (forall|j: int| 0 <= j < i ==> (#[trigger] self.items@[j]).tag.typ != typ)),
            r is Err ==> r->Err_0 == PixieError::DynamicEntryNotFound(typ),
    {
        let n = self.items.len();
        let mut i: usize = 0;
        while i < n
            invariant
                0 <= i <= n,
                n == self.items@.len(),
                forall|j: int| 0 <= j < i ==> (#[trigger] self.items@[j]).tag.typ != typ,
            decreases n - i,
        {
            let e = self.items[i];
            if e.tag.typ == typ {
                return Ok(e);
            }
            i += 1;
        }
        Err(PixieError::DynamicEntryNotFound(typ))
    }
}

impl Object {
    /// Read all dynamic entries: the records of the first `DYNAMIC`
    /// segment up to its Null terminator.
    ///
    /// Fails when no `DYNAMIC` segment exists, or when no Null terminator
    /// stands inside it.
    #[verifier::rlimit(60)]
    pub fn read_dynamic_entries(&self, buf: &[u8]) -> (r: Result<DynamicEntries, PixieError>)
        requires
            self.wf(buf@),
        ensures
            ({
                let segs = self.segments.segments@;
                match r {
                    Ok(entries) => {
                        exists|d: int|
                            {
                                &&& 0 <= d < segs.len()
                                &&& (#[trigger] segs[d]).header.typ is Dynamic
                                &&& forall|j: int| 0 <= j < d
                                    ==> !((#[trigger] segs[j]).header.typ is Dynamic)
                                &&& spec_dyn_count(buf@, segs[d].start as int, segs[d].end as int)
                                    == Some(entries.items@.len() as int)
                                &&& forall|i: int| 0 <= i < entries.items@.len()
                                    ==> (#[trigger] entries.items@[i]).tag
                                        == spec_dynamic_tag(buf@, segs[d].start + 16 * i)
                            }
                    },
                    Err(e) => {
                        ||| (e == PixieError::SegmentNotFound(SegmentType::Dynamic)
                            && (forall|j: int| 0 <= j < segs.len()
                                ==> !((#[trigger] segs[j]).header.typ is Dynamic)))
                        ||| (e == PixieError::DynamicOutOfBounds
                            && (exists|d: int| 0 <= d < segs.len()
                                && (#[trigger] segs[d]).header.typ is Dynamic
                                && (forall|j: int| 0 <= j < d
                                    ==> !((#[trigger] segs[j]).header.typ is Dynamic))
                                && spec_dyn_count(buf@, segs[d].start as int, segs[d].end as int) is None))
                    },
                }
            }),
    {
        let dyn_seg = match self.segments.find(SegmentType::Dynamic) {
            Ok(s) => s,
            Err(e) => {
                return Err(e);
            },
        };
        let ghost segs = self.segments.segments@;
        let ghost d = choose|d: int| 0 <= d < segs.len()
            && *dyn_seg == segs[d]
            && (#[trigger] segs[d]).header.typ == SegmentType::Dynamic
            && (forall|j: int| 0 <= j < d
                ==> (#[trigger] segs[j]).header.typ != SegmentType::Dynamic);
        proof {
            assert(0 <= d < segs.len() && *dyn_seg == segs[d]
                && segs[d].header.typ == SegmentType::Dynamic
                && (forall|j: int| 0 <= j < d
                    ==> (#[trigger] segs[j]).header.typ != SegmentType::Dynamic));
        }
        let dstart = dyn_seg.start;
        let dend = dyn_seg.end;
        let mut items: Vec<DynamicEntry> = Vec::new();
        let mut off = dstart;
        while dend - off >= 16
            invariant
                segs == self.segments.segments@,
                0 <= d < segs.len(),
                segs[d].header.typ is Dynamic,
                forall|j: int| 0 <= j < d
                    ==> (#[trigger] segs[j]).header.typ != SegmentType::Dynamic,
                dstart == segs[d].start,
                dend == segs[d].end,
                dstart <= off <= dend <= buf@.len(),
                off == dstart + 16 * items@.len(),
                forall|i: int| 0 <= i < items@.len()
                    ==> (#[trigger] items@[i]).tag == spec_dynamic_tag(buf@, dstart + 16 * i)
                        && !((#[trigger] items@[i]).tag.typ is Null),
            decreases dend - off,
        {
            let tag = match DynamicTag::parse_at(buf, off) {
                Ok(t) => t,
                Err(e) => {
                    return Err(e);
                },
            };
            if tag.typ == DynamicTagType::Null {
                proof {
                    assert forall|i: int| 0 <= i < items@.len()
                        implies !((#[trigger] spec_dynamic_tag(buf@, dstart + 16 * i)).typ
                            is Null) by {
                        assert(items@[i].tag == spec_dynamic_tag(buf@, dstart + 16 * i));
                    }
                    assert(spec_dynamic_tag(buf@, dstart + 16 * (items@.len() as int)).typ
                        is Null);
                    lemma_dyn_count_terminated(buf@, dstart as int, dend as int,
                        items@.len() as int);
                }
                return Ok(DynamicEntries { items });
            }
            items.push(DynamicEntry { tag });
            off += 16;
        }
        proof {
            assert forall|i: int| 0 <= i < items@.len()
                implies !((#[trigger] spec_dynamic_tag(buf@, dstart + 16 * i)).typ is Null) by {
                assert(items@[i].tag == spec_dynamic_tag(buf@, dstart + 16 * i));
            }
            lemma_dyn_count_missing(buf@, dstart as int, dend as int, items@.len() as int);
        }
        Err(PixieError::DynamicOutOfBounds)
    }
}

/// When `k` non-Null records stand at `start` and a Null record follows
/// them, the dynamic record count is exactly `k`.
proof fn lemma_dyn_count_terminated(s: Seq<u8>, start: int, end: int, k: int)
    requires
        0 <= k,
        start + 16 * k + 16 <= end,
        forall|i: int| 0 <= i < k ==> !((#[trigger] spec_dynamic_tag(s, start + 16 * i)).typ is Null),
        spec_dynamic_tag(s, start + 16 * k).typ is Null,
    ensures
        spec_dyn_count(s, start, end) == Some(k),
    decreases k,
{
    if k == 0 {
        assert(spec_dyn_count(s, start, end) == Some(0int));
    } else {
        assert(!(spec_dynamic_tag(s, start + 16 * 0).typ is Null));
        assert(!(spec_dynamic_tag(s, start).typ is Null));
        assert forall|i: int| 0 <= i < k - 1
            implies !((#[trigger] spec_dynamic_tag(s, (start + 16) + 16 * i)).typ is Null) by {
            assert(spec_dynamic_tag(s, start + 16 * (i + 1)).typ
                == spec_dynamic_tag(s, (start + 16) + 16 * i).typ);
        }
        assert(spec_dynamic_tag(s, (start + 16) + 16 * (k - 1)).typ is Null);
        lemma_dyn_count_terminated(s, start + 16, end, k - 1);
    }
}

/// When `k` non-Null records fill the window at `start` and no further
/// record fits before `end`, no Null terminator exists and the count is
/// nothing.
proof fn lemma_dyn_count_missing(s: Seq<u8>, start: int, end: int, k: int)
    requires
        0 <= k,
        start + 16 * k <= end,
        end < start + 16 * k + 16,
        forall|i: int| 0 <= i < k ==> !((#[trigger] spec_dynamic_tag(s, start + 16 * i)).typ is Null),
    ensures
        spec_dyn_count(s, start, end) is None,
    decreases k,
{
    if k == 0 {
    } else {
        assert(!(spec_dynamic_tag(s, start + 16 * 0).typ is Null));
        assert(!(spec_dynamic_tag(s, start).typ is Null));
        assert forall|i: int| 0 <= i < k - 1
            implies !((#[trigger] spec_dynamic_tag(s, (start + 16) + 16 * i)).typ is Null) by {
            assert(spec_dynamic_tag(s, start + 16 * (i + 1)).typ
                == spec_dynamic_tag(s, (start + 16) + 16 * i).typ);
        }
        lemma_dyn_count_missing(s, start + 16, end, k - 1);
    }
}

} // verus!
