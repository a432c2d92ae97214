//! The relocation engine: an ELF object mapped into an in-memory image
//! sized to its load convex hull, with its LOAD segments copied in and its
//! dynamic relocations applied.
//!
//! The image is an owned byte vector; the address the caller intends to
//! place it at enters as a plain value, so every address computation is
//! verified arithmetic.

use vstd::prelude::*;
use vstd::bytes::spec_u64_to_le_bytes;
use vstd::slice::slice_subrange;
use crate::error::{EncoreError, PixieError};
use crate::format::dynamic::DynamicTagType;
use crate::format::rela::{Rela, spec_rela};
use crate::format::sym::Sym;
use crate::le::{le64, store_u64};
use crate::object::{
    Object, Segment, is_load, spec_has_load, spec_hull_start, spec_hull_end,
};
use crate::syms::{Syms, spec_syms_of, dyn_has, dyn_first};

verus! {

/// The sum of `a`, `b` and `c` wrapped to 64 bits: the value a relocation
/// stores at its target.
pub open spec fn spec_rela_value(base: u64, symval: u64, addend: u64) -> u64 {
    ((base + symval + addend) % 0x1_0000_0000_0000_0000) as u64
}

/// `mem` with the eight bytes at `off` replaced by `val` stored
/// little-endian; `mem` itself when the window does not fit.
pub open spec fn spec_store64(mem: Seq<u8>, off: int, val: u64) -> Seq<u8> {
    if 0 <= off && off + 8 <= mem.len() {
        mem.subrange(0, off) + spec_u64_to_le_bytes(val) + mem.subrange(off + 8, mem.len() as int)
    } else {
        mem
    }
}

/// `mem` with the bytes `src` written at `off`; `mem` itself when the
/// window does not fit.
pub open spec fn spec_write_bytes(mem: Seq<u8>, off: int, src: Seq<u8>) -> Seq<u8> {
    if 0 <= off && off + src.len() <= mem.len() {
        mem.subrange(0, off) + src + mem.subrange(off + src.len(), mem.len() as int)
    } else {
        mem
    }
}

/// The image after copying the file bytes of the first `k` segments that
/// are LOAD segments, each at its address relative to the hull start.
pub open spec fn spec_copy_segments(
    mem: Seq<u8>,
    s: Seq<u8>,
    segs: Seq<Segment>,
    hull_start: u64,
    k: int,
) -> Seq<u8>
    decreases k,
{
    if k <= 0 {
        mem
    } else {
        let prev = spec_copy_segments(mem, s, segs, hull_start, k - 1);
        let seg = segs[k - 1];
        if is_load(seg) {
            spec_write_bytes(
                prev,
                seg.header.vaddr - hull_start,
                s.subrange(seg.start as int, seg.end as int),
            )
        } else {
            prev
        }
    }
}

/// The value relocation `r` stores: the wrapped sum of the base offset,
/// the referenced symbol's value and the addend.
pub open spec fn spec_apply_value(s: Seq<u8>, sy: Syms, base: u64, r: Rela) -> u64 {
    spec_rela_value(base, sy.spec_nth(s, r.sym as int).value, r.addend)
}

/// The image after applying the first `k` relocations of `relas`, each an
/// eight-byte store at its target address relative to the hull start.
pub open spec fn spec_apply_relas(
    mem: Seq<u8>,
    s: Seq<u8>,
    sy: Syms,
    hull_start: u64,
    base: u64,
    relas: Seq<Rela>,
    k: int,
) -> Seq<u8>
    decreases k,
{
    if k <= 0 {
        mem
    } else {
        let prev = spec_apply_relas(mem, s, sy, hull_start, base, relas, k - 1);
        let r = relas[k - 1];
        spec_store64(prev, r.offset - hull_start, spec_apply_value(s, sy, base, r))
    }
}

/// True when relocation `r` can be applied to an image of `mem_len` bytes
/// whose first byte stands for address `hull_start`: the referenced symbol
/// record lies inside the file and the eight target bytes inside the
/// image.
pub open spec fn spec_rela_ok(
    s: Seq<u8>,
    sy: Syms,
    hull_start: u64,
    mem_len: nat,
    r: Rela,
) -> bool {
    &&& sy.spec_sym_fits(s, r.sym as int)
    &&& hull_start <= r.offset
    &&& r.offset - hull_start + 8 <= mem_len
}

/// An ELF object mapped into a live image.
#[derive(Debug)]
pub struct MappedObject {
    /// The load convex hull's start address.
    pub hull_start: u64,
    /// The load convex hull's end address.
    pub hull_end: u64,
    /// For relocatable objects, the load address the caller chose; zero
    /// for non-relocatable objects, which live at their own hull start.
    pub base_offset: u64,
    /// The image: one byte for each address of the hull.
    pub mem: Vec<u8>,
}

impl MappedObject {
    /// The image covers the hull exactly.
    pub open spec fn wf(self) -> bool {
        &&& self.hull_start <= self.hull_end
        &&& self.mem@.len() == self.hull_end - self.hull_start
    }

    /// If `at` is set, map at that address, which only works for
    /// relocatable objects; a non-relocatable object is placed at its own
    /// hull start.
    ///
    /// The image is sized to the exact hull, zero-filled, and every LOAD
    /// segment's file bytes are copied to its place in it. Rounding the
    /// mapping outward to page boundaries is the OS mapping's business:
    /// the caller that places this image hands the page-aligned span to
    /// the mapping call; the image itself models only the hull's bytes.
    pub fn new(object: &Object, buf: &[u8], at: Option<u64>) -> (r: Result<MappedObject, PixieError>)
        requires
            object.wf(buf@),
        ensures
            ({
                let segs = object.segments.segments@;
                let hs = spec_hull_start(segs);
                let he = spec_hull_end(segs);
                match r {
                    Ok(m) => {
                        &&& spec_has_load(segs)
                        &&& (hs != 0 ==> at is None)
                        &&& m.hull_start == hs
                        &&& m.hull_end == he
                        &&& m.base_offset == (if hs == 0 {
                            if at is Some { at->0 } else { 0u64 }
                        } else {
                            0u64
                        })
                        &&& (at is Some ==> at->0 % 0x1000 == 0)
                        &&& (hs != 0 ==> hs % 0x1000 == 0)
                        &&& m.wf()
                        &&& m.mem@ == spec_copy_segments(
                            Seq::new((he - hs) as nat, |i: int| 0u8),
                            buf@, segs, hs, segs.len() as int)
                    },
                    Err(e) => {
                        // The checks come in a fixed order: hull first,
                        // then the relocatability rule, then alignment,
                        // then the image size.
                        if !spec_has_load(segs) {
                            e == PixieError::NoSegmentsFound
                        } else if hs != 0 && at is Some {
                            e == PixieError::CantMapNonRelocatableObjectAtFixedPosition
                        } else if hs != 0 && hs % 0x1000 != 0 {
                            e == PixieError::Encore(EncoreError::MmapMemUnaligned(hs))
                        } else if hs == 0 && at is Some && at->0 % 0x1000 != 0 {
                            e == PixieError::Encore(EncoreError::MmapMemUnaligned(at->0))
                        } else {
                            e == PixieError::Encore(EncoreError::MmapFailed)
                                && he - hs > usize::MAX
                        }
                    },
                }
            }),
            r is Ok <==> ({
                let segs = object.segments.segments@;
                let hs = spec_hull_start(segs);
                let he = spec_hull_end(segs);
                &&& spec_has_load(segs)
                &&& !(hs != 0 && at is Some)
                &&& (hs != 0 ==> hs % 0x1000 == 0)
                &&& (hs == 0 && at is Some ==> at->0 % 0x1000 == 0)
                &&& he - hs <= usize::MAX
            }),
    {
        let hull = match object.segments().load_convex_hull() {
            Ok(h) => h,
            Err(e) => {
                return Err(e);
            },
        };
        let is_relocatable = hull.start == 0;

        let map_at: Option<u64> = if !is_relocatable {
            if at.is_some() {
                return Err(PixieError::CantMapNonRelocatableObjectAtFixedPosition);
            }
            Some(hull.start)
        } else {
            at
        };
        if let Some(a) = map_at {
            if a % 0x1000 != 0 {
                return Err(PixieError::Encore(EncoreError::MmapMemUnaligned(a)));
            }
        }
        let mem_len = hull.end - hull.start;
        if mem_len > usize::MAX as u64 {
            return Err(PixieError::Encore(EncoreError::MmapFailed));
        }
        let base_offset: u64 = if is_relocatable {
            match map_at {
                Some(a) => a,
                None => 0,
            }
        } else {
            0
        };
        let mem: Vec<u8> = vec![0u8; mem_len as usize];
        proof {
            assert forall|i: int| 0 <= i < mem_len implies mem@[i] == 0u8 by {
                assert(vstd::pervasive::cloned(0u8, mem@[i]));
            }
            assert(mem@ =~= Seq::new(mem_len as nat, |i: int| 0u8));
        }
        let mut mapped = MappedObject {
            hull_start: hull.start,
            hull_end: hull.end,
            base_offset,
            mem,
        };
        mapped.copy_load_segments(object, buf);
        Ok(mapped)
    }

    /// Copies every LOAD segment's file bytes into the image, in segment
    /// order, each at its address relative to the hull start.
    fn copy_load_segments(&mut self, object: &Object, buf: &[u8])
        requires
            object.wf(buf@),
            old(self).wf(),
            old(self).hull_start == spec_hull_start(object.segments.segments@),
            old(self).hull_end == spec_hull_end(object.segments.segments@),
        ensures
            final(self).wf(),
            final(self).hull_start == old(self).hull_start,
            final(self).hull_end == old(self).hull_end,
            final(self).base_offset == old(self).base_offset,
            final(self).mem@ == spec_copy_segments(
                old(self).mem@, buf@, object.segments.segments@,
                old(self).hull_start, object.segments.segments@.len() as int),
    {
        let ghost segs = object.segments.segments@;
        let ghost orig = self.mem@;
        let n = object.segments.segments.len();
        let mut i: usize = 0;
        while i < n
            invariant
                object.wf(buf@),
                self.wf(),
                n == segs.len(),
                0 <= i <= n,
                segs == object.segments.segments@,
                self.hull_start == old(self).hull_start,
                self.hull_end == old(self).hull_end,
                self.base_offset == old(self).base_offset,
                orig == old(self).mem@,
                self.mem@ == spec_copy_segments(orig, buf@, segs, self.hull_start, i as int),
            decreases n - i,
        {
            let seg = &object.segments.segments[i];
            if seg.typ() == crate::format::program_header::SegmentType::Load {
                let src = seg.slice(buf);
                // A segment whose file bytes would run past its window in
                // the image is skipped, exactly as the model says.
                if seg.header.vaddr >= self.hull_start {
                    let mem_start = seg.header.vaddr - self.hull_start;
                    if mem_start <= self.mem.len() as u64
                        && src.len() as u64 <= self.mem.len() as u64 - mem_start {
                        write_bytes_at(&mut self.mem, mem_start as usize, src);
                    }
                }
            }
            i += 1;
        }
    }

    /// The image offset standing for virtual address `vaddr`.
    pub fn vaddr_to_mem_offset(&self, vaddr: u64) -> (r: u64)
        requires
            self.hull_start <= vaddr,
        ensures
            r == vaddr - self.hull_start,
    {
        vaddr - self.hull_start
    }

    /// A view of the image for a given virtual-address range.
    pub fn vaddr_slice(&self, start: u64, end: u64) -> (r: &[u8])
        requires
            self.wf(),
            self.hull_start <= start <= end <= self.hull_end,
        ensures
            r@ == self.mem@.subrange(
                start - self.hull_start,
                end - self.hull_start),
    {
        let lo = start - self.hull_start;
        let hi = end - self.hull_start;
        let n = self.mem.len();
        proof {
            assert(hi <= n);
        }
        slice_subrange(self.mem.as_slice(), lo as usize, hi as usize)
    }

    /// True when the object's load convex hull starts at address zero,
    /// which means it can be mapped anywhere.
    pub fn is_relocatable(&self) -> (r: bool)
        ensures
            r == (self.hull_start == 0),
    {
        self.hull_start == 0
    }

    /// The offset between the object's own addresses and where it is
    /// placed.
    pub fn base_offset(&self) -> (r: u64)
        ensures
            r == self.base_offset,
    {
        self.base_offset
    }

    /// The address the image's first byte stands for: the chosen base for
    /// a relocatable object, the hull start otherwise.
    pub fn base(&self) -> (r: u64)
        requires
            self.base_offset + self.hull_start <= u64::MAX,
        ensures
            r == self.base_offset + self.hull_start,
    {
        self.base_offset + self.hull_start
    }
}

/// Write `src` into `mem` at `off`, leaving every other byte as it was.
fn write_bytes_at(mem: &mut Vec<u8>, off: usize, src: &[u8])
    requires
        off + src@.len() <= old(mem)@.len(),
    ensures
        final(mem)@.len() == old(mem)@.len(),
        final(mem)@ == spec_write_bytes(old(mem)@, off as int, src@),
{
    let n = src.len();
    let mut j: usize = 0;
    while j < n
        invariant
            0 <= j <= n,
            n == src@.len(),
            off + n <= mem@.len(),
            mem@.len() == old(mem)@.len(),
            forall|k: int| 0 <= k < j ==> mem@[off + k] == src@[k],
            forall|k: int| 0 <= k < mem@.len() && !(off <= k < off + j)
                ==> mem@[k] == old(mem)@[k],
        decreases n - j,
    {
        let m = mem.len();
        proof {
            assert(off + j < m);
        }
        mem[off + j] = src[j];
        j += 1;
    }
    proof {
        assert(mem@ =~= spec_write_bytes(old(mem)@, off as int, src@));
    }
}

/// The `n` relocation records stored back to back at `off`.
pub open spec fn spec_rela_seq(s: Seq<u8>, off: int, n: int) -> Seq<Rela> {
    Seq::new(n as nat, |i: int| spec_rela(s, off + 24 * i))
}

/// True when `entries` is the dynamic-entry list of the object over
/// buffer `s`: the records of its first `DYNAMIC` segment up to the Null
/// terminator.
pub open spec fn spec_dyn_entries_of(
    segs: Seq<Segment>,
    s: Seq<u8>,
    entries: Seq<crate::object::DynamicEntry>,
) -> bool {
    exists|d: int|
        {
            &&& 0 <= d < segs.len()
            &&& (#[trigger] segs[d]).header.typ is Dynamic
            &&& (forall|j: int| 0 <= j < d ==> !((#[trigger] segs[j]).header.typ is Dynamic))
            &&& crate::object::spec_dyn_count(s, segs[d].start as int, segs[d].end as int)
                == Some(entries.len() as int)
            &&& (forall|i: int| 0 <= i < entries.len()
                ==> (#[trigger] entries[i]).tag
                    == crate::format::dynamic::spec_dynamic_tag(s, segs[d].start + 16 * i))
        }
}

/// True when `relas` is the engine's work list for `entries` over `s`:
/// the RELA table followed by the PLT relocation table when a `JmpRel`
/// entry exists, the RELA table alone otherwise.
pub open spec fn spec_relas_of(
    s: Seq<u8>,
    entries: Seq<crate::object::DynamicEntry>,
    relas: Seq<Rela>,
) -> bool {
    &&& dyn_has(entries, DynamicTagType::Rela)
    &&& dyn_has(entries, DynamicTagType::RelaSz)
    &&& {
        let ra = dyn_first(entries, DynamicTagType::Rela).tag.addr;
        let rs = dyn_first(entries, DynamicTagType::RelaSz).tag.addr;
        &&& rs % 24 == 0
        &&& ra + rs <= s.len()
        &&& if dyn_has(entries, DynamicTagType::JmpRel) {
            let ja = dyn_first(entries, DynamicTagType::JmpRel).tag.addr;
            let js = dyn_first(entries, DynamicTagType::PltRelSz).tag.addr;
            &&& dyn_has(entries, DynamicTagType::PltRelSz)
            &&& js % 24 == 0
            &&& ja + js <= s.len()
            &&& relas == spec_rela_seq(s, ra as int, rs as int / 24)
                + spec_rela_seq(s, ja as int, js as int / 24)
        } else {
            relas == spec_rela_seq(s, ra as int, rs as int / 24)
        }
    }
}


/// True when no DYNAMIC segment stands in `segs`.
pub open spec fn spec_no_dynamic(segs: Seq<Segment>) -> bool {
    forall|j: int| 0 <= j < segs.len() ==> !((#[trigger] segs[j]).header.typ is Dynamic)
}

/// True when the object has a dynamic-entry list: a first DYNAMIC
/// segment with a Null terminator inside it.
pub open spec fn spec_has_dyn_entries(segs: Seq<Segment>, s: Seq<u8>) -> bool {
    exists|entries: Seq<crate::object::DynamicEntry>|
        #[trigger] spec_dyn_entries_of(segs, s, entries)
}

/// The object's dynamic-entry list; meaningful when one exists.
#[verifier::opaque]
pub open spec fn spec_dyn_entries(segs: Seq<Segment>, s: Seq<u8>) -> Seq<
    crate::object::DynamicEntry,
> {
    choose|entries: Seq<crate::object::DynamicEntry>|
        #[trigger] spec_dyn_entries_of(segs, s, entries)
}

/// The dynamic-entry list of an object over a buffer is unique.
pub proof fn lemma_dyn_entries_unique(
    segs: Seq<Segment>,
    s: Seq<u8>,
    e1: Seq<crate::object::DynamicEntry>,
    e2: Seq<crate::object::DynamicEntry>,
)
    requires
        spec_dyn_entries_of(segs, s, e1),
        spec_dyn_entries_of(segs, s, e2),
    ensures
        e1 == e2,
{
    let d1 = choose|d: int|
        {
            &&& 0 <= d < segs.len()
            &&& (#[trigger] segs[d]).header.typ is Dynamic
            &&& (forall|j: int| 0 <= j < d ==> !((#[trigger] segs[j]).header.typ is Dynamic))
            &&& crate::object::spec_dyn_count(s, segs[d].start as int, segs[d].end as int)
                == Some(e1.len() as int)
            &&& (forall|i: int| 0 <= i < e1.len()
                ==> (#[trigger] e1[i]).tag
                    == crate::format::dynamic::spec_dynamic_tag(s, segs[d].start + 16 * i))
        };
    let d2 = choose|d: int|
        {
            &&& 0 <= d < segs.len()
            &&& (#[trigger] segs[d]).header.typ is Dynamic
            &&& (forall|j: int| 0 <= j < d ==> !((#[trigger] segs[j]).header.typ is Dynamic))
            &&& crate::object::spec_dyn_count(s, segs[d].start as int, segs[d].end as int)
                == Some(e2.len() as int)
            &&& (forall|i: int| 0 <= i < e2.len()
                ==> (#[trigger] e2[i]).tag
                    == crate::format::dynamic::spec_dynamic_tag(s, segs[d].start + 16 * i))
        };
    assert(d1 == d2) by {
        if d1 < d2 {
            assert(!(segs[d1].header.typ is Dynamic));
        } else if d2 < d1 {
            assert(!(segs[d2].header.typ is Dynamic));
        }
    }
    assert(e1.len() == e2.len());
    assert forall|i: int| 0 <= i < e1.len() implies e1[i] == e2[i] by {
        assert(e1[i].tag == crate::format::dynamic::spec_dynamic_tag(s, segs[d1].start + 16 * i));
        assert(e2[i].tag == crate::format::dynamic::spec_dynamic_tag(s, segs[d2].start + 16 * i));
    }
    assert(e1 =~= e2);
}

/// The engine's work list for an entry list: the RELA table, followed by
/// the PLT relocation table when a `JmpRel` entry exists.
#[verifier::opaque]
pub open spec fn spec_relas_list(
    s: Seq<u8>,
    entries: Seq<crate::object::DynamicEntry>,
) -> Seq<Rela> {
    let ra = dyn_first(entries, DynamicTagType::Rela).tag.addr;
    let rs = dyn_first(entries, DynamicTagType::RelaSz).tag.addr;
    if dyn_has(entries, DynamicTagType::JmpRel) {
        let ja = dyn_first(entries, DynamicTagType::JmpRel).tag.addr;
        let js = dyn_first(entries, DynamicTagType::PltRelSz).tag.addr;
        spec_rela_seq(s, ra as int, rs as int / 24) + spec_rela_seq(s, ja as int, js as int / 24)
    } else {
        spec_rela_seq(s, ra as int, rs as int / 24)
    }
}

/// What stops a relocation run before any record is applied: the first
/// missing segment, missing entry or malformed table, in the order the
/// engine looks for them; nothing when the tables are all usable.
pub open spec fn spec_relocate_blocker(segs: Seq<Segment>, s: Seq<u8>) -> Option<PixieError> {
    if spec_no_dynamic(segs) {
        Some(PixieError::SegmentNotFound(crate::format::program_header::SegmentType::Dynamic))
    } else if !spec_has_dyn_entries(segs, s) {
        Some(PixieError::DynamicOutOfBounds)
    } else {
        let entries = spec_dyn_entries(segs, s);
        if !dyn_has(entries, DynamicTagType::SymTab) {
            Some(PixieError::DynamicEntryNotFound(DynamicTagType::SymTab))
        } else if !dyn_has(entries, DynamicTagType::SymEnt) {
            Some(PixieError::DynamicEntryNotFound(DynamicTagType::SymEnt))
        } else if !dyn_has(entries, DynamicTagType::StrTab) {
            Some(PixieError::DynamicEntryNotFound(DynamicTagType::StrTab))
        } else if !dyn_has(entries, DynamicTagType::Rela) {
            Some(PixieError::DynamicEntryNotFound(DynamicTagType::Rela))
        } else if !dyn_has(entries, DynamicTagType::RelaSz) {
            Some(PixieError::DynamicEntryNotFound(DynamicTagType::RelaSz))
        } else {
            let ra = dyn_first(entries, DynamicTagType::Rela).tag.addr;
            let rs = dyn_first(entries, DynamicTagType::RelaSz).tag.addr;
            if !(rs % 24 == 0 && ra + rs <= s.len()) {
                Some(PixieError::DynamicOutOfBounds)
            } else if dyn_has(entries, DynamicTagType::JmpRel)
                && !dyn_has(entries, DynamicTagType::PltRelSz) {
                Some(PixieError::DynamicEntryNotFound(DynamicTagType::PltRelSz))
            } else if dyn_has(entries, DynamicTagType::JmpRel)
                && !(dyn_first(entries, DynamicTagType::PltRelSz).tag.addr % 24 == 0
                    && dyn_first(entries, DynamicTagType::JmpRel).tag.addr
                        + dyn_first(entries, DynamicTagType::PltRelSz).tag.addr <= s.len()) {
                Some(PixieError::DynamicOutOfBounds)
            } else {
                None
            }
        }
    }
}

/// A first DYNAMIC segment without a Null terminator inside it means no
/// dynamic-entry list exists.
proof fn lemma_unterminated_no_entries(segs: Seq<Segment>, s: Seq<u8>)
    requires
        exists|d: int|
            {
                &&& 0 <= d < segs.len()
                &&& (#[trigger] segs[d]).header.typ is Dynamic
                &&& (forall|j: int| 0 <= j < d ==> !((#[trigger] segs[j]).header.typ is Dynamic))
                &&& crate::object::spec_dyn_count(s, segs[d].start as int, segs[d].end as int)
                    is None
            },
    ensures
        !spec_has_dyn_entries(segs, s),
        !spec_no_dynamic(segs),
{
    let d1 = choose|d: int|
        {
            &&& 0 <= d < segs.len()
            &&& (#[trigger] segs[d]).header.typ is Dynamic
            &&& (forall|j: int| 0 <= j < d ==> !((#[trigger] segs[j]).header.typ is Dynamic))
            &&& crate::object::spec_dyn_count(s, segs[d].start as int, segs[d].end as int)
                is None
        };
    assert(segs[d1].header.typ is Dynamic);
    if spec_has_dyn_entries(segs, s) {
        let entries = choose|entries: Seq<crate::object::DynamicEntry>|
            #[trigger] spec_dyn_entries_of(segs, s, entries);
        let d2 = choose|d: int|
            {
                &&& 0 <= d < segs.len()
                &&& (#[trigger] segs[d]).header.typ is Dynamic
                &&& (forall|j: int| 0 <= j < d ==> !((#[trigger] segs[j]).header.typ is Dynamic))
                &&& crate::object::spec_dyn_count(s, segs[d].start as int, segs[d].end as int)
                    == Some(entries.len() as int)
                &&& (forall|i: int| 0 <= i < entries.len()
                    ==> (#[trigger] entries[i]).tag
                        == crate::format::dynamic::spec_dynamic_tag(s, segs[d].start + 16 * i))
            };
        assert(d1 == d2) by {
            if d1 < d2 {
                assert(!(segs[d1].header.typ is Dynamic));
            } else if d2 < d1 {
                assert(!(segs[d2].header.typ is Dynamic));
            }
        }
        assert(false);
    }
}


/// The deterministic outcome of a relocation run on a relocatable image:
/// a blocked run returns exactly the blocker with the image untouched;
/// otherwise the first unusable record (if any) decides the error and
/// exactly the records before it are applied, and a list with no such
/// record means success.
#[verifier::opaque]
pub open spec fn spec_relocate_outcome(
    segs: Seq<Segment>,
    s: Seq<u8>,
    mem0: Seq<u8>,
    hs: u64,
    base: u64,
    r: Result<(), PixieError>,
    mem1: Seq<u8>,
) -> bool {
    match spec_relocate_blocker(segs, s) {
        Some(e) => r == Err::<(), PixieError>(e) && mem1 == mem0,
        None => ({
            let entries = spec_dyn_entries(segs, s);
            let sy = spec_syms_of(entries);
            let relas = spec_relas_list(s, entries);
            &&& ((forall|i: int| 0 <= i < relas.len()
                ==> (#[trigger] relas[i]).typ.spec_supported()
                    && spec_rela_ok(s, sy, hs, mem0.len(), relas[i]))
                ==> r is Ok)
            &&& (forall|k: int|
                (0 <= k < relas.len()
                    && !((#[trigger] relas[k]).typ.spec_supported()
                        && spec_rela_ok(s, sy, hs, mem0.len(), relas[k]))
                    && (forall|j: int| 0 <= j < k
                        ==> (#[trigger] relas[j]).typ.spec_supported()
                            && spec_rela_ok(s, sy, hs, mem0.len(), relas[j])))
                ==> r == Err::<(), PixieError>(
                        if !relas[k].typ.spec_supported() {
                            PixieError::UnsupportedRela(relas[k])
                        } else {
                            PixieError::DynamicOutOfBounds
                        })
                    && mem1 == spec_apply_relas(mem0, s, sy, hs, base, relas, k))
        }),
    }
}

/// When nothing blocks the run and every record is usable, the outcome
/// is success.
pub proof fn lemma_relocate_ok_forced(
    segs: Seq<Segment>,
    s: Seq<u8>,
    mem0: Seq<u8>,
    hs: u64,
    base: u64,
    r: Result<(), PixieError>,
    mem1: Seq<u8>,
)
    requires
        spec_relocate_outcome(segs, s, mem0, hs, base, r, mem1),
        spec_relocate_blocker(segs, s) is None,
        (forall|i: int|
            0 <= i < spec_relas_list(s, spec_dyn_entries(segs, s)).len()
            ==> (#[trigger] spec_relas_list(s, spec_dyn_entries(segs, s))[i])
                .typ.spec_supported()
                && spec_rela_ok(s, spec_syms_of(spec_dyn_entries(segs, s)), hs, mem0.len(),
                    spec_relas_list(s, spec_dyn_entries(segs, s))[i])),
    ensures
        r is Ok,
{
    reveal(spec_relocate_outcome);
}

/// When something blocks the run, the outcome is exactly that error with
/// the image untouched.
pub proof fn lemma_relocate_blocked(
    segs: Seq<Segment>,
    s: Seq<u8>,
    mem0: Seq<u8>,
    hs: u64,
    base: u64,
    r: Result<(), PixieError>,
    mem1: Seq<u8>,
)
    requires
        spec_relocate_outcome(segs, s, mem0, hs, base, r, mem1),
        spec_relocate_blocker(segs, s) is Some,
    ensures
        r == Err::<(), PixieError>(spec_relocate_blocker(segs, s)->0),
        mem1 == mem0,
{
    reveal(spec_relocate_outcome);
}


/// A run that nothing blocks has a dynamic-entry list with the three
/// symbol-resolution entries present.
pub proof fn lemma_blocker_none_has(segs: Seq<Segment>, s: Seq<u8>)
    requires
        spec_relocate_blocker(segs, s) is None,
    ensures
        spec_has_dyn_entries(segs, s),
        dyn_has(spec_dyn_entries(segs, s), DynamicTagType::SymTab),
        dyn_has(spec_dyn_entries(segs, s), DynamicTagType::SymEnt),
        dyn_has(spec_dyn_entries(segs, s), DynamicTagType::StrTab),
{
}


/// The freshly mapped image of an object over its own bytes: the
/// zero-filled hull with every LOAD segment's file bytes copied in.
pub open spec fn spec_fresh_image(g: Seq<u8>) -> Seq<u8> {
    let segs = crate::object::spec_segs(g);
    let hs = spec_hull_start(segs);
    let he = spec_hull_end(segs);
    spec_copy_segments(Seq::new((he - hs) as nat, |i: int| 0u8), g, segs, hs, segs.len() as int)
}

/// The relocatable object's image after relocation at `base`.
pub open spec fn spec_relocated_image(g: Seq<u8>, base: u64) -> Seq<u8> {
    let segs = crate::object::spec_segs(g);
    let entries = spec_dyn_entries(segs, g);
    let relas = spec_relas_list(g, entries);
    spec_apply_relas(spec_fresh_image(g), g, spec_syms_of(entries), 0, base, relas,
        relas.len() as int)
}

/// Parse the relocation table of `size` bytes at offset `off`.
///
/// Succeeds exactly when the table lies inside the buffer and its size is
/// a whole number of 24-byte records.
fn parse_rela_table(buf: &[u8], off: u64, size: u64) -> (r: Result<Vec<Rela>, PixieError>)
    ensures
        r is Ok <==> (size % 24 == 0 && off + size <= buf@.len()),
        r is Ok ==> r->Ok_0@ == spec_rela_seq(buf@, off as int, size as int / 24),
        r is Err ==> r->Err_0 == PixieError::DynamicOutOfBounds,
{
    let buf_len = buf.len();
    if size % 24 != 0 || off > buf_len as u64 || size > buf_len as u64 - off {
        return Err(PixieError::DynamicOutOfBounds);
    }
    let n = size / 24;
    let mut relas: Vec<Rela> = Vec::new();
    let mut i: u64 = 0;
    while i < n
        invariant
            buf_len == buf@.len(),
            n == size / 24,
            size % 24 == 0,
            off + size <= buf_len,
            0 <= i <= n,
            relas@.len() == i,
            forall|k: int| 0 <= k < i
                ==> relas@[k] == spec_rela(buf@, off + 24 * k),
        decreases n - i,
    {
        proof {
            assert(24 * (i + 1) <= 24 * n) by (nonlinear_arith) requires i + 1 <= n;
            assert(24 * n == size);
        }
        let rec_off = off + 24 * i;
        let rela = match Rela::parse_at(buf, rec_off as usize) {
            Ok(x) => x,
            Err(e) => {
                return Err(e);
            },
        };
        relas.push(rela);
        i += 1;
    }
    proof {
        assert(relas@ =~= spec_rela_seq(buf@, off as int, size as int / 24));
    }
    Ok(relas)
}

/// Collect the symbol-resolution triple and the engine's work list from
/// the object's dynamic entries: the RELA table, then the PLT relocation
/// table when a `JmpRel` entry exists. Fails with exactly the blocker the
/// tables name.
#[verifier::rlimit(100)]
#[verifier::spinoff_prover]
fn collect_reloc_tables(object: &Object, buf: &[u8]) -> (r: Result<
    (Syms, Vec<Rela>),
    PixieError,
>)
    requires
        object.wf(buf@),
    ensures
        ({
            let segs = object.segments.segments@;
            match r {
                Ok((sy, relas)) => {
                    &&& spec_relocate_blocker(segs, buf@) is None
                    &&& spec_dyn_entries_of(segs, buf@, spec_dyn_entries(segs, buf@))
                    &&& sy == spec_syms_of(spec_dyn_entries(segs, buf@))
                    &&& relas@ == spec_relas_list(buf@, spec_dyn_entries(segs, buf@))
                },
                Err(e) => spec_relocate_blocker(segs, buf@) == Some(e)
                    && !(e is UnsupportedRela),
            }
        }),
{
    let ghost segs = object.segments.segments@;
        let dyn_entries = match object.read_dynamic_entries(buf) {
            Ok(d) => d,
            Err(e) => {
                proof {
                    if e == PixieError::SegmentNotFound(
                        crate::format::program_header::SegmentType::Dynamic) {
                        assert(spec_no_dynamic(segs));
                    } else {
                        lemma_unterminated_no_entries(segs, buf@);
                    }
                    assert(spec_relocate_blocker(segs, buf@) == Some(e));
                }
                return Err(e);
            },
        };
        proof {
            reveal(spec_dyn_entries);
            assert(spec_dyn_entries_of(segs, buf@, dyn_entries.items@));
            assert(spec_has_dyn_entries(segs, buf@));
            lemma_dyn_entries_unique(segs, buf@, spec_dyn_entries(segs, buf@),
                dyn_entries.items@);
            assert(spec_dyn_entries(segs, buf@) == dyn_entries.items@);
            assert(!spec_no_dynamic(segs)) by {
                let d = choose|d: int|
                    {
                        &&& 0 <= d < segs.len()
                        &&& (#[trigger] segs[d]).header.typ is Dynamic
                        &&& (forall|j: int| 0 <= j < d
                            ==> !((#[trigger] segs[j]).header.typ is Dynamic))
                        &&& crate::object::spec_dyn_count(buf@, segs[d].start as int,
                            segs[d].end as int) == Some(dyn_entries.items@.len() as int)
                        &&& (forall|i: int| 0 <= i < dyn_entries.items@.len()
                            ==> (#[trigger] dyn_entries.items@[i]).tag
                                == crate::format::dynamic::spec_dynamic_tag(
                                    buf@, segs[d].start + 16 * i))
                    };
                assert(segs[d].header.typ is Dynamic);
            }
        }
        let sy = match dyn_entries.syms() {
            Ok(sy) => sy,
            Err(e) => {
                proof {
                    assert(spec_relocate_blocker(segs, buf@) == Some(e));
                }
                return Err(e);
            },
        };
        let rela_entry = match dyn_entries.find_first(DynamicTagType::Rela) {
            Ok(e) => e,
            Err(e) => {
                proof {
                    assert(spec_relocate_blocker(segs, buf@) == Some(e));
                }
                return Err(e);
            },
        };
        let relasz_entry = match dyn_entries.find_first(DynamicTagType::RelaSz) {
            Ok(e) => e,
            Err(e) => {
                proof {
                    assert(spec_relocate_blocker(segs, buf@) == Some(e));
                }
                return Err(e);
            },
        };
        let mut relas = match parse_rela_table(buf, rela_entry.tag.addr, relasz_entry.tag.addr) {
            Ok(v) => v,
            Err(e) => {
                proof {
                    assert(spec_relocate_blocker(segs, buf@) == Some(e));
                }
                return Err(e);
            },
        };
        match dyn_entries.find_first(DynamicTagType::JmpRel) {
            Ok(jmprel_entry) => {
                let pltrelsz_entry = match dyn_entries.find_first(DynamicTagType::PltRelSz) {
                    Ok(e) => e,
                    Err(e) => {
                        proof {
                            assert(spec_relocate_blocker(segs, buf@) == Some(e));
                        }
                        return Err(e);
                    },
                };
                let mut plt = match parse_rela_table(
                    buf, jmprel_entry.tag.addr, pltrelsz_entry.tag.addr) {
                    Ok(v) => v,
                    Err(e) => {
                        proof {
                            assert(spec_relocate_blocker(segs, buf@) == Some(e));
                        }
                        return Err(e);
                    },
                };
                relas.append(&mut plt);
            },
            Err(_) => {},
        }
        proof {
            assert(spec_dyn_entries_of(segs, buf@, dyn_entries.items@));
            assert(spec_relas_of(buf@, dyn_entries.items@, relas@));
            assert(sy == spec_syms_of(dyn_entries.items@));
            assert(spec_relocate_blocker(segs, buf@) is None);
            assert(relas@ == spec_relas_list(buf@, dyn_entries.items@)) by {
                reveal(spec_relas_list);
            }
        }
    Ok((sy, relas))
}

impl MappedObject {
    /// Apply the relocations of `relas` in order, each an eight-byte
    /// little-endian store of `base_offset + symbol value + addend` at its
    /// target. Stops at the first record whose kind the engine does not
    /// handle, or whose symbol or target lies out of bounds, with the
    /// records before it applied and nothing after it written.
    pub fn apply_relas(
        &mut self,
        buf: &[u8],
        sy: Syms,
        relas: &Vec<Rela>,
        base_offset: u64,
    ) -> (r: Result<(), PixieError>)
        requires
            old(self).wf(),
        ensures
            final(self).wf(),
            final(self).hull_start == old(self).hull_start,
            final(self).hull_end == old(self).hull_end,
            final(self).base_offset == old(self).base_offset,
            ({
                let hs = old(self).hull_start;
                let mem0 = old(self).mem@;
                let n = relas@.len() as int;
                match r {
                    Ok(()) => {
                        &&& (forall|i: int| 0 <= i < n
                            ==> (#[trigger] relas@[i]).typ.spec_supported()
                                && spec_rela_ok(buf@, sy, hs, mem0.len(), relas@[i]))
                        &&& final(self).mem@ == spec_apply_relas(
                            mem0, buf@, sy, hs, base_offset, relas@, n)
                    },
                    Err(e) => {
                        exists|k: int|
                            {
                                &&& 0 <= k < n
                                &&& (forall|j: int| 0 <= j < k
                                    ==> (#[trigger] relas@[j]).typ.spec_supported()
                                        && spec_rela_ok(buf@, sy, hs, mem0.len(), relas@[j]))
                                &&& final(self).mem@ == spec_apply_relas(
                                    mem0, buf@, sy, hs, base_offset, relas@, k)
                                &&& ((e == PixieError::UnsupportedRela(relas@[k as int])
                                        && !(#[trigger] relas@[k as int]).typ.spec_supported())
                                    || (e == PixieError::DynamicOutOfBounds
                                        && relas@[k as int].typ.spec_supported()
                                        && !spec_rela_ok(buf@, sy, hs, mem0.len(), relas@[k as int])))
                            }
                    },
                }
            }),
    {
        let ghost hs = self.hull_start;
        let ghost mem0 = self.mem@;
        let n = relas.len();
        let mut i: usize = 0;
        while i < n
            invariant
                self.wf(),
                self.hull_start == old(self).hull_start,
                self.hull_end == old(self).hull_end,
                self.base_offset == old(self).base_offset,
                hs == old(self).hull_start,
                mem0 == old(self).mem@,
                mem0.len() == self.mem@.len(),
                n == relas@.len(),
                0 <= i <= n,
                forall|j: int| 0 <= j < i
                    ==> (#[trigger] relas@[j]).typ.spec_supported()
                        && spec_rela_ok(buf@, sy, hs, mem0.len(), relas@[j]),
                self.mem@ == spec_apply_relas(mem0, buf@, sy, hs, base_offset, relas@, i as int),
            decreases n - i,
        {
            let rela = relas[i];
            if !rela.typ.supported() {
                return Err(PixieError::UnsupportedRela(rela));
            }
            let sym = match sy.nth(buf, rela.sym as u64) {
                Ok(sym) => sym,
                Err(e) => {
                    proof {
                        assert(!spec_rela_ok(buf@, sy, hs, mem0.len(), relas@[i as int]));
                    }
                    return Err(e);
                },
            };
            let value = base_offset.wrapping_add(sym.value).wrapping_add(rela.addend);
            proof {
                assert(value == spec_apply_value(buf@, sy, base_offset, relas@[i as int]));
            }
            let mem_len = self.mem.len();
            if rela.offset < self.hull_start
                || rela.offset - self.hull_start > mem_len as u64
                || 8 > mem_len as u64 - (rela.offset - self.hull_start) {
                proof {
                    assert(!spec_rela_ok(buf@, sy, hs, mem0.len(), relas@[i as int]));
                }
                return Err(PixieError::DynamicOutOfBounds);
            }
            let mem_offset = (rela.offset - self.hull_start) as usize;
            store_u64(&mut self.mem, mem_offset, value);
            proof {
                assert(self.mem@ =~= spec_store64(
                    spec_apply_relas(mem0, buf@, sy, hs, base_offset, relas@, i as int),
                    rela.offset - hs,
                    spec_apply_value(buf@, sy, base_offset, relas@[i as int])));
            }
            i += 1;
        }
        Ok(())
    }

    /// Apply the object's dynamic relocations as if the image stood at
    /// `base_offset`. Valid only for relocatable objects. Reads the RELA
    /// table and, when present, the PLT relocation table after it, and
    /// applies every record in order; fails fast at the first record of an
    /// unhandled kind, with nothing after it written.
    #[verifier::rlimit(100)]
    #[verifier::spinoff_prover]
    pub fn relocate(
        &mut self,
        object: &Object,
        buf: &[u8],
        base_offset: u64,
    ) -> (r: Result<(), PixieError>)
        requires
            object.wf(buf@),
            old(self).wf(),
        ensures
            final(self).wf(),
            final(self).hull_start == old(self).hull_start,
            final(self).hull_end == old(self).hull_end,
            final(self).base_offset == old(self).base_offset,
            old(self).hull_start != 0 ==> r == Err::<(), PixieError>(
                PixieError::CannotRelocateNonRelocatableObject)
                && final(self).mem@ == old(self).mem@,
            ({
                let segs = object.segments.segments@;
                let hs = old(self).hull_start;
                let mem0 = old(self).mem@;
                let entries = spec_dyn_entries(segs, buf@);
                let sy = spec_syms_of(entries);
                let relas = spec_relas_list(buf@, entries);
                r is Ok ==> {
                    &&& hs == 0
                    &&& spec_relocate_blocker(segs, buf@) is None
                    &&& (forall|i: int| 0 <= i < relas.len()
                        ==> (#[trigger] relas[i]).typ.spec_supported()
                            && spec_rela_ok(buf@, sy, hs, mem0.len(), relas[i]))
                    &&& final(self).mem@ == spec_apply_relas(
                        mem0, buf@, sy, hs, base_offset, relas, relas.len() as int)
                }
            }),
            ({
                let segs = object.segments.segments@;
                let hs = old(self).hull_start;
                let mem0 = old(self).mem@;
                let entries = spec_dyn_entries(segs, buf@);
                let sy = spec_syms_of(entries);
                let relas = spec_relas_list(buf@, entries);
                (r is Err && r->Err_0 is UnsupportedRela) ==> hs == 0
                    && spec_relocate_blocker(segs, buf@) is None
                    && (exists|k: int|
                    {
                        &&& 0 <= k < relas.len()
                        &&& r->Err_0 == PixieError::UnsupportedRela(#[trigger] relas[k])
                        &&& !relas[k].typ.spec_supported()
                        &&& (forall|j: int| 0 <= j < k
                            ==> (#[trigger] relas[j]).typ.spec_supported()
                                && spec_rela_ok(buf@, sy, hs, mem0.len(), relas[j]))
                        &&& final(self).mem@ == spec_apply_relas(
                            mem0, buf@, sy, hs, base_offset, relas, k)
                    })
            }),
            r is Err && !(r->Err_0 is UnsupportedRela) && !(r->Err_0 is DynamicOutOfBounds)
                ==> final(self).mem@ == old(self).mem@,
            old(self).hull_start == 0 ==> spec_relocate_outcome(
                object.segments.segments@, buf@, old(self).mem@, old(self).hull_start,
                base_offset, r, final(self).mem@),
    {
        let ghost segs = object.segments.segments@;
        if self.hull_start != 0 {
            return Err(PixieError::CannotRelocateNonRelocatableObject);
        }
        let (sy, relas) = match collect_reloc_tables(object, buf) {
            Ok(x) => x,
            Err(e) => {
                proof {
                    assert(spec_relocate_outcome(segs, buf@, self.mem@, self.hull_start,
                        base_offset, Err::<(), PixieError>(e), self.mem@)) by {
                        reveal(spec_relocate_outcome);
                    }
                }
                return Err(e);
            },
        };
        let ghost mem0 = self.mem@;
        let ghost hs = self.hull_start;
        let r = self.apply_relas(buf, sy, &relas, base_offset);
        proof {
            assert(relas@ == spec_relas_list(buf@, spec_dyn_entries(segs, buf@)));
            lemma_apply_outcome(segs, buf@, sy, mem0, hs, base_offset, relas@, r,
                self.mem@);
        }
        r
    }

    /// The (non-relocated) symbol record of `name` in the object's dynamic
    /// symbol table: the first record bearing that name. Fails with the
    /// missing segment or entry, or with a not-found error exactly when no
    /// record bears the name.
    #[verifier::rlimit(100)]
    #[verifier::spinoff_prover]
    pub fn lookup_sym(&self, object: &Object, buf: &[u8], name: &[u8]) -> (r: Result<Sym, PixieError>)
        requires
            object.wf(buf@),
        ensures
            ({
                let segs = object.segments.segments@;
                let entries = spec_dyn_entries(segs, buf@);
                let sy = spec_syms_of(entries);
                r is Ok ==> {
                    &&& spec_has_dyn_entries(segs, buf@)
                    &&& (exists|n: int| 0 <= n
                        && #[trigger] sy.spec_matches(buf@, n, name@)
                        && r->Ok_0 == sy.spec_nth(buf@, n)
                        && (forall|m: int| 0 <= m < n
                            ==> !(#[trigger] sy.spec_matches(buf@, m, name@))))
                }
            }),
            ({
                let segs = object.segments.segments@;
                let entries = spec_dyn_entries(segs, buf@);
                let sy = spec_syms_of(entries);
                &&& (spec_no_dynamic(segs) ==> r == Err::<Sym, PixieError>(
                    PixieError::SegmentNotFound(
                        crate::format::program_header::SegmentType::Dynamic)))
                &&& (!spec_no_dynamic(segs) && !spec_has_dyn_entries(segs, buf@)
                    ==> r == Err::<Sym, PixieError>(PixieError::DynamicOutOfBounds))
                &&& (spec_has_dyn_entries(segs, buf@) ==> {
                    if !dyn_has(entries, DynamicTagType::SymTab) {
                        r == Err::<Sym, PixieError>(PixieError::DynamicEntryNotFound(
                            DynamicTagType::SymTab))
                    } else if !dyn_has(entries, DynamicTagType::SymEnt) {
                        r == Err::<Sym, PixieError>(PixieError::DynamicEntryNotFound(
                            DynamicTagType::SymEnt))
                    } else if !dyn_has(entries, DynamicTagType::StrTab) {
                        r == Err::<Sym, PixieError>(PixieError::DynamicEntryNotFound(
                            DynamicTagType::StrTab))
                    } else {
                        &&& ((exists|n: int| 0 <= n
                            && #[trigger] sy.spec_matches(buf@, n, name@)) ==> r is Ok)
                        &&& ((forall|n: int| 0 <= n
                            ==> !(#[trigger] sy.spec_matches(buf@, n, name@)))
                            ==> r == Err::<Sym, PixieError>(PixieError::SymbolNotFound))
                    }
                })
            }),
    {
        let ghost segs = object.segments.segments@;
        let dyn_entries = match object.read_dynamic_entries(buf) {
            Ok(d) => d,
            Err(e) => {
                proof {
                    if e == PixieError::SegmentNotFound(
                        crate::format::program_header::SegmentType::Dynamic) {
                        assert(spec_no_dynamic(segs));
                    } else {
                        lemma_unterminated_no_entries(segs, buf@);
                    }
                }
                return Err(e);
            },
        };
        proof {
            reveal(spec_dyn_entries);
            assert(spec_dyn_entries_of(segs, buf@, dyn_entries.items@));
            assert(spec_has_dyn_entries(segs, buf@));
            lemma_dyn_entries_unique(segs, buf@, spec_dyn_entries(segs, buf@),
                dyn_entries.items@);
            assert(spec_dyn_entries(segs, buf@) == dyn_entries.items@);
            assert(!spec_no_dynamic(segs)) by {
                let d = choose|d: int|
                    {
                        &&& 0 <= d < segs.len()
                        &&& (#[trigger] segs[d]).header.typ is Dynamic
                        &&& (forall|j: int| 0 <= j < d
                            ==> !((#[trigger] segs[j]).header.typ is Dynamic))
                        &&& crate::object::spec_dyn_count(buf@, segs[d].start as int,
                            segs[d].end as int) == Some(dyn_entries.items@.len() as int)
                        &&& (forall|i: int| 0 <= i < dyn_entries.items@.len()
                            ==> (#[trigger] dyn_entries.items@[i]).tag
                                == crate::format::dynamic::spec_dynamic_tag(
                                    buf@, segs[d].start + 16 * i))
                    };
                assert(segs[d].header.typ is Dynamic);
            }
        }
        let sy = match dyn_entries.syms() {
            Ok(sy) => sy,
            Err(e) => {
                return Err(e);
            },
        };
        let r = sy.by_name(buf, name);
        proof {
            assert(sy == spec_syms_of(dyn_entries.items@));
            if r is Ok {
                let n = choose|n: int| 0 <= n
                    && #[trigger] sy.spec_matches(buf@, n, name@)
                    && r->Ok_0 == sy.spec_nth(buf@, n)
                    && (forall|m: int| 0 <= m < n
                        ==> !(#[trigger] sy.spec_matches(buf@, m, name@)));
                assert(spec_syms_of(dyn_entries.items@).spec_matches(buf@, n, name@));
            }
        }
        r
    }
}



/// Two first-failing positions in the same work list coincide.
proof fn lemma_first_fail_unique(
    s: Seq<u8>,
    sy: Syms,
    hs: u64,
    mem_len: nat,
    rl: Seq<Rela>,
    k: int,
    k0: int,
)
    requires
        0 <= k < rl.len(),
        0 <= k0 < rl.len(),
        !(rl[k].typ.spec_supported() && spec_rela_ok(s, sy, hs, mem_len, rl[k])),
        forall|j: int| 0 <= j < k
            ==> (#[trigger] rl[j]).typ.spec_supported()
                && spec_rela_ok(s, sy, hs, mem_len, rl[j]),
        !(rl[k0].typ.spec_supported() && spec_rela_ok(s, sy, hs, mem_len, rl[k0])),
        forall|j: int| 0 <= j < k0
            ==> (#[trigger] rl[j]).typ.spec_supported()
                && spec_rela_ok(s, sy, hs, mem_len, rl[j]),
    ensures
        k == k0,
{
    if k < k0 {
        assert(rl[k].typ.spec_supported() && spec_rela_ok(s, sy, hs, mem_len, rl[k]));
    } else if k0 < k {
        assert(rl[k0].typ.spec_supported() && spec_rela_ok(s, sy, hs, mem_len, rl[k0]));
    }
}

/// The result of applying the work list, as `apply_relas` reports it,
/// is the deterministic relocation outcome.
#[verifier::rlimit(100)]
#[verifier::spinoff_prover]
proof fn lemma_apply_outcome(
    segs: Seq<Segment>,
    s: Seq<u8>,
    sy: Syms,
    mem0: Seq<u8>,
    hs: u64,
    base: u64,
    rl: Seq<Rela>,
    r: Result<(), PixieError>,
    mem1: Seq<u8>,
)
    requires
        spec_relocate_blocker(segs, s) is None,
        sy == spec_syms_of(spec_dyn_entries(segs, s)),
        rl == spec_relas_list(s, spec_dyn_entries(segs, s)),
        r is Ok ==> (forall|i: int| 0 <= i < rl.len()
            ==> (#[trigger] rl[i]).typ.spec_supported()
                && spec_rela_ok(s, sy, hs, mem0.len(), rl[i]))
            && mem1 == spec_apply_relas(mem0, s, sy, hs, base, rl, rl.len() as int),
        r is Err ==> (exists|k: int|
            {
                &&& 0 <= k < rl.len()
                &&& (forall|j: int| 0 <= j < k
                    ==> (#[trigger] rl[j]).typ.spec_supported()
                        && spec_rela_ok(s, sy, hs, mem0.len(), rl[j]))
                &&& mem1 == spec_apply_relas(mem0, s, sy, hs, base, rl, k)
                &&& ((r->Err_0 == PixieError::UnsupportedRela(#[trigger] rl[k])
                        && !rl[k].typ.spec_supported())
                    || (r->Err_0 == PixieError::DynamicOutOfBounds
                        && rl[k].typ.spec_supported()
                        && !spec_rela_ok(s, sy, hs, mem0.len(), rl[k])))
            }),
    ensures
        spec_relocate_outcome(segs, s, mem0, hs, base, r, mem1),
{
    reveal(spec_relocate_outcome);
    if r is Ok {
        assert forall|k: int|
            (0 <= k < rl.len()
                && !((#[trigger] rl[k]).typ.spec_supported()
                    && spec_rela_ok(s, sy, hs, mem0.len(), rl[k]))
                && (forall|j: int| 0 <= j < k
                    ==> (#[trigger] rl[j]).typ.spec_supported()
                        && spec_rela_ok(s, sy, hs, mem0.len(), rl[j])))
            implies r == Err::<(), PixieError>(
                if !rl[k].typ.spec_supported() {
                    PixieError::UnsupportedRela(rl[k])
                } else {
                    PixieError::DynamicOutOfBounds
                }) && mem1 == spec_apply_relas(mem0, s, sy, hs, base, rl, k) by {
            assert(rl[k].typ.spec_supported()
                && spec_rela_ok(s, sy, hs, mem0.len(), rl[k]));
        }
    } else {
        let k0 = choose|k: int|
            {
                &&& 0 <= k < rl.len()
                &&& (forall|j: int| 0 <= j < k
                    ==> (#[trigger] rl[j]).typ.spec_supported()
                        && spec_rela_ok(s, sy, hs, mem0.len(), rl[j]))
                &&& mem1 == spec_apply_relas(mem0, s, sy, hs, base, rl, k)
                &&& ((r->Err_0 == PixieError::UnsupportedRela(#[trigger] rl[k])
                        && !rl[k].typ.spec_supported())
                    || (r->Err_0 == PixieError::DynamicOutOfBounds
                        && rl[k].typ.spec_supported()
                        && !spec_rela_ok(s, sy, hs, mem0.len(), rl[k])))
            };
        assert(!(rl[k0].typ.spec_supported()
            && spec_rela_ok(s, sy, hs, mem0.len(), rl[k0])));
        assert forall|k: int|
            (0 <= k < rl.len()
                && !((#[trigger] rl[k]).typ.spec_supported()
                    && spec_rela_ok(s, sy, hs, mem0.len(), rl[k]))
                && (forall|j: int| 0 <= j < k
                    ==> (#[trigger] rl[j]).typ.spec_supported()
                        && spec_rela_ok(s, sy, hs, mem0.len(), rl[j])))
            implies r == Err::<(), PixieError>(
                if !rl[k].typ.spec_supported() {
                    PixieError::UnsupportedRela(rl[k])
                } else {
                    PixieError::DynamicOutOfBounds
                }) && mem1 == spec_apply_relas(mem0, s, sy, hs, base, rl, k) by {
            lemma_first_fail_unique(s, sy, hs, mem0.len(), rl, k, k0);
        }
        assert(!(forall|i: int| 0 <= i < rl.len()
            ==> (#[trigger] rl[i]).typ.spec_supported()
                && spec_rela_ok(s, sy, hs, mem0.len(), rl[i]))) by {
            assert(!(rl[k0].typ.spec_supported()
                && spec_rela_ok(s, sy, hs, mem0.len(), rl[k0])));
        }
    }
}

/// Applying relocations never changes the image's length.
proof fn lemma_apply_len(
    mem: Seq<u8>,
    s: Seq<u8>,
    sy: Syms,
    hull_start: u64,
    base: u64,
    relas: Seq<Rela>,
    k: int,
)
    ensures
        spec_apply_relas(mem, s, sy, hull_start, base, relas, k).len() == mem.len(),
    decreases k,
{
    vstd::bytes::lemma_auto_spec_u64_to_from_le_bytes();
    if k > 0 {
        lemma_apply_len(mem, s, sy, hull_start, base, relas, k - 1);
    }
}

/// An eight-byte store reads back as the stored value.
proof fn lemma_store64_reads(mem: Seq<u8>, off: int, val: u64)
    requires
        0 <= off,
        off + 8 <= mem.len(),
    ensures
        le64(spec_store64(mem, off, val), off) == val,
{
    vstd::bytes::lemma_auto_spec_u64_to_from_le_bytes();
    assert(spec_store64(mem, off, val).subrange(off, off + 8)
        =~= vstd::bytes::spec_u64_to_le_bytes(val));
}

/// An eight-byte store leaves every disjoint eight-byte window unchanged.
proof fn lemma_store64_preserves(mem: Seq<u8>, off: int, val: u64, lo: int)
    requires
        0 <= lo,
        lo + 8 <= mem.len(),
        lo + 8 <= off || off + 8 <= lo,
    ensures
        le64(spec_store64(mem, off, val), lo) == le64(mem, lo),
{
    vstd::bytes::lemma_auto_spec_u64_to_from_le_bytes();
    if 0 <= off && off + 8 <= mem.len() {
        assert(spec_store64(mem, off, val).subrange(lo, lo + 8)
            =~= mem.subrange(lo, lo + 8));
    }
}

/// Once relocation `i` is applied, the stores of the later, disjoint
/// relocations up to `k` leave its target's eight bytes unchanged.
proof fn lemma_applied_target_stable(
    mem: Seq<u8>,
    s: Seq<u8>,
    sy: Syms,
    hull_start: u64,
    base: u64,
    relas: Seq<Rela>,
    i: int,
    k: int,
)
    requires
        0 <= i < k <= relas.len(),
        spec_rela_ok(s, sy, hull_start, mem.len(), relas[i]),
        forall|j: int| i < j < k
            ==> (#[trigger] relas[j]).offset - hull_start + 8 <= relas[i].offset - hull_start
                || relas[i].offset - hull_start + 8 <= relas[j].offset - hull_start,
    ensures
        le64(spec_apply_relas(mem, s, sy, hull_start, base, relas, k),
            relas[i].offset - hull_start)
            == spec_apply_value(s, sy, base, relas[i]),
    decreases k - i,
{
    lemma_apply_len(mem, s, sy, hull_start, base, relas, i);
    let ti = relas[i].offset - hull_start;
    if k == i + 1 {
        lemma_store64_reads(
            spec_apply_relas(mem, s, sy, hull_start, base, relas, i),
            ti,
            spec_apply_value(s, sy, base, relas[i]));
    } else {
        lemma_applied_target_stable(mem, s, sy, hull_start, base, relas, i, k - 1);
        lemma_apply_len(mem, s, sy, hull_start, base, relas, k - 1);
        lemma_store64_preserves(
            spec_apply_relas(mem, s, sy, hull_start, base, relas, k - 1),
            relas[k - 1].offset - hull_start,
            spec_apply_value(s, sy, base, relas[k - 1]),
            ti);
    }
}

/// After a relocation list with pairwise-disjoint targets is fully
/// applied, every target's eight bytes hold the wrapped sum of the base
/// offset, the referenced symbol's value and the addend; a `Relative`
/// record whose referenced symbol has value zero thus holds the base
/// offset plus its addend.
pub proof fn lemma_relocation_values(
    mem: Seq<u8>,
    s: Seq<u8>,
    sy: Syms,
    hull_start: u64,
    base: u64,
    relas: Seq<Rela>,
    i: int,
)
    requires
        0 <= i < relas.len(),
        spec_rela_ok(s, sy, hull_start, mem.len(), relas[i]),
        forall|j: int| i < j < relas.len()
            ==> (#[trigger] relas[j]).offset - hull_start + 8 <= relas[i].offset - hull_start
                || relas[i].offset - hull_start + 8 <= relas[j].offset - hull_start,
    ensures
        le64(spec_apply_relas(mem, s, sy, hull_start, base, relas, relas.len() as int),
            relas[i].offset - hull_start)
            == spec_rela_value(base, sy.spec_nth(s, relas[i].sym as int).value, relas[i].addend),
        (relas[i].typ is Relative && sy.spec_nth(s, relas[i].sym as int).value == 0
            && base + relas[i].addend <= u64::MAX)
            ==> le64(spec_apply_relas(mem, s, sy, hull_start, base, relas, relas.len() as int),
                relas[i].offset - hull_start) == base + relas[i].addend,
{
    lemma_applied_target_stable(mem, s, sy, hull_start, base, relas, i, relas.len() as int);
}

} // verus!
