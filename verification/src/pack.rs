//! The packer: relinks the prebuilt loader stub with a guest executable
//! into one output ELF file.
//!
//! The output is `[header][program headers][stub code][compressed
//! guest][manifest][end marker]`: the stub's LOAD segments shifted to the
//! chosen base address, one padding segment reserving the guest's own
//! address space, a non-executable stack header, then the page-aligned
//! compressed payload and the trailer records that locate it.

use vstd::prelude::*;
use core::ops::Range;
use crate::align::{align_hull, spec_ceil};
use crate::error::PixieError;
use crate::format::header::{
    ObjectHeader, ElfClass, Endianness, OsAbi, ElfMachine, ElfType,
    spec_header, spec_magic_ok, lemma_header_prefix,
};
use crate::format::program_header::{
    ProgramHeader, SegmentType, spec_program_header, lemma_ph_prefix,
};
use crate::le::le64;
use crate::lz4::{compress, lz4_block_of};
use crate::manifest::{Manifest, EndMarker, Resource, spec_end_marker_ok};
use crate::mapped::{MappedObject, spec_dyn_entries_of};
use crate::object::{
    Object, Segment, is_load, spec_segs, spec_has_load, spec_hull_start, spec_hull_end,
    spec_object_ok, spec_filter_loads, lemma_filter_loads_member,
};
use crate::syms::spec_syms_of;
use crate::writer::Writer;

verus! {

/// The name of the loader stub's exported entry symbol.
pub open spec fn entry_name() -> Seq<u8> {
    seq![101u8, 110u8, 116u8, 114u8, 121u8]
}

/// The base address the packed stub is linked at: the guest's own hull
/// start for a fixed-position guest, a fixed nonzero address for a
/// position-independent one.
pub open spec fn spec_base_offset(guest_hull_start: u64) -> u64 {
    if guest_hull_start == 0 {
        0x800000
    } else {
        guest_hull_start
    }
}

/// True when the stub's image can be mapped and relocated without any
/// fault.
pub open spec fn spec_stub_mappable(stub: Seq<u8>) -> bool {
    let segs = spec_segs(stub);
    let entries = crate::mapped::spec_dyn_entries(segs, stub);
    let sy = spec_syms_of(entries);
    let relas = crate::mapped::spec_relas_list(stub, entries);
    &&& spec_hull_end(segs) <= usize::MAX
    &&& crate::mapped::spec_relocate_blocker(segs, stub) is None
    &&& (forall|i: int| 0 <= i < relas.len()
        ==> (#[trigger] relas[i]).typ.spec_supported()
            && crate::mapped::spec_rela_ok(stub, sy, 0, spec_hull_end(segs) as nat, relas[i]))
}

/// True when the stub's image can be mapped, relocated and its entry
/// symbol resolved without any fault.
pub open spec fn spec_stub_resolvable(stub: Seq<u8>) -> bool {
    let segs = spec_segs(stub);
    let sy = spec_syms_of(crate::mapped::spec_dyn_entries(segs, stub));
    &&& spec_stub_mappable(stub)
    &&& (exists|n: int| 0 <= n && #[trigger] sy.spec_matches(stub, n, entry_name()))
}

/// True when relinking the stub against a guest hull `gh` cannot fail:
/// the stub is a well-formed relocatable object whose entry symbol
/// resolves, and every address computation fits.
pub open spec fn spec_relink_ok(stub: Seq<u8>, gh: Range<u64>) -> bool {
    let segs = spec_segs(stub);
    let loads = spec_filter_loads(segs);
    let base = spec_base_offset(gh.start);
    let sy = spec_syms_of(crate::mapped::spec_dyn_entries(segs, stub));
    &&& spec_object_ok(stub)
    &&& spec_has_load(segs)
    &&& spec_hull_start(segs) == 0
    &&& stub.len() <= usize::MAX - 0x2000
    &&& (gh.start == 0 ==> gh.end <= u64::MAX - 0x800000)
    &&& spec_stub_resolvable(stub)
    &&& (forall|n: int|
        (0 <= n && #[trigger] sy.spec_matches(stub, n, entry_name())
            && (forall|m: int| 0 <= m < n ==> !(#[trigger] sy.spec_matches(stub, m,
                entry_name()))))
        ==> sy.spec_nth(stub, n).value <= u64::MAX - base)
    &&& loads.len() <= 0xFFFD
    &&& spec_hull_end(segs) + base <= u64::MAX - 0xFFF
    &&& (if gh.start == 0 { gh.end + 0x800000 } else { gh.end as int }) <= u64::MAX - 0xFFF
    &&& (forall|k: int| 0 <= k < loads.len()
        ==> (#[trigger] loads[k]).header.vaddr + base <= u64::MAX
            && loads[k].header.paddr + base <= u64::MAX)
}

/// True when packing cannot fail: the guest parses with a load hull, the
/// stub relinks against it, and the output fits in memory.
pub open spec fn spec_pack_ok(guest: Seq<u8>, stub: Seq<u8>) -> bool {
    let gsegs = spec_segs(guest);
    &&& spec_object_ok(guest)
    &&& spec_has_load(gsegs)
    &&& guest.len() <= 0xFFFF_FFFF
    &&& spec_relink_ok(stub, Range {
        start: spec_hull_start(gsegs),
        end: spec_hull_end(gsegs) as u64,
    })
    &&& lz4_block_of(guest).len() + stub.len() + 0x703000 <= usize::MAX
}

/// True when no two distinct LOAD segments' file ranges overlap.
pub open spec fn spec_loads_disjoint(loads: Seq<Segment>) -> bool {
    forall|k1: int, k2: int|
        0 <= k1 < loads.len() && 0 <= k2 < loads.len() && k1 != k2
        ==> (#[trigger] loads[k1]).header.offset + loads[k1].header.file_size
                <= (#[trigger] loads[k2]).header.offset
            || loads[k2].header.offset + loads[k2].header.file_size
                <= loads[k1].header.offset
}

/// When `seg` is a LOAD segment with file bytes past the program-header
/// table whose memory window lies inside the image, the output holds the
/// image's bytes for it at its own file offset.
pub open spec fn spec_copied_load(
    out: Seq<u8>,
    seg: Segment,
    image: Seq<u8>,
    copy_start: int,
    hull_end: int,
) -> bool {
    (seg.header.offset > copy_start && seg.header.file_size > 0
        && seg.header.vaddr + seg.header.file_size <= hull_end)
    ==> seg.header.offset + seg.header.file_size <= out.len()
        && out.subrange(seg.header.offset as int,
            seg.header.offset + seg.header.file_size)
            == image.subrange(seg.header.vaddr as int,
                seg.header.vaddr + seg.header.file_size)
}

/// Every qualifying LOAD segment's relocated bytes stand in the output at
/// its file offset.
pub open spec fn spec_segments_copied(
    out: Seq<u8>,
    loads: Seq<Segment>,
    image: Seq<u8>,
    copy_start: int,
    hull_end: int,
) -> bool {
    forall|k: int| 0 <= k < loads.len()
        ==> spec_copied_load(out, #[trigger] loads[k], image, copy_start, hull_end)
}

/// Every output byte from the end of the program-header table on that no
/// copied segment's file range covers is zero.
pub open spec fn spec_gap_zeroed(
    out: Seq<u8>,
    loads: Seq<Segment>,
    copy_start: int,
    hull_end: int,
) -> bool {
    forall|p: int|
        copy_start <= p < out.len()
        && (forall|k: int| 0 <= k < loads.len()
            ==> !((#[trigger] loads[k]).header.offset > copy_start
                && loads[k].header.file_size > 0
                && loads[k].header.vaddr + loads[k].header.file_size <= hull_end
                && loads[k].header.offset <= p
                && p < loads[k].header.offset + loads[k].header.file_size))
        ==> #[trigger] out[p] == 0
}

/// True when `out` begins with a packed file's header and program
/// headers: a 64-bit little-endian executable header with the given
/// entry point, one program header per given LOAD segment shifted to the
/// base address, one padding LOAD segment of the given size, and one
/// non-executable `GNU_STACK` header.
pub open spec fn spec_image_layout(
    out: Seq<u8>,
    loads: Seq<Segment>,
    base: u64,
    entry_point: u64,
    cur_end: u64,
    pad_size: u64,
) -> bool {
    let n = loads.len() as int;
    let h = spec_header(out);
    &&& out.len() >= 64 + 56 * (n + 2)
    &&& spec_magic_ok(out)
    &&& h.class is Elf64
    &&& h.endianness is Little
    &&& h.version == 1
    &&& h.os_abi is SysV
    &&& h.typ is Exec
    &&& h.machine is X86_64
    &&& h.version_bis == 1
    &&& h.entry_point == entry_point
    &&& h.ph_offset == 64
    &&& h.ph_entsize == 56
    &&& h.hdr_size == 64
    &&& h.ph_count == n + 2
    &&& h.sh_count == 0
    &&& (forall|i: int| 0 <= i < n
        ==> #[trigger] spec_program_header(out, 64 + 56 * i) == (ProgramHeader {
            vaddr: (loads[i].header.vaddr + base) as u64,
            paddr: (loads[i].header.paddr + base) as u64,
            ..loads[i].header
        }))
    &&& spec_program_header(out, 64 + 56 * n) == (ProgramHeader {
        typ: SegmentType::Load,
        flags: 6,
        offset: 0,
        vaddr: cur_end,
        paddr: cur_end,
        file_size: 0,
        mem_size: pad_size,
        align: 0x1000,
    })
    &&& spec_program_header(out, 64 + 56 * (n + 1)) == (ProgramHeader {
        typ: SegmentType::GnuStack,
        flags: 6,
        offset: 0,
        vaddr: 0,
        paddr: 0,
        file_size: 0,
        mem_size: 0,
        align: 0x10,
    })
}

/// True when `out` begins with the packed file's header and program
/// headers for stub bytes `stub` and a guest hull `gh`: the stub's LOAD
/// program headers shifted to the chosen base address, a padding LOAD
/// segment reserving address space up to the guest's aligned hull end,
/// and an entry point resolved through the stub's own symbol table.
pub open spec fn spec_relinked_layout(out: Seq<u8>, stub: Seq<u8>, gh: Range<u64>) -> bool {
    let loads = spec_filter_loads(spec_segs(stub));
    let base = spec_base_offset(gh.start);
    let ag_end = if gh.start == 0 { gh.end + base } else { gh.end as int };
    let cur_end = spec_ceil((spec_hull_end(spec_segs(stub)) + base) as u64);
    let des_end = spec_ceil(ag_end as u64);
    let pad_size = if cur_end > des_end { 0 } else { des_end - cur_end };
    &&& spec_image_layout(out, loads, base, spec_header(out).entry_point,
        cur_end as u64, pad_size as u64)
    &&& (exists|entries: Seq<crate::object::DynamicEntry>, k: int|
        {
            &&& #[trigger] spec_dyn_entries_of(spec_segs(stub), stub, entries)
            &&& 0 <= k
            &&& #[trigger] spec_syms_of(entries).spec_matches(stub, k, entry_name())
            &&& (forall|m: int| 0 <= m < k
                ==> !(#[trigger] spec_syms_of(entries).spec_matches(stub, m, entry_name())))
            &&& spec_header(out).entry_point == base + spec_syms_of(entries).spec_nth(stub, k).value
        })
}

/// A relinked prefix keeps its layout when bytes are appended after it.
pub proof fn lemma_relinked_prefix(s1: Seq<u8>, s2: Seq<u8>, stub: Seq<u8>, gh: Range<u64>)
    requires
        spec_relinked_layout(s1, stub, gh),
        s1.len() <= s2.len(),
        s2.subrange(0, s1.len() as int) == s1,
    ensures
        spec_relinked_layout(s2, stub, gh),
{
    let loads = spec_filter_loads(spec_segs(stub));
    let n = loads.len() as int;
    lemma_header_prefix(s1, s2);
    assert forall|k: int| 0 <= k < n + 2
        implies #[trigger] spec_program_header(s2, 64 + 56 * k)
            == spec_program_header(s1, 64 + 56 * k) by {
        assert(64 + 56 * k + 56 <= s1.len()) by {
            assert(56 * k + 56 <= 56 * (n + 2)) by (nonlinear_arith)
                requires k + 1 <= n + 2;
        }
        lemma_ph_prefix(s1, s2, 64 + 56 * k);
    }
}

/// Map the relocatable stub and relocate it as if placed at
/// `base_offset`. Address computation only: none of the stub's code runs.
#[verifier::rlimit(100)]
#[verifier::spinoff_prover]
fn map_relocated_stub(stub_obj: &Object, stub: &[u8], base_offset: u64) -> (r: Result<
    MappedObject,
    PixieError,
>)
    requires
        stub_obj.wf(stub@),
        stub_obj.segments.segments@ == spec_segs(stub@),
        spec_hull_start(stub_obj.segments.segments@) == 0,
        spec_has_load(stub_obj.segments.segments@),
    ensures
        r is Ok ==> ({
            let m = r->Ok_0;
            &&& m.wf()
            &&& m.hull_start == 0
            &&& m.hull_end == spec_hull_end(stub_obj.segments.segments@)
            &&& m.mem@ == crate::mapped::spec_relocated_image(stub@, base_offset)
        }),
        r is Err ==> !spec_stub_mappable(stub@),
{
    let ghost segs = stub_obj.segments.segments@;
    let mut mapped = match MappedObject::new(stub_obj, stub, None) {
        Ok(m) => m,
        Err(e) => {
            proof {
                assert(spec_hull_end(segs) > usize::MAX);
            }
            return Err(e);
        },
    };
    let ghost mem0 = mapped.mem@;
    match mapped.relocate(stub_obj, stub, base_offset) {
        Ok(()) => (),
        Err(e) => {
            proof {
                assert(!spec_stub_mappable(stub@)) by {
                    if spec_stub_mappable(stub@) {
                        assert(mem0.len() == spec_hull_end(segs) as nat);
                        assert(mem0 == crate::mapped::spec_fresh_image(stub@));
                        let entries = crate::mapped::spec_dyn_entries(segs, stub@);
                        let sy = spec_syms_of(entries);
                        let rl = crate::mapped::spec_relas_list(stub@, entries);
                        assert forall|i: int| 0 <= i < rl.len()
                            implies (#[trigger] rl[i]).typ.spec_supported()
                                && crate::mapped::spec_rela_ok(stub@, sy, 0, mem0.len(),
                                    rl[i]) by {
                            assert(rl[i].typ.spec_supported()
                                && crate::mapped::spec_rela_ok(stub@, sy, 0,
                                    spec_hull_end(segs) as nat, rl[i]));
                        }
                        crate::mapped::lemma_relocate_ok_forced(segs, stub@, mem0, 0,
                            base_offset, Err::<(), PixieError>(e), mapped.mem@);
                    }
                }
            }
            return Err(e);
        },
    }
    proof {
        assert(mem0 == crate::mapped::spec_fresh_image(stub@));
        assert(mapped.mem@ == crate::mapped::spec_relocated_image(stub@, base_offset));
    }
    Ok(mapped)
}

/// Map the relocatable stub, relocate it as if placed at `base_offset`,
/// and resolve its exported entry symbol. Address computation only: none
/// of the stub's code runs.
#[verifier::rlimit(100)]
#[verifier::spinoff_prover]
fn resolve_stub_entry(stub_obj: &Object, stub: &[u8], base_offset: u64) -> (r: Result<
    (crate::format::sym::Sym, MappedObject),
    PixieError,
>)
    requires
        stub_obj.wf(stub@),
        stub_obj.segments.segments@ == spec_segs(stub@),
        spec_hull_start(stub_obj.segments.segments@) == 0,
        spec_has_load(stub_obj.segments.segments@),
    ensures
        r is Ok ==> ({
            let (sym, m) = r->Ok_0;
            let sy = spec_syms_of(crate::mapped::spec_dyn_entries(
                stub_obj.segments.segments@, stub@));
            &&& m.wf()
            &&& m.hull_start == 0
            &&& m.hull_end == spec_hull_end(stub_obj.segments.segments@)
            &&& m.mem@ == crate::mapped::spec_relocated_image(stub@, base_offset)
            &&& crate::mapped::spec_has_dyn_entries(stub_obj.segments.segments@, stub@)
            &&& (exists|k: int|
                {
                    &&& 0 <= k
                    &&& #[trigger] sy.spec_matches(stub@, k, entry_name())
                    &&& (forall|m2: int| 0 <= m2 < k
                        ==> !(#[trigger] sy.spec_matches(stub@, m2, entry_name())))
                    &&& sym == sy.spec_nth(stub@, k)
                })
        }),
        r is Err ==> !spec_stub_resolvable(stub@),
{
    let ghost segs = stub_obj.segments.segments@;
    let mapped = match map_relocated_stub(stub_obj, stub, base_offset) {
        Ok(m) => m,
        Err(e) => {
            return Err(e);
        },
    };
    let mut name: Vec<u8> = Vec::new();
    name.push(101);
    name.push(110);
    name.push(116);
    name.push(114);
    name.push(121);
    proof {
        assert(name@ =~= entry_name());
    }
    let entry_sym = match mapped.lookup_sym(stub_obj, stub, name.as_slice()) {
        Ok(s) => s,
        Err(e) => {
            proof {
                assert(!spec_stub_resolvable(stub@)) by {
                    if spec_stub_resolvable(stub@) {
                        // The tables are usable, so the dynamic entries
                        // and symbol triple exist; only a missing name is
                        // left, which the resolvable condition excludes.
                        crate::mapped::lemma_blocker_none_has(segs, stub@);
                        assert(false);
                    }
                }
            }
            return Err(e);
        },
    };
    Ok((entry_sym, mapped))
}

/// An image whose parameters agree with the guest hull's derived values,
/// and whose entry point came out of the stub's own symbol table, is a
/// relinked layout.
proof fn lemma_assemble_relinked(
    out: Seq<u8>,
    stub: Seq<u8>,
    gh: Range<u64>,
    base: u64,
    entry_point: u64,
    cur_end: u64,
    pad_size: u64,
)
    requires
        spec_image_layout(out, spec_filter_loads(spec_segs(stub)), base,
            entry_point, cur_end, pad_size),
        base == spec_base_offset(gh.start),
        cur_end == spec_ceil((spec_hull_end(spec_segs(stub)) + base) as u64),
        ({
            let ag_end = if gh.start == 0 { gh.end + base } else { gh.end as int };
            let des_end = spec_ceil(ag_end as u64);
            pad_size == if cur_end > des_end { 0int } else { des_end - cur_end }
        }),
        crate::mapped::spec_has_dyn_entries(spec_segs(stub), stub),
        (exists|k: int|
            {
                &&& 0 <= k
                &&& #[trigger] spec_syms_of(crate::mapped::spec_dyn_entries(spec_segs(stub),
                    stub)).spec_matches(stub, k, entry_name())
                &&& (forall|m: int| 0 <= m < k
                    ==> !(#[trigger] spec_syms_of(crate::mapped::spec_dyn_entries(
                        spec_segs(stub), stub)).spec_matches(stub, m, entry_name())))
                &&& entry_point == base + spec_syms_of(crate::mapped::spec_dyn_entries(
                    spec_segs(stub), stub)).spec_nth(stub, k).value
            }),
    ensures
        spec_relinked_layout(out, stub, gh),
{
    assert(spec_header(out).entry_point == entry_point);
    let segs = spec_segs(stub);
    let entries = crate::mapped::spec_dyn_entries(segs, stub);
    let sy = spec_syms_of(entries);
    assert(spec_dyn_entries_of(segs, stub, entries)) by {
        reveal(crate::mapped::spec_dyn_entries);
    }
    let k0 = choose|k: int|
        {
            &&& 0 <= k
            &&& #[trigger] sy.spec_matches(stub, k, entry_name())
            &&& (forall|m: int| 0 <= m < k
                ==> !(#[trigger] sy.spec_matches(stub, m, entry_name())))
            &&& entry_point == base + sy.spec_nth(stub, k).value
        };
    assert(spec_dyn_entries_of(segs, stub, entries)
        && sy.spec_matches(stub, k0, entry_name()));
}

/// Parse the stub, check that it is relocatable, and collect its LOAD
/// segments and hull end.
fn prepare_stub(stub: &[u8]) -> (r: Result<(Object, u64, Vec<Segment>), PixieError>)
    ensures
        r is Ok ==> ({
            let (obj, hull_end, loads) = r->Ok_0;
            &&& obj.wf(stub@)
            &&& obj.segments.segments@ == spec_segs(stub@)
            &&& spec_hull_start(spec_segs(stub@)) == 0
            &&& spec_has_load(spec_segs(stub@))
            &&& hull_end == spec_hull_end(spec_segs(stub@))
            &&& loads@ == spec_filter_loads(spec_segs(stub@))
            &&& (forall|k: int| 0 <= k < loads@.len()
                ==> (#[trigger] loads@[k]).wf(stub@.len()) && is_load(loads@[k]))
            &&& stub@.len() <= usize::MAX - 0x2000
        }),
        r is Err ==> !(spec_object_ok(stub@)
            && spec_has_load(spec_segs(stub@))
            && spec_hull_start(spec_segs(stub@)) == 0
            && stub@.len() <= usize::MAX - 0x2000),
{
    let stub_obj = match Object::new(stub) {
        Ok(o) => o,
        Err(e) => {
            return Err(e);
        },
    };
    let stub_hull = match stub_obj.segments().load_convex_hull() {
        Ok(h) => h,
        Err(e) => {
            return Err(e);
        },
    };
    // The stub must be relocatable: its hull must start at address zero.
    if stub_hull.start != 0 {
        return Err(PixieError::CannotRelocateNonRelocatableObject);
    }
    if stub.len() > usize::MAX - 0x2000 {
        return Err(PixieError::OutputTooLarge);
    }
    let loads = stub_obj.segments().load_segments();
    proof {
        let segs = stub_obj.segments.segments@;
        assert forall|k: int| 0 <= k < loads@.len()
            implies (#[trigger] loads@[k]).wf(stub@.len()) && is_load(loads@[k]) by {
            lemma_filter_loads_member(segs, k);
            let w = choose|w: int| 0 <= w < segs.len()
                && segs[w] == spec_filter_loads(segs)[k];
            assert(segs[w].wf(stub@.len()));
        }
    }
    Ok((stub_obj, stub_hull.end, loads))
}

/// True when every segment's shifted addresses stay inside the 64-bit
/// address space.
fn shifts_fit(load_segs: &Vec<Segment>, base_offset: u64) -> (r: bool)
    ensures
        r == (forall|k: int| 0 <= k < load_segs@.len()
            ==> (#[trigger] load_segs@[k]).header.vaddr + base_offset <= u64::MAX
                && load_segs@[k].header.paddr + base_offset <= u64::MAX),
{
    let nloads = load_segs.len();
    let mut ci: usize = 0;
    while ci < nloads
        invariant
            0 <= ci <= nloads,
            nloads == load_segs@.len(),
            forall|k: int| 0 <= k < ci
                ==> (#[trigger] load_segs@[k]).header.vaddr + base_offset <= u64::MAX
                    && load_segs@[k].header.paddr + base_offset <= u64::MAX,
        decreases nloads - ci,
    {
        let seg = &load_segs[ci];
        if seg.header.vaddr > u64::MAX - base_offset || seg.header.paddr > u64::MAX - base_offset {
            return false;
        }
        ci += 1;
    }
    true
}

/// Relink the loader stub against a guest whose load convex hull is
/// `guest_hull`: write the synthesized header, the shifted program
/// headers, and the stub's relocated code, page-aligned, into `writer`.
///
/// The stub is mapped and relocated at the base address purely to compute
/// addresses; none of its code runs.
#[verifier::rlimit(100)]
#[verifier::spinoff_prover]
pub fn relink_stage1(stub: &[u8], guest_hull: Range<u64>, writer: &mut Writer) -> (r: Result<
    (),
    PixieError,
>)
    requires
        old(writer).buf@.len() == 0,
    ensures
        r is Ok ==> spec_relinked_layout(final(writer).buf@, stub@, guest_hull)
            && final(writer).buf@.len() as int % 0x1000 == 0
            && final(writer).buf@.len() <= 0x700000 + stub@.len(),
        r is Ok && spec_loads_disjoint(spec_filter_loads(spec_segs(stub@)))
            ==> spec_segments_copied(
                final(writer).buf@,
                spec_filter_loads(spec_segs(stub@)),
                crate::mapped::spec_relocated_image(stub@, spec_base_offset(guest_hull.start)),
                64 + 56 * (spec_filter_loads(spec_segs(stub@)).len() as int + 2),
                spec_hull_end(spec_segs(stub@))),
        r is Ok ==> spec_gap_zeroed(
            final(writer).buf@,
            spec_filter_loads(spec_segs(stub@)),
            64 + 56 * (spec_filter_loads(spec_segs(stub@)).len() as int + 2),
            spec_hull_end(spec_segs(stub@))),
        r is Err ==> final(writer).buf@ == old(writer).buf@,
        spec_relink_ok(stub@, guest_hull) ==> r is Ok,
{
    let ghost gh = guest_hull;
    let (stub_obj, stub_hull_end, load_segs) = match prepare_stub(stub) {
        Ok(x) => x,
        Err(e) => {
            return Err(e);
        },
    };

    // Pick a base offset. A relocatable guest is given a fixed nonzero
    // base; a fixed-position guest keeps its own.
    let base_offset: u64 = if guest_hull.start == 0 {
        0x800000
    } else {
        guest_hull.start
    };
    let ag_end: u64 = if guest_hull.start == 0 {
        if guest_hull.end > u64::MAX - 0x800000 {
            return Err(PixieError::ProgramHeaderOutOfBounds);
        }
        guest_hull.end + 0x800000
    } else {
        guest_hull.end
    };

    // Map the stub anywhere, then relocate it as if it stood at the base
    // offset, and resolve its exported entry symbol.
    let (entry_sym, mapped) = match resolve_stub_entry(&stub_obj, stub, base_offset) {
        Ok(x) => x,
        Err(e) => {
            return Err(e);
        },
    };
    if entry_sym.value > u64::MAX - base_offset {
        proof {
            if spec_relink_ok(stub@, gh) {
                let segs = stub_obj.segments.segments@;
                let sy = spec_syms_of(crate::mapped::spec_dyn_entries(segs, stub@));
                let k0 = choose|k: int|
                    {
                        &&& 0 <= k
                        &&& #[trigger] sy.spec_matches(stub@, k, entry_name())
                        &&& (forall|m2: int| 0 <= m2 < k
                            ==> !(#[trigger] sy.spec_matches(stub@, m2, entry_name())))
                        &&& entry_sym == sy.spec_nth(stub@, k)
                    };
                assert(sy.spec_nth(stub@, k0).value <= u64::MAX - base_offset);
                assert(false);
            }
        }
        return Err(PixieError::ProgramHeaderOutOfBounds);
    }
    let entry_point = base_offset + entry_sym.value;

    let nloads = load_segs.len();
    if nloads > 0xFFFF - 2 {
        return Err(PixieError::ProgramHeaderOutOfBounds);
    }

    // The shifted stub hull and the guest's desired hull, both aligned.
    if stub_hull_end > u64::MAX - base_offset {
        return Err(PixieError::ProgramHeaderOutOfBounds);
    }
    let shifted_end = stub_hull_end + base_offset;
    if shifted_end > u64::MAX - 0xFFF || ag_end > u64::MAX - 0xFFF {
        return Err(PixieError::ProgramHeaderOutOfBounds);
    }
    let current_hull = align_hull(Range { start: base_offset, end: shifted_end });
    let desired_hull = align_hull(Range { start: base_offset, end: ag_end });
    let pad_size: u64 = if current_hull.end > desired_hull.end {
        // The stub's footprint already exceeds the guest's hull: reserve
        // nothing and let the heap start early.
        0
    } else {
        desired_hull.end - current_hull.end
    };

    // Check every shifted program header before writing anything.
    if !shifts_fit(&load_segs, base_offset) {
        return Err(PixieError::ProgramHeaderOutOfBounds);
    }

    // Write the header, the program headers, and the stub's relocated
    // code.
    let ghost loads_view = load_segs@;
    emit_image(stub, writer, &mapped, load_segs, base_offset, entry_point,
        current_hull.end, pad_size);

    proof {
        let out = writer.buf@;
        lemma_assemble_relinked(out, stub@, gh, base_offset, entry_point,
            current_hull.end, pad_size);
    }
    Ok(())
}

/// Write the synthesized header, one shifted program header per LOAD
/// segment, the padding and `GNU_STACK` headers, and then the segments'
/// relocated bytes in file-offset order with zero-padded gaps, ending on
/// a page boundary.
#[verifier::rlimit(100)]
#[verifier::spinoff_prover]
fn emit_image(
    stub: &[u8],
    writer: &mut Writer,
    mapped: &MappedObject,
    load_segs: Vec<Segment>,
    base_offset: u64,
    entry_point: u64,
    cur_end: u64,
    pad_size: u64,
)
    requires
        old(writer).buf@.len() == 0,
        load_segs@.len() <= 0xFFFD,
        stub@.len() <= usize::MAX - 0x2000,
        mapped.wf(),
        mapped.hull_start == 0,
        forall|k: int| 0 <= k < load_segs@.len() ==> (#[trigger] load_segs@[k]).wf(stub@.len()),
        forall|k: int| 0 <= k < load_segs@.len() ==> is_load(#[trigger] load_segs@[k]),
        forall|k: int| 0 <= k < load_segs@.len()
            ==> (#[trigger] load_segs@[k]).header.vaddr + base_offset <= u64::MAX
                && load_segs@[k].header.paddr + base_offset <= u64::MAX,
    ensures
        spec_image_layout(final(writer).buf@, load_segs@, base_offset, entry_point,
            cur_end, pad_size),
        final(writer).buf@.len() as int % 0x1000 == 0,
        final(writer).buf@.len() <= 0x700000 + stub@.len(),
        spec_loads_disjoint(load_segs@) ==> spec_segments_copied(
            final(writer).buf@, load_segs@, mapped.mem@,
            64 + 56 * (load_segs@.len() as int + 2), mapped.hull_end as int),
        spec_gap_zeroed(final(writer).buf@, load_segs@,
            64 + 56 * (load_segs@.len() as int + 2), mapped.hull_end as int),
{
    let nloads = load_segs.len();
    let out_header = ObjectHeader {
        class: ElfClass::Elf64,
        endianness: Endianness::Little,
        version: 1,
        os_abi: OsAbi::SysV,
        typ: ElfType::Exec,
        machine: ElfMachine::X86_64,
        version_bis: 1,
        entry_point,
        flags: 0,
        hdr_size: ObjectHeader::SIZE,
        // Two additional segments: one to place the heap start, and
        // GNU_STACK.
        ph_count: nloads as u16 + 2,
        ph_offset: ObjectHeader::SIZE as u64,
        ph_entsize: ProgramHeader::SIZE,
        // No sections: the output is opaque to debuggers.
        sh_count: 0,
        sh_entsize: 0,
        sh_nidx: 0,
        sh_offset: 0,
    };
    out_header.write_to(&mut writer.buf);
    let ghost hdr_canon = spec_header(writer.buf@);
    proof {
        assert(writer.buf@.len() == 64);
        assert(writer.buf@.skip(0) =~= writer.buf@);
        assert(hdr_canon.entry_point == entry_point);
        assert(hdr_canon.ph_count == nloads + 2);
    }
    // One program header per stub LOAD segment, shifted to the base.
    let mut i: usize = 0;
    while i < nloads
        invariant
            0 <= i <= nloads,
            nloads == load_segs@.len(),
            nloads <= 0xFFFF,
            writer.buf@.len() == 64 + 56 * i,
            spec_header(writer.buf@) == hdr_canon,
            spec_magic_ok(writer.buf@),
            forall|k: int| 0 <= k < nloads
                ==> (#[trigger] load_segs@[k]).header.vaddr + base_offset <= u64::MAX
                    && load_segs@[k].header.paddr + base_offset <= u64::MAX,
            (forall|k: int| 0 <= k < i
                ==> #[trigger] spec_program_header(writer.buf@, 64 + 56 * k) == (ProgramHeader {
                    vaddr: (load_segs@[k].header.vaddr + base_offset) as u64,
                    paddr: (load_segs@[k].header.paddr + base_offset) as u64,
                    ..load_segs@[k].header
                })),
            forall|k: int| 0 <= k < nloads ==> is_load(#[trigger] load_segs@[k]),
        decreases nloads - i,
    {
        let ghost pre = writer.buf@;
        let seg = &load_segs[i];
        let ph = ProgramHeader {
            vaddr: seg.header.vaddr + base_offset,
            paddr: seg.header.paddr + base_offset,
            ..seg.header.clone()
        };
        ph.write_to(&mut writer.buf);
        proof {
            assert(writer.buf@.subrange(0, pre.len() as int) == pre);
            lemma_header_prefix(pre, writer.buf@);
            assert forall|k: int| 0 <= k < i
                implies #[trigger] spec_program_header(writer.buf@, 64 + 56 * k) == (ProgramHeader {
                    vaddr: (load_segs@[k].header.vaddr + base_offset) as u64,
                    paddr: (load_segs@[k].header.paddr + base_offset) as u64,
                    ..load_segs@[k].header
                }) by {
                lemma_ph_prefix(pre, writer.buf@, 64 + 56 * k);
            }
            assert(seg.header.typ is Load);
            assert(SegmentType::spec_of(seg.header.typ.spec_code()) == seg.header.typ);
            assert(spec_program_header(writer.buf@, 64 + 56 * (i as int)) == (ProgramHeader {
                vaddr: (load_segs@[i as int].header.vaddr + base_offset) as u64,
                paddr: (load_segs@[i as int].header.paddr + base_offset) as u64,
                ..load_segs@[i as int].header
            }));
        }
        i += 1;
    }

    // The padding LOAD segment: zero file size, reserving address space
    // from the stub's aligned hull end up to the guest's.
    let ghost before_pad_ph = writer.buf@;
    let pad_ph = ProgramHeader {
        typ: SegmentType::Load,
        // Readable and writable, like any data segment.
        flags: 6,
        offset: 0,
        vaddr: cur_end,
        paddr: cur_end,
        file_size: 0,
        mem_size: pad_size,
        align: 0x1000,
    };
    pad_ph.write_to(&mut writer.buf);
    proof {
        assert(writer.buf@.subrange(0, before_pad_ph.len() as int) == before_pad_ph);
        lemma_header_prefix(before_pad_ph, writer.buf@);
        assert forall|k: int| 0 <= k < nloads
            implies #[trigger] spec_program_header(writer.buf@, 64 + 56 * k) == (ProgramHeader {
                vaddr: (load_segs@[k].header.vaddr + base_offset) as u64,
                paddr: (load_segs@[k].header.paddr + base_offset) as u64,
                ..load_segs@[k].header
            }) by {
            lemma_ph_prefix(before_pad_ph, writer.buf@, 64 + 56 * k);
        }
    }

    // The GNU_STACK program header, non-executable.
    let ghost before_stack_ph = writer.buf@;
    let stack_ph = ProgramHeader {
        typ: SegmentType::GnuStack,
        // Readable and writable, and pointedly not executable.
        flags: 6,
        offset: 0,
        vaddr: 0,
        paddr: 0,
        file_size: 0,
        mem_size: 0,
        align: 0x10,
    };
    stack_ph.write_to(&mut writer.buf);
    proof {
        assert(writer.buf@.subrange(0, before_stack_ph.len() as int) == before_stack_ph);
        lemma_header_prefix(before_stack_ph, writer.buf@);
        assert forall|k: int| 0 <= k <= nloads
            implies #[trigger] spec_program_header(writer.buf@, 64 + 56 * k)
                == spec_program_header(before_stack_ph, 64 + 56 * k) by {
            lemma_ph_prefix(before_stack_ph, writer.buf@, 64 + 56 * k);
        }
    }

    let ghost phs_done = writer.buf@;

    // Copy the stub's LOAD segments in file-offset order, zero-padding
    // the gaps between them, starting right after the program-header
    // table.
    let copy_start_offset = writer.offset();
    let ghost loads_view = load_segs@;
    let ghost hdis = spec_loads_disjoint(loads_view);
    let ghost cs = copy_start_offset as int;
    let ghost hend = mapped.hull_end as int;
    let mut rem = load_segs;
    while rem.len() > 0
        invariant
            writer.buf@.len() >= phs_done.len(),
            writer.buf@.subrange(0, phs_done.len() as int) == phs_done,
            writer.buf@.len() <= usize::MAX - 0x2000,
            (writer.buf@.len() <= 64 + 56 * (nloads + 2) || writer.buf@.len() <= stub@.len()),
            stub@.len() <= usize::MAX - 0x2000,
            nloads <= 0xFFFF,
            phs_done.len() == 64 + 56 * (nloads + 2),
            cs == phs_done.len(),
            cs == copy_start_offset,
            hend == mapped.hull_end,
            hdis == spec_loads_disjoint(loads_view),
            mapped.wf(),
            mapped.hull_start == 0,
            forall|k: int| 0 <= k < rem@.len()
                ==> (#[trigger] rem@[k]).wf(stub@.len()),
            forall|j: int| 0 <= j < rem@.len()
                ==> (exists|k: int| 0 <= k < loads_view.len()
                    && loads_view[k] == #[trigger] rem@[j]),
            spec_gap_zeroed(writer.buf@, loads_view, cs, hend),
            (hdis ==> (forall|j1: int, j2: int|
                0 <= j1 < rem@.len() && 0 <= j2 < rem@.len() && j1 != j2
                ==> (#[trigger] rem@[j1]).header.offset + rem@[j1].header.file_size
                        <= (#[trigger] rem@[j2]).header.offset
                    || rem@[j2].header.offset + rem@[j2].header.file_size
                        <= rem@[j1].header.offset)),
            (hdis ==> (forall|j: int|
                0 <= j < rem@.len()
                    && (#[trigger] rem@[j]).header.offset > cs
                    && rem@[j].header.file_size > 0
                ==> writer.buf@.len() <= rem@[j].header.offset)),
            (hdis ==> (forall|k: int|
                0 <= k < loads_view.len() && !rem@.contains(#[trigger] loads_view[k])
                ==> spec_copied_load(writer.buf@, loads_view[k], mapped.mem@, cs, hend))),
        decreases rem@.len(),
    {
        // Select the remaining segment with the smallest file offset.
        let mut min_idx: usize = 0;
        let mut j: usize = 1;
        while j < rem.len()
            invariant
                0 <= min_idx < rem@.len(),
                min_idx < j <= rem@.len(),
                forall|q: int| 0 <= q < j
                    ==> rem@[min_idx as int].header.offset
                        <= (#[trigger] rem@[q]).header.offset,
            decreases rem@.len() - j,
        {
            if rem[j].header.offset < rem[min_idx].header.offset {
                min_idx = j;
            }
            j += 1;
        }
        let ghost pre = writer.buf@;
        let ghost rem_pre = rem@;
        let seg = rem.swap_remove(min_idx);
        let cur = writer.offset();
        if seg.header.offset > copy_start_offset
            && seg.header.offset >= cur
            && seg.header.vaddr <= mapped.hull_end
            && seg.header.file_size <= mapped.hull_end - seg.header.vaddr {
            writer.pad(seg.header.offset - cur);
            let code = mapped.vaddr_slice(seg.header.vaddr, seg.header.vaddr + seg.header.file_size);
            writer.write_all(code);
            proof {
                assert(writer.buf@.subrange(0, phs_done.len() as int)
                    =~= pre.subrange(0, phs_done.len() as int));
                assert(writer.buf@.subrange(seg.header.offset as int,
                    seg.header.offset + seg.header.file_size) =~= code@);
                assert(code@ == mapped.mem@.subrange(seg.header.vaddr as int,
                    seg.header.vaddr + seg.header.file_size));
                assert(writer.buf@.len() == seg.header.offset + seg.header.file_size);
                assert(spec_copied_load(writer.buf@, seg, mapped.mem@, cs, hend));
            }
        }
        proof {
            // The removal keeps every pair of the remaining segments and
            // removes exactly one occurrence of the selected one.
            assert(rem@ == rem_pre.update(min_idx as int, rem_pre.last()).drop_last());
            assert(seg == rem_pre[min_idx as int]);
            if hdis {
                assert forall|k: int|
                    0 <= k < loads_view.len() && !rem@.contains(#[trigger] loads_view[k])
                    implies spec_copied_load(writer.buf@, loads_view[k], mapped.mem@, cs,
                        hend) by {
                    if rem_pre.contains(loads_view[k]) {
                        // Only the selected segment left the list.
                        let w = choose|w: int| 0 <= w < rem_pre.len()
                            && rem_pre[w] == loads_view[k];
                        if w != min_idx {
                            if w == rem_pre.len() - 1 {
                                assert(rem@[min_idx as int] == loads_view[k]);
                            } else {
                                assert(rem@[w] == loads_view[k]);
                            }
                            assert(false);
                        }
                        assert(loads_view[k] == seg);
                        if seg.header.offset > cs && seg.header.file_size > 0
                            && seg.header.vaddr + seg.header.file_size <= hend {
                            // The selected segment qualifies, so the guard
                            // held and it was copied just above.
                            assert(pre.len() <= seg.header.offset);
                            assert(seg.header.offset > copy_start_offset);
                            assert(seg.header.vaddr <= mapped.hull_end);
                            assert(seg.header.file_size
                                <= mapped.hull_end - seg.header.vaddr);
                        }
                    } else {
                        assert(spec_copied_load(pre, loads_view[k], mapped.mem@, cs, hend));
                        if loads_view[k].header.offset > cs
                            && loads_view[k].header.file_size > 0
                            && loads_view[k].header.vaddr
                                + loads_view[k].header.file_size <= hend {
                            assert(writer.buf@.subrange(0, pre.len() as int) =~= pre);
                            crate::le::lemma_subwindow_prefix(pre, writer.buf@,
                                loads_view[k].header.offset as int,
                                loads_view[k].header.offset
                                    + loads_view[k].header.file_size);
                        }
                    }
                }
                assert forall|j2: int|
                    0 <= j2 < rem@.len()
                        && (#[trigger] rem@[j2]).header.offset > cs
                        && rem@[j2].header.file_size > 0
                    implies writer.buf@.len() <= rem@[j2].header.offset by {
                    let w = if j2 == min_idx { rem_pre.len() - 1 } else { j2 };
                    assert(rem@[j2] == rem_pre[w]);
                    assert(rem_pre[w].header.offset >= seg.header.offset);
                }
            }
        }
    }
    proof {
        if hdis {
            assert forall|k: int| 0 <= k < loads_view.len()
                implies spec_copied_load(writer.buf@, #[trigger] loads_view[k],
                    mapped.mem@, cs, hend) by {
                assert(!rem@.contains(loads_view[k]));
            }
        }
    }
    // Zero-pad the end of the last segment to a page boundary.
    let ghost before_align = writer.buf@;
    writer.align(0x1000);
    proof {
        assert(writer.buf@.subrange(0, phs_done.len() as int)
            =~= before_align.subrange(0, phs_done.len() as int));
        assert forall|p: int|
            cs <= p < writer.buf@.len()
            && (forall|k: int| 0 <= k < loads_view.len()
                ==> !((#[trigger] loads_view[k]).header.offset > cs
                    && loads_view[k].header.file_size > 0
                    && loads_view[k].header.vaddr + loads_view[k].header.file_size <= hend
                    && loads_view[k].header.offset <= p
                    && p < loads_view[k].header.offset + loads_view[k].header.file_size))
            implies #[trigger] writer.buf@[p] == 0 by {
            if p < before_align.len() {
                assert(before_align[p] == 0);
                assert(writer.buf@.subrange(0, before_align.len() as int)[p]
                    == before_align[p]);
            }
        }
        assert(spec_gap_zeroed(writer.buf@, loads_view, cs, hend));
        if hdis {
            assert forall|k: int| 0 <= k < loads_view.len()
                implies spec_copied_load(writer.buf@, #[trigger] loads_view[k],
                    mapped.mem@, cs, hend) by {
                assert(spec_copied_load(before_align, loads_view[k], mapped.mem@, cs,
                    hend));
                if loads_view[k].header.offset > cs && loads_view[k].header.file_size > 0
                    && loads_view[k].header.vaddr + loads_view[k].header.file_size
                        <= hend {
                    crate::le::lemma_subwindow_prefix(before_align, writer.buf@,
                        loads_view[k].header.offset as int,
                        loads_view[k].header.offset + loads_view[k].header.file_size);
                    assert(writer.buf@.subrange(0, before_align.len() as int)
                        =~= before_align);
                }
            }
        }
    }

    proof {
        let out = writer.buf@;
        assert(out.subrange(0, phs_done.len() as int) == phs_done);
        lemma_header_prefix(phs_done, out);
        assert forall|k: int| 0 <= k < nloads + 2
            implies #[trigger] spec_program_header(out, 64 + 56 * k)
                == spec_program_header(phs_done, 64 + 56 * k) by {
            lemma_ph_prefix(phs_done, out, 64 + 56 * k);
        }
        assert(spec_image_layout(out, load_segs@, base_offset, entry_point, cur_end, pad_size));
    }
}

/// Append the compressed payload, page-aligned, then the manifest
/// locating it, closed by the end marker as the very last bytes.
#[verifier::rlimit(100)]
#[verifier::spinoff_prover]
fn append_payload_and_trailer(writer: &mut Writer, payload: &Vec<u8>)
    requires
        old(writer).buf@.len() as int % 0x1000 == 0,
        old(writer).buf@.len() + payload@.len() + 0x3000 <= usize::MAX,
    ensures
        ({
            let out = final(writer).buf@;
            let old_len = old(writer).buf@.len() as int;
            let mo = out.len() - 32;
            &&& out.len() >= old_len + payload@.len() + 32
            &&& out.subrange(0, old_len) == old(writer).buf@
            &&& out.subrange(old_len, old_len + payload@.len()) == payload@
            &&& mo % 0x1000 == 0
            &&& mo >= old_len + payload@.len()
            &&& le64(out, mo) == old_len
            &&& le64(out, mo + 8) == payload@.len()
            &&& le64(out, out.len() - 16) == mo
            &&& spec_end_marker_ok(out, out.len() - 16)
        }),
{
    let ghost base0 = writer.buf@;
    let guest_offset = writer.offset();
    writer.write_all(payload.as_slice());
    proof {
        assert(writer.buf@.subrange(0, base0.len() as int) =~= base0);
        assert(writer.buf@.subrange(guest_offset as int,
            guest_offset + payload@.len()) =~= payload@);
    }
    let ghost with_payload = writer.buf@;
    writer.align(0x1000);
    proof {
        assert(writer.buf@.subrange(0, with_payload.len() as int) =~= with_payload);
    }
    let ghost aligned = writer.buf@;
    let manifest_offset = writer.offset();
    let manifest = Manifest {
        guest: Resource { offset: guest_offset, len: payload.len() as u64 },
    };
    manifest.write_to(&mut writer.buf);
    let ghost with_manifest = writer.buf@;
    let marker = EndMarker { manifest_offset };
    marker.write_to(&mut writer.buf);
    proof {
        let out = writer.buf@;
        let mo = manifest_offset as int;
        assert(out.len() == mo + 32);
        // Each append preserves everything before it.
        assert(out.subrange(0, with_manifest.len() as int) =~= with_manifest);
        assert(with_manifest.subrange(0, aligned.len() as int) =~= aligned);
        assert(with_payload.subrange(0, base0.len() as int) =~= base0);
        crate::le::lemma_prefix_trans(aligned, with_manifest, out);
        crate::le::lemma_prefix_trans(with_payload, aligned, out);
        crate::le::lemma_prefix_trans(base0, with_payload, out);
        // The manifest's fields and the end marker read back exactly.
        crate::le::lemma_le64_prefix(with_manifest, out, mo);
        crate::le::lemma_le64_prefix(with_manifest, out, mo + 8);
        assert(le64(out, mo) == guest_offset);
        assert(le64(out, mo + 8) == payload@.len());
        assert(le64(out, out.len() - 16) == manifest_offset);
        assert(spec_end_marker_ok(out, out.len() - 16));
        // The payload bytes read back exactly.
        crate::le::lemma_subwindow_prefix(with_payload, out, base0.len() as int,
            base0.len() as int + payload@.len());
        assert(with_payload.subrange(base0.len() as int,
            base0.len() as int + payload@.len()) =~= payload@);
    }
}

/// Pack `guest` with the loader stub `stub` into one output file: the
/// relinked stub, then the page-aligned compressed guest payload, then
/// the manifest locating it, closed by the end marker as the file's last
/// bytes.
#[verifier::rlimit(100)]
#[verifier::spinoff_prover]
pub fn pack(guest: &[u8], stub: &[u8]) -> (r: Result<Vec<u8>, PixieError>)
    ensures
        !spec_object_ok(guest@) ==> r is Err,
        r is Ok ==> ({
            let out = r->Ok_0@;
            let gsegs = spec_segs(guest@);
            let gh_start = spec_hull_start(gsegs);
            let gh_end = spec_hull_end(gsegs);
            let mo = le64(out, out.len() - 16) as int;
            let go = le64(out, mo) as int;
            let gl = le64(out, mo + 8) as int;
            &&& spec_object_ok(guest@)
            &&& spec_has_load(gsegs)
            &&& spec_relinked_layout(out, stub@, Range { start: gh_start, end: gh_end as u64 })
            &&& out.len() >= 32
            &&& spec_end_marker_ok(out, out.len() - 16)
            &&& mo == out.len() - 32
            &&& mo % 0x1000 == 0
            &&& go % 0x1000 == 0
            &&& go + gl <= mo
            &&& out.subrange(go, go + gl) == lz4_block_of(guest@)
        }),
        spec_pack_ok(guest@, stub@) ==> r is Ok,
{
    let guest_obj = match Object::new(guest) {
        Ok(o) => o,
        Err(e) => {
            return Err(e);
        },
    };
    let guest_hull = match guest_obj.segments().load_convex_hull() {
        Ok(h) => h,
        Err(e) => {
            return Err(e);
        },
    };
    if guest.len() > 0xFFFF_FFFF {
        return Err(PixieError::GuestTooLarge);
    }

    let mut writer = Writer::new();
    proof {
        if spec_pack_ok(guest@, stub@) {
            assert(guest_hull == (Range {
                start: spec_hull_start(spec_segs(guest@)),
                end: spec_hull_end(spec_segs(guest@)) as u64,
            }));
        }
    }
    match relink_stage1(stub, guest_hull, &mut writer) {
        Ok(()) => (),
        Err(e) => {
            return Err(e);
        },
    }

    // The compressed guest payload, page-aligned, and the trailer.
    let compressed = compress(guest);
    if compressed.len() > usize::MAX - 0x3000
        || writer.buf.len() > usize::MAX - 0x3000 - compressed.len() {
        proof {
            if spec_pack_ok(guest@, stub@) {
                assert(writer.buf@.len() <= 0x700000 + stub@.len());
                assert(compressed@.len() == lz4_block_of(guest@).len());
                assert(false);
            }
        }
        return Err(PixieError::OutputTooLarge);
    }
    let ghost relinked = writer.buf@;
    let guest_offset = writer.offset();
    append_payload_and_trailer(&mut writer, &compressed);

    proof {
        let out = writer.buf@;
        lemma_relinked_prefix(relinked, out, stub@,
            Range { start: guest_hull.start, end: guest_hull.end });
        assert(out.subrange(guest_offset as int, guest_offset + compressed@.len())
            == lz4_block_of(guest@));
        assert(guest_offset as int % 0x1000 == 0);
    }
    Ok(writer.into_vec())
}

} // verus!
