//! The run-time side of the protocol: given the packed file's own bytes,
//! find the manifest, decompress the guest, map and relocate it, and
//! compute the auxiliary-vector patches and the entry address. The caller
//! performs the actual mapping syscalls and the final handoff.

use vstd::prelude::*;
use vstd::slice::slice_subrange;
use crate::error::PixieError;
use crate::format::header::spec_header;
use crate::le::le64;
use crate::lz4::{decompress, lz4_block_of};
use crate::manifest::{Manifest, spec_end_marker_ok, spec_manifest_at};
use crate::mapped::{
    MappedObject, spec_apply_relas, spec_dyn_entries, spec_rela_ok, spec_relas_list,
    spec_relocate_blocker,
};
use crate::object::{Object, spec_object_ok, spec_segs, spec_has_load, spec_hull_start, spec_hull_end};
use crate::syms::spec_syms_of;

verus! {

/// A guest mapped and relocated from a packed file, with the values the
/// loader must patch into the process's auxiliary vector and the address
/// to hand control to.
#[derive(Debug)]
pub struct LoadedGuest {
    /// The guest's live image.
    pub mapped: MappedObject,
    /// The new `AT_PHDR` value: the mapped program-header table.
    pub at_phdr: u64,
    /// The new `AT_PHNUM` value: the guest's program-header count.
    pub at_phnum: u64,
    /// The new `AT_ENTRY` value: the guest's relocated entry point,
    /// which is also the address the handoff jumps to.
    pub at_entry: u64,
}

/// The chosen base for a guest image: the caller's address for a
/// relocatable guest, zero otherwise.
pub open spec fn spec_guest_base(g: Seq<u8>, at: Option<u64>) -> u64 {
    if spec_hull_start(spec_segs(g)) == 0 {
        if at is Some {
            at->0
        } else {
            0u64
        }
    } else {
        0u64
    }
}

/// The freshly mapped guest image: the zero-filled hull with every LOAD
/// segment's file bytes copied in.
pub open spec fn spec_guest_image(g: Seq<u8>) -> Seq<u8> {
    crate::mapped::spec_fresh_image(g)
}

/// True when the decompressed guest bytes `g` can be mapped, and — when
/// relocatable — relocated, without any fault: the object parses, its
/// hull and the caller's address obey the mapping rules, every relocation
/// record is supported and in bounds, and the final address computations
/// fit.
pub open spec fn spec_guest_loadable(g: Seq<u8>, at: Option<u64>) -> bool {
    let segs = spec_segs(g);
    let hs = spec_hull_start(segs);
    let he = spec_hull_end(segs);
    let bo = spec_guest_base(g, at);
    &&& spec_object_ok(g)
    &&& spec_has_load(segs)
    &&& !(hs != 0 && at is Some)
    &&& (hs != 0 ==> hs % 0x1000 == 0)
    &&& (hs == 0 && at is Some ==> at->0 % 0x1000 == 0)
    &&& he - hs <= usize::MAX
    &&& (hs == 0 ==> {
        &&& spec_relocate_blocker(segs, g) is None
        &&& (forall|i: int|
            0 <= i < spec_relas_list(g, spec_dyn_entries(segs, g)).len()
            ==> (#[trigger] spec_relas_list(g, spec_dyn_entries(segs, g))[i])
                .typ.spec_supported()
                && spec_rela_ok(g, spec_syms_of(spec_dyn_entries(segs, g)), 0,
                    he as nat, spec_relas_list(g, spec_dyn_entries(segs, g))[i]))
    })
    &&& hs <= u64::MAX - bo
    &&& spec_header(g).ph_offset <= u64::MAX - (bo + hs)
    &&& spec_header(g).entry_point <= u64::MAX - bo
}

/// Read the packed file's manifest, decompress the guest payload, map it
/// (at `at` if given, which only works for a relocatable guest) and
/// relocate it at its own base. Returns the decompressed guest bytes and
/// the loaded image with its auxiliary-vector patches.
///
/// Everything here is address computation over the caller's buffer; the
/// caller maps the returned image into place and performs the handoff.
#[verifier::rlimit(100)]
#[verifier::spinoff_prover]
pub fn prepare_guest(host: &[u8], at: Option<u64>) -> (r: Result<
    (Vec<u8>, LoadedGuest),
    PixieError,
>)
    ensures
        r is Ok ==> ({
            let (g, lg) = r->Ok_0;
            let m = spec_manifest_at(host@, le64(host@, host@.len() - 16) as int);
            &&& host@.len() >= 16
            &&& spec_end_marker_ok(host@, host@.len() - 16)
            &&& m.guest.offset + m.guest.len <= host@.len()
            &&& (forall|s: Seq<u8>|
                host@.subrange(m.guest.offset as int, m.guest.offset + m.guest.len)
                    == #[trigger] lz4_block_of(s) ==> g@ == s)
            &&& spec_object_ok(g@)
            &&& lg.mapped.wf()
            &&& lg.mapped.hull_start == spec_hull_start(spec_segs(g@))
            &&& lg.mapped.hull_end == spec_hull_end(spec_segs(g@))
            &&& lg.at_phnum == spec_header(g@).ph_count
            &&& lg.at_phdr == lg.mapped.base_offset + lg.mapped.hull_start
                + spec_header(g@).ph_offset
            &&& lg.at_entry == lg.mapped.base_offset + spec_header(g@).entry_point
            &&& lg.mapped.base_offset == spec_guest_base(g@, at)
            &&& (lg.mapped.hull_start != 0 ==> lg.mapped.mem@ == spec_guest_image(g@))
            &&& (lg.mapped.hull_start == 0 ==> {
                let segs = spec_segs(g@);
                let entries = spec_dyn_entries(segs, g@);
                let relas = spec_relas_list(g@, entries);
                &&& spec_relocate_blocker(segs, g@) is None
                &&& lg.mapped.mem@ == spec_apply_relas(
                    spec_guest_image(g@), g@, spec_syms_of(entries), 0,
                    lg.mapped.base_offset, relas, relas.len() as int)
            })
        }),
        ({
            let m = spec_manifest_at(host@, le64(host@, host@.len() - 16) as int);
            let payload = host@.subrange(m.guest.offset as int, m.guest.offset + m.guest.len);
            (host@.len() >= 16
                && spec_end_marker_ok(host@, host@.len() - 16)
                && le64(host@, host@.len() - 16) + 16 <= host@.len()
                && m.guest.offset + m.guest.len <= host@.len()
                && (exists|s: Seq<u8>| payload == #[trigger] lz4_block_of(s)
                    && spec_guest_loadable(s, at)))
                ==> r is Ok
        }),
{
    let manifest = match Manifest::read_from_full_slice(host) {
        Ok(m) => m,
        Err(e) => {
            return Err(e);
        },
    };
    let host_len = host.len();
    if manifest.guest.offset > host_len as u64
        || manifest.guest.len > host_len as u64 - manifest.guest.offset {
        return Err(PixieError::BadManifest);
    }
    let payload = slice_subrange(
        host,
        manifest.guest.offset as usize,
        (manifest.guest.offset + manifest.guest.len) as usize,
    );
    let ghost pseq = payload@;
    let ghost good = exists|s: Seq<u8>| pseq == #[trigger] lz4_block_of(s)
        && spec_guest_loadable(s, at);
    let guest_bytes = match decompress(payload) {
        Ok(v) => v,
        Err(e) => {
            proof {
                if good {
                    let s0 = choose|s: Seq<u8>| pseq == #[trigger] lz4_block_of(s)
                        && spec_guest_loadable(s, at);
                    assert(false);
                }
            }
            return Err(e);
        },
    };
    proof {
        if good {
            let s0 = choose|s: Seq<u8>| pseq == #[trigger] lz4_block_of(s)
                && spec_guest_loadable(s, at);
            assert(guest_bytes@ == s0);
        }
    }

    let guest_obj = match Object::new(guest_bytes.as_slice()) {
        Ok(o) => o,
        Err(e) => {
            proof {
                if good {
                    let s0 = choose|s: Seq<u8>| pseq == #[trigger] lz4_block_of(s)
                        && spec_guest_loadable(s, at);
                    assert(spec_object_ok(guest_bytes@));
                    assert(false);
                }
            }
            return Err(e);
        },
    };
    let mut mapped = match MappedObject::new(&guest_obj, guest_bytes.as_slice(), at) {
        Ok(m) => m,
        Err(e) => {
            proof {
                if good {
                    let s0 = choose|s: Seq<u8>| pseq == #[trigger] lz4_block_of(s)
                        && spec_guest_loadable(s, at);
                    assert(false);
                }
            }
            return Err(e);
        },
    };
    let ghost pre_reloc_mem = mapped.mem@;
    if mapped.is_relocatable() {
        let base = mapped.base_offset();
        match mapped.relocate(&guest_obj, guest_bytes.as_slice(), base) {
            Ok(()) => (),
            Err(e) => {
                proof {
                    if good {
                        let s0 = choose|s: Seq<u8>| pseq == #[trigger] lz4_block_of(s)
                            && spec_guest_loadable(s, at);
                        let segs = spec_segs(guest_bytes@);
                        assert(pre_reloc_mem.len() == spec_hull_end(segs) as nat);
                        let entries = spec_dyn_entries(segs, guest_bytes@);
                        let sy = spec_syms_of(entries);
                        let rl = spec_relas_list(guest_bytes@, entries);
                        assert forall|i: int| 0 <= i < rl.len()
                            implies (#[trigger] rl[i]).typ.spec_supported()
                                && spec_rela_ok(guest_bytes@, sy, 0, pre_reloc_mem.len(),
                                    rl[i]) by {
                            assert(rl[i].typ.spec_supported()
                                && spec_rela_ok(guest_bytes@, sy, 0,
                                    spec_hull_end(segs) as nat, rl[i]));
                        }
                        crate::mapped::lemma_relocate_ok_forced(segs, guest_bytes@,
                            pre_reloc_mem, 0, base, Err::<(), PixieError>(e), mapped.mem@);
                        assert(false);
                    }
                }
                return Err(e);
            },
        }
    }

    // The patched auxiliary-vector values and the final entry address,
    // all checked against the 64-bit address space.
    let header = guest_obj.header();
    proof {
        assert(mapped.base_offset == spec_guest_base(guest_bytes@, at));
    }
    if mapped.hull_start > u64::MAX - mapped.base_offset {
        proof {
            if good {
                let s0 = choose|s: Seq<u8>| pseq == #[trigger] lz4_block_of(s)
                    && spec_guest_loadable(s, at);
                assert(false);
            }
        }
        return Err(PixieError::ProgramHeaderOutOfBounds);
    }
    let base = mapped.base_offset() + mapped.hull_start;
    if header.ph_offset > u64::MAX - base
        || header.entry_point > u64::MAX - mapped.base_offset() {
        proof {
            if good {
                let s0 = choose|s: Seq<u8>| pseq == #[trigger] lz4_block_of(s)
                    && spec_guest_loadable(s, at);
                assert(false);
            }
        }
        return Err(PixieError::ProgramHeaderOutOfBounds);
    }
    let lg = LoadedGuest {
        at_phdr: base + header.ph_offset,
        at_phnum: header.ph_count as u64,
        at_entry: mapped.base_offset() + header.entry_point,
        mapped,
    };
    Ok((guest_bytes, lg))
}

} // verus!
