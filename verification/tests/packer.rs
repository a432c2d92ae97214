use minipak::align::{align_hull, ceil, floor};
use minipak::cli::Args;
use minipak::error::PixieError;
use minipak::format::header::{ElfClass, ElfMachine, ElfType, Endianness, ObjectHeader, OsAbi};
use minipak::format::program_header::{ProgramHeader, SegmentType};
use minipak::format::rela::{Rela, RelType};
use minipak::le::{push_u32, push_u64, read_u64};
use minipak::lz4;
use minipak::manifest::{EndMarker, Manifest, Resource};
use minipak::mapped::MappedObject;
use minipak::object::{Object, Segment, Segments};
use minipak::pack::pack;
use minipak::loader::prepare_guest;
use minipak::syms::Syms;
use minipak::error::EncoreError;
use minipak::mmap::{FileOpts, MmapOptions, MAP_ANONYMOUS, MAP_FIXED};
use minipak::format::dynamic::DynamicTagType;

fn load_segment(vaddr: u64, mem_size: u64) -> Segment {
    Segment {
        header: ProgramHeader {
            typ: SegmentType::Load,
            flags: 5,
            offset: 0,
            vaddr,
            paddr: vaddr,
            file_size: 0,
            mem_size,
            align: 0x1000,
        },
        start: 0,
        end: 0,
    }
}

#[test]
fn convex_hull_of_two_segments() {
    let segments = Segments {
        segments: vec![
            load_segment(0x1000, 0x1000),
            load_segment(0x5000, 0x500),
        ],
    };
    let hull = segments.load_convex_hull().unwrap();
    assert_eq!(hull.start, 0x1000);
    assert_eq!(hull.end, 0x5500);
}

#[test]
fn convex_hull_without_loads_is_an_error() {
    let segments = Segments { segments: vec![] };
    assert_eq!(
        segments.load_convex_hull().unwrap_err(),
        PixieError::NoSegmentsFound
    );
}

#[test]
fn align_hull_rounds_outward() {
    let aligned = align_hull(0x1001..0x5503);
    assert_eq!(aligned.start, 0x1000);
    assert_eq!(aligned.end, 0x6000);
    assert_eq!(floor(0x1001), 0x1000);
    assert_eq!(ceil(0x5503), 0x6000);
    assert_eq!(ceil(0x6000), 0x6000);
}

#[test]
fn manifest_round_trip() {
    let manifest = Manifest {
        guest: Resource { offset: 4096, len: 777 },
    };
    let mut bytes = Vec::new();
    manifest.write_to(&mut bytes);
    assert_eq!(bytes.len(), 16);
    let back = Manifest::parse_at(&bytes, 0).unwrap();
    assert_eq!(back.guest.offset, 4096);
    assert_eq!(back.guest.len, 777);
}

#[test]
fn end_marker_round_trip() {
    let marker = EndMarker { manifest_offset: 0x1234_5678 };
    let mut bytes = Vec::new();
    marker.write_to(&mut bytes);
    assert_eq!(bytes.len(), 16);
    let back = EndMarker::parse_at(&bytes, 0).unwrap();
    assert_eq!(back.manifest_offset, 0x1234_5678);
}

#[test]
fn end_marker_without_magic_is_an_error() {
    let bytes = vec![0u8; 16];
    assert_eq!(
        EndMarker::parse_at(&bytes, 0).unwrap_err(),
        PixieError::BadManifest
    );
}

/// A crafted file region holding a string table, a symbol table with one
/// named symbol, and nothing else.
fn crafted_symbols() -> (Vec<u8>, Syms) {
    let mut buf = vec![0u8; 16];
    // String table at 16: "\0entry\0".
    buf.push(0);
    buf.extend_from_slice(b"entry");
    buf.push(0);
    buf.push(0); // pad to 24
    assert_eq!(buf.len(), 24);
    // Symbol table at 24: the null symbol, then "entry" at 0x1234.
    buf.extend_from_slice(&[0u8; 24]);
    push_u32(&mut buf, 1); // name offset into the string table
    buf.push(0); // info
    buf.push(0); // other
    buf.push(0); // shndx
    buf.push(0);
    push_u64(&mut buf, 0x1234); // value
    push_u64(&mut buf, 0); // size
    assert_eq!(buf.len(), 72);
    let syms = Syms { symtab: 24, syment: 24, strtab: 16 };
    (buf, syms)
}

#[test]
fn symbol_lookup_by_name() {
    let (buf, syms) = crafted_symbols();
    let sym = syms.by_name(&buf, b"entry").unwrap();
    assert_eq!(sym.value, 0x1234);
    assert_eq!(sym.name, 1);
}

#[test]
fn symbol_lookup_of_absent_name_terminates() {
    let (buf, syms) = crafted_symbols();
    assert_eq!(
        syms.by_name(&buf, b"absent").unwrap_err(),
        PixieError::SymbolNotFound
    );
}

#[test]
fn nth_symbol_out_of_bounds_is_an_error() {
    let (buf, syms) = crafted_symbols();
    assert!(syms.nth(&buf, 0).is_ok());
    assert!(syms.nth(&buf, 1).is_ok());
    assert_eq!(syms.nth(&buf, 2).unwrap_err(), PixieError::DynamicOutOfBounds);
}

#[test]
fn unsupported_relocation_stops_before_later_writes() {
    let (buf, syms) = crafted_symbols();
    let mut mapped = MappedObject {
        hull_start: 0,
        hull_end: 64,
        base_offset: 0,
        mem: vec![0u8; 64],
    };
    let relas = vec![
        Rela { offset: 0, sym: 1, typ: RelType::Relative, addend: 0x10 },
        Rela { offset: 16, sym: 0, typ: RelType::Other(99), addend: 0 },
        Rela { offset: 32, sym: 1, typ: RelType::_64, addend: 0 },
    ];
    let err = mapped.apply_relas(&buf, syms, &relas, 0x1000).unwrap_err();
    assert_eq!(err, PixieError::UnsupportedRela(relas[1]));
    // The first record was applied: base + sym1.value + addend.
    assert_eq!(read_u64(&mapped.mem, 0), 0x1000 + 0x1234 + 0x10);
    // Nothing at or after the failing record was written.
    assert_eq!(read_u64(&mapped.mem, 16), 0);
    assert_eq!(read_u64(&mapped.mem, 32), 0);
}

#[test]
fn relative_relocation_writes_base_plus_addend() {
    let (buf, syms) = crafted_symbols();
    let mut mapped = MappedObject {
        hull_start: 0,
        hull_end: 32,
        base_offset: 0,
        mem: vec![0u8; 32],
    };
    // The null symbol has value zero, so a RELATIVE record stores
    // exactly base + addend.
    let relas = vec![Rela { offset: 8, sym: 0, typ: RelType::Relative, addend: 0x40 }];
    mapped.apply_relas(&buf, syms, &relas, 0x800000).unwrap();
    assert_eq!(read_u64(&mapped.mem, 8), 0x800040);
}

#[test]
fn cli_missing_input() {
    let args = vec!["minipak".to_string()];
    let err = Args::parse(&args).unwrap_err();
    assert_eq!(err.message, "Missing input");
    assert!(err.display_string().contains("Usage: minipak input -o output"));
}

#[test]
fn cli_multiple_outputs() {
    let args: Vec<String> = ["minipak", "in", "-o", "out1", "-o", "out2"]
        .iter()
        .map(|s| s.to_string())
        .collect();
    let err = Args::parse(&args).unwrap_err();
    assert_eq!(err.message, "Multiple output files specified");
}

#[test]
fn cli_multiple_inputs() {
    let args: Vec<String> = ["minipak", "in1", "in2", "-o", "out"]
        .iter()
        .map(|s| s.to_string())
        .collect();
    let err = Args::parse(&args).unwrap_err();
    assert_eq!(err.message, "Multiple input files specified");
}

#[test]
fn cli_unknown_flag_and_missing_output() {
    let args: Vec<String> = ["minipak", "in", "-x"].iter().map(|s| s.to_string()).collect();
    let err = Args::parse(&args).unwrap_err();
    assert_eq!(err.message, "Unknown flag -x");

    let args: Vec<String> = ["minipak", "in"].iter().map(|s| s.to_string()).collect();
    let err = Args::parse(&args).unwrap_err();
    assert_eq!(err.message, "Missing output");

    let args: Vec<String> = ["minipak", "in", "--output"].iter().map(|s| s.to_string()).collect();
    let err = Args::parse(&args).unwrap_err();
    assert_eq!(err.message, "Missing output filename after --output");
}

#[test]
fn cli_accepts_either_order() {
    let args: Vec<String> = ["minipak", "-o", "out", "in"].iter().map(|s| s.to_string()).collect();
    let parsed = Args::parse(&args).unwrap();
    assert_eq!(parsed.input, "in");
    assert_eq!(parsed.output, "out");
}

#[test]
fn payload_codec_round_trip() {
    let data = b"hello world, hello world, hello world";
    let compressed = lz4::compress(data);
    // The frame starts with the uncompressed size, little-endian.
    assert_eq!(&compressed[..4], &(data.len() as u32).to_le_bytes());
    let back = lz4::decompress(&compressed).unwrap();
    assert_eq!(&back, data);
}

#[test]
fn payload_codec_rejects_garbage() {
    // A frame announcing far more data than any compressed block here
    // could hold.
    let bogus = [0xff, 0xff, 0xff, 0x7f, 0x00, 0x00];
    assert_eq!(
        lz4::decompress(&bogus).unwrap_err(),
        PixieError::DecompressionFailed
    );
}

fn write_header(out: &mut Vec<u8>, typ: ElfType, entry_point: u64, ph_count: u16) {
    let header = ObjectHeader {
        class: ElfClass::Elf64,
        endianness: Endianness::Little,
        version: 1,
        os_abi: OsAbi::SysV,
        typ,
        machine: ElfMachine::X86_64,
        version_bis: 1,
        entry_point,
        ph_offset: 64,
        sh_offset: 0,
        flags: 0,
        hdr_size: 64,
        ph_entsize: 56,
        ph_count,
        sh_entsize: 0,
        sh_count: 0,
        sh_nidx: 0,
    };
    header.write_to(out);
}

fn write_ph(out: &mut Vec<u8>, typ: SegmentType, offset: u64, vaddr: u64, file_size: u64, mem_size: u64) {
    let ph = ProgramHeader {
        typ,
        flags: 7,
        offset,
        vaddr,
        paddr: vaddr,
        file_size,
        mem_size,
        align: 0x1000,
    };
    ph.write_to(out);
}

/// A minimal non-relocatable guest: one LOAD segment at 0x400000
/// covering the whole 120-byte file.
fn crafted_guest() -> Vec<u8> {
    let mut buf = Vec::new();
    write_header(&mut buf, ElfType::Exec, 0x400040, 1);
    write_ph(&mut buf, SegmentType::Load, 0, 0x400000, 120, 120);
    assert_eq!(buf.len(), 120);
    buf
}

/// A minimal relocatable loader stub: a LOAD segment covering the file,
/// a DYNAMIC segment with symbol tables, an empty RELA table, and an
/// exported `entry` symbol at 0x1234.
fn crafted_stub() -> Vec<u8> {
    let mut buf = Vec::new();
    write_header(&mut buf, ElfType::Dyn, 0, 2);
    write_ph(&mut buf, SegmentType::Load, 0, 0, 328, 328);
    write_ph(&mut buf, SegmentType::Dynamic, 232, 232, 96, 96);
    assert_eq!(buf.len(), 176);
    // String table at 176: "\0entry\0" padded to eight bytes.
    buf.push(0);
    buf.extend_from_slice(b"entry");
    buf.push(0);
    buf.push(0);
    // Symbol table at 184: the null symbol, then "entry" at 0x1234.
    buf.extend_from_slice(&[0u8; 24]);
    push_u32(&mut buf, 1);
    buf.push(0);
    buf.push(0);
    buf.push(0);
    buf.push(0);
    push_u64(&mut buf, 0x1234);
    push_u64(&mut buf, 0);
    assert_eq!(buf.len(), 232);
    // Dynamic entries at 232.
    for (tag, value) in [(6u64, 184u64), (11, 24), (5, 176), (7, 0), (8, 0), (0, 0)] {
        push_u64(&mut buf, tag);
        push_u64(&mut buf, value);
    }
    assert_eq!(buf.len(), 328);
    buf
}

#[test]
fn crafted_stub_parses_and_resolves_entry() {
    let stub = crafted_stub();
    let obj = Object::new(&stub).unwrap();
    let hull = obj.segments().load_convex_hull().unwrap();
    assert_eq!(hull.start, 0);
    assert_eq!(hull.end, 328);
    let mut mapped = MappedObject::new(&obj, &stub, None).unwrap();
    mapped.relocate(&obj, &stub, 0x400000).unwrap();
    let sym = mapped.lookup_sym(&obj, &stub, b"entry").unwrap();
    assert_eq!(sym.value, 0x1234);
}

#[test]
fn pack_and_reload_round_trip() {
    let guest = crafted_guest();
    let stub = crafted_stub();
    let packed = pack(&guest, &stub).unwrap();

    // The output is a well-formed 64-bit executable whose entry point is
    // the stub's entry symbol shifted to the guest's base.
    let out_obj = Object::new(&packed).unwrap();
    assert_eq!(out_obj.header().typ, ElfType::Exec);
    assert_eq!(out_obj.header().machine, ElfMachine::X86_64);
    assert_eq!(out_obj.header().entry_point, 0x400000 + 0x1234);
    assert_eq!(out_obj.header().ph_count, 3);

    // The manifest at the tail locates the compressed guest payload.
    let manifest = Manifest::read_from_full_slice(&packed).unwrap();
    let lo = manifest.guest.offset as usize;
    let hi = lo + manifest.guest.len as usize;
    assert_eq!(lo % 0x1000, 0);
    let back = lz4::decompress(&packed[lo..hi]).unwrap();
    assert_eq!(back, guest);

    // The loader protocol recovers and maps the guest, and the auxiliary
    // vector patches point where a direct kernel load would.
    let (guest_bytes, loaded) = prepare_guest(&packed, None).unwrap();
    assert_eq!(guest_bytes, guest);
    assert_eq!(loaded.at_phnum, 1);
    assert_eq!(loaded.mapped.hull_start, 0x400000);
    assert_eq!(loaded.at_phdr, 0x400000 + 64);
    assert_eq!(loaded.at_entry, 0x400040);
    // The guest's bytes were copied into the image at their addresses.
    assert_eq!(&loaded.mapped.mem[..120], &guest[..]);
}

#[test]
fn pack_rejects_garbage_guest() {
    let stub = crafted_stub();
    let err = pack(b"not an elf", &stub).unwrap_err();
    assert_eq!(err, PixieError::BadObjectHeader);
}

#[test]
fn packed_padding_segment_reserves_guest_space() {
    // A guest whose hull reaches far beyond the stub's: the padding
    // segment must reserve the difference.
    let mut guest = Vec::new();
    write_header(&mut guest, ElfType::Exec, 0x400040, 1);
    write_ph(&mut guest, SegmentType::Load, 0, 0x400000, 120, 0x20000);
    let stub = crafted_stub();
    let packed = pack(&guest, &stub).unwrap();
    let obj = Object::new(&packed).unwrap();
    let phs = obj.segments().all();
    // Headers: the stub LOAD, the padding LOAD, GNU_STACK.
    assert_eq!(phs.len(), 3);
    let pad = &phs[1].header;
    assert_eq!(pad.typ, SegmentType::Load);
    assert_eq!(pad.file_size, 0);
    // Stub hull [0x400000, 0x400000+328) aligned ends at 0x401000; the
    // guest wants [0x400000, 0x420000).
    assert_eq!(pad.vaddr, 0x401000);
    assert_eq!(pad.mem_size, 0x420000 - 0x401000);
    let stack = &phs[2].header;
    assert_eq!(stack.typ, SegmentType::GnuStack);
    assert_eq!(stack.flags, 6);
}

#[test]
fn mmap_plan_checks_alignment() {
    let mut opts = MmapOptions::new(0x2000);
    opts.at(0x1234);
    assert_eq!(opts.plan().unwrap_err(), EncoreError::MmapMemUnaligned(0x1234));
    let mut opts = MmapOptions::new(0x2000);
    opts.at(0x2000);
    let plan = opts.plan().unwrap();
    assert_eq!(plan.addr, 0x2000);
    assert_ne!(plan.flags & MAP_FIXED, 0);
    assert_ne!(plan.flags & MAP_ANONYMOUS, 0);
}

#[test]
fn header_encoding_round_trip() {
    let mut bytes = Vec::new();
    write_header(&mut bytes, ElfType::Exec, 0xdead_beef, 7);
    let header = ObjectHeader::parse(&bytes).unwrap();
    assert_eq!(header.class, ElfClass::Elf64);
    assert_eq!(header.endianness, Endianness::Little);
    assert_eq!(header.typ, ElfType::Exec);
    assert_eq!(header.machine, ElfMachine::X86_64);
    assert_eq!(header.entry_point, 0xdead_beef);
    assert_eq!(header.ph_count, 7);

    let mut rewritten = Vec::new();
    header.write_to(&mut rewritten);
    assert_eq!(rewritten, bytes);
}

#[test]
fn program_header_encoding_round_trip() {
    let mut bytes = Vec::new();
    write_ph(&mut bytes, SegmentType::GnuStack, 1, 2, 3, 4);
    let ph = ProgramHeader::parse_at(&bytes, 0).unwrap();
    assert_eq!(ph.typ, SegmentType::GnuStack);
    assert_eq!(ph.offset, 1);
    assert_eq!(ph.vaddr, 2);
    assert_eq!(ph.file_size, 3);
    assert_eq!(ph.mem_size, 4);
    let mut rewritten = Vec::new();
    ph.write_to(&mut rewritten);
    assert_eq!(rewritten, bytes);
}

#[test]
fn truncated_header_is_an_error() {
    assert_eq!(
        ObjectHeader::parse(&[0x7f, b'E', b'L', b'F']).unwrap_err(),
        PixieError::BadObjectHeader
    );
}

#[test]
fn fixed_mapping_of_non_relocatable_object_is_refused() {
    let guest = crafted_guest();
    let obj = Object::new(&guest).unwrap();
    assert_eq!(
        MappedObject::new(&obj, &guest, Some(0x1000)).unwrap_err(),
        PixieError::CantMapNonRelocatableObjectAtFixedPosition
    );
}

#[test]
fn relocating_a_non_relocatable_object_is_refused() {
    let guest = crafted_guest();
    let obj = Object::new(&guest).unwrap();
    let mut mapped = MappedObject::new(&obj, &guest, None).unwrap();
    assert_eq!(
        mapped.relocate(&obj, &guest, 0x1000).unwrap_err(),
        PixieError::CannotRelocateNonRelocatableObject
    );
}

#[test]
fn guest_without_dynamic_segment_has_no_entries() {
    let guest = crafted_guest();
    let obj = Object::new(&guest).unwrap();
    assert_eq!(
        obj.read_dynamic_entries(&guest).unwrap_err(),
        PixieError::SegmentNotFound(SegmentType::Dynamic)
    );
}

#[test]
fn stub_dynamic_entries_resolve() {
    let stub = crafted_stub();
    let obj = Object::new(&stub).unwrap();
    let entries = obj.read_dynamic_entries(&stub).unwrap();
    assert_eq!(entries.all().len(), 5);
    let symtab = entries.find(DynamicTagType::SymTab).unwrap();
    assert_eq!(symtab.as_u64(), 184);
    assert_eq!(
        entries.find(DynamicTagType::JmpRel).unwrap_err(),
        PixieError::DynamicEntryNotFound(DynamicTagType::JmpRel)
    );
    let syms = entries.syms().unwrap();
    assert_eq!(syms.symtab, 184);
    assert_eq!(syms.syment, 24);
    assert_eq!(syms.strtab, 176);
}

#[test]
fn mmap_plan_checks_file_offset_alignment() {
    let mut opts = MmapOptions::new(0x2000);
    opts.file(FileOpts { fd: 3, offset: 0x800 });
    assert_eq!(opts.plan().unwrap_err(), EncoreError::MmapFileUnaligned(0x800));
    let mut opts = MmapOptions::new(0x2000);
    opts.file(FileOpts { fd: 3, offset: 0x1000 });
    let plan = opts.plan().unwrap();
    assert_eq!(plan.fd, 3);
    assert_eq!(plan.offset, 0x1000);
    assert_eq!(plan.flags & MAP_ANONYMOUS, 0);
}

/// A minimal position-independent guest with a dynamic section and the
/// given relocation records.
fn crafted_pie(relas: &[(u64, u32, u32, u64)]) -> Vec<u8> {
    let rela_bytes = 24 * relas.len() as u64;
    let dyn_off = 232 + rela_bytes;
    let file_len = dyn_off + 96;
    let mut buf = Vec::new();
    write_header(&mut buf, ElfType::Dyn, 0x40, 2);
    write_ph(&mut buf, SegmentType::Load, 0, 0, file_len, file_len);
    write_ph(&mut buf, SegmentType::Dynamic, dyn_off, dyn_off, 96, 96);
    // String table at 176, symbol table at 184, exactly as in the stub.
    buf.push(0);
    buf.extend_from_slice(b"entry");
    buf.push(0);
    buf.push(0);
    buf.extend_from_slice(&[0u8; 24]);
    push_u32(&mut buf, 1);
    buf.extend_from_slice(&[0u8; 4]);
    push_u64(&mut buf, 0x1234);
    push_u64(&mut buf, 0);
    assert_eq!(buf.len(), 232);
    // Relocation records at 232.
    for &(offset, sym, typ, addend) in relas {
        push_u64(&mut buf, offset);
        push_u32(&mut buf, typ);
        push_u32(&mut buf, sym);
        push_u64(&mut buf, addend);
    }
    // Dynamic entries.
    for (tag, value) in [(6u64, 184u64), (11, 24), (5, 176), (7, 232), (8, rela_bytes), (0, 0)] {
        push_u64(&mut buf, tag);
        push_u64(&mut buf, value);
    }
    assert_eq!(buf.len() as u64, file_len);
    buf
}

#[test]
fn pie_guest_packs_and_relocates_to_chosen_base() {
    // One RELATIVE record and one direct 64-bit record.
    let guest = crafted_pie(&[(0x10, 0, 8, 0x123), (0x20, 1, 1, 0x5)]);
    let stub = crafted_stub();
    let packed = pack(&guest, &stub).unwrap();

    // A relocatable guest is given the fixed nonzero base, and the
    // stub's entry symbol is shifted to it.
    let out = Object::new(&packed).unwrap();
    assert_eq!(out.header().entry_point, 0x800000 + 0x1234);

    // Reloading at a chosen base applies every relocation against it.
    let (g, loaded) = prepare_guest(&packed, Some(0x10000)).unwrap();
    assert_eq!(g, guest);
    assert_eq!(loaded.mapped.base_offset, 0x10000);
    // RELATIVE: chosen_base + addend (the null symbol has value zero).
    assert_eq!(read_u64(&loaded.mapped.mem, 0x10), 0x10000 + 0x123);
    // Direct 64-bit: chosen_base + symbol value + addend.
    assert_eq!(read_u64(&loaded.mapped.mem, 0x20), 0x10000 + 0x1234 + 0x5);
    // The entry address follows the chosen base too.
    assert_eq!(loaded.at_entry, 0x10000 + 0x40);
}

/// A relocatable stub with a second LOAD segment holding code past the
/// program-header table, so the packer's segment copy actually runs.
fn crafted_stub_with_code() -> Vec<u8> {
    let mut buf = Vec::new();
    write_header(&mut buf, ElfType::Dyn, 0, 3);
    write_ph(&mut buf, SegmentType::Load, 0, 0, 432, 432);
    write_ph(&mut buf, SegmentType::Load, 400, 0x1000, 32, 32);
    write_ph(&mut buf, SegmentType::Dynamic, 288, 288, 96, 96);
    assert_eq!(buf.len(), 232);
    // String table at 232, symbol table at 240.
    buf.push(0);
    buf.extend_from_slice(b"entry");
    buf.push(0);
    buf.push(0);
    buf.extend_from_slice(&[0u8; 24]);
    push_u32(&mut buf, 1);
    buf.extend_from_slice(&[0u8; 4]);
    push_u64(&mut buf, 0x1234);
    push_u64(&mut buf, 0);
    assert_eq!(buf.len(), 288);
    // Dynamic entries at 288, with an empty RELA table.
    for (tag, value) in [(6u64, 240u64), (11, 24), (5, 232), (7, 0), (8, 0), (0, 0)] {
        push_u64(&mut buf, tag);
        push_u64(&mut buf, value);
    }
    assert_eq!(buf.len(), 384);
    // Filler, then a recognizable 32-byte code pattern at file offset 400.
    buf.resize(400, 0xAA);
    for i in 0..32u8 {
        buf.push(0xC0 + (i % 16));
    }
    assert_eq!(buf.len(), 432);
    buf
}

#[test]
fn packed_output_carries_the_stub_code() {
    let guest = crafted_guest();
    let stub = crafted_stub_with_code();
    let packed = pack(&guest, &stub).unwrap();

    let obj = Object::new(&packed).unwrap();
    // Two stub LOAD headers, the padding LOAD, and GNU_STACK.
    assert_eq!(obj.header().ph_count, 4);
    // The program-header table ends at 64 + 56 * 4 = 288; the code
    // segment at file offset 400 was copied from the relocated image.
    let expected: Vec<u8> = (0..32u8).map(|i| 0xC0 + (i % 16)).collect();
    assert_eq!(&packed[400..432], &expected[..]);
    // The gap between the table and the copied segment is zero-filled.
    assert!(packed[288..400].iter().all(|&b| b == 0));
}
