use decomp_toolkit::ctors::patch_ctors_section;
use decomp_toolkit::dol::{align32, DolSection};
use decomp_toolkit::elf::{
    display_name, is_alloc, is_name_allowed, read_elf, section_kind, ElfFile, ElfSection,
    Endianness, SectionFlags, SectionKind,
};
use decomp_toolkit::elf2dol::{
    build, convert, elf_to_dol, input_format, is_kept, ConvertError, InputFormat,
};

const PROGBITS: u32 = 1;
const NOBITS: u32 = 8;
const WRITE: u32 = 1;
const ALLOC: u32 = 2;
const EXEC: u32 = 4;

/// A section of a test file.
struct Part {
    name: &'static str,
    sh_type: u32,
    flags: u32,
    address: u32,
    size: u32,
    data: Vec<u8>,
}

fn text(name: &'static str, address: u32, data: &[u8]) -> Part {
    Part {
        name,
        sh_type: PROGBITS,
        flags: ALLOC | EXEC,
        address,
        size: data.len() as u32,
        data: data.to_vec(),
    }
}

fn data(name: &'static str, address: u32, bytes: &[u8]) -> Part {
    Part {
        name,
        sh_type: PROGBITS,
        flags: ALLOC | WRITE,
        address,
        size: bytes.len() as u32,
        data: bytes.to_vec(),
    }
}

fn bss(name: &'static str, address: u32, size: u32) -> Part {
    Part { name, sh_type: NOBITS, flags: ALLOC | WRITE, address, size, data: Vec::new() }
}

fn put16(out: &mut Vec<u8>, big: bool, v: u16) {
    let bytes = if big { v.to_be_bytes() } else { v.to_le_bytes() };
    out.extend_from_slice(&bytes);
}

fn put32(out: &mut Vec<u8>, big: bool, v: u32) {
    let bytes = if big { v.to_be_bytes() } else { v.to_le_bytes() };
    out.extend_from_slice(&bytes);
}

/// A 32-bit ELF file with the given type, machine and byte order.
fn elf_file(e_type: u16, machine: u16, big: bool, entry: u32, parts: &[Part]) -> Vec<u8> {
    let mut names: Vec<u8> = vec![0];
    let mut body: Vec<u8> = Vec::new();
    let mut headers: Vec<[u32; 10]> = vec![[0; 10]];
    for part in parts {
        let name = names.len() as u32;
        names.extend_from_slice(part.name.as_bytes());
        names.push(0);
        let offset = 52 + body.len() as u32;
        body.extend_from_slice(&part.data);
        headers.push([
            name, part.sh_type, part.flags, part.address, offset, part.size, 0, 0, 4, 0,
        ]);
    }
    let strings = names.len() as u32;
    names.extend_from_slice(b".shstrtab\0");
    let offset = 52 + body.len() as u32;
    headers.push([strings, 3, 0, 0, offset, names.len() as u32, 0, 0, 1, 0]);
    body.extend_from_slice(&names);
    let mut out: Vec<u8> = vec![0x7f, 0x45, 0x4c, 0x46, 1, if big { 2 } else { 1 }, 1];
    out.resize(16, 0);
    put16(&mut out, big, e_type);
    put16(&mut out, big, machine);
    put32(&mut out, big, 1);
    put32(&mut out, big, entry);
    put32(&mut out, big, 0);
    put32(&mut out, big, 52 + body.len() as u32);
    put32(&mut out, big, 0);
    put16(&mut out, big, 52);
    put16(&mut out, big, 32);
    put16(&mut out, big, 0);
    put16(&mut out, big, 40);
    put16(&mut out, big, headers.len() as u16);
    put16(&mut out, big, headers.len() as u16 - 1);
    out.extend_from_slice(&body);
    for header in &headers {
        for word in header {
            put32(&mut out, big, *word);
        }
    }
    out
}

fn ppc(parts: &[Part]) -> Vec<u8> {
    elf_file(2, 20, true, 0x80003100, parts)
}

fn word(bytes: &[u8], at: usize) -> u32 {
    u32::from_be_bytes([bytes[at], bytes[at + 1], bytes[at + 2], bytes[at + 3]])
}

fn error_of(data: &[u8]) -> ConvertError {
    match elf_to_dol(data, &[]) {
        Ok(_) => panic!("the file was converted"),
        Err(e) => e,
    }
}

fn small() -> Vec<Part> {
    vec![
        text(".init", 0x80003100, &[1, 2, 3, 4, 5]),
        bss(".bss", 0x80006000, 0x40),
        data(".ctors", 0x80005000, &[0x80, 0, 0x31, 0x04, 0x80, 0, 0x31, 0]),
        text(".text", 0x80003200, &[9; 32]),
        data(".data", 0x80005100, &[7; 33]),
        bss(".sbss", 0x80006040, 0x8),
    ]
}

#[test]
fn elf_becomes_dol() {
    let dol = elf_to_dol(&ppc(&small()), &[]).unwrap();
    let h = &dol.header;
    assert_eq!(h.text_section_count, 2);
    assert_eq!(h.data_section_count, 2);
    assert_eq!(h.text_sections[0], DolSection { offset: 0x100, address: 0x80003100, size: 0x20 });
    assert_eq!(h.text_sections[1], DolSection { offset: 0x120, address: 0x80003200, size: 0x20 });
    assert_eq!(h.text_sections[2], DolSection::default());
    assert_eq!(h.data_sections[0], DolSection { offset: 0x140, address: 0x80005000, size: 0x20 });
    assert_eq!(h.data_sections[1], DolSection { offset: 0x160, address: 0x80005100, size: 0x40 });
    assert_eq!(h.data_sections[2], DolSection::default());
    assert_eq!(h.bss_address, 0x80006000);
    assert_eq!(h.bss_size, 0x48);
    assert_eq!(h.entry_point, 0x80003100);
    assert_eq!(dol.contents.len(), 0xa0);
}

#[test]
fn dol_file_holds_header_and_sections() {
    let bytes = elf_to_dol(&ppc(&small()), &[]).unwrap().to_bytes();
    assert_eq!(bytes.len(), 0x1a0);
    // Offsets
    assert_eq!(word(&bytes, 0), 0x100);
    assert_eq!(word(&bytes, 4), 0x120);
    assert_eq!(word(&bytes, 8), 0);
    assert_eq!(word(&bytes, 0x1c), 0x140);
    assert_eq!(word(&bytes, 0x20), 0x160);
    // Addresses
    assert_eq!(word(&bytes, 0x48), 0x80003100);
    assert_eq!(word(&bytes, 0x48 + 0x1c), 0x80005000);
    // Sizes
    assert_eq!(word(&bytes, 0x90), 0x20);
    assert_eq!(word(&bytes, 0x90 + 0x20), 0x40);
    // BSS and entry
    assert_eq!(word(&bytes, 0xd8), 0x80006000);
    assert_eq!(word(&bytes, 0xdc), 0x48);
    assert_eq!(word(&bytes, 0xe0), 0x80003100);
    assert!(bytes[0xe4..0x100].iter().all(|b| *b == 0));
    // Contents
    assert_eq!(bytes[0x100..0x106], [1, 2, 3, 4, 5, 0]);
    assert_eq!(bytes[0x120..0x140], [9; 32]);
    assert_eq!(bytes[0x140..0x149], [0x80, 0, 0x31, 0x04, 0x80, 0, 0x31, 0, 0]);
    assert_eq!(bytes[0x160..0x181], [7; 33]);
    assert!(bytes[0x181..].iter().all(|b| *b == 0));
}

#[test]
fn file_without_contents_is_only_a_header() {
    let dol = elf_to_dol(&ppc(&[bss(".bss", 0x80006000, 4)]), &[]).unwrap();
    assert_eq!(dol.to_bytes().len(), 228);
}

#[test]
fn denied_sections_do_not_count() {
    let denied = vec![".init".to_string(), ".bss".to_string(), ".data".to_string()];
    let with = elf_to_dol(&ppc(&small()), &denied).unwrap();
    let parts: Vec<Part> =
        small().into_iter().filter(|p| !denied.contains(&p.name.to_string())).collect();
    let without = elf_to_dol(&ppc(&parts), &[]).unwrap();
    assert_eq!(with.to_bytes(), without.to_bytes());
    assert_eq!(with.header.text_section_count, 1);
    assert_eq!(with.header.bss_address, 0x80006040);
    assert_eq!(with.header.bss_size, 8);
}

#[test]
fn sections_that_occupy_no_memory_are_left_out() {
    let mut part = data(".data", 0x80005000, &[1]);
    part.flags = WRITE;
    let dol = elf_to_dol(&ppc(&[part]), &[]).unwrap();
    assert_eq!(dol.header.data_section_count, 0);
}

#[test]
fn read_only_data_is_data() {
    let mut part = data(".odd", 0x80005000, &[1]);
    part.flags = ALLOC;
    let dol = elf_to_dol(&ppc(&[part]), &[]).unwrap();
    assert_eq!(dol.header.data_section_count, 1);
}

#[test]
fn bss_starts_at_the_first_address_that_is_not_zero() {
    let parts = [
        bss(".bss", 0, 0),
        bss(".sbss", 0x80007000, 0x10),
        bss(".sbss2", 0x80008000, 0x20),
    ];
    let dol = elf_to_dol(&ppc(&parts), &[]).unwrap();
    assert_eq!(dol.header.bss_address, 0x80007000);
    assert_eq!(dol.header.bss_size, 0x1020);
}

#[test]
fn parsed_file_says_what_the_bytes_hold() {
    let file = read_elf(&ppc(&small())).unwrap();
    assert_eq!(file.architecture, "PowerPc");
    assert_eq!(file.kind, "Executable");
    assert_eq!(file.endianness, Endianness::Big);
    assert_eq!(file.entry, 0x80003100);
    let names: Vec<Option<String>> = file.sections.iter().map(|s| s.name.clone()).collect();
    let at = names.iter().position(|n| n.as_deref() == Some(".init")).unwrap();
    let init = &file.sections[at];
    assert_eq!(init.kind, SectionKind::Text);
    assert_eq!(init.flags, SectionFlags::Elf { sh_flags: 6 });
    assert_eq!(init.address, 0x80003100);
    assert_eq!(init.size, 5);
    assert_eq!(init.data, Ok(vec![1, 2, 3, 4, 5]));
    let bss = &file.sections[at + 1];
    assert_eq!(bss.kind, SectionKind::UninitializedData);
    assert_eq!(bss.size, 0x40);
    assert_eq!(bss.data, Ok(Vec::new()));
}

#[test]
fn parsing_does_not_depend_on_where_the_bytes_lie() {
    let file = ppc(&small());
    let expected = elf_to_dol(&file, &[]).unwrap().to_bytes();
    for shift in 1..8 {
        let mut moved = vec![0u8; shift];
        moved.extend_from_slice(&file);
        assert_eq!(elf_to_dol(&moved[shift..], &[]).unwrap().to_bytes(), expected);
    }
}

#[test]
fn too_many_text_sections() {
    let parts: Vec<Part> = (0..8u32).map(|i| text(".text", i * 0x20, &[1])).collect();
    let e = error_of(&ppc(&parts));
    assert!(matches!(&e, ConvertError::TooManyTextSections(n) if n == ".text"));
    assert_eq!(e.message(), "Too many text sections (while processing '.text')");
    assert!(elf_to_dol(&ppc(&parts[..7]), &[]).is_ok());
}

#[test]
fn too_many_data_sections() {
    let parts: Vec<Part> = (0..12u32).map(|i| data(".sdata", i * 0x20, &[1])).collect();
    let e = error_of(&ppc(&parts));
    assert!(matches!(&e, ConvertError::TooManyDataSections(n) if n == ".sdata"));
    assert_eq!(e.message(), "Too many data sections (while processing '.sdata')");
    assert!(elf_to_dol(&ppc(&parts[..11]), &[]).is_ok());
}

#[test]
fn other_architectures_are_refused() {
    let e = error_of(&elf_file(2, 3, true, 0, &[]));
    assert!(matches!(&e, ConvertError::UnexpectedArchitecture(n) if n == "I386"));
    assert_eq!(e.message(), "Unexpected architecture: I386");
}

#[test]
fn little_endian_files_are_refused() {
    let e = error_of(&elf_file(2, 20, false, 0, &[]));
    assert!(matches!(e, ConvertError::ExpectedBigEndian));
    assert_eq!(e.message(), "Expected big endian");
}

#[test]
fn relocatable_files_are_refused() {
    let e = error_of(&elf_file(1, 20, true, 0, &[]));
    assert!(matches!(&e, ConvertError::UnexpectedKind(n) if n == "Relocatable"));
    assert_eq!(e.message(), "Unexpected ELF type: Relocatable");
}

#[test]
fn broken_files_are_refused() {
    let e = error_of(&[0x7f, 0x45, 0x4c, 0x46]);
    assert!(matches!(&e, ConvertError::Object(_)));
    assert!(!e.message().is_empty());
    assert!(matches!(error_of(&[]), ConvertError::Object(_)));
}

#[test]
fn sections_outside_of_the_file_are_refused() {
    let mut part = text(".text", 0x80003100, &[1]);
    part.size = 0x100000;
    assert!(matches!(error_of(&ppc(&[part])), ConvertError::Object(_)));
}

#[test]
fn sections_without_their_contents_are_out_of_range() {
    let mut part = text(".text", 0x80003100, &[]);
    part.sh_type = NOBITS;
    part.size = 0x40;
    let e = error_of(&ppc(&[part]));
    assert!(matches!(e, ConvertError::OutOfRange));
    assert_eq!(e.message(), "Section out of range");
}

#[test]
fn bss_beyond_the_address_space_is_out_of_range() {
    assert!(matches!(
        error_of(&ppc(&[bss(".bss", 0xffff_fff0, 0x20)])),
        ConvertError::OutOfRange
    ));
    let backwards = [bss(".bss", 0x80006000, 0x10), bss(".sbss", 0x80005000, 0x10)];
    assert!(matches!(error_of(&ppc(&backwards)), ConvertError::OutOfRange));
}

#[test]
fn formats_are_told_apart_by_the_magic_number() {
    assert_eq!(input_format(&[0x7f, 0x45, 0x4c, 0x46, 1]), InputFormat::Elf);
    assert_eq!(input_format(&[0, 0, 1, 0]), InputFormat::DolLike);
    assert_eq!(input_format(&[0x7f, 0x45, 0x4c, 0x47]), InputFormat::DolLike);
    assert_eq!(input_format(&[0, 0, 1]), InputFormat::Elf);
    assert_eq!(input_format(&[]), InputFormat::Elf);
}

fn section(name: Option<&str>, kind: SectionKind) -> ElfSection {
    ElfSection {
        name: name.map(|n| n.to_string()),
        kind,
        flags: SectionFlags::Elf { sh_flags: 2 },
        address: 0,
        size: 0,
        data: Ok(Vec::new()),
    }
}

#[test]
fn names_of_known_sections_decide_the_kind() {
    for name in [".init", ".text", ".vmtext", ".dbgtext"] {
        assert_eq!(section_kind(&section(Some(name), SectionKind::Data)), SectionKind::Text);
    }
    for name in [
        ".ctors", ".dtors", ".data", ".rodata", ".sdata", ".sdata2", "extab", "extabindex",
        ".BINARY",
    ] {
        assert_eq!(section_kind(&section(Some(name), SectionKind::Text)), SectionKind::Data);
    }
    for name in [".bss", ".sbss", ".sbss2"] {
        assert_eq!(
            section_kind(&section(Some(name), SectionKind::Data)),
            SectionKind::UninitializedData
        );
    }
    assert_eq!(section_kind(&section(Some(".x"), SectionKind::Text)), SectionKind::Text);
    assert_eq!(section_kind(&section(Some(".x"), SectionKind::Other)), SectionKind::Other);
    assert_eq!(section_kind(&section(None, SectionKind::ReadOnlyData)), SectionKind::Data);
}

#[test]
fn only_allocated_elf_sections_occupy_memory() {
    assert!(is_alloc(SectionFlags::Elf { sh_flags: 6 }));
    assert!(!is_alloc(SectionFlags::Elf { sh_flags: 5 }));
    assert!(!is_alloc(SectionFlags::Other));
}

#[test]
fn names_that_cannot_be_read_have_a_stand_in() {
    let broken = section(None, SectionKind::Data);
    assert_eq!(display_name(&broken), "[error]");
    assert!(!is_name_allowed(&broken, &["[error]".to_string()]));
    assert!(is_name_allowed(&broken, &[".data".to_string()]));
    let named = section(Some(".data"), SectionKind::Data);
    assert_eq!(display_name(&named), ".data");
    assert!(!is_name_allowed(&named, &[".text".to_string(), ".data".to_string()]));
}

#[test]
fn sizes_are_rounded_up_to_32() {
    assert_eq!(align32(0), 0);
    assert_eq!(align32(1), 32);
    assert_eq!(align32(32), 32);
    assert_eq!(align32(33), 64);
    assert_eq!(align32(u32::MAX - 31), 0xffff_ffe0);
}

#[test]
fn sizes_that_cannot_be_rounded_up_are_out_of_range() {
    let mut part = section(Some(".text"), SectionKind::Text);
    part.size = 0xffff_fff0;
    let file = ElfFile {
        architecture: "PowerPc".to_string(),
        endianness: Endianness::Big,
        kind: "Executable".to_string(),
        entry: 0,
        sections: vec![part],
    };
    assert!(matches!(convert(&file, &[]), Err(ConvertError::OutOfRange)));
}

#[test]
fn addresses_keep_their_low_32_bits() {
    let mut part = section(Some(".text"), SectionKind::Text);
    part.address = 0x1_8000_3100;
    part.size = 0x1_0000_0004;
    part.data = Ok(vec![1, 2, 3, 4]);
    let file = ElfFile {
        architecture: "PowerPc".to_string(),
        endianness: Endianness::Big,
        kind: "Executable".to_string(),
        entry: 0x2_8000_3100,
        sections: vec![part],
    };
    let dol = convert(&file, &[]).unwrap();
    assert_eq!(
        dol.header.text_sections[0],
        DolSection { offset: 0x100, address: 0x80003100, size: 0x20 }
    );
    assert_eq!(dol.header.entry_point, 0x80003100);
}

#[test]
fn patching_a_converted_dol_spares_header_and_text() {
    let dol = elf_to_dol(&ppc(&small()), &[]).unwrap();
    let built = dol.to_bytes();
    let mut orig = built.clone();
    orig[0x10] = 0xee;
    orig[0x101] = 0xee;
    orig[0x143] = 0x00;
    orig[0x147] = 0x04;
    let mut patched = built.clone();
    assert_eq!(patch_ctors_section(&orig, &mut patched, &dol.header), vec![0]);
    assert_eq!(patched[..0x140], built[..0x140]);
    assert_eq!(patched[0x140..0x160], orig[0x140..0x160]);
    assert_eq!(patched[0x160..], built[0x160..]);
}

#[test]
fn building_converts_and_patches() {
    let elf = ppc(&small());
    let dol = elf_to_dol(&elf, &[]).unwrap();
    let plain = dol.to_bytes();
    assert_eq!(build(&elf, &[], None).unwrap(), plain);
    assert_eq!(build(&elf, &[], Some(&plain)).unwrap(), plain);
    assert_eq!(build(&elf, &[], Some(&[])).unwrap(), plain);

    let mut orig = plain.clone();
    orig[0x143] = 0x00;
    orig[0x147] = 0x04;
    let patched = build(&elf, &[], Some(&orig)).unwrap();
    assert_eq!(patched, orig);
    assert_ne!(patched, plain);
    assert_eq!(dol.patched_bytes(&orig), (orig.clone(), vec![0]));
    assert_eq!(dol.patched_bytes(&plain), (plain, vec![]));
}

#[test]
fn building_leaves_out_denied_sections() {
    let denied = vec![".ctors".to_string()];
    let bytes = build(&ppc(&small()), &denied, None).unwrap();
    assert_eq!(word(&bytes, 0x48 + 0x1c), 0x80005100);
}

#[test]
fn building_from_a_refused_file_fails() {
    let relocatable = elf_file(1, 20, true, 0, &[]);
    assert!(matches!(
        build(&relocatable, &[], Some(&[0])),
        Err(ConvertError::UnexpectedKind(n)) if n == "Relocatable"
    ));
    assert!(matches!(build(&[], &[], None), Err(ConvertError::Object(_))));
}

#[test]
fn sections_are_kept_by_kind_memory_and_name() {
    let mut s = section(Some(".text"), SectionKind::Other);
    assert!(is_kept(&s, SectionKind::Text, &[]));
    assert!(!is_kept(&s, SectionKind::Data, &[]));
    assert!(!is_kept(&s, SectionKind::Text, &[".text".to_string()]));
    s.flags = SectionFlags::Elf { sh_flags: 4 };
    assert!(!is_kept(&s, SectionKind::Text, &[]));
}
