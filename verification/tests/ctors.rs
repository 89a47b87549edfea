use decomp_toolkit::ctors::patch_ctors_section;
use decomp_toolkit::dol::{dol_file, write_aligned, DolHeader, DolSection};

/// A header with two data sections of 16 bytes each, at 0x100 and 0x120.
fn header() -> DolHeader {
    let mut h = DolHeader::default();
    h.data_section_count = 2;
    h.data_sections[0] = DolSection { offset: 0x100, address: 0x804A9C00, size: 16 };
    h.data_sections[1] = DolSection { offset: 0x120, address: 0x804AA000, size: 16 };
    h
}

fn words(values: &[u32]) -> Vec<u8> {
    values.iter().flat_map(|v| v.to_be_bytes()).collect()
}

/// A file of 0x140 bytes with the given words in the two sections.
fn file(first: &[u32], second: &[u32]) -> Vec<u8> {
    let mut f = vec![0xaa; 0x140];
    f[0x100..0x110].copy_from_slice(&words(first));
    f[0x120..0x130].copy_from_slice(&words(second));
    f
}

const POINTERS: [u32; 4] = [0x80003100, 0x80003200, 0x817f_ffff, 0];
const REORDERED: [u32; 4] = [0x80003200, 0x80003100, 0x817f_ffff, 0];
const NUMBERS: [u32; 4] = [0x80003100, 17, 0, 0];

#[test]
fn reordered_pointers_are_copied_from_the_original() {
    let orig = file(&POINTERS, &NUMBERS);
    let mut built = file(&REORDERED, &NUMBERS);
    assert_eq!(patch_ctors_section(&orig, &mut built, &header()), vec![0]);
    assert_eq!(built, orig);
}

#[test]
fn matching_files_are_left_alone() {
    let orig = file(&POINTERS, &NUMBERS);
    let mut built = orig.clone();
    assert!(patch_ctors_section(&orig, &mut built, &header()).is_empty());
    assert_eq!(built, orig);
}

#[test]
fn sections_with_other_words_are_left_alone() {
    let orig = file(&NUMBERS, &NUMBERS);
    let mut built = file(&REORDERED, &POINTERS);
    let before = built.clone();
    assert!(patch_ctors_section(&orig, &mut built, &header()).is_empty());
    assert_eq!(built, before);
}

#[test]
fn pointers_end_below_the_upper_bound() {
    let zero = [0; 4];
    for (value, expected) in [
        (0x7fff_ffffu32, false),
        (0x8000_0000, true),
        (0x817f_ffff, true),
        (0x8180_0000, false),
    ] {
        let orig = file(&[0, value, 0, 0], &zero);
        let mut built = file(&zero, &zero);
        let patched = patch_ctors_section(&orig, &mut built, &header());
        assert_eq!(!patched.is_empty(), expected);
        assert_eq!(built == orig, expected);
    }
}

#[test]
fn all_sections_are_looked_at() {
    let orig = file(&POINTERS, &POINTERS);
    let mut built = file(&REORDERED, &REORDERED);
    assert_eq!(patch_ctors_section(&orig, &mut built, &header()), vec![0, 1]);
    assert_eq!(built, orig);
}

#[test]
fn bytes_outside_of_the_sections_stay() {
    let orig = file(&POINTERS, &NUMBERS);
    let mut built = file(&REORDERED, &NUMBERS);
    built[0x0ff] = 1;
    built[0x110] = 2;
    patch_ctors_section(&orig, &mut built, &header());
    assert_eq!(built[0x0ff], 1);
    assert_eq!(built[0x110], 2);
    assert_eq!(built[0x100..0x110], orig[0x100..0x110]);
}

#[test]
fn patching_twice_is_patching_once() {
    let orig = file(&POINTERS, &NUMBERS);
    let mut built = file(&REORDERED, &POINTERS);
    patch_ctors_section(&orig, &mut built, &header());
    let once = built.clone();
    assert!(patch_ctors_section(&orig, &mut built, &header()).is_empty());
    assert_eq!(built, once);
}

#[test]
fn sections_beyond_a_file_are_skipped() {
    let orig = file(&POINTERS, &POINTERS);
    let mut built = file(&REORDERED, &REORDERED);
    built.truncate(0x12f);
    assert_eq!(patch_ctors_section(&orig, &mut built, &header()), vec![0]);
    let short = orig[..0x10f].to_vec();
    let mut built = file(&REORDERED, &REORDERED);
    assert!(patch_ctors_section(&short, &mut built, &header()).is_empty());
}

#[test]
fn unused_slots_are_skipped() {
    let orig = file(&POINTERS, &POINTERS);
    let mut built = file(&REORDERED, &REORDERED);
    let mut h = header();
    h.data_sections[0].offset = 0;
    h.data_sections[1].size = 0;
    assert!(patch_ctors_section(&orig, &mut built, &h).is_empty());
}

#[test]
fn a_rest_of_less_than_a_word_is_not_looked_at() {
    let mut orig = file(&POINTERS, &NUMBERS);
    orig[0x110] = 0x12;
    let mut built = file(&REORDERED, &NUMBERS);
    let mut h = header();
    h.data_sections[0].size = 17;
    assert_eq!(patch_ctors_section(&orig, &mut built, &h), vec![0]);
    assert_eq!(built[0x110], 0x12);
}

#[test]
fn header_words_stand_in_columns() {
    let mut h = header();
    h.text_sections[6] = DolSection { offset: 1, address: 2, size: 3 };
    h.bss_address = 4;
    h.bss_size = 5;
    h.entry_point = 0x80003100;
    let bytes = h.to_bytes();
    let at = |i: usize| u32::from_be_bytes([bytes[i], bytes[i + 1], bytes[i + 2], bytes[i + 3]]);
    assert_eq!(bytes.len(), 228);
    assert_eq!((at(24), at(72 + 24), at(144 + 24)), (1, 2, 3));
    assert_eq!((at(28), at(72 + 28), at(144 + 28)), (0x100, 0x804A9C00, 16));
    assert_eq!((at(216), at(220), at(224)), (4, 5, 0x80003100));
}

#[test]
fn file_contents_start_at_a_fixed_place() {
    let bytes = dol_file(&DolHeader::default(), &[1, 2, 3]);
    assert_eq!(bytes.len(), 0x103);
    assert_eq!(bytes[0x100..], [1, 2, 3]);
    assert!(bytes[..0x100].iter().all(|b| *b == 0));
}

#[test]
fn contents_are_filled_up_with_zeros() {
    let mut out = vec![9];
    write_aligned(&mut out, &[1, 2, 3], 32);
    let mut expected = vec![9, 1, 2, 3];
    expected.resize(33, 0);
    assert_eq!(out, expected);
    write_aligned(&mut out, &[], 0);
    assert_eq!(out, expected);
}
