use decomp_toolkit::lcf::{
    generate_explicit_section_defs, generate_ldscript, generate_ldscript_partial,
    listed_section_def,
    try_generate_ldscript, try_generate_ldscript_partial, LcfHost,
};
use decomp_toolkit::obj::{
    ObjInfo, ObjKind, ObjSection, ObjSplit, ObjSymbol, ObjSymbolFlags, ObjUnit,
};
use decomp_toolkit::order::{sort_by_address, unique_names, PlacedUnit};
use decomp_toolkit::path::{
    asm_path_for_unit, labelled_encoding, obj_file_name, obj_path_for_unit, takes_extension,
    try_asm_path_for_unit, try_obj_file_name, try_obj_path_for_unit, PathEncoding,
};
use decomp_toolkit::text::{join, replace, text_eq, trim_start, upper_hex};

const ALL: &str = "$ORIGIN|$SECTIONS|$LAST_SECTION_SYMBOL|$LAST_SECTION_NAME|$STACKSIZE|\
$FORCEACTIVE|$ARENAHI";

fn host() -> LcfHost {
    LcfHost {
        encoding: PathEncoding::Unix,
        template: ALL.to_string(),
        partial_template: "$SECTIONS|$FORCEACTIVE".to_string(),
    }
}

fn section(name: &str, address: u64, align: u64, splits: &[(u32, &str)]) -> ObjSection {
    ObjSection {
        name: name.to_string(),
        address,
        align,
        splits: splits.iter().map(|(a, u)| (*a, ObjSplit { unit: u.to_string() })).collect(),
    }
}

fn unit(name: &str, order: Option<i32>) -> ObjUnit {
    ObjUnit { name: name.to_string(), order }
}

fn symbol(name: &str, exported: bool, global: bool, no_write: bool) -> ObjSymbol {
    ObjSymbol { name: name.to_string(), flags: ObjSymbolFlags { exported, global, no_write } }
}

fn object() -> ObjInfo {
    ObjInfo {
        kind: ObjKind::Executable,
        sections: vec![
            section(".init", 0x80003100, 0x20, &[]),
            section(
                ".text",
                0x80003400,
                0x4,
                &[(0x200, "src/b.c"), (0x0, "src/a.cpp"), (0x100, "src/b.c"), (0x0, "lib/c")],
            ),
            section(".data", 0x80005000, 0x1000, &[(0, "src/a.cpp")]),
            section("..sbss2", 0x80003000, 0x8, &[]),
        ],
        symbols: vec![
            symbol("kept", true, true, false),
            symbol("local", true, false, false),
            symbol("hidden", false, true, false),
            symbol("unwritten", true, true, true),
            symbol("also_kept", true, true, false),
        ],
        entry: Some(0x80003100),
        link_order: vec![unit("src/b.c", None), unit("src/a.cpp", Some(1))],
        stack_address: Some(0x80010000),
        stack_end: Some(0x8000_8000),
        arena_hi: None,
    }
}

#[test]
fn full_script_with_explicit_order() {
    let asked = vec!["asked".to_string()];
    let script = generate_ldscript(&object(), None, &asked, &host());
    let expected = "0x80003000|\
.init ALIGN(0x20):{}\n        \
.text ALIGN(0x4): {\n            a.o (.text)\n            c.o (.text)\n            b.o (.text)\n        }\n        \
.data ALIGN(0x1000):{}\n        \
..sbss2 ALIGN(0x8):{}|\
_f_sbss2|..sbss2|0x8000|\
asked\n    kept\n    also_kept|0x81700000";
    assert_eq!(script, expected);
}

#[test]
fn full_script_without_explicit_order() {
    let mut o = object();
    o.link_order[1].order = None;
    o.stack_end = None;
    o.arena_hi = Some(0x8100_00AB);
    let script = generate_ldscript(&o, None, &[], &host());
    let expected = "0x80003000|\
.init ALIGN(0x20):{}\n        .text ALIGN(0x4):{}\n        .data ALIGN(0x1000):{}\n        \
..sbss2 ALIGN(0x8):{}|_f_sbss2|..sbss2|0xFFFF|kept\n    also_kept|0x810000AB";
    assert_eq!(script, expected);
}

#[test]
fn template_of_the_caller_comes_first() {
    assert_eq!(generate_ldscript(&object(), Some("a $ORIGIN b $ORIGIN"), &[], &host()), "a 0x80003000 b 0x80003000");
    assert_eq!(generate_ldscript(&object(), Some("plain"), &[], &host()), "plain");
    assert_eq!(generate_ldscript_partial(&object(), Some("plain"), &[], &host()), "plain");
}

#[test]
fn variables_are_put_in_one_after_another() {
    let mut o = object();
    o.sections.push(section("$STACKSIZE", 0x8100_0000, 1, &[]));
    let script = generate_ldscript(&o, Some("$LAST_SECTION_NAME"), &[], &host());
    assert_eq!(script, "0x8000");
}

#[test]
fn partial_script_collects_exception_tables() {
    let mut o = object();
    o.kind = ObjKind::Relocatable;
    o.sections.truncate(3);
    let script = generate_ldscript_partial(&o, None, &[], &host());
    let expected = ".init ALIGN(0x20):{}\n        .text ALIGN(0x4):{}\n        \
.data ALIGN(0x1000):{ *(.data) *(extabindex) *(extab) }|kept\n    also_kept";
    assert_eq!(script, expected);
    assert_eq!(generate_ldscript(&o, None, &[], &host()), expected);
}

#[test]
fn partial_script_without_entry_has_an_empty_init() {
    let mut o = object();
    o.entry = None;
    o.sections = vec![section(".text", 0, 4, &[])];
    o.symbols.clear();
    let script = generate_ldscript_partial(&o, None, &[], &host());
    assert_eq!(script, ".init :{}\n        .text ALIGN(0x4):{}|");
}

#[test]
fn sections_of_one_name_list_the_units_of_the_last() {
    let mut o = object();
    o.sections = vec![
        section(".text", 0, 4, &[(0, "a.c")]),
        section(".text", 0x100, 8, &[(0, "b.c")]),
    ];
    let defs = generate_explicit_section_defs(&o, PathEncoding::Unix);
    assert_eq!(
        defs,
        ".text ALIGN(0x4): {\n            b.o (.text)\n        }\n        \
.text ALIGN(0x8): {\n            b.o (.text)\n        }"
    );
}

#[test]
fn scripts_that_cannot_be_made() {
    let h = host();
    assert!(try_generate_ldscript(&object(), None, &[], &h).is_some());

    let mut o = object();
    o.sections.clear();
    assert!(try_generate_ldscript(&o, None, &[], &h).is_none());
    assert!(try_generate_ldscript_partial(&o, None, &[], &h).is_some());

    let mut o = object();
    o.stack_end = Some(0x80010001);
    assert!(try_generate_ldscript(&o, None, &[], &h).is_none());

    let mut o = object();
    o.link_order.push(unit("..", None));
    assert!(try_generate_ldscript(&o, None, &[], &h).is_none());
    assert!(try_generate_ldscript_partial(&o, None, &[], &h).is_none());

    let mut o = object();
    o.sections[1].splits.push((0, ObjSplit { unit: "/".to_string() }));
    assert!(try_generate_ldscript(&o, None, &[], &h).is_none());
    o.link_order[1].order = None;
    assert!(try_generate_ldscript(&o, None, &[], &h).is_some());

    let mut o = object();
    o.sections[2].address = u64::MAX;
    o.sections[2].splits[0].0 = 1;
    assert!(try_generate_ldscript(&o, None, &[], &h).is_none());

    let mut o = object();
    o.kind = ObjKind::Relocatable;
    o.sections.clear();
    assert_eq!(
        try_generate_ldscript(&o, None, &[], &h),
        try_generate_ldscript_partial(&o, None, &[], &h)
    );
}

#[test]
fn native_host_keeps_the_templates() {
    let h = LcfHost::native("full".to_string(), "partial".to_string());
    assert_eq!(h.template, "full");
    assert_eq!(h.partial_template, "partial");
    let unix = typed_path::Utf8NativePathBuf::from("a/b").has_unix_encoding();
    assert_eq!(h.encoding == PathEncoding::Unix, unix);
    assert_eq!(labelled_encoding("windows"), PathEncoding::Windows);
    assert_eq!(labelled_encoding("unix"), PathEncoding::Unix);
}

fn placed(list: &[(&str, u64)]) -> Vec<PlacedUnit> {
    list.iter().map(|(n, a)| PlacedUnit { name: n.to_string(), address: *a }).collect()
}

#[test]
fn units_are_sorted_by_address_and_keep_their_order() {
    let sorted = sort_by_address(placed(&[("c", 3), ("a", 1), ("x", 3), ("b", 2), ("y", 1)]));
    let got: Vec<(&str, u64)> = sorted.iter().map(|u| (u.name.as_str(), u.address)).collect();
    assert_eq!(got, vec![("a", 1), ("y", 1), ("b", 2), ("c", 3), ("x", 3)]);
    assert!(sort_by_address(Vec::new()).is_empty());
}

#[test]
fn sorted_units_stay() {
    let sorted = sort_by_address(placed(&[("z", 0), ("b", 5), ("a", 5), ("c", 6)]));
    let names: Vec<&str> = sorted.iter().map(|u| u.name.as_str()).collect();
    assert_eq!(names, vec!["z", "b", "a", "c"]);
}

#[test]
fn explicit_definitions_without_units_are_simple() {
    let mut o = object();
    o.sections[1].splits.clear();
    let explicit = generate_explicit_section_defs(&o, PathEncoding::Unix);
    o.link_order.clear();
    assert_eq!(explicit, generate_ldscript(&o, Some("$SECTIONS"), &[], &host()));
}

#[test]
fn link_order_does_not_change_the_script() {
    let mut o = object();
    let expected = generate_ldscript(&o, None, &[], &host());
    o.link_order.swap(0, 1);
    assert_eq!(generate_ldscript(&o, None, &[], &host()), expected);
    o.link_order = vec![unit("other.c", Some(7))];
    assert_eq!(generate_ldscript(&o, None, &[], &host()), expected);
}

#[test]
fn names_are_kept_where_they_come_first() {
    let names = unique_names(&placed(&[("b", 0), ("a", 1), ("b", 2), ("c", 3), ("a", 4)]));
    assert_eq!(names, vec!["b", "a", "c"]);
}

#[test]
fn unix_paths_of_units() {
    let unix = PathEncoding::Unix;
    assert_eq!(obj_path_for_unit("src/game/main.cpp", unix), "src/game/main.o");
    assert_eq!(asm_path_for_unit("src/game/main.cpp", unix), "src/game/main.s");
    assert_eq!(obj_path_for_unit("src/main", unix), "src/main.o");
    assert_eq!(obj_path_for_unit("src/.hidden", unix), "src/.hidden.o");
    assert_eq!(obj_path_for_unit("src/main.", unix), "src/main.o");
    assert_eq!(obj_path_for_unit("a.tar.gz", unix), "a.tar.o");
    assert_eq!(obj_path_for_unit("a..c", unix), "a.o");
    assert_eq!(obj_path_for_unit("dir.d/main.c/", unix), "dir.d/main.c.o");
    assert_eq!(obj_path_for_unit("..", unix), "..");
    assert_eq!(obj_path_for_unit("ä/é.ü", unix), "ä/é.o");
}

#[test]
fn windows_paths_of_units() {
    let windows = PathEncoding::Windows;
    assert_eq!(obj_path_for_unit("src/game/main.cpp", windows), "src\\game\\main.o");
    assert_eq!(asm_path_for_unit("src/game/main.cpp", windows), "src\\game\\main.s");
    assert_eq!(obj_file_name("src/game/main.cpp", windows), "main.o");
}

#[test]
fn file_names_of_object_files() {
    let unix = PathEncoding::Unix;
    assert_eq!(obj_file_name("src/game/main.cpp", unix), "main.o");
    assert_eq!(try_obj_file_name("src/main", unix), Some("main.o".to_string()));
    assert_eq!(try_obj_file_name("..", unix), None);
    assert_eq!(try_obj_file_name("/", unix), None);
    assert_eq!(try_obj_file_name("", unix), None);
}

#[test]
fn extensions_that_cannot_be_cut_off() {
    let unix = PathEncoding::Unix;
    assert!(takes_extension("a.c/", unix));
    assert!(!takes_extension("a.é/", unix));
    assert!(takes_extension("a.éé//", unix));
    assert_eq!(try_obj_path_for_unit("a.é/", unix), None);
    assert_eq!(try_asm_path_for_unit("a.é/", unix), None);
    assert_eq!(try_obj_path_for_unit("a.éé//", unix), Some("a.é.o".to_string()));
    assert_eq!(try_asm_path_for_unit("b.c", unix), Some("b.s".to_string()));
}

#[test]
fn numbers_are_printed_in_upper_case_hexadecimal() {
    for n in [0, 1, 9, 10, 15, 16, 255, 0xabcdef, 65535, 0x81700000, u64::MAX] {
        let text = upper_hex(n);
        assert_eq!(text, format!("{n:#X}"));
        assert_eq!(u64::from_str_radix(&text[2..], 16), Ok(n));
    }
}

#[test]
fn occurrences_are_replaced_from_left_to_right() {
    for (s, pat, to) in [
        ("", "a", "b"),
        ("aaa", "aa", "b"),
        ("a$A$AB", "$A", "x$A"),
        ("äöü", "ö", ""),
        ("abc", "abcd", "x"),
        ("xyx", "x", "xx"),
    ] {
        assert_eq!(replace(s, pat, to), s.replace(pat, to));
    }
}

#[test]
fn leading_characters_are_dropped() {
    for s in ["", ".", "..a.b", "a.", "é"] {
        assert_eq!(trim_start(s, '.'), s.trim_start_matches('.'));
    }
}

#[test]
fn parts_are_joined() {
    let parts = vec!["a".to_string(), "".to_string(), "c".to_string()];
    assert_eq!(join(&parts, ", "), parts.join(", "));
    assert_eq!(join(&[], ", "), "");
    assert_eq!(join(&parts[..1], ", "), "a");
}

#[test]
fn texts_are_compared_by_their_characters() {
    assert!(text_eq("é.o", "é.o"));
    assert!(!text_eq("a", "b"));
    assert!(!text_eq("a", "aa"));
    assert!(text_eq("", ""));
}

#[test]
fn listed_files_stand_one_a_line() {
    let s = section(".text", 0x80003400, 0x20, &[]);
    let files = vec!["b.o".to_string(), "a.o".to_string()];
    assert_eq!(
        listed_section_def(&s, &files),
        ".text ALIGN(0x20): {\n            b.o (.text)\n            a.o (.text)\n        }"
    );
    assert_eq!(listed_section_def(&s, &[]), ".text ALIGN(0x20): {\n\n        }");
}

#[test]
fn unix_paths_that_end_in_a_name_have_object_files() {
    let unix = PathEncoding::Unix;
    for (unit, path, file) in [
        ("main.c", "main.o", "main.o"),
        ("/main.c", "/main.o", "main.o"),
        ("a//b.c", "a//b.o", "b.o"),
        ("./a", "./a.o", "a.o"),
        ("../a.b.c", "../a.b.o", "a.b.o"),
        ("x/.c", "x/.c.o", ".c.o"),
        ("x/..c", "x/.o", ".o"),
        ("x/a.", "x/a.o", "a.o"),
        ("x/...", "x/...o", "...o"),
        ("x\\y.c", "x\\y.o", "x\\y.o"),
        ("é/ö.ü", "é/ö.o", "ö.o"),
    ] {
        assert_eq!(try_obj_path_for_unit(unit, unix), Some(path.to_string()));
        assert_eq!(try_obj_file_name(unit, unix), Some(file.to_string()));
    }
}

#[test]
fn assembly_paths_come_from_object_paths() {
    let unix = PathEncoding::Unix;
    for unit in ["src/a.c", "b.cpp", "/c.d.e", "src/main", ".hidden", "dir/main.c/", "a..c"] {
        let object = obj_path_for_unit(unit, unix);
        assert_eq!(asm_path_for_unit(&object, unix), asm_path_for_unit(unit, unix));
    }
}

#[test]
fn filled_templates_hold_no_variable() {
    let template = format!("{ALL} costs $5 and $x, $ORIGIN$STACKSIZE$");
    let script = generate_ldscript(&object(), Some(&template), &[], &host());
    for variable in ALL.split('|') {
        assert!(!script.contains(variable));
    }
    assert!(script.ends_with(" costs $5 and $x, 0x800030000x8000$"));
    let partial = generate_ldscript_partial(&object(), Some("$$5 $FORCEACTIVE$SECTIONS"), &[], &host());
    assert!(!partial.contains("$FORCEACTIVE"));
    assert!(!partial.contains("$SECTIONS"));
}
