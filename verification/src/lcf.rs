//! Generating linker scripts.
//!
//! A script is made from a template in which variables such as `$SECTIONS` stand for the parts that
//! depend on the object.
use vstd::prelude::*;
use crate::obj;
use crate::obj::{ObjInfo, ObjKind, ObjSection, ObjSymbol};
use crate::order;
use crate::order::{sort_by_address, unique_names, PlacedUnit};
use crate::path;
use crate::path::{native_encoding, obj_file_name, try_obj_file_name, PathEncoding};
use crate::text;
use crate::text::{join, replace, text_eq, trim_start, upper_hex};

verus! {

/// The stack size of an object that does not say where its stack lies.
pub const DEFAULT_STACK_SIZE: u32 = 65535;

/// The end of the arena of an object that does not say where it lies.
pub const DEFAULT_ARENA_HI: u32 = 0x8170_0000;

/// What generating depends on besides the object: how the platform writes paths, and the templates
/// for a full and for a partial script where the caller brings none.
#[derive(Debug)]
pub struct LcfHost {
    pub encoding: PathEncoding,
    pub template: String,
    pub partial_template: String,
}

/// One line of a section definition that lists files: the section of one object file.
pub open spec fn file_line(file: Seq<char>, section: Seq<char>) -> Seq<char> {
    "            "@ + file + " ("@ + section + ")"@
}

/// The beginning of a section definition: the name and the alignment.
pub open spec fn def_head(section: obj::SectionView) -> Seq<char> {
    section.name + " ALIGN("@ + text::hex_text(section.align as int) + ")"@
}

/// A section definition that leaves the order of the files to the linker.
pub open spec fn simple_def(section: obj::SectionView, inner: Seq<char>) -> Seq<char> {
    def_head(section) + ":{"@ + inner + "}"@
}

/// A section definition that lists its files, one a line.
pub open spec fn listed_def(section: obj::SectionView, files: Seq<Seq<char>>) -> Seq<char> {
    def_head(section) + ": {\n"@ + text::joined(
        Seq::new(files.len(), |i: int| file_line(files[i], section.name)),
        "\n"@,
    ) + "\n        }"@
}

/// Whether the linker takes a list of files for a section: code sections only.
pub open spec fn takes_file_list(name: Seq<char>) -> bool {
    name == ".text"@ || name == ".init"@
}

/// The units of a section with their addresses.
pub open spec fn placed_units(section: obj::SectionView) -> Seq<order::PlacedView> {
    Seq::new(
        section.splits.len(),
        |i: int|
            order::PlacedView {
                name: section.splits[i].1,
                address: (section.address + section.splits[i].0) as u64,
            },
    )
}

/// Whether the addresses of all splits of a section lie in the address space.
pub open spec fn splits_in_range(section: obj::SectionView) -> bool {
    forall|i: int|
        0 <= i < section.splits.len() ==> section.address + (#[trigger] section.splits[i]).0
            <= u64::MAX
}

/// The units of the last section with a name.
pub open spec fn units_by_name(sections: Seq<obj::SectionView>, name: Seq<char>) -> Seq<
    order::PlacedView,
>
    decreases sections.len(),
{
    if sections.len() == 0 {
        Seq::empty()
    } else if sections.last().name == name {
        placed_units(sections.last())
    } else {
        units_by_name(sections.drop_last(), name)
    }
}

/// The units that the definition of a section lists, in address order; none where the linker takes
/// no list.
pub open spec fn listed_units(sections: Seq<obj::SectionView>, name: Seq<char>) -> Seq<Seq<char>> {
    if takes_file_list(name) {
        order::first_occurrences(order::names(order::by_address(units_by_name(sections, name))))
    } else {
        Seq::empty()
    }
}

/// The object files of units.
pub open spec fn obj_files(units: Seq<Seq<char>>, encoding: PathEncoding) -> Seq<Seq<char>> {
    Seq::new(units.len(), |i: int| path::obj_file(units[i], encoding))
}

/// The object files of units whose Unix paths end in names.
pub open spec fn plain_obj_files(units: Seq<Seq<char>>) -> Seq<Seq<char>> {
    Seq::new(units.len(), |i: int| path::plain_obj_file(units[i]))
}

/// The definition of a section with the files that it lists; a simple one if there are none.
pub open spec fn def_with_files(section: obj::SectionView, files: Seq<Seq<char>>) -> Seq<char> {
    if files.len() == 0 {
        simple_def(section, Seq::empty())
    } else {
        listed_def(section, files)
    }
}

/// The definition of a section with explicit file order: it lists the object files of its units.
pub open spec fn explicit_def(
    sections: Seq<obj::SectionView>,
    section: obj::SectionView,
    encoding: PathEncoding,
) -> Seq<char> {
    def_with_files(section, obj_files(listed_units(sections, section.name), encoding))
}

/// What stands between two section definitions.
pub open spec fn def_separator() -> Seq<char> {
    "\n        "@
}

/// The section definitions with explicit file order.
pub open spec fn explicit_defs(sections: Seq<obj::SectionView>, encoding: PathEncoding) -> Seq<
    char,
> {
    text::joined(
        Seq::new(sections.len(), |i: int| explicit_def(sections, sections[i], encoding)),
        def_separator(),
    )
}

/// The section definitions with explicit file order on Unix, where the paths of all listed units
/// end in names.
pub open spec fn plain_explicit_defs(sections: Seq<obj::SectionView>) -> Seq<char> {
    text::joined(
        Seq::new(
            sections.len(),
            |i: int|
                def_with_files(
                    sections[i],
                    plain_obj_files(listed_units(sections, sections[i].name)),
                ),
        ),
        def_separator(),
    )
}

/// The section definitions without file order.
pub open spec fn simple_defs(sections: Seq<obj::SectionView>) -> Seq<char> {
    text::joined(
        Seq::new(sections.len(), |i: int| simple_def(sections[i], Seq::empty())),
        def_separator(),
    )
}

/// What a section of a partially linked object collects by name.
pub open spec fn partial_inner(name: Seq<char>) -> Seq<char> {
    if name == ".data"@ {
        " *(.data) *(extabindex) *(extab) "@
    } else {
        Seq::empty()
    }
}

/// The section definitions of a partially linked object. Without an entry point an empty `.init`
/// comes first, which the linker wants.
pub open spec fn partial_defs(o: obj::ObjView) -> Seq<char> {
    let defs = text::joined(
        Seq::new(
            o.sections.len(),
            |i: int| simple_def(o.sections[i], partial_inner(o.sections[i].name)),
        ),
        def_separator(),
    );
    if o.entry is None {
        ".init :{}\n        "@ + defs
    } else {
        defs
    }
}

/// Whether the link order of an object was set explicitly.
pub open spec fn has_explicit_order(units: Seq<obj::UnitView>) -> bool {
    exists|i: int| 0 <= i < units.len() && (#[trigger] units[i]).order is Some
}

/// The definitions that the full script holds.
pub open spec fn full_defs(o: obj::ObjView, encoding: PathEncoding) -> Seq<char> {
    if has_explicit_order(o.link_order) {
        explicit_defs(o.sections, encoding)
    } else {
        simple_defs(o.sections)
    }
}

/// The definitions that the full script holds on Unix, where the paths of all listed units end in
/// names.
pub open spec fn plain_full_defs(o: obj::ObjView) -> Seq<char> {
    if has_explicit_order(o.link_order) {
        plain_explicit_defs(o.sections)
    } else {
        simple_defs(o.sections)
    }
}

/// Whether a symbol is kept alive by the linker script: exported, global, and written.
pub open spec fn kept_alive(symbol: obj::SymbolView) -> bool {
    symbol.flags.exported && symbol.flags.global && !symbol.flags.no_write
}

/// The names that the linker keeps alive: those asked for, then the symbols of the object.
pub open spec fn force_active_names(
    asked: Seq<Seq<char>>,
    symbols: Seq<obj::SymbolView>,
) -> Seq<Seq<char>>
    decreases symbols.len(),
{
    if symbols.len() == 0 {
        asked
    } else {
        let before = force_active_names(asked, symbols.drop_last());
        if kept_alive(symbols.last()) {
            before.push(symbols.last().name)
        } else {
            before
        }
    }
}

/// The names that the linker keeps alive, as the script lists them.
pub open spec fn force_active_text(asked: Seq<Seq<char>>, symbols: Seq<obj::SymbolView>) -> Seq<
    char,
> {
    text::joined(force_active_names(asked, symbols), "\n    "@)
}

/// The lowest address of a section.
pub open spec fn origin(sections: Seq<obj::SectionView>) -> u64
    decreases sections.len(),
{
    if sections.len() == 0 {
        u64::MAX
    } else {
        let before = origin(sections.drop_last());
        if sections.last().address < before {
            sections.last().address
        } else {
            before
        }
    }
}

/// The stack size.
pub open spec fn stack_size(o: obj::ObjView) -> int {
    match (o.stack_address, o.stack_end) {
        (Some(address), Some(end)) => address - end,
        _ => DEFAULT_STACK_SIZE as int,
    }
}

/// The end of the arena.
pub open spec fn arena_hi(o: obj::ObjView) -> int {
    match o.arena_hi {
        Some(address) => address as int,
        None => DEFAULT_ARENA_HI as int,
    }
}

/// The symbol in front of a section.
pub open spec fn section_symbol(name: Seq<char>) -> Seq<char> {
    "_f_"@ + text::trimmed_start(name, '.')
}

/// A template with the variables of a full script put in, one after another.
pub open spec fn filled(
    o: obj::ObjView,
    template: Seq<char>,
    asked: Seq<Seq<char>>,
    defs: Seq<char>,
) -> Seq<char> {
    let last = o.sections.last().name;
    let s = text::replaced(template, "$ORIGIN"@, text::hex_text(origin(o.sections) as int));
    let s = text::replaced(s, "$SECTIONS"@, defs);
    let s = text::replaced(s, "$LAST_SECTION_SYMBOL"@, section_symbol(last));
    let s = text::replaced(s, "$LAST_SECTION_NAME"@, last);
    let s = text::replaced(s, "$STACKSIZE"@, text::hex_text(stack_size(o)));
    let s = text::replaced(s, "$FORCEACTIVE"@, force_active_text(asked, o.symbols));
    text::replaced(s, "$ARENAHI"@, text::hex_text(arena_hi(o)))
}

/// A full script.
pub open spec fn full_script(
    o: obj::ObjView,
    template: Seq<char>,
    asked: Seq<Seq<char>>,
    encoding: PathEncoding,
) -> Seq<char> {
    filled(o, template, asked, full_defs(o, encoding))
}

/// A partial script: the template with its variables put in, one after another.
pub open spec fn partial_script(o: obj::ObjView, template: Seq<char>, asked: Seq<Seq<char>>) -> Seq<
    char,
> {
    let s = text::replaced(template, "$SECTIONS"@, partial_defs(o));
    text::replaced(s, "$FORCEACTIVE"@, force_active_text(asked, o.symbols))
}

/// The template that is used: the one that the caller brings, or the default.
pub open spec fn chosen(template: Option<&str>, default: Seq<char>) -> Seq<char> {
    match template {
        Some(t) => t@,
        None => default,
    }
}

/// The script for an object.
pub open spec fn script(
    o: obj::ObjView,
    template: Option<&str>,
    asked: Seq<Seq<char>>,
    host: LcfHost,
) -> Seq<char> {
    if o.kind == ObjKind::Relocatable {
        partial_script(o, chosen(template, host.partial_template@), asked)
    } else {
        full_script(o, chosen(template, host.template@), asked, host.encoding)
    }
}

/// The script for an object on Unix, where the paths of all listed units end in names.
pub open spec fn plain_script(
    o: obj::ObjView,
    template: Option<&str>,
    asked: Seq<Seq<char>>,
    host: LcfHost,
) -> Seq<char> {
    if o.kind == ObjKind::Relocatable {
        partial_script(o, chosen(template, host.partial_template@), asked)
    } else {
        filled(o, chosen(template, host.template@), asked, plain_full_defs(o))
    }
}

/// Whether the paths of all units end in names.
pub open spec fn all_end_in_names(units: Seq<Seq<char>>) -> bool {
    forall|i: int| 0 <= i < units.len() ==> path::ends_in_name(#[trigger] units[i])
}

/// Whether the paths of all units that are listed end in names.
pub open spec fn listed_end_in_names(sections: Seq<obj::SectionView>) -> bool {
    forall|i: int|
        0 <= i < sections.len() ==> all_end_in_names(
            listed_units(sections, (#[trigger] sections[i]).name),
        )
}

/// Whether all units have object files.
pub open spec fn have_obj_files(units: Seq<Seq<char>>, encoding: PathEncoding) -> bool {
    forall|i: int| 0 <= i < units.len() ==> path::has_obj_file(#[trigger] units[i], encoding)
}

/// The names of the units in link order.
pub open spec fn unit_names(units: Seq<obj::UnitView>) -> Seq<Seq<char>> {
    Seq::new(units.len(), |i: int| units[i].name)
}

/// Whether section definitions with explicit file order can be made: the addresses of all splits
/// lie in the address space, and all units that are listed have object files.
pub open spec fn explicit_ready(sections: Seq<obj::SectionView>, encoding: PathEncoding) -> bool {
    &&& forall|i: int| 0 <= i < sections.len() ==> splits_in_range(#[trigger] sections[i])
    &&& forall|i: int|
        0 <= i < sections.len() ==> have_obj_files(
            listed_units(sections, (#[trigger] sections[i]).name),
            encoding,
        )
}

/// Whether a partial script can be made: all units have object files.
pub open spec fn partial_ready(o: obj::ObjView, encoding: PathEncoding) -> bool {
    have_obj_files(unit_names(o.link_order), encoding)
}

/// Whether a full script can be made: there is a section, the stack does not end above its start,
/// explicit definitions can be made where they are asked for, and all units have object files.
pub open spec fn full_ready(o: obj::ObjView, encoding: PathEncoding) -> bool {
    &&& o.sections.len() > 0
    &&& stack_size(o) >= 0
    &&& has_explicit_order(o.link_order) ==> explicit_ready(o.sections, encoding)
    &&& have_obj_files(unit_names(o.link_order), encoding)
}

/// Whether the script for an object can be made.
pub open spec fn ready(o: obj::ObjView, encoding: PathEncoding) -> bool {
    if o.kind == ObjKind::Relocatable {
        partial_ready(o, encoding)
    } else {
        full_ready(o, encoding)
    }
}

/// Whether the script for an object can be made on Unix, as far as the object alone says: the paths
/// of all units end in names, and what a full script needs besides is there.
pub open spec fn plain_ready(o: obj::ObjView) -> bool {
    &&& all_end_in_names(unit_names(o.link_order))
    &&& o.kind != ObjKind::Relocatable ==> {
        &&& o.sections.len() > 0
        &&& stack_size(o) >= 0
        &&& has_explicit_order(o.link_order) ==> {
            &&& forall|i: int|
                0 <= i < o.sections.len() ==> splits_in_range(#[trigger] o.sections[i])
            &&& listed_end_in_names(o.sections)
        }
    }
}

/// The contents of a list of sections.
pub open spec fn section_views(sections: Seq<ObjSection>) -> Seq<obj::SectionView> {
    Seq::new(sections.len(), |i: int| sections[i]@)
}

/// The contents of a list of symbols.
pub open spec fn symbol_views(symbols: Seq<ObjSymbol>) -> Seq<obj::SymbolView> {
    Seq::new(symbols.len(), |i: int| symbols[i]@)
}

impl LcfHost {
    /// The host that the program was compiled for, with the given templates. How it writes paths
    /// depends on the platform, and nothing is stated of it.
    pub fn native(template: String, partial_template: String) -> (host: LcfHost)
        ensures
            host.template@ == template@,
            host.partial_template@ == partial_template@,
    {
        LcfHost { encoding: native_encoding(), template, partial_template }
    }
}

/// The beginning of a section definition.
fn head_text(section: &ObjSection) -> (head: String)
    ensures
        head@ == def_head(section@),
{
    let mut head = section.name.clone();
    head.append(" ALIGN(");
    head.append(upper_hex(section.align).as_str());
    head.append(")");
    head
}

/// A section definition that leaves the order of the files to the linker.
fn simple_text(section: &ObjSection, inner: &str) -> (def: String)
    ensures
        def@ == simple_def(section@, inner@),
{
    let mut def = head_text(section);
    def.append(":{");
    def.append(inner);
    def.append("}");
    def
}

/// A section definition that lists its files, one a line.
pub fn listed_section_def(section: &ObjSection, files: &[String]) -> (def: String)
    ensures
        def@ == listed_def(section@, text::views(files@)),
{
    let ghost names = text::views(files@);
    let ghost lines = Seq::new(names.len(), |i: int| file_line(names[i], section@.name));
    let mut texts: Vec<String> = Vec::new();
    let mut i: usize = 0;
    while i < files.len()
        invariant
            i <= files@.len(),
            texts@.len() == i,
            names == text::views(files@),
            lines == Seq::new(names.len(), |i: int| file_line(names[i], section@.name)),
            forall|j: int| 0 <= j < i ==> (#[trigger] texts@[j])@ == lines[j],
        decreases files@.len() - i,
    {
        let mut line = "            ".to_owned();
        line.append(files[i].as_str());
        line.append(" (");
        line.append(section.name.as_str());
        line.append(")");
        texts.push(line);
        i += 1;
    }
    assert(text::views(texts@) =~= lines);
    let mut def = head_text(section);
    def.append(": {\n");
    def.append(join(texts.as_slice(), "\n").as_str());
    def.append("\n        }");
    def
}

/// The file names of the object files of units.
fn files_of(units: &Vec<String>, encoding: PathEncoding) -> (files: Vec<String>)
    requires
        have_obj_files(text::views(units@), encoding),
    ensures
        text::views(files@) == obj_files(text::views(units@), encoding),
        encoding == PathEncoding::Unix && all_end_in_names(text::views(units@)) ==> text::views(
            files@,
        ) == plain_obj_files(text::views(units@)),
{
    let ghost names = text::views(units@);
    let mut files: Vec<String> = Vec::new();
    let mut i: usize = 0;
    while i < units.len()
        invariant
            i <= units@.len(),
            files@.len() == i,
            names == text::views(units@),
            have_obj_files(names, encoding),
            forall|j: int|
                0 <= j < i ==> (#[trigger] files@[j])@ == path::obj_file(names[j], encoding),
            encoding == PathEncoding::Unix && all_end_in_names(names) ==> forall|j: int|
                0 <= j < i ==> (#[trigger] files@[j])@ == path::plain_obj_file(names[j]),
        decreases units@.len() - i,
    {
        assert(names[i as int] == units@[i as int]@);
        files.push(obj_file_name(units[i].as_str(), encoding));
        i += 1;
    }
    assert(text::views(files@) =~= obj_files(names, encoding));
    if encoding == PathEncoding::Unix {
        assert(all_end_in_names(names) ==> text::views(files@) =~= plain_obj_files(names));
    }
    files
}

/// The units of a section with their addresses.
fn units_of(section: &ObjSection) -> (units: Vec<PlacedUnit>)
    requires
        splits_in_range(section@),
    ensures
        order::placed_views(units@) == placed_units(section@),
{
    let mut units: Vec<PlacedUnit> = Vec::new();
    let mut i: usize = 0;
    while i < section.splits.len()
        invariant
            i <= section.splits@.len(),
            units@.len() == i,
            splits_in_range(section@),
            forall|j: int| 0 <= j < i ==> (#[trigger] units@[j])@ == placed_units(section@)[j],
        decreases section.splits@.len() - i,
    {
        let split = &section.splits[i];
        assert(section@.splits[i as int] == (split.0, split.1.unit@));
        units.push(
            PlacedUnit { name: split.1.unit.clone(), address: section.address + split.0 as u64 },
        );
        i += 1;
    }
    assert(order::placed_views(units@) =~= placed_units(section@));
    units
}

/// The units of the last section with a name.
fn find_units(sections: &Vec<ObjSection>, name: &str) -> (units: Vec<PlacedUnit>)
    requires
        forall|i: int|
            0 <= i < sections@.len() ==> splits_in_range(#[trigger] section_views(sections@)[i]),
    ensures
        order::placed_views(units@) == units_by_name(section_views(sections@), name@),
{
    let ghost all = section_views(sections@);
    let mut i: usize = sections.len();
    assert(all.take(i as int) =~= all);
    while i > 0
        invariant
            i <= sections@.len(),
            all == section_views(sections@),
            forall|i: int| 0 <= i < sections@.len() ==> splits_in_range(#[trigger] all[i]),
            units_by_name(all, name@) == units_by_name(all.take(i as int), name@),
        decreases i,
    {
        i -= 1;
        proof {
            let head = all.take(i + 1);
            assert(head.last() == all[i as int]);
            assert(head.drop_last() =~= all.take(i as int));
        }
        if text_eq(sections[i].name.as_str(), name) {
            return units_of(&sections[i]);
        }
    }
    let none: Vec<PlacedUnit> = Vec::new();
    assert(order::placed_views(none@) =~= Seq::empty());
    none
}

/// The units that the definition of a section lists.
fn units_to_list(sections: &Vec<ObjSection>, name: &str) -> (units: Vec<String>)
    requires
        forall|i: int|
            0 <= i < sections@.len() ==> splits_in_range(#[trigger] section_views(sections@)[i]),
    ensures
        text::views(units@) == listed_units(section_views(sections@), name@),
{
    if text_eq(name, ".text") || text_eq(name, ".init") {
        let sorted = sort_by_address(find_units(sections, name));
        unique_names(&sorted)
    } else {
        let none: Vec<String> = Vec::new();
        assert(text::views(none@) =~= Seq::empty());
        none
    }
}

/// Section definitions with explicit per-file ordering.
///
/// The code sections list their object files in address order, so that each file's part comes to
/// its address even where the link order is another. All other sections are left to the linker,
/// which takes no list for them.
pub fn generate_explicit_section_defs(obj: &ObjInfo, encoding: PathEncoding) -> (defs: String)
    requires
        explicit_ready(obj@.sections, encoding),
    ensures
        defs@ == explicit_defs(obj@.sections, encoding),
        encoding == PathEncoding::Unix && listed_end_in_names(obj@.sections) ==> defs@
            == plain_explicit_defs(obj@.sections),
{
    let ghost all = section_views(obj.sections@);
    let ghost wanted = Seq::new(all.len(), |i: int| explicit_def(all, all[i], encoding));
    let ghost plain = Seq::new(
        all.len(),
        |i: int| def_with_files(all[i], plain_obj_files(listed_units(all, all[i].name))),
    );
    assert(obj@.sections =~= all);
    let mut defs: Vec<String> = Vec::new();
    let mut i: usize = 0;
    while i < obj.sections.len()
        invariant
            i <= obj.sections@.len(),
            defs@.len() == i,
            all == section_views(obj.sections@),
            explicit_ready(all, encoding),
            wanted == Seq::new(all.len(), |i: int| explicit_def(all, all[i], encoding)),
            plain == Seq::new(
                all.len(),
                |i: int| def_with_files(all[i], plain_obj_files(listed_units(all, all[i].name))),
            ),
            forall|j: int| 0 <= j < i ==> (#[trigger] defs@[j])@ == wanted[j],
            encoding == PathEncoding::Unix && listed_end_in_names(all) ==> forall|j: int|
                0 <= j < i ==> (#[trigger] defs@[j])@ == plain[j],
        decreases obj.sections@.len() - i,
    {
        let section = &obj.sections[i];
        assert(all[i as int] == section@);
        let units = units_to_list(&obj.sections, section.name.as_str());
        let files = files_of(&units, encoding);
        assert(files@.len() == text::views(files@).len());
        if files.len() == 0 {
            defs.push(simple_text(section, ""));
            assert(""@ =~= Seq::<char>::empty()) by {
                reveal_strlit("");
            }
        } else {
            defs.push(listed_section_def(section, files.as_slice()));
        }
        i += 1;
    }
    assert(text::views(defs@) =~= wanted);
    if encoding == PathEncoding::Unix {
        assert(listed_end_in_names(all) ==> text::views(defs@) =~= plain);
    }
    join(defs.as_slice(), "\n        ")
}

/// Section definitions without file order.
fn simple_section_defs(obj: &ObjInfo) -> (defs: String)
    ensures
        defs@ == simple_defs(obj@.sections),
{
    let ghost all = obj@.sections;
    let ghost wanted = Seq::new(all.len(), |i: int| simple_def(all[i], Seq::empty()));
    let mut defs: Vec<String> = Vec::new();
    let mut i: usize = 0;
    while i < obj.sections.len()
        invariant
            i <= obj.sections@.len(),
            defs@.len() == i,
            all == obj@.sections,
            wanted == Seq::new(all.len(), |i: int| simple_def(all[i], Seq::empty())),
            forall|j: int| 0 <= j < i ==> (#[trigger] defs@[j])@ == wanted[j],
        decreases obj.sections@.len() - i,
    {
        assert(all[i as int] == obj.sections@[i as int]@);
        assert(""@ =~= Seq::<char>::empty()) by {
            reveal_strlit("");
        }
        defs.push(simple_text(&obj.sections[i], ""));
        i += 1;
    }
    assert(text::views(defs@) =~= wanted);
    join(defs.as_slice(), "\n        ")
}

/// The section definitions of a partially linked object.
fn partial_section_defs(obj: &ObjInfo) -> (defs: String)
    ensures
        defs@ == partial_defs(obj@),
{
    let ghost all = obj@.sections;
    let ghost wanted = Seq::new(
        all.len(),
        |i: int| simple_def(all[i], partial_inner(all[i].name)),
    );
    let mut defs: Vec<String> = Vec::new();
    let mut i: usize = 0;
    while i < obj.sections.len()
        invariant
            i <= obj.sections@.len(),
            defs@.len() == i,
            all == obj@.sections,
            wanted == Seq::new(
                all.len(),
                |i: int| simple_def(all[i], partial_inner(all[i].name)),
            ),
            forall|j: int| 0 <= j < i ==> (#[trigger] defs@[j])@ == wanted[j],
        decreases obj.sections@.len() - i,
    {
        let section = &obj.sections[i];
        assert(all[i as int] == section@);
        assert(""@ =~= Seq::<char>::empty()) by {
            reveal_strlit("");
        }
        let inner = if text_eq(section.name.as_str(), ".data") {
            " *(.data) *(extabindex) *(extab) "
        } else {
            ""
        };
        defs.push(simple_text(section, inner));
        i += 1;
    }
    assert(text::views(defs@) =~= wanted);
    let text = join(defs.as_slice(), "\n        ");
    if obj.entry.is_none() {
        let mut with_init = ".init :{}\n        ".to_owned();
        with_init.append(text.as_str());
        with_init
    } else {
        text
    }
}

/// The names that the linker keeps alive, as the script lists them.
fn force_active_list(asked: &[String], symbols: &Vec<ObjSymbol>) -> (list: String)
    ensures
        list@ == force_active_text(text::views(asked@), symbol_views(symbols@)),
{
    let ghost wanted = text::views(asked@);
    let ghost all = symbol_views(symbols@);
    let mut names: Vec<String> = Vec::new();
    let mut i: usize = 0;
    while i < asked.len()
        invariant
            i <= asked@.len(),
            wanted == text::views(asked@),
            text::views(names@) == wanted.take(i as int),
        decreases asked@.len() - i,
    {
        let ghost before = text::views(names@);
        names.push(asked[i].clone());
        assert(text::views(names@) =~= before.push(wanted[i as int]));
        i += 1;
    }
    assert(wanted.take(i as int) =~= wanted);
    let mut k: usize = 0;
    assert(all.take(0) =~= Seq::empty());
    while k < symbols.len()
        invariant
            k <= symbols@.len(),
            all == symbol_views(symbols@),
            text::views(names@) == force_active_names(wanted, all.take(k as int)),
        decreases symbols@.len() - k,
    {
        let symbol = &symbols[k];
        assert(all.take(k + 1).drop_last() =~= all.take(k as int));
        assert(all.take(k + 1).last() == symbol@);
        let ghost before = text::views(names@);
        if symbol.flags.is_exported() && symbol.flags.is_global() && !symbol.flags.is_no_write() {
            names.push(symbol.name.clone());
            assert(text::views(names@) =~= before.push(symbol@.name));
        }
        k += 1;
    }
    assert(all.take(k as int) =~= all);
    join(names.as_slice(), "\n    ")
}

/// The lowest address of a section.
fn lowest_address(sections: &Vec<ObjSection>) -> (lowest: u64)
    ensures
        lowest == origin(section_views(sections@)),
{
    let ghost all = section_views(sections@);
    let mut lowest: u64 = u64::MAX;
    let mut i: usize = 0;
    while i < sections.len()
        invariant
            i <= sections@.len(),
            all == section_views(sections@),
            lowest == origin(all.take(i as int)),
        decreases sections@.len() - i,
    {
        assert(all.take(i + 1).drop_last() =~= all.take(i as int));
        assert(all.take(i + 1).last() == sections@[i as int]@);
        if sections[i].address < lowest {
            lowest = sections[i].address;
        }
        i += 1;
    }
    assert(all.take(i as int) =~= all);
    lowest
}

/// Whether the link order of an object was set explicitly.
fn any_order(obj: &ObjInfo) -> (found: bool)
    ensures
        found == has_explicit_order(obj@.link_order),
{
    let mut i: usize = 0;
    while i < obj.link_order.len()
        invariant
            i <= obj.link_order@.len(),
            forall|j: int| 0 <= j < i ==> (#[trigger] obj@.link_order[j]).order is None,
        decreases obj.link_order@.len() - i,
    {
        assert(obj@.link_order[i as int] == obj.link_order@[i as int]@);
        if obj.link_order[i].order.is_some() {
            return true;
        }
        i += 1;
    }
    false
}

/// Generates the linker script for an object: a partial one if it is relocatable, else a full one.
pub fn generate_ldscript(
    obj: &ObjInfo,
    template: Option<&str>,
    force_active: &[String],
    host: &LcfHost,
) -> (result: String)
    requires
        ready(obj@, host.encoding),
    ensures
        result@ == script(obj@, template, text::views(force_active@), *host),
        host.encoding == PathEncoding::Unix && listed_end_in_names(obj@.sections) ==> result@
            == plain_script(obj@, template, text::views(force_active@), *host),
{
    if obj.kind == ObjKind::Relocatable {
        return generate_ldscript_partial(obj, template, force_active, host);
    }
    assert(section_views(obj.sections@) =~= obj@.sections);
    assert(symbol_views(obj.symbols@) =~= obj@.symbols);
    let stack: u32 = match (obj.stack_address, obj.stack_end) {
        (Some(address), Some(end)) => address - end,
        _ => DEFAULT_STACK_SIZE,
    };
    let arena: u32 = match obj.arena_hi {
        Some(address) => address,
        None => DEFAULT_ARENA_HI,
    };
    let defs = if any_order(obj) {
        generate_explicit_section_defs(obj, host.encoding)
    } else {
        simple_section_defs(obj)
    };
    let last = obj.sections[obj.sections.len() - 1].name.as_str();
    assert(obj@.sections.last().name == last@);
    let mut symbol = "_f_".to_owned();
    symbol.append(trim_start(last, '.').as_str());
    let start = match template {
        Some(t) => t,
        None => host.template.as_str(),
    };
    proof {
        reveal_strlit("$ORIGIN");
        reveal_strlit("$SECTIONS");
        reveal_strlit("$LAST_SECTION_SYMBOL");
        reveal_strlit("$LAST_SECTION_NAME");
        reveal_strlit("$STACKSIZE");
        reveal_strlit("$FORCEACTIVE");
        reveal_strlit("$ARENAHI");
    }
    let s = replace(start, "$ORIGIN", upper_hex(lowest_address(&obj.sections)).as_str());
    let s = replace(s.as_str(), "$SECTIONS", defs.as_str());
    let s = replace(s.as_str(), "$LAST_SECTION_SYMBOL", symbol.as_str());
    let s = replace(s.as_str(), "$LAST_SECTION_NAME", last);
    let s = replace(s.as_str(), "$STACKSIZE", upper_hex(stack as u64).as_str());
    let s = replace(
        s.as_str(),
        "$FORCEACTIVE",
        force_active_list(force_active, &obj.symbols).as_str(),
    );
    replace(s.as_str(), "$ARENAHI", upper_hex(arena as u64).as_str())
}

/// Generates the linker script for an object that is linked partially.
pub fn generate_ldscript_partial(
    obj: &ObjInfo,
    template: Option<&str>,
    force_active: &[String],
    host: &LcfHost,
) -> (result: String)
    requires
        partial_ready(obj@, host.encoding),
    ensures
        result@ == partial_script(
            obj@,
            chosen(template, host.partial_template@),
            text::views(force_active@),
        ),
{
    assert(symbol_views(obj.symbols@) =~= obj@.symbols);
    let start = match template {
        Some(t) => t,
        None => host.partial_template.as_str(),
    };
    proof {
        reveal_strlit("$SECTIONS");
        reveal_strlit("$FORCEACTIVE");
    }
    let s = replace(start, "$SECTIONS", partial_section_defs(obj).as_str());
    replace(
        s.as_str(),
        "$FORCEACTIVE",
        force_active_list(force_active, &obj.symbols).as_str(),
    )
}

/// Whether all units of a list have object files.
fn all_have_obj_files(units: &Vec<String>, encoding: PathEncoding) -> (all: bool)
    ensures
        all == have_obj_files(text::views(units@), encoding),
        encoding == PathEncoding::Unix && all_end_in_names(text::views(units@)) ==> all,
{
    let mut i: usize = 0;
    while i < units.len()
        invariant
            i <= units@.len(),
            forall|j: int|
                0 <= j < i ==> path::has_obj_file(#[trigger] text::views(units@)[j], encoding),
        decreases units@.len() - i,
    {
        assert(text::views(units@)[i as int] == units@[i as int]@);
        if try_obj_file_name(units[i].as_str(), encoding).is_none() {
            return false;
        }
        i += 1;
    }
    true
}

/// Whether all units in link order have object files.
fn linked_have_obj_files(obj: &ObjInfo, encoding: PathEncoding) -> (all: bool)
    ensures
        all == have_obj_files(unit_names(obj@.link_order), encoding),
        encoding == PathEncoding::Unix && all_end_in_names(unit_names(obj@.link_order)) ==> all,
{
    let mut names: Vec<String> = Vec::new();
    let mut i: usize = 0;
    while i < obj.link_order.len()
        invariant
            i <= obj.link_order@.len(),
            names@.len() == i,
            forall|j: int| 0 <= j < i ==> (#[trigger] names@[j])@ == unit_names(obj@.link_order)[j],
        decreases obj.link_order@.len() - i,
    {
        names.push(obj.link_order[i].name.clone());
        i += 1;
    }
    assert(text::views(names@) =~= unit_names(obj@.link_order));
    all_have_obj_files(&names, encoding)
}

/// Whether the addresses of all splits of a section lie in the address space.
fn check_splits(section: &ObjSection) -> (fits: bool)
    ensures
        fits == splits_in_range(section@),
{
    let mut i: usize = 0;
    while i < section.splits.len()
        invariant
            i <= section.splits@.len(),
            forall|j: int|
                0 <= j < i ==> section@.address + (#[trigger] section@.splits[j]).0 <= u64::MAX,
        decreases section.splits@.len() - i,
    {
        assert(section@.splits[i as int].0 == section.splits@[i as int].0);
        if section.splits[i].0 as u64 > u64::MAX - section.address {
            return false;
        }
        i += 1;
    }
    true
}

/// Whether section definitions with explicit file order can be made.
fn check_explicit(obj: &ObjInfo, encoding: PathEncoding) -> (fits: bool)
    ensures
        fits == explicit_ready(obj@.sections, encoding),
        encoding == PathEncoding::Unix && listed_end_in_names(obj@.sections) && (forall|i: int|
            0 <= i < obj@.sections.len() ==> splits_in_range(#[trigger] obj@.sections[i])) ==> fits,
{
    let ghost all = section_views(obj.sections@);
    assert(obj@.sections =~= all);
    let mut i: usize = 0;
    while i < obj.sections.len()
        invariant
            i <= obj.sections@.len(),
            all == section_views(obj.sections@),
            obj@.sections == all,
            forall|j: int| 0 <= j < i ==> splits_in_range(#[trigger] all[j]),
        decreases obj.sections@.len() - i,
    {
        assert(all[i as int] == obj.sections@[i as int]@);
        if !check_splits(&obj.sections[i]) {
            return false;
        }
        i += 1;
    }
    let mut k: usize = 0;
    while k < obj.sections.len()
        invariant
            k <= obj.sections@.len(),
            all == section_views(obj.sections@),
            obj@.sections == all,
            forall|j: int| 0 <= j < all.len() ==> splits_in_range(#[trigger] all[j]),
            forall|j: int|
                0 <= j < k ==> have_obj_files(
                    listed_units(all, (#[trigger] all[j]).name),
                    encoding,
                ),
        decreases obj.sections@.len() - k,
    {
        assert(all[k as int] == obj.sections@[k as int]@);
        let units = units_to_list(&obj.sections, obj.sections[k].name.as_str());
        if !all_have_obj_files(&units, encoding) {
            return false;
        }
        k += 1;
    }
    true
}

/// Generates the linker script for an object, if it can be made. It cannot if a unit has no object
/// file; a full script cannot either without a section, if the stack ends above its start, or if
/// files are to be listed in address order and an address leaves the address space.
pub fn try_generate_ldscript(
    obj: &ObjInfo,
    template: Option<&str>,
    force_active: &[String],
    host: &LcfHost,
) -> (result: Option<String>)
    ensures
        result is Some <==> ready(obj@, host.encoding),
        result is Some ==> result->Some_0@ == script(
            obj@,
            template,
            text::views(force_active@),
            *host,
        ),
        host.encoding == PathEncoding::Unix && plain_ready(obj@) ==> result is Some,
        host.encoding == PathEncoding::Unix && listed_end_in_names(obj@.sections) && result is Some
            ==> result->Some_0@ == plain_script(
            obj@,
            template,
            text::views(force_active@),
            *host,
        ),
{
    if !linked_have_obj_files(obj, host.encoding) {
        return None;
    }
    if obj.kind != ObjKind::Relocatable {
        let stack_fits = match (obj.stack_address, obj.stack_end) {
            (Some(address), Some(end)) => address >= end,
            _ => true,
        };
        if obj.sections.len() == 0 || !stack_fits {
            return None;
        }
        if any_order(obj) && !check_explicit(obj, host.encoding) {
            return None;
        }
    }
    Some(generate_ldscript(obj, template, force_active, host))
}

/// Generates the linker script for an object that is linked partially, if all units have object
/// files.
pub fn try_generate_ldscript_partial(
    obj: &ObjInfo,
    template: Option<&str>,
    force_active: &[String],
    host: &LcfHost,
) -> (result: Option<String>)
    ensures
        result is Some <==> partial_ready(obj@, host.encoding),
        host.encoding == PathEncoding::Unix && all_end_in_names(unit_names(obj@.link_order))
            ==> result is Some,
        result is Some ==> result->Some_0@ == partial_script(
            obj@,
            chosen(template, host.partial_template@),
            text::views(force_active@),
        ),
{
    if linked_have_obj_files(obj, host.encoding) {
        Some(generate_ldscript_partial(obj, template, force_active, host))
    } else {
        None
    }
}

} // verus!
