//! What holds of every linker script.
use vstd::prelude::*;
use crate::lcf;
use crate::obj;
use crate::obj::ObjKind;
use crate::order;
use crate::path;
use crate::path::PathEncoding;
use crate::text;

verus! {

/// Only code sections list files: every other section is left to the linker, whatever the order of
/// the units is.
pub proof fn law_other_sections_are_simple(
    sections: Seq<obj::SectionView>,
    section: obj::SectionView,
    encoding: PathEncoding,
)
    requires
        section.name != ".text"@,
        section.name != ".init"@,
    ensures
        lcf::explicit_def(sections, section, encoding) == lcf::simple_def(section, Seq::empty()),
{
}

/// A list holds the same units as the section that it was made from.
proof fn lemma_same_units(list: Seq<order::PlacedView>, unit: order::PlacedView)
    ensures
        order::by_address(list).contains(unit) <==> list.contains(unit),
{
    broadcast use vstd::seq_lib::group_to_multiset_ensures;

    order::law_by_address(list, 0);
    assert(order::by_address(list).to_multiset().count(unit) == list.to_multiset().count(unit));
}

/// Of two names that are kept, the one that is kept first also comes first in the list: wherever
/// the second one stands, the first one stands no later.
proof fn lemma_first_comes_first(list: Seq<Seq<char>>, i: int, j: int, q: int) -> (p: int)
    requires
        0 <= i <= j < order::first_occurrences(list).len(),
        0 <= q < list.len(),
        list[q] == order::first_occurrences(list)[j],
    ensures
        0 <= p <= q,
        list[p] == order::first_occurrences(list)[i],
{
    let all = order::first_occurrences(list);
    let head = list.take(q + 1);
    let kept = order::first_occurrences(head);
    order::law_first_occurrences(list, q + 1);
    order::law_first_occurrences(head, 0);
    assert(head[q] == all[j]);
    assert(head.contains(all[j]));
    assert(kept.contains(all[j]));
    let k = choose|k: int| 0 <= k < kept.len() && kept[k] == all[j];
    assert(all[k] == kept[k]);
    assert(k == j);
    assert(kept[i] == all[i]);
    assert(kept.contains(all[i]));
    assert(head.contains(all[i]));
    let p = choose|p: int| 0 <= p < head.len() && head[p] == all[i];
    assert(list[p] == all[i]);
    p
}

/// A code section lists just the units that have a part in it, each one once.
pub proof fn law_list_is_complete(sections: Seq<obj::SectionView>, name: Seq<char>, unit: Seq<char>)
    requires
        lcf::takes_file_list(name),
    ensures
        lcf::listed_units(sections, name).no_duplicates(),
        lcf::listed_units(sections, name).contains(unit) <==> order::names(
            lcf::units_by_name(sections, name),
        ).contains(unit),
{
    let units = lcf::units_by_name(sections, name);
    let sorted = order::by_address(units);
    order::law_first_occurrences(order::names(sorted), 0);
    if order::names(sorted).contains(unit) {
        let k = choose|k: int| 0 <= k < sorted.len() && order::names(sorted)[k] == unit;
        lemma_same_units(units, sorted[k]);
        let m = choose|m: int| 0 <= m < units.len() && units[m] == sorted[k];
        assert(order::names(units)[m] == unit);
    }
    if order::names(units).contains(unit) {
        let m = choose|m: int| 0 <= m < units.len() && order::names(units)[m] == unit;
        lemma_same_units(units, units[m]);
        let k = choose|k: int| 0 <= k < sorted.len() && sorted[k] == units[m];
        assert(order::names(sorted)[k] == unit);
    }
}

/// A code section lists its units in address order, whatever the link order is: a unit that is
/// listed before another one begins no later than any part of the other.
pub proof fn law_list_is_in_address_order(
    sections: Seq<obj::SectionView>,
    name: Seq<char>,
    i: int,
    j: int,
    part: order::PlacedView,
)
    requires
        0 <= i <= j < lcf::listed_units(sections, name).len(),
        lcf::units_by_name(sections, name).contains(part),
        part.name == lcf::listed_units(sections, name)[j],
    ensures
        exists|start: order::PlacedView|
            {
                &&& #[trigger] lcf::units_by_name(sections, name).contains(start)
                &&& start.name == lcf::listed_units(sections, name)[i]
                &&& start.address <= part.address
            },
{
    let units = lcf::units_by_name(sections, name);
    let sorted = order::by_address(units);
    order::law_by_address(units, 0);
    lemma_same_units(units, part);
    let q = choose|q: int| 0 <= q < sorted.len() && sorted[q] == part;
    assert(order::names(sorted)[q] == part.name);
    let p = lemma_first_comes_first(order::names(sorted), i, j, q);
    assert(order::names(sorted)[p] == sorted[p].name);
    assert(sorted[p].address <= sorted[q].address);
    assert(sorted.contains(sorted[p]));
    lemma_same_units(units, sorted[p]);
    assert(units.contains(sorted[p]));
}

/// Without units to list, explicit definitions are the simple ones.
pub proof fn law_nothing_to_list(sections: Seq<obj::SectionView>, encoding: PathEncoding)
    requires
        forall|i: int|
            0 <= i < sections.len() ==> lcf::listed_units(
                sections,
                (#[trigger] sections[i]).name,
            ).len() == 0,
    ensures
        lcf::explicit_defs(sections, encoding) == lcf::simple_defs(sections),
{
    assert(Seq::new(sections.len(), |i: int| lcf::explicit_def(sections, sections[i], encoding))
        =~= Seq::new(sections.len(), |i: int| lcf::simple_def(sections[i], Seq::empty())));
}

/// Where the link order was not set explicitly, the script lists no files at all: it is the same
/// for every way of writing paths and for all units.
pub proof fn law_no_order_no_lists(
    o: obj::ObjView,
    template: Seq<char>,
    asked: Seq<Seq<char>>,
    encoding: PathEncoding,
)
    requires
        forall|i: int| 0 <= i < o.link_order.len() ==> (#[trigger] o.link_order[i]).order is None,
    ensures
        lcf::full_defs(o, encoding) == lcf::simple_defs(o.sections),
        lcf::full_script(o, template, asked, encoding) == lcf::full_script(
            obj::ObjView { link_order: Seq::empty(), ..o },
            template,
            asked,
            PathEncoding::Unix,
        ),
{
}

/// The script does not depend on the link order, only on whether it was set explicitly: code comes
/// into address order however the units are linked.
pub proof fn law_link_order_does_not_matter(
    o: obj::ObjView,
    link_order: Seq<obj::UnitView>,
    template: Seq<char>,
    asked: Seq<Seq<char>>,
    encoding: PathEncoding,
)
    requires
        lcf::has_explicit_order(link_order) == lcf::has_explicit_order(o.link_order),
    ensures
        lcf::full_script(obj::ObjView { link_order, ..o }, template, asked, encoding)
            == lcf::full_script(o, template, asked, encoding),
        lcf::partial_script(obj::ObjView { link_order, ..o }, template, asked)
            == lcf::partial_script(o, template, asked),
{
}

/// For a relocatable object both ways of generating give the same script.
pub proof fn law_relocatable_is_partial(
    o: obj::ObjView,
    template: Option<&str>,
    asked: Seq<Seq<char>>,
    host: lcf::LcfHost,
)
    requires
        o.kind == ObjKind::Relocatable,
    ensures
        lcf::ready(o, host.encoding) == lcf::partial_ready(o, host.encoding),
        lcf::script(o, template, asked, host) == lcf::partial_script(
            o,
            lcf::chosen(template, host.partial_template@),
            asked,
        ),
{
}

/// A template without variables is the script.
pub proof fn law_plain_template(
    o: obj::ObjView,
    template: Seq<char>,
    asked: Seq<Seq<char>>,
    encoding: PathEncoding,
)
    requires
        !template.contains('$'),
    ensures
        lcf::full_script(o, template, asked, encoding) == template,
        lcf::partial_script(o, template, asked) == template,
{
    reveal_strlit("$ORIGIN");
    reveal_strlit("$SECTIONS");
    reveal_strlit("$LAST_SECTION_SYMBOL");
    reveal_strlit("$LAST_SECTION_NAME");
    reveal_strlit("$STACKSIZE");
    reveal_strlit("$FORCEACTIVE");
    reveal_strlit("$ARENAHI");
    let last = o.sections.last().name;
    text::law_replace_absent(
        template,
        "$ORIGIN"@,
        text::hex_text(lcf::origin(o.sections) as int),
    );
    text::law_replace_absent(template, "$SECTIONS"@, lcf::full_defs(o, encoding));
    text::law_replace_absent(template, "$SECTIONS"@, lcf::partial_defs(o));
    text::law_replace_absent(template, "$LAST_SECTION_SYMBOL"@, lcf::section_symbol(last));
    text::law_replace_absent(template, "$LAST_SECTION_NAME"@, last);
    text::law_replace_absent(template, "$STACKSIZE"@, text::hex_text(lcf::stack_size(o)));
    text::law_replace_absent(
        template,
        "$FORCEACTIVE"@,
        lcf::force_active_text(asked, o.symbols),
    );
    text::law_replace_absent(template, "$ARENAHI"@, text::hex_text(lcf::arena_hi(o)));
}

/// The variables of a full script, in the order in which they are put in.
pub open spec fn full_variables() -> Seq<Seq<char>> {
    seq![
        "$ORIGIN"@,
        "$SECTIONS"@,
        "$LAST_SECTION_SYMBOL"@,
        "$LAST_SECTION_NAME"@,
        "$STACKSIZE"@,
        "$FORCEACTIVE"@,
        "$ARENAHI"@,
    ]
}

/// The variables of a partial script, in the order in which they are put in.
pub open spec fn partial_variables() -> Seq<Seq<char>> {
    seq!["$SECTIONS"@, "$FORCEACTIVE"@]
}

/// What is put in for the variables of a full script.
pub open spec fn full_values(o: obj::ObjView, asked: Seq<Seq<char>>, defs: Seq<char>) -> Seq<
    Seq<char>,
> {
    seq![
        text::hex_text(lcf::origin(o.sections) as int),
        defs,
        lcf::section_symbol(o.sections.last().name),
        o.sections.last().name,
        text::hex_text(lcf::stack_size(o)),
        lcf::force_active_text(asked, o.symbols),
        text::hex_text(lcf::arena_hi(o)),
    ]
}

/// What is put in for the variables of a partial script.
pub open spec fn partial_values(o: obj::ObjView, asked: Seq<Seq<char>>) -> Seq<Seq<char>> {
    seq![lcf::partial_defs(o), lcf::force_active_text(asked, o.symbols)]
}

/// The names of the variables are variables.
proof fn lemma_variables()
    ensures
        forall|i: int|
            0 <= i < full_variables().len() ==> text::is_variable(#[trigger] full_variables()[i]),
        forall|i: int|
            0 <= i < partial_variables().len() ==> text::is_variable(
                #[trigger] partial_variables()[i],
            ),
{
    reveal_strlit("$ORIGIN");
    reveal_strlit("$SECTIONS");
    reveal_strlit("$LAST_SECTION_SYMBOL");
    reveal_strlit("$LAST_SECTION_NAME");
    reveal_strlit("$STACKSIZE");
    reveal_strlit("$FORCEACTIVE");
    reveal_strlit("$ARENAHI");
}

/// What is left of a text once leading characters are gone holds nothing new.
proof fn lemma_trimmed_holds(s: Seq<char>, c: char, d: char)
    requires
        !s.contains(d),
    ensures
        !text::trimmed_start(s, c).contains(d),
    decreases s.len(),
{
    if s.len() > 0 && s[0] == c {
        assert(!s.skip(1).contains(d)) by {
            if s.skip(1).contains(d) {
                let k = choose|k: int| 0 <= k < s.skip(1).len() && s.skip(1)[k] == d;
                assert(s[k + 1] == d);
            }
        }
        lemma_trimmed_holds(s.skip(1), c, d);
    }
}

/// A full script holds none of the variables any more, if every dollar sign of the template was the
/// start of a variable or stood apart from them, and the section definitions, the name of the last
/// section and the names to keep alive hold none.
pub proof fn law_full_script_holds_no_variable(
    o: obj::ObjView,
    template: Seq<char>,
    asked: Seq<Seq<char>>,
    encoding: PathEncoding,
    k: int,
)
    requires
        text::marked(template, full_variables(), full_variables()),
        !lcf::full_defs(o, encoding).contains('$'),
        !o.sections.last().name.contains('$'),
        !lcf::force_active_text(asked, o.symbols).contains('$'),
        lcf::stack_size(o) >= 0,
        0 <= k < full_variables().len(),
    ensures
        !text::occurs(full_variables()[k], lcf::full_script(o, template, asked, encoding)),
{
    let vars = full_variables();
    let values = full_values(o, asked, lcf::full_defs(o, encoding));
    lemma_variables();
    text::law_hex_holds_no_dollar(lcf::origin(o.sections) as int);
    text::law_hex_holds_no_dollar(lcf::stack_size(o));
    text::law_hex_holds_no_dollar(lcf::arena_hi(o));
    let last = o.sections.last().name;
    lemma_trimmed_holds(last, '.', '$');
    assert(!lcf::section_symbol(last).contains('$')) by {
        reveal_strlit("_f_");
        let symbol = lcf::section_symbol(last);
        if symbol.contains('$') {
            let m = choose|m: int| 0 <= m < symbol.len() && symbol[m] == '$';
            if m >= 3 {
                assert(text::trimmed_start(last, '.')[m - 3] == '$');
            }
        }
    }
    text::law_no_variable_left(template, vars, values, k);
    lemma_put_in_full(template, values);
}

/// Putting in the seven values of a full script, step by step.
proof fn lemma_put_in_full(template: Seq<char>, v: Seq<Seq<char>>)
    requires
        v.len() == 7,
    ensures
        text::put_in(template, full_variables(), v) == ({
            let s = text::replaced(template, "$ORIGIN"@, v[0]);
            let s = text::replaced(s, "$SECTIONS"@, v[1]);
            let s = text::replaced(s, "$LAST_SECTION_SYMBOL"@, v[2]);
            let s = text::replaced(s, "$LAST_SECTION_NAME"@, v[3]);
            let s = text::replaced(s, "$STACKSIZE"@, v[4]);
            let s = text::replaced(s, "$FORCEACTIVE"@, v[5]);
            text::replaced(s, "$ARENAHI"@, v[6])
        }),
{
    reveal_with_fuel(text::put_in, 8);
}

/// A partial script holds none of its variables any more, if every dollar sign of the template was
/// the start of one of them or stood apart from them, and the section definitions and the names to
/// keep alive hold none.
pub proof fn law_partial_script_holds_no_variable(
    o: obj::ObjView,
    template: Seq<char>,
    asked: Seq<Seq<char>>,
    k: int,
)
    requires
        text::marked(template, partial_variables(), partial_variables()),
        !lcf::partial_defs(o).contains('$'),
        !lcf::force_active_text(asked, o.symbols).contains('$'),
        0 <= k < partial_variables().len(),
    ensures
        !text::occurs(partial_variables()[k], lcf::partial_script(o, template, asked)),
{
    lemma_variables();
    text::law_no_variable_left(template, partial_variables(), partial_values(o, asked), k);
    reveal_with_fuel(text::put_in, 3);
}

/// The linker keeps alive the names that were asked for, in their order and in front, and of the
/// symbols just those that are exported, global and written.
pub proof fn law_force_active(
    asked: Seq<Seq<char>>,
    symbols: Seq<obj::SymbolView>,
    name: Seq<char>,
)
    ensures
        asked.is_prefix_of(lcf::force_active_names(asked, symbols)),
        lcf::force_active_names(asked, symbols).contains(name) <==> asked.contains(name) || exists|
            k: int,
        |
            0 <= k < symbols.len() && lcf::kept_alive(#[trigger] symbols[k]) && symbols[k].name
                == name,
    decreases symbols.len(),
{
    if symbols.len() == 0 {
        assert(asked =~= asked.subrange(0, asked.len() as int));
    } else {
        let shorter = symbols.drop_last();
        let last = symbols.last();
        let before = lcf::force_active_names(asked, shorter);
        let all = lcf::force_active_names(asked, symbols);
        law_force_active(asked, shorter, name);
        if all.contains(name) {
            let m = choose|m: int| 0 <= m < all.len() && all[m] == name;
            if m < before.len() {
                assert(before[m] == name);
                if !asked.contains(name) {
                    let k = choose|k: int|
                        0 <= k < shorter.len() && lcf::kept_alive(#[trigger] shorter[k])
                            && shorter[k].name == name;
                    assert(symbols[k] == shorter[k]);
                }
            } else {
                assert(symbols[symbols.len() - 1] == last);
            }
        }
        if asked.contains(name) {
            let m = choose|m: int| 0 <= m < before.len() && before[m] == name;
            assert(all[m] == name);
        } else if exists|k: int|
            0 <= k < symbols.len() && lcf::kept_alive(#[trigger] symbols[k]) && symbols[k].name
                == name {
            let k = choose|k: int|
                0 <= k < symbols.len() && lcf::kept_alive(#[trigger] symbols[k])
                    && symbols[k].name == name;
            if k < shorter.len() {
                assert(shorter[k] == symbols[k]);
                let m = choose|m: int| 0 <= m < before.len() && before[m] == name;
                assert(all[m] == name);
            } else {
                assert(all[before.len() as int] == name);
            }
        }
    }
}

/// The origin is the address of a section, and no section lies below it.
pub proof fn law_origin_is_lowest(sections: Seq<obj::SectionView>, k: int)
    requires
        0 <= k < sections.len(),
    ensures
        lcf::origin(sections) <= sections[k].address,
        exists|i: int|
            0 <= i < sections.len() && (#[trigger] sections[i]).address == lcf::origin(sections),
    decreases sections.len(),
{
    let shorter = sections.drop_last();
    let last = sections.len() - 1;
    if shorter.len() == 0 {
        assert(lcf::origin(shorter) == u64::MAX);
        assert(sections[last].address == lcf::origin(sections));
    } else {
        law_origin_is_lowest(shorter, if k < last { k } else { 0 });
        if sections.last().address < lcf::origin(shorter) {
            assert(sections[last].address == lcf::origin(sections));
        } else {
            let i = choose|i: int|
                0 <= i < shorter.len() && (#[trigger] shorter[i]).address == lcf::origin(shorter);
            assert(sections[i].address == lcf::origin(sections));
        }
        if k < last {
            assert(shorter[k] == sections[k]);
        }
    }
}

/// The units of the last section with a name are those of its splits.
proof fn lemma_last_section(sections: Seq<obj::SectionView>, at: int)
    requires
        0 <= at < sections.len(),
        forall|m: int| at < m < sections.len() ==> (#[trigger] sections[m]).name != sections[at].name,
    ensures
        lcf::units_by_name(sections, sections[at].name) == lcf::placed_units(sections[at]),
    decreases sections.len(),
{
    if at < sections.len() - 1 {
        let shorter = sections.drop_last();
        assert(sections[sections.len() - 1].name != sections[at].name);
        assert forall|m: int| at < m < shorter.len() implies (#[trigger] shorter[m]).name
            != shorter[at].name by {
            assert(sections[m].name != sections[at].name);
        }
        lemma_last_section(shorter, at);
    }
}

/// The list of a code section goes by the splits of the section: if unit `i` is listed before unit
/// `j`, it has a split at a lower offset than any split of unit `j`, or at the same offset and not
/// behind it. (Of sections with the same name the last one counts.)
pub proof fn law_list_goes_by_splits(
    sections: Seq<obj::SectionView>,
    at: int,
    i: int,
    j: int,
    q: int,
)
    requires
        0 <= at < sections.len(),
        sections[at].name == ".text"@ || sections[at].name == ".init"@,
        forall|m: int| at < m < sections.len() ==> (#[trigger] sections[m]).name != sections[at].name,
        forall|m: int|
            0 <= m < sections[at].splits.len() ==> sections[at].address + (
            #[trigger] sections[at].splits[m]).0 <= u64::MAX,
        0 <= i <= j < lcf::listed_units(sections, sections[at].name).len(),
        0 <= q < sections[at].splits.len(),
        sections[at].splits[q].1 == lcf::listed_units(sections, sections[at].name)[j],
    ensures
        exists|p: int|
            #![trigger sections[at].splits[p]]
            0 <= p < sections[at].splits.len() && sections[at].splits[p].1 == lcf::listed_units(
                sections,
                sections[at].name,
            )[i] && (sections[at].splits[p].0 < sections[at].splits[q].0 || (
            sections[at].splits[p].0 == sections[at].splits[q].0 && p <= q)),
{
    lemma_last_section(sections, at);
    let s = sections[at];
    let units = lcf::placed_units(s);
    assert(s.address + s.splits[q].0 <= u64::MAX);
    let p = order::law_kept_by_address_then_position(units, i, j, q);
    assert(s.address + s.splits[p].0 <= u64::MAX);
}

/// A code section lists just the units that have a split in it, each one once.
pub proof fn law_list_holds_the_splits(sections: Seq<obj::SectionView>, at: int, unit: Seq<char>)
    requires
        0 <= at < sections.len(),
        sections[at].name == ".text"@ || sections[at].name == ".init"@,
        forall|m: int| at < m < sections.len() ==> (#[trigger] sections[m]).name != sections[at].name,
    ensures
        lcf::listed_units(sections, sections[at].name).no_duplicates(),
        lcf::listed_units(sections, sections[at].name).contains(unit) <==> exists|m: int|
            0 <= m < sections[at].splits.len() && (#[trigger] sections[at].splits[m]).1 == unit,
{
    let s = sections[at];
    lemma_last_section(sections, at);
    law_list_is_complete(sections, s.name, unit);
    let names = order::names(lcf::placed_units(s));
    if names.contains(unit) {
        let m = choose|m: int| 0 <= m < names.len() && names[m] == unit;
        assert(s.splits[m].1 == unit);
    }
    if exists|m: int| 0 <= m < s.splits.len() && (#[trigger] s.splits[m]).1 == unit {
        let m = choose|m: int| 0 <= m < s.splits.len() && (#[trigger] s.splits[m]).1 == unit;
        assert(names[m] == unit);
    }
}

/// The definition of a section with explicit file order, as it is written: a code section with
/// splits lists a line for each listed unit, with its object file and the name of the section;
/// every other section has an empty pair of braces.
pub proof fn law_explicit_definition(
    sections: Seq<obj::SectionView>,
    at: int,
    encoding: PathEncoding,
)
    requires
        0 <= at < sections.len(),
        forall|m: int| at < m < sections.len() ==> (#[trigger] sections[m]).name != sections[at].name,
    ensures
        ({
            let s = sections[at];
            let def = lcf::explicit_def(sections, s, encoding);
            let units = lcf::listed_units(sections, s.name);
            let code = s.name == ".text"@ || s.name == ".init"@;
            &&& !code || s.splits.len() == 0 ==> def == s.name + " ALIGN("@ + text::hex_text(
                s.align as int,
            ) + "):{}"@
            &&& code && s.splits.len() > 0 ==> units.len() > 0 && def == s.name + " ALIGN("@
                + text::hex_text(s.align as int) + "): {\n"@ + text::joined(
                Seq::new(
                    units.len(),
                    |i: int|
                        "            "@ + path::obj_file(units[i], encoding) + " ("@ + s.name
                            + ")"@,
                ),
                "\n"@,
            ) + "\n        }"@
        }),
{
    let s = sections[at];
    let units = lcf::listed_units(sections, s.name);
    let code = s.name == ".text"@ || s.name == ".init"@;
    lemma_simple_text(s);
    if code {
        lemma_last_section(sections, at);
        if s.splits.len() > 0 {
            law_list_holds_the_splits(sections, at, s.splits[0].1);
            assert(units.contains(s.splits[0].1));
        } else {
            assert(lcf::placed_units(s) =~= Seq::empty());
            order::law_by_address(Seq::empty(), 0);
            assert(order::by_address(lcf::placed_units(s)) =~= Seq::empty());
            assert(order::names(Seq::<order::PlacedView>::empty()) =~= Seq::empty());
            assert(units =~= Seq::empty());
        }
    }
    if units.len() > 0 {
        reveal_strlit(")");
        reveal_strlit(": {\n");
        reveal_strlit("): {\n");
        let files = lcf::obj_files(units, encoding);
        assert(Seq::new(files.len(), |i: int| lcf::file_line(files[i], s.name)) =~= Seq::new(
            units.len(),
            |i: int|
                "            "@ + path::obj_file(units[i], encoding) + " ("@ + s.name + ")"@,
        ));
        let head = s.name + " ALIGN("@ + text::hex_text(s.align as int);
        assert(")"@ + ": {\n"@ =~= "): {\n"@);
        assert(head + ")"@ + ": {\n"@ =~= head + "): {\n"@);
    }
}

/// A definition without files, as it is written.
proof fn lemma_simple_text(s: obj::SectionView)
    ensures
        lcf::simple_def(s, Seq::empty()) == s.name + " ALIGN("@ + text::hex_text(s.align as int)
            + "):{}"@,
{
    reveal_strlit(")");
    reveal_strlit(":{");
    reveal_strlit("}");
    reveal_strlit("):{}");
    let head = s.name + " ALIGN("@ + text::hex_text(s.align as int);
    assert(")"@ + ":{"@ + "}"@ =~= "):{}"@);
    assert(head + ")"@ + ":{"@ + Seq::<char>::empty() + "}"@ =~= head + "):{}"@);
}

/// The section definitions of a full script: one for each section, in order, on lines of their own.
/// Files are listed exactly if some unit has its place in the link order set.
pub proof fn law_full_definitions(o: obj::ObjView, encoding: PathEncoding)
    ensures
        (exists|i: int| 0 <= i < o.link_order.len() && (#[trigger] o.link_order[i]).order is Some)
            ==> lcf::full_defs(o, encoding) == text::joined(
            Seq::new(
                o.sections.len(),
                |i: int| lcf::explicit_def(o.sections, o.sections[i], encoding),
            ),
            "\n        "@,
        ),
        (forall|i: int| 0 <= i < o.link_order.len() ==> (#[trigger] o.link_order[i]).order is None)
            ==> lcf::full_defs(o, encoding) == text::joined(
            Seq::new(
                o.sections.len(),
                |i: int|
                    o.sections[i].name + " ALIGN("@ + text::hex_text(o.sections[i].align as int)
                        + "):{}"@,
            ),
            "\n        "@,
        ),
{
    assert forall|i: int| 0 <= i < o.sections.len() implies lcf::simple_def(
        #[trigger] o.sections[i],
        Seq::empty(),
    ) == o.sections[i].name + " ALIGN("@ + text::hex_text(o.sections[i].align as int) + "):{}"@ by {
        lemma_simple_text(o.sections[i]);
    }
    assert(Seq::new(o.sections.len(), |i: int| lcf::simple_def(o.sections[i], Seq::empty()))
        =~= Seq::new(
        o.sections.len(),
        |i: int|
            o.sections[i].name + " ALIGN("@ + text::hex_text(o.sections[i].align as int)
                + "):{}"@,
    ));
}

/// The section definitions of a partial script: one for each section, in order. That of `.data`
/// collects `.data`, `extabindex` and `extab`; every other one has an empty pair of braces. Without
/// an entry point an empty `.init` comes first.
pub proof fn law_partial_definitions(o: obj::ObjView)
    ensures
        ({
            let defs = text::joined(
                Seq::new(
                    o.sections.len(),
                    |i: int|
                        o.sections[i].name + " ALIGN("@ + text::hex_text(
                            o.sections[i].align as int,
                        ) + (if o.sections[i].name == ".data"@ {
                            "):{ *(.data) *(extabindex) *(extab) }"@
                        } else {
                            "):{}"@
                        }),
                ),
                "\n        "@,
            );
            &&& o.entry is Some ==> lcf::partial_defs(o) == defs
            &&& o.entry is None ==> lcf::partial_defs(o) == ".init :{}\n        "@ + defs
        }),
{
    reveal_strlit(")");
    reveal_strlit(":{");
    reveal_strlit("}");
    reveal_strlit("):{}");
    reveal_strlit(" *(.data) *(extabindex) *(extab) ");
    reveal_strlit("):{ *(.data) *(extabindex) *(extab) }");
    assert(")"@ + ":{"@ + " *(.data) *(extabindex) *(extab) "@ + "}"@
        =~= "):{ *(.data) *(extabindex) *(extab) }"@);
    let written = Seq::new(
        o.sections.len(),
        |i: int|
            o.sections[i].name + " ALIGN("@ + text::hex_text(o.sections[i].align as int) + (
            if o.sections[i].name == ".data"@ {
                "):{ *(.data) *(extabindex) *(extab) }"@
            } else {
                "):{}"@
            }),
    );
    let made = Seq::new(
        o.sections.len(),
        |i: int| lcf::simple_def(o.sections[i], lcf::partial_inner(o.sections[i].name)),
    );
    assert forall|i: int| 0 <= i < o.sections.len() implies made[i] == written[i] by {
        let s = o.sections[i];
        let head = s.name + " ALIGN("@ + text::hex_text(s.align as int);
        if s.name == ".data"@ {
            assert(head + ")"@ + ":{"@ + " *(.data) *(extabindex) *(extab) "@ + "}"@ =~= head + (
            ")"@ + ":{"@ + " *(.data) *(extabindex) *(extab) "@ + "}"@));
        } else {
            lemma_simple_text(s);
        }
    }
    assert(made =~= written);
}

/// The names to keep alive are those that were asked for and then, in order, the names of the
/// symbols that are exported and global and not left out of what is written. A name that was not
/// asked for is among them exactly if such a symbol has it.
pub proof fn law_names_kept_alive(
    asked: Seq<Seq<char>>,
    symbols: Seq<obj::SymbolView>,
    name: Seq<char>,
)
    ensures
        lcf::force_active_names(asked, symbols) == asked + symbols.filter(
            |s: obj::SymbolView| s.flags.exported && s.flags.global && !s.flags.no_write,
        ).map_values(|s: obj::SymbolView| s.name),
        !asked.contains(name) ==> (lcf::force_active_names(asked, symbols).contains(name)
            <==> exists|k: int|
            0 <= k < symbols.len() && (#[trigger] symbols[k]).name == name
                && symbols[k].flags.exported == true && symbols[k].flags.global == true
                && symbols[k].flags.no_write == false),
{
    lemma_kept_in_order(asked, symbols);
    law_force_active(asked, symbols, name);
    if exists|k: int|
        0 <= k < symbols.len() && (#[trigger] symbols[k]).name == name && symbols[k].flags.exported
            && symbols[k].flags.global && !symbols[k].flags.no_write {
        let k = choose|k: int|
            0 <= k < symbols.len() && (#[trigger] symbols[k]).name == name
                && symbols[k].flags.exported && symbols[k].flags.global
                && !symbols[k].flags.no_write;
        assert(lcf::kept_alive(symbols[k]));
    }
}

/// The symbols that are kept alive follow what was asked for, in their order.
proof fn lemma_kept_in_order(asked: Seq<Seq<char>>, symbols: Seq<obj::SymbolView>)
    ensures
        lcf::force_active_names(asked, symbols) == asked + symbols.filter(
            |s: obj::SymbolView| s.flags.exported && s.flags.global && !s.flags.no_write,
        ).map_values(|s: obj::SymbolView| s.name),
    decreases symbols.len(),
{
    reveal(Seq::filter);
    let alive = |s: obj::SymbolView| s.flags.exported && s.flags.global && !s.flags.no_write;
    let name = |s: obj::SymbolView| s.name;
    if symbols.len() == 0 {
        assert(symbols.filter(alive).map_values(name) =~= Seq::empty());
        assert(asked + Seq::<Seq<char>>::empty() =~= asked);
    } else {
        let shorter = symbols.drop_last();
        lemma_kept_in_order(asked, shorter);
        let before = shorter.filter(alive);
        if alive(symbols.last()) {
            assert(before.push(symbols.last()).map_values(name) =~= before.map_values(name).push(
                symbols.last().name,
            ));
            assert(asked + before.map_values(name).push(symbols.last().name) =~= (asked
                + before.map_values(name)).push(symbols.last().name));
        }
    }
}

/// The numbers and names of a full script: the stack is as large as its start lies above its end,
/// or 65535 bytes if either is not known; the arena ends where the object says, or at 0x81700000;
/// the symbol in front of a section is `_f_` and its name without leading dots; the list of names
/// to keep alive has one a line, each indented by four spaces.
pub proof fn law_script_values(o: obj::ObjView, asked: Seq<Seq<char>>, k: int, name: Seq<char>)
    requires
        0 <= k <= name.len(),
        forall|j: int| 0 <= j < k ==> name[j] == '.',
        k < name.len() ==> name[k] != '.',
    ensures
        o.stack_address is Some && o.stack_end is Some ==> lcf::stack_size(o)
            == o.stack_address->Some_0 - o.stack_end->Some_0,
        o.stack_address is None || o.stack_end is None ==> lcf::stack_size(o) == 65535,
        o.arena_hi is Some ==> lcf::arena_hi(o) == o.arena_hi->Some_0,
        o.arena_hi is None ==> lcf::arena_hi(o) == 0x8170_0000,
        lcf::section_symbol(name) == "_f_"@ + name.skip(k),
        lcf::force_active_text(asked, o.symbols) == text::joined(
            lcf::force_active_names(asked, o.symbols),
            "\n    "@,
        ),
{
    text::law_trimmed(name, '.');
    let m = choose|m: int|
        #![trigger name.skip(m)]
        0 <= m <= name.len() && text::trimmed_start(name, '.') == name.skip(m) && (forall|j: int|
            0 <= j < m ==> name[j] == '.') && (m < name.len() ==> name[m] != '.');
    if m < k {
        assert(name[m] == '.');
    }
    if k < m {
        assert(name[k] == '.');
    }
}

/// A script is its template with the variables put in one after another, in this order and with
/// these values.
pub proof fn law_scripts_are_filled_templates(
    o: obj::ObjView,
    template: Seq<char>,
    asked: Seq<Seq<char>>,
    encoding: PathEncoding,
)
    ensures
        lcf::full_script(o, template, asked, encoding) == text::put_in(
            template,
            full_variables(),
            full_values(o, asked, lcf::full_defs(o, encoding)),
        ),
        lcf::partial_script(o, template, asked) == text::put_in(
            template,
            partial_variables(),
            partial_values(o, asked),
        ),
{
    lemma_put_in_full(template, full_values(o, asked, lcf::full_defs(o, encoding)));
    reveal_with_fuel(text::put_in, 3);
}

/// The template that the caller brings is used, whatever the defaults are; without one a
/// relocatable object has the default for partial scripts, and every other one that for full
/// scripts.
pub proof fn law_template_choice(
    o: obj::ObjView,
    t: &str,
    asked: Seq<Seq<char>>,
    host: lcf::LcfHost,
)
    ensures
        o.kind == ObjKind::Executable ==> lcf::script(o, Some(t), asked, host) == lcf::full_script(
            o,
            t@,
            asked,
            host.encoding,
        ) && lcf::script(o, None, asked, host) == lcf::full_script(
            o,
            host.template@,
            asked,
            host.encoding,
        ),
        o.kind == ObjKind::Relocatable ==> lcf::script(o, Some(t), asked, host)
            == lcf::partial_script(o, t@, asked) && lcf::script(o, None, asked, host)
            == lcf::partial_script(o, host.partial_template@, asked),
{
}

/// When a script can be made: all units in link order have object files and, for an executable,
/// there is a section, the stack does not end above its start and, if some unit has its place in
/// the link order set, all splits lie in the address space and all listed units have object files.
pub proof fn law_when_scripts_are_made(o: obj::ObjView, encoding: PathEncoding)
    ensures
        ({
            let linked = forall|i: int|
                0 <= i < o.link_order.len() ==> path::has_obj_file(
                    (#[trigger] o.link_order[i]).name,
                    encoding,
                );
            let ordered = exists|i: int|
                0 <= i < o.link_order.len() && (#[trigger] o.link_order[i]).order is Some;
            let in_space = forall|i: int, m: int|
                #![trigger o.sections[i].splits[m]]
                0 <= i < o.sections.len() && 0 <= m < o.sections[i].splits.len()
                    ==> o.sections[i].address + o.sections[i].splits[m].0 <= u64::MAX;
            let listed = forall|i: int, m: int|
                #![trigger lcf::listed_units(o.sections, o.sections[i].name)[m]]
                0 <= i < o.sections.len() && 0 <= m < lcf::listed_units(
                    o.sections,
                    o.sections[i].name,
                ).len() ==> path::has_obj_file(
                    lcf::listed_units(o.sections, o.sections[i].name)[m],
                    encoding,
                );
            let stack = o.stack_address is Some && o.stack_end is Some ==> o.stack_end->Some_0
                <= o.stack_address->Some_0;
            &&& o.kind == ObjKind::Relocatable ==> lcf::ready(o, encoding) == linked
            &&& o.kind == ObjKind::Executable ==> lcf::ready(o, encoding) == (linked
                && o.sections.len() > 0 && stack && (ordered ==> in_space && listed))
            &&& lcf::partial_ready(o, encoding) == linked
        }),
{
    let linked = forall|i: int|
        0 <= i < o.link_order.len() ==> path::has_obj_file(
            (#[trigger] o.link_order[i]).name,
            encoding,
        );
    let names = lcf::unit_names(o.link_order);
    assert(lcf::have_obj_files(names, encoding) == linked) by {
        if linked {
            assert forall|i: int| 0 <= i < names.len() implies path::has_obj_file(
                #[trigger] names[i],
                encoding,
            ) by {
                assert(names[i] == o.link_order[i].name);
            }
        }
        if lcf::have_obj_files(names, encoding) {
            assert forall|i: int| 0 <= i < o.link_order.len() implies path::has_obj_file(
                (#[trigger] o.link_order[i]).name,
                encoding,
            ) by {
                assert(path::has_obj_file(names[i], encoding));
            }
        }
    }
    let in_space = forall|i: int, m: int|
        #![trigger o.sections[i].splits[m]]
        0 <= i < o.sections.len() && 0 <= m < o.sections[i].splits.len() ==> o.sections[i].address
            + o.sections[i].splits[m].0 <= u64::MAX;
    let listed = forall|i: int, m: int|
        #![trigger lcf::listed_units(o.sections, o.sections[i].name)[m]]
        0 <= i < o.sections.len() && 0 <= m < lcf::listed_units(
            o.sections,
            o.sections[i].name,
        ).len() ==> path::has_obj_file(
            lcf::listed_units(o.sections, o.sections[i].name)[m],
            encoding,
        );
    assert(lcf::explicit_ready(o.sections, encoding) == (in_space && listed)) by {
        if in_space && listed {
            assert forall|i: int| 0 <= i < o.sections.len() implies lcf::splits_in_range(
                #[trigger] o.sections[i],
            ) by {}
        }
        if lcf::explicit_ready(o.sections, encoding) {
            assert forall|i: int, m: int|
                #![trigger o.sections[i].splits[m]]
                0 <= i < o.sections.len() && 0 <= m
                    < o.sections[i].splits.len() implies o.sections[i].address
                + o.sections[i].splits[m].0 <= u64::MAX by {
                assert(lcf::splits_in_range(o.sections[i]));
            }
            assert forall|i: int, m: int|
                #![trigger lcf::listed_units(o.sections, o.sections[i].name)[m]]
                0 <= i < o.sections.len() && 0 <= m < lcf::listed_units(
                    o.sections,
                    o.sections[i].name,
                ).len() implies path::has_obj_file(
                lcf::listed_units(o.sections, o.sections[i].name)[m],
                encoding,
            ) by {
                assert(lcf::have_obj_files(
                    lcf::listed_units(o.sections, o.sections[i].name),
                    encoding,
                ));
            }
        }
    }
}

} // verus!
