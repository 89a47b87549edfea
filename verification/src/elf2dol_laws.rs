//! What holds of every DOL that is made from an ELF file.
use vstd::prelude::*;
use crate::ctors;
use crate::dol;
use crate::dol::{DolSection, CONTENTS_START, MAX_DATA_SECTIONS, MAX_TEXT_SECTIONS};
use crate::elf;
use crate::elf::SectionKind;
use crate::elf2dol;
use crate::elf2dol::{DolView, ErrorView, Placed, Table};

verus! {

/// The contents of a section that can be read.
pub open spec fn bytes_of(section: elf::SectionView) -> Seq<u8> {
    match section.data {
        Ok(bytes) => bytes,
        Err(_) => Seq::empty(),
    }
}

/// Whether the contents of all sections are short enough for a 32-bit file.
pub open spec fn short_contents(sections: Seq<elf::SectionView>) -> bool {
    forall|k: int| 0 <= k < sections.len() ==> (#[trigger] bytes_of(sections[k])).len() <= u32::MAX
}

/// Where section `k` of a table starts if the table starts at `start`: at `start`, or where the
/// section before it ends.
pub open spec fn starts_at(entries: Seq<DolSection>, k: int, start: int) -> int {
    if k <= 0 {
        start
    } else {
        entries[k - 1].offset + entries[k - 1].size
    }
}

/// Whether table entry `k` is the one of its section, placed directly behind the one before it.
pub open spec fn entry_in_place(
    entries: Seq<DolSection>,
    sections: Seq<elf::SectionView>,
    k: int,
    start: int,
) -> bool {
    &&& entries[k].offset == starts_at(entries, k, start)
    &&& entries[k].address == sections[k].address as u32
    &&& entries[k].size == dol::aligned((sections[k].size as u32) as int)
    &&& start <= entries[k].offset
    &&& sections[k].data is Ok
}

/// The table entries follow each other without gap, from where placing starts to where it ends.
proof fn lemma_entries(start: Placed, sections: Seq<elf::SectionView>, table: Table)
    requires
        start.entries.len() == 0,
        elf2dol::place_all(start, sections, table) is Ok,
    ensures
        ({
            let p = elf2dol::place_all(start, sections, table)->Ok_0;
            &&& p.entries.len() == sections.len()
            &&& p.entries.len() <= elf2dol::slots(table)
            &&& p.end == starts_at(p.entries, p.entries.len() as int, start.end as int)
            &&& start.end <= p.end
            &&& forall|k: int|
                0 <= k < sections.len() ==> #[trigger] entry_in_place(
                    p.entries,
                    sections,
                    k,
                    start.end as int,
                ) && p.entries[k].offset + p.entries[k].size <= p.end
        }),
    decreases sections.len(),
{
    if sections.len() > 0 {
        let shorter = sections.drop_last();
        lemma_entries(start, shorter, table);
        let before = elf2dol::place_all(start, shorter, table)->Ok_0;
        let p = elf2dol::place_all(start, sections, table)->Ok_0;
        let last = sections.len() - 1;
        let size = sections[last].size as u32;
        assert(elf2dol::place(before, sections.last(), table) == Ok::<Placed, ErrorView>(p));
        assert(dol::aligned(size as int) <= u32::MAX);
        assert(p.end == before.end + p.entries[last].size);
        if last > 0 {
            assert(p.entries[last - 1] == before.entries[last - 1]);
        }
        assert(p.entries[last].offset == starts_at(p.entries, last, start.end as int));
        assert forall|k: int| 0 <= k < sections.len() implies #[trigger] entry_in_place(
            p.entries,
            sections,
            k,
            start.end as int,
        ) && p.entries[k].offset + p.entries[k].size <= p.end by {
            if k < last {
                assert(entry_in_place(before.entries, shorter, k, start.end as int));
                assert(p.entries[k] == before.entries[k]);
                assert(sections[k] == shorter[k]);
                if k > 0 {
                    assert(p.entries[k - 1] == before.entries[k - 1]);
                }
            }
        }
    }
}

/// The contents grow by what the table entries say, and each section is found at its place.
proof fn lemma_contents(start: Placed, sections: Seq<elf::SectionView>, table: Table)
    requires
        start.entries.len() == 0,
        elf2dol::place_all(start, sections, table) is Ok,
        short_contents(sections),
    ensures
        ({
            let p = elf2dol::place_all(start, sections, table)->Ok_0;
            &&& p.contents.len() - start.contents.len() == p.end - start.end
            &&& start.contents.is_prefix_of(p.contents)
            &&& forall|k: int|
                #![trigger p.entries[k]]
                0 <= k < sections.len() ==> {
                    let at = p.entries[k].offset - start.end + start.contents.len();
                    p.contents.subrange(at, at + p.entries[k].size) == dol::padded(
                        bytes_of(sections[k]),
                        p.entries[k].size,
                    )
                }
        }),
    decreases sections.len(),
{
    if sections.len() > 0 {
        let shorter = sections.drop_last();
        assert forall|k: int| 0 <= k < shorter.len() implies (#[trigger] bytes_of(
            shorter[k],
        )).len() <= u32::MAX by {
            assert(shorter[k] == sections[k]);
            assert(bytes_of(sections[k]).len() <= u32::MAX);
        }
        lemma_entries(start, shorter, table);
        lemma_entries(start, sections, table);
        lemma_contents(start, shorter, table);
        let before = elf2dol::place_all(start, shorter, table)->Ok_0;
        let p = elf2dol::place_all(start, sections, table)->Ok_0;
        let last = sections.len() - 1;
        let added = dol::padded(bytes_of(sections[last]), p.entries[last].size);
        assert(bytes_of(sections[last]).len() <= u32::MAX);
        assert(added.len() == p.entries[last].size);
        assert(p.contents == before.contents + added);
        assert forall|k: int|
            #![trigger p.entries[k]]
            0 <= k < sections.len() implies {
            let at = p.entries[k].offset - start.end + start.contents.len();
            p.contents.subrange(at, at + p.entries[k].size) == dol::padded(
                bytes_of(sections[k]),
                p.entries[k].size,
            )
        } by {
            let at = p.entries[k].offset - start.end + start.contents.len();
            assert(entry_in_place(p.entries, sections, k, start.end as int));
            if k < last {
                assert(p.entries[k] == before.entries[k]);
                assert(entry_in_place(before.entries, shorter, k, start.end as int));
                assert(sections[k] == shorter[k]);
                assert(p.contents.subrange(at, at + p.entries[k].size)
                    =~= before.contents.subrange(at, at + p.entries[k].size));
            } else {
                assert(p.contents.subrange(at, at + p.entries[k].size) =~= added);
            }
        }
    }
}

/// The layout of a DOL that was made: the kept text sections fill the first text slots and the kept
/// data sections the first data slots, in file order. The text sections start at the fixed start of
/// the contents, the data sections start where the text sections end, and each further section
/// starts where the one before it ends. All other slots are unused.
pub proof fn law_layout(file: elf::FileView, denied: Seq<Seq<char>>)
    requires
        elf2dol::conversion(file, denied) is Ok,
    ensures
        ({
            let h = elf2dol::conversion(file, denied)->Ok_0.header;
            let text = elf2dol::selected(file.sections, SectionKind::Text, denied);
            let data = elf2dol::selected(file.sections, SectionKind::Data, denied);
            let start = CONTENTS_START as int;
            let middle = starts_at(h.text_sections, text.len() as int, start);
            &&& h.text_section_count == text.len() <= MAX_TEXT_SECTIONS
            &&& h.data_section_count == data.len() <= MAX_DATA_SECTIONS
            &&& h.text_sections.len() == MAX_TEXT_SECTIONS
            &&& h.data_sections.len() == MAX_DATA_SECTIONS
            &&& forall|k: int|
                0 <= k < text.len() ==> #[trigger] entry_in_place(h.text_sections, text, k, start)
            &&& forall|k: int|
                0 <= k < data.len() ==> #[trigger] entry_in_place(h.data_sections, data, k, middle)
            &&& forall|k: int|
                text.len() <= k < MAX_TEXT_SECTIONS ==> #[trigger] h.text_sections[k]
                    == dol::unused()
            &&& forall|k: int|
                data.len() <= k < MAX_DATA_SECTIONS ==> #[trigger] h.data_sections[k]
                    == dol::unused()
        }),
{
    let h = elf2dol::conversion(file, denied)->Ok_0.header;
    let text = elf2dol::selected(file.sections, SectionKind::Text, denied);
    let data = elf2dol::selected(file.sections, SectionKind::Data, denied);
    let pt = elf2dol::placed_text(file, denied)->Ok_0;
    let pd = elf2dol::placed_data(file, denied, pt)->Ok_0;
    let between = Placed { entries: Seq::empty(), end: pt.end, contents: pt.contents };
    lemma_entries(elf2dol::nothing_placed(), text, Table::Text);
    lemma_entries(between, data, Table::Data);
    let start = CONTENTS_START as int;
    assert forall|k: int| 0 <= k < text.len() implies #[trigger] entry_in_place(
        h.text_sections,
        text,
        k,
        start,
    ) by {
        assert(entry_in_place(pt.entries, text, k, start));
        assert(h.text_sections[k] == pt.entries[k]);
        if k > 0 {
            assert(h.text_sections[k - 1] == pt.entries[k - 1]);
        }
    }
    assert(pt.end == starts_at(h.text_sections, text.len() as int, start));
    assert forall|k: int| 0 <= k < data.len() implies #[trigger] entry_in_place(
        h.data_sections,
        data,
        k,
        pt.end as int,
    ) by {
        assert(entry_in_place(pd.entries, data, k, pt.end as int));
        assert(h.data_sections[k] == pd.entries[k]);
        if k > 0 {
            assert(h.data_sections[k - 1] == pd.entries[k - 1]);
        }
    }
}

/// All offsets and sizes of a DOL that was made are multiples of 32.
pub proof fn law_everything_is_aligned(file: elf::FileView, denied: Seq<Seq<char>>, k: int)
    requires
        elf2dol::conversion(file, denied) is Ok,
    ensures
        ({
            let h = elf2dol::conversion(file, denied)->Ok_0.header;
            &&& 0 <= k < MAX_TEXT_SECTIONS ==> h.text_sections[k].offset % 32 == 0
                && h.text_sections[k].size % 32 == 0
            &&& 0 <= k < MAX_DATA_SECTIONS ==> h.data_sections[k].offset % 32 == 0
                && h.data_sections[k].size % 32 == 0
        }),
{
    law_layout(file, denied);
    let h = elf2dol::conversion(file, denied)->Ok_0.header;
    let text = elf2dol::selected(file.sections, SectionKind::Text, denied);
    let data = elf2dol::selected(file.sections, SectionKind::Data, denied);
    let start = CONTENTS_START as int;
    let middle = starts_at(h.text_sections, text.len() as int, start);
    lemma_aligned_entries(h.text_sections, text, text.len() as int, start);
    lemma_aligned_entries(h.data_sections, data, data.len() as int, middle);
    if 0 <= k < text.len() {
        lemma_aligned_entries(h.text_sections, text, k, start);
        assert(entry_in_place(h.text_sections, text, k, start));
    }
    if 0 <= k < data.len() {
        lemma_aligned_entries(h.data_sections, data, k, middle);
        assert(entry_in_place(h.data_sections, data, k, middle));
    }
}

/// Sections that follow each other from an aligned start are aligned.
proof fn lemma_aligned_entries(
    entries: Seq<DolSection>,
    sections: Seq<elf::SectionView>,
    n: int,
    start: int,
)
    requires
        0 <= n <= sections.len(),
        start % 32 == 0,
        forall|k: int|
            0 <= k < sections.len() ==> #[trigger] entry_in_place(entries, sections, k, start),
    ensures
        starts_at(entries, n, start) % 32 == 0,
    decreases n,
{
    if n > 0 {
        lemma_aligned_entries(entries, sections, n - 1, start);
        assert(entry_in_place(entries, sections, n - 1, start));
    }
}

/// Placing the first sections gives the beginning of what placing all of them gives.
proof fn lemma_placed_prefix(start: Placed, sections: Seq<elf::SectionView>, n: int, table: Table)
    requires
        0 <= n <= sections.len(),
        elf2dol::place_all(start, sections, table) is Ok,
    ensures
        ({
            let p = elf2dol::place_all(start, sections, table)->Ok_0;
            let first = elf2dol::place_all(start, sections.take(n), table);
            &&& first is Ok
            &&& first->Ok_0.entries.is_prefix_of(p.entries)
            &&& first->Ok_0.contents.is_prefix_of(p.contents)
        }),
    decreases sections.len(),
{
    if n == sections.len() {
        let p = elf2dol::place_all(start, sections, table)->Ok_0;
        assert(sections.take(n) =~= sections);
        assert(p.entries =~= p.entries.subrange(0, p.entries.len() as int));
        assert(p.contents =~= p.contents.subrange(0, p.contents.len() as int));
    } else {
        let shorter = sections.drop_last();
        lemma_placed_prefix(start, shorter, n, table);
        assert(shorter.take(n) =~= sections.take(n));
        let p = elf2dol::place_all(start, sections, table)->Ok_0;
        let before = elf2dol::place_all(start, shorter, table)->Ok_0;
        let first = elf2dol::place_all(start, sections.take(n), table)->Ok_0;
        assert(elf2dol::place(before, sections.last(), table) == Ok::<Placed, ErrorView>(p));
        assert(first.entries =~= p.entries.subrange(0, first.entries.len() as int));
        assert(first.contents =~= p.contents.subrange(0, first.contents.len() as int));
    }
}

/// A placed section is found at its place, if the contents of it and of all before it are short.
proof fn lemma_found(start: Placed, sections: Seq<elf::SectionView>, table: Table, k: int)
    requires
        start.entries.len() == 0,
        elf2dol::place_all(start, sections, table) is Ok,
        0 <= k < sections.len(),
        short_contents(sections.take(k + 1)),
    ensures
        ({
            let p = elf2dol::place_all(start, sections, table)->Ok_0;
            let entry = p.entries[k];
            let at = entry.offset - start.end + start.contents.len();
            &&& k < p.entries.len()
            &&& start.end <= entry.offset
            &&& at + entry.size <= p.contents.len()
            &&& p.contents.subrange(at, at + entry.size) == dol::padded(
                bytes_of(sections[k]),
                entry.size,
            )
        }),
{
    let firsts = sections.take(k + 1);
    lemma_placed_prefix(start, sections, k + 1, table);
    lemma_entries(start, sections, table);
    lemma_entries(start, firsts, table);
    lemma_contents(start, firsts, table);
    let p = elf2dol::place_all(start, sections, table)->Ok_0;
    let q = elf2dol::place_all(start, firsts, table)->Ok_0;
    let entry = q.entries[k];
    assert(p.entries[k] == entry);
    assert(firsts[k] == sections[k]);
    assert(entry_in_place(q.entries, firsts, k, start.end as int));
    let at = entry.offset - start.end + start.contents.len();
    assert(p.contents.subrange(at, at + entry.size) =~= q.contents.subrange(at, at + entry.size));
}

/// What a DOL that was made holds is read back from its file: at the place that the header gives
/// for a section stand the contents of that section, filled up with zeros. This holds as long as
/// the contents up to that section are short enough for a 32-bit file.
pub proof fn law_file_holds_the_sections(file: elf::FileView, denied: Seq<Seq<char>>, k: int)
    requires
        elf2dol::conversion(file, denied) is Ok,
    ensures
        ({
            let d = elf2dol::conversion(file, denied)->Ok_0;
            let image = dol::file_image(d.header, d.contents);
            let text = elf2dol::selected(file.sections, SectionKind::Text, denied);
            let data = elf2dol::selected(file.sections, SectionKind::Data, denied);
            let t = d.header.text_sections[k];
            let s = d.header.data_sections[k];
            &&& 0 <= k < text.len() && t.size > 0 && short_contents(text.take(k + 1)) ==> t.offset
                + t.size <= image.len() && ctors::contents(image, t) == dol::padded(
                bytes_of(text[k]),
                t.size,
            )
            &&& 0 <= k < data.len() && s.size > 0 && short_contents(text) && short_contents(
                data.take(k + 1),
            ) ==> s.offset + s.size <= image.len() && ctors::contents(image, s) == dol::padded(
                bytes_of(data[k]),
                s.size,
            )
        }),
{
    law_layout(file, denied);
    let d = elf2dol::conversion(file, denied)->Ok_0;
    let image = dol::file_image(d.header, d.contents);
    let text = elf2dol::selected(file.sections, SectionKind::Text, denied);
    let data = elf2dol::selected(file.sections, SectionKind::Data, denied);
    let pt = elf2dol::placed_text(file, denied)->Ok_0;
    let pd = elf2dol::placed_data(file, denied, pt)->Ok_0;
    let between = Placed { entries: Seq::empty(), end: pt.end, contents: pt.contents };
    dol::law_header_len(d.header);
    let start = CONTENTS_START as int;
    lemma_placed_prefix(between, data, 0, Table::Data);
    assert(data.take(0) =~= Seq::empty());
    assert(pt.contents.is_prefix_of(d.contents));
    if 0 <= k < text.len() && d.header.text_sections[k].size > 0 && short_contents(
        text.take(k + 1),
    ) {
        lemma_found(elf2dol::nothing_placed(), text, Table::Text, k);
        let t = d.header.text_sections[k];
        assert(t == pt.entries[k]);
        let at = t.offset - start;
        assert(ctors::contents(image, t) =~= pt.contents.subrange(at, at + t.size));
    }
    if 0 <= k < data.len() && d.header.data_sections[k].size > 0 && short_contents(text)
        && short_contents(data.take(k + 1)) {
        lemma_contents(elf2dol::nothing_placed(), text, Table::Text);
        lemma_found(between, data, Table::Data, k);
        let s = d.header.data_sections[k];
        assert(s == pd.entries[k]);
        lemma_entries(elf2dol::nothing_placed(), text, Table::Text);
        let at = s.offset - start;
        assert(ctors::contents(image, s) =~= d.contents.subrange(at, at + s.size));
    }
}

/// Patching the `.ctors` of a DOL that was made leaves its header and all its text sections as they
/// are, whatever the original file holds.
pub proof fn law_patch_spares_header_and_text(
    file: elf::FileView,
    denied: Seq<Seq<char>>,
    orig: Seq<u8>,
    p: int,
)
    requires
        elf2dol::conversion(file, denied) is Ok,
        ({
            let d = elf2dol::conversion(file, denied)->Ok_0;
            let image = dol::file_image(d.header, d.contents);
            &&& 0 <= p < image.len()
            &&& p < CONTENTS_START || exists|k: int|
                0 <= k < MAX_TEXT_SECTIONS && #[trigger] dol::covers(d.header.text_sections[k], p)
        }),
    ensures
        ({
            let d = elf2dol::conversion(file, denied)->Ok_0;
            let image = dol::file_image(d.header, d.contents);
            ctors::patched(orig, image, d.header.data_sections, 11)[p] == image[p]
        }),
{
    law_layout(file, denied);
    let d = elf2dol::conversion(file, denied)->Ok_0;
    let h = d.header;
    let image = dol::file_image(h, d.contents);
    let text = elf2dol::selected(file.sections, SectionKind::Text, denied);
    let data = elf2dol::selected(file.sections, SectionKind::Data, denied);
    let pt = elf2dol::placed_text(file, denied)->Ok_0;
    lemma_entries(elf2dol::nothing_placed(), text, Table::Text);
    let start = CONTENTS_START as int;
    let middle = starts_at(h.text_sections, text.len() as int, start);
    assert(middle == pt.end);
    assert(p < middle) by {
        if p >= CONTENTS_START {
            let k = choose|k: int|
                0 <= k < MAX_TEXT_SECTIONS && #[trigger] dol::covers(h.text_sections[k], p);
            assert(k < text.len());
            assert(entry_in_place(pt.entries, text, k, start));
            assert(h.text_sections[k] == pt.entries[k]);
        }
    }
    assert forall|i: int| 0 <= i < 11 implies !#[trigger] dol::covers(h.data_sections[i], p) by {
        if i < data.len() {
            assert(entry_in_place(h.data_sections, data, i, middle));
        } else {
            assert(h.data_sections[i] == dol::unused());
        }
    }
    ctors::law_patch_keeps_the_rest(orig, image, h.data_sections, 11, p);
}

/// Whether all sections stand at address zero.
pub open spec fn no_address(sections: Seq<elf::SectionView>) -> bool {
    forall|k: int| 0 <= k < sections.len() ==> (#[trigger] sections[k]).address as u32 == 0
}

/// The bss range starts at the first address that is not zero (at zero if there is none) and ends
/// where the last uninitialized section ends. Without such sections it is empty.
pub proof fn law_bss_range(sections: Seq<elf::SectionView>, k: int)
    requires
        elf2dol::bss_range(sections) is Some,
    ensures
        ({
            let (base, len) = elf2dol::bss_range(sections)->Some_0;
            &&& sections.len() == 0 ==> base == 0 && len == 0
            &&& sections.len() > 0 ==> base + len == sections.last().address as u32
                + sections.last().size as u32
            &&& no_address(sections) ==> base == 0
            &&& 0 <= k < sections.len() && no_address(sections.take(k))
                && sections[k].address as u32 != 0 ==> base == sections[k].address as u32
        }),
    decreases sections.len(),
{
    if sections.len() > 0 {
        let shorter = sections.drop_last();
        law_bss_range(shorter, k);
        if no_address(sections) {
            assert forall|j: int| 0 <= j < shorter.len() implies (
            #[trigger] shorter[j]).address as u32 == 0 by {
                assert(shorter[j] == sections[j]);
            }
            assert(sections[sections.len() - 1].address as u32 == 0);
        }
        if 0 <= k < shorter.len() {
            assert(shorter.take(k) =~= sections.take(k));
            assert(shorter[k] == sections[k]);
        } else if k == shorter.len() {
            assert(sections.take(k) =~= shorter);
        }
    }
}

/// What is selected for a kind are just those sections of the file that are of the kind, occupy
/// memory, and are not denied.
pub proof fn law_selection(
    sections: Seq<elf::SectionView>,
    kind: SectionKind,
    denied: Seq<Seq<char>>,
    section: elf::SectionView,
)
    ensures
        elf2dol::selected(sections, kind, denied).contains(section) <==> sections.contains(section)
            && elf2dol::kept(section, kind, denied),
    decreases sections.len(),
{
    if sections.len() > 0 {
        let shorter = sections.drop_last();
        let last = sections.last();
        let before = elf2dol::selected(shorter, kind, denied);
        let all = elf2dol::selected(sections, kind, denied);
        law_selection(shorter, kind, denied, section);
        if all.contains(section) {
            let k = choose|k: int| 0 <= k < all.len() && all[k] == section;
            if k < before.len() {
                assert(before[k] == section);
                let m = choose|m: int| 0 <= m < shorter.len() && shorter[m] == section;
                assert(sections[m] == section);
            } else {
                assert(sections[sections.len() - 1] == section);
            }
        }
        if sections.contains(section) && elf2dol::kept(section, kind, denied) {
            let m = choose|m: int| 0 <= m < sections.len() && sections[m] == section;
            if m < shorter.len() {
                assert(shorter[m] == section);
                let k = choose|k: int| 0 <= k < before.len() && before[k] == section;
                assert(all[k] == section);
            } else {
                assert(all[before.len() as int] == section);
            }
        }
    }
}

/// The sections whose names are not denied, in file order.
pub open spec fn without_denied(
    sections: Seq<elf::SectionView>,
    denied: Seq<Seq<char>>,
) -> Seq<elf::SectionView>
    decreases sections.len(),
{
    if sections.len() == 0 {
        Seq::empty()
    } else {
        let before = without_denied(sections.drop_last(), denied);
        if denied.contains(elf::shown_name(sections.last())) {
            before
        } else {
            before.push(sections.last())
        }
    }
}

/// Selecting with denied names is selecting among the sections that are not denied.
proof fn lemma_selected_without_denied(
    sections: Seq<elf::SectionView>,
    kind: SectionKind,
    denied: Seq<Seq<char>>,
)
    ensures
        elf2dol::selected(sections, kind, denied) == elf2dol::selected(
            without_denied(sections, denied),
            kind,
            Seq::empty(),
        ),
    decreases sections.len(),
{
    if sections.len() > 0 {
        lemma_selected_without_denied(sections.drop_last(), kind, denied);
        let before = without_denied(sections.drop_last(), denied);
        assert(before.push(sections.last()).drop_last() =~= before);
    }
}

/// Denying section names is the same as taking those sections out of the file first.
pub proof fn law_denied_sections_do_not_count(file: elf::FileView, denied: Seq<Seq<char>>)
    ensures
        elf2dol::conversion(file, denied) == elf2dol::conversion(
            elf::FileView { sections: without_denied(file.sections, denied), ..file },
            Seq::empty(),
        ),
{
    lemma_selected_without_denied(file.sections, SectionKind::Text, denied);
    lemma_selected_without_denied(file.sections, SectionKind::Data, denied);
    lemma_selected_without_denied(file.sections, SectionKind::UninitializedData, denied);
}

/// The low 32 bits of a number.
pub open spec fn low(x: u64) -> int {
    x as int % 0x1_0000_0000
}

/// Cutting a number to 32 bits keeps its low 32 bits.
proof fn lemma_low(x: u64)
    ensures
        x as u32 == low(x),
{
    assert(x as u32 == x % 0x1_0000_0000) by (bit_vector);
}

/// Selecting is filtering: of the sections of the file those stay, in their order, that are of the
/// kind, have the second lowest bit of their ELF flags set, and whose names (`[error]` for one that
/// cannot be read) are not denied.
pub proof fn law_selected_in_order(
    sections: Seq<elf::SectionView>,
    kind: SectionKind,
    denied: Seq<Seq<char>>,
)
    ensures
        elf2dol::selected(sections, kind, denied) == sections.filter(
            |s: elf::SectionView|
                elf::effective_kind(s) == kind && (s.flags matches elf::SectionFlags::Elf {
                    sh_flags,
                } && sh_flags / 2 % 2 == 1) && !denied.contains(
                    match s.name {
                        Some(n) => n,
                        None => "[error]"@,
                    },
                ),
        ),
    decreases sections.len(),
{
    reveal(Seq::filter);
    if sections.len() > 0 {
        law_selected_in_order(sections.drop_last(), kind, denied);
        match sections.last().flags {
            elf::SectionFlags::Elf { sh_flags } => elf::law_memory_flag(sh_flags),
            elf::SectionFlags::Other => elf::law_memory_flag(0),
        }
    }
}

/// Only big endian PowerPC executables become DOLs, and the entry point and the bss range in the
/// header are those of the file: the entry point is the low half of the file's, and the bss range
/// goes from the first address that is not zero to the end of the last uninitialized section.
pub proof fn law_header_values(file: elf::FileView, denied: Seq<Seq<char>>, k: int)
    requires
        elf2dol::conversion(file, denied) is Ok,
    ensures
        ({
            let h = elf2dol::conversion(file, denied)->Ok_0.header;
            let bss = elf2dol::selected(file.sections, SectionKind::UninitializedData, denied);
            &&& file.architecture == "PowerPc"@
            &&& file.endianness == elf::Endianness::Big
            &&& file.kind == "Executable"@
            &&& h.entry_point == file.entry as int % 0x1_0000_0000
            &&& bss.len() == 0 ==> h.bss_address == 0 && h.bss_size == 0
            &&& bss.len() > 0 ==> h.bss_address + h.bss_size == low(bss.last().address) + low(
                bss.last().size,
            )
            &&& (forall|j: int| 0 <= j < bss.len() ==> low((#[trigger] bss[j]).address) == 0)
                ==> h.bss_address == 0
            &&& 0 <= k < bss.len() && low(bss[k].address) != 0 && (forall|j: int|
                0 <= j < k ==> low((#[trigger] bss[j]).address) == 0) ==> h.bss_address == low(
                bss[k].address,
            )
        }),
{
    let bss = elf2dol::selected(file.sections, SectionKind::UninitializedData, denied);
    lemma_low(file.entry);
    law_bss_range(bss, k);
    if bss.len() > 0 {
        lemma_low(bss.last().address);
        lemma_low(bss.last().size);
    }
    if forall|j: int| 0 <= j < bss.len() ==> low((#[trigger] bss[j]).address) == 0 {
        assert forall|j: int| 0 <= j < bss.len() implies (#[trigger] bss[j]).address as u32 == 0 by {
            lemma_low(bss[j].address);
        }
        assert(no_address(bss));
    }
    if 0 <= k < bss.len() {
        lemma_low(bss[k].address);
        if forall|j: int| 0 <= j < k ==> low((#[trigger] bss[j]).address) == 0 {
            assert forall|j: int| 0 <= j < bss.take(k).len() implies (
            #[trigger] bss.take(k)[j]).address as u32 == 0 by {
                lemma_low(bss[j].address);
            }
            assert(no_address(bss.take(k)));
        }
    }
}

/// The section tables in full: slot `k` has the low half of the address of selected section `k`,
/// and the low half of its size, rounded up to a multiple of 32. The text sections begin at 0x100
/// and the data sections behind them, each where the one before it ends. All other slots are zero.
pub proof fn law_section_tables(file: elf::FileView, denied: Seq<Seq<char>>, k: int)
    requires
        elf2dol::conversion(file, denied) is Ok,
    ensures
        ({
            let h = elf2dol::conversion(file, denied)->Ok_0.header;
            let text = elf2dol::selected(file.sections, SectionKind::Text, denied);
            let data = elf2dol::selected(file.sections, SectionKind::Data, denied);
            let t = h.text_sections[k];
            let d = h.data_sections[k];
            &&& h.text_sections.len() == 7 && h.data_sections.len() == 11
            &&& h.text_section_count == text.len() <= 7
            &&& h.data_section_count == data.len() <= 11
            &&& 0 <= k < text.len() ==> t.address == low(text[k].address) && t.size % 32 == 0
                && low(text[k].size) <= t.size < low(text[k].size) + 32
            &&& 0 <= k < data.len() ==> d.address == low(data[k].address) && d.size % 32 == 0
                && low(data[k].size) <= d.size < low(data[k].size) + 32
            &&& text.len() > 0 ==> h.text_sections[0].offset == 0x100
            &&& 0 < k < text.len() ==> t.offset == h.text_sections[k - 1].offset
                + h.text_sections[k - 1].size
            &&& data.len() > 0 && text.len() == 0 ==> h.data_sections[0].offset == 0x100
            &&& data.len() > 0 && text.len() > 0 ==> h.data_sections[0].offset
                == h.text_sections[text.len() - 1].offset + h.text_sections[text.len() - 1].size
            &&& 0 < k < data.len() ==> d.offset == h.data_sections[k - 1].offset
                + h.data_sections[k - 1].size
            &&& text.len() <= k < 7 ==> t.offset == 0 && t.address == 0 && t.size == 0
            &&& data.len() <= k < 11 ==> d.offset == 0 && d.address == 0 && d.size == 0
        }),
{
    law_layout(file, denied);
    let h = elf2dol::conversion(file, denied)->Ok_0.header;
    let text = elf2dol::selected(file.sections, SectionKind::Text, denied);
    let data = elf2dol::selected(file.sections, SectionKind::Data, denied);
    let middle = starts_at(h.text_sections, text.len() as int, 0x100);
    if 0 <= k < text.len() {
        assert(entry_in_place(h.text_sections, text, k, 0x100));
        lemma_low(text[k].address);
        lemma_low(text[k].size);
    }
    if 0 <= k < data.len() {
        assert(entry_in_place(h.data_sections, data, k, middle));
        lemma_low(data[k].address);
        lemma_low(data[k].size);
    }
    if text.len() > 0 {
        assert(entry_in_place(h.text_sections, text, 0, 0x100));
    }
    if data.len() > 0 {
        assert(entry_in_place(h.data_sections, data, 0, middle));
    }
}

/// The bytes of a DOL file: where the header puts a section stand the bytes of the section, then
/// zeros. This holds as long as the contents up to that section are short enough for a 32-bit file.
pub proof fn law_file_bytes(file: elf::FileView, denied: Seq<Seq<char>>, k: int, j: int)
    requires
        elf2dol::conversion(file, denied) is Ok,
    ensures
        ({
            let d = elf2dol::conversion(file, denied)->Ok_0;
            let bytes = elf2dol::output(d, None);
            let text = elf2dol::selected(file.sections, SectionKind::Text, denied);
            let data = elf2dol::selected(file.sections, SectionKind::Data, denied);
            let t = d.header.text_sections[k];
            let s = d.header.data_sections[k];
            &&& 0 <= k < text.len() && 0 <= j < t.size && short_contents(text.take(k + 1)) ==> t.offset
                + j < bytes.len() && bytes[t.offset + j] == if j < bytes_of(text[k]).len() {
                bytes_of(text[k])[j]
            } else {
                0
            }
            &&& 0 <= k < data.len() && 0 <= j < s.size && short_contents(text) && short_contents(
                data.take(k + 1),
            ) ==> s.offset + j < bytes.len() && bytes[s.offset + j] == if j < bytes_of(
                data[k],
            ).len() {
                bytes_of(data[k])[j]
            } else {
                0
            }
        }),
{
    law_file_holds_the_sections(file, denied, k);
    let d = elf2dol::conversion(file, denied)->Ok_0;
    let image = elf2dol::output(d, None);
    let text = elf2dol::selected(file.sections, SectionKind::Text, denied);
    let data = elf2dol::selected(file.sections, SectionKind::Data, denied);
    let t = d.header.text_sections[k];
    let s = d.header.data_sections[k];
    if 0 <= k < text.len() && 0 <= j < t.size && short_contents(text.take(k + 1)) {
        assert(text.take(k + 1)[k] == text[k]);
        assert(bytes_of(text.take(k + 1)[k]).len() <= u32::MAX);
        assert(image[t.offset + j] == ctors::contents(image, t)[j]);
        assert(ctors::contents(image, t).len() == t.size);
        dol::law_padding(bytes_of(text[k]), t.size, j);
    }
    if 0 <= k < data.len() && 0 <= j < s.size && short_contents(text) && short_contents(
        data.take(k + 1),
    ) {
        assert(data.take(k + 1)[k] == data[k]);
        assert(bytes_of(data.take(k + 1)[k]).len() <= u32::MAX);
        assert(image[s.offset + j] == ctors::contents(image, s)[j]);
        assert(ctors::contents(image, s).len() == s.size);
        dol::law_padding(bytes_of(data[k]), s.size, j);
    }
}

/// The four bytes of a word make up the word.
proof fn lemma_four_bytes(word: u32)
    ensures
        word / 0x100_0000 * 0x100_0000 + word / 0x1_0000 % 0x100 * 0x1_0000 + word / 0x100 % 0x100
            * 0x100 + word % 0x100 == word,
{
}

/// The values of the header stand in the DOL file, as big endian words at fixed places.
#[verifier::spinoff_prover]
pub proof fn law_file_header(d: DolView, at: int, word: u32)
    requires
        d.header.text_sections.len() == 7,
        d.header.data_sections.len() == 11,
        dol::belongs_at(d.header, at, word),
    ensures
        ({
            let bytes = elf2dol::output(d, None);
            bytes[at] * 0x100_0000 + bytes[at + 1] * 0x1_0000 + bytes[at + 2] * 0x100 + bytes[at + 3]
                == word
        }),
{
    dol::law_header_bytes(d.header, at, word);
    dol::law_file_layout(d.header, d.contents, at);
    dol::law_file_layout(d.header, d.contents, at + 1);
    dol::law_file_layout(d.header, d.contents, at + 2);
    dol::law_file_layout(d.header, d.contents, at + 3);
    let bytes = elf2dol::output(d, None);
    assert(0 <= at && at + 3 < 228) by {
        lemma_place_in_header(d.header, at, word);
    }
    assert(bytes[at] == word / 0x100_0000);
    assert(bytes[at + 1] == word / 0x1_0000 % 0x100);
    assert(bytes[at + 2] == word / 0x100 % 0x100);
    assert(bytes[at + 3] == word % 0x100);
    lemma_four_bytes(word);
}

/// The values of the header have their places inside it.
proof fn lemma_place_in_header(h: dol::HeaderView, at: int, word: u32)
    requires
        dol::belongs_at(h, at, word),
    ensures
        0 <= at,
        at + 4 <= 228,
{
}

/// A DOL file has its contents at 0x100, and zeros between the header and them; without contents it
/// ends with the header.
#[verifier::spinoff_prover]
pub proof fn law_file_contents(d: DolView, i: int)
    requires
        d.header.text_sections.len() == 7,
        d.header.data_sections.len() == 11,
    ensures
        d.contents.len() == 0 ==> elf2dol::output(d, None).len() == 228,
        d.contents.len() > 0 ==> elf2dol::output(d, None).len() == 0x100 + d.contents.len(),
        d.contents.len() > 0 && 228 <= i < 0x100 ==> elf2dol::output(d, None)[i] == 0,
        0 <= i < d.contents.len() ==> elf2dol::output(d, None)[0x100 + i] == d.contents[i],
{
    dol::law_file_layout(d.header, d.contents, i);
}

/// Building with an original file copies from it every data section in use that ends inside both
/// files and holds nothing but zeros and pointers into main memory in the original.
#[verifier::spinoff_prover]
pub proof fn law_build_matches_the_original(d: DolView, orig: Seq<u8>, i: int, p: int)
    requires
        0 <= i < 11,
        d.header.data_sections[i].offset != 0,
        d.header.data_sections[i].offset + d.header.data_sections[i].size <= orig.len(),
        d.header.data_sections[i].offset + d.header.data_sections[i].size <= elf2dol::output(
            d,
            None,
        ).len(),
        forall|q: int|
            #![trigger orig[q]]
            d.header.data_sections[i].offset <= q && q + 4 <= d.header.data_sections[i].offset
                + d.header.data_sections[i].size && (q - d.header.data_sections[i].offset) % 4 == 0
                ==> {
                let w = orig[q] * 0x100_0000 + orig[q + 1] * 0x1_0000 + orig[q + 2] * 0x100
                    + orig[q + 3];
                w == 0 || 0x8000_0000 <= w < 0x8180_0000
            },
        d.header.data_sections[i].offset <= p < d.header.data_sections[i].offset
            + d.header.data_sections[i].size,
    ensures
        elf2dol::output(d, Some(orig)).len() == elf2dol::output(d, None).len(),
        elf2dol::output(d, Some(orig))[p] == orig[p],
{
    ctors::law_pointer_section_is_copied(
        orig,
        elf2dol::output(d, None),
        d.header.data_sections,
        i,
        p,
    );
}

/// Building with an original file leaves every byte that no data section holds as it is without
/// one.
#[verifier::spinoff_prover]
pub proof fn law_build_keeps_the_rest(d: DolView, orig: Seq<u8>, p: int)
    requires
        0 <= p < elf2dol::output(d, None).len(),
        forall|m: int|
            0 <= m < 11 ==> !((#[trigger] d.header.data_sections[m]).offset <= p
                < d.header.data_sections[m].offset + d.header.data_sections[m].size),
    ensures
        elf2dol::output(d, Some(orig)).len() == elf2dol::output(d, None).len(),
        elf2dol::output(d, Some(orig))[p] == elf2dol::output(d, None)[p],
{
    ctors::law_other_bytes_stay(orig, elf2dol::output(d, None), d.header.data_sections, p);
}

/// The low half of a size, rounded up to a multiple of 32.
pub open spec fn rounded(size: u64) -> int {
    (low(size) + 31) / 32 * 32
}

/// Whether all sections can be read and rounded up, and their contents are filled up by at most 32
/// zeros.
pub open spec fn readable(sections: Seq<elf::SectionView>) -> bool {
    forall|k: int|
        #![trigger sections[k]]
        0 <= k < sections.len() ==> sections[k].data is Ok && low(sections[k].size) <= 0xffff_ffe0
            && sections[k].data->Ok_0.len() <= rounded(sections[k].size) <= sections[k].data->Ok_0.len()
            + 32
}

/// The room that sections take in the file, each rounded up to a multiple of 32.
pub open spec fn room(sections: Seq<elf::SectionView>) -> int
    decreases sections.len(),
{
    if sections.len() == 0 {
        0
    } else {
        room(sections.drop_last()) + rounded(sections.last().size)
    }
}

/// Readable sections that fit are placed; the first one without a slot decides the error.
proof fn lemma_placing(start: Placed, sections: Seq<elf::SectionView>, table: Table)
    requires
        start.entries.len() == 0,
        readable(sections),
        start.end + room(sections) <= u32::MAX,
    ensures
        ({
            let cap: int = match table {
                Table::Text => 7,
                Table::Data => 11,
            };
            let outcome = elf2dol::place_all(start, sections, table);
            &&& room(sections) >= 0
            &&& sections.len() <= cap ==> outcome is Ok && outcome->Ok_0.end == start.end + room(
                sections,
            ) && outcome->Ok_0.entries.len() == sections.len()
            &&& sections.len() > cap ==> outcome == Err::<Placed, ErrorView>(
                match table {
                    Table::Text => ErrorView::TooManyTextSections(elf::shown_name(sections[cap])),
                    Table::Data => ErrorView::TooManyDataSections(elf::shown_name(sections[cap])),
                },
            )
        }),
    decreases sections.len(),
{
    if sections.len() > 0 {
        let shorter = sections.drop_last();
        assert forall|k: int| #![trigger shorter[k]] 0 <= k < shorter.len() implies shorter[k].data is Ok
            && low(shorter[k].size) <= 0xffff_ffe0 && shorter[k].data->Ok_0.len() <= rounded(
            shorter[k].size,
        ) <= shorter[k].data->Ok_0.len() + 32 by {
            assert(shorter[k] == sections[k]);
        }
        let last = sections[sections.len() - 1];
        assert(last.data is Ok);
        assert(rounded(last.size) >= 0);
        lemma_placing(start, shorter, table);
        lemma_low(last.size);
    }
}

/// The bss range of sections exists if they lie in the address space in ascending order.
proof fn lemma_bss_exists(sections: Seq<elf::SectionView>)
    requires
        forall|k: int|
            #![trigger sections[k]]
            0 <= k < sections.len() ==> low(sections[k].address) + low(sections[k].size)
                <= u32::MAX,
        forall|a: int, b: int|
            #![trigger sections[a], sections[b]]
            0 <= a <= b < sections.len() ==> low(sections[a].address) <= low(sections[b].address),
    ensures
        elf2dol::bss_range(sections) is Some,
        sections.len() > 0 ==> elf2dol::bss_range(sections)->Some_0.0 <= low(
            sections.last().address,
        ),
        sections.len() == 0 ==> elf2dol::bss_range(sections)->Some_0.0 == 0,
    decreases sections.len(),
{
    if sections.len() > 0 {
        let shorter = sections.drop_last();
        assert forall|a: int, b: int|
            #![trigger shorter[a], shorter[b]]
            0 <= a <= b < shorter.len() implies low(shorter[a].address) <= low(
            shorter[b].address,
        ) by {
            assert(shorter[a] == sections[a] && shorter[b] == sections[b]);
        }
        assert forall|k: int| #![trigger shorter[k]] 0 <= k < shorter.len() implies low(
            shorter[k].address,
        ) + low(shorter[k].size) <= u32::MAX by {
            assert(shorter[k] == sections[k]);
        }
        lemma_bss_exists(shorter);
        let last = sections[sections.len() - 1];
        lemma_low(last.address);
        lemma_low(last.size);
        if shorter.len() > 0 {
            assert(shorter.last() == sections[sections.len() - 2]);
        }
    }
}

/// A bss section that leaves the address space rules out a bss range.
proof fn lemma_bss_missing(sections: Seq<elf::SectionView>, k: int)
    requires
        0 <= k < sections.len(),
        low(sections[k].address) + low(sections[k].size) > u32::MAX,
    ensures
        elf2dol::bss_range(sections) is None,
    decreases sections.len(),
{
    if k == sections.len() - 1 {
        lemma_low(sections[k].address);
        lemma_low(sections[k].size);
    } else {
        assert(sections.drop_last()[k] == sections[k]);
        lemma_bss_missing(sections.drop_last(), k);
    }
}

/// A file is refused for its architecture first, then for its byte order, then for its kind.
pub proof fn law_refused_files(file: elf::FileView, denied: Seq<Seq<char>>)
    ensures
        file.architecture != "PowerPc"@ ==> elf2dol::conversion(file, denied) == Err::<
            DolView,
            ErrorView,
        >(ErrorView::UnexpectedArchitecture(file.architecture)),
        file.architecture == "PowerPc"@ && file.endianness == elf::Endianness::Little
            ==> elf2dol::conversion(file, denied) == Err::<DolView, ErrorView>(
            ErrorView::ExpectedBigEndian,
        ),
        file.architecture == "PowerPc"@ && file.endianness == elf::Endianness::Big && file.kind
            != "Executable"@ ==> elf2dol::conversion(file, denied) == Err::<DolView, ErrorView>(
            ErrorView::UnexpectedKind(file.kind),
        ),
{
}

/// A big endian PowerPC executable whose sections can be read and fit into a DOL becomes one if it
/// has at most 7 text and 11 data sections and its bss sections lie in ascending order in the
/// address space. With more sections the first one too many is named, text before data; a bss
/// section that leaves the address space is out of range.
pub proof fn law_ordinary_files(file: elf::FileView, denied: Seq<Seq<char>>)
    requires
        file.architecture == "PowerPc"@,
        file.endianness == elf::Endianness::Big,
        file.kind == "Executable"@,
        readable(elf2dol::selected(file.sections, SectionKind::Text, denied)),
        readable(elf2dol::selected(file.sections, SectionKind::Data, denied)),
        0x100 + room(elf2dol::selected(file.sections, SectionKind::Text, denied)) + room(
            elf2dol::selected(file.sections, SectionKind::Data, denied),
        ) <= u32::MAX,
    ensures
        ({
            let text = elf2dol::selected(file.sections, SectionKind::Text, denied);
            let data = elf2dol::selected(file.sections, SectionKind::Data, denied);
            let bss = elf2dol::selected(file.sections, SectionKind::UninitializedData, denied);
            let outcome = elf2dol::conversion(file, denied);
            let in_space = forall|k: int|
                #![trigger bss[k]]
                0 <= k < bss.len() ==> low(bss[k].address) + low(bss[k].size) <= u32::MAX;
            let ascending = forall|a: int, b: int|
                #![trigger bss[a], bss[b]]
                0 <= a <= b < bss.len() ==> low(bss[a].address) <= low(bss[b].address);
            &&& text.len() > 7 ==> outcome == Err::<DolView, ErrorView>(
                ErrorView::TooManyTextSections(elf::shown_name(text[7])),
            )
            &&& text.len() <= 7 && data.len() > 11 ==> outcome == Err::<DolView, ErrorView>(
                ErrorView::TooManyDataSections(elf::shown_name(data[11])),
            )
            &&& text.len() <= 7 && data.len() <= 11 && in_space && ascending ==> outcome is Ok
            &&& text.len() <= 7 && data.len() <= 11 && !in_space ==> outcome == Err::<
                DolView,
                ErrorView,
            >(ErrorView::OutOfRange)
        }),
{
    let text = elf2dol::selected(file.sections, SectionKind::Text, denied);
    let data = elf2dol::selected(file.sections, SectionKind::Data, denied);
    let bss = elf2dol::selected(file.sections, SectionKind::UninitializedData, denied);
    lemma_room(data);
    lemma_placing(elf2dol::nothing_placed(), text, Table::Text);
    if text.len() <= 7 {
        let pt = elf2dol::placed_text(file, denied)->Ok_0;
        let between = Placed { entries: Seq::empty(), end: pt.end, contents: pt.contents };
        lemma_placing(between, data, Table::Data);
        let in_space = forall|k: int|
            #![trigger bss[k]]
            0 <= k < bss.len() ==> low(bss[k].address) + low(bss[k].size) <= u32::MAX;
        let ascending = forall|a: int, b: int|
            #![trigger bss[a], bss[b]]
            0 <= a <= b < bss.len() ==> low(bss[a].address) <= low(bss[b].address);
        if in_space && ascending {
            lemma_bss_exists(bss);
        }
        if !in_space {
            let k = choose|k: int|
                #![trigger bss[k]]
                0 <= k < bss.len() && low(bss[k].address) + low(bss[k].size) > u32::MAX;
            lemma_bss_missing(bss, k);
        }
    }
}

/// Sections never take less than no room.
proof fn lemma_room(sections: Seq<elf::SectionView>)
    ensures
        room(sections) >= 0,
    decreases sections.len(),
{
    if sections.len() > 0 {
        lemma_room(sections.drop_last());
    }
}

/// What stops the placing of the first sections stops it for all.
proof fn lemma_placing_stops(
    start: Placed,
    sections: Seq<elf::SectionView>,
    table: Table,
    n: int,
)
    requires
        0 <= n <= sections.len(),
        elf2dol::place_all(start, sections.take(n), table) is Err,
    ensures
        elf2dol::place_all(start, sections, table) == elf2dol::place_all(
            start,
            sections.take(n),
            table,
        ),
    decreases sections.len(),
{
    if n == sections.len() {
        assert(sections.take(n) =~= sections);
    } else {
        assert(sections.drop_last().take(n) =~= sections.take(n));
        lemma_placing_stops(start, sections.drop_last(), table, n);
    }
}

/// The first text section whose contents cannot be read decides the error, with the message that
/// says why.
pub proof fn law_unreadable_section(
    file: elf::FileView,
    denied: Seq<Seq<char>>,
    k: int,
    message: Seq<char>,
)
    requires
        file.architecture == "PowerPc"@,
        file.endianness == elf::Endianness::Big,
        file.kind == "Executable"@,
        ({
            let text = elf2dol::selected(file.sections, SectionKind::Text, denied);
            &&& 0 <= k < text.len()
            &&& k < 7
            &&& readable(text.take(k))
            &&& 0x100 + room(text.take(k)) <= u32::MAX
            &&& text[k].data == Err::<Seq<u8>, Seq<char>>(message)
            &&& low(text[k].size) <= 0xffff_ffe0
        }),
    ensures
        elf2dol::conversion(file, denied) == Err::<DolView, ErrorView>(ErrorView::Object(message)),
{
    let text = elf2dol::selected(file.sections, SectionKind::Text, denied);
    let start = elf2dol::nothing_placed();
    lemma_placing(start, text.take(k), Table::Text);
    lemma_low(text[k].size);
    assert(text.take(k + 1).drop_last() =~= text.take(k));
    assert(text.take(k + 1).last() == text[k]);
    lemma_placing_stops(start, text, Table::Text, k + 1);
}

/// The text of each error, with the name or message that it carries.
pub proof fn law_messages(n: Seq<char>)
    ensures
        elf2dol::message_text(ErrorView::Object(n)) == n,
        elf2dol::message_text(ErrorView::UnexpectedArchitecture(n)) == "Unexpected architecture: "@
            + n,
        elf2dol::message_text(ErrorView::ExpectedBigEndian) == "Expected big endian"@,
        elf2dol::message_text(ErrorView::UnexpectedKind(n)) == "Unexpected ELF type: "@ + n,
        elf2dol::message_text(ErrorView::TooManyTextSections(n))
            == "Too many text sections (while processing '"@ + n + "')"@,
        elf2dol::message_text(ErrorView::TooManyDataSections(n))
            == "Too many data sections (while processing '"@ + n + "')"@,
{
}

/// The first data section whose contents cannot be read decides the error, if the text sections can
/// be placed.
pub proof fn law_unreadable_data_section(
    file: elf::FileView,
    denied: Seq<Seq<char>>,
    k: int,
    message: Seq<char>,
)
    requires
        file.architecture == "PowerPc"@,
        file.endianness == elf::Endianness::Big,
        file.kind == "Executable"@,
        ({
            let text = elf2dol::selected(file.sections, SectionKind::Text, denied);
            let data = elf2dol::selected(file.sections, SectionKind::Data, denied);
            &&& text.len() <= 7
            &&& readable(text)
            &&& 0 <= k < data.len()
            &&& k < 11
            &&& readable(data.take(k))
            &&& 0x100 + room(text) + room(data.take(k)) <= u32::MAX
            &&& data[k].data == Err::<Seq<u8>, Seq<char>>(message)
            &&& low(data[k].size) <= 0xffff_ffe0
        }),
    ensures
        elf2dol::conversion(file, denied) == Err::<DolView, ErrorView>(ErrorView::Object(message)),
{
    let text = elf2dol::selected(file.sections, SectionKind::Text, denied);
    let data = elf2dol::selected(file.sections, SectionKind::Data, denied);
    lemma_room(data.take(k));
    lemma_placing(elf2dol::nothing_placed(), text, Table::Text);
    let pt = elf2dol::placed_text(file, denied)->Ok_0;
    let between = Placed { entries: Seq::empty(), end: pt.end, contents: pt.contents };
    lemma_placing(between, data.take(k), Table::Data);
    lemma_low(data[k].size);
    assert(data.take(k + 1).drop_last() =~= data.take(k));
    assert(data.take(k + 1).last() == data[k]);
    lemma_placing_stops(between, data, Table::Data, k + 1);
}

/// Bytes that cannot be parsed are refused with the message of the parser; all others are converted
/// as the file that they describe.
pub proof fn law_bytes_become_a_file(data: Seq<u8>, denied: Seq<Seq<char>>)
    ensures
        elf::object_parse_error(data) matches Some(m) ==> elf2dol::file_conversion(data, denied)
            == Err::<DolView, ErrorView>(ErrorView::Object(m)),
        elf::object_parse_error(data) is None ==> elf2dol::file_conversion(data, denied)
            == elf2dol::conversion(elf::parsed_file(data), denied),
{
}

/// The contents of the types are their fields.
pub proof fn law_views(
    file: elf::ElfFile,
    section: elf::ElfSection,
    d: elf2dol::Dol,
    error: elf2dol::ConvertError,
    i: int,
)
    requires
        0 <= i < file.sections@.len(),
    ensures
        file@.architecture == file.architecture@,
        file@.endianness == file.endianness,
        file@.kind == file.kind@,
        file@.entry == file.entry,
        file@.sections.len() == file.sections@.len(),
        file@.sections[i] == file.sections@[i]@,
        section@.kind == section.kind,
        section@.flags == section.flags,
        section@.address == section.address,
        section@.size == section.size,
        section.name matches Some(n) ==> section@.name == Some(n@),
        section.name is None ==> section@.name is None,
        section.data matches Ok(b) ==> section@.data == Ok::<Seq<u8>, Seq<char>>(b@),
        section.data matches Err(m) ==> section@.data == Err::<Seq<u8>, Seq<char>>(m@),
        d@.contents == d.contents@,
        d@.header.text_section_count == d.header.text_section_count,
        d@.header.data_section_count == d.header.data_section_count,
        d@.header.text_sections == d.header.text_sections@,
        d@.header.data_sections == d.header.data_sections@,
        d@.header.bss_address == d.header.bss_address,
        d@.header.bss_size == d.header.bss_size,
        d@.header.entry_point == d.header.entry_point,
        error matches elf2dol::ConvertError::Object(m) ==> error@ == ErrorView::Object(m@),
        error matches elf2dol::ConvertError::UnexpectedArchitecture(n) ==> error@
            == ErrorView::UnexpectedArchitecture(n@),
        error is ExpectedBigEndian ==> error@ == ErrorView::ExpectedBigEndian,
        error matches elf2dol::ConvertError::UnexpectedKind(n) ==> error@
            == ErrorView::UnexpectedKind(n@),
        error matches elf2dol::ConvertError::TooManyTextSections(n) ==> error@
            == ErrorView::TooManyTextSections(n@),
        error matches elf2dol::ConvertError::TooManyDataSections(n) ==> error@
            == ErrorView::TooManyDataSections(n@),
        error is OutOfRange ==> error@ == ErrorView::OutOfRange,
{
}

} // verus!
