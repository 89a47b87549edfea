//! Making a DOL from an ELF file.
use vstd::prelude::*;
use crate::ctors;
use crate::ctors::patch_ctors_section;
use crate::dol;
use crate::dol::{align32, dol_file, write_aligned, DolHeader, DolSection};
use crate::dol::{CONTENTS_START, MAX_DATA_SECTIONS, MAX_TEXT_SECTIONS};
use crate::elf;
use crate::elf::{display_name, is_alloc, is_name_allowed, read_elf, section_kind};
use crate::elf::{ElfFile, ElfSection, Endianness, SectionKind};
use crate::text;
use crate::text::text_eq;

verus! {

/// What an input file is taken for.
#[derive(Debug, Clone, Copy, PartialEq, Eq, Structural)]
pub enum InputFormat {
    /// To be parsed as an ELF file.
    Elf,
    /// A DOL-like format (ALF or BootStage).
    DolLike,
}

/// The first bytes of every ELF file.
pub open spec fn elf_magic() -> Seq<u8> {
    seq![0x7f, 0x45, 0x4c, 0x46]
}

/// The two section tables of a DOL.
#[derive(Debug, Clone, Copy, PartialEq, Eq, Structural)]
pub enum Table {
    Text,
    Data,
}

/// Why no DOL was made.
#[derive(Debug)]
pub enum ConvertError {
    /// The `object` crate refused the file, or the contents of a section.
    Object(String),
    /// The file is for another architecture than PowerPC.
    UnexpectedArchitecture(String),
    /// The file is not big endian.
    ExpectedBigEndian,
    /// The file is not an executable.
    UnexpectedKind(String),
    /// There are more text sections than a DOL has room for; this one was the first too many.
    TooManyTextSections(String),
    /// There are more data sections than a DOL has room for; this one was the first too many.
    TooManyDataSections(String),
    /// A section does not fit: a size, an offset or an address leaves its range, or the contents
    /// of a section are not as long as its size says.
    OutOfRange,
}

/// The mathematical content of a [`ConvertError`].
pub enum ErrorView {
    Object(Seq<char>),
    UnexpectedArchitecture(Seq<char>),
    ExpectedBigEndian,
    UnexpectedKind(Seq<char>),
    TooManyTextSections(Seq<char>),
    TooManyDataSections(Seq<char>),
    OutOfRange,
}

impl View for ConvertError {
    type V = ErrorView;

    open spec fn view(&self) -> ErrorView {
        match self {
            ConvertError::Object(m) => ErrorView::Object(m@),
            ConvertError::UnexpectedArchitecture(n) => ErrorView::UnexpectedArchitecture(n@),
            ConvertError::ExpectedBigEndian => ErrorView::ExpectedBigEndian,
            ConvertError::UnexpectedKind(n) => ErrorView::UnexpectedKind(n@),
            ConvertError::TooManyTextSections(n) => ErrorView::TooManyTextSections(n@),
            ConvertError::TooManyDataSections(n) => ErrorView::TooManyDataSections(n@),
            ConvertError::OutOfRange => ErrorView::OutOfRange,
        }
    }
}

/// A DOL: its header, and the contents of its sections one after another.
#[derive(Debug)]
pub struct Dol {
    pub header: DolHeader,
    pub contents: Vec<u8>,
}

/// The mathematical content of a [`Dol`].
#[verifier::ext_equal]
pub struct DolView {
    pub header: dol::HeaderView,
    pub contents: Seq<u8>,
}

impl View for Dol {
    type V = DolView;

    open spec fn view(&self) -> DolView {
        DolView { header: self.header@, contents: self.contents@ }
    }
}

/// The text that reports an error.
pub open spec fn message_text(error: ErrorView) -> Seq<char> {
    match error {
        ErrorView::Object(m) => m,
        ErrorView::UnexpectedArchitecture(n) => "Unexpected architecture: "@ + n,
        ErrorView::ExpectedBigEndian => "Expected big endian"@,
        ErrorView::UnexpectedKind(n) => "Unexpected ELF type: "@ + n,
        ErrorView::TooManyTextSections(n) => "Too many text sections (while processing '"@ + n
            + "')"@,
        ErrorView::TooManyDataSections(n) => "Too many data sections (while processing '"@ + n
            + "')"@,
        ErrorView::OutOfRange => "Section out of range"@,
    }
}

/// How many slots a section table has.
pub open spec fn slots(table: Table) -> nat {
    match table {
        Table::Text => MAX_TEXT_SECTIONS as nat,
        Table::Data => MAX_DATA_SECTIONS as nat,
    }
}

/// Which sections go to a section table.
pub open spec fn kind_for(table: Table) -> SectionKind {
    match table {
        Table::Text => SectionKind::Text,
        Table::Data => SectionKind::Data,
    }
}

/// The error for one section too many.
pub open spec fn too_many(table: Table, name: Seq<char>) -> ErrorView {
    match table {
        Table::Text => ErrorView::TooManyTextSections(name),
        Table::Data => ErrorView::TooManyDataSections(name),
    }
}

/// Whether a section is of a kind, occupies memory, and is not denied.
pub open spec fn kept(
    section: elf::SectionView,
    kind: SectionKind,
    denied: Seq<Seq<char>>,
) -> bool {
    &&& elf::effective_kind(section) == kind
    &&& elf::occupies_memory(section.flags)
    &&& !denied.contains(elf::shown_name(section))
}

/// The kept sections of a kind, in file order.
pub open spec fn selected(
    sections: Seq<elf::SectionView>,
    kind: SectionKind,
    denied: Seq<Seq<char>>,
) -> Seq<elf::SectionView>
    decreases sections.len(),
{
    if sections.len() == 0 {
        Seq::empty()
    } else {
        let before = selected(sections.drop_last(), kind, denied);
        if kept(sections.last(), kind, denied) {
            before.push(sections.last())
        } else {
            before
        }
    }
}

/// Sections that have been given a place in the file: their table entries, where the next one
/// goes, and the contents so far.
#[verifier::ext_equal]
pub struct Placed {
    pub entries: Seq<DolSection>,
    pub end: u32,
    pub contents: Seq<u8>,
}

/// Places one more section at the end: its contents, padded to a multiple of 32, and its entry.
pub open spec fn place(before: Placed, section: elf::SectionView, table: Table) -> Result<
    Placed,
    ErrorView,
> {
    let size = section.size as u32;
    if size > u32::MAX - 31 {
        Err(ErrorView::OutOfRange)
    } else if before.entries.len() >= slots(table) {
        Err(too_many(table, elf::shown_name(section)))
    } else {
        match section.data {
            Err(message) => Err(ErrorView::Object(message)),
            Ok(bytes) => {
                let full = dol::aligned(size as int) as u32;
                if !dol::paddable(bytes.len(), full) || before.end + full > u32::MAX {
                    Err(ErrorView::OutOfRange)
                } else {
                    let entry = DolSection {
                        offset: before.end,
                        address: section.address as u32,
                        size: full,
                    };
                    Ok(
                        Placed {
                            entries: before.entries.push(entry),
                            end: (before.end + full) as u32,
                            contents: before.contents + dol::padded(bytes, full),
                        },
                    )
                }
            },
        }
    }
}

/// Places sections one after another; the first one that cannot be placed decides the error.
pub open spec fn place_all(
    start: Placed,
    sections: Seq<elf::SectionView>,
    table: Table,
) -> Result<Placed, ErrorView>
    decreases sections.len(),
{
    if sections.len() == 0 {
        Ok(start)
    } else {
        match place_all(start, sections.drop_last(), table) {
            Err(e) => Err(e),
            Ok(before) => place(before, sections.last(), table),
        }
    }
}

/// The bss range of the uninitialized sections: from the first address that is not zero to the end
/// of the last section. There is none if a section leaves the address space, or ends below the
/// start of the range.
pub open spec fn bss_range(sections: Seq<elf::SectionView>) -> Option<(u32, u32)>
    decreases sections.len(),
{
    if sections.len() == 0 {
        Some((0, 0))
    } else {
        match bss_range(sections.drop_last()) {
            None => None,
            Some((start, _)) => {
                let address = sections.last().address as u32;
                let end = address + sections.last().size as u32;
                let base = if start == 0 {
                    address
                } else {
                    start
                };
                if end > u32::MAX || end < base {
                    None
                } else {
                    Some((base, (end - base) as u32))
                }
            },
        }
    }
}

/// Where placing starts: nothing is placed, and the contents begin behind the header.
pub open spec fn nothing_placed() -> Placed {
    Placed { entries: Seq::empty(), end: CONTENTS_START, contents: Seq::empty() }
}

/// The text sections in their places.
pub open spec fn placed_text(file: elf::FileView, denied: Seq<Seq<char>>) -> Result<
    Placed,
    ErrorView,
> {
    place_all(nothing_placed(), selected(file.sections, SectionKind::Text, denied), Table::Text)
}

/// The data sections in their places, behind the text sections.
pub open spec fn placed_data(
    file: elf::FileView,
    denied: Seq<Seq<char>>,
    text: Placed,
) -> Result<Placed, ErrorView> {
    place_all(
        Placed { entries: Seq::empty(), end: text.end, contents: text.contents },
        selected(file.sections, SectionKind::Data, denied),
        Table::Data,
    )
}

/// The DOL of an ELF file, or why there is none.
pub open spec fn conversion(file: elf::FileView, denied: Seq<Seq<char>>) -> Result<
    DolView,
    ErrorView,
> {
    if file.architecture != "PowerPc"@ {
        Err(ErrorView::UnexpectedArchitecture(file.architecture))
    } else if file.endianness != Endianness::Big {
        Err(ErrorView::ExpectedBigEndian)
    } else if file.kind != "Executable"@ {
        Err(ErrorView::UnexpectedKind(file.kind))
    } else {
        match placed_text(file, denied) {
            Err(e) => Err(e),
            Ok(text) => match placed_data(file, denied, text) {
                Err(e) => Err(e),
                Ok(data) => match bss_range(
                    selected(file.sections, SectionKind::UninitializedData, denied),
                ) {
                    None => Err(ErrorView::OutOfRange),
                    Some((bss_address, bss_size)) => Ok(
                        DolView {
                            header: dol::HeaderView {
                                text_section_count: text.entries.len(),
                                data_section_count: data.entries.len(),
                                text_sections: dol::table(text.entries, MAX_TEXT_SECTIONS as nat),
                                data_sections: dol::table(data.entries, MAX_DATA_SECTIONS as nat),
                                bss_address,
                                bss_size,
                                entry_point: file.entry as u32,
                            },
                            contents: data.contents,
                        },
                    ),
                },
            },
        }
    }
}

impl ConvertError {
    /// The text that reports the error.
    pub fn message(&self) -> (text: String)
        ensures
            text@ == message_text(self@),
    {
        match self {
            ConvertError::Object(m) => m.clone(),
            ConvertError::UnexpectedArchitecture(n) => {
                let mut text = "Unexpected architecture: ".to_owned();
                text.append(n.as_str());
                text
            },
            ConvertError::ExpectedBigEndian => "Expected big endian".to_owned(),
            ConvertError::UnexpectedKind(n) => {
                let mut text = "Unexpected ELF type: ".to_owned();
                text.append(n.as_str());
                text
            },
            ConvertError::TooManyTextSections(n) => {
                let mut text = "Too many text sections (while processing '".to_owned();
                text.append(n.as_str());
                text.append("')");
                text
            },
            ConvertError::TooManyDataSections(n) => {
                let mut text = "Too many data sections (while processing '".to_owned();
                text.append(n.as_str());
                text.append("')");
                text
            },
            ConvertError::OutOfRange => "Section out of range".to_owned(),
        }
    }
}

/// Tells ELF files from DOL-like ones: a file that is long enough to have a magic number and does
/// not have that of ELF is DOL-like.
pub fn input_format(data: &[u8]) -> (format: InputFormat)
    ensures
        format == InputFormat::DolLike <==> data@.len() >= 4 && data@.take(4) != elf_magic(),
        format == InputFormat::Elf <==> data@.len() < 4 || (data@[0] == 0x7f && data@[1] == 0x45
            && data@[2] == 0x4c && data@[3] == 0x46),
{
    if data.len() >= 4 && !(data[0] == 0x7f && data[1] == 0x45 && data[2] == 0x4c && data[3]
        == 0x46) {
        proof {
            if data@.take(4) == elf_magic() {
                assert(data@[0] == data@.take(4)[0]);
                assert(data@[1] == data@.take(4)[1]);
                assert(data@[2] == data@.take(4)[2]);
                assert(data@[3] == data@.take(4)[3]);
            }
        }
        InputFormat::DolLike
    } else {
        proof {
            if data@.len() >= 4 {
                assert(data@.take(4) =~= elf_magic());
            }
        }
        InputFormat::Elf
    }
}

/// Sections that have been given a place in the file.
struct Placement {
    entries: Vec<DolSection>,
    end: u32,
    contents: Vec<u8>,
}

impl View for Placement {
    type V = Placed;

    closed spec fn view(&self) -> Placed {
        Placed { entries: self.entries@, end: self.end, contents: self.contents@ }
    }
}

/// Whether a section is of a kind, occupies memory, and is not denied.
pub fn is_kept(section: &ElfSection, kind: SectionKind, denied: &[String]) -> (keep: bool)
    ensures
        keep == kept(section@, kind, text::views(denied@)),
{
    section_kind(section) == kind && is_alloc(section.flags) && is_name_allowed(section, denied)
}

/// Places one more section at the end.
fn place_section(placement: &mut Placement, section: &ElfSection, table: Table) -> (done: Result<
    (),
    ConvertError,
>)
    ensures
        match done {
            Ok(_) => place(old(placement)@, section@, table) == Ok::<Placed, ErrorView>(
                final(placement)@,
            ),
            Err(e) => place(old(placement)@, section@, table) == Err::<Placed, ErrorView>(e@),
        },
{
    let address: u32 = section.address as u32;
    let size: u32 = section.size as u32;
    if size > u32::MAX - 31 {
        return Err(ConvertError::OutOfRange);
    }
    let full: u32 = align32(size);
    match table {
        Table::Text => {
            if placement.entries.len() >= MAX_TEXT_SECTIONS {
                return Err(ConvertError::TooManyTextSections(display_name(section)));
            }
        },
        Table::Data => {
            if placement.entries.len() >= MAX_DATA_SECTIONS {
                return Err(ConvertError::TooManyDataSections(display_name(section)));
            }
        },
    }
    match &section.data {
        Err(message) => Err(ConvertError::Object(message.clone())),
        Ok(bytes) => {
            let len: u32 = bytes.len() as u32;
            if len > full || full - len > 32 || full > u32::MAX - placement.end {
                return Err(ConvertError::OutOfRange);
            }
            placement.entries.push(DolSection { offset: placement.end, address, size: full });
            write_aligned(&mut placement.contents, bytes.as_slice(), full);
            placement.end = placement.end + full;
            Ok(())
        },
    }
}

/// A section that cannot be placed stops the placing of all that follow.
proof fn lemma_place_all_stuck(
    start: Placed,
    sections: Seq<elf::SectionView>,
    n: int,
    kind: SectionKind,
    denied: Seq<Seq<char>>,
    table: Table,
)
    requires
        0 <= n <= sections.len(),
        place_all(start, selected(sections.take(n), kind, denied), table) is Err,
    ensures
        place_all(start, selected(sections, kind, denied), table) == place_all(
            start,
            selected(sections.take(n), kind, denied),
            table,
        ),
    decreases sections.len(),
{
    if n == sections.len() {
        assert(sections.take(n) =~= sections);
    } else {
        let shorter = sections.drop_last();
        assert(shorter.take(n) =~= sections.take(n));
        lemma_place_all_stuck(start, shorter, n, kind, denied, table);
        let before = selected(shorter, kind, denied);
        if kept(sections.last(), kind, denied) {
            assert(before.push(sections.last()).drop_last() =~= before);
        }
    }
}

/// Places the sections of a table behind what is already in the file.
fn place_sections(
    sections: &Vec<ElfSection>,
    denied: &[String],
    table: Table,
    end: u32,
    contents: Vec<u8>,
    Ghost(views): Ghost<Seq<elf::SectionView>>,
) -> (placement: Result<Placement, ConvertError>)
    requires
        views == Seq::new(sections@.len(), |i: int| sections@[i]@),
    ensures
        ({
            let start = Placed { entries: Seq::empty(), end, contents: contents@ };
            let outcome = place_all(
                start,
                selected(views, kind_for(table), text::views(denied@)),
                table,
            );
            match placement {
                Ok(p) => outcome == Ok::<Placed, ErrorView>(p@),
                Err(e) => outcome == Err::<Placed, ErrorView>(e@),
            }
        }),
{
    let ghost start = Placed { entries: Seq::empty(), end, contents: contents@ };
    let ghost names = text::views(denied@);
    let mut placement = Placement { entries: Vec::new(), end, contents };
    let kind = match table {
        Table::Text => SectionKind::Text,
        Table::Data => SectionKind::Data,
    };
    let mut i: usize = 0;
    proof {
        assert(views.take(0) =~= Seq::empty());
        assert(placement@ =~= start);
    }
    while i < sections.len()
        invariant
            i <= sections@.len(),
            views == Seq::new(sections@.len(), |i: int| sections@[i]@),
            names == text::views(denied@),
            kind == kind_for(table),
            start == (Placed { entries: Seq::empty(), end, contents: contents@ }),
            place_all(start, selected(views.take(i as int), kind, names), table) == Ok::<
                Placed,
                ErrorView,
            >(placement@),
        decreases sections@.len() - i,
    {
        let section = &sections[i];
        let ghost before = selected(views.take(i as int), kind, names);
        proof {
            assert(views.take(i + 1).drop_last() =~= views.take(i as int));
            assert(views.take(i + 1).last() == section@);
        }
        if is_kept(section, kind, denied) {
            proof {
                assert(before.push(section@).drop_last() =~= before);
            }
            match place_section(&mut placement, section, table) {
                Ok(_) => {},
                Err(e) => {
                    proof {
                        lemma_place_all_stuck(start, views, i + 1, kind, names, table);
                    }
                    return Err(e);
                },
            }
        }
        i += 1;
    }
    proof {
        assert(views.take(i as int) =~= views);
    }
    Ok(placement)
}

/// A bss section that leaves its range decides the outcome.
proof fn lemma_bss_stuck(sections: Seq<elf::SectionView>, n: int, denied: Seq<Seq<char>>)
    requires
        0 <= n <= sections.len(),
        bss_range(selected(sections.take(n), SectionKind::UninitializedData, denied)) is None,
    ensures
        bss_range(selected(sections, SectionKind::UninitializedData, denied)) is None,
    decreases sections.len(),
{
    let kind = SectionKind::UninitializedData;
    if n == sections.len() {
        assert(sections.take(n) =~= sections);
    } else {
        let shorter = sections.drop_last();
        assert(shorter.take(n) =~= sections.take(n));
        lemma_bss_stuck(shorter, n, denied);
        let before = selected(shorter, kind, denied);
        if kept(sections.last(), kind, denied) {
            assert(before.push(sections.last()).drop_last() =~= before);
        }
    }
}

/// Finds the bss range of the uninitialized sections.
fn find_bss(
    sections: &Vec<ElfSection>,
    denied: &[String],
    Ghost(views): Ghost<Seq<elf::SectionView>>,
) -> (range: Option<(u32, u32)>)
    requires
        views == Seq::new(sections@.len(), |i: int| sections@[i]@),
    ensures
        range == bss_range(
            selected(views, SectionKind::UninitializedData, text::views(denied@)),
        ),
{
    let ghost names = text::views(denied@);
    let ghost kind = SectionKind::UninitializedData;
    let mut base: u32 = 0;
    let mut len: u32 = 0;
    let mut i: usize = 0;
    proof {
        assert(views.take(0) =~= Seq::empty());
    }
    while i < sections.len()
        invariant
            i <= sections@.len(),
            views == Seq::new(sections@.len(), |i: int| sections@[i]@),
            names == text::views(denied@),
            kind == SectionKind::UninitializedData,
            bss_range(selected(views.take(i as int), kind, names)) == Some((base, len)),
        decreases sections@.len() - i,
    {
        let section = &sections[i];
        let ghost before = selected(views.take(i as int), kind, names);
        proof {
            assert(views.take(i + 1).drop_last() =~= views.take(i as int));
            assert(views.take(i + 1).last() == section@);
        }
        if is_kept(section, SectionKind::UninitializedData, denied) {
            proof {
                assert(before.push(section@).drop_last() =~= before);
            }
            let address: u32 = section.address as u32;
            let size: u32 = section.size as u32;
            if base == 0 {
                base = address;
            }
            if size > u32::MAX - address || address + size < base {
                proof {
                    lemma_bss_stuck(views, i + 1, names);
                }
                return None;
            }
            len = (address + size) - base;
        }
        i += 1;
    }
    proof {
        assert(views.take(i as int) =~= views);
    }
    Some((base, len))
}

/// Fills the first slots of a section table.
fn fill_table<const N: usize>(slots: &mut [DolSection; N], entries: &Vec<DolSection>)
    requires
        entries@.len() <= N,
        old(slots)@ == dol::table(Seq::empty(), N as nat),
    ensures
        final(slots)@ == dol::table(entries@, N as nat),
{
    let mut i: usize = 0;
    while i < entries.len()
        invariant
            i <= entries@.len() <= N,
            slots@ == dol::table(entries@.take(i as int), N as nat),
        decreases entries@.len() - i,
    {
        slots[i] = entries[i];
        proof {
            assert(slots@ =~= dol::table(entries@.take(i + 1), N as nat));
        }
        i += 1;
    }
    proof {
        assert(entries@.take(i as int) =~= entries@);
    }
}

/// Placing never uses more slots than the table has.
proof fn lemma_slots_suffice(start: Placed, sections: Seq<elf::SectionView>, table: Table)
    requires
        start.entries.len() == 0,
    ensures
        place_all(start, sections, table) matches Ok(p) ==> p.entries.len() == sections.len()
            && p.entries.len() <= slots(table),
    decreases sections.len(),
{
    if sections.len() > 0 {
        lemma_slots_suffice(start, sections.drop_last(), table);
    }
}

/// Makes a DOL from an ELF file, or says why it cannot be made. A file whose numbers leave their
/// range is refused with [`ConvertError::OutOfRange`].
pub fn convert(file: &ElfFile, denied: &[String]) -> (made: Result<Dol, ConvertError>)
    ensures
        match made {
            Ok(d) => conversion(file@, text::views(denied@)) == Ok::<DolView, ErrorView>(d@),
            Err(e) => conversion(file@, text::views(denied@)) == Err::<DolView, ErrorView>(e@),
        },
        made is Ok ==> made->Ok_0.header.entry_point == file.entry as u32,
{
    if !text_eq(file.architecture.as_str(), "PowerPc") {
        return Err(ConvertError::UnexpectedArchitecture(file.architecture.clone()));
    }
    if file.endianness != Endianness::Big {
        return Err(ConvertError::ExpectedBigEndian);
    }
    if !text_eq(file.kind.as_str(), "Executable") {
        return Err(ConvertError::UnexpectedKind(file.kind.clone()));
    }
    let ghost views = file@.sections;
    let ghost names = text::views(denied@);
    let text = match place_sections(
        &file.sections,
        denied,
        Table::Text,
        CONTENTS_START,
        Vec::new(),
        Ghost(views),
    ) {
        Ok(p) => p,
        Err(e) => {
            return Err(e);
        },
    };
    let ghost text_view = text@;
    proof {
        assert(placed_text(file@, names) == Ok::<Placed, ErrorView>(text_view));
    }
    let Placement { entries: text_entries, end: text_end, contents: text_contents } = text;
    let data = match place_sections(
        &file.sections,
        denied,
        Table::Data,
        text_end,
        text_contents,
        Ghost(views),
    ) {
        Ok(p) => p,
        Err(e) => {
            return Err(e);
        },
    };
    let ghost data_view = data@;
    let (bss_address, bss_size) = match find_bss(&file.sections, denied, Ghost(views)) {
        Some(range) => range,
        None => {
            return Err(ConvertError::OutOfRange);
        },
    };
    proof {
        lemma_slots_suffice(
            nothing_placed(),
            selected(views, SectionKind::Text, names),
            Table::Text,
        );
        lemma_slots_suffice(
            Placed { entries: Seq::empty(), end: text_view.end, contents: text_view.contents },
            selected(views, SectionKind::Data, names),
            Table::Data,
        );
    }
    let mut header = DolHeader::default();
    fill_table(&mut header.text_sections, &text_entries);
    fill_table(&mut header.data_sections, &data.entries);
    header.text_section_count = text_entries.len();
    header.data_section_count = data.entries.len();
    header.bss_address = bss_address;
    header.bss_size = bss_size;
    header.entry_point = file.entry as u32;
    Ok(Dol { header, contents: data.contents })
}

/// The DOL of the bytes of an ELF file, or why there is none.
pub open spec fn file_conversion(data: Seq<u8>, denied: Seq<Seq<char>>) -> Result<
    DolView,
    ErrorView,
> {
    match elf::object_parse_error(data) {
        Some(message) => Err(ErrorView::Object(message)),
        None => conversion(elf::parsed_file(data), denied),
    }
}

/// The file of a DOL, with the `.ctors` sections of an original file if there is one to match.
pub open spec fn output(d: DolView, orig: Option<Seq<u8>>) -> Seq<u8> {
    let image = dol::file_image(d.header, d.contents);
    match orig {
        None => image,
        Some(o) => ctors::patched(o, image, d.header.data_sections, 11),
    }
}

/// Makes a DOL from the bytes of an ELF file, leaving out the sections with denied names.
pub fn elf_to_dol(data: &[u8], denied: &[String]) -> (made: Result<Dol, ConvertError>)
    ensures
        match made {
            Ok(d) => file_conversion(data@, text::views(denied@)) == Ok::<DolView, ErrorView>(d@),
            Err(e) => file_conversion(data@, text::views(denied@)) == Err::<DolView, ErrorView>(
                e@,
            ),
        },
{
    match read_elf(data) {
        Err(message) => Err(ConvertError::Object(message)),
        Ok(file) => convert(&file, denied),
    }
}

impl Dol {
    /// The bytes of the DOL file.
    pub fn to_bytes(&self) -> (bytes: Vec<u8>)
        ensures
            bytes@ == output(self@, None),
    {
        dol_file(&self.header, self.contents.as_slice())
    }

    /// The bytes of the DOL file with its `.ctors` sections patched to match an original file, and
    /// the indices of the data sections that were written.
    pub fn patched_bytes(&self, orig: &[u8]) -> (patched: (Vec<u8>, Vec<usize>))
        ensures
            patched.0@ == output(self@, Some(orig@)),
            patched.1@ == ctors::written_sections(
                orig@,
                output(self@, None),
                self@.header.data_sections,
                11,
            ),
    {
        let mut bytes = self.to_bytes();
        let sections = patch_ctors_section(orig, &mut bytes, &self.header);
        (bytes, sections)
    }
}

/// Makes the bytes of a DOL file from those of an ELF file, leaving out the sections with denied
/// names. If there is an original DOL file, the `.ctors` sections are patched to match it.
pub fn build(data: &[u8], denied: &[String], orig: Option<&[u8]>) -> (made: Result<
    Vec<u8>,
    ConvertError,
>)
    ensures
        match (made, file_conversion(data@, text::views(denied@))) {
            (Ok(bytes), Ok(d)) => bytes@ == match orig {
                None => output(d, None),
                Some(o) => output(d, Some(o@)),
            },
            (Err(e), Err(v)) => e@ == v,
            _ => false,
        },
{
    match elf_to_dol(data, denied) {
        Err(e) => Err(e),
        Ok(d) => match orig {
            None => Ok(d.to_bytes()),
            Some(o) => {
                let (bytes, _) = d.patched_bytes(o);
                Ok(bytes)
            },
        },
    }
}

} // verus!
