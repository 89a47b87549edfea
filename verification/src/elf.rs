//! What an ELF file says, as far as making a DOL from it depends on it.
//!
//! The bytes are parsed by the `object` crate. Each of its answers is taken over one by one, by a
//! small function that parses the bytes and asks; parsing only reads the tables of the file.
use object::{Object, ObjectSection};
use vstd::prelude::*;
use crate::text;
use crate::text::text_eq;

verus! {

/// The ELF section flag of sections that occupy memory.
pub const SHF_ALLOC: u64 = 2;

/// The byte order of a file.
#[derive(Debug, Clone, Copy, PartialEq, Eq, Structural)]
pub enum Endianness {
    Little,
    Big,
}

/// The kinds of sections that are told apart.
#[derive(Debug, Clone, Copy, PartialEq, Eq, Structural)]
pub enum SectionKind {
    Text,
    Data,
    ReadOnlyData,
    UninitializedData,
    Other,
}

/// The flags of a section.
#[derive(Debug, Clone, Copy, PartialEq, Eq, Structural)]
pub enum SectionFlags {
    Elf { sh_flags: u64 },
    Other,
}

/// A section of an ELF file. The name is missing if it cannot be read; the contents are the bytes
/// in the file, or the message that says why they cannot be read.
#[derive(Debug)]
pub struct ElfSection {
    pub name: Option<String>,
    pub kind: SectionKind,
    pub flags: SectionFlags,
    pub address: u64,
    pub size: u64,
    pub data: Result<Vec<u8>, String>,
}

/// An ELF file. The architecture and the kind are held by name.
#[derive(Debug)]
pub struct ElfFile {
    pub architecture: String,
    pub endianness: Endianness,
    pub kind: String,
    pub entry: u64,
    pub sections: Vec<ElfSection>,
}

/// The mathematical content of an [`ElfSection`].
#[verifier::ext_equal]
pub struct SectionView {
    pub name: Option<Seq<char>>,
    pub kind: SectionKind,
    pub flags: SectionFlags,
    pub address: u64,
    pub size: u64,
    pub data: Result<Seq<u8>, Seq<char>>,
}

/// The mathematical content of an [`ElfFile`].
#[verifier::ext_equal]
pub struct FileView {
    pub architecture: Seq<char>,
    pub endianness: Endianness,
    pub kind: Seq<char>,
    pub entry: u64,
    pub sections: Seq<SectionView>,
}

impl View for ElfSection {
    type V = SectionView;

    open spec fn view(&self) -> SectionView {
        SectionView {
            name: match self.name {
                Some(n) => Some(n@),
                None => None,
            },
            kind: self.kind,
            flags: self.flags,
            address: self.address,
            size: self.size,
            data: match self.data {
                Ok(bytes) => Ok(bytes@),
                Err(message) => Err(message@),
            },
        }
    }
}

impl View for ElfFile {
    type V = FileView;

    open spec fn view(&self) -> FileView {
        FileView {
            architecture: self.architecture@,
            endianness: self.endianness,
            kind: self.kind@,
            entry: self.entry,
            sections: Seq::new(self.sections@.len(), |i: int| self.sections@[i]@),
        }
    }
}

/// The message with which `object` refuses to parse the bytes, if it does.
pub uninterp spec fn object_parse_error(data: Seq<u8>) -> Option<Seq<char>>;

/// The name of the architecture that `object` sees in the bytes.
pub uninterp spec fn object_architecture(data: Seq<u8>) -> Seq<char>;

/// The byte order that `object` sees in the bytes.
pub uninterp spec fn object_endianness(data: Seq<u8>) -> Endianness;

/// The name of the kind of object that `object` sees in the bytes.
pub uninterp spec fn object_kind(data: Seq<u8>) -> Seq<char>;

/// The entry point that `object` sees in the bytes.
pub uninterp spec fn object_entry(data: Seq<u8>) -> u64;

/// How many sections `object` lists.
pub uninterp spec fn object_section_count(data: Seq<u8>) -> nat;

/// The name of a section, if `object` can read it.
pub uninterp spec fn object_section_name(data: Seq<u8>, index: int) -> Option<Seq<char>>;

/// The kind that `object` gives a section.
pub uninterp spec fn object_section_kind(data: Seq<u8>, index: int) -> SectionKind;

/// The flags of a section.
pub uninterp spec fn object_section_flags(data: Seq<u8>, index: int) -> SectionFlags;

/// The address of a section.
pub uninterp spec fn object_section_address(data: Seq<u8>, index: int) -> u64;

/// The size of a section.
pub uninterp spec fn object_section_size(data: Seq<u8>, index: int) -> u64;

/// The contents of a section, or the message with which `object` refuses them.
pub uninterp spec fn object_section_data(data: Seq<u8>, index: int) -> Result<
    Seq<u8>,
    Seq<char>,
>;

/// The section at `index` as `object` describes it.
pub open spec fn parsed_section(data: Seq<u8>, index: int) -> SectionView {
    SectionView {
        name: object_section_name(data, index),
        kind: object_section_kind(data, index),
        flags: object_section_flags(data, index),
        address: object_section_address(data, index),
        size: object_section_size(data, index),
        data: object_section_data(data, index),
    }
}

/// The file as `object` describes it.
pub open spec fn parsed_file(data: Seq<u8>) -> FileView {
    FileView {
        architecture: object_architecture(data),
        endianness: object_endianness(data),
        kind: object_kind(data),
        entry: object_entry(data),
        sections: Seq::new(object_section_count(data), |i: int| parsed_section(data, i)),
    }
}

/// Calls `object::read::File::parse`. It accepts the bytes or refuses them, and the message of its
/// error depends on the bytes alone.
#[verifier::external_body]
fn check_parse(data: &[u8]) -> (checked: Result<(), String>)
    ensures
        match checked {
            Ok(_) => object_parse_error(data@) is None,
            Err(message) => object_parse_error(data@) == Some(message@),
        },
{
    object::read::File::parse(data).map(|_| ()).map_err(|e| e.to_string())
}

/// Calls `architecture` of `object::Object` on the parsed bytes, and gives the variant by its name.
#[verifier::external_body]
fn file_architecture(data: &[u8]) -> (name: String)
    requires
        object_parse_error(data@) is None,
    ensures
        name@ == object_architecture(data@),
{
    format!("{:?}", object::read::File::parse(data).unwrap().architecture())
}

/// Calls `endianness` of `object::Object` on the parsed bytes.
#[verifier::external_body]
fn file_endianness(data: &[u8]) -> (order: Endianness)
    requires
        object_parse_error(data@) is None,
    ensures
        order == object_endianness(data@),
{
    match object::read::File::parse(data).unwrap().endianness() {
        object::Endianness::Little => Endianness::Little,
        object::Endianness::Big => Endianness::Big,
    }
}

/// Calls `kind` of `object::Object` on the parsed bytes, and gives the variant by its name.
#[verifier::external_body]
fn file_kind(data: &[u8]) -> (name: String)
    requires
        object_parse_error(data@) is None,
    ensures
        name@ == object_kind(data@),
{
    format!("{:?}", object::read::File::parse(data).unwrap().kind())
}

/// Calls `entry` of `object::Object` on the parsed bytes.
#[verifier::external_body]
fn file_entry(data: &[u8]) -> (entry: u64)
    requires
        object_parse_error(data@) is None,
    ensures
        entry == object_entry(data@),
{
    object::read::File::parse(data).unwrap().entry()
}

/// Calls `sections` of `object::Object` on the parsed bytes, and counts them.
#[verifier::external_body]
fn section_count(data: &[u8]) -> (count: usize)
    requires
        object_parse_error(data@) is None,
    ensures
        count == object_section_count(data@),
{
    object::read::File::parse(data).unwrap().sections().count()
}

/// Calls `name` of `object::ObjectSection` on the section at `index`.
#[verifier::external_body]
fn section_name(data: &[u8], index: usize) -> (name: Option<String>)
    requires
        object_parse_error(data@) is None,
        index < object_section_count(data@),
    ensures
        match name {
            Some(n) => object_section_name(data@, index as int) == Some(n@),
            None => object_section_name(data@, index as int) is None,
        },
{
    let file = object::read::File::parse(data).unwrap();
    let section = file.sections().nth(index).unwrap();
    section.name().ok().map(|n| n.to_string())
}

/// Calls `kind` of `object::ObjectSection` on the section at `index`. The kinds that the library
/// does not tell apart become one.
#[verifier::external_body]
fn section_object_kind(data: &[u8], index: usize) -> (kind: SectionKind)
    requires
        object_parse_error(data@) is None,
        index < object_section_count(data@),
    ensures
        kind == object_section_kind(data@, index as int),
{
    match object::read::File::parse(data).unwrap().sections().nth(index).unwrap().kind() {
        object::SectionKind::Text => SectionKind::Text,
        object::SectionKind::Data => SectionKind::Data,
        object::SectionKind::ReadOnlyData => SectionKind::ReadOnlyData,
        object::SectionKind::UninitializedData => SectionKind::UninitializedData,
        _ => SectionKind::Other,
    }
}

/// Calls `flags` of `object::ObjectSection` on the section at `index`. Flags of other formats than
/// ELF become one.
#[verifier::external_body]
fn section_flags(data: &[u8], index: usize) -> (flags: SectionFlags)
    requires
        object_parse_error(data@) is None,
        index < object_section_count(data@),
    ensures
        flags == object_section_flags(data@, index as int),
{
    match object::read::File::parse(data).unwrap().sections().nth(index).unwrap().flags() {
        object::SectionFlags::Elf { sh_flags } => SectionFlags::Elf { sh_flags },
        _ => SectionFlags::Other,
    }
}

/// Calls `address` of `object::ObjectSection` on the section at `index`.
#[verifier::external_body]
fn section_address(data: &[u8], index: usize) -> (address: u64)
    requires
        object_parse_error(data@) is None,
        index < object_section_count(data@),
    ensures
        address == object_section_address(data@, index as int),
{
    object::read::File::parse(data).unwrap().sections().nth(index).unwrap().address()
}

/// Calls `size` of `object::ObjectSection` on the section at `index`.
#[verifier::external_body]
fn section_size(data: &[u8], index: usize) -> (size: u64)
    requires
        object_parse_error(data@) is None,
        index < object_section_count(data@),
    ensures
        size == object_section_size(data@, index as int),
{
    object::read::File::parse(data).unwrap().sections().nth(index).unwrap().size()
}

/// Calls `data` of `object::ObjectSection` on the section at `index`. It gives the bytes, or an
/// error whose message depends on the bytes of the file alone.
#[verifier::external_body]
fn section_data(data: &[u8], index: usize) -> (bytes: Result<Vec<u8>, String>)
    requires
        object_parse_error(data@) is None,
        index < object_section_count(data@),
    ensures
        match bytes {
            Ok(b) => object_section_data(data@, index as int) == Ok::<Seq<u8>, Seq<char>>(b@),
            Err(m) => object_section_data(data@, index as int) == Err::<Seq<u8>, Seq<char>>(m@),
        },
{
    let file = object::read::File::parse(data).unwrap();
    let section = file.sections().nth(index).unwrap();
    section.data().map(|b| b.to_vec()).map_err(|e| e.to_string())
}

/// Reads an ELF file: what `object` says of the bytes, with all sections in file order. The error
/// is the message with which `object` refuses the bytes.
pub fn read_elf(data: &[u8]) -> (file: Result<ElfFile, String>)
    ensures
        match file {
            Ok(f) => object_parse_error(data@) is None && f@ == parsed_file(data@),
            Err(message) => object_parse_error(data@) == Some(message@),
        },
{
    match check_parse(data) {
        Err(message) => Err(message),
        Ok(_) => {
            let count = section_count(data);
            let mut sections: Vec<ElfSection> = Vec::new();
            let mut i: usize = 0;
            while i < count
                invariant
                    i <= count,
                    count == object_section_count(data@),
                    object_parse_error(data@) is None,
                    sections@.len() == i,
                    forall|j: int|
                        0 <= j < i ==> (#[trigger] sections@[j])@ == parsed_section(data@, j),
                decreases count - i,
            {
                let section = ElfSection {
                    name: section_name(data, i),
                    kind: section_object_kind(data, i),
                    flags: section_flags(data, i),
                    address: section_address(data, i),
                    size: section_size(data, i),
                    data: section_data(data, i),
                };
                sections.push(section);
                i += 1;
            }
            let file = ElfFile {
                architecture: file_architecture(data),
                endianness: file_endianness(data),
                kind: file_kind(data),
                entry: file_entry(data),
                sections,
            };
            proof {
                assert(file@.sections =~= parsed_file(data@).sections);
            }
            Ok(file)
        },
    }
}

/// Names of sections that hold code.
pub open spec fn is_text_name(name: Seq<char>) -> bool {
    ||| name == ".init"@
    ||| name == ".text"@
    ||| name == ".vmtext"@
    ||| name == ".dbgtext"@
}

/// Names of sections that hold initialized data.
pub open spec fn is_data_name(name: Seq<char>) -> bool {
    ||| name == ".ctors"@
    ||| name == ".dtors"@
    ||| name == ".data"@
    ||| name == ".rodata"@
    ||| name == ".sdata"@
    ||| name == ".sdata2"@
    ||| name == "extab"@
    ||| name == "extabindex"@
    ||| name == ".BINARY"@
}

/// Names of sections that hold uninitialized data.
pub open spec fn is_bss_name(name: Seq<char>) -> bool {
    ||| name == ".bss"@
    ||| name == ".sbss"@
    ||| name == ".sbss2"@
}

/// The kind that a name alone decides.
pub open spec fn kind_by_name(name: Seq<char>) -> Option<SectionKind> {
    if is_text_name(name) {
        Some(SectionKind::Text)
    } else if is_data_name(name) {
        Some(SectionKind::Data)
    } else if is_bss_name(name) {
        Some(SectionKind::UninitializedData)
    } else {
        None
    }
}

/// The kind of a section: the one its name decides, else its own, with read-only data taken as
/// data.
pub open spec fn effective_kind(section: SectionView) -> SectionKind {
    let by_name = match section.name {
        Some(name) => kind_by_name(name),
        None => None,
    };
    match by_name {
        Some(kind) => kind,
        None => if section.kind == SectionKind::ReadOnlyData {
            SectionKind::Data
        } else {
            section.kind
        },
    }
}

/// The name of a section, with a stand-in for one that cannot be read.
pub open spec fn shown_name(section: SectionView) -> Seq<char> {
    match section.name {
        Some(name) => name,
        None => "[error]"@,
    }
}

/// Whether a section occupies memory.
pub open spec fn occupies_memory(flags: SectionFlags) -> bool {
    flags matches SectionFlags::Elf { sh_flags } && sh_flags & SHF_ALLOC != 0
}

/// The kind that a name alone decides.
fn name_kind(name: &str) -> (kind: Option<SectionKind>)
    ensures
        kind == kind_by_name(name@),
{
    if text_eq(name, ".init") || text_eq(name, ".text") || text_eq(name, ".vmtext") || text_eq(
        name,
        ".dbgtext",
    ) {
        Some(SectionKind::Text)
    } else if text_eq(name, ".ctors") || text_eq(name, ".dtors") || text_eq(name, ".data")
        || text_eq(name, ".rodata") || text_eq(name, ".sdata") || text_eq(name, ".sdata2")
        || text_eq(name, "extab") || text_eq(name, "extabindex") || text_eq(name, ".BINARY") {
        Some(SectionKind::Data)
    } else if text_eq(name, ".bss") || text_eq(name, ".sbss") || text_eq(name, ".sbss2") {
        Some(SectionKind::UninitializedData)
    } else {
        None
    }
}

/// The kind of a section.
///
/// Some ELF files do not have the proper section kind set, small data sections in particular, so
/// the names of known sections come first.
pub fn section_kind(section: &ElfSection) -> (kind: SectionKind)
    ensures
        kind == effective_kind(section@),
{
    let by_name = match &section.name {
        Some(name) => name_kind(name.as_str()),
        None => None,
    };
    match by_name {
        Some(kind) => kind,
        None => match section.kind {
            SectionKind::ReadOnlyData => SectionKind::Data,
            kind => kind,
        },
    }
}

/// Whether a section with these flags occupies memory.
pub fn is_alloc(flags: SectionFlags) -> (alloc: bool)
    ensures
        alloc == occupies_memory(flags),
{
    match flags {
        SectionFlags::Elf { sh_flags } => sh_flags & SHF_ALLOC != 0,
        SectionFlags::Other => false,
    }
}

/// The name of a section, or `[error]`.
pub fn display_name(section: &ElfSection) -> (name: String)
    ensures
        name@ == shown_name(section@),
{
    match &section.name {
        Some(name) => name.clone(),
        None => "[error]".to_owned(),
    }
}

/// Whether the name of a section is not among the denied ones.
pub fn is_name_allowed(section: &ElfSection, denied: &[String]) -> (allowed: bool)
    ensures
        allowed == !text::views(denied@).contains(shown_name(section@)),
{
    let name = display_name(section);
    let mut i: usize = 0;
    while i < denied.len()
        invariant
            i <= denied@.len(),
            name@ == shown_name(section@),
            forall|j: int| 0 <= j < i ==> denied@[j]@ != name@,
        decreases denied@.len() - i,
    {
        if denied[i] == name {
            proof {
                assert(text::views(denied@)[i as int] == name@);
            }
            return false;
        }
        i += 1;
    }
    true
}

/// A known name decides the kind of a section, whatever kind the file gives it.
pub proof fn law_known_names_decide(section: SectionView, kind: SectionKind)
    requires
        section.name matches Some(name) && kind_by_name(name) is Some,
    ensures
        effective_kind(section) == kind_by_name(section.name->Some_0)->Some_0,
        effective_kind(SectionView { kind, ..section }) == effective_kind(section),
{
}

/// No section counts as read-only data: those that the file calls so are data.
pub proof fn law_read_only_data_is_data(section: SectionView)
    ensures
        effective_kind(section) != SectionKind::ReadOnlyData,
{
}

/// The kind of a section in full: code, initialized and uninitialized data by their known names, and
/// every other section, also one whose name cannot be read, by the kind that the file gives it.
pub proof fn law_kind_of_a_section(section: SectionView, n: Seq<char>)
    requires
        section.name is Some ==> section.name == Some(n),
    ensures
        section.name is Some && (n == ".init"@ || n == ".text"@ || n == ".vmtext"@ || n
            == ".dbgtext"@) ==> effective_kind(section) == SectionKind::Text,
        section.name is Some && (n == ".ctors"@ || n == ".dtors"@ || n == ".data"@ || n
            == ".rodata"@ || n == ".sdata"@ || n == ".sdata2"@ || n == "extab"@ || n
            == "extabindex"@ || n == ".BINARY"@) ==> effective_kind(section) == SectionKind::Data,
        section.name is Some && (n == ".bss"@ || n == ".sbss"@ || n == ".sbss2"@)
            ==> effective_kind(section) == SectionKind::UninitializedData,
        section.name is None || (n != ".init"@ && n != ".text"@ && n != ".vmtext"@ && n
            != ".dbgtext"@ && n != ".ctors"@ && n != ".dtors"@ && n != ".data"@ && n != ".rodata"@
            && n != ".sdata"@ && n != ".sdata2"@ && n != "extab"@ && n != "extabindex"@ && n
            != ".BINARY"@ && n != ".bss"@ && n != ".sbss"@ && n != ".sbss2"@) ==> effective_kind(
            section,
        ) == if section.kind == SectionKind::ReadOnlyData {
            SectionKind::Data
        } else {
            section.kind
        },
{
    reveal_strlit(".init");
    reveal_strlit(".text");
    reveal_strlit(".vmtext");
    reveal_strlit(".dbgtext");
    reveal_strlit(".ctors");
    reveal_strlit(".dtors");
    reveal_strlit(".data");
    reveal_strlit(".rodata");
    reveal_strlit(".sdata");
    reveal_strlit(".sdata2");
    reveal_strlit("extab");
    reveal_strlit("extabindex");
    reveal_strlit(".BINARY");
    reveal_strlit(".bss");
    reveal_strlit(".sbss");
    reveal_strlit(".sbss2");
    assert(n == ".init"@ ==> n.len() == 5 && n[1] == 'i');
    assert(n == ".text"@ ==> n.len() == 5 && n[1] == 't');
    assert(n == ".vmtext"@ ==> n.len() == 7 && n[1] == 'v');
    assert(n == ".dbgtext"@ ==> n.len() == 8);
    assert(n == ".ctors"@ ==> n.len() == 6 && n[1] == 'c');
    assert(n == ".dtors"@ ==> n.len() == 6 && n[1] == 'd');
    assert(n == ".data"@ ==> n.len() == 5 && n[1] == 'd');
    assert(n == ".rodata"@ ==> n.len() == 7 && n[1] == 'r');
    assert(n == ".sdata"@ ==> n.len() == 6 && n[2] == 'd');
    assert(n == ".sdata2"@ ==> n.len() == 7 && n[1] == 's');
    assert(n == "extab"@ ==> n.len() == 5 && n[1] == 'x');
    assert(n == "extabindex"@ ==> n.len() == 10);
    assert(n == ".BINARY"@ ==> n.len() == 7 && n[1] == 'B');
    assert(n == ".bss"@ ==> n.len() == 4);
    assert(n == ".sbss"@ ==> n.len() == 5 && n[1] == 's');
    assert(n == ".sbss2"@ ==> n.len() == 6 && n[1] == 's' && n[2] == 'b');
}

/// A section occupies memory exactly if its flags are those of ELF and the second lowest bit is set.
pub proof fn law_memory_flag(sh_flags: u64)
    ensures
        occupies_memory(SectionFlags::Elf { sh_flags }) <==> sh_flags / 2 % 2 == 1,
        !occupies_memory(SectionFlags::Other),
{
    assert((sh_flags & 2 != 0) == (sh_flags / 2 % 2 == 1)) by (bit_vector);
}

/// A section is shown by its name, or as `[error]` if the name cannot be read.
pub proof fn law_shown_name(section: SectionView)
    ensures
        section.name matches Some(n) ==> shown_name(section) == n,
        section.name is None ==> shown_name(section) == "[error]"@,
{
}

/// Each property of a file, and of each of its sections, is the answer of `object` to the question
/// for that property.
pub proof fn law_parsed_file(data: Seq<u8>, i: int)
    requires
        0 <= i < object_section_count(data),
    ensures
        parsed_file(data).architecture == object_architecture(data),
        parsed_file(data).endianness == object_endianness(data),
        parsed_file(data).kind == object_kind(data),
        parsed_file(data).entry == object_entry(data),
        parsed_file(data).sections.len() == object_section_count(data),
        parsed_file(data).sections[i].name == object_section_name(data, i),
        parsed_file(data).sections[i].kind == object_section_kind(data, i),
        parsed_file(data).sections[i].flags == object_section_flags(data, i),
        parsed_file(data).sections[i].address == object_section_address(data, i),
        parsed_file(data).sections[i].size == object_section_size(data, i),
        parsed_file(data).sections[i].data == object_section_data(data, i),
{
}

} // verus!
