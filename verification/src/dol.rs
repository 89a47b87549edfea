//! The DOL executable format: a header of big endian words, then the section contents.
use vstd::prelude::*;

verus! {

/// How many text sections a DOL has room for.
pub const MAX_TEXT_SECTIONS: usize = 7;

/// How many data sections a DOL has room for.
pub const MAX_DATA_SECTIONS: usize = 11;

/// Where the section contents start in the file.
pub const CONTENTS_START: u32 = 0x100;

/// How many bytes of the header carry a value: three words per section, then three more.
pub const HEADER_LEN: usize = 228;

/// One section of a DOL: where it is in the file, where it is loaded, and how long it is.
#[derive(Debug, Clone, Copy, PartialEq, Eq, Structural)]
pub struct DolSection {
    pub offset: u32,
    pub address: u32,
    pub size: u32,
}

/// The header of a DOL.
#[derive(Debug, Clone)]
pub struct DolHeader {
    pub text_section_count: usize,
    pub data_section_count: usize,
    pub text_sections: [DolSection; MAX_TEXT_SECTIONS],
    pub data_sections: [DolSection; MAX_DATA_SECTIONS],
    pub bss_address: u32,
    pub bss_size: u32,
    pub entry_point: u32,
}

/// The mathematical content of a [`DolHeader`].
#[verifier::ext_equal]
pub struct HeaderView {
    pub text_section_count: nat,
    pub data_section_count: nat,
    pub text_sections: Seq<DolSection>,
    pub data_sections: Seq<DolSection>,
    pub bss_address: u32,
    pub bss_size: u32,
    pub entry_point: u32,
}

impl View for DolHeader {
    type V = HeaderView;

    open spec fn view(&self) -> HeaderView {
        HeaderView {
            text_section_count: self.text_section_count as nat,
            data_section_count: self.data_section_count as nat,
            text_sections: self.text_sections@,
            data_sections: self.data_sections@,
            bss_address: self.bss_address,
            bss_size: self.bss_size,
            entry_point: self.entry_point,
        }
    }
}

/// Whether a section holds the byte at file position `p`.
pub open spec fn covers(section: DolSection, p: int) -> bool {
    section.offset <= p < section.offset + section.size
}

/// An unused slot of the section tables.
pub open spec fn unused() -> DolSection {
    DolSection { offset: 0, address: 0, size: 0 }
}

/// A section table of `slots` slots that holds `entries` and is unused behind them.
pub open spec fn table(entries: Seq<DolSection>, slots: nat) -> Seq<DolSection> {
    Seq::new(slots, |i: int| if i < entries.len() { entries[i] } else { unused() })
}

impl Default for DolSection {
    fn default() -> (section: DolSection)
        ensures
            section == unused(),
    {
        DolSection { offset: 0, address: 0, size: 0 }
    }
}

impl Default for DolHeader {
    fn default() -> (header: DolHeader)
        ensures
            header@ == (HeaderView {
                text_section_count: 0,
                data_section_count: 0,
                text_sections: table(Seq::empty(), MAX_TEXT_SECTIONS as nat),
                data_sections: table(Seq::empty(), MAX_DATA_SECTIONS as nat),
                bss_address: 0,
                bss_size: 0,
                entry_point: 0,
            }),
    {
        let header = DolHeader {
            text_section_count: 0,
            data_section_count: 0,
            text_sections: [DolSection { offset: 0, address: 0, size: 0 };7],
            data_sections: [DolSection { offset: 0, address: 0, size: 0 };11],
            bss_address: 0,
            bss_size: 0,
            entry_point: 0,
        };
        proof {
            assert(header.text_sections@ =~= table(Seq::empty(), MAX_TEXT_SECTIONS as nat));
            assert(header.data_sections@ =~= table(Seq::empty(), MAX_DATA_SECTIONS as nat));
        }
        header
    }
}

/// The smallest multiple of 32 that is not below `x`.
pub open spec fn aligned(x: int) -> int {
    (x + 31) / 32 * 32
}

/// A run of zero bytes.
pub open spec fn zeros(n: int) -> Seq<u8> {
    Seq::new(n as nat, |i: int| 0u8)
}

/// Rounds a size up to a multiple of 32.
pub fn align32(x: u32) -> (size: u32)
    requires
        x <= u32::MAX - 31,
    ensures
        size == aligned(x as int),
        size % 32 == 0,
        x <= size < x + 32,
{
    let size: u32 = (x + 31) & !31;
    let y: u32 = (x + 31) as u32;
    assert(y & !31u32 == y / 32 * 32) by (bit_vector);
    size
}

/// Whether `write_aligned` can pad contents of this length to this size: the size is not below the
/// length, and at most one block of padding is missing.
pub open spec fn paddable(len: nat, aligned_size: u32) -> bool {
    len as u32 <= aligned_size && aligned_size - len as u32 <= 32
}

/// Contents padded with zeros to `aligned_size`.
pub open spec fn padded(bytes: Seq<u8>, aligned_size: u32) -> Seq<u8> {
    bytes + zeros(aligned_size - bytes.len() as u32)
}

/// Adds section contents and the zeros that fill them up to `aligned_size`.
pub fn write_aligned(out: &mut Vec<u8>, bytes: &[u8], aligned_size: u32)
    requires
        paddable(bytes@.len(), aligned_size),
    ensures
        final(out)@ == old(out)@ + padded(bytes@, aligned_size),
{
    let ghost before = out@;
    out.extend_from_slice(bytes);
    let padding: u32 = aligned_size - bytes.len() as u32;
    let mut i: u32 = 0;
    while i < padding
        invariant
            i <= padding,
            out@ == before + bytes@ + zeros(i as int),
        decreases padding - i,
    {
        out.push(0);
        proof {
            assert(out@ =~= before + bytes@ + zeros(i + 1));
        }
        i += 1;
    }
    proof {
        assert(out@ =~= before + padded(bytes@, aligned_size));
    }
}

/// Byte `k` of a big endian word.
pub open spec fn word_byte(w: u32, k: int) -> u8 {
    if k == 0 {
        (w / 0x100_0000) as u8
    } else if k == 1 {
        (w / 0x1_0000 % 0x100) as u8
    } else if k == 2 {
        (w / 0x100 % 0x100) as u8
    } else {
        (w % 0x100) as u8
    }
}

/// Words as big endian bytes.
pub open spec fn word_bytes(words: Seq<u32>) -> Seq<u8> {
    Seq::new(4 * words.len(), |i: int| word_byte(words[i / 4], i % 4))
}

/// The value of the big endian word at byte position `at`.
pub open spec fn word_at(bytes: Seq<u8>, at: int) -> int {
    bytes[at] * 0x100_0000 + bytes[at + 1] * 0x1_0000 + bytes[at + 2] * 0x100 + bytes[at + 3]
}

/// The three columns of the section tables.
#[derive(Debug, Clone, Copy, PartialEq, Eq, Structural)]
pub enum Column {
    Offset,
    Address,
    Size,
}

/// One cell of the section tables.
pub open spec fn cell(section: DolSection, column: Column) -> u32 {
    match column {
        Column::Offset => section.offset,
        Column::Address => section.address,
        Column::Size => section.size,
    }
}

/// One column of a section table.
pub open spec fn column_words(sections: Seq<DolSection>, column: Column) -> Seq<u32> {
    Seq::new(sections.len(), |i: int| cell(sections[i], column))
}

/// The words of the header in file order: the offsets, the addresses and the sizes, each of the
/// text sections and then of the data sections, then the bss range and the entry point.
pub open spec fn header_words(h: HeaderView) -> Seq<u32> {
    column_words(h.text_sections, Column::Offset) + column_words(h.data_sections, Column::Offset)
        + column_words(h.text_sections, Column::Address) + column_words(
        h.data_sections,
        Column::Address,
    ) + column_words(h.text_sections, Column::Size) + column_words(h.data_sections, Column::Size)
        + seq![h.bss_address, h.bss_size, h.entry_point]
}

/// The bytes of the header.
pub open spec fn header_image(h: HeaderView) -> Seq<u8> {
    word_bytes(header_words(h))
}

/// The whole file: the header, and behind it the contents at their fixed start. Without contents
/// the file ends with the header.
pub open spec fn file_image(h: HeaderView, contents: Seq<u8>) -> Seq<u8> {
    if contents.len() == 0 {
        header_image(h)
    } else {
        header_image(h) + zeros(CONTENTS_START - HEADER_LEN) + contents
    }
}

/// Adds one word in big endian order.
fn push_word(out: &mut Vec<u8>, w: u32)
    ensures
        final(out)@ == old(out)@ + seq![
            word_byte(w, 0),
            word_byte(w, 1),
            word_byte(w, 2),
            word_byte(w, 3),
        ],
{
    assert((w >> 24) as u8 == (w / 0x100_0000) as u8) by (bit_vector);
    assert((w >> 16) as u8 == (w / 0x1_0000 % 0x100) as u8) by (bit_vector);
    assert((w >> 8) as u8 == (w / 0x100 % 0x100) as u8) by (bit_vector);
    assert(w as u8 == (w % 0x100) as u8) by (bit_vector);
    out.push((w >> 24) as u8);
    out.push((w >> 16) as u8);
    out.push((w >> 8) as u8);
    out.push(w as u8);
}

/// Adding one word to the bytes of others gives the bytes of all of them.
proof fn lemma_word_bytes_push(words: Seq<u32>, w: u32)
    ensures
        word_bytes(words.push(w)) == word_bytes(words) + seq![
            word_byte(w, 0),
            word_byte(w, 1),
            word_byte(w, 2),
            word_byte(w, 3),
        ],
{
    let all = word_bytes(words.push(w));
    let parts = word_bytes(words) + seq![
        word_byte(w, 0),
        word_byte(w, 1),
        word_byte(w, 2),
        word_byte(w, 3),
    ];
    assert(all.len() == parts.len());
    assert forall|i: int| 0 <= i < all.len() implies all[i] == parts[i] by {
        if i < 4 * words.len() {
            assert(i / 4 < words.len());
            assert(words.push(w)[i / 4] == words[i / 4]);
        } else {
            assert(i / 4 == words.len());
        }
    }
    assert(all =~= parts);
}

/// Adds one column of a section table.
fn push_column(out: &mut Vec<u8>, sections: &[DolSection], column: Column, Ghost(words): Ghost<Seq<u32>>)
    requires
        old(out)@ == word_bytes(words),
    ensures
        final(out)@ == word_bytes(words + column_words(sections@, column)),
{
    let mut i: usize = 0;
    let ghost all = column_words(sections@, column);
    proof {
        assert(words + all.take(0) =~= words);
    }
    while i < sections.len()
        invariant
            i <= sections@.len(),
            all == column_words(sections@, column),
            out@ == word_bytes(words + all.take(i as int)),
        decreases sections@.len() - i,
    {
        let w: u32 = match column {
            Column::Offset => sections[i].offset,
            Column::Address => sections[i].address,
            Column::Size => sections[i].size,
        };
        push_word(out, w);
        proof {
            lemma_word_bytes_push(words + all.take(i as int), w);
            assert((words + all.take(i as int)).push(w) =~= words + all.take(i + 1));
        }
        i += 1;
    }
    proof {
        assert(all.take(i as int) =~= all);
    }
}

impl DolHeader {
    /// The header as it stands at the start of the file.
    pub fn to_bytes(&self) -> (bytes: Vec<u8>)
        ensures
            bytes@ == header_image(self@),
            bytes@.len() == HEADER_LEN,
    {
        let mut out: Vec<u8> = Vec::new();
        let text = self.text_sections.as_slice();
        let data = self.data_sections.as_slice();
        let ghost mut words: Seq<u32> = Seq::empty();
        proof {
            assert(out@ =~= word_bytes(words));
        }
        push_column(&mut out, text, Column::Offset, Ghost(words));
        proof {
            words = words + column_words(text@, Column::Offset);
        }
        push_column(&mut out, data, Column::Offset, Ghost(words));
        proof {
            words = words + column_words(data@, Column::Offset);
        }
        push_column(&mut out, text, Column::Address, Ghost(words));
        proof {
            words = words + column_words(text@, Column::Address);
        }
        push_column(&mut out, data, Column::Address, Ghost(words));
        proof {
            words = words + column_words(data@, Column::Address);
        }
        push_column(&mut out, text, Column::Size, Ghost(words));
        proof {
            words = words + column_words(text@, Column::Size);
        }
        push_column(&mut out, data, Column::Size, Ghost(words));
        proof {
            words = words + column_words(data@, Column::Size);
            lemma_word_bytes_push(words, self.bss_address);
            lemma_word_bytes_push(words.push(self.bss_address), self.bss_size);
            lemma_word_bytes_push(
                words.push(self.bss_address).push(self.bss_size),
                self.entry_point,
            );
        }
        push_word(&mut out, self.bss_address);
        push_word(&mut out, self.bss_size);
        push_word(&mut out, self.entry_point);
        proof {
            assert(words.push(self.bss_address).push(self.bss_size).push(self.entry_point)
                =~= header_words(self@));
        }
        out
    }
}

/// Puts a DOL file together from its header and the contents of its sections.
pub fn dol_file(header: &DolHeader, contents: &[u8]) -> (bytes: Vec<u8>)
    ensures
        bytes@ == file_image(header@, contents@),
{
    let mut out = header.to_bytes();
    if contents.len() > 0 {
        let mut i: u32 = 0;
        let gap: u32 = CONTENTS_START - HEADER_LEN as u32;
        while i < gap
            invariant
                i <= gap,
                gap == CONTENTS_START - HEADER_LEN,
                out@ == header_image(header@) + zeros(i as int),
            decreases gap - i,
        {
            out.push(0);
            proof {
                assert(out@ =~= header_image(header@) + zeros(i + 1));
            }
            i += 1;
        }
        out.extend_from_slice(contents);
    }
    proof {
        assert(out@ =~= file_image(header@, contents@));
    }
    out
}

/// The length of a header is fixed.
pub proof fn law_header_len(h: HeaderView)
    requires
        h.text_sections.len() == MAX_TEXT_SECTIONS,
        h.data_sections.len() == MAX_DATA_SECTIONS,
    ensures
        header_image(h).len() == HEADER_LEN,
{
}

/// A word that was written in big endian order reads back as itself.
proof fn lemma_word_reads_back(words: Seq<u32>, k: int)
    requires
        0 <= k < words.len(),
    ensures
        word_at(word_bytes(words), 4 * k) == words[k],
{
    let w = words[k];
    let b = word_bytes(words);
    assert(b[4 * k] == word_byte(w, 0));
    assert(b[4 * k + 1] == word_byte(w, 1));
    assert(b[4 * k + 2] == word_byte(w, 2));
    assert(b[4 * k + 3] == word_byte(w, 3));
    assert(w / 0x100_0000 < 0x100);
    let x = w as int;
    assert(x == x / 0x100_0000 * 0x100_0000 + x / 0x1_0000 % 0x100 * 0x1_0000 + x / 0x100 % 0x100
        * 0x100 + x % 0x100);
}

/// What a header says is read back from the file: of section `k` of either table the offset, the
/// address and the size, each in its own table of the file, and the last three words.
pub proof fn law_header_reads_back(h: HeaderView, k: int)
    requires
        h.text_sections.len() == MAX_TEXT_SECTIONS,
        h.data_sections.len() == MAX_DATA_SECTIONS,
    ensures
        0 <= k < 7 ==> {
            &&& word_at(header_image(h), 4 * k) == h.text_sections[k].offset
            &&& word_at(header_image(h), 0x48 + 4 * k) == h.text_sections[k].address
            &&& word_at(header_image(h), 0x90 + 4 * k) == h.text_sections[k].size
        },
        0 <= k < 11 ==> {
            &&& word_at(header_image(h), 0x1c + 4 * k) == h.data_sections[k].offset
            &&& word_at(header_image(h), 0x64 + 4 * k) == h.data_sections[k].address
            &&& word_at(header_image(h), 0xac + 4 * k) == h.data_sections[k].size
        },
        word_at(header_image(h), 0xd8) == h.bss_address,
        word_at(header_image(h), 0xdc) == h.bss_size,
        word_at(header_image(h), 0xe0) == h.entry_point,
{
    let w = header_words(h);
    if 0 <= k < 7 {
        lemma_word_reads_back(w, k);
        lemma_word_reads_back(w, 18 + k);
        lemma_word_reads_back(w, 36 + k);
    }
    if 0 <= k < 11 {
        lemma_word_reads_back(w, 7 + k);
        lemma_word_reads_back(w, 25 + k);
        lemma_word_reads_back(w, 43 + k);
    }
    lemma_word_reads_back(w, 54);
    lemma_word_reads_back(w, 55);
    lemma_word_reads_back(w, 56);
}

/// Rounding up gives a multiple of 32, moves by less than 32, and leaves multiples of 32 alone.
pub proof fn law_aligned(x: int)
    requires
        x >= 0,
    ensures
        aligned(x) % 32 == 0,
        x <= aligned(x) < x + 32,
        aligned(aligned(x)) == aligned(x),
        x % 32 == 0 ==> aligned(x) == x,
{
}

/// Whether a value of the header belongs at byte position `at`: the offsets of the text and of the
/// data sections come first, then their addresses, then their sizes, then the bss range and the
/// entry point.
pub open spec fn belongs_at(h: HeaderView, at: int, word: u32) -> bool {
    ||| exists|k: int|
        #![trigger h.text_sections[k]]
        0 <= k < 7 && (at == 4 * k && word == h.text_sections[k].offset || at == 0x48 + 4 * k
            && word == h.text_sections[k].address || at == 0x90 + 4 * k && word
            == h.text_sections[k].size)
    ||| exists|k: int|
        #![trigger h.data_sections[k]]
        0 <= k < 11 && (at == 0x1c + 4 * k && word == h.data_sections[k].offset || at == 0x64 + 4
            * k && word == h.data_sections[k].address || at == 0xac + 4 * k && word
            == h.data_sections[k].size)
    ||| at == 0xd8 && word == h.bss_address
    ||| at == 0xdc && word == h.bss_size
    ||| at == 0xe0 && word == h.entry_point
}

/// The values of the header stand at their places, as big endian words.
pub proof fn law_header_bytes(h: HeaderView, at: int, word: u32)
    requires
        h.text_sections.len() == 7,
        h.data_sections.len() == 11,
        belongs_at(h, at, word),
    ensures
        header_image(h).len() == 228,
        header_image(h)[at] == word / 0x100_0000,
        header_image(h)[at + 1] == word / 0x1_0000 % 0x100,
        header_image(h)[at + 2] == word / 0x100 % 0x100,
        header_image(h)[at + 3] == word % 0x100,
{
    let w = header_words(h);
    assert(w.len() == 57);
    assert(at % 4 == 0 && 0 <= at < 228 && w[at / 4] == word);
    assert(word / 0x100_0000 < 0x100);
    let b = header_image(h);
    assert(b[at] == word_byte(w[at / 4], 0));
    assert(b[at + 1] == word_byte(w[at / 4], 1));
    assert(b[at + 2] == word_byte(w[at / 4], 2));
    assert(b[at + 3] == word_byte(w[at / 4], 3));
}

/// A file begins with its header. If there are contents, zeros follow up to 0x100, and the contents
/// stand there.
pub proof fn law_file_layout(h: HeaderView, contents: Seq<u8>, i: int)
    requires
        h.text_sections.len() == 7,
        h.data_sections.len() == 11,
    ensures
        contents.len() == 0 ==> file_image(h, contents).len() == 228,
        contents.len() > 0 ==> file_image(h, contents).len() == 0x100 + contents.len(),
        0 <= i < 228 ==> file_image(h, contents)[i] == header_image(h)[i],
        contents.len() > 0 && 228 <= i < 0x100 ==> file_image(h, contents)[i] == 0,
        0 <= i < contents.len() ==> file_image(h, contents)[0x100 + i] == contents[i],
{
    law_header_len(h);
}

/// Contents that are padded to a size have that size: the contents come first, then zeros.
pub proof fn law_padding(bytes: Seq<u8>, size: u32, i: int)
    requires
        bytes.len() <= size,
    ensures
        padded(bytes, size).len() == size,
        0 <= i < bytes.len() ==> padded(bytes, size)[i] == bytes[i],
        bytes.len() <= i < size ==> padded(bytes, size)[i] == 0,
        paddable(bytes.len(), size) <==> size - bytes.len() <= 32,
{
}

} // verus!
