//! Post-link patching of `.ctors`.
//!
//! The linker collects `.ctors` in link order and takes no other order for it, so a built DOL can
//! hold the constructor pointers in another order than the original one. Patching copies each data
//! section that looks like `.ctors` from the original DOL into the built one.
use vstd::prelude::*;
use crate::dol;
use crate::dol::{DolHeader, DolSection};

verus! {

/// Whether a word is a pointer into main memory, or zero (padding, a sentinel).
pub open spec fn pointer_or_zero(w: int) -> bool {
    w == 0 || 0x8000_0000 <= w < 0x8180_0000
}

/// Whether a section of a DOL looks like `.ctors`: each of its whole words is a pointer or zero.
pub open spec fn looks_like_ctors(dol: Seq<u8>, section: DolSection) -> bool {
    forall|k: int|
        0 <= k && 4 * k + 4 <= section.size ==> pointer_or_zero(
            #[trigger] dol::word_at(dol, section.offset + 4 * k),
        )
}

/// Whether a data section is one that patching is about: it is in use, lies inside both files, and
/// looks like `.ctors` in the original.
pub open spec fn patchable(orig: Seq<u8>, built_len: nat, section: DolSection) -> bool {
    &&& section.offset != 0
    &&& section.size != 0
    &&& section.offset + section.size <= orig.len()
    &&& section.offset + section.size <= built_len
    &&& looks_like_ctors(orig, section)
}

/// Whether one of the first `n` sections is patchable and holds the byte at position `p`.
pub open spec fn patch_reaches(
    orig: Seq<u8>,
    built_len: nat,
    sections: Seq<DolSection>,
    n: int,
    p: int,
) -> bool {
    exists|i: int|
        0 <= i < n && #[trigger] patchable(orig, built_len, sections[i]) && dol::covers(sections[i], p)
}

/// A built DOL once its first `n` data sections are dealt with: the bytes of the patchable ones are
/// those of the original, all others are as they were.
pub open spec fn patched(
    orig: Seq<u8>,
    built: Seq<u8>,
    sections: Seq<DolSection>,
    n: int,
) -> Seq<u8> {
    Seq::new(
        built.len(),
        |p: int|
            if patch_reaches(orig, built.len(), sections, n, p) {
                orig[p]
            } else {
                built[p]
            },
    )
}

/// The contents of a section.
pub open spec fn contents(dol: Seq<u8>, section: DolSection) -> Seq<u8> {
    dol.subrange(section.offset as int, section.offset + section.size)
}

/// Whether section `i` is written when its turn comes: it is patchable and still differs.
pub open spec fn written(
    orig: Seq<u8>,
    built: Seq<u8>,
    sections: Seq<DolSection>,
    i: int,
) -> bool {
    &&& patchable(orig, built.len(), sections[i])
    &&& contents(patched(orig, built, sections, i), sections[i]) != contents(orig, sections[i])
}

/// Which of the first `n` data sections are written, in order.
pub open spec fn written_sections(
    orig: Seq<u8>,
    built: Seq<u8>,
    sections: Seq<DolSection>,
    n: int,
) -> Seq<usize>
    decreases n,
{
    if n <= 0 {
        Seq::empty()
    } else {
        let before = written_sections(orig, built, sections, n - 1);
        if written(orig, built, sections, n - 1) {
            before.push((n - 1) as usize)
        } else {
            before
        }
    }
}

/// Whether every whole word of a section is a pointer into main memory or zero.
fn check_pointers(dol: &[u8], offset: usize, size: usize, Ghost(section): Ghost<DolSection>) -> (found: bool)
    requires
        offset == section.offset,
        size == section.size,
        offset + size <= dol@.len(),
    ensures
        found == looks_like_ctors(dol@, section),
{
    let mut at: usize = 0;
    while size - at >= 4
        invariant
            at <= size,
            at % 4 == 0,
            offset == section.offset,
            size == section.size,
            offset + size <= dol.len(),
            forall|k: int|
                0 <= k && 4 * k + 4 <= at ==> pointer_or_zero(
                    #[trigger] dol::word_at(dol@, section.offset + 4 * k),
                ),
        decreases size - at,
    {
        let p: usize = offset + at;
        let value: u32 = dol[p] as u32 * 0x100_0000 + dol[p + 1] as u32 * 0x1_0000 + dol[p + 2] as u32
            * 0x100 + dol[p + 3] as u32;
        assert(value == dol::word_at(dol@, section.offset + 4 * (at / 4) as int));
        if value != 0 && (value < 0x8000_0000 || value >= 0x8180_0000) {
            return false;
        }
        at += 4;
    }
    true
}

/// Whether two files hold the same bytes from `start` up to `end`.
fn same_bytes(a: &[u8], b: &Vec<u8>, start: usize, end: usize) -> (same: bool)
    requires
        start <= end <= a@.len(),
        end <= b@.len(),
    ensures
        same == (a@.subrange(start as int, end as int) == b@.subrange(start as int, end as int)),
{
    let mut p: usize = start;
    while p < end
        invariant
            start <= p <= end <= a@.len(),
            end <= b@.len(),
            forall|q: int| start <= q < p ==> a@[q] == b@[q],
        decreases end - p,
    {
        if a[p] != b[p] {
            proof {
                let k = p - start;
                assert(a@.subrange(start as int, end as int)[k] != b@.subrange(
                    start as int,
                    end as int,
                )[k]);
            }
            return false;
        }
        p += 1;
    }
    assert(a@.subrange(start as int, end as int) =~= b@.subrange(start as int, end as int));
    true
}

/// Copies the bytes from `start` up to `end` from one file into another.
fn copy_bytes(from: &[u8], to: &mut Vec<u8>, start: usize, end: usize)
    requires
        start <= end <= from@.len(),
        end <= old(to)@.len(),
    ensures
        final(to)@ == Seq::new(
            old(to)@.len(),
            |p: int|
                if start <= p < end {
                    from@[p]
                } else {
                    old(to)@[p]
                },
        ),
{
    let ghost before = to@;
    let mut p: usize = start;
    while p < end
        invariant
            start <= p <= end <= from@.len(),
            to@.len() == before.len(),
            end <= to@.len(),
            forall|q: int| start <= q < p ==> to@[q] == from@[q],
            forall|q: int| 0 <= q < start ==> to@[q] == before[q],
            forall|q: int| p <= q < to@.len() ==> to@[q] == before[q],
        decreases end - p,
    {
        to[p] = from[p];
        p += 1;
    }
}

/// Patches the `.ctors` sections of a built DOL to match the original DOL.
///
/// Goes through the data sections of `header` in order. A section that lies inside both files and
/// looks like `.ctors` in the original is copied from there where it differs. Returns the indices
/// of the sections that were written.
pub fn patch_ctors_section(orig: &[u8], built: &mut Vec<u8>, header: &DolHeader) -> (patched_sections:
    Vec<usize>)
    ensures
        final(built)@ == patched(orig@, old(built)@, header@.data_sections, 11),
        patched_sections@ == written_sections(orig@, old(built)@, header@.data_sections, 11),
{
    let ghost before = built@;
    let ghost sections = header@.data_sections;
    let mut done: Vec<usize> = Vec::new();
    let mut i: usize = 0;
    proof {
        assert(patched(orig@, before, sections, 0) =~= before);
    }
    while i < 11
        invariant
            i <= 11,
            sections == header@.data_sections,
            built@ == patched(orig@, before, sections, i as int),
            done@ == written_sections(orig@, before, sections, i as int),
        decreases 11 - i,
    {
        let section = header.data_sections[i];
        let end: u64 = section.offset as u64 + section.size as u64;
        let ghost now = built@;
        if section.offset != 0 && section.size != 0 && end <= orig.len() as u64 && end
            <= built.len() as u64 {
            let start: usize = section.offset as usize;
            let stop: usize = end as usize;
            if check_pointers(orig, start, section.size as usize, Ghost(section)) {
                assert(patchable(orig@, before.len(), sections[i as int]));
                if !same_bytes(orig, built, start, stop) {
                    copy_bytes(orig, built, start, stop);
                    done.push(i);
                } else {
                    proof {
                        assert forall|p: int| start <= p < stop implies now[p] == orig@[p] by {
                            assert(contents(now, section)[p - start] == contents(orig@, section)[p
                                - start]);
                        }
                    }
                }
                proof {
                    lemma_patch_step(orig@, before, sections, i as int, built@);
                }
            }
        }
        proof {
            if !patchable(orig@, before.len(), sections[i as int]) {
                assert(built@ =~= patched(orig@, before, sections, i + 1)) by {
                    assert forall|p: int| 0 <= p < before.len() implies built@[p] == patched(
                        orig@,
                        before,
                        sections,
                        i + 1,
                    )[p] by {
                        lemma_reaches_step(orig@, before.len(), sections, i as int, p);
                    }
                }
            }
        }
        i += 1;
    }
    done
}

/// The first `i + 1` sections reach a byte if the first `i` do, or the next one does.
proof fn lemma_reaches_step(
    orig: Seq<u8>,
    built_len: nat,
    sections: Seq<DolSection>,
    i: int,
    p: int,
)
    requires
        0 <= i,
    ensures
        patch_reaches(orig, built_len, sections, i + 1, p) <==> patch_reaches(
            orig,
            built_len,
            sections,
            i,
            p,
        ) || (patchable(orig, built_len, sections[i]) && dol::covers(sections[i], p)),
{
    if patch_reaches(orig, built_len, sections, i + 1, p) {
        let k = choose|k: int|
            0 <= k < i + 1 && #[trigger] patchable(orig, built_len, sections[k]) && dol::covers(
                sections[k],
                p,
            );
        if k < i {
            assert(patch_reaches(orig, built_len, sections, i, p));
        }
    }
    if patch_reaches(orig, built_len, sections, i, p) {
        let k = choose|k: int|
            0 <= k < i && #[trigger] patchable(orig, built_len, sections[k]) && dol::covers(
                sections[k],
                p,
            );
        assert(patchable(orig, built_len, sections[k]));
    }
}

/// Whether a patchable section was copied or already matched, its turn ends in the same bytes.
proof fn lemma_patch_step(
    orig: Seq<u8>,
    before: Seq<u8>,
    sections: Seq<DolSection>,
    i: int,
    after: Seq<u8>,
)
    requires
        0 <= i,
        patchable(orig, before.len(), sections[i]),
        after.len() == before.len(),
        forall|p: int|
            0 <= p < before.len() ==> #[trigger] after[p] == if dol::covers(sections[i], p) {
                orig[p]
            } else {
                patched(orig, before, sections, i)[p]
            },
    ensures
        after == patched(orig, before, sections, i + 1),
{
    assert forall|p: int| 0 <= p < before.len() implies after[p] == patched(
        orig,
        before,
        sections,
        i + 1,
    )[p] by {
        lemma_reaches_step(orig, before.len(), sections, i, p);
    }
    assert(after =~= patched(orig, before, sections, i + 1));
}

/// After patching, every patchable section is what it is in the original.
pub proof fn law_patch_matches_original(
    orig: Seq<u8>,
    built: Seq<u8>,
    sections: Seq<DolSection>,
    n: int,
    i: int,
)
    requires
        0 <= i < n,
        patchable(orig, built.len(), sections[i]),
    ensures
        contents(patched(orig, built, sections, n), sections[i]) == contents(orig, sections[i]),
{
    let s = sections[i];
    let after = patched(orig, built, sections, n);
    assert forall|k: int| 0 <= k < s.size implies #[trigger] contents(after, s)[k] == contents(
        orig,
        s,
    )[k] by {
        assert(dol::covers(s, s.offset + k));
        assert(patch_reaches(orig, built.len(), sections, n, s.offset + k));
    }
    assert(contents(after, s) =~= contents(orig, s));
}

/// Patching keeps the length of the file and every byte that no data section holds, or that only
/// sections hold which patching is not about.
pub proof fn law_patch_keeps_the_rest(
    orig: Seq<u8>,
    built: Seq<u8>,
    sections: Seq<DolSection>,
    n: int,
    p: int,
)
    requires
        0 <= p < built.len(),
        forall|i: int|
            0 <= i < n && #[trigger] dol::covers(sections[i], p) ==> !patchable(
                orig,
                built.len(),
                sections[i],
            ),
    ensures
        patched(orig, built, sections, n).len() == built.len(),
        patched(orig, built, sections, n)[p] == built[p],
{
    if patch_reaches(orig, built.len(), sections, n, p) {
        let i = choose|i: int|
            0 <= i < n && #[trigger] patchable(orig, built.len(), sections[i]) && dol::covers(
                sections[i],
                p,
            );
        assert(dol::covers(sections[i], p));
    }
}

/// No section is written exactly when patching leaves the whole file as it was: files that already
/// match are not touched, and no change goes unreported.
pub proof fn law_unwritten_means_unchanged(
    orig: Seq<u8>,
    built: Seq<u8>,
    sections: Seq<DolSection>,
    n: int,
)
    requires
        0 <= n,
    ensures
        written_sections(orig, built, sections, n).len() == 0 <==> patched(orig, built, sections, n)
            == built,
    decreases n,
{
    let after = patched(orig, built, sections, n);
    if n == 0 {
        assert(after =~= built);
    } else {
        law_unwritten_means_unchanged(orig, built, sections, n - 1);
        let i = n - 1;
        let s = sections[i];
        let mid = patched(orig, built, sections, i);
        if written(orig, built, sections, i) {
            assert(!(contents(mid, s) =~= contents(orig, s)));
            let k = choose|k: int| 0 <= k < s.size && contents(mid, s)[k] != contents(orig, s)[k];
            let p = s.offset + k;
            assert(mid[p] != orig[p]);
            assert(patchable(orig, built.len(), sections[i]) && dol::covers(s, p));
            assert(patch_reaches(orig, built.len(), sections, n, p));
            assert(after[p] == orig[p]);
            assert(mid[p] == built[p]);
        } else {
            assert forall|p: int| 0 <= p < built.len() implies after[p] == mid[p] by {
                lemma_reaches_step(orig, built.len(), sections, i, p);
                if patchable(orig, built.len(), s) && dol::covers(s, p) {
                    assert(contents(mid, s)[p - s.offset] == contents(orig, s)[p - s.offset]);
                }
            }
            assert(after =~= mid);
        }
        if after == built && mid != built {
            assert(!(mid =~= built));
            let p = choose|p: int| 0 <= p < built.len() && mid[p] != built[p];
            lemma_reaches_step(orig, built.len(), sections, i, p);
            assert(after[p] == orig[p] && mid[p] == orig[p]);
        }
    }
}

/// Patching gives the original file, byte for byte, just where the files are equally long and all
/// differences lie in sections that patching is about.
pub proof fn law_patch_completes_the_match(
    orig: Seq<u8>,
    built: Seq<u8>,
    sections: Seq<DolSection>,
    n: int,
)
    ensures
        patched(orig, built, sections, n) == orig <==> {
            &&& built.len() == orig.len()
            &&& forall|p: int|
                0 <= p < built.len() && #[trigger] built[p] != orig[p] ==> patch_reaches(
                    orig,
                    built.len(),
                    sections,
                    n,
                    p,
                )
        },
{
    let after = patched(orig, built, sections, n);
    if after == orig {
        assert forall|p: int|
            0 <= p < built.len() && #[trigger] built[p] != orig[p] implies patch_reaches(
            orig,
            built.len(),
            sections,
            n,
            p,
        ) by {
            assert(after[p] == orig[p]);
        }
    }
    if built.len() == orig.len() && (forall|p: int|
        0 <= p < built.len() && #[trigger] built[p] != orig[p] ==> patch_reaches(
            orig,
            built.len(),
            sections,
            n,
            p,
        )) {
        assert(after =~= orig);
    }
}

/// Patching twice is patching once, and the second time no section is written.
pub proof fn law_patch_idempotent(
    orig: Seq<u8>,
    built: Seq<u8>,
    sections: Seq<DolSection>,
    n: int,
)
    requires
        0 <= n,
    ensures
        patched(orig, patched(orig, built, sections, n), sections, n) == patched(
            orig,
            built,
            sections,
            n,
        ),
        written_sections(orig, patched(orig, built, sections, n), sections, n).len() == 0,
{
    let once = patched(orig, built, sections, n);
    assert(patched(orig, once, sections, n) =~= once);
    law_unwritten_means_unchanged(orig, once, sections, n);
}

/// A data section in use that ends inside both files, and in which the original holds nothing but
/// zeros and pointers into main memory, is the original's after patching, whatever its size is.
pub proof fn law_pointer_section_is_copied(
    orig: Seq<u8>,
    built: Seq<u8>,
    sections: Seq<DolSection>,
    i: int,
    p: int,
)
    requires
        0 <= i < 11,
        sections[i].offset != 0,
        sections[i].size != 0,
        sections[i].offset + sections[i].size <= orig.len(),
        sections[i].offset + sections[i].size <= built.len(),
        forall|q: int|
            #![trigger orig[q]]
            sections[i].offset <= q && q + 4 <= sections[i].offset + sections[i].size && (q
                - sections[i].offset) % 4 == 0 ==> {
                let w = orig[q] * 0x100_0000 + orig[q + 1] * 0x1_0000 + orig[q + 2] * 0x100
                    + orig[q + 3];
                w == 0 || 0x8000_0000 <= w < 0x8180_0000
            },
        sections[i].offset <= p < sections[i].offset + sections[i].size,
    ensures
        patched(orig, built, sections, 11).len() == built.len(),
        patched(orig, built, sections, 11)[p] == orig[p],
{
    let s = sections[i];
    assert forall|k: int| 0 <= k && 4 * k + 4 <= s.size implies pointer_or_zero(
        #[trigger] dol::word_at(orig, s.offset + 4 * k),
    ) by {
        let q = s.offset + 4 * k;
        assert((q - s.offset) % 4 == 0);
        assert(orig[q] == orig[s.offset + 4 * k]);
    }
    assert(patchable(orig, built.len(), s));
    assert(dol::covers(s, p));
    assert(patch_reaches(orig, built.len(), sections, 11, p));
}

/// A byte stays as it is unless a data section holds it that is in use, ends inside both files, and
/// holds nothing but zeros and pointers into main memory in the original.
pub proof fn law_other_bytes_stay(
    orig: Seq<u8>,
    built: Seq<u8>,
    sections: Seq<DolSection>,
    p: int,
)
    requires
        0 <= p < built.len(),
        forall|i: int|
            #![trigger sections[i]]
            0 <= i < 11 && sections[i].offset <= p < sections[i].offset + sections[i].size ==> {
                ||| sections[i].offset == 0
                ||| sections[i].offset + sections[i].size > orig.len()
                ||| sections[i].offset + sections[i].size > built.len()
                ||| exists|q: int|
                    #![trigger orig[q]]
                    sections[i].offset <= q && q + 4 <= sections[i].offset + sections[i].size && (q
                        - sections[i].offset) % 4 == 0 && {
                        let w = orig[q] * 0x100_0000 + orig[q + 1] * 0x1_0000 + orig[q + 2] * 0x100
                            + orig[q + 3];
                        w != 0 && (w < 0x8000_0000 || w >= 0x8180_0000)
                    }
            },
    ensures
        patched(orig, built, sections, 11)[p] == built[p],
{
    if patch_reaches(orig, built.len(), sections, 11, p) {
        let i = choose|i: int|
            0 <= i < 11 && #[trigger] patchable(orig, built.len(), sections[i]) && dol::covers(
                sections[i],
                p,
            );
        let s = sections[i];
        let q = choose|q: int|
            #![trigger orig[q]]
            s.offset <= q && q + 4 <= s.offset + s.size && (q - s.offset) % 4 == 0 && {
                let w = orig[q] * 0x100_0000 + orig[q + 1] * 0x1_0000 + orig[q + 2] * 0x100 + orig[q
                    + 3];
                w != 0 && (w < 0x8000_0000 || w >= 0x8180_0000)
            };
        let k = (q - s.offset) / 4;
        assert(s.offset + 4 * k == q);
        assert(pointer_or_zero(dol::word_at(orig, s.offset + 4 * k)));
    }
}

/// The sections that are written are those, of the first `n`, that are written when their turn
/// comes, in ascending order.
proof fn lemma_written_sections(
    orig: Seq<u8>,
    built: Seq<u8>,
    sections: Seq<DolSection>,
    n: int,
    i: int,
)
    requires
        0 <= n <= 11,
        0 <= i <= 11,
    ensures
        written_sections(orig, built, sections, n).contains(i as usize) <==> i < n && written(
            orig,
            built,
            sections,
            i,
        ),
        forall|a: int|
            0 <= a < written_sections(orig, built, sections, n).len() ==> (
            #[trigger] written_sections(orig, built, sections, n)[a]) < n,
        forall|a: int, b: int|
            0 <= a < b < written_sections(orig, built, sections, n).len() ==> (
            #[trigger] written_sections(orig, built, sections, n)[a]) < (
            #[trigger] written_sections(orig, built, sections, n)[b]),
    decreases n,
{
    let list = written_sections(orig, built, sections, n);
    if n > 0 {
        lemma_written_sections(orig, built, sections, n - 1, i);
        let before = written_sections(orig, built, sections, n - 1);
        if list.contains(i as usize) {
            let k = choose|k: int| 0 <= k < list.len() && list[k] == i as usize;
            if k < before.len() {
                assert(before[k] == i as usize);
            }
        }
        if i < n && written(orig, built, sections, i) {
            if i == n - 1 {
                assert(list[before.len() as int] == i as usize);
            } else {
                let k = choose|k: int| 0 <= k < before.len() && before[k] == i as usize;
                assert(list[k] == i as usize);
            }
        }
    }
}

/// A data section that no earlier one overlaps is reported exactly if it is in use, ends inside
/// both files, holds nothing but zeros and pointers into main memory in the original, and differs
/// between the files. Sections are reported in ascending order, each one once.
pub proof fn law_reported_sections(
    orig: Seq<u8>,
    built: Seq<u8>,
    sections: Seq<DolSection>,
    i: int,
)
    requires
        0 <= i < 11,
        forall|j: int, p: int|
            #![trigger dol::covers(sections[j], p)]
            0 <= j < i && sections[j].offset <= p < sections[j].offset + sections[j].size ==> !(
            sections[i].offset <= p < sections[i].offset + sections[i].size),
    ensures
        written_sections(orig, built, sections, 11).contains(i as usize) <==> {
            &&& sections[i].offset != 0
            &&& sections[i].size != 0
            &&& sections[i].offset + sections[i].size <= orig.len()
            &&& sections[i].offset + sections[i].size <= built.len()
            &&& forall|q: int|
                #![trigger orig[q]]
                sections[i].offset <= q && q + 4 <= sections[i].offset + sections[i].size && (q
                    - sections[i].offset) % 4 == 0 ==> {
                    let w = orig[q] * 0x100_0000 + orig[q + 1] * 0x1_0000 + orig[q + 2] * 0x100
                        + orig[q + 3];
                    w == 0 || 0x8000_0000 <= w < 0x8180_0000
                }
            &&& exists|p: int|
                #![trigger orig[p]]
                sections[i].offset <= p < sections[i].offset + sections[i].size && orig[p]
                    != built[p]
        },
        forall|a: int, b: int|
            0 <= a < b < written_sections(orig, built, sections, 11).len() ==> (
            #[trigger] written_sections(orig, built, sections, 11)[a]) < (
            #[trigger] written_sections(orig, built, sections, 11)[b]),
{
    let s = sections[i];
    lemma_written_sections(orig, built, sections, 11, i);
    let now = patched(orig, built, sections, i);
    let pointers = forall|q: int|
        #![trigger orig[q]]
        s.offset <= q && q + 4 <= s.offset + s.size && (q - s.offset) % 4 == 0 ==> {
            let w = orig[q] * 0x100_0000 + orig[q + 1] * 0x1_0000 + orig[q + 2] * 0x100 + orig[q
                + 3];
            w == 0 || 0x8000_0000 <= w < 0x8180_0000
        };
    assert(looks_like_ctors(orig, s) == pointers) by {
        if pointers {
            assert forall|k: int| 0 <= k && 4 * k + 4 <= s.size implies pointer_or_zero(
                #[trigger] dol::word_at(orig, s.offset + 4 * k),
            ) by {
                let q = s.offset + 4 * k;
                assert((q - s.offset) % 4 == 0);
                assert(orig[q] == orig[s.offset + 4 * k]);
            }
        }
        if looks_like_ctors(orig, s) {
            assert forall|q: int|
                #![trigger orig[q]]
                s.offset <= q && q + 4 <= s.offset + s.size && (q - s.offset) % 4 == 0 implies {
                let w = orig[q] * 0x100_0000 + orig[q + 1] * 0x1_0000 + orig[q + 2] * 0x100 + orig[q
                    + 3];
                w == 0 || 0x8000_0000 <= w < 0x8180_0000
            } by {
                let k = (q - s.offset) / 4;
                assert(s.offset + 4 * k == q);
                assert(pointer_or_zero(dol::word_at(orig, s.offset + 4 * k)));
            }
        }
    }
    if patchable(orig, built.len(), s) {
        assert forall|p: int| s.offset <= p < s.offset + s.size implies now[p] == built[p] by {
            if patch_reaches(orig, built.len(), sections, i, p) {
                let j = choose|j: int|
                    0 <= j < i && #[trigger] patchable(orig, built.len(), sections[j])
                        && dol::covers(sections[j], p);
                assert(dol::covers(sections[j], p));
            }
        }
        if contents(now, s) != contents(orig, s) {
            assert(!(contents(now, s) =~= contents(orig, s)));
            let k = choose|k: int|
                0 <= k < s.size && #[trigger] contents(now, s)[k] != contents(orig, s)[k];
            let p = s.offset + k;
            assert(orig[p] != built[p]);
        }
        if exists|p: int|
            #![trigger orig[p]]
            s.offset <= p < s.offset + s.size && orig[p] != built[p] {
            let p = choose|p: int|
                #![trigger orig[p]]
                s.offset <= p < s.offset + s.size && orig[p] != built[p];
            assert(contents(now, s)[p - s.offset] != contents(orig, s)[p - s.offset]);
        }
    }
}

} // verus!
