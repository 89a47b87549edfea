//! Bringing units into address order, each one once.
use vstd::prelude::*;
use crate::text;

verus! {

/// A unit at an address.
#[derive(Debug)]
pub struct PlacedUnit {
    pub name: String,
    pub address: u64,
}

/// The mathematical content of a [`PlacedUnit`].
#[verifier::ext_equal]
pub struct PlacedView {
    pub name: Seq<char>,
    pub address: u64,
}

impl View for PlacedUnit {
    type V = PlacedView;

    open spec fn view(&self) -> PlacedView {
        PlacedView { name: self.name@, address: self.address }
    }
}

/// The contents of each placed unit of a list.
pub open spec fn placed_views(list: Seq<PlacedUnit>) -> Seq<PlacedView> {
    Seq::new(list.len(), |i: int| list[i]@)
}

/// A list with one more unit, put in behind all units at the end of the list up to its address.
pub open spec fn inserted(list: Seq<PlacedView>, unit: PlacedView) -> Seq<PlacedView>
    decreases list.len(),
{
    if list.len() == 0 || list.last().address <= unit.address {
        list.push(unit)
    } else {
        inserted(list.drop_last(), unit).push(list.last())
    }
}

/// The units by address; units at one address stay in the order that they have.
pub open spec fn by_address(list: Seq<PlacedView>) -> Seq<PlacedView>
    decreases list.len(),
{
    if list.len() == 0 {
        Seq::empty()
    } else {
        inserted(by_address(list.drop_last()), list.last())
    }
}

/// The names of placed units.
pub open spec fn names(list: Seq<PlacedView>) -> Seq<Seq<char>> {
    Seq::new(list.len(), |i: int| list[i].name)
}

/// Each name once, where it comes first.
pub open spec fn first_occurrences(list: Seq<Seq<char>>) -> Seq<Seq<char>>
    decreases list.len(),
{
    if list.len() == 0 {
        Seq::empty()
    } else {
        let before = first_occurrences(list.drop_last());
        if before.contains(list.last()) {
            before
        } else {
            before.push(list.last())
        }
    }
}

/// The units that stand at an address, in their order.
pub open spec fn at_address(list: Seq<PlacedView>, address: u64) -> Seq<PlacedView>
    decreases list.len(),
{
    if list.len() == 0 {
        Seq::empty()
    } else if list.last().address == address {
        at_address(list.drop_last(), address).push(list.last())
    } else {
        at_address(list.drop_last(), address)
    }
}

/// Whether the addresses of a list never go down.
pub open spec fn ascending(list: Seq<PlacedView>) -> bool {
    forall|i: int, j: int|
        0 <= i <= j < list.len() ==> (#[trigger] list[i]).address <= (#[trigger] list[j]).address
}

/// Puts a unit into a list in its place by address.
fn insert(list: &mut Vec<PlacedUnit>, unit: PlacedUnit)
    ensures
        placed_views(final(list)@) == inserted(placed_views(old(list)@), unit@),
{
    let ghost before = placed_views(list@);
    let mut at: usize = list.len();
    assert(before.take(at as int) =~= before);
    assert(inserted(before, unit@) =~= inserted(before.take(at as int), unit@) + before.skip(
        at as int,
    ));
    while at > 0 && list[at - 1].address > unit.address
        invariant
            at <= list@.len(),
            before == placed_views(list@),
            inserted(before, unit@) == inserted(before.take(at as int), unit@) + before.skip(
                at as int,
            ),
        decreases at,
    {
        proof {
            let head = before.take(at as int);
            assert(head.last() == before[at - 1]);
            assert(head.drop_last() =~= before.take(at - 1));
            assert(inserted(head, unit@) + before.skip(at as int) =~= inserted(
                before.take(at - 1),
                unit@,
            ) + before.skip(at - 1));
        }
        at -= 1;
    }
    let ghost placed = unit@;
    list.insert(at, unit);
    proof {
        let head = before.take(at as int);
        if at > 0 {
            assert(head.last() == before[at - 1]);
        }
        assert(inserted(head, placed) == head.push(placed));
        assert(placed_views(list@) =~= head.push(placed) + before.skip(at as int));
    }
}

/// Brings units into address order; units at one address keep their order.
pub fn sort_by_address(units: Vec<PlacedUnit>) -> (sorted: Vec<PlacedUnit>)
    ensures
        placed_views(sorted@) == by_address(placed_views(units@)),
{
    let mut sorted: Vec<PlacedUnit> = Vec::new();
    let mut i: usize = 0;
    let ghost all = placed_views(units@);
    assert(all.take(0) =~= Seq::empty());
    assert(placed_views(sorted@) =~= Seq::empty());
    while i < units.len()
        invariant
            i <= units@.len(),
            all == placed_views(units@),
            placed_views(sorted@) == by_address(all.take(i as int)),
        decreases units@.len() - i,
    {
        assert(all.take(i + 1).drop_last() =~= all.take(i as int));
        let unit = PlacedUnit { name: units[i].name.clone(), address: units[i].address };
        insert(&mut sorted, unit);
        i += 1;
    }
    assert(all.take(i as int) =~= all);
    sorted
}

/// Whether a list of names holds a name.
fn holds(list: &Vec<String>, name: &String) -> (found: bool)
    ensures
        found == text::views(list@).contains(name@),
{
    let mut i: usize = 0;
    while i < list.len()
        invariant
            i <= list@.len(),
            forall|j: int| 0 <= j < i ==> list@[j]@ != name@,
        decreases list@.len() - i,
    {
        if list[i] == *name {
            assert(text::views(list@)[i as int] == name@);
            return true;
        }
        i += 1;
    }
    assert forall|j: int| 0 <= j < text::views(list@).len() implies text::views(list@)[j]
        != name@ by {}
    false
}

/// The names of units, each one once, where it comes first.
pub fn unique_names(units: &Vec<PlacedUnit>) -> (unique: Vec<String>)
    ensures
        text::views(unique@) == first_occurrences(names(placed_views(units@))),
{
    let mut unique: Vec<String> = Vec::new();
    let ghost all = names(placed_views(units@));
    let mut i: usize = 0;
    assert(all.take(0) =~= Seq::empty());
    assert(text::views(unique@) =~= Seq::empty());
    while i < units.len()
        invariant
            i <= units@.len(),
            all == names(placed_views(units@)),
            text::views(unique@) == first_occurrences(all.take(i as int)),
        decreases units@.len() - i,
    {
        assert(all.take(i + 1).drop_last() =~= all.take(i as int));
        let ghost before = text::views(unique@);
        if !holds(&unique, &units[i].name) {
            unique.push(units[i].name.clone());
            assert(text::views(unique@) =~= before.push(all[i as int]));
        }
        i += 1;
    }
    assert(all.take(i as int) =~= all);
    unique
}

/// What inserting one unit does: the list stays in order, and every address has its units as
/// before, the new one last at its own.
proof fn lemma_inserted(list: Seq<PlacedView>, unit: PlacedView, address: u64)
    requires
        ascending(list),
    ensures
        ascending(inserted(list, unit)),
        inserted(list, unit).to_multiset() =~= list.to_multiset().insert(unit),
        forall|i: int|
            0 <= i < inserted(list, unit).len() ==> (#[trigger] inserted(list, unit)[i]).address
                <= unit.address || (list.len() > 0 && inserted(list, unit)[i].address
                <= list.last().address),
        at_address(inserted(list, unit), address) == if unit.address == address {
            at_address(list, address).push(unit)
        } else {
            at_address(list, address)
        },
    decreases list.len(),
{
    broadcast use vstd::seq_lib::group_to_multiset_ensures;

    let result = inserted(list, unit);
    if list.len() == 0 || list.last().address <= unit.address {
        assert(result.drop_last() =~= list);
    } else {
        let shorter = list.drop_last();
        lemma_inserted(shorter, unit, address);
        let before = inserted(shorter, unit);
        assert(list =~= shorter.push(list.last()));
        assert(result.drop_last() =~= before);
        assert forall|i: int, j: int| 0 <= i <= j < result.len() implies (
        #[trigger] result[i]).address <= (#[trigger] result[j]).address by {
            if j < before.len() {
                assert(before[i].address <= before[j].address);
            } else if i < before.len() {
                assert(before[i].address <= unit.address || before[i].address
                    <= shorter.last().address);
                if shorter.len() > 0 {
                    assert(list[shorter.len() - 1].address <= list[list.len() - 1].address);
                }
            }
        }
        if list.last().address == address {
            assert(unit.address != address);
        }
    }
}

/// Sorting by address gives the same units, in ascending order of their addresses, and keeps the
/// order of units at one address.
pub proof fn law_by_address(list: Seq<PlacedView>, address: u64)
    ensures
        ascending(by_address(list)),
        by_address(list).to_multiset() == list.to_multiset(),
        at_address(by_address(list), address) == at_address(list, address),
    decreases list.len(),
{
    broadcast use vstd::seq_lib::group_to_multiset_ensures;

    if list.len() > 0 {
        law_by_address(list.drop_last(), address);
        lemma_inserted(by_address(list.drop_last()), list.last(), address);
        assert(list =~= list.drop_last().push(list.last()));
    }
}

/// Units that are in address order already stay as they are.
pub proof fn law_sorted_stays(list: Seq<PlacedView>)
    requires
        ascending(list),
    ensures
        by_address(list) == list,
    decreases list.len(),
{
    if list.len() > 0 {
        let shorter = list.drop_last();
        assert forall|i: int, j: int| 0 <= i <= j < shorter.len() implies (
        #[trigger] shorter[i]).address <= (#[trigger] shorter[j]).address by {
            assert(list[i].address <= list[j].address);
        }
        law_sorted_stays(shorter);
        if shorter.len() > 0 {
            assert(list[shorter.len() - 1].address <= list[list.len() - 1].address);
        }
        assert(shorter.push(list.last()) =~= list);
    }
}

/// Keeping first occurrences keeps every name, keeps none twice, and keeps them in the order in
/// which they come first: what a beginning of the list gives is a beginning of what it all gives.
pub proof fn law_first_occurrences(list: Seq<Seq<char>>, n: int)
    requires
        0 <= n <= list.len(),
    ensures
        first_occurrences(list).no_duplicates(),
        forall|name: Seq<char>| #[trigger] first_occurrences(list).contains(name) <==> list.contains(name),
        first_occurrences(list.take(n)).is_prefix_of(first_occurrences(list)),
    decreases list.len(),
{
    let result = first_occurrences(list);
    if list.len() == 0 {
        assert(list.take(n) =~= list);
        assert forall|name: Seq<char>| #[trigger] result.contains(name) <==> list.contains(name) by {
            assert(result =~= list);
        }
    } else {
        let shorter = list.drop_last();
        let before = first_occurrences(shorter);
        if n == list.len() {
            law_first_occurrences(shorter, 0);
            assert(list.take(n) =~= list);
            assert(result =~= result.subrange(0, result.len() as int));
        } else {
            law_first_occurrences(shorter, n);
            assert(list.take(n) =~= shorter.take(n));
            assert(before.is_prefix_of(result));
        }
        assert forall|name: Seq<char>| #[trigger] result.contains(name) <==> list.contains(name) by {
            if list.contains(name) {
                let k = choose|k: int| 0 <= k < list.len() && list[k] == name;
                if k < shorter.len() {
                    assert(shorter[k] == name);
                    assert(before.contains(name));
                    let m = choose|m: int| 0 <= m < before.len() && before[m] == name;
                    assert(result[m] == name);
                } else if !before.contains(name) {
                    assert(result[before.len() as int] == name);
                }
            }
            if result.contains(name) {
                let m = choose|m: int| 0 <= m < result.len() && result[m] == name;
                if m < before.len() {
                    assert(before[m] == name);
                    assert(before.contains(name));
                    assert(shorter.contains(name));
                    let k = choose|k: int| 0 <= k < shorter.len() && shorter[k] == name;
                    assert(list[k] == name);
                } else {
                    assert(list[list.len() - 1] == name);
                }
            }
        }
    }
}

/// How many units of a list stand at an address in front of position `m`.
pub open spec fn rank(list: Seq<PlacedView>, address: u64, m: int) -> nat {
    at_address(list.take(m), address).len()
}

/// A unit at an address is found there by its rank.
proof fn lemma_rank(list: Seq<PlacedView>, address: u64, m: int)
    requires
        0 <= m < list.len(),
        list[m].address == address,
    ensures
        rank(list, address, m) < at_address(list, address).len(),
        at_address(list, address)[rank(list, address, m) as int] == list[m],
    decreases list.len(),
{
    let shorter = list.drop_last();
    if m < shorter.len() {
        lemma_rank(shorter, address, m);
        assert(shorter.take(m) =~= list.take(m));
    } else {
        assert(list.take(m) =~= shorter);
    }
}

/// Every unit at an address has a position with its rank.
proof fn lemma_unrank(list: Seq<PlacedView>, address: u64, r: int) -> (m: int)
    requires
        0 <= r < at_address(list, address).len(),
    ensures
        0 <= m < list.len(),
        list[m] == at_address(list, address)[r],
        list[m].address == address,
        rank(list, address, m) == r,
    decreases list.len(),
{
    let shorter = list.drop_last();
    let before = at_address(shorter, address);
    if r < before.len() {
        let m = lemma_unrank(shorter, address, r);
        assert(shorter.take(m) =~= list.take(m));
        m
    } else {
        assert(list.take(list.len() - 1) =~= shorter);
        list.len() - 1
    }
}

/// Ranks grow with the position.
proof fn lemma_rank_grows(list: Seq<PlacedView>, address: u64, a: int, b: int)
    requires
        0 <= a <= b <= list.len(),
    ensures
        rank(list, address, a) <= rank(list, address, b),
        a < b && list[a].address == address ==> rank(list, address, a) < rank(list, address, b),
    decreases b,
{
    if a < b {
        assert(list.take(b).drop_last() =~= list.take(b - 1));
        assert(list.take(b).last() == list[b - 1]);
        lemma_rank_grows(list, address, a, b - 1);
    }
}

/// Units come by address, and at one address in the order of the list that was sorted: if a name is
/// kept before another one, it stands in that list at a lower address than wherever the other one
/// stands, or at the same address and not behind it.
pub proof fn law_kept_by_address_then_position(
    list: Seq<PlacedView>,
    i: int,
    j: int,
    q: int,
) -> (p: int)
    requires
        0 <= i <= j < first_occurrences(names(by_address(list))).len(),
        0 <= q < list.len(),
        list[q].name == first_occurrences(names(by_address(list)))[j],
    ensures
        0 <= p < list.len(),
        list[p].name == first_occurrences(names(by_address(list)))[i],
        list[p].address < list[q].address || (list[p].address == list[q].address && p <= q),
{
    let sorted = by_address(list);
    let all = names(sorted);
    let kept = first_occurrences(all);
    let address = list[q].address;
    law_by_address(list, address);
    lemma_rank(list, address, q);
    let r = rank(list, address, q) as int;
    let b = lemma_unrank(sorted, address, r);
    assert(sorted[b] == list[q]);
    assert(all[b] == kept[j]);
    let head = all.take(b + 1);
    law_first_occurrences(all, b + 1);
    law_first_occurrences(head, 0);
    let begun = first_occurrences(head);
    assert(head[b] == kept[j]);
    assert(head.contains(kept[j]));
    assert(begun.contains(kept[j]));
    let t = choose|t: int| 0 <= t < begun.len() && begun[t] == kept[j];
    assert(kept[t] == begun[t]);
    assert(t == j);
    assert(kept[i] == begun[i]);
    assert(begun.contains(kept[i]));
    assert(head.contains(kept[i]));
    let a = choose|a: int| 0 <= a < head.len() && head[a] == kept[i];
    assert(all[a] == kept[i]);
    assert(sorted[a].address <= sorted[b].address);
    let first = sorted[a].address;
    law_by_address(list, first);
    lemma_rank(sorted, first, a);
    let p = lemma_unrank(list, first, rank(sorted, first, a) as int);
    if first == address {
        lemma_rank_grows(sorted, address, a, b);
        if p > q {
            lemma_rank_grows(list, address, q, p);
        }
    }
    p
}

/// A list of placed units stands for the name and the address of each of them, in order.
pub proof fn law_views(list: Seq<PlacedUnit>, i: int)
    ensures
        placed_views(list).len() == list.len(),
        names(placed_views(list)).len() == list.len(),
        0 <= i < list.len() ==> placed_views(list)[i].name == list[i].name@
            && placed_views(list)[i].address == list[i].address && names(placed_views(list))[i]
            == list[i].name@,
{
}

} // verus!
