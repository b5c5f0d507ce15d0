//! Importing the items and bins of an instance.
use vstd::prelude::*;

use crate::error::GeometryError;
use crate::geometry::primitives::circle::Circle;
use crate::geometry::primitives::simple_polygon::{SPolygon, Toolkit};
use crate::io::ext_repr::{ExtContainer, ExtItem};
use crate::io::import::containers::ImportedContainer;
use crate::io::import::importer::Importer;
use crate::io::import::items::ImportedItem;
use crate::math::Elementary;
use crate::num::Num;

verus! {

/// An entry of an instance is used if there is a positive number of it.
pub open spec fn is_used(counts: Seq<usize>, p: int) -> bool {
    0 <= p < counts.len() && counts[p] > 0
}

/// `order` lists the places of the used entries by their ids, which are consecutive and
/// start from 0.
pub open spec fn is_order(ids: Seq<usize>, counts: Seq<usize>, order: Seq<int>) -> bool {
    &&& forall|k: int| #![trigger order[k]]
        0 <= k < order.len() ==> is_used(counts, order[k]) && ids[order[k]] == k
    &&& forall|p: int| #[trigger]
        is_used(counts, p) ==> ids[p] < order.len() && order[ids[p] as int] == p
}

/// The ids of the used entries are consecutive and start from 0.
pub open spec fn has_consecutive_ids(ids: Seq<usize>, counts: Seq<usize>) -> bool {
    exists|order: Seq<int>| is_order(ids, counts, order)
}

/// The places of the used entries by their ids.
///
/// There is no such order if an id is missing or occurs twice.
pub fn order_by_id(ids: &[usize], counts: &[usize]) -> (r: Option<Vec<usize>>)
    requires
        ids@.len() == counts@.len(),
    ensures
        match r {
            Some(order) => is_order(
                ids@,
                counts@,
                order@.map_values(|p: usize| p as int),
            ),
            None => !has_consecutive_ids(ids@, counts@),
        },
{
    let n: usize = ids.len();
    // One more than the greatest id in use, and where it occurs.
    let mut len: usize = 0;
    let mut i: usize = 0;
    while i < n
        invariant
            i <= n == ids@.len() == counts@.len(),
            len <= n,
            forall|p: int| 0 <= p < i && #[trigger] is_used(counts@, p) ==> ids@[p] < len,
            len > 0 ==> exists|p: int|
                0 <= p < i && #[trigger] is_used(counts@, p) && ids@[p] == len - 1,
        decreases n - i,
    {
        if counts[i] > 0 {
            assert(is_used(counts@, i as int));
            if ids[i] >= n {
                proof {
                    lemma_ids_are_small(ids@, counts@, i as int);
                }
                return None;
            }
            if ids[i] >= len {
                len = ids[i] + 1;
            }
        }
        i = i + 1;
    }
    let mut slots: Vec<Option<usize>> = Vec::new();
    let mut k: usize = 0;
    while k < len
        invariant
            k <= len,
            slots@.len() == k,
            forall|j: int| 0 <= j < k ==> #[trigger] slots@[j] is None,
        decreases len - k,
    {
        slots.push(None);
        k = k + 1;
    }
    let mut p: usize = 0;
    while p < n
        invariant
            p <= n == ids@.len() == counts@.len(),
            len <= n,
            slots@.len() == len,
            forall|q: int| 0 <= q < n && #[trigger] is_used(counts@, q) ==> ids@[q] < len,
            len > 0 ==> exists|q: int| #[trigger] is_used(counts@, q) && ids@[q] == len - 1,
            forall|j: int| #![trigger slots@[j]]
                0 <= j < len && slots@[j] is Some ==> {
                    let q = slots@[j]->0;
                    q < p && is_used(counts@, q as int) && ids@[q as int] == j
                },
            forall|q: int|
                0 <= q < p && #[trigger] is_used(counts@, q) ==> slots@[ids@[q] as int] == Some(
                    q as usize,
                ),
        decreases n - p,
    {
        if counts[p] > 0 {
            assert(is_used(counts@, p as int));
            let id: usize = ids[p];
            match slots[id] {
                Some(q) => {
                    proof {
                        assert(slots@[id as int] == Some(q));
                        lemma_ids_are_distinct(ids@, counts@, q as int, p as int);
                    }
                    return None;
                },
                None => {
                    slots.set(id, Some(p));
                },
            }
        }
        p = p + 1;
    }
    let mut order: Vec<usize> = Vec::new();
    let mut j: usize = 0;
    while j < len
        invariant
            j <= len == slots@.len(),
            n == ids@.len() == counts@.len(),
            order@.len() == j,
            len > 0 ==> exists|q: int| #[trigger] is_used(counts@, q) && ids@[q] == len - 1,
            forall|k: int| #![trigger slots@[k]]
                0 <= k < len && slots@[k] is Some ==> {
                    let q = slots@[k]->0;
                    q < n && is_used(counts@, q as int) && ids@[q as int] == k
                },
            forall|q: int|
                0 <= q < n && #[trigger] is_used(counts@, q) ==> ids@[q] < len
                    && slots@[ids@[q] as int] == Some(q as usize),
            forall|k: int| 0 <= k < j ==> slots@[k] == Some(#[trigger] order@[k]),
        decreases len - j,
    {
        match slots[j] {
            Some(q) => order.push(q),
            None => {
                proof {
                    let last = choose|q: int| #[trigger]
                        is_used(counts@, q) && ids@[q] == len - 1;
                    if has_consecutive_ids(ids@, counts@) {
                        let good = choose|good: Seq<int>| is_order(ids@, counts@, good);
                        assert(ids@[last] < good.len());
                        assert(is_used(counts@, good[j as int]));
                        assert(slots@[j as int] is Some);
                    }
                }
                return None;
            },
        }
        j = j + 1;
    }
    proof {
        let listed = order@.map_values(|p: usize| p as int);
        assert forall|k: int| #![trigger listed[k]] 0 <= k < listed.len() implies is_used(
            counts@,
            listed[k],
        ) && ids@[listed[k]] == k by {
            assert(slots@[k] == Some(order@[k]));
        }
        assert forall|p: int| #[trigger] is_used(counts@, p) implies ids@[p] < listed.len()
            && listed[ids@[p] as int] == p by {
            assert(slots@[ids@[p] as int] == Some(p as usize));
            assert(slots@[ids@[p] as int] == Some(order@[ids@[p] as int]));
        }
        assert(is_order(ids@, counts@, listed));
    }
    Some(order)
}

/// Consecutive ids are less than the number of entries.
proof fn lemma_ids_are_small(ids: Seq<usize>, counts: Seq<usize>, p: int)
    requires
        ids.len() == counts.len(),
        is_used(counts, p),
        ids[p] >= ids.len(),
    ensures
        !has_consecutive_ids(ids, counts),
{
    if has_consecutive_ids(ids, counts) {
        let order = choose|order: Seq<int>| is_order(ids, counts, order);
        assert(order.no_duplicates()) by {
            assert forall|a: int, b: int|
                0 <= a < order.len() && 0 <= b < order.len() && a != b implies order[a]
                != order[b] by {
                assert(ids[order[a]] == a);
                assert(ids[order[b]] == b);
            }
        }
        order.unique_seq_to_set();
        let places = vstd::set_lib::set_int_range(0, ids.len() as int);
        assert(order.to_set().subset_of(places)) by {
            assert forall|q: int| order.to_set().contains(q) implies places.contains(q) by {
                let k = choose|k: int| 0 <= k < order.len() && order[k] == q;
                assert(is_used(counts, order[k]));
            }
        }
        vstd::set_lib::lemma_int_range(0, ids.len() as int);
        vstd::set_lib::lemma_len_subset(order.to_set(), places);
    }
}

/// Consecutive ids occur once.
proof fn lemma_ids_are_distinct(ids: Seq<usize>, counts: Seq<usize>, p: int, q: int)
    requires
        is_used(counts, p),
        is_used(counts, q),
        p != q,
        ids[p] == ids[q],
    ensures
        !has_consecutive_ids(ids, counts),
{
    if has_consecutive_ids(ids, counts) {
        let order = choose|order: Seq<int>| is_order(ids, counts, order);
        assert(order[ids[p] as int] == p);
        assert(order[ids[q] as int] == q);
    }
}

/// The entries at the places of an order, in this order.
pub open spec fn picked<T>(entries: Seq<T>, order: Seq<int>) -> Seq<T> {
    Seq::new(order.len(), |k: int| entries[order[k]])
}

fn pick<T>(entries: Vec<T>, order: &Vec<usize>) -> (r: Vec<T>)
    requires
        forall|k: int| 0 <= k < order@.len() ==> (#[trigger] order@[k]) < entries@.len(),
        order@.no_duplicates(),
    ensures
        r@ == picked(entries@, order@.map_values(|p: usize| p as int)),
{
    let ghost given = entries@;
    let mut entries: Vec<T> = entries;
    let n: usize = entries.len();
    // The entries in reverse order.
    let mut slots: Vec<Option<T>> = Vec::new();
    while entries.len() > 0
        invariant
            n == given.len(),
            entries@.len() + slots@.len() == n,
            entries@ == given.take(entries@.len() as int),
            forall|j: int|
                0 <= j < slots@.len() ==> #[trigger] slots@[j] == Some(given[n - 1 - j]),
        decreases entries.len(),
    {
        let ghost before = entries@;
        match entries.pop() {
            Some(entry) => {
                assert(entry == given[before.len() - 1]);
                slots.push(Some(entry));
                assert(entries@ =~= given.take(entries@.len() as int));
            },
            None => {},
        }
    }
    let mut r: Vec<T> = Vec::new();
    let mut k: usize = 0;
    while k < order.len()
        invariant
            k <= order@.len(),
            n == given.len() == slots@.len(),
            forall|j: int| 0 <= j < order@.len() ==> (#[trigger] order@[j]) < n,
            order@.no_duplicates(),
            r@.len() == k,
            forall|j: int| 0 <= j < k ==> #[trigger] r@[j] == given[order@[j] as int],
            forall|j: int|
                k <= j < order@.len() ==> slots@[n - 1 - #[trigger] order@[j]] == Some(
                    given[order@[j] as int],
                ),
        decreases order.len() - k,
    {
        assert(order@[k as int] < n);
        let at: usize = n - 1 - order[k];
        let mut slot: Option<T> = None;
        slots.set_and_swap(at, &mut slot);
        assert(slot == Some(given[order@[k as int] as int]));
        match slot {
            Some(entry) => r.push(entry),
            None => {},
        }
        k = k + 1;
    }
    assert(r@ =~= picked(given, order@.map_values(|p: usize| p as int)));
    r
}

/// The used entries by their ids.
pub open spec fn is_arranged<T>(
    ids: Seq<usize>,
    counts: Seq<usize>,
    entries: Seq<T>,
    r: Seq<T>,
) -> bool {
    exists|order: Seq<int>| #[trigger] is_order(ids, counts, order) && r == picked(entries, order)
}

proof fn lemma_order_is_distinct(ids: Seq<usize>, counts: Seq<usize>, order: Seq<usize>)
    requires
        is_order(ids, counts, order.map_values(|p: usize| p as int)),
    ensures
        order.no_duplicates(),
        forall|k: int| 0 <= k < order.len() ==> (#[trigger] order[k]) < counts.len(),
{
    let listed = order.map_values(|p: usize| p as int);
    assert forall|k: int| 0 <= k < order.len() implies (#[trigger] order[k]) < counts.len()
        && ids[order[k] as int] == k by {
        assert(listed[k] == order[k]);
    }
}

/// An instance uses items with consecutive ids, at least one of them.
pub fn arrange_items(ids: &[usize], demands: &[usize]) -> (r: Result<Vec<usize>, GeometryError>)
    requires
        ids@.len() == demands@.len(),
    ensures
        match r {
            Ok(order) => order@.len() > 0 && is_order(
                ids@,
                demands@,
                order@.map_values(|p: usize| p as int),
            ),
            Err(e) => if has_consecutive_ids(ids@, demands@) {
                e == GeometryError::NoItems && forall|p: int| !#[trigger] is_used(demands@, p)
            } else {
                e == GeometryError::NonConsecutiveItemIds
            },
        },
{
    match order_by_id(ids, demands) {
        None => Err(GeometryError::NonConsecutiveItemIds),
        Some(order) => if order.len() == 0 {
            assert(is_order(ids@, demands@, order@.map_values(|p: usize| p as int)));
            Err(GeometryError::NoItems)
        } else {
            Ok(order)
        },
    }
}

/// An instance uses bins with consecutive ids, at least one of them.
pub fn arrange_bins(ids: &[usize], stocks: &[usize]) -> (r: Result<Vec<usize>, GeometryError>)
    requires
        ids@.len() == stocks@.len(),
    ensures
        match r {
            Ok(order) => order@.len() > 0 && is_order(
                ids@,
                stocks@,
                order@.map_values(|p: usize| p as int),
            ),
            Err(e) => if has_consecutive_ids(ids@, stocks@) {
                e == GeometryError::NoBins && forall|p: int| !#[trigger] is_used(stocks@, p)
            } else {
                e == GeometryError::NonConsecutiveBinIds
            },
        },
{
    match order_by_id(ids, stocks) {
        None => Err(GeometryError::NonConsecutiveBinIds),
        Some(order) => if order.len() == 0 {
            assert(is_order(ids@, stocks@, order@.map_values(|p: usize| p as int)));
            Err(GeometryError::NoBins)
        } else {
            Ok(order)
        },
    }
}

/// An item and how many of it there are.
pub struct ExtBPItem {
    pub base: ExtItem,
    pub demand: u64,
}

/// A bin, how many of it there are, and what each costs.
pub struct ExtBPBin {
    pub base: ExtContainer,
    pub stock: usize,
    pub cost: u64,
}

/// A bin packing instance that comes in.
pub struct ExtBPInstance {
    pub items: Vec<ExtBPItem>,
    pub bins: Vec<ExtBPBin>,
}

/// A bin, how many of it there are, and what each costs.
pub struct ImportedBin {
    pub container: ImportedContainer,
    pub stock: usize,
    pub cost: u64,
}

/// The items with their demands, and the bins, by their ids.
pub struct BPInstance {
    pub items: Vec<(ImportedItem, usize)>,
    pub bins: Vec<ImportedBin>,
}

pub open spec fn item_ids(items: Seq<(ImportedItem, usize)>) -> Seq<usize> {
    items.map_values(|item: (ImportedItem, usize)| item.0.id)
}

pub open spec fn demands(items: Seq<(ImportedItem, usize)>) -> Seq<usize> {
    items.map_values(|item: (ImportedItem, usize)| item.1)
}

pub open spec fn bin_ids(bins: Seq<ImportedBin>) -> Seq<usize> {
    bins.map_values(|bin: ImportedBin| bin.container.id)
}

pub open spec fn stocks(bins: Seq<ImportedBin>) -> Seq<usize> {
    bins.map_values(|bin: ImportedBin| bin.stock)
}

/// What the arrangement of items comes to: those in demand, by their consecutive ids.
pub open spec fn are_items_arranged(
    items: Seq<(ImportedItem, usize)>,
    r: Result<Seq<(ImportedItem, usize)>, GeometryError>,
) -> bool {
    match r {
        Ok(arranged) => arranged.len() > 0 && is_arranged(
            item_ids(items),
            demands(items),
            items,
            arranged,
        ),
        Err(e) => if has_consecutive_ids(item_ids(items), demands(items)) {
            e == GeometryError::NoItems && forall|p: int| !#[trigger] is_used(demands(items), p)
        } else {
            e == GeometryError::NonConsecutiveItemIds
        },
    }
}

/// What the arrangement of bins comes to: those in stock, by their consecutive ids.
pub open spec fn are_bins_arranged(
    bins: Seq<ImportedBin>,
    r: Result<Seq<ImportedBin>, GeometryError>,
) -> bool {
    match r {
        Ok(arranged) => arranged.len() > 0 && is_arranged(
            bin_ids(bins),
            stocks(bins),
            bins,
            arranged,
        ),
        Err(e) => if has_consecutive_ids(bin_ids(bins), stocks(bins)) {
            e == GeometryError::NoBins && forall|p: int| !#[trigger] is_used(stocks(bins), p)
        } else {
            e == GeometryError::NonConsecutiveBinIds
        },
    }
}

/// Sorts items by their ids and drops those without demand; the ids of the others must be
/// consecutive from 0, and there must be one at least.
pub fn sort_items(items: Vec<(ImportedItem, usize)>) -> (r: Result<
    Vec<(ImportedItem, usize)>,
    GeometryError,
>)
    ensures
        are_items_arranged(
            items@,
            match r {
                Ok(arranged) => Ok(arranged@),
                Err(e) => Err(e),
            },
        ),
{
    let mut ids: Vec<usize> = Vec::new();
    let mut counts: Vec<usize> = Vec::new();
    let mut i: usize = 0;
    while i < items.len()
        invariant
            i <= items@.len(),
            ids@ == item_ids(items@).take(i as int),
            counts@ == demands(items@).take(i as int),
        decreases items.len() - i,
    {
        ids.push(items[i].0.id);
        counts.push(items[i].1);
        i = i + 1;
        assert(ids@ =~= item_ids(items@).take(i as int));
        assert(counts@ =~= demands(items@).take(i as int));
    }
    assert(ids@ =~= item_ids(items@));
    assert(counts@ =~= demands(items@));
    match arrange_items(&ids, &counts) {
        Err(e) => Err(e),
        Ok(order) => {
            proof {
                lemma_order_is_distinct(ids@, counts@, order@);
            }
            Ok(pick(items, &order))
        },
    }
}

/// Sorts bins by their ids and drops those without stock; the ids of the others must be
/// consecutive from 0, and there must be one at least.
pub fn sort_bins(bins: Vec<ImportedBin>) -> (r: Result<Vec<ImportedBin>, GeometryError>)
    ensures
        are_bins_arranged(
            bins@,
            match r {
                Ok(arranged) => Ok(arranged@),
                Err(e) => Err(e),
            },
        ),
{
    let mut ids: Vec<usize> = Vec::new();
    let mut counts: Vec<usize> = Vec::new();
    let mut i: usize = 0;
    while i < bins.len()
        invariant
            i <= bins@.len(),
            ids@ == bin_ids(bins@).take(i as int),
            counts@ == stocks(bins@).take(i as int),
        decreases bins.len() - i,
    {
        ids.push(bins[i].container.id);
        counts.push(bins[i].stock);
        i = i + 1;
        assert(ids@ =~= bin_ids(bins@).take(i as int));
        assert(counts@ =~= stocks(bins@).take(i as int));
    }
    assert(ids@ =~= bin_ids(bins@));
    assert(counts@ =~= stocks(bins@));
    match arrange_bins(&ids, &counts) {
        Err(e) => Err(e),
        Ok(order) => {
            proof {
                lemma_order_is_distinct(ids@, counts@, order@);
            }
            Ok(pick(bins, &order))
        },
    }
}

/// The items are what the external ones may become, each with its demand.
pub open spec fn are_items_imported<
    M: Fn(Elementary) -> Num,
    P: Fn(&SPolygon) -> Result<Circle, GeometryError>,
>(
    importer: Importer,
    ext_items: Seq<ExtBPItem>,
    tools: &Toolkit<M, P>,
    items: Seq<(ImportedItem, usize)>,
) -> bool {
    &&& items.len() == ext_items.len()
    &&& forall|i: int|
        0 <= i < items.len() ==> importer.makes_item(
            &ext_items[i].base,
            tools,
            (#[trigger] items[i]).0,
        ) && items[i].1 == ext_items[i].demand as usize
}

/// The bins are what the external ones may become, each with its stock and cost.
pub open spec fn are_bins_imported<
    M: Fn(Elementary) -> Num,
    P: Fn(&SPolygon) -> Result<Circle, GeometryError>,
>(
    importer: Importer,
    ext_bins: Seq<ExtBPBin>,
    tools: &Toolkit<M, P>,
    bins: Seq<ImportedBin>,
) -> bool {
    &&& bins.len() == ext_bins.len()
    &&& forall|i: int|
        0 <= i < bins.len() ==> importer.makes_container(
            &ext_bins[i].base,
            tools,
            (#[trigger] bins[i]).container,
        ) && bins[i].stock == ext_bins[i].stock && bins[i].cost == ext_bins[i].cost
}

fn import_items<
    M: Fn(Elementary) -> Num,
    P: Fn(&SPolygon) -> Result<Circle, GeometryError>,
>(importer: &Importer, ext_items: &[ExtBPItem], tools: &Toolkit<M, P>) -> (r: Result<
    Vec<(ImportedItem, usize)>,
    GeometryError,
>)
    requires
        tools.usable(),
    ensures
        match r {
            Ok(items) => are_items_imported(*importer, ext_items@, tools, items@),
            Err(e) => exists|i: int|
                0 <= i < ext_items@.len() && importer.rejects_item(
                    #[trigger] &ext_items@[i].base,
                    tools,
                    e,
                ),
        },
{
    let mut items: Vec<(ImportedItem, usize)> = Vec::new();
    let mut i: usize = 0;
    while i < ext_items.len()
        invariant
            i <= ext_items@.len(),
            tools.usable(),
            items@.len() == i,
            forall|j: int|
                0 <= j < i ==> importer.makes_item(
                    &ext_items@[j].base,
                    tools,
                    (#[trigger] items@[j]).0,
                ) && items@[j].1 == ext_items@[j].demand as usize,
        decreases ext_items.len() - i,
    {
        match importer.import_item(&ext_items[i].base, tools) {
            Ok(item) => items.push((item, ext_items[i].demand as usize)),
            Err(e) => {
                assert(importer.rejects_item(&ext_items@[i as int].base, tools, e));
                return Err(e);
            },
        }
        i = i + 1;
    }
    Ok(items)
}

fn import_bins<
    M: Fn(Elementary) -> Num,
    P: Fn(&SPolygon) -> Result<Circle, GeometryError>,
>(importer: &Importer, ext_bins: &[ExtBPBin], tools: &Toolkit<M, P>) -> (r: Result<
    Vec<ImportedBin>,
    GeometryError,
>)
    requires
        tools.usable(),
    ensures
        match r {
            Ok(bins) => are_bins_imported(*importer, ext_bins@, tools, bins@),
            Err(e) => exists|i: int|
                0 <= i < ext_bins@.len() && importer.rejects_container(
                    #[trigger] &ext_bins@[i].base,
                    tools,
                    e,
                ),
        },
{
    let mut bins: Vec<ImportedBin> = Vec::new();
    let mut i: usize = 0;
    while i < ext_bins.len()
        invariant
            i <= ext_bins@.len(),
            tools.usable(),
            bins@.len() == i,
            forall|j: int|
                0 <= j < i ==> importer.makes_container(
                    &ext_bins@[j].base,
                    tools,
                    (#[trigger] bins@[j]).container,
                ) && bins@[j].stock == ext_bins@[j].stock && bins@[j].cost == ext_bins@[j].cost,
        decreases ext_bins.len() - i,
    {
        match importer.import_container(&ext_bins[i].base, tools) {
            Ok(container) => bins.push(
                ImportedBin { container, stock: ext_bins[i].stock, cost: ext_bins[i].cost },
            ),
            Err(e) => {
                assert(importer.rejects_container(&ext_bins@[i as int].base, tools, e));
                return Err(e);
            },
        }
        i = i + 1;
    }
    Ok(bins)
}

/// `r` is a possible outcome when the items of an instance are imported and arranged.
pub open spec fn items_come_to<
    M: Fn(Elementary) -> Num,
    P: Fn(&SPolygon) -> Result<Circle, GeometryError>,
>(
    importer: Importer,
    ext_items: Seq<ExtBPItem>,
    tools: &Toolkit<M, P>,
    r: Result<Seq<(ImportedItem, usize)>, GeometryError>,
) -> bool {
    ||| exists|items: Seq<(ImportedItem, usize)>|
        are_items_imported(importer, ext_items, tools, items) && #[trigger] are_items_arranged(
            items,
            r,
        )
    ||| r is Err && exists|i: int|
        0 <= i < ext_items.len() && importer.rejects_item(
            #[trigger] &ext_items[i].base,
            tools,
            r->Err_0,
        )
}

/// `r` is a possible outcome when the bins of an instance are imported and arranged.
pub open spec fn bins_come_to<
    M: Fn(Elementary) -> Num,
    P: Fn(&SPolygon) -> Result<Circle, GeometryError>,
>(
    importer: Importer,
    ext_bins: Seq<ExtBPBin>,
    tools: &Toolkit<M, P>,
    r: Result<Seq<ImportedBin>, GeometryError>,
) -> bool {
    ||| exists|bins: Seq<ImportedBin>|
        are_bins_imported(importer, ext_bins, tools, bins) && #[trigger] are_bins_arranged(bins, r)
    ||| r is Err && exists|i: int|
        0 <= i < ext_bins.len() && importer.rejects_container(
            #[trigger] &ext_bins[i].base,
            tools,
            r->Err_0,
        )
}

/// `r` is a possible outcome when an instance is imported: first its items, and then its bins.
pub open spec fn is_instance_import<
    M: Fn(Elementary) -> Num,
    P: Fn(&SPolygon) -> Result<Circle, GeometryError>,
>(
    importer: Importer,
    ext_instance: &ExtBPInstance,
    tools: &Toolkit<M, P>,
    r: Result<BPInstance, GeometryError>,
) -> bool {
    match r {
        Ok(instance) => {
            &&& items_come_to(importer, ext_instance.items@, tools, Ok(instance.items@))
            &&& bins_come_to(importer, ext_instance.bins@, tools, Ok(instance.bins@))
        },
        Err(e) => {
            ||| items_come_to(importer, ext_instance.items@, tools, Err(e))
            ||| {
                &&& exists|items: Seq<(ImportedItem, usize)>| #[trigger]
                    items_come_to(importer, ext_instance.items@, tools, Ok(items))
                &&& bins_come_to(importer, ext_instance.bins@, tools, Err(e))
            }
        },
    }
}

fn import_and_sort_items<
    M: Fn(Elementary) -> Num,
    P: Fn(&SPolygon) -> Result<Circle, GeometryError>,
>(importer: &Importer, ext_items: &[ExtBPItem], tools: &Toolkit<M, P>) -> (r: Result<
    Vec<(ImportedItem, usize)>,
    GeometryError,
>)
    requires
        tools.usable(),
    ensures
        items_come_to(
            *importer,
            ext_items@,
            tools,
            match r {
                Ok(items) => Ok(items@),
                Err(e) => Err(e),
            },
        ),
{
    let all: Vec<(ImportedItem, usize)> = match import_items(importer, ext_items, tools) {
        Ok(all) => all,
        Err(e) => return Err(e),
    };
    let ghost given = all@;
    let r: Result<Vec<(ImportedItem, usize)>, GeometryError> = sort_items(all);
    assert(are_items_arranged(
        given,
        match r {
            Ok(items) => Ok(items@),
            Err(e) => Err(e),
        },
    ));
    r
}

fn import_and_sort_bins<
    M: Fn(Elementary) -> Num,
    P: Fn(&SPolygon) -> Result<Circle, GeometryError>,
>(importer: &Importer, ext_bins: &[ExtBPBin], tools: &Toolkit<M, P>) -> (r: Result<
    Vec<ImportedBin>,
    GeometryError,
>)
    requires
        tools.usable(),
    ensures
        bins_come_to(
            *importer,
            ext_bins@,
            tools,
            match r {
                Ok(bins) => Ok(bins@),
                Err(e) => Err(e),
            },
        ),
{
    let all: Vec<ImportedBin> = match import_bins(importer, ext_bins, tools) {
        Ok(all) => all,
        Err(e) => return Err(e),
    };
    let ghost given = all@;
    let r: Result<Vec<ImportedBin>, GeometryError> = sort_bins(all);
    assert(are_bins_arranged(
        given,
        match r {
            Ok(bins) => Ok(bins@),
            Err(e) => Err(e),
        },
    ));
    r
}

/// Imports an instance.
///
/// Its items and bins are those that are in demand and in stock, by their ids. It fails if an
/// item or a bin cannot be imported, if the ids of those in use are not consecutive from 0, or
/// if there are none.
pub fn import_instance<
    M: Fn(Elementary) -> Num,
    P: Fn(&SPolygon) -> Result<Circle, GeometryError>,
>(importer: &Importer, ext_instance: &ExtBPInstance, tools: &Toolkit<M, P>) -> (r: Result<
    BPInstance,
    GeometryError,
>)
    requires
        tools.usable(),
    ensures
        is_instance_import(*importer, ext_instance, tools, r),
{
    let items: Vec<(ImportedItem, usize)> = match import_and_sort_items(
        importer,
        &ext_instance.items,
        tools,
    ) {
        Ok(items) => items,
        Err(e) => return Err(e),
    };
    match import_and_sort_bins(importer, &ext_instance.bins, tools) {
        Ok(bins) => Ok(BPInstance { items, bins }),
        Err(e) => Err(e),
    }
}

/// Each id of a used entry names one place in the order, and there is only one such order.
pub proof fn orders_are_unique(
    ids: Seq<usize>,
    counts: Seq<usize>,
    a: Seq<int>,
    b: Seq<int>,
)
    requires
        is_order(ids, counts, a),
        is_order(ids, counts, b),
    ensures
        a == b,
{
    if a.len() < b.len() {
        assert(is_used(counts, b[a.len() as int]));
        assert(ids[b[a.len() as int]] < a.len());
    }
    if b.len() < a.len() {
        assert(is_used(counts, a[b.len() as int]));
        assert(ids[a[b.len() as int]] < b.len());
    }
    assert forall|k: int| 0 <= k < a.len() implies a[k] == b[k] by {
        assert(is_used(counts, a[k]));
        assert(b[ids[a[k]] as int] == a[k]);
    }
    assert(a =~= b);
}

/// In an imported instance, items and bins stand at the places that their ids name, and all
/// of them are in demand and in stock.
pub proof fn instances_are_listed_by_id<
    M: Fn(Elementary) -> Num,
    P: Fn(&SPolygon) -> Result<Circle, GeometryError>,
>(
    importer: Importer,
    ext_instance: &ExtBPInstance,
    tools: &Toolkit<M, P>,
    instance: BPInstance,
)
    requires
        is_instance_import(importer, ext_instance, tools, Ok(instance)),
    ensures
        instance.items@.len() > 0,
        forall|k: int|
            0 <= k < instance.items@.len() ==> (#[trigger] instance.items@[k]).0.id == k
                && instance.items@[k].1 > 0,
        instance.bins@.len() > 0,
        forall|k: int|
            0 <= k < instance.bins@.len() ==> (#[trigger] instance.bins@[k]).container.id == k
                && instance.bins@[k].stock > 0,
{
    let items = choose|items: Seq<(ImportedItem, usize)>|
        are_items_imported(importer, ext_instance.items@, tools, items)
            && #[trigger] are_items_arranged(items, Ok(instance.items@));
    let order = choose|order: Seq<int>| #[trigger]
        is_order(item_ids(items), demands(items), order) && instance.items@ == picked(items, order);
    assert forall|k: int| 0 <= k < instance.items@.len() implies (
    #[trigger] instance.items@[k]).0.id == k && instance.items@[k].1 > 0 by {
        assert(is_used(demands(items), order[k]));
        assert(item_ids(items)[order[k]] == k);
    }
    let bins = choose|bins: Seq<ImportedBin>|
        are_bins_imported(importer, ext_instance.bins@, tools, bins)
            && #[trigger] are_bins_arranged(bins, Ok(instance.bins@));
    let bin_order = choose|order: Seq<int>| #[trigger]
        is_order(bin_ids(bins), stocks(bins), order) && instance.bins@ == picked(bins, order);
    assert forall|k: int| 0 <= k < instance.bins@.len() implies (
    #[trigger] instance.bins@[k]).container.id == k && instance.bins@[k].stock > 0 by {
        assert(is_used(stocks(bins), bin_order[k]));
        assert(bin_ids(bins)[bin_order[k]] == k);
    }
}

} // verus!
