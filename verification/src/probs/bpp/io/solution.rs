//! Placing the items of a solution that comes in, one after the other.
use vstd::prelude::*;

use crate::geometry::transformation::DTransformation;
use crate::io::import::transformations::ext_to_int_transformation;
use crate::math::{evaluates, Elementary};
use crate::num::Num;

verus! {

/// Where an item is placed: in a layout that is already open, or in a new one with a bin of
/// the given id.
#[derive(Clone, Copy, Debug, PartialEq, Eq)]
pub enum BPLayoutType {
    Open(u64),
    Closed { bin_id: usize },
}

/// An item of a solution that comes in.
#[derive(Clone, Copy, Debug)]
pub struct ExtPlacedItem {
    pub item_id: u64,
    pub transformation: DTransformation,
}

/// A layout of a solution that comes in.
#[derive(Clone, Debug)]
pub struct ExtLayout {
    pub container_id: u64,
    pub placed_items: Vec<ExtPlacedItem>,
}

/// A placement to be made.
#[derive(Clone, Copy, Debug)]
pub struct BPPlacement {
    pub layout_id: BPLayoutType,
    pub item_id: usize,
    pub d_transf: DTransformation,
}

/// How far the import of a solution has come.
#[derive(Clone, Copy, Debug)]
pub struct SolutionImport {
    /// The layout whose items are being placed.
    pub layout: usize,
    /// The next item of this layout.
    pub item: usize,
    /// The key of the layout, once its first item is placed.
    pub open_layout: Option<u64>,
}

/// Nothing has been placed yet.
#[verifier::allow_in_spec]
pub fn begin_solution_import() -> SolutionImport
    returns
        (SolutionImport { layout: 0, item: 0, open_layout: None }),
{
    SolutionImport { layout: 0, item: 0, open_layout: None }
}

/// The place of the next item that is not placed yet, from the given one on.
pub open spec fn next_place(layouts: Seq<ExtLayout>, layout: int, item: int) -> Option<(int, int)>
    decreases layouts.len() - layout,
{
    if layout < 0 || layout >= layouts.len() {
        None
    } else if item < layouts[layout].placed_items@.len() {
        Some((layout, item))
    } else {
        next_place(layouts, layout + 1, 0)
    }
}

impl SolutionImport {
    /// The placement that comes next, and the state that waits for the key of its layout.
    ///
    /// The first item of a layout opens it, in the bin of the layout; the others go where the
    /// first one went. The given transformation applies to the original shape of the item.
    pub open spec fn spec_next(
        self,
        layouts: Seq<ExtLayout>,
    ) -> Option<(SolutionImport, BPLayoutType, ExtPlacedItem)> {
        match next_place(layouts, self.layout as int, self.item as int) {
            None => None,
            Some((layout, item)) => {
                let open_layout = if layout == self.layout {
                    self.open_layout
                } else {
                    None
                };
                Some(
                    (
                        SolutionImport { layout: layout as usize, item: item as usize, open_layout },
                        match open_layout {
                            Some(key) => BPLayoutType::Open(key),
                            None => BPLayoutType::Closed {
                                bin_id: layouts[layout].container_id as usize,
                            },
                        },
                        layouts[layout].placed_items@[item],
                    ),
                )
            },
        }
    }

    /// Moves on to the next placement and says what it is; `pre_transforms` holds for each
    /// item the transformation that led to its internal shape.
    pub fn next<M: Fn(Elementary) -> Num>(
        &mut self,
        layouts: &[ExtLayout],
        pre_transforms: &[DTransformation],
        math: &M,
    ) -> (r: Option<BPPlacement>)
        requires
            evaluates(math),
            forall|i: int, j: int|
                0 <= i < layouts@.len() && 0 <= j < layouts@[i].placed_items@.len() ==> (
                #[trigger] layouts@[i].placed_items@[j]).item_id < pre_transforms@.len(),
        ensures
            match old(self).spec_next(layouts@) {
                None => r is None && final(self).spec_next(layouts@) is None,
                Some((state, layout_id, placed)) => {
                    &&& *final(self) == state
                    &&& r == Some(
                        BPPlacement {
                            layout_id,
                            item_id: placed.item_id as usize,
                            d_transf: ext_to_int_transformation(
                                placed.transformation,
                                pre_transforms@[placed.item_id as int],
                                math,
                            ),
                        },
                    )
                },
            },
    {
        let ghost target = next_place(layouts@, self.layout as int, self.item as int);
        let ghost given = *self;
        while self.layout < layouts.len() && self.item >= layouts[self.layout].placed_items.len()
            invariant
                target == next_place(layouts@, self.layout as int, self.item as int),
                self.layout == given.layout ==> *self == given,
                self.layout >= given.layout,
                self.layout != given.layout ==> self.open_layout is None,
            decreases layouts.len() - self.layout,
        {
            self.layout = self.layout + 1;
            self.item = 0;
            self.open_layout = None;
        }
        if self.layout >= layouts.len() {
            return None;
        }
        let layout_id: BPLayoutType = match self.open_layout {
            Some(key) => BPLayoutType::Open(key),
            None => BPLayoutType::Closed {
                bin_id: layouts[self.layout].container_id as usize,
            },
        };
        let placed: ExtPlacedItem = layouts[self.layout].placed_items[self.item];
        assert(layouts@[self.layout as int].placed_items@[self.item as int].item_id
            < pre_transforms@.len());
        let item_id: usize = placed.item_id as usize;
        let d_transf: DTransformation = ext_to_int_transformation(
            placed.transformation,
            pre_transforms[item_id],
            math,
        );
        Some(BPPlacement { layout_id, item_id, d_transf })
    }

    /// Takes note of the key of the layout in which the last placement was made.
    pub fn placed(&mut self, key: u64)
        requires
            old(self).item < usize::MAX,
        ensures
            *final(self) == (SolutionImport {
                item: (old(self).item + 1) as usize,
                open_layout: Some(key),
                ..*old(self)
            }),
    {
        self.item = self.item + 1;
        self.open_layout = Some(key);
    }
}

/// How many items are not placed yet, from the given place on.
pub open spec fn remaining(layouts: Seq<ExtLayout>, layout: int, item: int) -> nat
    decreases layouts.len() - layout,
{
    if layout < 0 || layout >= layouts.len() {
        0
    } else {
        let len = layouts[layout].placed_items@.len();
        remaining(layouts, layout + 1, 0) + (if item < len {
            (len - item) as nat
        } else {
            0
        })
    }
}

proof fn lemma_next_place_keeps_remaining(layouts: Seq<ExtLayout>, layout: int, item: int)
    requires
        layout >= 0,
        item >= 0,
    ensures
        match next_place(layouts, layout, item) {
            None => remaining(layouts, layout, item) == 0,
            Some((l, i)) => {
                &&& layout <= l < layouts.len()
                &&& l == layout ==> i == item
                &&& l != layout ==> i == 0
                &&& 0 <= i < layouts[l].placed_items@.len()
                &&& remaining(layouts, layout, item) == remaining(layouts, l, i)
            },
        },
    decreases layouts.len() - layout,
{
    if layout < layouts.len() && item >= layouts[layout].placed_items@.len() {
        lemma_next_place_keeps_remaining(layouts, layout + 1, 0);
    }
}

/// Every item is placed once: there is a next placement as long as an item remains, and after
/// it one item less remains.
pub proof fn every_item_is_placed_once(state: SolutionImport, layouts: Seq<ExtLayout>)
    requires
        layouts.len() <= usize::MAX,
        forall|i: int|
            0 <= i < layouts.len() ==> (#[trigger] layouts[i]).placed_items@.len() <= usize::MAX,
    ensures
        match state.spec_next(layouts) {
            None => remaining(layouts, state.layout as int, state.item as int) == 0,
            Some((reached, _, _)) => {
                &&& reached.item < usize::MAX
                &&& remaining(layouts, reached.layout as int, reached.item + 1) + 1 == remaining(
                    layouts,
                    state.layout as int,
                    state.item as int,
                )
            },
        },
{
    lemma_next_place_keeps_remaining(layouts, state.layout as int, state.item as int);
}

/// The first item of a layout opens it, and each further one goes to the layout in which the
/// one before it was placed.
pub proof fn items_of_a_layout_stay_together(
    state: SolutionImport,
    layouts: Seq<ExtLayout>,
    key: u64,
)
    requires
        state.layout < layouts.len() <= usize::MAX,
        state.item + 1 < layouts[state.layout as int].placed_items@.len() <= usize::MAX,
    ensures
        (SolutionImport {
            item: (state.item + 1) as usize,
            open_layout: Some(key),
            ..state
        }).spec_next(layouts) matches Some((_, layout_id, _)) && layout_id == BPLayoutType::Open(
            key,
        ),
{
}

impl SolutionImport {
    /// The state after the layout of the last placement has the given key.
    pub open spec fn after(self, key: u64) -> SolutionImport {
        SolutionImport { item: (self.item + 1) as usize, open_layout: Some(key), ..self }
    }
}

/// A placement of an item, whose transformation applies to the internal shape.
pub open spec fn placement_of<M: Fn(Elementary) -> Num>(
    layout_id: BPLayoutType,
    placed: ExtPlacedItem,
    pre_transforms: Seq<DTransformation>,
    math: &M,
) -> BPPlacement {
    BPPlacement {
        layout_id,
        item_id: placed.item_id as usize,
        d_transf: ext_to_int_transformation(
            placed.transformation,
            pre_transforms[placed.item_id as int],
            math,
        ),
    }
}

/// The placements bring the import from one state to another: each is the next one, and its
/// layout has the key that comes with it.
pub open spec fn leads_to<M: Fn(Elementary) -> Num>(
    layouts: Seq<ExtLayout>,
    pre_transforms: Seq<DTransformation>,
    from: SolutionImport,
    placements: Seq<(BPPlacement, u64)>,
    to: SolutionImport,
    math: &M,
) -> bool
    decreases placements.len(),
{
    if placements.len() == 0 {
        from == to
    } else {
        exists|before: SolutionImport|
            {
                &&& leads_to(
                    layouts,
                    pre_transforms,
                    from,
                    placements.drop_last(),
                    before,
                    math,
                )
                &&& #[trigger] before.spec_next(layouts) matches Some((reached, layout_id, placed))
                    && placements.last().0 == placement_of(layout_id, placed, pre_transforms, math)
                    && to == reached.after(placements.last().1)
            }
    }
}

/// Places all the items of a solution, one after the other, and gives back the placements
/// with the keys of the layouts in which they were made.
///
/// `place` makes a placement and says in which layout; `pre_transforms` holds for each item
/// the transformation that led to its internal shape.
pub fn import_solution<M: Fn(Elementary) -> Num, F: Fn(&BPPlacement) -> u64>(
    layouts: &[ExtLayout],
    pre_transforms: &[DTransformation],
    place: &F,
    math: &M,
) -> (r: Vec<(BPPlacement, u64)>)
    requires
        evaluates(math),
        forall|placement: &BPPlacement| #[trigger] call_requires(*place, (placement,)),
        forall|i: int, j: int|
            0 <= i < layouts@.len() && 0 <= j < layouts@[i].placed_items@.len() ==> (
            #[trigger] layouts@[i].placed_items@[j]).item_id < pre_transforms@.len(),
    ensures
        r@.len() == remaining(layouts@, 0, 0),
        exists|end: SolutionImport|
            leads_to(layouts@, pre_transforms@, begin_solution_import(), r@, end, math)
                && #[trigger] end.spec_next(layouts@) is None,
        forall|k: int|
            0 <= k < r@.len() ==> call_ensures(*place, (&(#[trigger] r@[k]).0,), r@[k].1),
{
    let mut state: SolutionImport = begin_solution_import();
    let mut placements: Vec<(BPPlacement, u64)> = Vec::new();
    loop
        invariant
            evaluates(math),
            forall|placement: &BPPlacement| #[trigger] call_requires(*place, (placement,)),
            forall|i: int, j: int|
                0 <= i < layouts@.len() && 0 <= j < layouts@[i].placed_items@.len() ==> (
                #[trigger] layouts@[i].placed_items@[j]).item_id < pre_transforms@.len(),
            leads_to(
                layouts@,
                pre_transforms@,
                begin_solution_import(),
                placements@,
                state,
                math,
            ),
            placements@.len() + remaining(layouts@, state.layout as int, state.item as int)
                == remaining(layouts@, 0, 0),
            forall|k: int|
                0 <= k < placements@.len() ==> call_ensures(
                    *place,
                    (&(#[trigger] placements@[k]).0,),
                    placements@[k].1,
                ),
        decreases remaining(layouts@, state.layout as int, state.item as int),
    {
        let ghost before = state;
        let ghost earlier = placements@;
        proof {
            lemma_next_place_keeps_remaining(layouts@, state.layout as int, state.item as int);
        }
        match state.next(layouts, pre_transforms, math) {
            None => {
                assert(before.spec_next(layouts@) is None);
                return placements;
            },
            Some(placement) => {
                let ghost n_items = layouts@[state.layout as int].placed_items.len();
                let ghost n_layouts = layouts.len();
                assert(remaining(layouts@, state.layout as int, state.item + 1) + 1 == remaining(
                    layouts@,
                    before.layout as int,
                    before.item as int,
                ));
                let key: u64 = place(&placement);
                let ghost reached = state;
                state.placed(key);
                placements.push((placement, key));
                proof {
                    assert(placements@.drop_last() =~= earlier);
                    assert(leads_to(
                        layouts@,
                        pre_transforms@,
                        begin_solution_import(),
                        placements@.drop_last(),
                        before,
                        math,
                    ));
                    let (found, layout_id, placed) = before.spec_next(layouts@)->0;
                    assert(found == reached);
                    assert(placement == placement_of(layout_id, placed, pre_transforms@, math));
                    assert(placements@.last() == (placement, key));
                    assert(state == reached.after(key));
                }
            },
        }
    }
}

} // verus!
