//! The bin packer. Rectangles are handed to the `rectangle-pack` crate, which
//! decides where each goes inside a square bin. Nothing here is proved: each
//! item states what the crate's source shows. None of them promises that the
//! locations are any good: the atlas checks every location it reads before
//! it relies on it.

use vstd::prelude::*;
use std::collections::BTreeMap;
use std::fmt::Debug;
use std::hash::Hash;
use rectangle_pack::{
    contains_smallest_box, pack_rects, volume_heuristic, GroupedRectsToPlace, RectToInsert,
    RectanglePackError, RectanglePackOk, TargetBin,
};

verus! {

/// `rectangle_pack::GroupedRectsToPlace`: the rectangles waiting to be packed,
/// by identifier.
#[verifier::external_type_specification]
#[verifier::external_body]
#[verifier::reject_recursive_types(RectToPlaceId)]
#[verifier::reject_recursive_types(GroupId)]
pub struct ExGroupedRectsToPlace<RectToPlaceId, GroupId>(
    GroupedRectsToPlace<RectToPlaceId, GroupId>,
) where
    RectToPlaceId: Debug + Hash + Eq + Ord + PartialOrd,
    GroupId: Debug + Hash + Eq + Ord + PartialOrd,
;

/// `rectangle_pack::RectanglePackOk`: where each rectangle of a successful
/// packing went.
#[verifier::external_type_specification]
#[verifier::external_body]
#[verifier::reject_recursive_types(RectToPlaceId)]
#[verifier::reject_recursive_types(BinId)]
pub struct ExRectanglePackOk<RectToPlaceId: PartialEq + Eq + Hash, BinId: PartialEq + Eq + Hash>(
    RectanglePackOk<RectToPlaceId, BinId>,
);

/// `rectangle_pack::RectanglePackError`: why a packing failed.
#[verifier::external_type_specification]
#[verifier::external_body]
pub struct ExRectanglePackError(RectanglePackError);

/// The rectangles that a `GroupedRectsToPlace` holds: for each identifier its
/// width and height.
pub uninterp spec fn rects_to_place(group: GroupedRectsToPlace<u32>) -> Map<u32, (u32, u32)>;

/// Every rectangle of the `GroupedRectsToPlace` was pushed without a group
/// and with a depth of one, so that its sizes say all there is to say of it.
pub uninterp spec fn ungrouped(group: GroupedRectsToPlace<u32>) -> bool;

/// The locations that a `RectanglePackOk` holds: for each identifier the
/// left, top, width and height of its rectangle.
pub uninterp spec fn packed_locations(packed: RectanglePackOk<u32, i32>) -> Map<
    u32,
    (u32, u32, u32, u32),
>;

/// What `rectangle_pack::pack_rects` answers, with the volume heuristic and
/// the smallest-box comparison, for the given rectangles and one bin of
/// `side` by `side`: the locations, or nothing where it finds no room.
pub uninterp spec fn pack_outcome(rects: Map<u32, (u32, u32)>, side: u32) -> Option<
    Map<u32, (u32, u32, u32, u32)>,
>;

/// No rectangle at all.
pub open spec fn no_rects() -> Map<u32, (u32, u32)> {
    Map::empty()
}

/// `GroupedRectsToPlace::new`: a collection that holds no rectangle.
#[verifier::external_body]
pub(crate) fn new_rects() -> (group: GroupedRectsToPlace<u32>)
    ensures
        rects_to_place(group) == no_rects(),
        ungrouped(group),
{
    GroupedRectsToPlace::new()
}

/// `GroupedRectsToPlace::push_rect`, with no group and a depth of one: the
/// rectangle is recorded under `id`, in place of an earlier one of that
/// identifier.
#[verifier::external_body]
pub(crate) fn push_rect(group: &mut GroupedRectsToPlace<u32>, id: u32, width: u32, height: u32)
    ensures
        rects_to_place(*final(group)) == rects_to_place(*old(group)).insert(id, (width, height)),
        ungrouped(*old(group)) ==> ungrouped(*final(group)),
{
    group.push_rect(id, None, RectToInsert::new(width, height, 1));
}

/// `rectangle_pack::pack_rects` into a single square bin of depth one. For
/// rectangles without groups the answer depends on their sizes and the side
/// alone: the crate walks them by their identifiers, sorted largest first
/// with a stable sort, and reads no clock, seed or address on the way.
#[verifier::external_body]
pub(crate) fn pack_square(group: &GroupedRectsToPlace<u32>, side: u32) -> (outcome: Result<
    RectanglePackOk<u32, i32>,
    RectanglePackError,
>)
    requires
        ungrouped(*group),
    ensures
        match outcome {
            Ok(packed) => pack_outcome(rects_to_place(*group), side) == Some(
                packed_locations(packed),
            ),
            Err(_) => pack_outcome(rects_to_place(*group), side) is None,
        },
{
    let mut bins = BTreeMap::new();
    bins.insert(0, TargetBin::new(side, side, 1));
    pack_rects(group, &mut bins, &volume_heuristic, &contains_smallest_box)
}

/// `RectanglePackOk::packed_locations`, looked up for one identifier: its
/// rectangle as left, top, width, height, if it was placed.
#[verifier::external_body]
pub(crate) fn location(packed: &RectanglePackOk<u32, i32>, id: u32) -> (found: Option<
    (u32, u32, u32, u32),
>)
    ensures
        found == (if packed_locations(*packed).contains_key(id) {
            Some(packed_locations(*packed)[id])
        } else {
            None
        }),
{
    match packed.packed_locations().get(&id) {
        Some((_, at)) => Some((at.x(), at.y(), at.width(), at.height())),
        None => None,
    }
}

} // verus!
