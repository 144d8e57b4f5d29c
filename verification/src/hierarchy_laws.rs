//! What the gathering keeps: every child under one parent, the boxes right,
//! and every pixel where it was.

use vstd::prelude::*;
use crate::continent::{
    province_box, realm_box, region_box,
    lemma_bounds_push, province_pixel_bounds, province_weight, provinces_pixel_count,
    realm_pixel_bounds, realm_weight, realms_pixel_count, region_pixel_bounds, region_weight,
    regions_pixel_count, ContinentView, ProvinceView, RealmView, RegionView,
};
use crate::grid::{lemma_put_at, lemma_put_pixel_count, GridView};
use crate::hierarchy::{
    adopt_province, adopt_provinces, adopt_realm, adopt_realms, adopt_region, adopt_regions,
    adopter, covers, grid_complete, grid_table, last_at, lemma_last_at_in_list,
    lemma_window_pick_on_grid, nearest_cell, province_keys, realm_keys, table_of, home_cell,
    ParentSlot,
};
use crate::point::{Point16, Size16};
use crate::sums::{lemma_sum_push, lemma_sum_update, seq_sum};

verus! {

/// The parent that adopts a child stands in the list of parents.
pub proof fn lemma_adopter_in_list(
    keys: Seq<(Point16, Point16)>,
    size: Size16,
    cell_size: Size16,
    site: Point16,
)
    requires
        covers(keys, size),
    ensures
        0 <= adopter(table_of(keys, size), size, cell_size, site) < keys.len(),
{
    let slots = table_of(keys, size);
    lemma_window_pick_on_grid(slots, size, home_cell(site, cell_size), site, 9);
    let cell = nearest_cell(slots, size, cell_size, site);
    assert(0 <= cell.0 < size.width && 0 <= cell.1 < size.height);
    assert(last_at(keys, cell.0, cell.1).is_some());
    lemma_last_at_in_list(keys, cell.0, cell.1);
}

/// The children that the parent at `parent` adopts, in their order.
pub open spec fn regions_adopted_by(
    regions: Seq<RegionView>,
    slots: Seq<Seq<ParentSlot>>,
    size: Size16,
    cell_size: Size16,
    parent: int,
) -> Seq<RegionView>
    decreases regions.len(),
{
    if regions.len() == 0 {
        Seq::empty()
    } else {
        let before = regions_adopted_by(regions.drop_last(), slots, size, cell_size, parent);
        if adopter(slots, size, cell_size, regions.last().site_point) == parent {
            before.push(regions.last())
        } else {
            before
        }
    }
}

pub open spec fn region_count() -> spec_fn(ProvinceView) -> nat {
    |province: ProvinceView| province.regions.len()
}

/// Every province ends up with the regions it had and, behind them, the
/// regions that it adopted, in their order, and with its box grown around
/// theirs; nothing else about it changes.  Every region is adopted by one
/// province of the list, so the provinces hold as many regions more as
/// there were to give away.
pub proof fn lemma_each_region_in_one_province(
    provinces: Seq<ProvinceView>,
    regions: Seq<RegionView>,
    size: Size16,
    cell_size: Size16,
)
    requires
        covers(province_keys(provinces), size),
    ensures
        ({
            let slots = table_of(province_keys(provinces), size);
            let after = adopt_regions(provinces, regions, slots, size, cell_size);
            &&& after.len() == provinces.len()
            &&& forall|i: int|
                0 <= i < regions.len() ==> 0 <= #[trigger] adopter(
                    slots,
                    size,
                    cell_size,
                    regions[i].site_point,
                ) < provinces.len()
            &&& forall|p: int|
                0 <= p < provinces.len() ==> #[trigger] after[p] == (ProvinceView {
                    regions: provinces[p].regions + regions_adopted_by(
                        regions,
                        slots,
                        size,
                        cell_size,
                        p,
                    ),
                    bottom_left: provinces[p].bounds().merge(
                        crate::continent::seq_bounds(
                            regions_adopted_by(regions, slots, size, cell_size, p),
                            region_box(),
                        ),
                    ).bottom_left,
                    top_right: provinces[p].bounds().merge(
                        crate::continent::seq_bounds(
                            regions_adopted_by(regions, slots, size, cell_size, p),
                            region_box(),
                        ),
                    ).top_right,
                    ..provinces[p]
                })
            &&& seq_sum(after, region_count()) == seq_sum(provinces, region_count()) + regions.len()
        }),
    decreases regions.len(),
{
    let slots = table_of(province_keys(provinces), size);
    let after = adopt_regions(provinces, regions, slots, size, cell_size);
    if regions.len() == 0 {
        assert forall|p: int| 0 <= p < provinces.len() implies provinces[p].regions
            + regions_adopted_by(regions, slots, size, cell_size, p) =~= provinces[p].regions by {}
    } else {
        let head = regions.drop_last();
        let child = regions.last();
        lemma_each_region_in_one_province(provinces, head, size, cell_size);
        lemma_adopter_in_list(province_keys(provinces), size, cell_size, child.site_point);
        let before = adopt_regions(provinces, head, slots, size, cell_size);
        let parent = adopter(slots, size, cell_size, child.site_point);
        assert forall|i: int| 0 <= i < regions.len() implies 0 <= #[trigger] adopter(
            slots,
            size,
            cell_size,
            regions[i].site_point,
        ) < provinces.len() by {
            if i < head.len() {
                assert(regions[i] == head[i]);
            }
        }
        assert forall|p: int| 0 <= p < provinces.len() implies #[trigger] after[p]
            == (ProvinceView {
            regions: provinces[p].regions + regions_adopted_by(regions, slots, size, cell_size, p),
            bottom_left: provinces[p].bounds().merge(
                crate::continent::seq_bounds(
                    regions_adopted_by(regions, slots, size, cell_size, p),
                    region_box(),
                ),
            ).bottom_left,
            top_right: provinces[p].bounds().merge(
                crate::continent::seq_bounds(
                    regions_adopted_by(regions, slots, size, cell_size, p),
                    region_box(),
                ),
            ).top_right,
            ..provinces[p]
        }) by {
            let had = regions_adopted_by(head, slots, size, cell_size, p);
            if p == parent {
                assert(after[p].regions =~= provinces[p].regions + had.push(child));
                lemma_bounds_push(had, child, region_box());
                crate::point::lemma_merge_laws(
                    provinces[p].bounds(),
                    crate::continent::seq_bounds(had, region_box()),
                    child.bounds(),
                );
            }
        }
        lemma_sum_update(before, parent, adopt_region(before[parent], child), region_count());
    }
}

/// Adoption keeps the boxes right: where the box of every province and of
/// every region is the smallest around the pixels beneath it, it is so
/// after the provinces adopted the regions.
pub proof fn lemma_adopt_regions_bounds(
    provinces: Seq<ProvinceView>,
    regions: Seq<RegionView>,
    size: Size16,
    cell_size: Size16,
)
    requires
        covers(province_keys(provinces), size),
        forall|p: int| 0 <= p < provinces.len() ==> (#[trigger] provinces[p]).bounds_exact(),
        forall|i: int| 0 <= i < regions.len() ==> (#[trigger] regions[i]).bounds_exact(),
    ensures
        ({
            let after = adopt_regions(
                provinces,
                regions,
                table_of(province_keys(provinces), size),
                size,
                cell_size,
            );
            &&& after.len() == provinces.len()
            &&& forall|p: int| 0 <= p < after.len() ==> (#[trigger] after[p]).bounds_exact()
        }),
    decreases regions.len(),
{
    let slots = table_of(province_keys(provinces), size);
    if regions.len() > 0 {
        let head = regions.drop_last();
        let child = regions.last();
        lemma_adopt_regions_bounds(provinces, head, size, cell_size);
        lemma_adopter_in_list(province_keys(provinces), size, cell_size, child.site_point);
        let before = adopt_regions(provinces, head, slots, size, cell_size);
        let parent = adopter(slots, size, cell_size, child.site_point);
        let grown = adopt_region(before[parent], child);
        lemma_bounds_push(before[parent].regions, child, region_pixel_bounds());
        assert forall|i: int| 0 <= i < grown.regions.len() implies (
        #[trigger] grown.regions[i]).bounds_exact() by {
            if i < before[parent].regions.len() {
                assert(grown.regions[i] == before[parent].regions[i]);
            }
        }
    }
}

/// Adoption moves pixels and makes none: the provinces hold a pixel as
/// often as they and the regions held it before.
pub proof fn lemma_adopt_regions_pixels(
    provinces: Seq<ProvinceView>,
    regions: Seq<RegionView>,
    size: Size16,
    cell_size: Size16,
    px: (u16, u16),
)
    requires
        covers(province_keys(provinces), size),
    ensures
        provinces_pixel_count(
            adopt_regions(
                provinces,
                regions,
                table_of(province_keys(provinces), size),
                size,
                cell_size,
            ),
            px,
        ) == provinces_pixel_count(provinces, px) + regions_pixel_count(regions, px),
        adopt_regions(
            provinces,
            regions,
            table_of(province_keys(provinces), size),
            size,
            cell_size,
        ).len() == provinces.len(),
    decreases regions.len(),
{
    let slots = table_of(province_keys(provinces), size);
    if regions.len() > 0 {
        let head = regions.drop_last();
        let child = regions.last();
        lemma_adopt_regions_pixels(provinces, head, size, cell_size, px);
        lemma_adopter_in_list(province_keys(provinces), size, cell_size, child.site_point);
        let before = adopt_regions(provinces, head, slots, size, cell_size);
        let parent = adopter(slots, size, cell_size, child.site_point);
        lemma_sum_update(before, parent, adopt_region(before[parent], child), province_weight(px));
        lemma_sum_push(before[parent].regions, child, region_weight(px));
    }
}

/// Adoption keeps the pixels on the canvas.
pub proof fn lemma_adopt_regions_within(
    provinces: Seq<ProvinceView>,
    regions: Seq<RegionView>,
    size: Size16,
    cell_size: Size16,
    canvas: Size16,
)
    requires
        covers(province_keys(provinces), size),
        forall|p: int| 0 <= p < provinces.len() ==> (#[trigger] provinces[p]).within(canvas),
        forall|i: int| 0 <= i < regions.len() ==> (#[trigger] regions[i]).within(canvas),
    ensures
        ({
            let after = adopt_regions(
                provinces,
                regions,
                table_of(province_keys(provinces), size),
                size,
                cell_size,
            );
            &&& after.len() == provinces.len()
            &&& forall|p: int| 0 <= p < after.len() ==> (#[trigger] after[p]).within(canvas)
        }),
    decreases regions.len(),
{
    let slots = table_of(province_keys(provinces), size);
    if regions.len() > 0 {
        let head = regions.drop_last();
        let child = regions.last();
        lemma_adopt_regions_within(provinces, head, size, cell_size, canvas);
        lemma_adopter_in_list(province_keys(provinces), size, cell_size, child.site_point);
        let before = adopt_regions(provinces, head, slots, size, cell_size);
        let parent = adopter(slots, size, cell_size, child.site_point);
        let grown = adopt_region(before[parent], child);
        assert forall|i: int| 0 <= i < grown.regions.len() implies (
        #[trigger] grown.regions[i]).within(canvas) by {
            if i < before[parent].regions.len() {
                assert(grown.regions[i] == before[parent].regions[i]);
            }
        }
    }
}

/// The children that the parent at `parent` adopts, in their order.
pub open spec fn provinces_adopted_by(
    provinces: Seq<ProvinceView>,
    slots: Seq<Seq<ParentSlot>>,
    size: Size16,
    cell_size: Size16,
    parent: int,
) -> Seq<ProvinceView>
    decreases provinces.len(),
{
    if provinces.len() == 0 {
        Seq::empty()
    } else {
        let before = provinces_adopted_by(provinces.drop_last(), slots, size, cell_size, parent);
        if adopter(slots, size, cell_size, provinces.last().site_point) == parent {
            before.push(provinces.last())
        } else {
            before
        }
    }
}

pub open spec fn province_count() -> spec_fn(RealmView) -> nat {
    |realm: RealmView| realm.provinces.len()
}

/// Every realm ends up with the provinces it had and, behind them, the
/// provinces that it adopted, in their order, and with its box grown
/// around theirs; nothing else about it changes.  Every province is adopted
/// by one realm of the list, so the realms hold as many provinces more as
/// there were to give away.
pub proof fn lemma_each_province_in_one_realm(
    realms: Seq<RealmView>,
    provinces: Seq<ProvinceView>,
    size: Size16,
    cell_size: Size16,
)
    requires
        covers(realm_keys(realms), size),
    ensures
        ({
            let slots = table_of(realm_keys(realms), size);
            let after = adopt_provinces(realms, provinces, slots, size, cell_size);
            &&& after.len() == realms.len()
            &&& forall|i: int|
                0 <= i < provinces.len() ==> 0 <= #[trigger] adopter(
                    slots,
                    size,
                    cell_size,
                    provinces[i].site_point,
                ) < realms.len()
            &&& forall|p: int|
                0 <= p < realms.len() ==> #[trigger] after[p] == (RealmView {
                    provinces: realms[p].provinces + provinces_adopted_by(
                        provinces,
                        slots,
                        size,
                        cell_size,
                        p,
                    ),
                    bottom_left: realms[p].bounds().merge(
                        crate::continent::seq_bounds(
                            provinces_adopted_by(provinces, slots, size, cell_size, p),
                            province_box(),
                        ),
                    ).bottom_left,
                    top_right: realms[p].bounds().merge(
                        crate::continent::seq_bounds(
                            provinces_adopted_by(provinces, slots, size, cell_size, p),
                            province_box(),
                        ),
                    ).top_right,
                    ..realms[p]
                })
            &&& seq_sum(after, province_count()) == seq_sum(realms, province_count()) + provinces.len()
        }),
    decreases provinces.len(),
{
    let slots = table_of(realm_keys(realms), size);
    let after = adopt_provinces(realms, provinces, slots, size, cell_size);
    if provinces.len() == 0 {
        assert forall|p: int| 0 <= p < realms.len() implies realms[p].provinces
            + provinces_adopted_by(provinces, slots, size, cell_size, p) =~= realms[p].provinces by {}
    } else {
        let head = provinces.drop_last();
        let child = provinces.last();
        lemma_each_province_in_one_realm(realms, head, size, cell_size);
        lemma_adopter_in_list(realm_keys(realms), size, cell_size, child.site_point);
        let before = adopt_provinces(realms, head, slots, size, cell_size);
        let parent = adopter(slots, size, cell_size, child.site_point);
        assert forall|i: int| 0 <= i < provinces.len() implies 0 <= #[trigger] adopter(
            slots,
            size,
            cell_size,
            provinces[i].site_point,
        ) < realms.len() by {
            if i < head.len() {
                assert(provinces[i] == head[i]);
            }
        }
        assert forall|p: int| 0 <= p < realms.len() implies #[trigger] after[p]
            == (RealmView {
            provinces: realms[p].provinces + provinces_adopted_by(provinces, slots, size, cell_size, p),
            bottom_left: realms[p].bounds().merge(
                crate::continent::seq_bounds(
                    provinces_adopted_by(provinces, slots, size, cell_size, p),
                    province_box(),
                ),
            ).bottom_left,
            top_right: realms[p].bounds().merge(
                crate::continent::seq_bounds(
                    provinces_adopted_by(provinces, slots, size, cell_size, p),
                    province_box(),
                ),
            ).top_right,
            ..realms[p]
        }) by {
            let had = provinces_adopted_by(head, slots, size, cell_size, p);
            if p == parent {
                assert(after[p].provinces =~= realms[p].provinces + had.push(child));
                lemma_bounds_push(had, child, province_box());
                crate::point::lemma_merge_laws(
                    realms[p].bounds(),
                    crate::continent::seq_bounds(had, province_box()),
                    child.bounds(),
                );
            }
        }
        lemma_sum_update(before, parent, adopt_province(before[parent], child), province_count());
    }
}

/// Adoption keeps the boxes right: where the box of every realm and of
/// everything beneath the provinces is the smallest around the pixels
/// beneath it, it is so after the realms adopted the provinces.
pub proof fn lemma_adopt_provinces_bounds(
    realms: Seq<RealmView>,
    provinces: Seq<ProvinceView>,
    size: Size16,
    cell_size: Size16,
)
    requires
        covers(realm_keys(realms), size),
        forall|p: int| 0 <= p < realms.len() ==> (#[trigger] realms[p]).bounds_exact(),
        forall|i: int| 0 <= i < provinces.len() ==> (#[trigger] provinces[i]).bounds_exact(),
    ensures
        ({
            let after = adopt_provinces(
                realms,
                provinces,
                table_of(realm_keys(realms), size),
                size,
                cell_size,
            );
            &&& after.len() == realms.len()
            &&& forall|p: int| 0 <= p < after.len() ==> (#[trigger] after[p]).bounds_exact()
        }),
    decreases provinces.len(),
{
    let slots = table_of(realm_keys(realms), size);
    if provinces.len() > 0 {
        let head = provinces.drop_last();
        let child = provinces.last();
        lemma_adopt_provinces_bounds(realms, head, size, cell_size);
        lemma_adopter_in_list(realm_keys(realms), size, cell_size, child.site_point);
        let before = adopt_provinces(realms, head, slots, size, cell_size);
        let parent = adopter(slots, size, cell_size, child.site_point);
        let grown = adopt_province(before[parent], child);
        lemma_bounds_push(before[parent].provinces, child, province_pixel_bounds());
        assert forall|i: int| 0 <= i < grown.provinces.len() implies (
        #[trigger] grown.provinces[i]).bounds_exact() by {
            if i < before[parent].provinces.len() {
                assert(grown.provinces[i] == before[parent].provinces[i]);
            }
        }
    }
}

/// Adoption moves pixels and makes none: the realms hold a pixel as often
/// as they and the provinces held it before.
pub proof fn lemma_adopt_provinces_pixels(
    realms: Seq<RealmView>,
    provinces: Seq<ProvinceView>,
    size: Size16,
    cell_size: Size16,
    px: (u16, u16),
)
    requires
        covers(realm_keys(realms), size),
    ensures
        realms_pixel_count(
            adopt_provinces(
                realms,
                provinces,
                table_of(realm_keys(realms), size),
                size,
                cell_size,
            ),
            px,
        ) == realms_pixel_count(realms, px) + provinces_pixel_count(provinces, px),
        adopt_provinces(
            realms,
            provinces,
            table_of(realm_keys(realms), size),
            size,
            cell_size,
        ).len() == realms.len(),
    decreases provinces.len(),
{
    let slots = table_of(realm_keys(realms), size);
    if provinces.len() > 0 {
        let head = provinces.drop_last();
        let child = provinces.last();
        lemma_adopt_provinces_pixels(realms, head, size, cell_size, px);
        lemma_adopter_in_list(realm_keys(realms), size, cell_size, child.site_point);
        let before = adopt_provinces(realms, head, slots, size, cell_size);
        let parent = adopter(slots, size, cell_size, child.site_point);
        lemma_sum_update(before, parent, adopt_province(before[parent], child), realm_weight(px));
        lemma_sum_push(before[parent].provinces, child, province_weight(px));
    }
}

/// Adoption keeps the pixels on the canvas.
pub proof fn lemma_adopt_provinces_within(
    realms: Seq<RealmView>,
    provinces: Seq<ProvinceView>,
    size: Size16,
    cell_size: Size16,
    canvas: Size16,
)
    requires
        covers(realm_keys(realms), size),
        forall|p: int| 0 <= p < realms.len() ==> (#[trigger] realms[p]).within(canvas),
        forall|i: int| 0 <= i < provinces.len() ==> (#[trigger] provinces[i]).within(canvas),
    ensures
        ({
            let after = adopt_provinces(
                realms,
                provinces,
                table_of(realm_keys(realms), size),
                size,
                cell_size,
            );
            &&& after.len() == realms.len()
            &&& forall|p: int| 0 <= p < after.len() ==> (#[trigger] after[p]).within(canvas)
        }),
    decreases provinces.len(),
{
    let slots = table_of(realm_keys(realms), size);
    if provinces.len() > 0 {
        let head = provinces.drop_last();
        let child = provinces.last();
        lemma_adopt_provinces_within(realms, head, size, cell_size, canvas);
        lemma_adopter_in_list(realm_keys(realms), size, cell_size, child.site_point);
        let before = adopt_provinces(realms, head, slots, size, cell_size);
        let parent = adopter(slots, size, cell_size, child.site_point);
        let grown = adopt_province(before[parent], child);
        assert forall|i: int| 0 <= i < grown.provinces.len() implies (
        #[trigger] grown.provinces[i]).within(canvas) by {
            if i < before[parent].provinces.len() {
                assert(grown.provinces[i] == before[parent].provinces[i]);
            }
        }
    }
}


/// The realms that the continent at cell `(x, y)` adopts, in their order.
pub open spec fn realms_adopted_at(
    realms: Seq<RealmView>,
    slots: Seq<Seq<ParentSlot>>,
    size: Size16,
    cell_size: Size16,
    x: int,
    y: int,
) -> Seq<RealmView>
    decreases realms.len(),
{
    if realms.len() == 0 {
        Seq::empty()
    } else {
        let before = realms_adopted_at(realms.drop_last(), slots, size, cell_size, x, y);
        if nearest_cell(slots, size, cell_size, realms.last().site_point) == (x, y) {
            before.push(realms.last())
        } else {
            before
        }
    }
}

/// The continent that adopts a realm stands on the grid.
pub proof fn lemma_nearest_cell_on_grid(
    slots: Seq<Seq<ParentSlot>>,
    size: Size16,
    cell_size: Size16,
    site: Point16,
)
    requires
        size.width > 0,
        size.height > 0,
    ensures
        0 <= nearest_cell(slots, size, cell_size, site).0 < size.width,
        0 <= nearest_cell(slots, size, cell_size, site).1 < size.height,
{
    lemma_window_pick_on_grid(slots, size, home_cell(site, cell_size), site, 9);
}

/// Every continent ends up with the realms it had and, behind them, the
/// realms that it adopted, in their order, and with its box grown around
/// theirs; nothing else about it changes, and the grid stays complete.
/// Every realm is adopted by the continent of one cell of the grid.
pub proof fn lemma_each_realm_in_one_continent(
    grid: GridView,
    realms: Seq<RealmView>,
    cell_size: Size16,
)
    requires
        grid_complete(grid),
    ensures
        ({
            let slots = grid_table(grid);
            let after = adopt_realms(grid, realms, slots, cell_size);
            &&& grid_complete(after)
            &&& after.size == grid.size
            &&& forall|i: int|
                0 <= i < realms.len() ==> grid.has_cell(
                    (#[trigger] nearest_cell(slots, grid.size, cell_size, realms[i].site_point)).0,
                    nearest_cell(slots, grid.size, cell_size, realms[i].site_point).1,
                )
            &&& forall|x: int, y: int|
                grid.has_cell(x, y) ==> #[trigger] after.at(x, y) == Some(
                    ContinentView {
                        realms: grid.at(x, y).unwrap().realms + realms_adopted_at(
                            realms,
                            slots,
                            grid.size,
                            cell_size,
                            x,
                            y,
                        ),
                        bottom_left: grid.at(x, y).unwrap().bounds().merge(
                            crate::continent::seq_bounds(
                                realms_adopted_at(realms, slots, grid.size, cell_size, x, y),
                                realm_box(),
                            ),
                        ).bottom_left,
                        top_right: grid.at(x, y).unwrap().bounds().merge(
                            crate::continent::seq_bounds(
                                realms_adopted_at(realms, slots, grid.size, cell_size, x, y),
                                realm_box(),
                            ),
                        ).top_right,
                        ..grid.at(x, y).unwrap()
                    },
                )
        }),
    decreases realms.len(),
{
    let slots = grid_table(grid);
    let after = adopt_realms(grid, realms, slots, cell_size);
    if realms.len() == 0 {
        assert forall|x: int, y: int| grid.has_cell(x, y) implies grid.at(x, y).unwrap().realms
            + realms_adopted_at(realms, slots, grid.size, cell_size, x, y) =~= grid.at(
            x,
            y,
        ).unwrap().realms by {}
        assert forall|x: int, y: int| grid.has_cell(x, y) implies (#[trigger] grid.at(
            x,
            y,
        )).is_some() by {}
    } else {
        let head = realms.drop_last();
        let child = realms.last();
        lemma_each_realm_in_one_continent(grid, head, cell_size);
        lemma_nearest_cell_on_grid(slots, grid.size, cell_size, child.site_point);
        let before = adopt_realms(grid, head, slots, cell_size);
        let cell = nearest_cell(slots, grid.size, cell_size, child.site_point);
        let grown = adopt_realm(before.at(cell.0, cell.1).unwrap(), child);
        lemma_put_at(before, cell.0, cell.1, Some(grown));
        assert forall|i: int| 0 <= i < realms.len() implies grid.has_cell(
            (#[trigger] nearest_cell(slots, grid.size, cell_size, realms[i].site_point)).0,
            nearest_cell(slots, grid.size, cell_size, realms[i].site_point).1,
        ) by {
            if i < head.len() {
                assert(realms[i] == head[i]);
            }
        }
        assert forall|x: int, y: int| grid.has_cell(x, y) implies #[trigger] after.at(x, y)
            == Some(
            ContinentView {
                realms: grid.at(x, y).unwrap().realms + realms_adopted_at(
                    realms,
                    slots,
                    grid.size,
                    cell_size,
                    x,
                    y,
                ),
                bottom_left: grid.at(x, y).unwrap().bounds().merge(
                    crate::continent::seq_bounds(
                        realms_adopted_at(realms, slots, grid.size, cell_size, x, y),
                        realm_box(),
                    ),
                ).bottom_left,
                top_right: grid.at(x, y).unwrap().bounds().merge(
                    crate::continent::seq_bounds(
                        realms_adopted_at(realms, slots, grid.size, cell_size, x, y),
                        realm_box(),
                    ),
                ).top_right,
                ..grid.at(x, y).unwrap()
            },
        ) by {
            let had = realms_adopted_at(head, slots, grid.size, cell_size, x, y);
            assert(before.has_cell(x, y));
            let earlier = before.at(x, y);
            if (x, y) == cell {
                assert(after.at(x, y).unwrap().realms =~= grid.at(x, y).unwrap().realms + had.push(
                    child,
                ));
                lemma_bounds_push(had, child, realm_box());
                crate::point::lemma_merge_laws(
                    grid.at(x, y).unwrap().bounds(),
                    crate::continent::seq_bounds(had, realm_box()),
                    child.bounds(),
                );
            }
        }
        assert forall|x: int, y: int| after.has_cell(x, y) implies (#[trigger] after.at(
            x,
            y,
        )).is_some() by {
            assert(grid.has_cell(x, y));
        }
    }
}

/// Adoption keeps the boxes right: where the box of every continent and of
/// everything beneath the realms is the smallest around the pixels beneath
/// it, it is so after the continents adopted the realms.
pub proof fn lemma_adopt_realms_bounds(grid: GridView, realms: Seq<RealmView>, cell_size: Size16)
    requires
        grid_complete(grid),
        forall|x: int, y: int|
            grid.has_cell(x, y) ==> (#[trigger] grid.at(x, y)).unwrap().bounds_exact(),
        forall|i: int| 0 <= i < realms.len() ==> (#[trigger] realms[i]).bounds_exact(),
    ensures
        ({
            let after = adopt_realms(grid, realms, grid_table(grid), cell_size);
            &&& grid_complete(after)
            &&& after.size == grid.size
            &&& forall|x: int, y: int|
                after.has_cell(x, y) ==> (#[trigger] after.at(x, y)).unwrap().bounds_exact()
        }),
    decreases realms.len(),
{
    let slots = grid_table(grid);
    lemma_each_realm_in_one_continent(grid, realms, cell_size);
    if realms.len() > 0 {
        let head = realms.drop_last();
        let child = realms.last();
        lemma_adopt_realms_bounds(grid, head, cell_size);
        lemma_nearest_cell_on_grid(slots, grid.size, cell_size, child.site_point);
        let before = adopt_realms(grid, head, slots, cell_size);
        let after = adopt_realms(grid, realms, slots, cell_size);
        let cell = nearest_cell(slots, grid.size, cell_size, child.site_point);
        assert(before.has_cell(cell.0, cell.1));
        let parent = before.at(cell.0, cell.1).unwrap();
        let grown = adopt_realm(parent, child);
        lemma_put_at(before, cell.0, cell.1, Some(grown));
        lemma_bounds_push(parent.realms, child, realm_pixel_bounds());
        assert forall|i: int| 0 <= i < grown.realms.len() implies (
        #[trigger] grown.realms[i]).bounds_exact() by {
            if i < parent.realms.len() {
                assert(grown.realms[i] == parent.realms[i]);
            }
        }
        assert forall|x: int, y: int| after.has_cell(x, y) implies (#[trigger] after.at(
            x,
            y,
        )).unwrap().bounds_exact() by {
            assert(before.has_cell(x, y));
            let earlier = before.at(x, y);
        }
    }
}

/// Adoption moves pixels and makes none: the grid holds a pixel as often as
/// it and the realms held it before.
pub proof fn lemma_adopt_realms_pixels(
    grid: GridView,
    realms: Seq<RealmView>,
    cell_size: Size16,
    px: (u16, u16),
)
    requires
        grid_complete(grid),
    ensures
        adopt_realms(grid, realms, grid_table(grid), cell_size).pixel_count(px) == grid.pixel_count(
            px,
        ) + realms_pixel_count(realms, px),
    decreases realms.len(),
{
    let slots = grid_table(grid);
    lemma_each_realm_in_one_continent(grid, realms, cell_size);
    if realms.len() > 0 {
        let head = realms.drop_last();
        let child = realms.last();
        lemma_adopt_realms_pixels(grid, head, cell_size, px);
        lemma_each_realm_in_one_continent(grid, head, cell_size);
        lemma_nearest_cell_on_grid(slots, grid.size, cell_size, child.site_point);
        let before = adopt_realms(grid, head, slots, cell_size);
        let cell = nearest_cell(slots, grid.size, cell_size, child.site_point);
        assert(before.has_cell(cell.0, cell.1));
        let parent = before.at(cell.0, cell.1).unwrap();
        lemma_put_pixel_count(before, cell.0, cell.1, Some(adopt_realm(parent, child)), px);
        lemma_sum_push(parent.realms, child, realm_weight(px));
    }
}

/// Adoption keeps the pixels on the canvas.
pub proof fn lemma_adopt_realms_within(
    grid: GridView,
    realms: Seq<RealmView>,
    cell_size: Size16,
    canvas: Size16,
)
    requires
        grid_complete(grid),
        forall|x: int, y: int|
            grid.has_cell(x, y) ==> (#[trigger] grid.at(x, y)).unwrap().within(canvas),
        forall|i: int| 0 <= i < realms.len() ==> (#[trigger] realms[i]).within(canvas),
    ensures
        ({
            let after = adopt_realms(grid, realms, grid_table(grid), cell_size);
            &&& grid_complete(after)
            &&& forall|x: int, y: int|
                after.has_cell(x, y) ==> (#[trigger] after.at(x, y)).unwrap().within(canvas)
        }),
    decreases realms.len(),
{
    let slots = grid_table(grid);
    lemma_each_realm_in_one_continent(grid, realms, cell_size);
    if realms.len() > 0 {
        let head = realms.drop_last();
        let child = realms.last();
        lemma_adopt_realms_within(grid, head, cell_size, canvas);
        lemma_each_realm_in_one_continent(grid, head, cell_size);
        lemma_nearest_cell_on_grid(slots, grid.size, cell_size, child.site_point);
        let before = adopt_realms(grid, head, slots, cell_size);
        let after = adopt_realms(grid, realms, slots, cell_size);
        let cell = nearest_cell(slots, grid.size, cell_size, child.site_point);
        assert(before.has_cell(cell.0, cell.1));
        let parent = before.at(cell.0, cell.1).unwrap();
        let grown = adopt_realm(parent, child);
        lemma_put_at(before, cell.0, cell.1, Some(grown));
        assert forall|i: int| 0 <= i < grown.realms.len() implies (
        #[trigger] grown.realms[i]).within(canvas) by {
            if i < parent.realms.len() {
                assert(grown.realms[i] == parent.realms[i]);
            }
        }
        assert forall|x: int, y: int| after.has_cell(x, y) implies (#[trigger] after.at(
            x,
            y,
        )).unwrap().within(canvas) by {
            assert(before.has_cell(x, y));
            let earlier = before.at(x, y);
        }
    }
}

} // verus!
