//! What the removal of pixels from a continent guarantees.

use vstd::prelude::*;
use crate::continent::{
    province_weight, provinces_pixel_count, realm_weight, realms_pixel_count, region_weight,
    regions_pixel_count, ContinentView, ProvinceView, RealmView, RegionView,
};
use crate::pixels_utils::{
    flagged, flat_pixels, flat_provinces, flat_realms, flat_regions, fresh_pixels, noted,
    noted_provinces, noted_realms, noted_regions, removes, sifted_continent, sifted_province,
    sifted_provinces, sifted_realm, sifted_realms, sifted_region, sifted_regions, unflagged, Sift,
};
use crate::point::{lemma_of_pixels_concat, Bounds};
use crate::sums::{
    is_pixel, lemma_occurrences_contains, lemma_sum_concat, lemma_sum_push, occurrences,
};

verus! {

/// A walk removes pixels and adds none.
pub proof fn lemma_fresh_pixels_fewer(
    marks: Map<(u16, u16), bool>,
    pixels: Seq<(u16, u16)>,
    rule: Sift,
    px: (u16, u16),
)
    ensures
        occurrences(fresh_pixels(marks, pixels, rule), px) <= occurrences(pixels, px),
    decreases pixels.len(),
{
    if pixels.len() > 0 {
        lemma_fresh_pixels_fewer(marks, pixels.drop_last(), rule, px);
        lemma_sum_push(fresh_pixels(marks, pixels.drop_last(), rule), pixels.last(), is_pixel(px));
    }
}

pub proof fn lemma_sifted_regions_fewer(
    marks: Map<(u16, u16), bool>,
    regions: Seq<RegionView>,
    rule: Sift,
    px: (u16, u16),
)
    ensures
        regions_pixel_count(sifted_regions(marks, regions, rule), px) <= regions_pixel_count(
            regions,
            px,
        ),
    decreases regions.len(),
{
    if regions.len() > 0 {
        let head = regions.drop_last();
        lemma_sifted_regions_fewer(marks, head, rule, px);
        let before = noted_regions(marks, head, rule);
        lemma_fresh_pixels_fewer(before, regions.last().pixels, rule, px);
        lemma_sum_push(
            sifted_regions(marks, head, rule),
            sifted_region(regions.last(), before, rule),
            region_weight(px),
        );
    }
}

pub proof fn lemma_sifted_provinces_fewer(
    marks: Map<(u16, u16), bool>,
    provinces: Seq<ProvinceView>,
    rule: Sift,
    px: (u16, u16),
)
    ensures
        provinces_pixel_count(sifted_provinces(marks, provinces, rule), px)
            <= provinces_pixel_count(provinces, px),
    decreases provinces.len(),
{
    if provinces.len() > 0 {
        let head = provinces.drop_last();
        lemma_sifted_provinces_fewer(marks, head, rule, px);
        let before = noted_provinces(marks, head, rule);
        lemma_sifted_regions_fewer(before, provinces.last().regions, rule, px);
        lemma_sum_push(
            sifted_provinces(marks, head, rule),
            sifted_province(provinces.last(), before, rule),
            province_weight(px),
        );
    }
}

pub proof fn lemma_sifted_realms_fewer(
    marks: Map<(u16, u16), bool>,
    realms: Seq<RealmView>,
    rule: Sift,
    px: (u16, u16),
)
    ensures
        realms_pixel_count(sifted_realms(marks, realms, rule), px) <= realms_pixel_count(realms, px),
    decreases realms.len(),
{
    if realms.len() > 0 {
        let head = realms.drop_last();
        lemma_sifted_realms_fewer(marks, head, rule, px);
        let before = noted_realms(marks, head, rule);
        lemma_sifted_provinces_fewer(before, realms.last().provinces, rule, px);
        lemma_sum_push(
            sifted_realms(marks, head, rule),
            sifted_realm(realms.last(), before, rule),
            realm_weight(px),
        );
    }
}

/// A walk over a continent removes pixels and adds none: the continent
/// holds no pixel more often than before.
pub proof fn lemma_sifted_continent_fewer(
    continent: ContinentView,
    marks: Map<(u16, u16), bool>,
    rule: Sift,
    px: (u16, u16),
)
    ensures
        sifted_continent(continent, marks, rule).pixel_count(px) <= continent.pixel_count(px),
{
    lemma_sifted_realms_fewer(marks, continent.realms, rule, px);
}

pub proof fn lemma_sifted_regions_populated(
    marks: Map<(u16, u16), bool>,
    regions: Seq<RegionView>,
    rule: Sift,
)
    ensures
        forall|i: int|
            0 <= i < sifted_regions(marks, regions, rule).len() ==> (#[trigger] sifted_regions(
                marks,
                regions,
                rule,
            )[i]).populated(),
    decreases regions.len(),
{
    if regions.len() > 0 {
        lemma_sifted_regions_populated(marks, regions.drop_last(), rule);
        let kept = sifted_regions(marks, regions.drop_last(), rule);
        let all = sifted_regions(marks, regions, rule);
        assert forall|i: int| 0 <= i < all.len() implies (#[trigger] all[i]).populated() by {
            if i < kept.len() {
                assert(all[i] == kept[i]);
            }
        }
    }
}

pub proof fn lemma_sifted_provinces_populated(
    marks: Map<(u16, u16), bool>,
    provinces: Seq<ProvinceView>,
    rule: Sift,
)
    ensures
        forall|i: int|
            0 <= i < sifted_provinces(marks, provinces, rule).len() ==> (#[trigger] sifted_provinces(
                marks,
                provinces,
                rule,
            )[i]).populated(),
    decreases provinces.len(),
{
    if provinces.len() > 0 {
        let head = provinces.drop_last();
        lemma_sifted_provinces_populated(marks, head, rule);
        lemma_sifted_regions_populated(
            noted_provinces(marks, head, rule),
            provinces.last().regions,
            rule,
        );
        let kept = sifted_provinces(marks, head, rule);
        let all = sifted_provinces(marks, provinces, rule);
        assert forall|i: int| 0 <= i < all.len() implies (#[trigger] all[i]).populated() by {
            if i < kept.len() {
                assert(all[i] == kept[i]);
            }
        }
    }
}

pub proof fn lemma_sifted_realms_populated(
    marks: Map<(u16, u16), bool>,
    realms: Seq<RealmView>,
    rule: Sift,
)
    ensures
        forall|i: int|
            0 <= i < sifted_realms(marks, realms, rule).len() ==> (#[trigger] sifted_realms(
                marks,
                realms,
                rule,
            )[i]).populated(),
    decreases realms.len(),
{
    if realms.len() > 0 {
        let head = realms.drop_last();
        lemma_sifted_realms_populated(marks, head, rule);
        lemma_sifted_provinces_populated(
            noted_realms(marks, head, rule),
            realms.last().provinces,
            rule,
        );
        let kept = sifted_realms(marks, head, rule);
        let all = sifted_realms(marks, realms, rule);
        assert forall|i: int| 0 <= i < all.len() implies (#[trigger] all[i]).populated() by {
            if i < kept.len() {
                assert(all[i] == kept[i]);
            }
        }
    }
}

/// A walk leaves every box that stays the smallest around the pixels
/// beneath it.
pub proof fn lemma_sifted_regions_exact(
    marks: Map<(u16, u16), bool>,
    regions: Seq<RegionView>,
    rule: Sift,
)
    ensures
        forall|i: int|
            0 <= i < sifted_regions(marks, regions, rule).len() ==> (#[trigger] sifted_regions(
                marks,
                regions,
                rule,
            )[i]).bounds_exact(),
    decreases regions.len(),
{
    if regions.len() > 0 {
        lemma_sifted_regions_exact(marks, regions.drop_last(), rule);
        let kept = sifted_regions(marks, regions.drop_last(), rule);
        let all = sifted_regions(marks, regions, rule);
        assert forall|i: int| 0 <= i < all.len() implies (#[trigger] all[i]).bounds_exact() by {
            if i < kept.len() {
                assert(all[i] == kept[i]);
            }
        }
    }
}

pub proof fn lemma_sifted_provinces_exact(
    marks: Map<(u16, u16), bool>,
    provinces: Seq<ProvinceView>,
    rule: Sift,
)
    ensures
        forall|i: int|
            0 <= i < sifted_provinces(marks, provinces, rule).len() ==> (#[trigger] sifted_provinces(
                marks,
                provinces,
                rule,
            )[i]).bounds_exact(),
    decreases provinces.len(),
{
    if provinces.len() > 0 {
        let head = provinces.drop_last();
        lemma_sifted_provinces_exact(marks, head, rule);
        lemma_sifted_regions_exact(
            noted_provinces(marks, head, rule),
            provinces.last().regions,
            rule,
        );
        let kept = sifted_provinces(marks, head, rule);
        let all = sifted_provinces(marks, provinces, rule);
        assert forall|i: int| 0 <= i < all.len() implies (#[trigger] all[i]).bounds_exact() by {
            if i < kept.len() {
                assert(all[i] == kept[i]);
            }
        }
    }
}

pub proof fn lemma_sifted_realms_exact(
    marks: Map<(u16, u16), bool>,
    realms: Seq<RealmView>,
    rule: Sift,
)
    ensures
        forall|i: int|
            0 <= i < sifted_realms(marks, realms, rule).len() ==> (#[trigger] sifted_realms(
                marks,
                realms,
                rule,
            )[i]).bounds_exact(),
    decreases realms.len(),
{
    if realms.len() > 0 {
        let head = realms.drop_last();
        lemma_sifted_realms_exact(marks, head, rule);
        lemma_sifted_provinces_exact(
            noted_realms(marks, head, rule),
            realms.last().provinces,
            rule,
        );
        let kept = sifted_realms(marks, head, rule);
        let all = sifted_realms(marks, realms, rule);
        assert forall|i: int| 0 <= i < all.len() implies (#[trigger] all[i]).bounds_exact() by {
            if i < kept.len() {
                assert(all[i] == kept[i]);
            }
        }
    }
}

/// After a walk every box of the continent, its own and those beneath it,
/// is the smallest around the pixels that stayed.
pub proof fn lemma_sifted_continent_exact(
    continent: ContinentView,
    marks: Map<(u16, u16), bool>,
    rule: Sift,
)
    ensures
        sifted_continent(continent, marks, rule).bounds_exact(),
{
    lemma_sifted_realms_exact(marks, continent.realms, rule);
}

/// A walk leaves nothing vacant beneath the continent: every realm that
/// stays has a province, every province a region, every region a pixel.
pub proof fn lemma_sifted_continent_pruned(
    continent: ContinentView,
    marks: Map<(u16, u16), bool>,
    rule: Sift,
)
    ensures
        sifted_continent(continent, marks, rule).pruned(),
{
    lemma_sifted_realms_populated(marks, continent.realms, rule);
}

/// Whether a walk that started from the marks `before` and ended with the
/// marks `after` has noted the pixel `px`.
pub open spec fn newly_noted(
    before: Map<(u16, u16), bool>,
    after: Map<(u16, u16), bool>,
    px: (u16, u16),
) -> nat {
    if after.contains_key(px) && !before.contains_key(px) {
        1
    } else {
        0
    }
}

/// A noting walk over a pixel list keeps every pixel that it notes once,
/// and no other; and it forgets no mark.
pub proof fn lemma_fresh_pixels_once(
    marks: Map<(u16, u16), bool>,
    pixels: Seq<(u16, u16)>,
    px: (u16, u16),
)
    ensures
        occurrences(fresh_pixels(marks, pixels, Sift::HeldNoting), px) == newly_noted(
            marks,
            noted(marks, pixels, Sift::HeldNoting),
            px,
        ),
        marks.contains_key(px) ==> noted(marks, pixels, Sift::HeldNoting).contains_key(px),
    decreases pixels.len(),
{
    if pixels.len() > 0 {
        lemma_fresh_pixels_once(marks, pixels.drop_last(), px);
        lemma_sum_push(
            fresh_pixels(marks, pixels.drop_last(), Sift::HeldNoting),
            pixels.last(),
            is_pixel(px),
        );
    }
}

pub proof fn lemma_sifted_regions_once(
    marks: Map<(u16, u16), bool>,
    regions: Seq<RegionView>,
    px: (u16, u16),
)
    ensures
        regions_pixel_count(sifted_regions(marks, regions, Sift::HeldNoting), px) == newly_noted(
            marks,
            noted_regions(marks, regions, Sift::HeldNoting),
            px,
        ),
        marks.contains_key(px) ==> noted_regions(marks, regions, Sift::HeldNoting).contains_key(px),
    decreases regions.len(),
{
    if regions.len() > 0 {
        let head = regions.drop_last();
        lemma_sifted_regions_once(marks, head, px);
        let before = noted_regions(marks, head, Sift::HeldNoting);
        lemma_fresh_pixels_once(before, regions.last().pixels, px);
        lemma_sum_push(
            sifted_regions(marks, head, Sift::HeldNoting),
            sifted_region(regions.last(), before, Sift::HeldNoting),
            region_weight(px),
        );
    }
}

pub proof fn lemma_sifted_provinces_once(
    marks: Map<(u16, u16), bool>,
    provinces: Seq<ProvinceView>,
    px: (u16, u16),
)
    ensures
        provinces_pixel_count(sifted_provinces(marks, provinces, Sift::HeldNoting), px)
            == newly_noted(marks, noted_provinces(marks, provinces, Sift::HeldNoting), px),
        marks.contains_key(px) ==> noted_provinces(marks, provinces, Sift::HeldNoting).contains_key(
            px,
        ),
    decreases provinces.len(),
{
    if provinces.len() > 0 {
        let head = provinces.drop_last();
        lemma_sifted_provinces_once(marks, head, px);
        let before = noted_provinces(marks, head, Sift::HeldNoting);
        lemma_sifted_regions_once(before, provinces.last().regions, px);
        lemma_sum_push(
            sifted_provinces(marks, head, Sift::HeldNoting),
            sifted_province(provinces.last(), before, Sift::HeldNoting),
            province_weight(px),
        );
    }
}

pub proof fn lemma_sifted_realms_once(
    marks: Map<(u16, u16), bool>,
    realms: Seq<RealmView>,
    px: (u16, u16),
)
    ensures
        realms_pixel_count(sifted_realms(marks, realms, Sift::HeldNoting), px) == newly_noted(
            marks,
            noted_realms(marks, realms, Sift::HeldNoting),
            px,
        ),
        marks.contains_key(px) ==> noted_realms(marks, realms, Sift::HeldNoting).contains_key(px),
    decreases realms.len(),
{
    if realms.len() > 0 {
        let head = realms.drop_last();
        lemma_sifted_realms_once(marks, head, px);
        let before = noted_realms(marks, head, Sift::HeldNoting);
        lemma_sifted_provinces_once(before, realms.last().provinces, px);
        lemma_sum_push(
            sifted_realms(marks, head, Sift::HeldNoting),
            sifted_realm(realms.last(), before, Sift::HeldNoting),
            realm_weight(px),
        );
    }
}

/// After a noting walk a continent holds no pixel twice, and none that
/// the marks held before the walk.
pub proof fn lemma_noting_walk_holds_once(
    continent: ContinentView,
    marks: Map<(u16, u16), bool>,
    px: (u16, u16),
)
    ensures
        sifted_continent(continent, marks, Sift::HeldNoting).pixel_count(px) <= 1,
        marks.contains_key(px) ==> sifted_continent(continent, marks, Sift::HeldNoting).pixel_count(
            px,
        ) == 0,
{
    lemma_sifted_realms_once(marks, continent.realms, px);
}

/// A walk that leaves the marks alone leaves the continent with no pixel
/// that it removes on sight.
pub proof fn lemma_fresh_pixels_removed(
    marks: Map<(u16, u16), bool>,
    pixels: Seq<(u16, u16)>,
    rule: Sift,
    px: (u16, u16),
)
    requires
        rule != Sift::HeldNoting,
        removes(marks, px, rule),
    ensures
        occurrences(fresh_pixels(marks, pixels, rule), px) == 0,
    decreases pixels.len(),
{
    if pixels.len() > 0 {
        lemma_fresh_pixels_removed(marks, pixels.drop_last(), rule, px);
        lemma_sum_push(fresh_pixels(marks, pixels.drop_last(), rule), pixels.last(), is_pixel(px));
    }
}

pub proof fn lemma_sifted_regions_removed(
    marks: Map<(u16, u16), bool>,
    regions: Seq<RegionView>,
    rule: Sift,
    px: (u16, u16),
)
    requires
        rule != Sift::HeldNoting,
        removes(marks, px, rule),
    ensures
        regions_pixel_count(sifted_regions(marks, regions, rule), px) == 0,
    decreases regions.len(),
{
    if regions.len() > 0 {
        let head = regions.drop_last();
        lemma_sifted_regions_removed(marks, head, rule, px);
        crate::pixels_utils::lemma_noted_regions_same(marks, head, rule);
        lemma_fresh_pixels_removed(marks, regions.last().pixels, rule, px);
        lemma_sum_push(
            sifted_regions(marks, head, rule),
            sifted_region(regions.last(), marks, rule),
            region_weight(px),
        );
    }
}

pub proof fn lemma_sifted_provinces_removed(
    marks: Map<(u16, u16), bool>,
    provinces: Seq<ProvinceView>,
    rule: Sift,
    px: (u16, u16),
)
    requires
        rule != Sift::HeldNoting,
        removes(marks, px, rule),
    ensures
        provinces_pixel_count(sifted_provinces(marks, provinces, rule), px) == 0,
    decreases provinces.len(),
{
    if provinces.len() > 0 {
        let head = provinces.drop_last();
        lemma_sifted_provinces_removed(marks, head, rule, px);
        crate::pixels_utils::lemma_noted_provinces_same(marks, head, rule);
        lemma_sifted_regions_removed(marks, provinces.last().regions, rule, px);
        lemma_sum_push(
            sifted_provinces(marks, head, rule),
            sifted_province(provinces.last(), marks, rule),
            province_weight(px),
        );
    }
}

pub proof fn lemma_sifted_realms_removed(
    marks: Map<(u16, u16), bool>,
    realms: Seq<RealmView>,
    rule: Sift,
    px: (u16, u16),
)
    requires
        rule != Sift::HeldNoting,
        removes(marks, px, rule),
    ensures
        realms_pixel_count(sifted_realms(marks, realms, rule), px) == 0,
    decreases realms.len(),
{
    if realms.len() > 0 {
        let head = realms.drop_last();
        lemma_sifted_realms_removed(marks, head, rule, px);
        crate::pixels_utils::lemma_noted_realms_same(marks, head, rule);
        lemma_sifted_provinces_removed(marks, realms.last().provinces, rule, px);
        lemma_sum_push(
            sifted_realms(marks, head, rule),
            sifted_realm(realms.last(), marks, rule),
            realm_weight(px),
        );
    }
}

/// After a walk that leaves the marks alone, the continent holds no pixel
/// that the walk removes on sight.
pub proof fn lemma_sifted_continent_removed(
    continent: ContinentView,
    marks: Map<(u16, u16), bool>,
    rule: Sift,
    px: (u16, u16),
)
    requires
        rule != Sift::HeldNoting,
        removes(marks, px, rule),
    ensures
        sifted_continent(continent, marks, rule).pixel_count(px) == 0,
{
    lemma_sifted_realms_removed(marks, continent.realms, rule, px);
}

/// Marks into which pixels were put hold those pixels, and what they held.
pub proof fn lemma_unflagged_holds(
    marks: Map<(u16, u16), bool>,
    pixels: Seq<(u16, u16)>,
    px: (u16, u16),
)
    ensures
        unflagged(marks, pixels).contains_key(px) <==> marks.contains_key(px) || pixels.contains(
            px,
        ),
    decreases pixels.len(),
{
    if pixels.len() > 0 {
        lemma_unflagged_holds(marks, pixels.drop_last(), px);
        if pixels.contains(px) {
            let i = choose|i: int| 0 <= i < pixels.len() && pixels[i] == px;
            if i < pixels.len() - 1 {
                assert(pixels.drop_last()[i] == px);
            }
        }
        if pixels.drop_last().contains(px) {
            let i = choose|i: int| 0 <= i < pixels.drop_last().len() && pixels.drop_last()[i] == px;
            assert(pixels[i] == px);
        }
        if pixels.last() == px {
            assert(pixels[pixels.len() - 1] == px);
        }
    }
}

/// Flagging changes no set of marks, and it sets the flag of every pixel
/// of the list that the marks hold.
pub proof fn lemma_flagged_holds(
    marks: Map<(u16, u16), bool>,
    pixels: Seq<(u16, u16)>,
    px: (u16, u16),
)
    ensures
        flagged(marks, pixels).contains_key(px) <==> marks.contains_key(px),
        marks.contains_key(px) && pixels.contains(px) ==> flagged(marks, pixels)[px],
    decreases pixels.len(),
{
    if pixels.len() > 0 {
        lemma_flagged_holds(marks, pixels.drop_last(), px);
        lemma_flagged_holds(marks, pixels.drop_last(), pixels.last());
        if pixels.contains(px) && pixels.last() != px {
            let i = choose|i: int| 0 <= i < pixels.len() && pixels[i] == px;
            assert(pixels.drop_last()[i] == px);
        }
    }
}

pub proof fn lemma_flat_regions_count(regions: Seq<RegionView>, px: (u16, u16))
    ensures
        occurrences(flat_regions(regions), px) == regions_pixel_count(regions, px),
    decreases regions.len(),
{
    if regions.len() > 0 {
        lemma_flat_regions_count(regions.drop_last(), px);
        lemma_sum_concat(flat_regions(regions.drop_last()), regions.last().pixels, is_pixel(px));
    }
}

pub proof fn lemma_flat_provinces_count(provinces: Seq<ProvinceView>, px: (u16, u16))
    ensures
        occurrences(flat_provinces(provinces), px) == provinces_pixel_count(provinces, px),
    decreases provinces.len(),
{
    if provinces.len() > 0 {
        lemma_flat_provinces_count(provinces.drop_last(), px);
        lemma_flat_regions_count(provinces.last().regions, px);
        lemma_sum_concat(
            flat_provinces(provinces.drop_last()),
            flat_regions(provinces.last().regions),
            is_pixel(px),
        );
    }
}

pub proof fn lemma_flat_realms_count(realms: Seq<RealmView>, px: (u16, u16))
    ensures
        occurrences(flat_realms(realms), px) == realms_pixel_count(realms, px),
    decreases realms.len(),
{
    if realms.len() > 0 {
        lemma_flat_realms_count(realms.drop_last(), px);
        lemma_flat_provinces_count(realms.last().provinces, px);
        lemma_sum_concat(
            flat_realms(realms.drop_last()),
            flat_provinces(realms.last().provinces),
            is_pixel(px),
        );
    }
}

/// The walk over a continent comes to a pixel as often as the continent
/// holds it.
pub proof fn lemma_flat_pixels_count(continent: ContinentView, px: (u16, u16))
    ensures
        occurrences(flat_pixels(continent), px) == continent.pixel_count(px),
        flat_pixels(continent).contains(px) <==> continent.pixel_count(px) > 0,
{
    lemma_flat_realms_count(continent.realms, px);
    lemma_occurrences_contains(flat_pixels(continent), px);
}

pub proof fn lemma_regions_box(regions: Seq<RegionView>)
    ensures
        crate::continent::seq_bounds(regions, crate::continent::region_pixel_bounds())
            == Bounds::of_pixels(flat_regions(regions)),
    decreases regions.len(),
{
    if regions.len() > 0 {
        lemma_regions_box(regions.drop_last());
        lemma_of_pixels_concat(flat_regions(regions.drop_last()), regions.last().pixels);
    }
}

pub proof fn lemma_provinces_box(provinces: Seq<ProvinceView>)
    ensures
        crate::continent::seq_bounds(provinces, crate::continent::province_pixel_bounds())
            == Bounds::of_pixels(flat_provinces(provinces)),
    decreases provinces.len(),
{
    if provinces.len() > 0 {
        lemma_provinces_box(provinces.drop_last());
        lemma_regions_box(provinces.last().regions);
        lemma_of_pixels_concat(
            flat_provinces(provinces.drop_last()),
            flat_regions(provinces.last().regions),
        );
    }
}

pub proof fn lemma_realms_box(realms: Seq<RealmView>)
    ensures
        crate::continent::seq_bounds(realms, crate::continent::realm_pixel_bounds())
            == Bounds::of_pixels(flat_realms(realms)),
    decreases realms.len(),
{
    if realms.len() > 0 {
        lemma_realms_box(realms.drop_last());
        lemma_provinces_box(realms.last().provinces);
        lemma_of_pixels_concat(
            flat_realms(realms.drop_last()),
            flat_provinces(realms.last().provinces),
        );
    }
}

/// The box of a continent whose boxes are right is the smallest around
/// every pixel beneath the continent: its corners are the least and the
/// greatest coordinates of those pixels, and it encloses each of them.
pub proof fn lemma_exact_box_is_of_all_pixels(continent: ContinentView)
    requires
        continent.bounds_exact(),
    ensures
        continent.bounds() == Bounds::of_pixels(flat_pixels(continent)),
        forall|i: int|
            0 <= i < flat_pixels(continent).len() ==> continent.bounds().contains(
                (#[trigger] flat_pixels(continent)[i]).0,
                flat_pixels(continent)[i].1,
            ),
{
    lemma_realms_box(continent.realms);
    assert forall|i: int| 0 <= i < flat_pixels(continent).len() implies continent.bounds().contains(
        (#[trigger] flat_pixels(continent)[i]).0,
        flat_pixels(continent)[i].1,
    ) by {
        crate::point::lemma_of_pixels_contains(flat_pixels(continent), i);
    }
}

} // verus!
