//! The removal of pixels from a continent, with everything that is left
//! holding nothing.

use vstd::prelude::*;
use crate::continent::{
    province_pixel_bounds, provinces_box, provinces_view, realm_box, realm_pixel_bounds,
    realms_box, realms_view, region_pixel_bounds, regions_box, regions_view, seq_bounds,
    Continent, ContinentView, Province, ProvinceView, Realm, RealmView, Region, RegionView,
};
use crate::marks::PixelMarks;
use crate::point::Bounds;

verus! {

/// Which pixels a walk over the map removes.
#[derive(Clone, Copy, Debug, PartialEq, Eq, Structural)]
pub enum Sift {
    /// Those that the marks hold.
    Held,
    /// Those that the marks hold; each pixel that is kept is noted in the
    /// marks, unflagged, so that it is removed where it comes again.
    HeldNoting,
    /// Those that the marks hold with their flag set.
    Flagged,
}

/// The rule of a walk that removes what the marks hold: it notes what it
/// keeps where `insert` is set.
pub open spec fn rule_of(insert: bool) -> Sift {
    if insert {
        Sift::HeldNoting
    } else {
        Sift::Held
    }
}

/// Whether a walk under `rule` removes `px` on finding the given marks.
pub open spec fn removes(marks: Map<(u16, u16), bool>, px: (u16, u16), rule: Sift) -> bool {
    match rule {
        Sift::Flagged => marks.contains_key(px) && marks[px],
        _ => marks.contains_key(px),
    }
}

/// The marks after a walk over `pixels`.  A walk that notes what it keeps
/// adds every pixel that the marks did not hold, unflagged; any other
/// leaves the marks alone.
pub open spec fn noted(marks: Map<(u16, u16), bool>, pixels: Seq<(u16, u16)>, rule: Sift) -> Map<
    (u16, u16),
    bool,
>
    decreases pixels.len(),
{
    if pixels.len() == 0 || rule != Sift::HeldNoting {
        marks
    } else {
        let before = noted(marks, pixels.drop_last(), rule);
        if before.contains_key(pixels.last()) {
            before
        } else {
            before.insert(pixels.last(), false)
        }
    }
}

/// The pixels of `pixels` that the walk keeps: those that the marks do not
/// hold when the walk comes to them.
pub open spec fn fresh_pixels(
    marks: Map<(u16, u16), bool>,
    pixels: Seq<(u16, u16)>,
    rule: Sift,
) -> Seq<(u16, u16)>
    decreases pixels.len(),
{
    if pixels.len() == 0 {
        Seq::empty()
    } else {
        let kept = fresh_pixels(marks, pixels.drop_last(), rule);
        if removes(noted(marks, pixels.drop_last(), rule), pixels.last(), rule) {
            kept
        } else {
            kept.push(pixels.last())
        }
    }
}

/// The region with the pixels that the walk keeps.
pub open spec fn sifted_region(
    region: RegionView,
    marks: Map<(u16, u16), bool>,
    rule: Sift,
) -> RegionView {
    let pixels = fresh_pixels(marks, region.pixels, rule);
    RegionView {
        pixels,
        bottom_left: Bounds::of_pixels(pixels).bottom_left,
        top_right: Bounds::of_pixels(pixels).top_right,
        ..region
    }
}

/// The marks after a walk over the regions, in order.
pub open spec fn noted_regions(
    marks: Map<(u16, u16), bool>,
    regions: Seq<RegionView>,
    rule: Sift,
) -> Map<(u16, u16), bool>
    decreases regions.len(),
{
    if regions.len() == 0 {
        marks
    } else {
        noted(noted_regions(marks, regions.drop_last(), rule), regions.last().pixels, rule)
    }
}

/// The regions that the walk leaves: each with the pixels it keeps, and
/// those that keep none dropped.
pub open spec fn sifted_regions(
    marks: Map<(u16, u16), bool>,
    regions: Seq<RegionView>,
    rule: Sift,
) -> Seq<RegionView>
    decreases regions.len(),
{
    if regions.len() == 0 {
        Seq::empty()
    } else {
        let kept = sifted_regions(marks, regions.drop_last(), rule);
        let region = sifted_region(
            regions.last(),
            noted_regions(marks, regions.drop_last(), rule),
            rule,
        );
        if region.pixels.len() == 0 {
            kept
        } else {
            kept.push(region)
        }
    }
}

pub open spec fn sifted_province(
    province: ProvinceView,
    marks: Map<(u16, u16), bool>,
    rule: Sift,
) -> ProvinceView {
    let regions = sifted_regions(marks, province.regions, rule);
    ProvinceView {
        regions,
        bottom_left: seq_bounds(regions, region_pixel_bounds()).bottom_left,
        top_right: seq_bounds(regions, region_pixel_bounds()).top_right,
        ..province
    }
}

/// The marks after a walk over the provinces, in order.
pub open spec fn noted_provinces(
    marks: Map<(u16, u16), bool>,
    provinces: Seq<ProvinceView>,
    rule: Sift,
) -> Map<(u16, u16), bool>
    decreases provinces.len(),
{
    if provinces.len() == 0 {
        marks
    } else {
        noted_regions(
            noted_provinces(marks, provinces.drop_last(), rule),
            provinces.last().regions,
            rule,
        )
    }
}

/// The provinces that the walk leaves: those that keep no region dropped.
pub open spec fn sifted_provinces(
    marks: Map<(u16, u16), bool>,
    provinces: Seq<ProvinceView>,
    rule: Sift,
) -> Seq<ProvinceView>
    decreases provinces.len(),
{
    if provinces.len() == 0 {
        Seq::empty()
    } else {
        let kept = sifted_provinces(marks, provinces.drop_last(), rule);
        let province = sifted_province(
            provinces.last(),
            noted_provinces(marks, provinces.drop_last(), rule),
            rule,
        );
        if province.regions.len() == 0 {
            kept
        } else {
            kept.push(province)
        }
    }
}

pub open spec fn sifted_realm(
    realm: RealmView,
    marks: Map<(u16, u16), bool>,
    rule: Sift,
) -> RealmView {
    let provinces = sifted_provinces(marks, realm.provinces, rule);
    RealmView {
        provinces,
        bottom_left: seq_bounds(provinces, province_pixel_bounds()).bottom_left,
        top_right: seq_bounds(provinces, province_pixel_bounds()).top_right,
        ..realm
    }
}

/// The marks after a walk over the realms, in order.
pub open spec fn noted_realms(
    marks: Map<(u16, u16), bool>,
    realms: Seq<RealmView>,
    rule: Sift,
) -> Map<(u16, u16), bool>
    decreases realms.len(),
{
    if realms.len() == 0 {
        marks
    } else {
        noted_provinces(
            noted_realms(marks, realms.drop_last(), rule),
            realms.last().provinces,
            rule,
        )
    }
}

/// The realms that the walk leaves: those that keep no province dropped.
pub open spec fn sifted_realms(
    marks: Map<(u16, u16), bool>,
    realms: Seq<RealmView>,
    rule: Sift,
) -> Seq<RealmView>
    decreases realms.len(),
{
    if realms.len() == 0 {
        Seq::empty()
    } else {
        let kept = sifted_realms(marks, realms.drop_last(), rule);
        let realm = sifted_realm(
            realms.last(),
            noted_realms(marks, realms.drop_last(), rule),
            rule,
        );
        if realm.provinces.len() == 0 {
            kept
        } else {
            kept.push(realm)
        }
    }
}

/// The continent after the walk: every pixel that the marks held when the
/// walk came to it is gone, and with it every region, province and realm
/// that was left with nothing beneath it; and every box, from the regions
/// up to the continent, is the smallest around the pixels that are left
/// beneath it.
pub open spec fn sifted_continent(
    continent: ContinentView,
    marks: Map<(u16, u16), bool>,
    rule: Sift,
) -> ContinentView {
    let realms = sifted_realms(marks, continent.realms, rule);
    ContinentView {
        realms,
        bottom_left: seq_bounds(realms, realm_pixel_bounds()).bottom_left,
        top_right: seq_bounds(realms, realm_pixel_bounds()).top_right,
        ..continent
    }
}

/// A walk that does not note leaves the marks as they were.
pub proof fn lemma_noted_regions_same(
    marks: Map<(u16, u16), bool>,
    regions: Seq<RegionView>,
    rule: Sift,
)
    requires
        rule != Sift::HeldNoting,
    ensures
        noted_regions(marks, regions, rule) == marks,
    decreases regions.len(),
{
    if regions.len() > 0 {
        lemma_noted_regions_same(marks, regions.drop_last(), rule);
    }
}

pub proof fn lemma_noted_provinces_same(
    marks: Map<(u16, u16), bool>,
    provinces: Seq<ProvinceView>,
    rule: Sift,
)
    requires
        rule != Sift::HeldNoting,
    ensures
        noted_provinces(marks, provinces, rule) == marks,
    decreases provinces.len(),
{
    if provinces.len() > 0 {
        lemma_noted_provinces_same(marks, provinces.drop_last(), rule);
        lemma_noted_regions_same(marks, provinces.last().regions, rule);
    }
}

pub proof fn lemma_noted_realms_same(
    marks: Map<(u16, u16), bool>,
    realms: Seq<RealmView>,
    rule: Sift,
)
    requires
        rule != Sift::HeldNoting,
    ensures
        noted_realms(marks, realms, rule) == marks,
    decreases realms.len(),
{
    if realms.len() > 0 {
        lemma_noted_realms_same(marks, realms.drop_last(), rule);
        lemma_noted_provinces_same(marks, realms.last().provinces, rule);
    }
}

/// Drops from `pixels` each pixel that the walk removes, and notes the
/// others in the marks where the walk is one that notes.
fn sift_pixels(pixels: &mut Vec<(u16, u16)>, marks: &mut PixelMarks, rule: Sift)
    ensures
        final(pixels)@ == fresh_pixels(old(marks)@, old(pixels)@, rule),
        final(marks)@ == noted(old(marks)@, old(pixels)@, rule),
{
    let mut kept: Vec<(u16, u16)> = Vec::new();
    let mut i: usize = 0;
    while i < pixels.len()
        invariant
            i <= pixels.len(),
            pixels@ == old(pixels)@,
            kept@ == fresh_pixels(old(marks)@, pixels@.subrange(0, i as int), rule),
            marks@ == noted(old(marks)@, pixels@.subrange(0, i as int), rule),
        decreases pixels.len() - i,
    {
        let px = pixels[i];
        assert(pixels@.subrange(0, i + 1).drop_last() =~= pixels@.subrange(0, i as int));
        let removed = match rule {
            Sift::Flagged => match marks.get(px) {
                Some(flag) => flag,
                None => false,
            },
            _ => marks.contains_key(px),
        };
        if !removed {
            match rule {
                Sift::HeldNoting => {
                    marks.insert(px, false);
                },
                _ => {},
            }
            kept.push(px);
        }
        i += 1;
    }
    assert(pixels@.subrange(0, i as int) =~= pixels@);
    *pixels = kept;
}

fn sift_regions(regions: &mut Vec<Region>, marks: &mut PixelMarks, rule: Sift)
    ensures
        regions_view(final(regions)@) == sifted_regions(
            old(marks)@,
            regions_view(old(regions)@),
            rule,
        ),
        final(marks)@ == noted_regions(old(marks)@, regions_view(old(regions)@), rule),
        forall|i: int|
            0 <= i < final(regions).len() ==> (#[trigger] final(regions)[i])@.bounds_exact(),
{
    let mut walked: Vec<Region> = Vec::new();
    std::mem::swap(&mut walked, regions);
    let ghost all = regions_view(walked@);
    let ghost items = walked@;
    assert(regions_view(regions@) =~= Seq::empty());
    for region in it: walked
        invariant
            it.seq() == items,
            all == regions_view(items),
            regions_view(regions@) == sifted_regions(
                old(marks)@,
                all.subrange(0, it.index() as int),
                rule,
            ),
            marks@ == noted_regions(old(marks)@, all.subrange(0, it.index() as int), rule),
            forall|i: int| 0 <= i < regions.len() ==> (#[trigger] regions[i])@.bounds_exact(),
    {
        let ghost before = regions_view(regions@);
        assert(all.subrange(0, it.index() + 1).drop_last() =~= all.subrange(0, it.index() as int));
        assert(all.subrange(0, it.index() + 1).last() == region@);
        let mut region = region;
        sift_pixels(&mut region.pixels, marks, rule);
        region.fit_bounds();
        if region.pixels.len() > 0 {
            regions.push(region);
            assert(regions_view(regions@) =~= before.push(region@));
        }
    }
    assert(all.subrange(0, items.len() as int) =~= all);
}

fn sift_provinces(provinces: &mut Vec<Province>, marks: &mut PixelMarks, rule: Sift)
    ensures
        provinces_view(final(provinces)@) == sifted_provinces(
            old(marks)@,
            provinces_view(old(provinces)@),
            rule,
        ),
        final(marks)@ == noted_provinces(old(marks)@, provinces_view(old(provinces)@), rule),
        forall|i: int|
            0 <= i < final(provinces).len() ==> (#[trigger] final(provinces)[i])@.bounds_exact(),
{
    let mut walked: Vec<Province> = Vec::new();
    std::mem::swap(&mut walked, provinces);
    let ghost all = provinces_view(walked@);
    let ghost items = walked@;
    assert(provinces_view(provinces@) =~= Seq::empty());
    for province in it: walked
        invariant
            it.seq() == items,
            all == provinces_view(items),
            provinces_view(provinces@) == sifted_provinces(
                old(marks)@,
                all.subrange(0, it.index() as int),
                rule,
            ),
            marks@ == noted_provinces(old(marks)@, all.subrange(0, it.index() as int), rule),
            forall|i: int|
                0 <= i < provinces.len() ==> (#[trigger] provinces[i])@.bounds_exact(),
    {
        let ghost before = provinces_view(provinces@);
        assert(all.subrange(0, it.index() + 1).drop_last() =~= all.subrange(0, it.index() as int));
        assert(all.subrange(0, it.index() + 1).last() == province@);
        let mut province = province;
        sift_regions(&mut province.regions, marks, rule);
        let fitted = regions_box(&province.regions);
        province.bottom_left = fitted.bottom_left;
        province.top_right = fitted.top_right;
        if province.regions.len() > 0 {
            provinces.push(province);
            assert(provinces_view(provinces@) =~= before.push(province@));
        }
    }
    assert(all.subrange(0, items.len() as int) =~= all);
}

fn sift_realms(realms: &mut Vec<Realm>, marks: &mut PixelMarks, rule: Sift)
    ensures
        realms_view(final(realms)@) == sifted_realms(old(marks)@, realms_view(old(realms)@), rule),
        final(marks)@ == noted_realms(old(marks)@, realms_view(old(realms)@), rule),
        forall|i: int| 0 <= i < final(realms).len() ==> (#[trigger] final(realms)[i])@.bounds_exact(),
{
    let mut walked: Vec<Realm> = Vec::new();
    std::mem::swap(&mut walked, realms);
    let ghost all = realms_view(walked@);
    let ghost items = walked@;
    assert(realms_view(realms@) =~= Seq::empty());
    for realm in it: walked
        invariant
            it.seq() == items,
            all == realms_view(items),
            realms_view(realms@) == sifted_realms(
                old(marks)@,
                all.subrange(0, it.index() as int),
                rule,
            ),
            marks@ == noted_realms(old(marks)@, all.subrange(0, it.index() as int), rule),
            forall|i: int| 0 <= i < realms.len() ==> (#[trigger] realms[i])@.bounds_exact(),
    {
        let ghost before = realms_view(realms@);
        assert(all.subrange(0, it.index() + 1).drop_last() =~= all.subrange(0, it.index() as int));
        assert(all.subrange(0, it.index() + 1).last() == realm@);
        let mut realm = realm;
        sift_provinces(&mut realm.provinces, marks, rule);
        let fitted = provinces_box(&realm.provinces);
        realm.bottom_left = fitted.bottom_left;
        realm.top_right = fitted.top_right;
        if realm.provinces.len() > 0 {
            realms.push(realm);
            assert(realms_view(realms@) =~= before.push(realm@));
        }
    }
    assert(all.subrange(0, items.len() as int) =~= all);
}

/// Sifts the realms of the continent and fits the continent's box around
/// what is left.
fn sift_continent(continent: &mut Continent, marks: &mut PixelMarks, rule: Sift)
    ensures
        final(continent)@ == sifted_continent(old(continent)@, old(marks)@, rule),
        final(marks)@ == noted_realms(old(marks)@, old(continent)@.realms, rule),
        final(continent)@.bounds_exact(),
{
    sift_realms(&mut continent.realms, marks, rule);
    let fitted = realms_box(&continent.realms);
    continent.bottom_left = fitted.bottom_left;
    continent.top_right = fitted.top_right;
    assert forall|i: int| 0 <= i < continent@.realms.len() implies (
    #[trigger] continent@.realms[i]).bounds_exact() by {
        assert(continent@.realms[i] == continent.realms[i]@);
    }
}

/// Walks the continent's pixels, realm by realm down to the regions, and
/// removes each pixel that `pixels` holds when the walk comes to it.  With
/// `insert`, the walk notes each pixel that it keeps, so that a pixel the
/// continent holds twice is kept once; without, `pixels` stays as it was.
/// A region left without a pixel is dropped, then a province left without
/// a region, then a realm left without a province.  Every box that stays,
/// the continent's own too, is drawn anew around the pixels that stayed.
pub fn remove_pixels_from_continent(
    continent: &mut Continent,
    pixels: &mut PixelMarks,
    insert: bool,
)
    ensures
        final(continent)@ == sifted_continent(old(continent)@, old(pixels)@, rule_of(insert)),
        final(pixels)@ == noted_realms(old(pixels)@, old(continent)@.realms, rule_of(insert)),
        final(continent)@.pruned(),
        final(continent)@.bounds_exact(),
        forall|px: (u16, u16)| #[trigger]
            final(continent)@.pixel_count(px) <= old(continent)@.pixel_count(px),
        forall|px: (u16, u16)|
            old(pixels)@.contains_key(px) ==> #[trigger] final(continent)@.pixel_count(px) == 0,
        insert ==> forall|px: (u16, u16)| #[trigger] final(continent)@.pixel_count(px) <= 1,
{
    let rule = if insert {
        Sift::HeldNoting
    } else {
        Sift::Held
    };
    sift_continent(continent, pixels, rule);
    proof {
        crate::pixels_laws::lemma_sifted_continent_pruned(old(continent)@, old(pixels)@, rule);
        assert forall|px: (u16, u16)| #[trigger]
            continent@.pixel_count(px) <= old(continent)@.pixel_count(px) by {
            crate::pixels_laws::lemma_sifted_continent_fewer(
                old(continent)@,
                old(pixels)@,
                rule,
                px,
            );
        }
        assert forall|px: (u16, u16)| old(pixels)@.contains_key(px) implies #[trigger]
            continent@.pixel_count(px) == 0 by {
            if insert {
                crate::pixels_laws::lemma_noting_walk_holds_once(
                    old(continent)@,
                    old(pixels)@,
                    px,
                );
            } else {
                crate::pixels_laws::lemma_sifted_continent_removed(
                    old(continent)@,
                    old(pixels)@,
                    Sift::Held,
                    px,
                );
            }
        }
        if insert {
            assert forall|px: (u16, u16)| #[trigger] continent@.pixel_count(px) <= 1 by {
                crate::pixels_laws::lemma_noting_walk_holds_once(
                    old(continent)@,
                    old(pixels)@,
                    px,
                );
            }
        }
    }
}

/// Removes from the continent each pixel that `edge_pixels` holds with its
/// flag set, and drops what is left with nothing beneath it, as
/// [`remove_pixels_from_continent`] does.
pub fn remove_overlaping_pixels_from_regions(
    edge_continent: &mut Continent,
    edge_pixels: &mut PixelMarks,
)
    ensures
        final(edge_continent)@ == sifted_continent(
            old(edge_continent)@,
            old(edge_pixels)@,
            Sift::Flagged,
        ),
        final(edge_pixels)@ == old(edge_pixels)@,
        final(edge_continent)@.pruned(),
        final(edge_continent)@.bounds_exact(),
        forall|px: (u16, u16)| #[trigger]
            final(edge_continent)@.pixel_count(px) <= old(edge_continent)@.pixel_count(px),
{
    sift_continent(edge_continent, edge_pixels, Sift::Flagged);
    proof {
        lemma_noted_realms_same(old(edge_pixels)@, old(edge_continent)@.realms, Sift::Flagged);
        crate::pixels_laws::lemma_sifted_continent_pruned(
            old(edge_continent)@,
            old(edge_pixels)@,
            Sift::Flagged,
        );
        assert forall|px: (u16, u16)| #[trigger]
            edge_continent@.pixel_count(px) <= old(edge_continent)@.pixel_count(px) by {
            crate::pixels_laws::lemma_sifted_continent_fewer(
                old(edge_continent)@,
                old(edge_pixels)@,
                Sift::Flagged,
                px,
            );
        }
    }
}

/// Drops every region without a pixel, then every province without a
/// region, then every realm without a province.
pub fn clean_continent(continent: &mut Continent)
    ensures
        final(continent)@ == sifted_continent(old(continent)@, Map::empty(), Sift::Held),
        final(continent)@.pruned(),
        final(continent)@.bounds_exact(),
        forall|px: (u16, u16)| #[trigger]
            final(continent)@.pixel_count(px) <= old(continent)@.pixel_count(px),
{
    let mut nothing = PixelMarks::new();
    sift_continent(continent, &mut nothing, Sift::Held);
    proof {
        crate::pixels_laws::lemma_sifted_continent_pruned(
            old(continent)@,
            Map::empty(),
            Sift::Held,
        );
        assert forall|px: (u16, u16)| #[trigger]
            continent@.pixel_count(px) <= old(continent)@.pixel_count(px) by {
            crate::pixels_laws::lemma_sifted_continent_fewer(
                old(continent)@,
                Map::empty(),
                Sift::Held,
                px,
            );
        }
    }
}

/// The pixels of the regions, region after region.
pub open spec fn flat_regions(regions: Seq<RegionView>) -> Seq<(u16, u16)>
    decreases regions.len(),
{
    if regions.len() == 0 {
        Seq::empty()
    } else {
        flat_regions(regions.drop_last()) + regions.last().pixels
    }
}

/// The pixels beneath the provinces, province after province.
pub open spec fn flat_provinces(provinces: Seq<ProvinceView>) -> Seq<(u16, u16)>
    decreases provinces.len(),
{
    if provinces.len() == 0 {
        Seq::empty()
    } else {
        flat_provinces(provinces.drop_last()) + flat_regions(provinces.last().regions)
    }
}

/// The pixels beneath the realms, realm after realm.
pub open spec fn flat_realms(realms: Seq<RealmView>) -> Seq<(u16, u16)>
    decreases realms.len(),
{
    if realms.len() == 0 {
        Seq::empty()
    } else {
        flat_realms(realms.drop_last()) + flat_provinces(realms.last().provinces)
    }
}

/// Every pixel beneath the continent, in the order of a walk over its
/// realms, their provinces and their regions.
pub open spec fn flat_pixels(continent: ContinentView) -> Seq<(u16, u16)> {
    flat_realms(continent.realms)
}

fn gather_regions(regions: &Vec<Region>, out: &mut Vec<(u16, u16)>)
    ensures
        final(out)@ == old(out)@ + flat_regions(regions_view(regions@)),
{
    let ghost all = regions_view(regions@);
    let mut i: usize = 0;
    while i < regions.len()
        invariant
            i <= regions.len(),
            all == regions_view(regions@),
            out@ == old(out)@ + flat_regions(all.subrange(0, i as int)),
        decreases regions.len() - i,
    {
        let ghost base = out@;
        let region = &regions[i];
        let mut j: usize = 0;
        while j < region.pixels.len()
            invariant
                j <= region.pixels.len(),
                out@ == base + region.pixels@.subrange(0, j as int),
            decreases region.pixels.len() - j,
        {
            out.push(region.pixels[j]);
            assert(region.pixels@.subrange(0, j + 1) =~= region.pixels@.subrange(0, j as int).push(
                region.pixels[j as int],
            ));
            j += 1;
        }
        proof {
            assert(region.pixels@.subrange(0, j as int) =~= region.pixels@);
            assert(all.subrange(0, i + 1).drop_last() =~= all.subrange(0, i as int));
            assert(all.subrange(0, i + 1).last().pixels == region.pixels@);
            assert(out@ =~= old(out)@ + flat_regions(all.subrange(0, i + 1)));
        }
        i += 1;
    }
    assert(all.subrange(0, i as int) =~= all);
}

fn gather_provinces(provinces: &Vec<Province>, out: &mut Vec<(u16, u16)>)
    ensures
        final(out)@ == old(out)@ + flat_provinces(provinces_view(provinces@)),
{
    let ghost all = provinces_view(provinces@);
    let mut i: usize = 0;
    while i < provinces.len()
        invariant
            i <= provinces.len(),
            all == provinces_view(provinces@),
            out@ == old(out)@ + flat_provinces(all.subrange(0, i as int)),
        decreases provinces.len() - i,
    {
        gather_regions(&provinces[i].regions, out);
        proof {
            assert(all.subrange(0, i + 1).drop_last() =~= all.subrange(0, i as int));
            assert(all.subrange(0, i + 1).last().regions == regions_view(provinces[i as int].regions@));
            assert(out@ =~= old(out)@ + flat_provinces(all.subrange(0, i + 1)));
        }
        i += 1;
    }
    assert(all.subrange(0, i as int) =~= all);
}

/// Every pixel beneath the continent, in walk order.
pub fn collect_pixels(continent: &Continent) -> (pixels: Vec<(u16, u16)>)
    ensures
        pixels@ == flat_pixels(continent@),
{
    let mut out: Vec<(u16, u16)> = Vec::new();
    let ghost all = realms_view(continent.realms@);
    let mut i: usize = 0;
    while i < continent.realms.len()
        invariant
            i <= continent.realms.len(),
            all == realms_view(continent.realms@),
            out@ == flat_realms(all.subrange(0, i as int)),
        decreases continent.realms.len() - i,
    {
        gather_provinces(&continent.realms[i].provinces, &mut out);
        proof {
            assert(all.subrange(0, i + 1).drop_last() =~= all.subrange(0, i as int));
            assert(all.subrange(0, i + 1).last().provinces == provinces_view(
                continent.realms[i as int].provinces@,
            ));
        }
        i += 1;
    }
    assert(all.subrange(0, i as int) =~= all);
    out
}

/// The marks with every pixel of `pixels` put in, unflagged.
pub open spec fn unflagged(marks: Map<(u16, u16), bool>, pixels: Seq<(u16, u16)>) -> Map<
    (u16, u16),
    bool,
>
    decreases pixels.len(),
{
    if pixels.len() == 0 {
        marks
    } else {
        unflagged(marks, pixels.drop_last()).insert(pixels.last(), false)
    }
}

/// The marks with the flag set on every pixel of `pixels` that they hold.
pub open spec fn flagged(marks: Map<(u16, u16), bool>, pixels: Seq<(u16, u16)>) -> Map<
    (u16, u16),
    bool,
>
    decreases pixels.len(),
{
    if pixels.len() == 0 {
        marks
    } else {
        let before = flagged(marks, pixels.drop_last());
        if before.contains_key(pixels.last()) {
            before.insert(pixels.last(), true)
        } else {
            before
        }
    }
}

/// Puts every pixel of `pixels` into the marks, unflagged.
pub fn note_pixels(pixels: &Vec<(u16, u16)>, marks: &mut PixelMarks)
    ensures
        final(marks)@ == unflagged(old(marks)@, pixels@),
{
    let mut i: usize = 0;
    while i < pixels.len()
        invariant
            i <= pixels.len(),
            marks@ == unflagged(old(marks)@, pixels@.subrange(0, i as int)),
        decreases pixels.len() - i,
    {
        assert(pixels@.subrange(0, i + 1).drop_last() =~= pixels@.subrange(0, i as int));
        marks.insert(pixels[i], false);
        i += 1;
    }
    assert(pixels@.subrange(0, i as int) =~= pixels@);
}

/// Sets the flag of every pixel of `pixels_at_00` that `unmarked_pixels`
/// holds: the pixels of the map's corner that another continent holds too.
pub fn mark_overlaping_pixels(pixels_at_00: &Vec<(u16, u16)>, unmarked_pixels: &mut PixelMarks)
    ensures
        final(unmarked_pixels)@ == flagged(old(unmarked_pixels)@, pixels_at_00@),
{
    let mut i: usize = 0;
    while i < pixels_at_00.len()
        invariant
            i <= pixels_at_00.len(),
            unmarked_pixels@ == flagged(
                old(unmarked_pixels)@,
                pixels_at_00@.subrange(0, i as int),
            ),
        decreases pixels_at_00.len() - i,
    {
        assert(pixels_at_00@.subrange(0, i + 1).drop_last() =~= pixels_at_00@.subrange(
            0,
            i as int,
        ));
        let top_left_px = pixels_at_00[i];
        let overlap = unmarked_pixels.contains_key(top_left_px);
        if overlap {
            unmarked_pixels.insert(top_left_px, true);
        }
        i += 1;
    }
    assert(pixels_at_00@.subrange(0, i as int) =~= pixels_at_00@);
}

/// The list without the elements at the given places, which are taken
/// out from the last place to the first.
pub open spec fn without_places<T>(list: Seq<T>, places: Seq<u16>) -> Seq<T>
    decreases places.len(),
{
    if places.len() == 0 {
        list
    } else {
        without_places(list.remove(places.last() as int), places.drop_last())
    }
}

/// Every place is a place of the list when its turn comes: the last place
/// is one of a list of the given length, the place before it one of a list
/// that is one shorter, and so on.
pub open spec fn places_in_turn(places: Seq<u16>, length: int) -> bool
    decreases places.len(),
{
    places.len() == 0 || (places.last() < length && places_in_turn(
        places.drop_last(),
        length - 1,
    ))
}

/// The continent without the realms at the given places, its box drawn
/// anew around the boxes of the realms that stay.
pub open spec fn without_realms(continent: ContinentView, places: Seq<u16>) -> ContinentView {
    let realms = without_places(continent.realms, places);
    ContinentView {
        realms,
        bottom_left: seq_bounds(realms, realm_box()).bottom_left,
        top_right: seq_bounds(realms, realm_box()).top_right,
        ..continent
    }
}

/// Takes the realms at the given places out of the continent, from the last
/// place to the first, and draws the continent's box anew around the boxes
/// of the realms that stay.  Places given in rising order are not shifted
/// before their realms are taken.  Where the boxes beneath the continent
/// were right, every box is right afterwards.
pub fn remove_extra_realms(continent: &mut Continent, to_remove_realms: Vec<u16>)
    requires
        places_in_turn(to_remove_realms@, old(continent).realms.len() as int),
    ensures
        final(continent)@ == without_realms(old(continent)@, to_remove_realms@),
        (forall|i: int|
            0 <= i < old(continent).realms.len() ==> (#[trigger] old(
                continent,
            ).realms[i])@.bounds_exact()) ==> final(continent)@.bounds_exact(),
{
    let ghost start = continent@.realms;
    let mut i: usize = to_remove_realms.len();
    assert(to_remove_realms@.subrange(0, i as int) =~= to_remove_realms@);
    while i > 0
        invariant
            i <= to_remove_realms.len(),
            continent@ == (ContinentView { realms: continent@.realms, ..old(continent)@ }),
            continent@.realms.len() == continent.realms.len(),
            places_in_turn(to_remove_realms@.subrange(0, i as int), continent.realms.len() as int),
            without_places(continent@.realms, to_remove_realms@.subrange(0, i as int))
                == without_places(start, to_remove_realms@),
            (forall|k: int|
                0 <= k < old(continent).realms.len() ==> (#[trigger] old(
                    continent,
                ).realms[k])@.bounds_exact()) ==> forall|k: int|
                0 <= k < continent.realms.len() ==> (#[trigger] continent.realms[k])@.bounds_exact(),
        decreases i,
    {
        let ghost places = to_remove_realms@.subrange(0, i as int);
        let ghost before = continent@.realms;
        let ghost held = continent.realms@;
        assert(places.last() == to_remove_realms[i - 1]);
        assert(places.drop_last() =~= to_remove_realms@.subrange(0, i - 1));
        continent.realms.remove(to_remove_realms[i - 1] as usize);
        proof {
            assert(continent@.realms =~= before.remove(places.last() as int));
            assert forall|k: int| 0 <= k < continent.realms.len() implies (
            #[trigger] continent.realms[k]) == held[k] || continent.realms[k] == held[k + 1] by {}
        }
        i -= 1;
    }
    assert(to_remove_realms@.subrange(0, 0) =~= Seq::<u16>::empty());
    let bounds = realms_box(&continent.realms);
    continent.bottom_left = bounds.bottom_left;
    continent.top_right = bounds.top_right;
}

} // verus!
