//! The tree of regions, provinces, realms and continents, and what each of
//! them is as a mathematical value.

use vstd::prelude::*;
use crate::point::{
    try_map_min_max_points, try_map_points_min_max_points_by_points, Bounds, Point16, Size16,
};
use crate::sums::{occurrences, seq_sum};

verus! {

/// The leaf of the hierarchy: one Voronoi cell and the pixels it owns.
#[derive(Debug)]
pub struct Region {
    pub site_point: Point16,
    pub top_right: Point16,
    pub bottom_left: Point16,
    pub grey_value: u8,
    pub pixels: Vec<(u16, u16)>,
}

/// A group of regions around one site of the province grid.
#[derive(Debug)]
pub struct Province {
    pub grid_coord: Point16,
    pub site_point: Point16,
    pub top_right: Point16,
    pub bottom_left: Point16,
    pub average_grey_value: u8,
    pub regions: Vec<Region>,
}

/// A group of provinces around one site of the realm grid.
#[derive(Debug)]
pub struct Realm {
    pub grid_coord: Point16,
    pub site_point: Point16,
    pub top_right: Point16,
    pub bottom_left: Point16,
    pub average_grey_value: u8,
    pub provinces: Vec<Province>,
}

/// A tectonic plate: a group of realms around one site of the continent
/// grid.  `plate_movement_direction` is one of sixteen compass buckets;
/// `elevation` is the plate's elevation factor in thousandths.
#[derive(Debug)]
pub struct Continent {
    pub grid_coord: Point16,
    pub site_point: Point16,
    pub top_right: Point16,
    pub bottom_left: Point16,
    pub plate_movement_direction: u8,
    pub elevation: u16,
    pub realms: Vec<Realm>,
}

/// What a region is, as a mathematical value.
pub struct RegionView {
    pub site_point: Point16,
    pub top_right: Point16,
    pub bottom_left: Point16,
    pub grey_value: u8,
    pub pixels: Seq<(u16, u16)>,
}

pub struct ProvinceView {
    pub grid_coord: Point16,
    pub site_point: Point16,
    pub top_right: Point16,
    pub bottom_left: Point16,
    pub average_grey_value: u8,
    pub regions: Seq<RegionView>,
}

pub struct RealmView {
    pub grid_coord: Point16,
    pub site_point: Point16,
    pub top_right: Point16,
    pub bottom_left: Point16,
    pub average_grey_value: u8,
    pub provinces: Seq<ProvinceView>,
}

pub struct ContinentView {
    pub grid_coord: Point16,
    pub site_point: Point16,
    pub top_right: Point16,
    pub bottom_left: Point16,
    pub plate_movement_direction: u8,
    pub elevation: u16,
    pub realms: Seq<RealmView>,
}

impl View for Region {
    type V = RegionView;

    open spec fn view(&self) -> RegionView {
        RegionView {
            site_point: self.site_point,
            top_right: self.top_right,
            bottom_left: self.bottom_left,
            grey_value: self.grey_value,
            pixels: self.pixels@,
        }
    }
}

/// The regions of a list, each as its mathematical value.
pub open spec fn regions_view(regions: Seq<Region>) -> Seq<RegionView> {
    regions.map_values(|r: Region| r@)
}

impl View for Province {
    type V = ProvinceView;

    open spec fn view(&self) -> ProvinceView {
        ProvinceView {
            grid_coord: self.grid_coord,
            site_point: self.site_point,
            top_right: self.top_right,
            bottom_left: self.bottom_left,
            average_grey_value: self.average_grey_value,
            regions: regions_view(self.regions@),
        }
    }
}

pub open spec fn provinces_view(provinces: Seq<Province>) -> Seq<ProvinceView> {
    provinces.map_values(|p: Province| p@)
}

impl View for Realm {
    type V = RealmView;

    open spec fn view(&self) -> RealmView {
        RealmView {
            grid_coord: self.grid_coord,
            site_point: self.site_point,
            top_right: self.top_right,
            bottom_left: self.bottom_left,
            average_grey_value: self.average_grey_value,
            provinces: provinces_view(self.provinces@),
        }
    }
}

pub open spec fn realms_view(realms: Seq<Realm>) -> Seq<RealmView> {
    realms.map_values(|r: Realm| r@)
}

impl View for Continent {
    type V = ContinentView;

    open spec fn view(&self) -> ContinentView {
        ContinentView {
            grid_coord: self.grid_coord,
            site_point: self.site_point,
            top_right: self.top_right,
            bottom_left: self.bottom_left,
            plate_movement_direction: self.plate_movement_direction,
            elevation: self.elevation,
            realms: realms_view(self.realms@),
        }
    }
}

/// The weight of a region in a count of the pixel `px`.
pub open spec fn region_weight(px: (u16, u16)) -> spec_fn(RegionView) -> nat {
    |r: RegionView| r.pixel_count(px)
}

pub open spec fn province_weight(px: (u16, u16)) -> spec_fn(ProvinceView) -> nat {
    |p: ProvinceView| p.pixel_count(px)
}

pub open spec fn realm_weight(px: (u16, u16)) -> spec_fn(RealmView) -> nat {
    |r: RealmView| r.pixel_count(px)
}

/// The weight of a grid cell in a count of the pixel `px`: that of its
/// continent, or nothing where the cell is vacant.
pub open spec fn cell_weight(px: (u16, u16)) -> spec_fn(Option<ContinentView>) -> nat {
    |c: Option<ContinentView>|
        match c {
            Some(continent) => continent.pixel_count(px),
            None => 0nat,
        }
}

pub open spec fn column_weight(px: (u16, u16)) -> spec_fn(Seq<Option<ContinentView>>) -> nat {
    |column: Seq<Option<ContinentView>>| seq_sum(column, cell_weight(px))
}

/// In how many places the regions of a list hold the pixel `px`.
pub open spec fn regions_pixel_count(regions: Seq<RegionView>, px: (u16, u16)) -> nat {
    seq_sum(regions, region_weight(px))
}

/// In how many places the regions beneath the provinces of a list hold the
/// pixel `px`.
pub open spec fn provinces_pixel_count(provinces: Seq<ProvinceView>, px: (u16, u16)) -> nat {
    seq_sum(provinces, province_weight(px))
}

/// In how many places the regions beneath the realms of a list hold the
/// pixel `px`.
pub open spec fn realms_pixel_count(realms: Seq<RealmView>, px: (u16, u16)) -> nat {
    seq_sum(realms, realm_weight(px))
}

impl RegionView {
    pub open spec fn bounds(self) -> Bounds {
        Bounds { bottom_left: self.bottom_left, top_right: self.top_right }
    }

    /// How often the region's pixel list holds `px`.
    pub open spec fn pixel_count(self, px: (u16, u16)) -> nat {
        occurrences(self.pixels, px)
    }

    /// The region's box is the smallest around its pixels.
    pub open spec fn bounds_exact(self) -> bool {
        self.bounds() == Bounds::of_pixels(self.pixels)
    }

    /// The region owns a pixel.
    pub open spec fn populated(self) -> bool {
        self.pixels.len() > 0
    }

    /// Every pixel of the region lies on a canvas of the given size.
    pub open spec fn within(self, canvas: Size16) -> bool {
        forall|i: int|
            0 <= i < self.pixels.len() ==> (#[trigger] self.pixels[i]).0 < canvas.width
                && self.pixels[i].1 < canvas.height
    }
}

/// The smallest box around the boxes that `f` gives for the elements of `s`.
pub open spec fn seq_bounds<T>(s: Seq<T>, f: spec_fn(T) -> Bounds) -> Bounds
    decreases s.len(),
{
    if s.len() == 0 {
        Bounds::empty()
    } else {
        seq_bounds(s.drop_last(), f).merge(f(s.last()))
    }
}

pub proof fn lemma_bounds_push<T>(s: Seq<T>, x: T, f: spec_fn(T) -> Bounds)
    ensures
        seq_bounds(s.push(x), f) == seq_bounds(s, f).merge(f(x)),
{
    assert(s.push(x).drop_last() =~= s);
}

pub proof fn lemma_bounds_concat<T>(a: Seq<T>, b: Seq<T>, f: spec_fn(T) -> Bounds)
    ensures
        seq_bounds(a + b, f) == seq_bounds(a, f).merge(seq_bounds(b, f)),
    decreases b.len(),
{
    if b.len() == 0 {
        assert(a + b =~= a);
    } else {
        assert((a + b).drop_last() =~= a + b.drop_last());
        lemma_bounds_concat(a, b.drop_last(), f);
    }
}

/// Two sequences of one length whose elements have the same boxes, index
/// by index, have the same box around them.
pub proof fn lemma_bounds_pointwise<S, T>(
    s: Seq<S>,
    f: spec_fn(S) -> Bounds,
    t: Seq<T>,
    g: spec_fn(T) -> Bounds,
)
    requires
        s.len() == t.len(),
        forall|i: int| 0 <= i < s.len() ==> f(#[trigger] s[i]) == g(t[i]),
    ensures
        seq_bounds(s, f) == seq_bounds(t, g),
    decreases s.len(),
{
    if s.len() > 0 {
        lemma_bounds_pointwise(s.drop_last(), f, t.drop_last(), g);
    }
}

pub open spec fn region_pixel_bounds() -> spec_fn(RegionView) -> Bounds {
    |r: RegionView| Bounds::of_pixels(r.pixels)
}

pub open spec fn province_pixel_bounds() -> spec_fn(ProvinceView) -> Bounds {
    |p: ProvinceView| p.pixel_bounds()
}

pub open spec fn realm_pixel_bounds() -> spec_fn(RealmView) -> Bounds {
    |r: RealmView| r.pixel_bounds()
}

impl ProvinceView {
    pub open spec fn bounds(self) -> Bounds {
        Bounds { bottom_left: self.bottom_left, top_right: self.top_right }
    }

    /// In how many places the province's regions hold `px`.
    pub open spec fn pixel_count(self, px: (u16, u16)) -> nat {
        seq_sum(self.regions, region_weight(px))
    }

    /// The smallest box around every pixel beneath the province.
    pub open spec fn pixel_bounds(self) -> Bounds {
        seq_bounds(self.regions, region_pixel_bounds())
    }

    /// The boxes of the province and of everything beneath it are the
    /// smallest around their pixels.
    pub open spec fn bounds_exact(self) -> bool {
        &&& self.bounds() == self.pixel_bounds()
        &&& forall|i: int| 0 <= i < self.regions.len() ==> (#[trigger] self.regions[i]).bounds_exact()
    }

    /// The province has a region, and each of its regions owns a pixel.
    pub open spec fn populated(self) -> bool {
        &&& self.regions.len() > 0
        &&& forall|i: int| 0 <= i < self.regions.len() ==> (#[trigger] self.regions[i]).populated()
    }

    pub open spec fn within(self, canvas: Size16) -> bool {
        forall|i: int| 0 <= i < self.regions.len() ==> (#[trigger] self.regions[i]).within(canvas)
    }
}

impl RealmView {
    pub open spec fn bounds(self) -> Bounds {
        Bounds { bottom_left: self.bottom_left, top_right: self.top_right }
    }

    pub open spec fn pixel_count(self, px: (u16, u16)) -> nat {
        seq_sum(self.provinces, province_weight(px))
    }

    pub open spec fn pixel_bounds(self) -> Bounds {
        seq_bounds(self.provinces, province_pixel_bounds())
    }

    pub open spec fn bounds_exact(self) -> bool {
        &&& self.bounds() == self.pixel_bounds()
        &&& forall|i: int|
            0 <= i < self.provinces.len() ==> (#[trigger] self.provinces[i]).bounds_exact()
    }

    /// The realm has a province, and none of them is vacant at any level.
    pub open spec fn populated(self) -> bool {
        &&& self.provinces.len() > 0
        &&& forall|i: int|
            0 <= i < self.provinces.len() ==> (#[trigger] self.provinces[i]).populated()
    }

    pub open spec fn within(self, canvas: Size16) -> bool {
        forall|i: int|
            0 <= i < self.provinces.len() ==> (#[trigger] self.provinces[i]).within(canvas)
    }
}

impl ContinentView {
    pub open spec fn bounds(self) -> Bounds {
        Bounds { bottom_left: self.bottom_left, top_right: self.top_right }
    }

    pub open spec fn pixel_count(self, px: (u16, u16)) -> nat {
        seq_sum(self.realms, realm_weight(px))
    }

    pub open spec fn pixel_bounds(self) -> Bounds {
        seq_bounds(self.realms, realm_pixel_bounds())
    }

    pub open spec fn bounds_exact(self) -> bool {
        &&& self.bounds() == self.pixel_bounds()
        &&& forall|i: int| 0 <= i < self.realms.len() ==> (#[trigger] self.realms[i]).bounds_exact()
    }

    /// No realm of the continent is vacant at any level.  The continent
    /// itself may be left without a realm.
    pub open spec fn pruned(self) -> bool {
        forall|i: int| 0 <= i < self.realms.len() ==> (#[trigger] self.realms[i]).populated()
    }

    /// The continent has a realm, and none of them is vacant at any level.
    pub open spec fn populated(self) -> bool {
        self.realms.len() > 0 && self.pruned()
    }

    pub open spec fn within(self, canvas: Size16) -> bool {
        forall|i: int| 0 <= i < self.realms.len() ==> (#[trigger] self.realms[i]).within(canvas)
    }
}

impl Region {
    /// A region around `site_point` that owns no pixel yet; its box
    /// encloses nothing.
    pub fn new(site_point: Point16) -> (region: Region)
        ensures
            region@ == (RegionView {
                site_point,
                top_right: Bounds::empty().top_right,
                bottom_left: Bounds::empty().bottom_left,
                grey_value: 0,
                pixels: Seq::empty(),
            }),
            region@.bounds_exact(),
    {
        Region {
            site_point,
            top_right: Point16::new(u16::MIN, u16::MIN),
            bottom_left: Point16::new(u16::MAX, u16::MAX),
            grey_value: 0,
            pixels: Vec::new(),
        }
    }

    /// Sets the region's box to the smallest around its pixels.
    pub fn fit_bounds(&mut self)
        ensures
            final(self)@ == (RegionView {
                bottom_left: Bounds::of_pixels(old(self)@.pixels).bottom_left,
                top_right: Bounds::of_pixels(old(self)@.pixels).top_right,
                ..old(self)@
            }),
            final(self)@.bounds_exact(),
    {
        let mut bottom_left_x: u16 = u16::MAX;
        let mut bottom_left_y: u16 = u16::MAX;
        let mut top_right_x: u16 = u16::MIN;
        let mut top_right_y: u16 = u16::MIN;
        let mut j: usize = 0;
        while j < self.pixels.len()
            invariant
                j <= self.pixels.len(),
                self@ == old(self)@,
                (Bounds {
                    bottom_left: Point16 { x: bottom_left_x, y: bottom_left_y },
                    top_right: Point16 { x: top_right_x, y: top_right_y },
                }) == Bounds::of_pixels(self.pixels@.subrange(0, j as int)),
            decreases self.pixels.len() - j,
        {
            assert(self.pixels@.subrange(0, j + 1).drop_last() =~= self.pixels@.subrange(
                0,
                j as int,
            ));
            try_map_min_max_points(
                &mut bottom_left_x,
                &mut bottom_left_y,
                &mut top_right_x,
                &mut top_right_y,
                self.pixels[j].0,
                self.pixels[j].1,
            );
            j += 1;
        }
        assert(self.pixels@.subrange(0, j as int) =~= self.pixels@);
        self.top_right = Point16::new(top_right_x, top_right_y);
        self.bottom_left = Point16::new(bottom_left_x, bottom_left_y);
    }
}

/// The box of a region, of a province, of a realm: what it says its box is.
pub open spec fn region_box() -> spec_fn(RegionView) -> Bounds {
    |region: RegionView| region.bounds()
}

pub open spec fn province_box() -> spec_fn(ProvinceView) -> Bounds {
    |province: ProvinceView| province.bounds()
}

pub open spec fn realm_box() -> spec_fn(RealmView) -> Bounds {
    |realm: RealmView| realm.bounds()
}

/// The smallest box around the boxes of regions whose boxes are right: the
/// smallest around every pixel beneath them.
pub fn regions_box(regions: &Vec<Region>) -> (bounds: Bounds)
    requires
        forall|i: int| 0 <= i < regions.len() ==> (#[trigger] regions[i])@.bounds_exact(),
    ensures
        bounds == seq_bounds(regions_view(regions@), region_pixel_bounds()),
{
    let mut bottom_left = Point16::new(u16::MAX, u16::MAX);
    let mut top_right = Point16::new(u16::MIN, u16::MIN);
    let ghost all = regions_view(regions@);
    let mut i: usize = 0;
    while i < regions.len()
        invariant
            i <= regions.len(),
            all == regions_view(regions@),
            forall|k: int| 0 <= k < regions.len() ==> (#[trigger] regions[k])@.bounds_exact(),
            (Bounds { bottom_left, top_right }) == seq_bounds(
                all.subrange(0, i as int),
                region_pixel_bounds(),
            ),
        decreases regions.len() - i,
    {
        proof {
            assert(all.subrange(0, i + 1).drop_last() =~= all.subrange(0, i as int));
            assert(all.subrange(0, i + 1).last() == regions[i as int]@);
        }
        try_map_points_min_max_points_by_points(
            &mut bottom_left,
            &mut top_right,
            &regions[i].bottom_left,
            &regions[i].top_right,
        );
        i += 1;
    }
    assert(all.subrange(0, i as int) =~= all);
    Bounds { bottom_left, top_right }
}

/// The smallest box around the boxes of provinces whose boxes are right.
pub fn provinces_box(provinces: &Vec<Province>) -> (bounds: Bounds)
    requires
        forall|i: int| 0 <= i < provinces.len() ==> (#[trigger] provinces[i])@.bounds_exact(),
    ensures
        bounds == seq_bounds(provinces_view(provinces@), province_pixel_bounds()),
{
    let mut bottom_left = Point16::new(u16::MAX, u16::MAX);
    let mut top_right = Point16::new(u16::MIN, u16::MIN);
    let ghost all = provinces_view(provinces@);
    let mut i: usize = 0;
    while i < provinces.len()
        invariant
            i <= provinces.len(),
            all == provinces_view(provinces@),
            forall|k: int|
                0 <= k < provinces.len() ==> (#[trigger] provinces[k])@.bounds_exact(),
            (Bounds { bottom_left, top_right }) == seq_bounds(
                all.subrange(0, i as int),
                province_pixel_bounds(),
            ),
        decreases provinces.len() - i,
    {
        proof {
            assert(all.subrange(0, i + 1).drop_last() =~= all.subrange(0, i as int));
            assert(all.subrange(0, i + 1).last() == provinces[i as int]@);
        }
        try_map_points_min_max_points_by_points(
            &mut bottom_left,
            &mut top_right,
            &provinces[i].bottom_left,
            &provinces[i].top_right,
        );
        i += 1;
    }
    assert(all.subrange(0, i as int) =~= all);
    Bounds { bottom_left, top_right }
}

/// The smallest box around the boxes of the realms: where their boxes are
/// right, the smallest around every pixel beneath them.
pub fn realms_box(realms: &Vec<Realm>) -> (bounds: Bounds)
    ensures
        bounds == seq_bounds(realms_view(realms@), realm_box()),
        (forall|i: int| 0 <= i < realms.len() ==> (#[trigger] realms[i])@.bounds_exact())
            ==> bounds == seq_bounds(realms_view(realms@), realm_pixel_bounds()),
{
    let mut bottom_left = Point16::new(u16::MAX, u16::MAX);
    let mut top_right = Point16::new(u16::MIN, u16::MIN);
    let ghost all = realms_view(realms@);
    proof {
        if forall|i: int| 0 <= i < realms.len() ==> (#[trigger] realms[i])@.bounds_exact() {
            assert forall|i: int| 0 <= i < all.len() implies realm_box()(#[trigger] all[i])
                == realm_pixel_bounds()(all[i]) by {
                assert(all[i] == realms[i]@);
            }
            lemma_bounds_pointwise(all, realm_box(), all, realm_pixel_bounds());
        }
    }
    let mut i: usize = 0;
    while i < realms.len()
        invariant
            i <= realms.len(),
            all == realms_view(realms@),
            (Bounds { bottom_left, top_right }) == seq_bounds(
                all.subrange(0, i as int),
                realm_box(),
            ),
        decreases realms.len() - i,
    {
        proof {
            assert(all.subrange(0, i + 1).drop_last() =~= all.subrange(0, i as int));
            assert(all.subrange(0, i + 1).last() == realms[i as int]@);
        }
        try_map_points_min_max_points_by_points(
            &mut bottom_left,
            &mut top_right,
            &realms[i].bottom_left,
            &realms[i].top_right,
        );
        i += 1;
    }
    assert(all.subrange(0, i as int) =~= all);
    Bounds { bottom_left, top_right }
}

impl Province {
    /// A province without regions, whose box encloses nothing.
    pub fn new(grid_coord: Point16, site_point: Point16) -> (province: Province)
        ensures
            province@ == (ProvinceView {
                grid_coord,
                site_point,
                top_right: Bounds::empty().top_right,
                bottom_left: Bounds::empty().bottom_left,
                average_grey_value: 0,
                regions: Seq::empty(),
            }),
    {
        let province = Province {
            grid_coord,
            site_point,
            top_right: Point16::new(u16::MIN, u16::MIN),
            bottom_left: Point16::new(u16::MAX, u16::MAX),
            average_grey_value: 0,
            regions: Vec::new(),
        };
        assert(province@.regions =~= Seq::empty());
        province
    }
}

impl Realm {
    /// A realm without provinces, whose box encloses nothing.
    pub fn new(grid_coord: Point16, site_point: Point16) -> (realm: Realm)
        ensures
            realm@ == (RealmView {
                grid_coord,
                site_point,
                top_right: Bounds::empty().top_right,
                bottom_left: Bounds::empty().bottom_left,
                average_grey_value: 0,
                provinces: Seq::empty(),
            }),
    {
        let realm = Realm {
            grid_coord,
            site_point,
            top_right: Point16::new(u16::MIN, u16::MIN),
            bottom_left: Point16::new(u16::MAX, u16::MAX),
            average_grey_value: 0,
            provinces: Vec::new(),
        };
        assert(realm@.provinces =~= Seq::empty());
        realm
    }
}

impl Continent {
    /// A continent at the origin without realms, direction or elevation.
    pub fn default() -> (continent: Continent)
        ensures
            continent@ == (ContinentView {
                grid_coord: Point16 { x: 0, y: 0 },
                site_point: Point16 { x: 0, y: 0 },
                top_right: Bounds::empty().top_right,
                bottom_left: Bounds::empty().bottom_left,
                plate_movement_direction: 0,
                elevation: 0,
                realms: Seq::empty(),
            }),
    {
        Continent::new(Point16::default(), Point16::default(), 0, 0)
    }

    /// A continent without realms, whose box encloses nothing.
    pub fn new(
        grid_coord: Point16,
        site_point: Point16,
        plate_movement_direction: u8,
        elevation: u16,
    ) -> (continent: Continent)
        ensures
            continent@ == (ContinentView {
                grid_coord,
                site_point,
                top_right: Bounds::empty().top_right,
                bottom_left: Bounds::empty().bottom_left,
                plate_movement_direction,
                elevation,
                realms: Seq::empty(),
            }),
    {
        let continent = Continent {
            grid_coord,
            site_point,
            top_right: Point16::new(u16::MIN, u16::MIN),
            bottom_left: Point16::new(u16::MAX, u16::MAX),
            plate_movement_direction,
            elevation,
            realms: Vec::new(),
        };
        assert(continent@.realms =~= Seq::empty());
        continent
    }
}

} // verus!
