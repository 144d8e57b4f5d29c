//! The gathering of each level under the level above: every child goes to
//! the parent with the nearest site.

use vstd::prelude::*;
use crate::continent::{
    provinces_view, realms_view, regions_view, ContinentView, Province, ProvinceView, Realm,
    RealmView, Region, RegionView,
};
use crate::error::WorldError;
use crate::grid::{ContinentGrid, GridView};
use crate::point::{
    calculate_distance, distance_squared_spec, try_map_points_min_max_points_by_points, Point16,
    Size16,
};
use crate::settings::{ContinentBuilderSettings, PlanetSettings};

verus! {

/// What a child needs to know of the parent at one grid cell: the parent's
/// site, and where the parent stands in its list.
#[derive(Clone, Copy, Debug, PartialEq, Eq, Structural)]
pub struct ParentSlot {
    pub site: Point16,
    pub index: usize,
}

/// The parents of one level by grid cell: the slot of cell `(x, y)` is
/// `slots[x][y]`.
#[derive(Debug)]
pub struct ParentTable {
    pub size: Size16,
    pub slots: Vec<Vec<ParentSlot>>,
}

impl View for ParentTable {
    type V = Seq<Seq<ParentSlot>>;

    open spec fn view(&self) -> Seq<Seq<ParentSlot>> {
        self.slots@.map_values(|column: Vec<ParentSlot>| column@)
    }
}

impl ParentTable {
    /// The table has a slot for each cell of its size, and the grid is not
    /// empty.
    pub open spec fn wf(&self) -> bool {
        &&& self.size.width > 0
        &&& self.size.height > 0
        &&& self@.len() == self.size.width
        &&& forall|x: int| 0 <= x < self@.len() ==> (#[trigger] self@[x]).len() == self.size.height
    }
}

/// The grid cell that a site falls into, for cells of the given size.
pub open spec fn home_cell(site: Point16, cell_size: Size16) -> (int, int) {
    (site.x as int / cell_size.width as int, site.y as int / cell_size.height as int)
}

/// The `k`-th cell of the three-by-three window around `home`, columns
/// first: the window is walked column by column, each from the lower row up.
pub open spec fn window_cell(home: (int, int), k: int) -> (int, int) {
    (home.0 - 1 + k / 3, home.1 - 1 + k % 3)
}

/// The cell whose parent is nearest to `site` among the first `n` cells of
/// the window around `home`, cells off the grid left out.  A later cell
/// wins only where its parent is strictly nearer.
pub open spec fn window_pick(
    slots: Seq<Seq<ParentSlot>>,
    size: Size16,
    home: (int, int),
    site: Point16,
    n: nat,
) -> Option<(int, int)>
    decreases n,
{
    if n == 0 {
        None
    } else {
        let before = window_pick(slots, size, home, site, (n - 1) as nat);
        let cell = window_cell(home, n - 1);
        if !(0 <= cell.0 < size.width && 0 <= cell.1 < size.height) {
            before
        } else {
            match before {
                None => Some(cell),
                Some(best) => if distance_squared_spec(site, slots[cell.0][cell.1].site)
                    < distance_squared_spec(site, slots[best.0][best.1].site) {
                    Some(cell)
                } else {
                    before
                },
            }
        }
    }
}

/// The grid cell of the parent that adopts a child at `site`: the nearest
/// within the window around the child's home cell, and the cell at the
/// origin where no cell of the window lies on the grid.
pub open spec fn nearest_cell(
    slots: Seq<Seq<ParentSlot>>,
    size: Size16,
    cell_size: Size16,
    site: Point16,
) -> (int, int) {
    match window_pick(slots, size, home_cell(site, cell_size), site, 9) {
        Some(cell) => cell,
        None => (0, 0),
    }
}

/// Whatever the window picks is a cell of the grid and of the window.
pub proof fn lemma_window_pick_on_grid(
    slots: Seq<Seq<ParentSlot>>,
    size: Size16,
    home: (int, int),
    site: Point16,
    n: nat,
)
    ensures
        window_pick(slots, size, home, site, n) matches Some(cell) ==> {
            &&& 0 <= cell.0 < size.width
            &&& 0 <= cell.1 < size.height
            &&& exists|k: int| 0 <= k < n && cell == #[trigger] window_cell(home, k)
        },
    decreases n,
{
    if n > 0 {
        lemma_window_pick_on_grid(slots, size, home, site, (n - 1) as nat);
        let before = window_pick(slots, size, home, site, (n - 1) as nat);
        let cell = window_cell(home, n - 1);
        match window_pick(slots, size, home, site, n) {
            Some(picked) => {
                if picked == cell {
                    assert(picked == window_cell(home, n - 1));
                } else {
                    let k = choose|k: int| 0 <= k < n - 1 && picked == #[trigger] window_cell(home, k);
                    assert(picked == window_cell(home, k));
                }
            },
            None => {},
        }
    }
}

/// No parent in the window is strictly nearer to the site than the one
/// picked, and none that comes before it in the walk is as near.
pub proof fn lemma_window_pick_is_nearest(
    slots: Seq<Seq<ParentSlot>>,
    size: Size16,
    home: (int, int),
    site: Point16,
    n: nat,
    k: int,
)
    requires
        0 <= k < n,
        0 <= window_cell(home, k).0 < size.width,
        0 <= window_cell(home, k).1 < size.height,
    ensures
        window_pick(slots, size, home, site, n) matches Some(best) && {
            let other = window_cell(home, k);
            &&& distance_squared_spec(site, slots[best.0][best.1].site) <= distance_squared_spec(
                site,
                slots[other.0][other.1].site,
            )
            &&& forall|b: int|
                k < b < n && best == #[trigger] window_cell(home, b) && best != other
                    ==> distance_squared_spec(site, slots[best.0][best.1].site)
                    < distance_squared_spec(site, slots[other.0][other.1].site)
        },
    decreases n,
{
    if k < n - 1 {
        lemma_window_pick_is_nearest(slots, size, home, site, (n - 1) as nat, k);
        lemma_window_pick_on_grid(slots, size, home, site, (n - 1) as nat);
        let before = window_pick(slots, size, home, site, (n - 1) as nat).unwrap();
        let now = window_pick(slots, size, home, site, n).unwrap();
        let other = window_cell(home, k);
        assert forall|b: int| k < b < n && now == #[trigger] window_cell(home, b) && now
            != other implies distance_squared_spec(site, slots[now.0][now.1].site)
            < distance_squared_spec(site, slots[other.0][other.1].site) by {
            if now == before {
                if b == n - 1 {
                    let earlier = choose|e: int|
                        0 <= e < n - 1 && before == #[trigger] window_cell(home, e);
                    lemma_window_cell_injective(home, earlier, b);
                } else {
                    assert(before == window_cell(home, b));
                }
            }
        }
    } else {
        lemma_window_pick_on_grid(slots, size, home, site, (n - 1) as nat);
        let now = window_pick(slots, size, home, site, n).unwrap();
        let other = window_cell(home, k);
        assert forall|b: int| k < b < n && now == #[trigger] window_cell(home, b) && now
            != other implies distance_squared_spec(site, slots[now.0][now.1].site)
            < distance_squared_spec(site, slots[other.0][other.1].site) by {}
    }
}

/// The walk of the window visits no cell twice.
pub proof fn lemma_window_cell_injective(home: (int, int), a: int, b: int)
    requires
        0 <= a,
        0 <= b,
        window_cell(home, a) == window_cell(home, b),
    ensures
        a == b,
{
}

/// Finds the grid cell of the parent that adopts a child at `site`.
pub fn find_nearest(table: &ParentTable, cell_size: &Size16, site: &Point16) -> (cell: Point16)
    requires
        table.wf(),
        cell_size.width > 0,
        cell_size.height > 0,
    ensures
        (cell.x as int, cell.y as int) == nearest_cell(table@, table.size, *cell_size, *site),
        cell.x < table.size.width,
        cell.y < table.size.height,
{
    let home_x: i32 = (site.x / cell_size.width) as i32;
    let home_y: i32 = (site.y / cell_size.height) as i32;
    let ghost home = home_cell(*site, *cell_size);
    let mut best: Option<Point16> = None;
    let mut best_distance: u64 = 0;
    let mut dx: i32 = 0;
    while dx < 3
        invariant
            0 <= dx <= 3,
            table.wf(),
            home == (home_x as int, home_y as int),
            0 <= home_x <= u16::MAX,
            0 <= home_y <= u16::MAX,
            match best {
                Some(cell) => {
                    &&& window_pick(table@, table.size, home, *site, (dx * 3) as nat) == Some(
                        (cell.x as int, cell.y as int),
                    )
                    &&& cell.x < table.size.width
                    &&& cell.y < table.size.height
                    &&& best_distance == distance_squared_spec(
                        *site,
                        table@[cell.x as int][cell.y as int].site,
                    )
                },
                None => window_pick(table@, table.size, home, *site, (dx * 3) as nat) is None,
            },
        decreases 3 - dx,
    {
        let mut dy: i32 = 0;
        while dy < 3
            invariant
                0 <= dx < 3,
                0 <= dy <= 3,
                table.wf(),
                home == (home_x as int, home_y as int),
                0 <= home_x <= u16::MAX,
                0 <= home_y <= u16::MAX,
                match best {
                    Some(cell) => {
                        &&& window_pick(table@, table.size, home, *site, (dx * 3 + dy) as nat)
                            == Some((cell.x as int, cell.y as int))
                        &&& cell.x < table.size.width
                        &&& cell.y < table.size.height
                        &&& best_distance == distance_squared_spec(
                            *site,
                            table@[cell.x as int][cell.y as int].site,
                        )
                    },
                    None => window_pick(table@, table.size, home, *site, (dx * 3 + dy) as nat)
                        is None,
                },
            decreases 3 - dy,
        {
            let bx: i32 = home_x - 1 + dx;
            let by: i32 = home_y - 1 + dy;
            assert(window_cell(home, dx * 3 + dy) == (bx as int, by as int));
            if bx >= 0 && by >= 0 && bx < table.size.width as i32 && by < table.size.height as i32 {
                assert(table@[bx as int].len() == table.size.height);
                let slot = table.slots[bx as usize][by as usize];
                let distance = calculate_distance(site, &slot.site);
                let nearer = match best {
                    Some(_) => distance < best_distance,
                    None => true,
                };
                if nearer {
                    best = Some(Point16::new(bx as u16, by as u16));
                    best_distance = distance;
                }
            }
            dy += 1;
        }
        dx += 1;
    }
    match best {
        Some(cell) => cell,
        None => Point16::new(0, 0),
    }
}

/// Where the last parent that claims grid cell `(x, y)` stands in the list
/// of parents; `keys` gives each parent's grid cell and site.
pub open spec fn last_at(keys: Seq<(Point16, Point16)>, x: int, y: int) -> Option<int>
    decreases keys.len(),
{
    if keys.len() == 0 {
        None
    } else if keys.last().0.x == x && keys.last().0.y == y {
        Some(keys.len() - 1)
    } else {
        last_at(keys.drop_last(), x, y)
    }
}

/// The parents cover the grid: the grid is not empty, and every cell of it
/// is claimed by a parent.
pub open spec fn covers(keys: Seq<(Point16, Point16)>, size: Size16) -> bool {
    &&& size.width > 0
    &&& size.height > 0
    &&& forall|x: int, y: int|
        0 <= x < size.width && 0 <= y < size.height ==> (#[trigger] last_at(keys, x, y)).is_some()
}

/// The slot of grid cell `(x, y)`: the last parent that claims the cell.
pub open spec fn slot_of(keys: Seq<(Point16, Point16)>, x: int, y: int) -> ParentSlot {
    ParentSlot {
        site: keys[last_at(keys, x, y).unwrap()].1,
        index: last_at(keys, x, y).unwrap() as usize,
    }
}

/// The table of the parents that cover a grid of the given size.
pub open spec fn table_of(keys: Seq<(Point16, Point16)>, size: Size16) -> Seq<Seq<ParentSlot>> {
    Seq::new(
        size.width as nat,
        |x: int| Seq::new(size.height as nat, |y: int| slot_of(keys, x, y)),
    )
}

/// A parent that claims a cell stands in the list.
pub proof fn lemma_last_at_in_list(keys: Seq<(Point16, Point16)>, x: int, y: int)
    ensures
        last_at(keys, x, y) matches Some(i) ==> 0 <= i < keys.len() && keys[i].0.x == x
            && keys[i].0.y == y,
    decreases keys.len(),
{
    if keys.len() > 0 {
        lemma_last_at_in_list(keys.drop_last(), x, y);
    }
}

/// Lays the parents out by grid cell, or finds a cell that none claims.
pub fn build_table(keys: &Vec<(Point16, Point16)>, size: Size16) -> (table: Option<ParentTable>)
    ensures
        match table {
            Some(t) => covers(keys@, size) && t.wf() && t.size == size && t@ == table_of(
                keys@,
                size,
            ),
            None => !covers(keys@, size),
        },
{
    if size.width == 0 || size.height == 0 {
        return None;
    }
    let mut claimed: Vec<Vec<Option<usize>>> = Vec::new();
    let mut x: u16 = 0;
    while x < size.width
        invariant
            x <= size.width,
            claimed.len() == x,
            forall|i: int| 0 <= i < x ==> (#[trigger] claimed[i]).len() == size.height,
            forall|i: int, j: int|
                0 <= i < x && 0 <= j < size.height ==> (#[trigger] claimed[i][j]) is None,
        decreases size.width - x,
    {
        let mut column: Vec<Option<usize>> = Vec::new();
        let mut y: u16 = 0;
        while y < size.height
            invariant
                y <= size.height,
                column.len() == y,
                forall|j: int| 0 <= j < y ==> (#[trigger] column[j]) is None,
            decreases size.height - y,
        {
            column.push(None);
            y += 1;
        }
        claimed.push(column);
        x += 1;
    }
    let mut k: usize = 0;
    while k < keys.len()
        invariant
            k <= keys.len(),
            claimed.len() == size.width,
            forall|i: int| 0 <= i < size.width ==> (#[trigger] claimed[i]).len() == size.height,
            forall|i: int, j: int|
                0 <= i < size.width && 0 <= j < size.height ==> match #[trigger] claimed[i][j] {
                    Some(at) => last_at(keys@.subrange(0, k as int), i, j) == Some(at as int),
                    None => last_at(keys@.subrange(0, k as int), i, j) is None,
                },
        decreases keys.len() - k,
    {
        let coord = keys[k].0;
        assert(keys@.subrange(0, k + 1).drop_last() =~= keys@.subrange(0, k as int));
        if coord.x < size.width && coord.y < size.height {
            claimed[coord.x as usize][coord.y as usize] = Some(k);
        }
        k += 1;
    }
    assert(keys@.subrange(0, k as int) =~= keys@);
    let mut slots: Vec<Vec<ParentSlot>> = Vec::new();
    let mut x: u16 = 0;
    while x < size.width
        invariant
            x <= size.width,
            slots.len() == x,
            claimed.len() == size.width,
            forall|i: int| 0 <= i < size.width ==> (#[trigger] claimed[i]).len() == size.height,
            forall|i: int, j: int|
                0 <= i < size.width && 0 <= j < size.height ==> match #[trigger] claimed[i][j] {
                    Some(at) => last_at(keys@, i, j) == Some(at as int),
                    None => last_at(keys@, i, j) is None,
                },
            forall|i: int, j: int|
                0 <= i < x && 0 <= j < size.height ==> (#[trigger] last_at(keys@, i, j)).is_some(),
            forall|i: int|
                0 <= i < x ==> (#[trigger] slots[i])@ == Seq::new(
                    size.height as nat,
                    |y: int| slot_of(keys@, i, y),
                ),
        decreases size.width - x,
    {
        let mut column: Vec<ParentSlot> = Vec::new();
        let mut y: u16 = 0;
        while y < size.height
            invariant
                x < size.width,
                y <= size.height,
                column.len() == y,
                claimed.len() == size.width,
                forall|i: int| 0 <= i < size.width ==> (#[trigger] claimed[i]).len() == size.height,
                forall|i: int, j: int|
                    0 <= i < size.width && 0 <= j < size.height ==> match #[trigger] claimed[i][j] {
                        Some(at) => last_at(keys@, i, j) == Some(at as int),
                        None => last_at(keys@, i, j) is None,
                    },
                forall|j: int| 0 <= j < y ==> (#[trigger] last_at(keys@, x as int, j)).is_some(),
                forall|j: int| 0 <= j < y ==> (#[trigger] column[j]) == slot_of(keys@, x as int, j),
            decreases size.height - y,
        {
            match claimed[x as usize][y as usize] {
                Some(at) => {
                    proof {
                        lemma_last_at_in_list(keys@, x as int, y as int);
                    }
                    column.push(ParentSlot { site: keys[at].1, index: at });
                },
                None => {
                    assert(last_at(keys@, x as int, y as int) is None);
                    return None;
                },
            }
            y += 1;
        }
        assert(column@ =~= Seq::new(size.height as nat, |y: int| slot_of(keys@, x as int, y)));
        slots.push(column);
        x += 1;
    }
    let table = ParentTable { size, slots };
    assert(table@ =~= table_of(keys@, size));
    Some(table)
}

/// The grid cell and the site of each province, in list order.
pub open spec fn province_keys(provinces: Seq<ProvinceView>) -> Seq<(Point16, Point16)> {
    provinces.map_values(|p: ProvinceView| (p.grid_coord, p.site_point))
}

/// The province after it adopted `child`: the child comes last among its
/// regions, and its box has grown around the child's.
pub open spec fn adopt_region(parent: ProvinceView, child: RegionView) -> ProvinceView {
    ProvinceView {
        bottom_left: parent.bounds().merge(child.bounds()).bottom_left,
        top_right: parent.bounds().merge(child.bounds()).top_right,
        regions: parent.regions.push(child),
        ..parent
    }
}

/// Where the parent that adopts a child at `site` stands in its list.
pub open spec fn adopter(
    slots: Seq<Seq<ParentSlot>>,
    size: Size16,
    cell_size: Size16,
    site: Point16,
) -> int {
    let cell = nearest_cell(slots, size, cell_size, site);
    slots[cell.0][cell.1].index as int
}

/// The provinces after they adopted `regions`, one after the other, each
/// by the province nearest to its site.
pub open spec fn adopt_regions(
    provinces: Seq<ProvinceView>,
    regions: Seq<RegionView>,
    slots: Seq<Seq<ParentSlot>>,
    size: Size16,
    cell_size: Size16,
) -> Seq<ProvinceView>
    decreases regions.len(),
{
    if regions.len() == 0 {
        provinces
    } else {
        let before = adopt_regions(provinces, regions.drop_last(), slots, size, cell_size);
        let parent = adopter(slots, size, cell_size, regions.last().site_point);
        before.update(parent, adopt_region(before[parent], regions.last()))
    }
}

/// Gives every region to the province whose site is nearest to the
/// region's, among the provinces of the three-by-three window of grid
/// cells around the cell that the region's site falls into.  The province
/// takes the region behind those it has and grows its box around the
/// region's.  Fails, and changes nothing, where a cell of the province grid
/// has no province.
pub fn assign_regions_to_provinces(
    regions: Vec<Region>,
    provinces: &mut Vec<Province>,
    settings: &ContinentBuilderSettings,
) -> (outcome: Result<(), WorldError>)
    requires
        settings.province_cell_size.width > 0,
        settings.province_cell_size.height > 0,
    ensures
        match outcome {
            Ok(_) => {
                &&& covers(
                    province_keys(provinces_view(old(provinces)@)),
                    settings.province_grid_size,
                )
                &&& provinces_view(final(provinces)@) == adopt_regions(
                    provinces_view(old(provinces)@),
                    regions_view(regions@),
                    table_of(
                        province_keys(provinces_view(old(provinces)@)),
                        settings.province_grid_size,
                    ),
                    settings.province_grid_size,
                    settings.province_cell_size,
                )
                &&& final(provinces).len() == old(provinces).len()
            },
            Err(error) => {
                &&& error == WorldError::MissingEntity
                &&& !covers(
                    province_keys(provinces_view(old(provinces)@)),
                    settings.province_grid_size,
                )
                &&& final(provinces)@ == old(provinces)@
            },
        },
{
    let ghost parents = provinces_view(provinces@);
    let ghost children = regions_view(regions@);
    let mut keys: Vec<(Point16, Point16)> = Vec::new();
    let mut k: usize = 0;
    while k < provinces.len()
        invariant
            k <= provinces.len(),
            keys.len() == k,
            provinces@ == old(provinces)@,
            forall|i: int|
                0 <= i < k ==> (#[trigger] keys[i]) == (
                    provinces[i].grid_coord,
                    provinces[i].site_point,
                ),
        decreases provinces.len() - k,
    {
        keys.push((provinces[k].grid_coord, provinces[k].site_point));
        k += 1;
    }
    assert(keys@ =~= province_keys(parents));
    let table = match build_table(&keys, settings.province_grid_size) {
        Some(table) => table,
        None => { return Err(WorldError::MissingEntity); },
    };
    let ghost all = regions@;
    let count: usize = provinces.len();
    for region in it: regions
        invariant
            it.seq() == all,
            children == regions_view(all),
            table.wf(),
            table.size == settings.province_grid_size,
            table@ == table_of(keys@, settings.province_grid_size),
            covers(keys@, settings.province_grid_size),
            settings.province_cell_size.width > 0,
            settings.province_cell_size.height > 0,
            provinces.len() == count,
            keys.len() == count,
            provinces_view(provinces@) == adopt_regions(
                parents,
                children.subrange(0, it.index() as int),
                table@,
                settings.province_grid_size,
                settings.province_cell_size,
            ),
    {
        let ghost done = children.subrange(0, it.index() as int);
        let ghost before = provinces_view(provinces@);
        let cell = find_nearest(&table, &settings.province_cell_size, &region.site_point);
        assert(table@[cell.x as int].len() == table.size.height);
        let index: usize = table.slots[cell.x as usize][cell.y as usize].index;
        proof {
            lemma_last_at_in_list(keys@, cell.x as int, cell.y as int);
            assert(last_at(keys@, cell.x as int, cell.y as int).is_some());
            assert(children.subrange(0, it.index() + 1).drop_last() =~= done);
            assert(children.subrange(0, it.index() + 1).last() == region@);
        }
        let parent = &mut provinces[index];
        try_map_points_min_max_points_by_points(
            &mut parent.bottom_left,
            &mut parent.top_right,
            &region.bottom_left,
            &region.top_right,
        );
        parent.regions.push(region);
        proof {
            assert(provinces[index as int]@.regions =~= before[index as int].regions.push(region@));
            assert(provinces_view(provinces@) =~= before.update(
                index as int,
                adopt_region(before[index as int], region@),
            ));
        }
    }
    assert(children.subrange(0, all.len() as int) =~= children);
    Ok(())
}

/// The grid cell and the site of each realm, in list order.
pub open spec fn realm_keys(realms: Seq<RealmView>) -> Seq<(Point16, Point16)> {
    realms.map_values(|p: RealmView| (p.grid_coord, p.site_point))
}

/// The realm after it adopted `child`: the child comes last among its
/// provinces, and its box has grown around the child's.
pub open spec fn adopt_province(parent: RealmView, child: ProvinceView) -> RealmView {
    RealmView {
        bottom_left: parent.bounds().merge(child.bounds()).bottom_left,
        top_right: parent.bounds().merge(child.bounds()).top_right,
        provinces: parent.provinces.push(child),
        ..parent
    }
}

/// The realms after they adopted `provinces`, one after the other, each by
/// the realm nearest to its site.
pub open spec fn adopt_provinces(
    realms: Seq<RealmView>,
    provinces: Seq<ProvinceView>,
    slots: Seq<Seq<ParentSlot>>,
    size: Size16,
    cell_size: Size16,
) -> Seq<RealmView>
    decreases provinces.len(),
{
    if provinces.len() == 0 {
        realms
    } else {
        let before = adopt_provinces(realms, provinces.drop_last(), slots, size, cell_size);
        let parent = adopter(slots, size, cell_size, provinces.last().site_point);
        before.update(parent, adopt_province(before[parent], provinces.last()))
    }
}

/// Gives every province to the realm whose site is nearest to the
/// province's, among the realms of the three-by-three window of grid cells
/// around the cell that the province's site falls into.  The realm takes
/// the province behind those it has and grows its box around the
/// province's.  Fails, and changes nothing, where a cell of the realm grid
/// has no realm.
pub fn assign_provinces_to_realms(
    provinces: Vec<Province>,
    realms: &mut Vec<Realm>,
    settings: &ContinentBuilderSettings,
) -> (outcome: Result<(), WorldError>)
    requires
        settings.realm_cell_size.width > 0,
        settings.realm_cell_size.height > 0,
    ensures
        match outcome {
            Ok(_) => {
                &&& covers(
                    realm_keys(realms_view(old(realms)@)),
                    settings.realm_grid_size,
                )
                &&& realms_view(final(realms)@) == adopt_provinces(
                    realms_view(old(realms)@),
                    provinces_view(provinces@),
                    table_of(
                        realm_keys(realms_view(old(realms)@)),
                        settings.realm_grid_size,
                    ),
                    settings.realm_grid_size,
                    settings.realm_cell_size,
                )
                &&& final(realms).len() == old(realms).len()
            },
            Err(error) => {
                &&& error == WorldError::MissingEntity
                &&& !covers(
                    realm_keys(realms_view(old(realms)@)),
                    settings.realm_grid_size,
                )
                &&& final(realms)@ == old(realms)@
            },
        },
{
    let ghost parents = realms_view(realms@);
    let ghost children = provinces_view(provinces@);
    let mut keys: Vec<(Point16, Point16)> = Vec::new();
    let mut k: usize = 0;
    while k < realms.len()
        invariant
            k <= realms.len(),
            keys.len() == k,
            realms@ == old(realms)@,
            forall|i: int|
                0 <= i < k ==> (#[trigger] keys[i]) == (
                    realms[i].grid_coord,
                    realms[i].site_point,
                ),
        decreases realms.len() - k,
    {
        keys.push((realms[k].grid_coord, realms[k].site_point));
        k += 1;
    }
    assert(keys@ =~= realm_keys(parents));
    let table = match build_table(&keys, settings.realm_grid_size) {
        Some(table) => table,
        None => { return Err(WorldError::MissingEntity); },
    };
    let ghost all = provinces@;
    let count: usize = realms.len();
    for province in it: provinces
        invariant
            it.seq() == all,
            children == provinces_view(all),
            table.wf(),
            table.size == settings.realm_grid_size,
            table@ == table_of(keys@, settings.realm_grid_size),
            covers(keys@, settings.realm_grid_size),
            settings.realm_cell_size.width > 0,
            settings.realm_cell_size.height > 0,
            realms.len() == count,
            keys.len() == count,
            realms_view(realms@) == adopt_provinces(
                parents,
                children.subrange(0, it.index() as int),
                table@,
                settings.realm_grid_size,
                settings.realm_cell_size,
            ),
    {
        let ghost done = children.subrange(0, it.index() as int);
        let ghost before = realms_view(realms@);
        let cell = find_nearest(&table, &settings.realm_cell_size, &province.site_point);
        assert(table@[cell.x as int].len() == table.size.height);
        let index: usize = table.slots[cell.x as usize][cell.y as usize].index;
        proof {
            lemma_last_at_in_list(keys@, cell.x as int, cell.y as int);
            assert(last_at(keys@, cell.x as int, cell.y as int).is_some());
            assert(children.subrange(0, it.index() + 1).drop_last() =~= done);
            assert(children.subrange(0, it.index() + 1).last() == province@);
        }
        let parent = &mut realms[index];
        try_map_points_min_max_points_by_points(
            &mut parent.bottom_left,
            &mut parent.top_right,
            &province.bottom_left,
            &province.top_right,
        );
        parent.provinces.push(province);
        proof {
            assert(realms[index as int]@.provinces =~= before[index as int].provinces.push(province@));
            assert(realms_view(realms@) =~= before.update(
                index as int,
                adopt_province(before[index as int], province@),
            ));
        }
    }
    assert(children.subrange(0, all.len() as int) =~= children);
    Ok(())
}


/// Every cell of the grid holds a continent, and the grid is not empty.
pub open spec fn grid_complete(grid: GridView) -> bool {
    &&& grid.wf()
    &&& grid.size.width > 0
    &&& grid.size.height > 0
    &&& forall|x: int, y: int| grid.has_cell(x, y) ==> (#[trigger] grid.at(x, y)).is_some()
}

/// The table of the continents of a complete grid.  A continent is found
/// by its cell, so its slot carries no index.
pub open spec fn grid_table(grid: GridView) -> Seq<Seq<ParentSlot>> {
    Seq::new(
        grid.size.width as nat,
        |x: int|
            Seq::new(
                grid.size.height as nat,
                |y: int| ParentSlot { site: grid.at(x, y).unwrap().site_point, index: 0 },
            ),
    )
}

/// The continent after it adopted `child`: the child comes last among its
/// realms, and its box has grown around the child's.
pub open spec fn adopt_realm(parent: ContinentView, child: RealmView) -> ContinentView {
    ContinentView {
        bottom_left: parent.bounds().merge(child.bounds()).bottom_left,
        top_right: parent.bounds().merge(child.bounds()).top_right,
        realms: parent.realms.push(child),
        ..parent
    }
}

/// The grid after its continents adopted `realms`, one after the other,
/// each by the continent nearest to its site.
pub open spec fn adopt_realms(
    grid: GridView,
    realms: Seq<RealmView>,
    slots: Seq<Seq<ParentSlot>>,
    cell_size: Size16,
) -> GridView
    decreases realms.len(),
{
    if realms.len() == 0 {
        grid
    } else {
        let before = adopt_realms(grid, realms.drop_last(), slots, cell_size);
        let cell = nearest_cell(slots, grid.size, cell_size, realms.last().site_point);
        before.put(
            cell.0,
            cell.1,
            Some(adopt_realm(before.at(cell.0, cell.1).unwrap(), realms.last())),
        )
    }
}

/// Lays the sites of the grid's continents out by cell, or finds a vacant
/// cell.
fn build_grid_table(continents: &ContinentGrid) -> (table: Option<ParentTable>)
    requires
        continents@.wf(),
    ensures
        match table {
            Some(t) => grid_complete(continents@) && t.wf() && t.size == continents.size && t@
                == grid_table(continents@),
            None => !grid_complete(continents@),
        },
{
    let size = continents.size;
    if size.width == 0 || size.height == 0 {
        return None;
    }
    let mut slots: Vec<Vec<ParentSlot>> = Vec::new();
    let mut x: u16 = 0;
    while x < size.width
        invariant
            x <= size.width,
            size == continents.size,
            continents@.wf(),
            slots.len() == x,
            forall|i: int, j: int|
                0 <= i < x && 0 <= j < size.height ==> (#[trigger] continents@.at(i, j)).is_some(),
            forall|i: int|
                0 <= i < x ==> (#[trigger] slots[i])@ == Seq::new(
                    size.height as nat,
                    |y: int| ParentSlot { site: continents@.at(i, y).unwrap().site_point, index: 0 },
                ),
        decreases size.width - x,
    {
        let mut column: Vec<ParentSlot> = Vec::new();
        let mut y: u16 = 0;
        while y < size.height
            invariant
                x < size.width,
                y <= size.height,
                size == continents.size,
                continents@.wf(),
                column.len() == y,
                forall|j: int|
                    0 <= j < y ==> (#[trigger] continents@.at(x as int, j)).is_some(),
                forall|j: int|
                    0 <= j < y ==> (#[trigger] column[j]) == (ParentSlot {
                        site: continents@.at(x as int, j).unwrap().site_point,
                        index: 0,
                    }),
            decreases size.height - y,
        {
            match continents.get(x, y) {
                Some(continent) => {
                    column.push(ParentSlot { site: continent.site_point, index: 0 });
                },
                None => {
                    assert(continents@.has_cell(x as int, y as int));
                    return None;
                },
            }
            y += 1;
        }
        assert(column@ =~= Seq::new(
            size.height as nat,
            |y: int| ParentSlot { site: continents@.at(x as int, y).unwrap().site_point, index: 0 },
        ));
        slots.push(column);
        x += 1;
    }
    let table = ParentTable { size, slots };
    assert(table@ =~= grid_table(continents@));
    Some(table)
}

/// Gives every realm to the continent whose site is nearest to the
/// realm's, among the continents of the three-by-three window of grid cells
/// around the cell that the realm's site falls into.  The continent takes
/// the realm behind those it has and grows its box around the realm's.
/// Fails, and changes nothing, where a cell of the grid is vacant.
pub fn assign_realms_to_continents(
    realms: Vec<Realm>,
    continents: &mut ContinentGrid,
    planet_settings: &PlanetSettings,
) -> (outcome: Result<(), WorldError>)
    requires
        old(continents)@.wf(),
        planet_settings.continent_cell_size.width > 0,
        planet_settings.continent_cell_size.height > 0,
    ensures
        match outcome {
            Ok(_) => {
                &&& grid_complete(old(continents)@)
                &&& final(continents)@ == adopt_realms(
                    old(continents)@,
                    realms_view(realms@),
                    grid_table(old(continents)@),
                    planet_settings.continent_cell_size,
                )
                &&& grid_complete(final(continents)@)
                &&& final(continents)@.size == old(continents)@.size
            },
            Err(error) => {
                &&& error == WorldError::MissingEntity
                &&& !grid_complete(old(continents)@)
                &&& final(continents)@ == old(continents)@
            },
        },
{
    let ghost parents = continents@;
    let ghost children = realms_view(realms@);
    let table = match build_grid_table(continents) {
        Some(table) => table,
        None => { return Err(WorldError::MissingEntity); },
    };
    let ghost all = realms@;
    for realm in it: realms
        invariant
            it.seq() == all,
            children == realms_view(all),
            table.wf(),
            table.size == parents.size,
            table@ == grid_table(parents),
            planet_settings.continent_cell_size.width > 0,
            planet_settings.continent_cell_size.height > 0,
            grid_complete(continents@),
            continents@.size == parents.size,
            continents@ == adopt_realms(
                parents,
                children.subrange(0, it.index() as int),
                table@,
                planet_settings.continent_cell_size,
            ),
    {
        let ghost done = children.subrange(0, it.index() as int);
        let ghost before = continents@;
        let cell = find_nearest(&table, &planet_settings.continent_cell_size, &realm.site_point);
        proof {
            assert(children.subrange(0, it.index() + 1).drop_last() =~= done);
            assert(children.subrange(0, it.index() + 1).last() == realm@);
            assert(before.has_cell(cell.x as int, cell.y as int));
            assert(before.at(cell.x as int, cell.y as int).is_some());
        }
        let mut parent = continents.take(cell.x, cell.y);
        try_map_points_min_max_points_by_points(
            &mut parent.bottom_left,
            &mut parent.top_right,
            &realm.bottom_left,
            &realm.top_right,
        );
        let ghost kept = parent@;
        parent.realms.push(realm);
        proof {
            assert(parent@.realms =~= kept.realms.push(realm@));
        }
        continents.insert(cell.x, cell.y, parent);
        proof {
            let target = before.put(
                cell.x as int,
                cell.y as int,
                Some(adopt_realm(before.at(cell.x as int, cell.y as int).unwrap(), realm@)),
            );
            crate::grid::lemma_put_at(
                before,
                cell.x as int,
                cell.y as int,
                Some(adopt_realm(before.at(cell.x as int, cell.y as int).unwrap(), realm@)),
            );
            crate::grid::lemma_grid_ext(continents@, target);
        }
    }
    assert(children.subrange(0, all.len() as int) =~= children);
    Ok(())
}

} // verus!
