//! Continents by grid cell, and the planet made of two such grids.

use vstd::prelude::*;
use crate::continent::{cell_weight, column_weight, Continent, ContinentView};
use crate::point::Size16;
use crate::sums::{lemma_sum_update, seq_sum};

verus! {

/// The continents of one level of the map, one slot per grid cell; a slot
/// is vacant until a continent is put there.  Columns come first: the slot
/// of cell `(x, y)` is `columns[x][y]`.
#[derive(Debug)]
pub struct ContinentGrid {
    pub size: Size16,
    pub columns: Vec<Vec<Option<Continent>>>,
}

/// What a grid is, as a mathematical value.
pub struct GridView {
    pub size: Size16,
    pub columns: Seq<Seq<Option<ContinentView>>>,
}

pub open spec fn cell_view(cell: Option<Continent>) -> Option<ContinentView> {
    match cell {
        Some(continent) => Some(continent@),
        None => None,
    }
}

pub open spec fn column_view(column: Seq<Option<Continent>>) -> Seq<Option<ContinentView>> {
    column.map_values(|cell: Option<Continent>| cell_view(cell))
}

pub open spec fn columns_view(columns: Seq<Vec<Option<Continent>>>) -> Seq<
    Seq<Option<ContinentView>>,
> {
    columns.map_values(|column: Vec<Option<Continent>>| column_view(column@))
}

impl View for ContinentGrid {
    type V = GridView;

    open spec fn view(&self) -> GridView {
        GridView { size: self.size, columns: columns_view(self.columns@) }
    }
}

impl GridView {
    /// The grid has a slot for each cell of its size, and no other.
    pub open spec fn wf(self) -> bool {
        &&& self.columns.len() == self.size.width
        &&& forall|x: int|
            0 <= x < self.columns.len() ==> (#[trigger] self.columns[x]).len() == self.size.height
    }

    /// The grid of the given size with every slot vacant.
    pub open spec fn vacant(size: Size16) -> GridView {
        GridView {
            size,
            columns: Seq::new(
                size.width as nat,
                |x: int| Seq::new(size.height as nat, |y: int| None::<ContinentView>),
            ),
        }
    }

    /// Whether `(x, y)` is a cell of the grid.
    pub open spec fn has_cell(self, x: int, y: int) -> bool {
        0 <= x < self.size.width && 0 <= y < self.size.height
    }

    /// The continent at cell `(x, y)`, if the cell exists and is taken.
    pub open spec fn at(self, x: int, y: int) -> Option<ContinentView> {
        if 0 <= x < self.columns.len() && 0 <= y < self.columns[x].len() {
            self.columns[x][y]
        } else {
            None
        }
    }

    /// The grid with the slot of cell `(x, y)` set to `cell`.
    pub open spec fn put(self, x: int, y: int, cell: Option<ContinentView>) -> GridView {
        GridView { size: self.size, columns: self.columns.update(x, self.columns[x].update(y, cell)) }
    }

    /// In how many places the grid's continents hold the pixel `px`.
    pub open spec fn pixel_count(self, px: (u16, u16)) -> nat {
        seq_sum(self.columns, column_weight(px))
    }
}

/// Setting one slot changes the grid's count of a pixel by what the slot
/// held and what it now holds.
pub proof fn lemma_put_pixel_count(
    grid: GridView,
    x: int,
    y: int,
    cell: Option<ContinentView>,
    px: (u16, u16),
)
    requires
        grid.wf(),
        grid.has_cell(x, y),
    ensures
        grid.put(x, y, cell).wf(),
        grid.put(x, y, cell).pixel_count(px) + cell_weight(px)(grid.at(x, y)) == grid.pixel_count(px)
            + cell_weight(px)(cell),
{
    lemma_sum_update(grid.columns[x], y, cell, cell_weight(px));
    lemma_sum_update(grid.columns, x, grid.columns[x].update(y, cell), column_weight(px));
}

/// Setting one slot changes what the grid holds at that cell, and at no
/// other.
pub proof fn lemma_put_at(grid: GridView, x: int, y: int, cell: Option<ContinentView>)
    requires
        grid.wf(),
        grid.has_cell(x, y),
    ensures
        grid.put(x, y, cell).wf(),
        forall|i: int, j: int| #[trigger]
            grid.put(x, y, cell).at(i, j) == if i == x && j == y {
                cell
            } else {
                grid.at(i, j)
            },
{
}

/// Two well-formed grids of one size that hold the same at every cell are
/// the same grid.
pub proof fn lemma_grid_ext(a: GridView, b: GridView)
    requires
        a.wf(),
        b.wf(),
        a.size == b.size,
        forall|x: int, y: int| a.has_cell(x, y) ==> a.at(x, y) == b.at(x, y),
    ensures
        a == b,
{
    assert forall|x: int| 0 <= x < a.columns.len() implies a.columns[x] =~= b.columns[x] by {
        assert forall|y: int| 0 <= y < a.columns[x].len() implies a.columns[x][y]
            == b.columns[x][y] by {
            assert(a.has_cell(x, y));
            assert(a.at(x, y) == b.at(x, y));
        }
    }
    assert(a.columns =~= b.columns);
}

/// A grid with every slot vacant holds no pixel.
pub proof fn lemma_vacant_holds_nothing(size: Size16, px: (u16, u16))
    ensures
        GridView::vacant(size).pixel_count(px) == 0,
        GridView::vacant(size).wf(),
{
    let grid = GridView::vacant(size);
    assert forall|x: int| 0 <= x < grid.columns.len() implies column_weight(px)(
        #[trigger] grid.columns[x],
    ) == 0 by {
        crate::sums::lemma_sum_zero(grid.columns[x], cell_weight(px));
    }
    crate::sums::lemma_sum_zero(grid.columns, column_weight(px));
}

impl ContinentGrid {
    /// A grid of the given size with every slot vacant.
    pub fn new(size: Size16) -> (grid: ContinentGrid)
        ensures
            grid@ == GridView::vacant(size),
            grid@.wf(),
    {
        let mut columns: Vec<Vec<Option<Continent>>> = Vec::new();
        let mut x: u16 = 0;
        while x < size.width
            invariant
                x <= size.width,
                columns.len() == x,
                forall|i: int|
                    0 <= i < x ==> column_view((#[trigger] columns[i])@) == Seq::new(
                        size.height as nat,
                        |y: int| None::<ContinentView>,
                    ),
            decreases size.width - x,
        {
            let mut column: Vec<Option<Continent>> = Vec::new();
            let mut y: u16 = 0;
            while y < size.height
                invariant
                    y <= size.height,
                    column.len() == y,
                    forall|j: int| 0 <= j < y ==> (#[trigger] column[j]) is None,
                decreases size.height - y,
            {
                column.push(None);
                y += 1;
            }
            assert(column_view(column@) =~= Seq::new(
                size.height as nat,
                |y: int| None::<ContinentView>,
            ));
            columns.push(column);
            x += 1;
        }
        let grid = ContinentGrid { size, columns };
        assert(grid@.columns =~= GridView::vacant(size).columns);
        grid
    }

    /// The continent at cell `(x, y)`, or nothing where the cell is vacant
    /// or no cell of the grid.
    pub fn get(&self, x: u16, y: u16) -> (found: Option<&Continent>)
        requires
            self@.wf(),
        ensures
            match found {
                Some(continent) => self@.at(x as int, y as int) == Some(continent@),
                None => self@.at(x as int, y as int) is None,
            },
    {
        if x < self.size.width && y < self.size.height {
            assert(self@.columns[x as int].len() == self.size.height);
            self.columns[x as usize][y as usize].as_ref()
        } else {
            None
        }
    }

    /// Whether cell `(x, y)` holds a continent.
    pub fn contains_key(&self, x: u16, y: u16) -> (taken: bool)
        requires
            self@.wf(),
        ensures
            taken == self@.at(x as int, y as int).is_some(),
    {
        self.get(x, y).is_some()
    }

    /// Puts `continent` at cell `(x, y)` and hands back what the cell held.
    pub fn insert(&mut self, x: u16, y: u16, continent: Continent) -> (before: Option<Continent>)
        requires
            old(self)@.wf(),
            old(self)@.has_cell(x as int, y as int),
        ensures
            final(self)@ == old(self)@.put(x as int, y as int, Some(continent@)),
            final(self)@.wf(),
            cell_view(before) == old(self)@.at(x as int, y as int),
            forall|i: int, j: int| #[trigger]
                final(self)@.at(i, j) == if i == x && j == y {
                    Some(continent@)
                } else {
                    old(self)@.at(i, j)
                },
            forall|px: (u16, u16)| #[trigger]
                final(self)@.pixel_count(px) + cell_weight(px)(old(self)@.at(x as int, y as int))
                    == old(self)@.pixel_count(px) + continent@.pixel_count(px),
    {
        proof {
            lemma_put_at(self@, x as int, y as int, Some(continent@));
            assert forall|px: (u16, u16)| #[trigger]
                self@.put(x as int, y as int, Some(continent@)).pixel_count(px) + cell_weight(px)(
                    self@.at(x as int, y as int),
                ) == self@.pixel_count(px) + continent@.pixel_count(px) by {
                lemma_put_pixel_count(self@, x as int, y as int, Some(continent@), px);
            }
        }
        assert(self@.columns[x as int].len() == self.size.height);
        let before = self.columns[x as usize][y as usize].take();
        self.columns[x as usize][y as usize] = Some(continent);
        assert(self@.columns =~= old(self)@.put(x as int, y as int, Some(continent@)).columns) by {
            assert forall|i: int| 0 <= i < self@.columns.len() implies self@.columns[i]
                =~= old(self)@.put(x as int, y as int, Some(continent@)).columns[i] by {}
        }
        before
    }

    /// Takes the continent out of a cell that holds one.
    pub fn take(&mut self, x: u16, y: u16) -> (continent: Continent)
        requires
            old(self)@.wf(),
            old(self)@.at(x as int, y as int).is_some(),
        ensures
            continent@ == old(self)@.at(x as int, y as int).unwrap(),
            final(self)@ == old(self)@.put(x as int, y as int, None),
            final(self)@.wf(),
            forall|i: int, j: int| #[trigger]
                final(self)@.at(i, j) == if i == x && j == y {
                    None
                } else {
                    old(self)@.at(i, j)
                },
            forall|px: (u16, u16)| #[trigger]
                final(self)@.pixel_count(px) + continent@.pixel_count(px) == old(
                    self,
                )@.pixel_count(px),
    {
        match self.remove(x, y) {
            Some(continent) => continent,
            None => Continent::default(),
        }
    }

    /// Takes the continent out of cell `(x, y)`, leaving the cell vacant.
    pub fn remove(&mut self, x: u16, y: u16) -> (taken: Option<Continent>)
        requires
            old(self)@.wf(),
        ensures
            cell_view(taken) == old(self)@.at(x as int, y as int),
            final(self)@.wf(),
            final(self)@ == if old(self)@.has_cell(x as int, y as int) {
                old(self)@.put(x as int, y as int, None)
            } else {
                old(self)@
            },
            forall|i: int, j: int| #[trigger]
                final(self)@.at(i, j) == if i == x && j == y {
                    None
                } else {
                    old(self)@.at(i, j)
                },
            forall|px: (u16, u16)| #[trigger]
                final(self)@.pixel_count(px) + cell_weight(px)(old(self)@.at(x as int, y as int))
                    == old(self)@.pixel_count(px),
    {
        if x < self.size.width && y < self.size.height {
            proof {
                lemma_put_at(self@, x as int, y as int, None);
                assert forall|px: (u16, u16)| #[trigger]
                    self@.put(x as int, y as int, None).pixel_count(px) + cell_weight(px)(
                        self@.at(x as int, y as int),
                    ) == self@.pixel_count(px) by {
                    lemma_put_pixel_count(self@, x as int, y as int, None, px);
                }
            }
            assert(self@.columns[x as int].len() == self.size.height);
            let taken = self.columns[x as usize][y as usize].take();
            assert(self@.columns =~= old(self)@.put(x as int, y as int, None).columns) by {
                assert forall|i: int| 0 <= i < self@.columns.len() implies self@.columns[i]
                    =~= old(self)@.put(x as int, y as int, None).columns[i] by {}
            }
            taken
        } else {
            None
        }
    }
}

/// The finished map: the interior continents, and the strip of continents
/// folded out of the generation margin, which wraps around the image.
#[derive(Debug)]
pub struct Planet {
    pub edge_continents: ContinentGrid,
    pub continents: ContinentGrid,
}

pub struct PlanetView {
    pub edge_continents: GridView,
    pub continents: GridView,
}

impl View for Planet {
    type V = PlanetView;

    open spec fn view(&self) -> PlanetView {
        PlanetView { edge_continents: self.edge_continents@, continents: self.continents@ }
    }
}

impl PlanetView {
    pub open spec fn wf(self) -> bool {
        self.edge_continents.wf() && self.continents.wf()
    }

    /// In how many places of the whole map a region holds the pixel `px`.
    pub open spec fn pixel_count(self, px: (u16, u16)) -> nat {
        self.edge_continents.pixel_count(px) + self.continents.pixel_count(px)
    }
}

} // verus!
