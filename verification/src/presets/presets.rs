use crate::ordered::{lemma_push_keeps_order, rises};
use crate::world::coord::{in_lattice, Coord, Point};
use crate::world::world::World;
use vstd::prelude::*;

verus! {

/// What a preset holds: its name, what it is, and its cells.
pub struct PresetModel {
    pub name: Seq<char>,
    pub description: Seq<char>,
    pub cells: Seq<(i32, i32)>,
}

/// The points of `cells`, each moved by `offset`, as far as the lattice holds them.
pub open spec fn shifted_cells(cells: Seq<(i32, i32)>, offset: Point) -> Set<Point> {
    Set::new(
        |p: Point|
            in_lattice(p) && exists|i: int|
                0 <= i < cells.len() && p == (
                    offset.0 + (#[trigger] cells[i]).0,
                    offset.1 + cells[i].1,
                ),
    )
}

/// One cell comes before another where its first component is less, or the first
/// components are equal and its second is less.
pub open spec fn comes_before(p: (i32, i32), q: (i32, i32)) -> bool {
    p.0 < q.0 || (p.0 == q.0 && p.1 < q.1)
}

/// The cells of the square from `-half` to `half` in both directions at which
/// `a * x + b * y` is a multiple of `m`.
pub open spec fn on_grid_pattern(c: (i32, i32), half: int, a: int, b: int, m: int) -> bool {
    -half <= c.0 <= half && -half <= c.1 <= half && (a * c.0 + b * c.1) % m == 0
}

/// `cells` lists the cells of a grid pattern, each once, column by column.
pub open spec fn is_grid_pattern(cells: Seq<(i32, i32)>, half: int, a: int, b: int, m: int) -> bool {
    &&& forall|c: (i32, i32)| cells.contains(c) <==> on_grid_pattern(c, half, a, b, m)
    &&& forall|i: int, j: int|
        0 <= i < j < cells.len() ==> comes_before(#[trigger] cells[i], #[trigger] cells[j])
}

/// The cells of `Preset::empty`, in the order in which the preset lists them.
pub open spec fn empty_cells() -> Seq<(i32, i32)> {
    Seq::<(i32, i32)>::empty()
}

/// The cells of `Preset::blinker`, in the order in which the preset lists them.
pub open spec fn blinker_cells() -> Seq<(i32, i32)> {
    seq![
        (0i32, 0i32), (1i32, 0i32), (2i32, 0i32),
    ]
}

/// The cells of `Preset::toad`, in the order in which the preset lists them.
pub open spec fn toad_cells() -> Seq<(i32, i32)> {
    seq![
        (1i32, 0i32), (2i32, 0i32), (3i32, 0i32), (0i32, 1i32), (1i32, 1i32), (2i32, 1i32),
    ]
}

/// The cells of `Preset::beacon`, in the order in which the preset lists them.
pub open spec fn beacon_cells() -> Seq<(i32, i32)> {
    seq![
        (0i32, 0i32), (1i32, 0i32), (0i32, 1i32), (1i32, 1i32), (2i32, 2i32), (3i32, 2i32),
        (2i32, 3i32), (3i32, 3i32),
    ]
}

/// The cells of `Preset::pentadecathlon`, in the order in which the preset lists them.
pub open spec fn pentadecathlon_cells() -> Seq<(i32, i32)> {
    seq![
        (0i32, 0i32), (1i32, 0i32), (2i32, 0i32), (3i32, 0i32), (4i32, 0i32), (5i32, 0i32),
        (6i32, 0i32), (7i32, 0i32), (8i32, 0i32), (9i32, 0i32),
    ]
}

/// The cells of `Preset::pulsar`, in the order in which the preset lists them.
pub open spec fn pulsar_cells() -> Seq<(i32, i32)> {
    seq![
        (-6i32, -4i32), (-6i32, -3i32), (-6i32, -2i32), (-4i32, -6i32), (-3i32, -6i32), (-2i32, -6i32),
        (-4i32, -1i32), (-3i32, -1i32), (-2i32, -1i32), (-1i32, -4i32), (-1i32, -3i32), (-1i32, -2i32),
        (6i32, -4i32), (6i32, -3i32), (6i32, -2i32), (4i32, -6i32), (3i32, -6i32), (2i32, -6i32),
        (4i32, -1i32), (3i32, -1i32), (2i32, -1i32), (1i32, -4i32), (1i32, -3i32), (1i32, -2i32),
        (-6i32, 4i32), (-6i32, 3i32), (-6i32, 2i32), (-4i32, 6i32), (-3i32, 6i32), (-2i32, 6i32),
        (-4i32, 1i32), (-3i32, 1i32), (-2i32, 1i32), (-1i32, 4i32), (-1i32, 3i32), (-1i32, 2i32),
        (6i32, 4i32), (6i32, 3i32), (6i32, 2i32), (4i32, 6i32), (3i32, 6i32), (2i32, 6i32),
        (4i32, 1i32), (3i32, 1i32), (2i32, 1i32), (1i32, 4i32), (1i32, 3i32), (1i32, 2i32),
    ]
}

/// The cells of `Preset::glider`, in the order in which the preset lists them.
pub open spec fn glider_cells() -> Seq<(i32, i32)> {
    seq![
        (1i32, 0i32), (2i32, 1i32), (0i32, 2i32), (1i32, 2i32), (2i32, 2i32),
    ]
}

/// The cells of `Preset::lightweight_spaceship`, in the order in which the preset lists them.
pub open spec fn lightweight_spaceship_cells() -> Seq<(i32, i32)> {
    seq![
        (1i32, 0i32), (4i32, 0i32), (0i32, 1i32), (0i32, 2i32), (4i32, 2i32), (0i32, 3i32),
        (1i32, 3i32), (2i32, 3i32), (3i32, 3i32),
    ]
}

/// The cells of `Preset::mwss`, in the order in which the preset lists them.
pub open spec fn mwss_cells() -> Seq<(i32, i32)> {
    seq![
        (3i32, 0i32), (0i32, 1i32), (4i32, 1i32), (5i32, 2i32), (0i32, 3i32), (5i32, 3i32),
        (1i32, 4i32), (2i32, 4i32), (3i32, 4i32), (4i32, 4i32), (5i32, 4i32),
    ]
}

/// The cells of `Preset::hwss`, in the order in which the preset lists them.
pub open spec fn hwss_cells() -> Seq<(i32, i32)> {
    seq![
        (3i32, 0i32), (4i32, 0i32), (0i32, 1i32), (5i32, 1i32), (6i32, 2i32), (0i32, 3i32),
        (6i32, 3i32), (1i32, 4i32), (2i32, 4i32), (3i32, 4i32), (4i32, 4i32), (5i32, 4i32),
        (6i32, 4i32),
    ]
}

/// The cells of `Preset::gosper_glider_gun`, in the order in which the preset lists them.
pub open spec fn gosper_glider_gun_cells() -> Seq<(i32, i32)> {
    seq![
        (0i32, 4i32), (0i32, 5i32), (1i32, 4i32), (1i32, 5i32), (10i32, 4i32), (10i32, 5i32),
        (10i32, 6i32), (11i32, 3i32), (11i32, 7i32), (12i32, 2i32), (12i32, 8i32), (13i32, 2i32),
        (13i32, 8i32), (14i32, 5i32), (15i32, 3i32), (15i32, 7i32), (16i32, 4i32), (16i32, 5i32),
        (16i32, 6i32), (17i32, 5i32), (20i32, 2i32), (20i32, 3i32), (20i32, 4i32), (21i32, 2i32),
        (21i32, 3i32), (21i32, 4i32), (22i32, 1i32), (22i32, 5i32), (24i32, 0i32), (24i32, 1i32),
        (24i32, 5i32), (24i32, 6i32), (34i32, 2i32), (34i32, 3i32), (35i32, 2i32), (35i32, 3i32),
    ]
}

/// The cells of `Preset::r_pentomino`, in the order in which the preset lists them.
pub open spec fn r_pentomino_cells() -> Seq<(i32, i32)> {
    seq![
        (1i32, 0i32), (2i32, 0i32), (0i32, 1i32), (1i32, 1i32), (1i32, 2i32),
    ]
}

/// The cells of `Preset::diehard`, in the order in which the preset lists them.
pub open spec fn diehard_cells() -> Seq<(i32, i32)> {
    seq![
        (6i32, 0i32), (0i32, 1i32), (1i32, 1i32), (1i32, 2i32), (5i32, 2i32), (6i32, 2i32),
        (7i32, 2i32),
    ]
}

/// The cells of `Preset::acorn`, in the order in which the preset lists them.
pub open spec fn acorn_cells() -> Seq<(i32, i32)> {
    seq![
        (1i32, 0i32), (3i32, 1i32), (0i32, 2i32), (1i32, 2i32), (4i32, 2i32), (5i32, 2i32),
        (6i32, 2i32),
    ]
}

/// The cells of `Preset::block`, in the order in which the preset lists them.
pub open spec fn block_cells() -> Seq<(i32, i32)> {
    seq![
        (0i32, 0i32), (1i32, 0i32), (0i32, 1i32), (1i32, 1i32),
    ]
}

/// The cells of `Preset::beehive`, in the order in which the preset lists them.
pub open spec fn beehive_cells() -> Seq<(i32, i32)> {
    seq![
        (1i32, 0i32), (2i32, 0i32), (0i32, 1i32), (3i32, 1i32), (1i32, 2i32), (2i32, 2i32),
    ]
}

/// The cells of `Preset::loaf`, in the order in which the preset lists them.
pub open spec fn loaf_cells() -> Seq<(i32, i32)> {
    seq![
        (1i32, 0i32), (2i32, 0i32), (0i32, 1i32), (3i32, 1i32), (1i32, 2i32), (3i32, 2i32),
        (2i32, 3i32),
    ]
}
/// What `Preset::empty` holds.
pub open spec fn is_empty(m: PresetModel) -> bool {
    m.name == "Empty"@ && m.description == "Пустой мир без активных ячеек"@ && m.cells == empty_cells()
}

/// What `Preset::random_small` holds.
pub open spec fn is_random_small(m: PresetModel) -> bool {
    m.name == "Random Small"@ && m.description == "Случайное распределение ячеек (20x20)"@ && is_grid_pattern(m.cells, 10, 7, 13, 3)
}

/// What `Preset::random_medium` holds.
pub open spec fn is_random_medium(m: PresetModel) -> bool {
    m.name == "Random Medium"@ && m.description == "Случайное распределение ячеек (50x50)"@ && is_grid_pattern(m.cells, 25, 11, 17, 4)
}

/// What `Preset::blinker` holds.
pub open spec fn is_blinker(m: PresetModel) -> bool {
    m.name == "Blinker"@ && m.description == "Простой осциллятор с периодом 2"@ && m.cells == blinker_cells()
}

/// What `Preset::toad` holds.
pub open spec fn is_toad(m: PresetModel) -> bool {
    m.name == "Toad"@ && m.description == "Осциллятор 'жаба' с периодом 2"@ && m.cells == toad_cells()
}

/// What `Preset::beacon` holds.
pub open spec fn is_beacon(m: PresetModel) -> bool {
    m.name == "Beacon"@ && m.description == "Осциллятор 'маяк' с периодом 2"@ && m.cells == beacon_cells()
}

/// What `Preset::pentadecathlon` holds.
pub open spec fn is_pentadecathlon(m: PresetModel) -> bool {
    m.name == "Pentadecathlon"@ && m.description == "Осциллятор с периодом 15 - один из самых известных долгопериодных осцилляторов"@ && m.cells == pentadecathlon_cells()
}

/// What `Preset::pulsar` holds.
pub open spec fn is_pulsar(m: PresetModel) -> bool {
    m.name == "Pulsar"@ && m.description == "Красивый симметричный осциллятор периода 3"@ && m.cells == pulsar_cells()
}

/// What `Preset::glider` holds.
pub open spec fn is_glider(m: PresetModel) -> bool {
    m.name == "Glider"@ && m.description == "Классический глайдер - движется по диагонали"@ && m.cells == glider_cells()
}

/// What `Preset::lightweight_spaceship` holds.
pub open spec fn is_lightweight_spaceship(m: PresetModel) -> bool {
    m.name == "LWSS"@ && m.description == "Легкий космический корабль - движется горизонтально"@ && m.cells == lightweight_spaceship_cells()
}

/// What `Preset::mwss` holds.
pub open spec fn is_mwss(m: PresetModel) -> bool {
    m.name == "MWSS"@ && m.description == "Средний космический корабль - движется горизонтально"@ && m.cells == mwss_cells()
}

/// What `Preset::hwss` holds.
pub open spec fn is_hwss(m: PresetModel) -> bool {
    m.name == "HWSS"@ && m.description == "Тяжёлый космический корабль - крупнейший стандартный корабль"@ && m.cells == hwss_cells()
}

/// What `Preset::gosper_glider_gun` holds.
pub open spec fn is_gosper_glider_gun(m: PresetModel) -> bool {
    m.name == "Gosper Glider Gun"@ && m.description == "Легендарная пушка глайдеров - производит бесконечный поток глайдеров"@ && m.cells == gosper_glider_gun_cells()
}

/// What `Preset::r_pentomino` holds.
pub open spec fn is_r_pentomino(m: PresetModel) -> bool {
    m.name == "R-pentomino"@ && m.description == "Метузелах из 5 клеток - эволюционирует 1103 поколения перед стабилизацией"@ && m.cells == r_pentomino_cells()
}

/// What `Preset::diehard` holds.
pub open spec fn is_diehard(m: PresetModel) -> bool {
    m.name == "Diehard"@ && m.description == "Метузелах, который полностью исчезает после 130 поколений"@ && m.cells == diehard_cells()
}

/// What `Preset::acorn` holds.
pub open spec fn is_acorn(m: PresetModel) -> bool {
    m.name == "Acorn"@ && m.description == "Метузелах из 7 клеток - стабилизируется после 5206 поколений"@ && m.cells == acorn_cells()
}

/// What `Preset::block` holds.
pub open spec fn is_block(m: PresetModel) -> bool {
    m.name == "Block"@ && m.description == "Блок 2x2 - простейшая стабильная структура"@ && m.cells == block_cells()
}

/// What `Preset::beehive` holds.
pub open spec fn is_beehive(m: PresetModel) -> bool {
    m.name == "Beehive"@ && m.description == "Улей - стабильная шестиугольная структура"@ && m.cells == beehive_cells()
}

/// What `Preset::loaf` holds.
pub open spec fn is_loaf(m: PresetModel) -> bool {
    m.name == "Loaf"@ && m.description == "Буханка - стабильная асимметричная структура"@ && m.cells == loaf_cells()
}

/// The names of the catalogue, in its order.
pub open spec fn catalog_names() -> Seq<Seq<char>> {
    seq![
        "Empty"@,
        "Random Small"@,
        "Random Medium"@,
        "Blinker"@,
        "Toad"@,
        "Beacon"@,
        "Pentadecathlon"@,
        "Pulsar"@,
        "Glider"@,
        "LWSS"@,
        "MWSS"@,
        "HWSS"@,
        "Gosper Glider Gun"@,
        "R-pentomino"@,
        "Diehard"@,
        "Acorn"@,
        "Block"@,
        "Beehive"@,
        "Loaf"@,
    ]
}

/// What the catalogue holds at the place `i`.
pub open spec fn is_catalog_entry(i: int, m: PresetModel) -> bool {
    if i == 0 {
        is_empty(m)
    } else if i == 1 {
        is_random_small(m)
    } else if i == 2 {
        is_random_medium(m)
    } else if i == 3 {
        is_blinker(m)
    } else if i == 4 {
        is_toad(m)
    } else if i == 5 {
        is_beacon(m)
    } else if i == 6 {
        is_pentadecathlon(m)
    } else if i == 7 {
        is_pulsar(m)
    } else if i == 8 {
        is_glider(m)
    } else if i == 9 {
        is_lightweight_spaceship(m)
    } else if i == 10 {
        is_mwss(m)
    } else if i == 11 {
        is_hwss(m)
    } else if i == 12 {
        is_gosper_glider_gun(m)
    } else if i == 13 {
        is_r_pentomino(m)
    } else if i == 14 {
        is_diehard(m)
    } else if i == 15 {
        is_acorn(m)
    } else if i == 16 {
        is_block(m)
    } else if i == 17 {
        is_beehive(m)
    } else {
        i == 18 && is_loaf(m)
    }
}

/// The number of presets in the catalogue.
pub const CATALOG_LEN: usize = 19;

/// The lower-case form that the standard library gives to a string.
pub uninterp spec fn lowercase_of(s: Seq<char>) -> Seq<char>;

/// `i` is the place of the first of `names` that equals `key`.
pub open spec fn is_first_index_of(names: Seq<Seq<char>>, key: Seq<char>, i: int) -> bool {
    &&& 0 <= i < names.len()
    &&& names[i] == key
    &&& forall|j: int| 0 <= j < i ==> #[trigger] names[j] != key
}

/// The names of the catalogue in lower case.
pub open spec fn folded_catalog_names() -> Seq<Seq<char>> {
    catalog_names().map_values(|n: Seq<char>| lowercase_of(n))
}

/// A named seed of live cells.
#[derive(Debug)]
pub struct Preset {
    pub name: String,
    pub description: String,
    pub cells: Vec<(i32, i32)>,
}

impl View for Preset {
    type V = PresetModel;

    open spec fn view(&self) -> PresetModel {
        PresetModel { name: self.name@, description: self.description@, cells: self.cells@ }
    }
}

impl Clone for Preset {
    fn clone(&self) -> (preset: Self)
        ensures
            preset@ == self@,
    {
        let mut cells: Vec<(i32, i32)> = Vec::new();
        let mut i: usize = 0;
        while i < self.cells.len()
            invariant
                i <= self.cells.len(),
                cells@ == self.cells@.take(i as int),
            decreases self.cells.len() - i,
        {
            cells.push(self.cells[i]);
            i = i + 1;
        }
        assert(self.cells@.take(i as int) =~= self.cells@);
        Self { name: self.name.clone(), description: self.description.clone(), cells }
    }
}

impl Preset {
    /// A preset of that name, description and cells.
    pub fn new(name: &str, description: &str, cells: Vec<(i32, i32)>) -> (preset: Self)
        ensures
            preset@ == (PresetModel { name: name@, description: description@, cells: cells@ }),
    {
        Self { name: name.to_owned(), description: description.to_owned(), cells }
    }

    /// Empties `world` and puts the cells there, each moved by `offset`. A cell that
    /// the lattice does not hold after the move is left out.
    pub fn load_into(&self, world: &mut World, offset: Coord)
        ensures
            final(world)@ == shifted_cells(self@.cells, offset@),
    {
        world.clear();
        let mut i: usize = 0;
        while i < self.cells.len()
            invariant
                i <= self.cells.len(),
                world@ == shifted_cells(self.cells@.take(i as int), offset@),
            decreases self.cells.len() - i,
        {
            let (x, y) = self.cells[i];
            match (offset.x.checked_add(x), offset.y.checked_add(y)) {
                (Some(cx), Some(cy)) => {
                    world.set_cell(Coord::new(cx, cy), true);
                },
                _ => {},
            }
            proof {
                lemma_shifted_cells_step(self.cells@, i as int, offset@);
            }
            i = i + 1;
        }
        assert(self.cells@.take(i as int) =~= self.cells@);
    }

    /// A new world with the cells where the preset has them.
    pub fn to_world(&self) -> (world: World)
        ensures
            world@ == shifted_cells(self@.cells, (0, 0)),
    {
        let mut world = World::new();
        self.load_into(&mut world, Coord::new(0, 0));
        world
    }
}

/// The first `i + 1` cells give the shifted points of the first `i`, and that of
/// the cell at `i` where the lattice holds it.
proof fn lemma_shifted_cells_step(cells: Seq<(i32, i32)>, i: int, offset: Point)
    requires
        0 <= i < cells.len(),
    ensures
        in_lattice((offset.0 + cells[i].0, offset.1 + cells[i].1)) ==> shifted_cells(
            cells.take(i + 1),
            offset,
        ) == shifted_cells(cells.take(i), offset).insert(
            (offset.0 + cells[i].0, offset.1 + cells[i].1),
        ),
        !in_lattice((offset.0 + cells[i].0, offset.1 + cells[i].1)) ==> shifted_cells(
            cells.take(i + 1),
            offset,
        ) == shifted_cells(cells.take(i), offset),
        shifted_cells(cells.take(0), offset) == Set::<Point>::empty(),
{
    let shorter = cells.take(i);
    let longer = cells.take(i + 1);
    let new = (offset.0 + cells[i].0, offset.1 + cells[i].1);
    assert forall|p: Point|
        shifted_cells(longer, offset).contains(p) <==> shifted_cells(shorter, offset).contains(p)
            || (in_lattice(p) && p == new) by {
        if shifted_cells(longer, offset).contains(p) {
            let j = choose|j: int|
                0 <= j < longer.len() && p == (
                    offset.0 + (#[trigger] longer[j]).0,
                    offset.1 + longer[j].1,
                );
            if j < i {
                assert(shorter[j] == longer[j]);
            }
        }
        if shifted_cells(shorter, offset).contains(p) {
            let j = choose|j: int|
                0 <= j < shorter.len() && p == (
                    offset.0 + (#[trigger] shorter[j]).0,
                    offset.1 + shorter[j].1,
                );
            assert(longer[j] == shorter[j]);
        }
        if in_lattice(p) && p == new {
            assert(longer[i] == cells[i]);
        }
    }
    if in_lattice(new) {
        assert(shifted_cells(longer, offset) =~= shifted_cells(shorter, offset).insert(new));
    } else {
        assert(shifted_cells(longer, offset) =~= shifted_cells(shorter, offset));
    }
    assert(shifted_cells(cells.take(0), offset) =~= Set::<Point>::empty());
}

impl Preset {
    /// A world without a live cell.
    pub fn empty() -> (preset: Self)
        ensures
            is_empty(preset@),
    {
        let cells: Vec<(i32, i32)> = Vec::new();
        assert(cells@ =~= empty_cells());
        Self::new("Empty", "Пустой мир без активных ячеек", cells)
    }

    /// Three cells in a row: an oscillator of period 2.
    pub fn blinker() -> (preset: Self)
        ensures
            is_blinker(preset@),
    {
        let cells: Vec<(i32, i32)> = vec![
            (0, 0), (1, 0), (2, 0),
        ];
        assert(cells@ =~= blinker_cells());
        Self::new("Blinker", "Простой осциллятор с периодом 2", cells)
    }

    /// An oscillator of period 2.
    pub fn toad() -> (preset: Self)
        ensures
            is_toad(preset@),
    {
        let cells: Vec<(i32, i32)> = vec![
            (1, 0), (2, 0), (3, 0), (0, 1), (1, 1), (2, 1),
        ];
        assert(cells@ =~= toad_cells());
        Self::new("Toad", "Осциллятор 'жаба' с периодом 2", cells)
    }

    /// Two blocks that touch at a corner: an oscillator of period 2.
    pub fn beacon() -> (preset: Self)
        ensures
            is_beacon(preset@),
    {
        let cells: Vec<(i32, i32)> = vec![
            (0, 0), (1, 0), (0, 1), (1, 1), (2, 2), (3, 2),
            (2, 3), (3, 3),
        ];
        assert(cells@ =~= beacon_cells());
        Self::new("Beacon", "Осциллятор 'маяк' с периодом 2", cells)
    }

    /// Ten cells in a row, which settle into an oscillator of period 15.
    pub fn pentadecathlon() -> (preset: Self)
        ensures
            is_pentadecathlon(preset@),
    {
        let cells: Vec<(i32, i32)> = vec![
            (0, 0), (1, 0), (2, 0), (3, 0), (4, 0), (5, 0),
            (6, 0), (7, 0), (8, 0), (9, 0),
        ];
        assert(cells@ =~= pentadecathlon_cells());
        Self::new("Pentadecathlon", "Осциллятор с периодом 15 - один из самых известных долгопериодных осцилляторов", cells)
    }

    /// A symmetric oscillator of period 3.
    pub fn pulsar() -> (preset: Self)
        ensures
            is_pulsar(preset@),
    {
        let cells: Vec<(i32, i32)> = vec![
            (-6, -4), (-6, -3), (-6, -2), (-4, -6), (-3, -6), (-2, -6),
            (-4, -1), (-3, -1), (-2, -1), (-1, -4), (-1, -3), (-1, -2),
            (6, -4), (6, -3), (6, -2), (4, -6), (3, -6), (2, -6),
            (4, -1), (3, -1), (2, -1), (1, -4), (1, -3), (1, -2),
            (-6, 4), (-6, 3), (-6, 2), (-4, 6), (-3, 6), (-2, 6),
            (-4, 1), (-3, 1), (-2, 1), (-1, 4), (-1, 3), (-1, 2),
            (6, 4), (6, 3), (6, 2), (4, 6), (3, 6), (2, 6),
            (4, 1), (3, 1), (2, 1), (1, 4), (1, 3), (1, 2),
        ];
        assert(cells@ =~= pulsar_cells());
        Self::new("Pulsar", "Красивый симметричный осциллятор периода 3", cells)
    }

    /// The smallest spaceship. It moves along the diagonal.
    pub fn glider() -> (preset: Self)
        ensures
            is_glider(preset@),
    {
        let cells: Vec<(i32, i32)> = vec![
            (1, 0), (2, 1), (0, 2), (1, 2), (2, 2),
        ];
        assert(cells@ =~= glider_cells());
        Self::new("Glider", "Классический глайдер - движется по диагонали", cells)
    }

    /// The lightweight spaceship. It moves along a row.
    pub fn lightweight_spaceship() -> (preset: Self)
        ensures
            is_lightweight_spaceship(preset@),
    {
        let cells: Vec<(i32, i32)> = vec![
            (1, 0), (4, 0), (0, 1), (0, 2), (4, 2), (0, 3),
            (1, 3), (2, 3), (3, 3),
        ];
        assert(cells@ =~= lightweight_spaceship_cells());
        Self::new("LWSS", "Легкий космический корабль - движется горизонтально", cells)
    }

    /// The middleweight spaceship.
    pub fn mwss() -> (preset: Self)
        ensures
            is_mwss(preset@),
    {
        let cells: Vec<(i32, i32)> = vec![
            (3, 0), (0, 1), (4, 1), (5, 2), (0, 3), (5, 3),
            (1, 4), (2, 4), (3, 4), (4, 4), (5, 4),
        ];
        assert(cells@ =~= mwss_cells());
        Self::new("MWSS", "Средний космический корабль - движется горизонтально", cells)
    }

    /// The heavyweight spaceship.
    pub fn hwss() -> (preset: Self)
        ensures
            is_hwss(preset@),
    {
        let cells: Vec<(i32, i32)> = vec![
            (3, 0), (4, 0), (0, 1), (5, 1), (6, 2), (0, 3),
            (6, 3), (1, 4), (2, 4), (3, 4), (4, 4), (5, 4),
            (6, 4),
        ];
        assert(cells@ =~= hwss_cells());
        Self::new("HWSS", "Тяжёлый космический корабль - крупнейший стандартный корабль", cells)
    }

    /// The gun that sends out a glider every 30 generations.
    pub fn gosper_glider_gun() -> (preset: Self)
        ensures
            is_gosper_glider_gun(preset@),
    {
        let cells: Vec<(i32, i32)> = vec![
            (0, 4), (0, 5), (1, 4), (1, 5), (10, 4), (10, 5),
            (10, 6), (11, 3), (11, 7), (12, 2), (12, 8), (13, 2),
            (13, 8), (14, 5), (15, 3), (15, 7), (16, 4), (16, 5),
            (16, 6), (17, 5), (20, 2), (20, 3), (20, 4), (21, 2),
            (21, 3), (21, 4), (22, 1), (22, 5), (24, 0), (24, 1),
            (24, 5), (24, 6), (34, 2), (34, 3), (35, 2), (35, 3),
        ];
        assert(cells@ =~= gosper_glider_gun_cells());
        Self::new("Gosper Glider Gun", "Легендарная пушка глайдеров - производит бесконечный поток глайдеров", cells)
    }

    /// Five cells that take 1103 generations to settle.
    pub fn r_pentomino() -> (preset: Self)
        ensures
            is_r_pentomino(preset@),
    {
        let cells: Vec<(i32, i32)> = vec![
            (1, 0), (2, 0), (0, 1), (1, 1), (1, 2),
        ];
        assert(cells@ =~= r_pentomino_cells());
        Self::new("R-pentomino", "Метузелах из 5 клеток - эволюционирует 1103 поколения перед стабилизацией", cells)
    }

    /// Seven cells that vanish after 130 generations.
    pub fn diehard() -> (preset: Self)
        ensures
            is_diehard(preset@),
    {
        let cells: Vec<(i32, i32)> = vec![
            (6, 0), (0, 1), (1, 1), (1, 2), (5, 2), (6, 2),
            (7, 2),
        ];
        assert(cells@ =~= diehard_cells());
        Self::new("Diehard", "Метузелах, который полностью исчезает после 130 поколений", cells)
    }

    /// Seven cells that take 5206 generations to settle.
    pub fn acorn() -> (preset: Self)
        ensures
            is_acorn(preset@),
    {
        let cells: Vec<(i32, i32)> = vec![
            (1, 0), (3, 1), (0, 2), (1, 2), (4, 2), (5, 2),
            (6, 2),
        ];
        assert(cells@ =~= acorn_cells());
        Self::new("Acorn", "Метузелах из 7 клеток - стабилизируется после 5206 поколений", cells)
    }

    /// Four cells in a square: a still life.
    pub fn block() -> (preset: Self)
        ensures
            is_block(preset@),
    {
        let cells: Vec<(i32, i32)> = vec![
            (0, 0), (1, 0), (0, 1), (1, 1),
        ];
        assert(cells@ =~= block_cells());
        Self::new("Block", "Блок 2x2 - простейшая стабильная структура", cells)
    }

    /// A still life of six cells.
    pub fn beehive() -> (preset: Self)
        ensures
            is_beehive(preset@),
    {
        let cells: Vec<(i32, i32)> = vec![
            (1, 0), (2, 0), (0, 1), (3, 1), (1, 2), (2, 2),
        ];
        assert(cells@ =~= beehive_cells());
        Self::new("Beehive", "Улей - стабильная шестиугольная структура", cells)
    }

    /// A still life of seven cells.
    pub fn loaf() -> (preset: Self)
        ensures
            is_loaf(preset@),
    {
        let cells: Vec<(i32, i32)> = vec![
            (1, 0), (2, 0), (0, 1), (3, 1), (1, 2), (3, 2),
            (2, 3),
        ];
        assert(cells@ =~= loaf_cells());
        Self::new("Loaf", "Буханка - стабильная асимметричная структура", cells)
    }

    /// A fixed scatter of cells over the square from -10 to 10.
    pub fn random_small() -> (preset: Self)
        ensures
            is_random_small(preset@),
    {
        let cells = grid_pattern(10, 7, 13, 3);
        Self::new("Random Small", "Случайное распределение ячеек (20x20)", cells)
    }

    /// A fixed scatter of cells over the square from -25 to 25.
    pub fn random_medium() -> (preset: Self)
        ensures
            is_random_medium(preset@),
    {
        let cells = grid_pattern(25, 11, 17, 4);
        Self::new("Random Medium", "Случайное распределение ячеек (50x50)", cells)
    }

    /// The catalogue: every preset, in a fixed order.
    pub fn all() -> (presets: Vec<Preset>)
        ensures
            presets@.len() == CATALOG_LEN,
            forall|i: int| 0 <= i < CATALOG_LEN ==> is_catalog_entry(i, (#[trigger] presets@[i])@),
            forall|i: int|
                0 <= i < CATALOG_LEN ==> (#[trigger] presets@[i])@.name == catalog_names()[i],
    {
        let mut presets: Vec<Preset> = Vec::new();
        presets.push(Self::empty());
        presets.push(Self::random_small());
        presets.push(Self::random_medium());
        presets.push(Self::blinker());
        presets.push(Self::toad());
        presets.push(Self::beacon());
        presets.push(Self::pentadecathlon());
        presets.push(Self::pulsar());
        presets.push(Self::glider());
        presets.push(Self::lightweight_spaceship());
        presets.push(Self::mwss());
        presets.push(Self::hwss());
        presets.push(Self::gosper_glider_gun());
        presets.push(Self::r_pentomino());
        presets.push(Self::diehard());
        presets.push(Self::acorn());
        presets.push(Self::block());
        presets.push(Self::beehive());
        presets.push(Self::loaf());
        presets
    }

    /// The first preset of the catalogue whose name is `name`, upper and lower case
    /// taken as one.
    pub fn find(name: &str) -> (found: Option<Preset>)
        ensures
            match found {
                Some(preset) => exists|i: int|
                    #[trigger] is_first_index_of(folded_catalog_names(), lowercase_of(name@), i)
                        && is_catalog_entry(i, preset@),
                None => forall|i: int|
                    0 <= i < CATALOG_LEN ==> #[trigger] folded_catalog_names()[i] != lowercase_of(
                        name@,
                    ),
            },
    {
        let presets = Self::all();
        let key = to_lowercase(name);
        let mut folded: Vec<String> = Vec::new();
        let mut i: usize = 0;
        while i < presets.len()
            invariant
                i <= presets.len(),
                presets@.len() == CATALOG_LEN,
                forall|j: int|
                    0 <= j < CATALOG_LEN ==> (#[trigger] presets@[j])@.name == catalog_names()[j],
                folded@.len() == i,
                forall|j: int| 0 <= j < i ==> (#[trigger] folded@[j])@ == folded_catalog_names()[j],
            decreases presets.len() - i,
        {
            folded.push(to_lowercase(presets[i].name.as_str()));
            i = i + 1;
        }
        match first_match(&folded, &key) {
            Some(at) => {
                let preset = presets[at].clone();
                proof {
                    assert(preset@ == presets@[at as int]@);
                    assert(is_first_index_of(
                        folded_catalog_names(),
                        lowercase_of(name@),
                        at as int,
                    )) by {
                        assert forall|j: int| 0 <= j < at implies #[trigger] folded_catalog_names()[j]
                            != lowercase_of(name@) by {
                            assert(folded@[j]@ == folded_catalog_names()[j]);
                        }
                        assert(folded@[at as int]@ == folded_catalog_names()[at as int]);
                    }
                    assert(is_catalog_entry(at as int, presets@[at as int]@));
                }
                Some(preset)
            },
            None => {
                proof {
                    assert forall|j: int| 0 <= j < CATALOG_LEN implies #[trigger] folded_catalog_names()[j]
                        != lowercase_of(name@) by {
                        assert(folded@[j]@ == folded_catalog_names()[j]);
                    }
                }
                None
            },
        }
    }
}

/// The place of the first of `names` that equals `key`, where there is one.
pub fn first_match(names: &Vec<String>, key: &String) -> (found: Option<usize>)
    ensures
        match found {
            Some(i) => i < names@.len() && names@[i as int]@ == key@ && forall|j: int|
                0 <= j < i ==> (#[trigger] names@[j])@ != key@,
            None => forall|j: int| 0 <= j < names@.len() ==> (#[trigger] names@[j])@ != key@,
        },
{
    let mut i: usize = 0;
    while i < names.len()
        invariant
            i <= names.len(),
            forall|j: int| 0 <= j < i ==> (#[trigger] names@[j])@ != key@,
        decreases names.len() - i,
    {
        if names[i] == *key {
            return Some(i);
        }
        i = i + 1;
    }
    None
}

/// `str::to_lowercase` of the standard library: the lower-case form of `s`, which
/// depends on nothing but `s`.
#[verifier::external_body]
fn to_lowercase(s: &str) -> (folded: String)
    ensures
        folded@ == lowercase_of(s@),
{
    s.to_lowercase()
}

/// The cells of a grid pattern, column by column.
fn grid_pattern(half: i32, a: i32, b: i32, m: i32) -> (cells: Vec<(i32, i32)>)
    requires
        0 <= half <= 1000,
        0 <= a <= 1000,
        0 <= b <= 1000,
        0 < m <= 1000,
    ensures
        is_grid_pattern(cells@, half as int, a as int, b as int, m as int),
{
    let mut cells: Vec<(i32, i32)> = Vec::new();
    let mut x: i32 = -half;
    while x <= half
        invariant
            0 <= half <= 1000,
            0 <= a <= 1000,
            0 <= b <= 1000,
            0 < m <= 1000,
            -half <= x <= half + 1,
            forall|c: (i32, i32)| #[trigger]
                cells@.contains(c) <==> on_grid_pattern(c, half as int, a as int, b as int, m as int)
                    && c.0 < x,
            forall|i: int, j: int|
                0 <= i < j < cells@.len() ==> comes_before(
                    #[trigger] cells@[i],
                    #[trigger] cells@[j],
                ),
        decreases half + 1 - x,
    {
        let mut y: i32 = -half;
        while y <= half
            invariant
                0 <= half <= 1000,
                0 <= a <= 1000,
                0 <= b <= 1000,
                0 < m <= 1000,
                -half <= x <= half,
                -half <= y <= half + 1,
                forall|c: (i32, i32)| #[trigger]
                    cells@.contains(c) <==> on_grid_pattern(
                        c,
                        half as int,
                        a as int,
                        b as int,
                        m as int,
                    ) && comes_before(c, (x, y)),
                forall|i: int, j: int|
                    0 <= i < j < cells@.len() ==> comes_before(
                        #[trigger] cells@[i],
                        #[trigger] cells@[j],
                    ),
            decreases half + 1 - y,
        {
            assert(-1_000_000 <= x * a <= 1_000_000 && -1_000_000 <= y * b <= 1_000_000 && x * a
                + y * b == a * x + b * y) by (nonlinear_arith)
                requires
                    -1000 <= x <= 1000,
                    -1000 <= y <= 1000,
                    0 <= a <= 1000,
                    0 <= b <= 1000,
            ;
            let v: i32 = x * a + y * b;
            let ghost before = cells@;
            proof {
                lemma_divisible_either_sign(v as int, m as int);
                assert(on_grid_pattern((x, y), half as int, a as int, b as int, m as int) <==> (v
                    as int) % (m as int) == 0);
            }
            if v % m == 0 {
                cells.push((x, y));
                proof {
                    let less = |p: (i32, i32), q: (i32, i32)| comes_before(p, q);
                    assert(rises(before, less));
                    lemma_push_keeps_order(before, (x, y), less);
                    assert(rises(cells@, less));
                }
            }
            proof {
                assert((v % m == 0) <==> (v as int) % (m as int) == 0);
                assert forall|c: (i32, i32)| #[trigger]
                    cells@.contains(c) <==> on_grid_pattern(
                        c,
                        half as int,
                        a as int,
                        b as int,
                        m as int,
                    ) && comes_before(c, (x, (y + 1) as i32)) by {
                    assert(comes_before(c, (x, (y + 1) as i32)) <==> comes_before(c, (x, y)) || c
                        == (x, y));
                    assert(before.contains(c) <==> on_grid_pattern(
                        c,
                        half as int,
                        a as int,
                        b as int,
                        m as int,
                    ) && comes_before(c, (x, y)));
                }
            }
            y = y + 1;
        }
        x = x + 1;
    }
    cells
}

/// A number is a multiple of `m` exactly when its negative is.
proof fn lemma_divisible_either_sign(v: int, m: int)
    requires
        m > 0,
    ensures
        (v % m == 0) <==> ((-v) % m == 0),
{
    vstd::arithmetic::div_mod::lemma_fundamental_div_mod(v, m);
    vstd::arithmetic::div_mod::lemma_fundamental_div_mod(-v, m);
    if v % m == 0 {
        let q = -(v / m);
        assert(-v == q * m + 0) by (nonlinear_arith)
            requires
                v == m * (v / m),
                q == -(v / m),
        ;
        vstd::arithmetic::div_mod::lemma_fundamental_div_mod_converse(-v, m, q, 0);
    }
    if (-v) % m == 0 {
        let q = -((-v) / m);
        assert(v == q * m + 0) by (nonlinear_arith)
            requires
                -v == m * ((-v) / m),
                q == -((-v) / m),
        ;
        vstd::arithmetic::div_mod::lemma_fundamental_div_mod_converse(v, m, q, 0);
    }
}

} // verus!
