use crate::api::control::saturated;
use crate::errors::{ApiError, ApiResult};
use crate::ordered::{lemma_push_keeps_order, rises};
use crate::presets::presets::{
    folded_catalog_names, is_catalog_entry, is_first_index_of, lowercase_of, shifted_cells, Preset,
    PresetModel, CATALOG_LEN,
};
use crate::simulation::simulation::{Simulation, SimulationModel};
use crate::world::coord::{Coord, Point};
use crate::world::world::World;
use vstd::prelude::*;

verus! {

/// The rectangle of a request for a region, by two opposite corners, both inside.
#[derive(Debug)]
pub struct GetRegionQuery {
    pub x1: i32,
    pub y1: i32,
    pub x2: i32,
    pub y2: i32,
}

/// The live cells of a rectangle, and the rectangle.
#[derive(Debug)]
pub struct RegionResponse {
    pub cells: Vec<CellData>,
    pub bounds: BoundsData,
}

/// A live cell.
#[derive(Debug, Clone, Copy, PartialEq, Eq, Structural)]
pub struct CellData {
    pub x: i32,
    pub y: i32,
}

/// A rectangle, by two opposite corners, both inside.
#[derive(Debug, Clone, Copy, PartialEq, Eq, Structural)]
pub struct BoundsData {
    pub x1: i32,
    pub y1: i32,
    pub x2: i32,
    pub y2: i32,
}

/// A request to make one cell alive or dead.
#[derive(Debug)]
pub struct SetCellRequest {
    pub x: i32,
    pub y: i32,
    pub alive: bool,
}

/// What a request on cells is answered with: the cell, its state, and the number of
/// live cells after the request.
#[derive(Debug, Clone, Copy, PartialEq, Eq, Structural)]
pub struct SetCellResponse {
    pub x: i32,
    pub y: i32,
    pub alive: bool,
    pub active_cells: usize,
}

/// A request to load a preset of the catalogue, moved by an offset.
#[derive(Debug)]
pub struct LoadPresetRequest {
    pub name: String,
    pub offset_x: i32,
    pub offset_y: i32,
}

/// The catalogue, as a caller is told of it.
#[derive(Debug)]
pub struct PresetsListResponse {
    pub presets: Vec<PresetInfo>,
}

/// One preset of the catalogue, as a caller is told of it.
#[derive(Debug)]
pub struct PresetInfo {
    pub name: String,
    pub description: String,
    pub cell_count: usize,
}

/// What a request to load a preset is answered with.
#[derive(Debug)]
pub struct LoadPresetResponse {
    pub preset_name: String,
    pub active_cells: usize,
}

impl View for CellData {
    type V = Point;

    open spec fn view(&self) -> Point {
        (self.x as int, self.y as int)
    }
}

/// `c` lies in the rectangle of `query`.
pub open spec fn in_region(query: GetRegionQuery, c: CellData) -> bool {
    query.x1 <= c.x <= query.x2 && query.y1 <= c.y <= query.y2
}

/// One cell comes before another where its `x` is less, or the two are equal in `x`
/// and its `y` is less.
pub open spec fn cell_before(a: CellData, b: CellData) -> bool {
    a.x < b.x || (a.x == b.x && a.y < b.y)
}

/// `info` tells of the preset at the place `i` of the catalogue.
pub open spec fn is_catalog_info(i: int, info: PresetInfo) -> bool {
    exists|m: PresetModel|
        #[trigger] is_catalog_entry(i, m) && info.name@ == m.name && info.description@
            == m.description && info.cell_count == m.cells.len()
}

/// `after` is `before` with the cells of the preset `m` in the place of its own, moved
/// by the offset of `request`, and `loaded` tells of that.
pub open spec fn is_loaded(
    before: SimulationModel,
    after: SimulationModel,
    request: LoadPresetRequest,
    loaded: LoadPresetResponse,
    m: PresetModel,
) -> bool {
    &&& after == (SimulationModel {
        cells: shifted_cells(m.cells, (request.offset_x as int, request.offset_y as int)),
        ..before
    })
    &&& loaded.preset_name@ == m.name
    &&& loaded.active_cells == saturated(after.cells.len())
}

/// The live cells of the rectangle of `query`, column by column, and the rectangle. A
/// rectangle whose second corner lies before its first holds no cell.
pub fn get_region(world: &World, query: &GetRegionQuery) -> (response: RegionResponse)
    ensures
        response.bounds == (BoundsData {
            x1: query.x1,
            y1: query.y1,
            x2: query.x2,
            y2: query.y2,
        }),
        forall|c: CellData|
            response.cells@.contains(c) <==> in_region(*query, c) && world@.contains(c@),
        forall|i: int, j: int|
            0 <= i < j < response.cells@.len() ==> cell_before(
                #[trigger] response.cells@[i],
                #[trigger] response.cells@[j],
            ),
{
    let mut cells: Vec<CellData> = Vec::new();
    let mut x: i64 = query.x1 as i64;
    while x <= query.x2 as i64
        invariant
            query.x1 <= x,
            x <= query.x2 + 1 || x == query.x1,
            forall|c: CellData| #[trigger]
                cells@.contains(c) <==> in_region(*query, c) && world@.contains(c@) && c.x < x,
            forall|i: int, j: int|
                0 <= i < j < cells@.len() ==> cell_before(
                    #[trigger] cells@[i],
                    #[trigger] cells@[j],
                ),
        decreases query.x2 + 1 - x,
    {
        let mut y: i64 = query.y1 as i64;
        while y <= query.y2 as i64
            invariant
                query.x1 <= x <= query.x2,
                query.y1 <= y,
                y <= query.y2 + 1 || y == query.y1,
                forall|c: CellData| #[trigger]
                    cells@.contains(c) <==> in_region(*query, c) && world@.contains(c@) && (c.x < x
                        || (c.x == x && c.y < y)),
                forall|i: int, j: int|
                    0 <= i < j < cells@.len() ==> cell_before(
                        #[trigger] cells@[i],
                        #[trigger] cells@[j],
                    ),
            decreases query.y2 + 1 - y,
        {
            let ghost before = cells@;
            let here = CellData { x: x as i32, y: y as i32 };
            if world.get_cell(Coord::new(x as i32, y as i32)) {
                cells.push(here);
                proof {
                    let less = |a: CellData, b: CellData| cell_before(a, b);
                    assert(rises(before, less));
                    lemma_push_keeps_order(before, here, less);
                    assert(rises(cells@, less));
                }
            }
            proof {
                assert forall|c: CellData| #[trigger]
                    cells@.contains(c) <==> in_region(*query, c) && world@.contains(c@) && (c.x < x
                        || (c.x == x && c.y < y + 1)) by {
                    assert(before.contains(c) <==> in_region(*query, c) && world@.contains(c@) && (
                    c.x < x || (c.x == x && c.y < y)));
                    assert((c.x == x && c.y == y) <==> c == here);
                }
            }
            y = y + 1;
        }
        x = x + 1;
    }
    RegionResponse {
        cells,
        bounds: BoundsData { x1: query.x1, y1: query.y1, x2: query.x2, y2: query.y2 },
    }
}

/// Every live cell, once, in no particular order.
pub fn get_all_cells(world: &World) -> (cells: Vec<CellData>)
    ensures
        cells@.no_duplicates(),
        forall|c: CellData| cells@.contains(c) <==> world@.contains(c@),
{
    let coords = world.iter_active_cells();
    let mut cells: Vec<CellData> = Vec::new();
    let mut i: usize = 0;
    while i < coords.len()
        invariant
            i <= coords.len(),
            cells@.len() == i,
            forall|j: int|
                0 <= j < i ==> (#[trigger] cells@[j]).x == coords@[j].x && cells@[j].y
                    == coords@[j].y,
        decreases coords.len() - i,
    {
        let coord = coords[i];
        cells.push(CellData { x: coord.x, y: coord.y });
        i = i + 1;
    }
    proof {
        assert forall|a: int, b: int|
            0 <= a < cells@.len() && 0 <= b < cells@.len() && a != b implies cells@[a]
            != cells@[b] by {
            assert(coords@[a] != coords@[b]);
        }
        assert forall|c: CellData| cells@.contains(c) implies world@.contains(c@) by {
            let j = choose|j: int| 0 <= j < cells@.len() && cells@[j] == c;
            assert(coords@.contains(coords@[j]));
        }
        assert forall|c: CellData| world@.contains(c@) implies cells@.contains(c) by {
            let coord = Coord { x: c.x, y: c.y };
            assert(coord@ == c@);
            assert(coords@.contains(coord));
            let j = choose|j: int| 0 <= j < coords@.len() && coords@[j] == coord;
            assert(cells@[j] == c);
        }
    }
    cells
}

/// Makes one cell of the simulated world alive or dead, and tells how many cells
/// live after that.
pub fn set_cell(simulation: &mut Simulation, request: &SetCellRequest) -> (response:
    SetCellResponse)
    ensures
        request.alive ==> final(simulation)@ == (SimulationModel {
            cells: old(simulation)@.cells.insert((request.x as int, request.y as int)),
            ..old(simulation)@
        }),
        !request.alive ==> final(simulation)@ == (SimulationModel {
            cells: old(simulation)@.cells.remove((request.x as int, request.y as int)),
            ..old(simulation)@
        }),
        response == (SetCellResponse {
            x: request.x,
            y: request.y,
            alive: request.alive,
            active_cells: saturated(final(simulation)@.cells.len()),
        }),
{
    let mut world = simulation.get_world();
    world.set_cell(Coord::new(request.x, request.y), request.alive);
    let active_cells = world.active_cell_count();
    simulation.set_world(world);
    SetCellResponse { x: request.x, y: request.y, alive: request.alive, active_cells }
}

/// The catalogue, preset by preset: name, description and number of cells.
pub fn get_presets() -> (response: PresetsListResponse)
    ensures
        response.presets@.len() == CATALOG_LEN,
        forall|i: int|
            0 <= i < CATALOG_LEN ==> is_catalog_info(i, #[trigger] response.presets@[i]),
{
    let presets = Preset::all();
    let mut infos: Vec<PresetInfo> = Vec::new();
    let mut i: usize = 0;
    while i < presets.len()
        invariant
            i <= presets.len(),
            presets@.len() == CATALOG_LEN,
            forall|j: int|
                0 <= j < CATALOG_LEN ==> is_catalog_entry(j, (#[trigger] presets@[j])@),
            infos@.len() == i,
            forall|j: int| 0 <= j < i ==> is_catalog_info(j, #[trigger] infos@[j]),
        decreases presets.len() - i,
    {
        let preset = &presets[i];
        let info = PresetInfo {
            name: preset.name.clone(),
            description: preset.description.clone(),
            cell_count: preset.cells.len(),
        };
        assert(is_catalog_info(i as int, info)) by {
            assert(is_catalog_entry(i as int, presets@[i as int]@));
        }
        infos.push(info);
        i = i + 1;
    }
    PresetsListResponse { presets: infos }
}

/// Puts the preset of the catalogue that the request names in the place of the
/// simulated world, moved by the offset of the request. Where the catalogue has no
/// preset of that name, the simulation stays as it is.
pub fn load_preset(simulation: &mut Simulation, request: &LoadPresetRequest) -> (response:
    ApiResult<LoadPresetResponse>)
    ensures
        match response {
            Ok(loaded) => exists|i: int, m: PresetModel|
                #![trigger is_catalog_entry(i, m)]
                is_first_index_of(folded_catalog_names(), lowercase_of(request.name@), i)
                    && is_catalog_entry(i, m) && is_loaded(
                    old(simulation)@,
                    final(simulation)@,
                    *request,
                    loaded,
                    m,
                ),
            Err(ApiError::PresetNotFound(name)) => name@ == request.name@ && final(simulation)@
                == old(simulation)@ && forall|i: int|
                0 <= i < CATALOG_LEN ==> #[trigger] folded_catalog_names()[i] != lowercase_of(
                    request.name@,
                ),
            Err(_) => false,
        },
{
    match Preset::find(request.name.as_str()) {
        None => Err(ApiError::PresetNotFound(request.name.clone())),
        Some(preset) => {
            let mut world = simulation.get_world();
            let offset = Coord::new(request.offset_x, request.offset_y);
            preset.load_into(&mut world, offset);
            let active_cells = world.active_cell_count();
            simulation.set_world(world);
            proof {
                let i = choose|i: int|
                    #[trigger] is_first_index_of(
                        folded_catalog_names(),
                        lowercase_of(request.name@),
                        i,
                    ) && is_catalog_entry(i, preset@);
                assert(is_catalog_entry(i, preset@));
            }
            Ok(LoadPresetResponse { preset_name: preset.name, active_cells })
        },
    }
}

/// Removes every cell of the simulated world.
pub fn clear_world(simulation: &mut Simulation) -> (response: SetCellResponse)
    ensures
        final(simulation)@ == (SimulationModel {
            cells: Set::<Point>::empty(),
            ..old(simulation)@
        }),
        response == (SetCellResponse { x: 0, y: 0, alive: false, active_cells: 0 }),
{
    let mut world = simulation.get_world();
    world.clear();
    simulation.set_world(world);
    SetCellResponse { x: 0, y: 0, alive: false, active_cells: 0 }
}

} // verus!
