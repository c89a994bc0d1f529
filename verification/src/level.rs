//! The level document and its parser: a typed in-memory form of the level
//! file (layers with a cell grid or with entities), validated and turned
//! into wall tiles, emitter tiles and canonical rays.
//!
//! Any malformation is fatal for the whole load: the parser returns an
//! error and leaves the game state untouched, so the caller treats the
//! level as unloaded.
use vstd::prelude::*;

use crate::ray::Dir;
use crate::ray::GameState;
use crate::ray::RayCaster;
use crate::ray::Ray;
use crate::ray::build_ray;
use crate::ray::built_ray;

verus! {

/// The value of one named entity field: an integer, a cell reference with
/// named coordinates, or something the parser does not recognize.
#[derive(Clone, Copy, PartialEq, Eq, Structural, Debug)]
pub enum FieldValue {
    IntVal(i32),
    PointVal { cx: i32, cy: i32 },
    OtherVal,
}

/// One named field of an entity instance.
#[derive(Clone, PartialEq, Eq, Debug)]
pub struct FieldDoc {
    pub identifier: String,
    pub value: FieldValue,
}

/// One entity instance: its identifier, its grid cell, and its fields.
#[derive(Clone, PartialEq, Eq, Debug)]
pub struct EntityDoc {
    pub identifier: String,
    pub grid: Vec<i32>,
    pub fields: Vec<FieldDoc>,
}

/// One layer of the level document. A grid layer carries `width`, `height`
/// and the flat row-major cell codes; an entity layer carries entity
/// instances. The unused parts are simply empty.
#[derive(Clone, PartialEq, Eq, Debug)]
pub struct LayerDoc {
    pub kind: String,
    pub width: i32,
    pub height: i32,
    pub int_grid: Vec<i32>,
    pub entities: Vec<EntityDoc>,
}

/// The whole level document: a list of layers.
#[derive(Clone, PartialEq, Eq, Debug)]
pub struct LevelDoc {
    pub layers: Vec<LayerDoc>,
}

/// Why a level failed to load. Loading never keeps partial results.
#[derive(Clone, Copy, PartialEq, Eq, Structural, Debug)]
pub enum ParseError {
    /// A field or entity does not have the shape the schema demands.
    Malformed,
    /// A required field is absent.
    MissingField,
    /// A grid layer's declared dimensions reach outside its cell array.
    IndexOutOfBounds,
}

/// A static wall tile at a grid cell.
#[derive(Clone, Copy, PartialEq, Eq, Structural, Debug)]
pub struct WallTile {
    pub x: i32,
    pub y: i32,
}

/// Everything a successfully parsed level spawns.
#[derive(Clone, PartialEq, Eq, Debug)]
pub struct ParsedLevel {
    pub walls: Vec<WallTile>,
    pub emitters: Vec<RayCaster>,
    pub rays: Vec<Ray>,
}

/// A layer holding per-cell codes.
pub open spec fn is_grid_layer(l: LayerDoc) -> bool {
    l.kind@ == "IntGrid"@
}

/// A layer holding entity instances.
pub open spec fn is_entities_layer(l: LayerDoc) -> bool {
    l.kind@ == "Entities"@
}

/// The cell code at `(x, y)`, row-major.
pub open spec fn grid_cell(l: LayerDoc, x: int, y: int) -> int {
    l.int_grid@[x + l.width * y] as int
}

/// The declared dimensions fit the cell array, so every cell access the
/// scan makes is in bounds.
pub open spec fn grid_in_bounds(l: LayerDoc) -> bool {
    l.width <= 0 || l.height <= 0 || l.width * l.height <= l.int_grid@.len()
}

/// A cell code marking an emitter tile.
pub open spec fn is_emitter_code(c: int) -> bool {
    2 <= c <= 5
}

/// The firing direction coded by an emitter cell.
pub open spec fn dir_of_code(c: int) -> Dir {
    if c == 2 {
        Dir::Downwards
    } else if c == 3 {
        Dir::Upwards
    } else if c == 4 {
        Dir::Rightwards
    } else {
        Dir::Leftwards
    }
}

/// The wall tiles among the first `n` cells of column `x`, scan order.
pub open spec fn walls_in_col(l: LayerDoc, x: int, n: int) -> Seq<WallTile>
    decreases n,
{
    if n <= 0 {
        Seq::empty()
    } else {
        walls_in_col(l, x, n - 1)
            + if grid_cell(l, x, n - 1) == 1 {
                seq![WallTile { x: x as i32, y: (n - 1) as i32 }]
            } else {
                Seq::empty()
            }
    }
}

/// The wall tiles of the first `n` whole columns, scan order.
pub open spec fn walls_cols(l: LayerDoc, n: int) -> Seq<WallTile>
    decreases n,
{
    if n <= 0 {
        Seq::empty()
    } else {
        walls_cols(l, n - 1) + walls_in_col(l, n - 1, l.height as int)
    }
}

/// The emitters among the first `n` cells of column `x`, scan order.
pub open spec fn emitters_in_col(l: LayerDoc, x: int, n: int) -> Seq<RayCaster>
    decreases n,
{
    if n <= 0 {
        Seq::empty()
    } else {
        emitters_in_col(l, x, n - 1)
            + if is_emitter_code(grid_cell(l, x, n - 1)) {
                seq![RayCaster {
                    dir: dir_of_code(grid_cell(l, x, n - 1)),
                    pos_x: x as i32,
                    pos_y: (n - 1) as i32,
                }]
            } else {
                Seq::empty()
            }
    }
}

/// The emitters of the first `n` whole columns, scan order.
pub open spec fn emitters_cols(l: LayerDoc, n: int) -> Seq<RayCaster>
    decreases n,
{
    if n <= 0 {
        Seq::empty()
    } else {
        emitters_cols(l, n - 1) + emitters_in_col(l, n - 1, l.height as int)
    }
}

/// Every destination field carries a cell reference and every priority
/// field an integer; any other shape for these two is malformed. Unknown
/// field identifiers are ignored.
pub open spec fn fields_well_formed(fs: Seq<FieldDoc>) -> bool {
    forall|k: int| 0 <= k < fs.len() ==> {
        &&& ((#[trigger] fs[k]).identifier@ == "destination"@ ==> fs[k].value is PointVal)
        &&& (fs[k].identifier@ == "priority"@ ==> fs[k].value is IntVal)
    }
}

/// The destination the field list assigns: the last well-shaped
/// destination field wins, as in a forward scan that overwrites.
pub open spec fn dest_of_fields(fs: Seq<FieldDoc>) -> Option<(i32, i32)>
    decreases fs.len(),
{
    if fs.len() == 0 {
        None
    } else if fs.last().identifier@ == "destination"@ && fs.last().value is PointVal {
        match fs.last().value {
            FieldValue::PointVal { cx, cy } => Some((cx, cy)),
            _ => None,
        }
    } else {
        dest_of_fields(fs.drop_last())
    }
}

/// The priority the field list assigns, if any: the last well-shaped
/// priority field wins.
pub open spec fn prio_of_fields(fs: Seq<FieldDoc>) -> Option<i32>
    decreases fs.len(),
{
    if fs.len() == 0 {
        None
    } else if fs.last().identifier@ == "priority"@ && fs.last().value is IntVal {
        match fs.last().value {
            FieldValue::IntVal(p) => Some(p),
            _ => None,
        }
    } else {
        prio_of_fields(fs.drop_last())
    }
}

/// An entity spawning a light ray.
pub open spec fn is_lightray(e: EntityDoc) -> bool {
    e.identifier@ == "Lightray"@
}

/// The ray one light-ray entity yields, given the running emission count:
/// its grid cell must hold two coordinates and its fields must be well
/// shaped, the destination is required, and a missing priority defaults to
/// the running count.
pub open spec fn lightray_ray(e: EntityDoc, count: int) -> Result<Ray, ParseError> {
    if e.grid@.len() < 2 {
        Err(ParseError::Malformed)
    } else if !fields_well_formed(e.fields@) {
        Err(ParseError::Malformed)
    } else {
        match dest_of_fields(e.fields@) {
            None => Err(ParseError::MissingField),
            Some((cx, cy)) => {
                let prio = match prio_of_fields(e.fields@) {
                    Some(p) => p,
                    None => count as i32,
                };
                Ok(built_ray(e.grid@[0], e.grid@[1], cx, cy, prio))
            },
        }
    }
}

/// The rays an entity list yields in order, with the emission count it
/// leaves behind; the first failing entity aborts the whole parse.
pub open spec fn entities_result(es: Seq<EntityDoc>, count: int) -> Result<(Seq<Ray>, int), ParseError>
    decreases es.len(),
{
    if es.len() == 0 {
        Ok((Seq::empty(), count))
    } else {
        match entities_result(es.drop_last(), count) {
            Err(e) => Err(e),
            Ok((rs, c)) => {
                if !is_lightray(es.last()) {
                    Ok((rs, c))
                } else {
                    match lightray_ray(es.last(), c) {
                        Err(e) => Err(e),
                        Ok(r) => Ok((rs.push(r), c + 1)),
                    }
                }
            },
        }
    }
}

/// What parsing a list of layers yields: wall tiles, emitters, rays, and
/// the emission count left behind. Layers are taken in order, a grid layer
/// contributing tiles (after its bounds check) and an entity layer
/// contributing rays; the first failure aborts the whole parse.
pub open spec fn parse_result(ls: Seq<LayerDoc>, count: int)
    -> Result<(Seq<WallTile>, Seq<RayCaster>, Seq<Ray>, int), ParseError>
    decreases ls.len(),
{
    if ls.len() == 0 {
        Ok((Seq::empty(), Seq::empty(), Seq::empty(), count))
    } else {
        match parse_result(ls.drop_last(), count) {
            Err(e) => Err(e),
            Ok((ws, ems, rs, c)) => {
                let l = ls.last();
                if is_grid_layer(l) {
                    if !grid_in_bounds(l) {
                        Err(ParseError::IndexOutOfBounds)
                    } else {
                        Ok((ws + walls_cols(l, l.width as int), ems + emitters_cols(l, l.width as int), rs, c))
                    }
                } else if is_entities_layer(l) {
                    match entities_result(l.entities@, c) {
                        Err(e) => Err(e),
                        Ok((nrs, c2)) => Ok((ws, ems, rs + nrs, c2)),
                    }
                } else {
                    Ok((ws, ems, rs, c))
                }
            },
        }
    }
}

/// How many light-ray entities a list holds.
pub open spec fn lightrays_in(es: Seq<EntityDoc>) -> int
    decreases es.len(),
{
    if es.len() == 0 {
        0
    } else {
        lightrays_in(es.drop_last()) + if is_lightray(es.last()) { 1int } else { 0 }
    }
}

/// How many light-ray entities one layer can spawn.
pub open spec fn layer_lightrays(l: LayerDoc) -> int {
    if is_grid_layer(l) {
        0
    } else if is_entities_layer(l) {
        lightrays_in(l.entities@)
    } else {
        0
    }
}

/// How many light-ray entities a whole document holds.
pub open spec fn doc_lightrays(ls: Seq<LayerDoc>) -> int
    decreases ls.len(),
{
    if ls.len() == 0 {
        0
    } else {
        doc_lightrays(ls.drop_last()) + layer_lightrays(ls.last())
    }
}

proof fn lemma_lightrays_step(es: Seq<EntityDoc>, n: int)
    requires
        0 <= n < es.len(),
    ensures
        lightrays_in(es.take(n + 1)) == lightrays_in(es.take(n)) + if is_lightray(es[n]) { 1int } else { 0 },
{
    assert(es.take(n + 1).drop_last() =~= es.take(n));
}

proof fn lemma_lightrays_take_le(es: Seq<EntityDoc>, n: int)
    requires
        0 <= n <= es.len(),
    ensures
        lightrays_in(es.take(n)) <= lightrays_in(es),
    decreases es.len() - n,
{
    if n == es.len() {
        assert(es.take(n) =~= es);
    } else {
        lemma_lightrays_step(es, n);
        lemma_lightrays_take_le(es, n + 1);
    }
}

proof fn lemma_doc_lightrays_step(ls: Seq<LayerDoc>, n: int)
    requires
        0 <= n < ls.len(),
    ensures
        doc_lightrays(ls.take(n + 1)) == doc_lightrays(ls.take(n)) + layer_lightrays(ls[n]),
{
    assert(ls.take(n + 1).drop_last() =~= ls.take(n));
}

proof fn lemma_doc_lightrays_take_le(ls: Seq<LayerDoc>, n: int)
    requires
        0 <= n <= ls.len(),
    ensures
        doc_lightrays(ls.take(n)) <= doc_lightrays(ls),
    decreases ls.len() - n,
{
    if n == ls.len() {
        assert(ls.take(n) =~= ls);
    } else {
        lemma_doc_lightrays_step(ls, n);
        lemma_lightrays_nonneg_layer(ls[n]);
        lemma_doc_lightrays_take_le(ls, n + 1);
    }
}

proof fn lemma_lightrays_nonneg(es: Seq<EntityDoc>)
    ensures
        lightrays_in(es) >= 0,
    decreases es.len(),
{
    if es.len() > 0 {
        lemma_lightrays_nonneg(es.drop_last());
    }
}

proof fn lemma_lightrays_nonneg_layer(l: LayerDoc)
    ensures
        layer_lightrays(l) >= 0,
{
    if !is_grid_layer(l) && is_entities_layer(l) {
        lemma_lightrays_nonneg(l.entities@);
    }
}

/// A successful entity scan advances the count by exactly the number of
/// light-ray entities.
proof fn lemma_entities_ok_count(es: Seq<EntityDoc>, count: int)
    requires
        entities_result(es, count) is Ok,
    ensures
        entities_result(es, count)->Ok_0.1 == count + lightrays_in(es),
    decreases es.len(),
{
    if es.len() > 0 {
        lemma_entities_ok_count(es.drop_last(), count);
    }
}

/// A successful parse advances the count by exactly the number of
/// light-ray entities in the document.
proof fn lemma_parse_ok_count(ls: Seq<LayerDoc>, count: int)
    requires
        parse_result(ls, count) is Ok,
    ensures
        parse_result(ls, count)->Ok_0.3 == count + doc_lightrays(ls),
    decreases ls.len(),
{
    if ls.len() > 0 {
        lemma_parse_ok_count(ls.drop_last(), count);
        let c = parse_result(ls.drop_last(), count)->Ok_0.3;
        let l = ls.last();
        if !is_grid_layer(l) && is_entities_layer(l) {
            lemma_entities_ok_count(l.entities@, c);
        }
    }
}

/// Once a prefix of the entities fails, the whole list fails the same way.
proof fn lemma_entities_error_persists(es: Seq<EntityDoc>, n: int, count: int)
    requires
        0 <= n <= es.len(),
        entities_result(es.take(n), count) is Err,
    ensures
        entities_result(es, count) == entities_result(es.take(n), count),
    decreases es.len() - n,
{
    if n == es.len() {
        assert(es.take(n) =~= es);
    } else {
        assert(es.take(n + 1).drop_last() =~= es.take(n));
        lemma_entities_error_persists(es, n + 1, count);
    }
}

/// Once a prefix of the layers fails, the whole document fails the same
/// way.
proof fn lemma_parse_error_persists(ls: Seq<LayerDoc>, n: int, count: int)
    requires
        0 <= n <= ls.len(),
        parse_result(ls.take(n), count) is Err,
    ensures
        parse_result(ls, count) == parse_result(ls.take(n), count),
    decreases ls.len() - n,
{
    if n == ls.len() {
        assert(ls.take(n) =~= ls);
    } else {
        assert(ls.take(n + 1).drop_last() =~= ls.take(n));
        lemma_parse_error_persists(ls, n + 1, count);
    }
}

/// Every cell the scan reads lies inside the bounds-checked array.
proof fn lemma_grid_index(x: int, y: int, w: int, h: int)
    requires
        0 <= x < w,
        0 <= y < h,
    ensures
        0 <= x + w * y,
        x + w * y < w * h,
        w * y <= w * h,
{
    assert(0 <= x + w * y && x + w * y < w * h && w * y <= w * h) by (nonlinear_arith)
        requires
            0 <= x < w,
            0 <= y < h,
    ;
}

/// Parses a level document against the running game state: each grid layer
/// yields its wall and emitter tiles (after validating its dimensions
/// against the cell array), and each entity layer yields one canonical ray
/// per light-ray entity, a missing priority defaulting to the running
/// emission count, which advances per ray. On any failure the game state is
/// untouched and nothing of the level is kept. Unknown layer kinds, entity
/// identifiers and field identifiers are ignored.
#[verifier::loop_isolation(false)]
pub fn parse_level(doc: &LevelDoc, state: &mut GameState) -> (res: Result<ParsedLevel, ParseError>)
    requires
        old(state).ray_count + doc_lightrays(doc.layers@) <= i32::MAX,
    ensures
        match parse_result(doc.layers@, old(state).ray_count as int) {
            Ok((ws, ems, rs, c)) => {
                &&& res matches Ok(p)
                &&& res->Ok_0.walls@ == ws
                &&& res->Ok_0.emitters@ == ems
                &&& res->Ok_0.rays@ == rs
                &&& final(state).ray_count == c
            },
            Err(e) => res == Err::<ParsedLevel, ParseError>(e) && *final(state) == *old(state),
        },
{
    let ghost count0: int = state.ray_count as int;
    let ghost layers: Seq<LayerDoc> = doc.layers@;
    let mut walls: Vec<WallTile> = Vec::new();
    let mut emitters: Vec<RayCaster> = Vec::new();
    let mut rays: Vec<Ray> = Vec::new();
    let mut count: i32 = state.ray_count;

    let mut li: usize = 0;
    while li < doc.layers.len()
        invariant
            li <= layers.len(),
            parse_result(layers.take(li as int), count0)
                == Ok::<_, ParseError>((walls@, emitters@, rays@, count as int)),
        decreases layers.len() - li,
    {
        let layer = &doc.layers[li];
        proof {
            assert(layers.take(li as int + 1).drop_last() =~= layers.take(li as int));
            lemma_doc_lightrays_step(layers, li as int);
            lemma_doc_lightrays_take_le(layers, li as int + 1);
            lemma_parse_ok_count(layers.take(li as int), count0);
        }
        if layer.kind == "IntGrid".to_owned() {
            if layer.width > 0 && layer.height > 0 {
                proof {
                    lemma_dims_product(layer.width as int, layer.height as int);
                }
                if (layer.width as u64) * (layer.height as u64) > layer.int_grid.len() as u64 {
                    proof {
                        lemma_parse_error_persists(layers, li as int + 1, count0);
                    }
                    return Err(ParseError::IndexOutOfBounds);
                }
            }
            assert(grid_in_bounds(*layer));
            let ghost walls0: Seq<WallTile> = walls@;
            let ghost emitters0: Seq<RayCaster> = emitters@;
            proof {
                assert(walls@ =~= walls0 + walls_cols(*layer, 0));
                assert(emitters@ =~= emitters0 + emitters_cols(*layer, 0));
            }
            let mut x: i64 = 0;
            while x < layer.width as i64
                invariant
                    0 <= x,
                    x <= layer.width || x == 0,
                    walls@ == walls0 + walls_cols(*layer, x as int),
                    emitters@ == emitters0 + emitters_cols(*layer, x as int),
                decreases layer.width - x,
            {
                proof {
                    assert(walls@ =~= walls0 + walls_cols(*layer, x as int)
                        + walls_in_col(*layer, x as int, 0));
                    assert(emitters@ =~= emitters0 + emitters_cols(*layer, x as int)
                        + emitters_in_col(*layer, x as int, 0));
                }
                let mut y: i64 = 0;
                while y < layer.height as i64
                    invariant
                        0 <= y,
                        y <= layer.height || y == 0,
                        walls@ == walls0 + walls_cols(*layer, x as int)
                            + walls_in_col(*layer, x as int, y as int),
                        emitters@ == emitters0 + emitters_cols(*layer, x as int)
                            + emitters_in_col(*layer, x as int, y as int),
                    decreases layer.height - y,
                {
                    proof {
                        lemma_grid_index(x as int, y as int, layer.width as int, layer.height as int);
                    }
                    let idx: usize = (x as usize) + (layer.width as usize) * (y as usize);
                    let code: i32 = layer.int_grid[idx];
                    if code == 1 {
                        walls.push(WallTile { x: x as i32, y: y as i32 });
                    } else if code >= 2 && code <= 5 {
                        let dir = match code {
                            2 => Dir::Downwards,
                            3 => Dir::Upwards,
                            4 => Dir::Rightwards,
                            _ => Dir::Leftwards,
                        };
                        emitters.push(RayCaster { dir, pos_x: x as i32, pos_y: y as i32 });
                    }
                    proof {
                        assert(walls@ =~= walls0 + walls_cols(*layer, x as int)
                            + walls_in_col(*layer, x as int, y as int + 1));
                        assert(emitters@ =~= emitters0 + emitters_cols(*layer, x as int)
                            + emitters_in_col(*layer, x as int, y as int + 1));
                    }
                    y = y + 1;
                }
                proof {
                    assert(walls@ =~= walls0 + walls_cols(*layer, x as int + 1));
                    assert(emitters@ =~= emitters0 + emitters_cols(*layer, x as int + 1));
                }
                x = x + 1;
            }
            proof {
                assert(walls@ =~= walls0 + walls_cols(*layer, layer.width as int));
                assert(emitters@ =~= emitters0 + emitters_cols(*layer, layer.width as int));
                assert(parse_result(layers.take(li as int + 1), count0)
                    == Ok::<_, ParseError>((walls@, emitters@, rays@, count as int)));
            }
        } else if layer.kind == "Entities".to_owned() {
            let ghost rays0: Seq<Ray> = rays@;
            let ghost ents: Seq<EntityDoc> = layer.entities@;
            let ghost c_layer: int = count as int;
            proof {
                assert(rays@.skip(rays0.len() as int) =~= Seq::<Ray>::empty());
                assert(rays@.take(rays0.len() as int) =~= rays0);
            }
            let mut ei: usize = 0;
            while ei < layer.entities.len()
                invariant
                    ei <= ents.len(),
                    entities_result(ents.take(ei as int), c_layer)
                        == Ok::<_, ParseError>((rays@.skip(rays0.len() as int), count as int)),
                    rays@.len() >= rays0.len(),
                    rays@.take(rays0.len() as int) == rays0,
                decreases ents.len() - ei,
            {
                let entity = &layer.entities[ei];
                proof {
                    assert(ents.take(ei as int + 1).drop_last() =~= ents.take(ei as int));
                }
                if entity.identifier == "Lightray".to_owned() {
                    if entity.grid.len() < 2 {
                        proof {
                            lemma_entities_error_persists(ents, ei as int + 1, c_layer);
                            lemma_parse_error_persists(layers, li as int + 1, count0);
                        }
                        return Err(ParseError::Malformed);
                    }
                    let mut dest: Option<(i32, i32)> = None;
                    let mut prio: Option<i32> = None;
                    let ghost fields: Seq<FieldDoc> = entity.fields@;
                    let mut fi: usize = 0;
                    while fi < entity.fields.len()
                        invariant
                            fi <= fields.len(),
                            dest == dest_of_fields(fields.take(fi as int)),
                            prio == prio_of_fields(fields.take(fi as int)),
                            fields_well_formed(fields.take(fi as int)),
                        decreases fields.len() - fi,
                    {
                        let field = &entity.fields[fi];
                        proof {
                            reveal_strlit("destination");
                            reveal_strlit("priority");
                            assert("destination"@.len() == 11);
                            assert("priority"@.len() == 8);
                            assert(fields.take(fi as int + 1).drop_last() =~= fields.take(fi as int));
                        }
                        if field.identifier == "destination".to_owned() {
                            match field.value {
                                FieldValue::PointVal { cx, cy } => {
                                    dest = Some((cx, cy));
                                },
                                _ => {
                                    proof {
                                        assert(!fields_well_formed(entity.fields@));
                                        lemma_entities_error_persists(ents, ei as int + 1, c_layer);
                                        lemma_parse_error_persists(layers, li as int + 1, count0);
                                    }
                                    return Err(ParseError::Malformed);
                                },
                            }
                        } else if field.identifier == "priority".to_owned() {
                            match field.value {
                                FieldValue::IntVal(p) => {
                                    prio = Some(p);
                                },
                                _ => {
                                    proof {
                                        assert(!fields_well_formed(entity.fields@));
                                        lemma_entities_error_persists(ents, ei as int + 1, c_layer);
                                        lemma_parse_error_persists(layers, li as int + 1, count0);
                                    }
                                    return Err(ParseError::Malformed);
                                },
                            }
                        }
                        proof {
                            assert forall|k: int| 0 <= k < fi as int + 1 implies {
                                &&& ((#[trigger] fields.take(fi as int + 1)[k]).identifier@
                                    == "destination"@ ==> fields.take(fi as int + 1)[k].value is PointVal)
                                &&& (fields.take(fi as int + 1)[k].identifier@
                                    == "priority"@ ==> fields.take(fi as int + 1)[k].value is IntVal)
                            } by {
                                assert(fields.take(fi as int + 1)[k] == fields[k]);
                                if k < fi as int {
                                    assert(fields.take(fi as int)[k] == fields[k]);
                                }
                            }
                            assert(fields_well_formed(fields.take(fi as int + 1)));
                        }
                        fi = fi + 1;
                    }
                    proof {
                        assert(fields.take(fields.len() as int) =~= fields);
                    }
                    match dest {
                        None => {
                            proof {
                                lemma_entities_error_persists(ents, ei as int + 1, c_layer);
                                lemma_parse_error_persists(layers, li as int + 1, count0);
                            }
                            return Err(ParseError::MissingField);
                        },
                        Some((cx, cy)) => {
                            proof {
                                lemma_entities_ok_count(ents.take(ei as int), c_layer);
                                lemma_lightrays_step(ents, ei as int);
                                lemma_lightrays_take_le(ents, ei as int + 1);
                            }
                            let p = match prio {
                                Some(p) => p,
                                None => count,
                            };
                            let ray = build_ray(entity.grid[0], entity.grid[1], cx, cy, p);
                            proof {
                                assert(fields_well_formed(entity.fields@));
                                assert(dest_of_fields(entity.fields@) == Some((cx, cy)));
                                assert(lightray_ray(ents[ei as int], count as int)
                                    == Ok::<Ray, ParseError>(ray));
                            }
                            let ghost rays_before: Seq<Ray> = rays@;
                            rays.push(ray);
                            count = count + 1;
                            proof {
                                assert(rays@.take(rays0.len() as int) =~= rays0);
                                assert(rays@.skip(rays0.len() as int)
                                    =~= rays_before.skip(rays0.len() as int).push(ray));
                                assert(entities_result(ents.take(ei as int + 1), c_layer)
                                    == Ok::<_, ParseError>((rays@.skip(rays0.len() as int), count as int)));
                            }
                        },
                    }
                }
                ei = ei + 1;
            }
            proof {
                assert(ents.take(ents.len() as int) =~= ents);
                assert(rays@ =~= rays0 + rays@.skip(rays0.len() as int));
                assert(parse_result(layers.take(li as int + 1), count0)
                    == Ok::<_, ParseError>((walls@, emitters@, rays@, count as int)));
            }
        } else {
            proof {
                assert(parse_result(layers.take(li as int + 1), count0)
                    == Ok::<_, ParseError>((walls@, emitters@, rays@, count as int)));
            }
        }
        li = li + 1;
    }
    proof {
        assert(layers.take(layers.len() as int) =~= layers);
    }
    state.ray_count = count;
    Ok(ParsedLevel { walls, emitters, rays })
}

/// Multiplying validated dimensions can never overflow the checked range.
proof fn lemma_dims_product(w: int, h: int)
    requires
        0 <= w < 0x8000_0000,
        0 <= h < 0x8000_0000,
    ensures
        0 <= w * h < 0x4000_0000_0000_0000,
{
    assert(0 <= w * h < 0x4000_0000_0000_0000) by (nonlinear_arith)
        requires
            0 <= w < 0x8000_0000,
            0 <= h < 0x8000_0000,
    ;
}

/// The world position of a grid cell's visual: the cell scaled by the tile
/// size, the y axis pointing down the grid.
pub fn tile_world_pos(x: i32, y: i32) -> (p: (i64, i64))
    ensures
        p.0 == crate::TILE_SIZE * x,
        p.1 == -(crate::TILE_SIZE as int) * y,
{
    ((crate::TILE_SIZE as i64) * (x as i64), -(crate::TILE_SIZE as i64) * (y as i64))
}

} // verus!

