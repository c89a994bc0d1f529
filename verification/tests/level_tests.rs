use lightray::level::parse_level;
use lightray::level::tile_world_pos;
use lightray::level::EntityDoc;
use lightray::level::FieldDoc;
use lightray::level::FieldValue;
use lightray::level::LayerDoc;
use lightray::level::LevelDoc;
use lightray::level::ParseError;
use lightray::level::WallTile;
use lightray::motion::resolve_rays;
use lightray::ray::Dir;
use lightray::ray::GameState;
use lightray::ray::RayCaster;

fn grid_layer(width: i32, height: i32, codes: Vec<i32>) -> LayerDoc {
    LayerDoc {
        kind: "IntGrid".to_string(),
        width,
        height,
        int_grid: codes,
        entities: Vec::new(),
    }
}

fn entities_layer(entities: Vec<EntityDoc>) -> LayerDoc {
    LayerDoc {
        kind: "Entities".to_string(),
        width: 0,
        height: 0,
        int_grid: Vec::new(),
        entities,
    }
}

fn lightray_entity(grid: (i32, i32), fields: Vec<FieldDoc>) -> EntityDoc {
    EntityDoc {
        identifier: "Lightray".to_string(),
        grid: vec![grid.0, grid.1],
        fields,
    }
}

fn destination(cx: i32, cy: i32) -> FieldDoc {
    FieldDoc {
        identifier: "destination".to_string(),
        value: FieldValue::PointVal { cx, cy },
    }
}

fn priority(p: i32) -> FieldDoc {
    FieldDoc { identifier: "priority".to_string(), value: FieldValue::IntVal(p) }
}

#[test]
fn end_to_end_small_level() {
    let doc = LevelDoc {
        layers: vec![
            grid_layer(2, 2, vec![0, 1, 2, 0]),
            entities_layer(vec![lightray_entity((0, 0), vec![destination(1, 0), priority(0)])]),
        ],
    };
    let mut state = GameState::default();
    let parsed = parse_level(&doc, &mut state).expect("the level is well formed");

    assert_eq!(parsed.walls, vec![WallTile { x: 1, y: 0 }]);
    assert_eq!(parsed.emitters, vec![RayCaster { dir: Dir::Downwards, pos_x: 0, pos_y: 1 }]);
    assert_eq!(parsed.rays.len(), 1);
    let ray = parsed.rays[0];
    assert_eq!((ray.src_x, ray.src_y, ray.dest_x, ray.dest_y), (0, 0, 1, 0));
    assert!(ray.horizontal);
    assert_eq!(ray.prio, 0);
    assert_eq!(state.ray_count, 1);

    // A player at cell (0, 0) with no prior direction picks up the ray's
    // derived motion on the next tick.
    let (vx, vy, dir) = resolve_rays(&parsed.rays, 0, 0, &None, &None);
    assert_eq!((vx, vy), (1, 0));
    assert_eq!(dir, Some(Dir::Rightwards));
}

#[test]
fn grid_must_fit_cell_array() {
    let doc = LevelDoc { layers: vec![grid_layer(2, 2, vec![0, 1, 2])] };
    let mut state = GameState::default();
    assert_eq!(parse_level(&doc, &mut state), Err(ParseError::IndexOutOfBounds));
    assert_eq!(state.ray_count, 0);
}

#[test]
fn empty_grid_dimensions_are_fine() {
    let doc = LevelDoc {
        layers: vec![grid_layer(0, 5, Vec::new()), grid_layer(3, 0, Vec::new())],
    };
    let mut state = GameState::default();
    let parsed = parse_level(&doc, &mut state).expect("nothing to scan");
    assert!(parsed.walls.is_empty());
    assert!(parsed.emitters.is_empty());
    assert!(parsed.rays.is_empty());
}

#[test]
fn wall_and_emitter_scan_order() {
    // Row-major codes; the scan walks column by column.
    let doc = LevelDoc { layers: vec![grid_layer(2, 2, vec![1, 1, 5, 1])] };
    let mut state = GameState::default();
    let parsed = parse_level(&doc, &mut state).expect("well formed");
    assert_eq!(
        parsed.walls,
        vec![WallTile { x: 0, y: 0 }, WallTile { x: 1, y: 0 }, WallTile { x: 1, y: 1 }],
    );
    assert_eq!(parsed.emitters, vec![RayCaster { dir: Dir::Leftwards, pos_x: 0, pos_y: 1 }]);
}

#[test]
fn emitter_codes_give_directions() {
    let doc = LevelDoc { layers: vec![grid_layer(4, 1, vec![2, 3, 4, 5])] };
    let mut state = GameState::default();
    let parsed = parse_level(&doc, &mut state).expect("well formed");
    assert_eq!(
        parsed.emitters,
        vec![
            RayCaster { dir: Dir::Downwards, pos_x: 0, pos_y: 0 },
            RayCaster { dir: Dir::Upwards, pos_x: 1, pos_y: 0 },
            RayCaster { dir: Dir::Rightwards, pos_x: 2, pos_y: 0 },
            RayCaster { dir: Dir::Leftwards, pos_x: 3, pos_y: 0 },
        ],
    );
}

#[test]
fn destination_is_required() {
    let doc = LevelDoc {
        layers: vec![entities_layer(vec![lightray_entity((0, 0), vec![priority(0)])])],
    };
    let mut state = GameState::default();
    assert_eq!(parse_level(&doc, &mut state), Err(ParseError::MissingField));
    assert_eq!(state.ray_count, 0);
}

#[test]
fn destination_must_be_a_point() {
    let bad = FieldDoc {
        identifier: "destination".to_string(),
        value: FieldValue::IntVal(3),
    };
    let doc = LevelDoc {
        layers: vec![entities_layer(vec![lightray_entity((0, 0), vec![bad])])],
    };
    let mut state = GameState::default();
    assert_eq!(parse_level(&doc, &mut state), Err(ParseError::Malformed));
}

#[test]
fn priority_must_be_an_integer() {
    let bad = FieldDoc { identifier: "priority".to_string(), value: FieldValue::OtherVal };
    let doc = LevelDoc {
        layers: vec![entities_layer(vec![
            lightray_entity((0, 0), vec![destination(1, 0), bad]),
        ])],
    };
    let mut state = GameState::default();
    assert_eq!(parse_level(&doc, &mut state), Err(ParseError::Malformed));
}

#[test]
fn entity_cell_needs_two_coordinates() {
    let stub = EntityDoc {
        identifier: "Lightray".to_string(),
        grid: vec![4],
        fields: vec![destination(1, 0)],
    };
    let doc = LevelDoc { layers: vec![entities_layer(vec![stub])] };
    let mut state = GameState::default();
    assert_eq!(parse_level(&doc, &mut state), Err(ParseError::Malformed));
}

#[test]
fn missing_priority_defaults_to_counter() {
    let doc = LevelDoc {
        layers: vec![entities_layer(vec![
            lightray_entity((0, 0), vec![destination(3, 0)]),
            lightray_entity((0, 1), vec![destination(3, 1)]),
        ])],
    };
    let mut state = GameState { ray_count: 4 };
    let parsed = parse_level(&doc, &mut state).expect("well formed");
    assert_eq!(parsed.rays[0].prio, 4);
    assert_eq!(parsed.rays[1].prio, 5);
    assert_eq!(state.ray_count, 6);
}

#[test]
fn last_field_occurrence_wins() {
    let doc = LevelDoc {
        layers: vec![entities_layer(vec![lightray_entity(
            (0, 0),
            vec![destination(9, 9), priority(1), destination(2, 0), priority(7)],
        )])],
    };
    let mut state = GameState::default();
    let parsed = parse_level(&doc, &mut state).expect("well formed");
    assert_eq!((parsed.rays[0].dest_x, parsed.rays[0].dest_y), (2, 0));
    assert_eq!(parsed.rays[0].prio, 7);
}

#[test]
fn unknown_parts_are_ignored() {
    let mystery_layer = LayerDoc {
        kind: "Background".to_string(),
        width: 1,
        height: 1,
        int_grid: vec![1],
        entities: Vec::new(),
    };
    let other_entity = EntityDoc {
        identifier: "Enemy".to_string(),
        grid: vec![0, 0],
        fields: Vec::new(),
    };
    let extra_field = FieldDoc {
        identifier: "speed".to_string(),
        value: FieldValue::OtherVal,
    };
    let doc = LevelDoc {
        layers: vec![
            mystery_layer,
            entities_layer(vec![
                other_entity,
                lightray_entity((0, 0), vec![extra_field, destination(1, 0)]),
            ]),
        ],
    };
    let mut state = GameState::default();
    let parsed = parse_level(&doc, &mut state).expect("well formed");
    assert!(parsed.walls.is_empty());
    assert_eq!(parsed.rays.len(), 1);
    assert_eq!(state.ray_count, 1);
}

#[test]
fn failure_keeps_state_untouched() {
    let doc = LevelDoc {
        layers: vec![
            entities_layer(vec![lightray_entity((0, 0), vec![destination(1, 0)])]),
            grid_layer(2, 2, vec![0]),
        ],
    };
    let mut state = GameState { ray_count: 9 };
    assert_eq!(parse_level(&doc, &mut state), Err(ParseError::IndexOutOfBounds));
    assert_eq!(state.ray_count, 9);
}

#[test]
fn world_position_of_cells() {
    assert_eq!(tile_world_pos(0, 0), (0, 0));
    assert_eq!(tile_world_pos(3, 2), (96, -64));
    assert_eq!(tile_world_pos(-1, -2), (-32, 64));
}

#[test]
fn frame_advance_wraps() {
    let index = lightray::anim::AnimationIndex { first: 0, last: 5 };
    assert_eq!(index.next_frame(0), 1);
    assert_eq!(index.next_frame(4), 5);
    assert_eq!(index.next_frame(5), 0);
}
