use raycaster::canvas::Canvas;
use raycaster::color::{clamp_i32_to_u8, clamp_u32_to_u8, shade, u8_to_color, ChannelOrder};
use raycaster::fixed::FIX;
use raycaster::game::{demo_map, GameWindow};
use raycaster::loader::{Assets, FileLoader, ResourceIndex};
use raycaster::movement::{step, Input, Player};
use raycaster::raycast::{cast_ray, march_exec, FAR};
use raycaster::render::wall_rows_exec;
use raycaster::sprites::{arc_toward, depth_order, distance_to, draw_objects, visible_columns, visible_objects, Drawable};
use raycaster::tables::{Tables, ANGLE180, ANGLE270, ANGLE360, ANGLE90, ARCS, FISH_ARCS, TILE};
use raycaster::texture::Texture;
use raycaster::world::{Doors, TileMap};
use std::collections::HashMap;

fn arc_to_rad(arc: i32) -> f32 {
    (arc as f32 * std::f32::consts::PI / 3.0) / 320.0
}

fn to_fix(v: f32) -> i64 {
    (v * 65536.0).round() as i64
}

fn tables() -> Tables {
    let mut sin = Vec::new();
    let mut cos = Vec::new();
    for i in 0..ARCS {
        let r = arc_to_rad(i as i32) + 0.0001;
        sin.push(to_fix(r.sin()));
        cos.push(to_fix(r.cos()));
    }
    let mut fish = Vec::new();
    for j in 0..FISH_ARCS {
        fish.push(to_fix(arc_to_rad(j as i32 - 160).cos()));
    }
    Tables::from_samples(sin, cos, fish).unwrap()
}

fn grid(width: usize, height: usize, cells: Vec<u32>) -> TileMap {
    let n = width * height;
    TileMap::new(width, height, cells, vec![0; n], vec![0; n], vec![0; n]).unwrap()
}

fn player(x: i64, y: i64, arc: i64) -> Player {
    Player { x, y, arc, ycenter: 100, height: 32, speed: 16 }
}

struct NoFiles;

impl FileLoader for NoFiles {
    fn load_textures(&mut self, _resource_index: &ResourceIndex, _textures: &mut HashMap<u32, Texture>) {}
    fn load_index_file(&mut self) -> Option<ResourceIndex> {
        None
    }
}

fn near(a: i64, b: i64, tolerance: i64) -> bool {
    (a - b).abs() <= tolerance
}

#[test]
fn clamps() {
    assert_eq!(clamp_i32_to_u8(-3), 0);
    assert_eq!(clamp_i32_to_u8(77), 77);
    assert_eq!(clamp_i32_to_u8(300), 255);
    assert_eq!(clamp_u32_to_u8(255), 255);
    assert_eq!(clamp_u32_to_u8(256), 255);
    assert_eq!(clamp_u32_to_u8(12), 12);
}

#[test]
fn packs_argb() {
    assert_eq!(u8_to_color(0x11, 0x22, 0x33, 0x44), 0x1122_3344);
}

#[test]
fn shading_scales_and_saturates() {
    assert_eq!(shade(100, 180, 90), 200);
    assert_eq!(shade(200, 180, 90), 255);
    assert_eq!(shade(10, 130, 1000), 1);
}

#[test]
fn tables_refuse_bad_samples() {
    assert!(Tables::from_samples(vec![0; 3], vec![0; 3], vec![65536; FISH_ARCS]).is_none());
    assert!(Tables::from_samples(vec![70000; ARCS], vec![0; ARCS], vec![65536; FISH_ARCS]).is_none());
    assert!(Tables::from_samples(vec![0; ARCS], vec![65536; ARCS], vec![0; FISH_ARCS]).is_none());
    assert!(Tables::from_samples(vec![0; ARCS], vec![0; ARCS], vec![65536; FISH_ARCS]).is_none());
    assert!(Tables::from_samples(vec![0; ARCS], vec![65536; ARCS], vec![65536; FISH_ARCS]).is_some());
}

#[test]
fn step_tables_point_the_way_the_ray_goes() {
    let t = tables();
    for i in 0..ARCS {
        let a = i as i64;
        if a >= ANGLE90 && a < ANGLE270 {
            assert!(t.xstep[i] <= 0);
        } else {
            assert!(t.xstep[i] >= 0);
        }
        if a < ANGLE180 {
            assert!(t.ystep[i] >= 0);
        } else {
            assert!(t.ystep[i] <= 0);
        }
    }
    assert_eq!(t.fish[160], 65536);
    assert!(t.fish[0] > 65536);
}

#[test]
fn sine_and_cosine_squares_sum_to_one() {
    let t = tables();
    for i in 0..ARCS {
        let s = t.sin[i] as f64 / 65536.0;
        let c = t.cos[i] as f64 / 65536.0;
        assert!((s * s + c * c - 1.0).abs() < 1e-3);
    }
}

#[test]
fn map_refuses_open_border_and_bad_shapes() {
    assert!(TileMap::new(3, 3, vec![1, 1, 1, 1, 0, 0, 1, 1, 1], vec![0; 9], vec![0; 9], vec![0; 9]).is_none());
    assert!(TileMap::new(3, 3, vec![1; 8], vec![0; 9], vec![0; 9], vec![0; 9]).is_none());
    assert!(TileMap::new(3, 3, vec![1, 1, 1, 1, 0x4002, 1, 1, 1, 1], vec![0; 9], vec![0; 9], vec![0; 9]).is_none());
    assert!(TileMap::new(3, 3, vec![1, 1, 1, 1, 0x3f02, 1, 1, 1, 1], vec![0; 9], vec![0; 9], vec![0; 9]).is_some());
}

#[test]
fn demo_map_layout() {
    let m = demo_map();
    assert_eq!(m.width, 20);
    assert_eq!(m.code_at(4, 9), 0x0002);
    assert_eq!(m.code_at(12, 11), 0x0102);
    assert_eq!(m.code_at(15, 4), 1);
    assert_eq!(m.code_at(1, 2), 0);
    assert_eq!(m.wall_img[9 * 20 + 4], 74);
    assert_eq!(m.floor_img[9 * 20 + 3], 14);
    assert_eq!(m.ceiling_img[0], 101);
}

#[test]
fn door_animation_opens_then_closes() {
    let mut d = Doors::new();
    for _ in 0..64 {
        d.animate();
    }
    assert_eq!(d.positions[0], 64);
    assert!(!d.opening);
    d.animate();
    assert_eq!(d.positions[0], 63);
    assert_eq!(d.positions[1], 0);
}

// A corridor three cells long between walls, the player in its first cell.
fn corridor() -> TileMap {
    grid(5, 3, vec![1, 1, 1, 1, 1, 1, 0, 0, 0, 1, 1, 1, 1, 1, 1])
}

#[test]
fn ray_down_a_corridor_meets_the_end_wall() {
    let t = tables();
    let m = corridor();
    let doors = Doors::new();
    let hit = cast_ray(&m, &doors, &t, 96, 96, 0).unwrap();
    assert!(hit.vertical);
    assert_eq!(hit.grid, 256);
    assert!(near(hit.distance, 160 * FIX, FIX / 8));
}

#[test]
fn ray_along_an_axis_never_crosses_its_lines() {
    let m = corridor();
    let doors = Doors::new();
    assert_eq!(march_exec(&m, &doors, false, 96 * FIX, 5 * TILE, 0, TILE), None);
    let t = tables();
    let hit = cast_ray(&m, &doors, &t, 96, 96, ANGLE90).unwrap();
    assert!(!hit.vertical);
    assert!(near(hit.distance, 32 * FIX, FIX / 8));
    assert!(FAR > hit.distance);
}

// A corridor with a door in its third cell.
fn door_corridor() -> TileMap {
    grid(6, 3, vec![1, 1, 1, 1, 1, 1, 1, 0, 0, 0x0002, 0, 1, 1, 1, 1, 1, 1, 1])
}

#[test]
fn closed_door_stops_the_ray() {
    let t = tables();
    let m = door_corridor();
    let doors = Doors::new();
    let hit = cast_ray(&m, &doors, &t, 96, 96, 0).unwrap();
    assert!(hit.vertical);
    assert_eq!(hit.grid, 192);
    assert!(near(hit.distance, 128 * FIX, FIX / 8));
}

#[test]
fn open_door_lets_the_ray_through() {
    let t = tables();
    let m = door_corridor();
    let mut doors = Doors::new();
    doors.set(0, 64);
    let hit = cast_ray(&m, &doors, &t, 96, 96, 0).unwrap();
    assert_eq!(hit.grid, 320);
    assert!(near(hit.distance, 224 * FIX, FIX / 8));
}

#[test]
fn wall_rows_of_a_near_wall() {
    let (bottom, top) = wall_rows_exec(64 * FIX, 32, 100);
    assert_eq!(bottom, 100 + 277 / 2);
    assert_eq!(bottom - top, 277);
}

fn open_room() -> TileMap {
    let mut cells = vec![0u32; 49];
    for i in 0..7 {
        cells[i] = 1;
        cells[42 + i] = 1;
        cells[i * 7] = 1;
        cells[i * 7 + 6] = 1;
    }
    grid(7, 7, cells)
}

#[test]
fn forward_step_in_the_open() {
    let t = tables();
    let m = open_room();
    let p = player(224, 224, 100);
    let input = Input { forward: true, ..Input::default() };
    let q = step(&m, &t, &p, &input);
    let dx = (t.cos[100] as f64 * 16.0 / 65536.0).round() as i64;
    let dy = (t.sin[100] as f64 * 16.0 / 65536.0).round() as i64;
    assert_eq!((dx, dy), (15, 5));
    assert_eq!((q.x, q.y), (224 + dx, 224 + dy));
    let q = step(&m, &t, &player(224, 224, 0), &input);
    assert_eq!((q.x, q.y), (240, 224));
}

#[test]
fn backward_step_and_turns() {
    let t = tables();
    let m = open_room();
    let p = player(224, 224, 0);
    let q = step(&m, &t, &p, &Input { backward: true, ..Input::default() });
    assert_eq!((q.x, q.y), (208, 224));
    let r = step(&m, &t, &p, &Input { turn_left: true, ..Input::default() });
    assert_eq!(r.arc, ANGLE360 - 26);
    let s = step(&m, &t, &p, &Input { turn_right: true, ..Input::default() });
    assert_eq!(s.arc, 26);
}

#[test]
fn wall_ahead_within_clearance_blocks() {
    let t = tables();
    let m = corridor();
    // Facing east from x = 236 in cell 3: the move ends at 252, within 8 of
    // the wall cell's edge at 256.
    let p = player(236, 96, 0);
    let q = step(&m, &t, &p, &Input { forward: true, ..Input::default() });
    assert_eq!(q.x, 236);
    // From further back the same move is allowed.
    let p = player(200, 96, 0);
    let q = step(&m, &t, &p, &Input { forward: true, ..Input::default() });
    assert_eq!(q.x, 216);
}

#[test]
fn look_and_height_are_clamped() {
    let t = tables();
    let m = open_room();
    let mut p = player(224, 224, 0);
    p.ycenter = 290;
    p.height = 59;
    let q = step(&m, &t, &p, &Input { look_up: true, rise: true, ..Input::default() });
    assert_eq!(q.ycenter, 299);
    assert_eq!(q.height, 59);
    p.ycenter = -195;
    p.height = -5;
    let q = step(&m, &t, &p, &Input { look_down: true, fall: true, ..Input::default() });
    assert_eq!(q.ycenter, -200);
    assert_eq!(q.height, -5);
}

#[test]
fn occluded_columns_are_not_drawn() {
    let distances = vec![10 * FIX, 50 * FIX, 30 * FIX, 30 * FIX + 1, 5 * FIX];
    assert_eq!(visible_columns(&distances, 30 * FIX, 0, 5), vec![1, 3]);
    assert_eq!(visible_columns(&distances, 30 * FIX, 2, 4), vec![3]);
    assert_eq!(visible_columns(&distances, 30 * FIX, 4, 2), Vec::<i64>::new());
}

#[test]
fn distance_and_direction_of_an_object() {
    let t = tables();
    assert_eq!(distance_to(3, 4), 5 * FIX);
    assert_eq!(distance_to(-6, 8), 10 * FIX);
    assert_eq!(arc_toward(&t, 100, 0), 0);
    assert!(near(arc_toward(&t, 0, 100), ANGLE90, 1));
    assert!(near(arc_toward(&t, -100, 0), ANGLE180, 1));
    assert!(near(arc_toward(&t, 100, 100), ANGLE90 / 2, 1));
}

#[test]
fn objects_in_view_farthest_first() {
    let mk = |d: i64, a: i64| Drawable { real_distance: d, angle: a, ..Drawable::new(0, 0, 0, 32, 32, 32, 1).unwrap() };
    let objs = vec![mk(5 * FIX, 10), mk(9 * FIX, 1900), mk(7 * FIX, 960), mk(FIX / 2, 0), mk(3 * FIX, 470)];
    let visible = visible_objects(&objs, 0);
    assert_eq!(visible, vec![0, 1, 4]);
    assert_eq!(depth_order(&objs, &visible), vec![1, 0, 4]);
}

#[test]
fn drawable_refuses_far_coordinates() {
    assert!(Drawable::new(0x10_0001, 0, 0, 1, 1, 1, 1).is_none());
    assert!(Drawable::new(5, 6, 7, 1, 2, 3, 4).is_some());
}

#[test]
fn center_column_sees_the_wall_half_a_tile_away() {
    let mut g = GameWindow::new(320, 200, Assets::new(String::from("./"), NoFiles));
    g.init(tables());
    assert!(g.set_player(player(96, 96, 0)));
    assert!(g.set_map(grid(3, 3, vec![1, 1, 1, 1, 0, 1, 1, 1, 1])));
    g.render_frame();
    let d = g.wall_distances();
    assert!(near(d[160], 32 * FIX, FIX / 8));
}

#[test]
fn game_step_moves_and_toggles_the_ceiling() {
    let mut g = GameWindow::new(320, 200, Assets::new(String::from("./"), NoFiles));
    g.init(tables());
    g.game_step(Input { forward: true, toggle_ceiling: true, ..Input::default() });
    let p = g.player();
    assert_ne!((p.x, p.y), (100, 160));
    g.game_step(Input::default());
    assert_eq!(g.get_buffer_to_print().len(), 320 * 200);
    assert_eq!(g.map_index(3, 2), 2 * 64 + 3);
}

#[test]
fn frame_draws_textured_walls() {
    let mut assets = Assets::new(String::from("./"), NoFiles);
    let tex = Texture { width: 64, height: 64, data: vec![200; 64 * 64 * 4] };
    for id in [83u32, 74, 162, 14, 101, 110, 163, 42] {
        assets.textures.insert(id, tex.clone());
    }
    let mut g = GameWindow::new(320, 200, assets);
    g.init(tables());
    g.render_frame();
    let words = g.get_buffer_to_print();
    assert!(words.iter().any(|w| *w != 0));
    g.move_doors_demo();
    g.set_door(1, 200);
}

#[test]
fn object_behind_the_walls_is_not_drawn_and_in_front_is() {
    let t = tables();
    let m = open_room();
    let p = player(224, 224, 0);
    let mut textures = HashMap::new();
    textures.insert(7u32, Texture { width: 32, height: 32, data: vec![255; 32 * 32 * 4] });
    let object = Drawable::new(320, 224, 0, 32, 32, 32, 7).unwrap();

    // Walls one pixel away in every column: the object, 96 pixels away, is hidden.
    let mut canvas = Canvas::new(320, 200, ChannelOrder::Argb);
    let mut objs = vec![object];
    draw_objects(&mut canvas, &textures, &mut objs, &t, &m, &p, &vec![FIX; 320]);
    assert!(canvas.pixels.iter().all(|b| *b == 0));
    assert_eq!(objs[0].real_distance, 96 * FIX);
    assert_eq!(objs[0].angle, 0);

    // Walls far away: the object is drawn around the centre column.
    let mut canvas = Canvas::new(320, 200, ChannelOrder::Argb);
    let mut objs = vec![object];
    draw_objects(&mut canvas, &textures, &mut objs, &t, &m, &p, &vec![FAR; 320]);
    let words = canvas.words();
    assert!(words.iter().any(|w| *w != 0));
    assert!((0..200).any(|row| words[row * 320 + 160] != 0));
    assert!((0..200).all(|row| words[row * 320 + 10] == 0));
}

#[test]
fn new_view_starts_blank_with_no_walls_recorded() {
    let g = GameWindow::new(320, 200, Assets::new(String::from("./"), NoFiles));
    assert!(g.get_buffer_to_print().iter().all(|w| *w == 0));
    assert!(g.wall_distances().iter().all(|d| *d == FAR));
    assert_eq!(g.wall_distances().len(), 320);
    let p = g.player();
    assert_eq!((p.x, p.y, p.arc, p.height, p.speed), (100, 160, 320, 32, 16));
}

#[test]
fn set_objects_keeps_those_in_bounds() {
    let mut g = GameWindow::new(320, 200, Assets::new(String::from("./"), NoFiles));
    g.init(tables());
    let near = Drawable::new(300, 300, 0, 32, 32, 32, 7).unwrap();
    let far = Drawable { x: 0x20_0000, ..near };
    g.set_objects(vec![far, near]);
    g.render_frame();
    assert!(g.wall_distances().iter().any(|d| *d != FAR));
}
