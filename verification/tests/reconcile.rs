use bevy_prototype_2d_graphics::circles::{circle_update_system, Circle, CircleComponents, CircleStyle};
use bevy_prototype_2d_graphics::color::Color;
use bevy_prototype_2d_graphics::fixed::ONE;
use bevy_prototype_2d_graphics::affine::{Mat4, Vec4};
use bevy_prototype_2d_graphics::geometry::Vec2;
use bevy_prototype_2d_graphics::lines::{
    calc_transform_for_line, line_update_system, lines_are_drawable, Line, LineComponents,
};
use bevy_prototype_2d_graphics::pool::{reconcile, FrameStats, PoolEntity, Shape};
use bevy_prototype_2d_graphics::rectangles::{
    rectangle_update_system, Extent, Rectangle, RectangleComponents,
};
use bevy_prototype_2d_graphics::Immediate2DGraphics;

fn circle_at(x: i32, radius: u32) -> Circle {
    Circle { style: CircleStyle::default(), pos: Vec2 { x, y: -x }, radius }
}

fn stale_circle_entity(x: i32, is_visible: bool) -> PoolEntity<CircleComponents> {
    PoolEntity {
        is_visible,
        components: CircleComponents {
            style: CircleStyle {
                fill_color: Color::rgb(x, x, x),
                border_color: Color::black(),
                border_width: x,
            },
            translation: Vec2 { x, y: x },
            scale: 1000 + x as u64,
        },
    }
}

fn shown_circle(c: &Circle) -> PoolEntity<CircleComponents> {
    PoolEntity {
        is_visible: true,
        components: CircleComponents { style: c.style, translation: c.pos, scale: 2 * c.radius as u64 },
    }
}

fn check_pairing(entities: usize, wanted: usize) {
    let mut pool: Vec<PoolEntity<CircleComponents>> =
        (0..entities).map(|i| stale_circle_entity(i as i32, i % 2 == 0)).collect();
    let before: Vec<PoolEntity<CircleComponents>> =
        (0..entities).map(|i| stale_circle_entity(i as i32, i % 2 == 0)).collect();
    let requests: Vec<Circle> = (0..wanted).map(|i| circle_at(100 + i as i32, i as u32)).collect();
    let stats = reconcile(&mut pool, &requests);
    let paired = entities.min(wanted);
    assert_eq!(
        stats,
        FrameStats {
            updated: paired,
            hidden: entities.saturating_sub(wanted),
            created: wanted.saturating_sub(entities),
        }
    );
    assert_eq!(pool.len(), entities.max(wanted));
    for i in 0..pool.len() {
        if i < wanted {
            assert_eq!(pool[i], shown_circle(&requests[i]));
        } else {
            assert!(!pool[i].is_visible);
            assert_eq!(pool[i].components, before[i].components);
        }
    }
}

#[test]
fn pairing_with_more_entities_than_requests() {
    check_pairing(5, 2);
}

#[test]
fn pairing_with_more_requests_than_entities() {
    check_pairing(2, 5);
}

#[test]
fn pairing_with_as_many_requests_as_entities() {
    check_pairing(4, 4);
}

#[test]
fn pairing_with_an_empty_pool() {
    check_pairing(0, 3);
}

#[test]
fn pairing_with_no_requests() {
    check_pairing(3, 0);
}

#[test]
fn pairing_with_nothing_at_all() {
    check_pairing(0, 0);
}

#[test]
fn pairing_over_a_grid_of_sizes() {
    for entities in 0..7 {
        for wanted in 0..7 {
            check_pairing(entities, wanted);
        }
    }
}

#[test]
fn circle_components_hold_the_diameter() {
    let c = Circle { style: CircleStyle::default(), pos: Vec2 { x: 3, y: 4 }, radius: 21 };
    assert_eq!(
        c.render(),
        CircleComponents { style: CircleStyle::default(), translation: Vec2 { x: 3, y: 4 }, scale: 42 }
    );
    assert_eq!(circle_at(0, u32::MAX).render().scale, 2 * (u32::MAX as u64));
    assert_eq!(Circle::new(0, 0).render().scale, 200 * ONE as u64);
}

#[test]
fn rectangle_components_copy_the_request() {
    let mut g = Immediate2DGraphics::default();
    g.fill_rectangle(5, 6).with_width(30).with_height(10).with_rotation(77).finalize();
    let r: Rectangle = g.rectangles[0];
    assert_eq!(
        r.render(),
        RectangleComponents {
            style: r.style,
            translation: Vec2 { x: 5, y: 6 },
            scale: Extent { width: 30, height: 10 },
            rotation: 77,
        }
    );
}

#[test]
fn line_components_hold_the_transform() {
    let mut g = Immediate2DGraphics::default();
    g.draw_line(0, 0, 10, 0).with_stroke(1).finalize();
    let l: Line = g.lines[0];
    let c = l.render();
    assert_eq!(c.style, l.style);
    assert_eq!(
        c.transform,
        Mat4 {
            x_axis: Vec4 { x: 12, y: 0, z: 0, w: 0 },
            y_axis: Vec4 { x: 0, y: 2, z: 0, w: 0 },
            z_axis: Vec4 { x: 0, y: 0, z: 0, w: 0 },
            w_axis: Vec4 { x: -1, y: -1, z: 0, w: 1 },
            den: 1,
        }
    );
}

#[test]
fn three_circles_then_one() {
    let mut g = Immediate2DGraphics::default();
    let mut pool: Vec<PoolEntity<CircleComponents>> = Vec::new();

    g.fill_circle(1, 1).with_radius(10).finalize();
    g.fill_circle(2, 2).with_radius(20).finalize();
    g.fill_circle(3, 3).with_radius(30).finalize();
    let first = circle_update_system(&mut g, &mut pool);
    assert_eq!(first, FrameStats { updated: 0, hidden: 0, created: 3 });
    assert_eq!(pool.len(), 3);
    assert!(pool.iter().all(|e| e.is_visible));
    assert!(g.circles.is_empty());
    let second_entity = pool[1].components;
    let third_entity = pool[2].components;

    g.fill_circle(9, 9).with_radius(90).with_color(Color::rgb(ONE, 0, 0)).finalize();
    let second = circle_update_system(&mut g, &mut pool);
    assert_eq!(second, FrameStats { updated: 1, hidden: 2, created: 0 });
    assert_eq!(pool.len(), 3);
    assert!(pool[0].is_visible);
    assert_eq!(pool[0].components.translation, Vec2 { x: 9, y: 9 });
    assert_eq!(pool[0].components.scale, 180);
    assert_eq!(pool[0].components.style.fill_color, Color::rgb(ONE, 0, 0));
    assert!(!pool[1].is_visible);
    assert!(!pool[2].is_visible);
    assert_eq!(pool[1].components, second_entity);
    assert_eq!(pool[2].components, third_entity);
    assert!(g.circles.is_empty());
}

#[test]
fn an_empty_frame_hides_the_pool_and_keeps_it() {
    for k in 0..5usize {
        let mut g = Immediate2DGraphics::default();
        let mut pool: Vec<PoolEntity<CircleComponents>> = Vec::new();
        for i in 0..k {
            g.fill_circle(i as i32, 0).finalize();
        }
        circle_update_system(&mut g, &mut pool);
        let busy: Vec<CircleComponents> = pool.iter().map(|e| e.components).collect();
        let idle = circle_update_system(&mut g, &mut pool);
        assert_eq!(idle, FrameStats { updated: 0, hidden: k, created: 0 });
        assert_eq!(pool.len(), k);
        assert!(pool.iter().all(|e| !e.is_visible));
        assert_eq!(pool.iter().map(|e| e.components).collect::<Vec<_>>(), busy);
        let again = circle_update_system(&mut g, &mut pool);
        assert_eq!(again, idle);
        assert_eq!(pool.len(), k);
        assert!(pool.iter().all(|e| !e.is_visible));
    }
}

#[test]
fn a_hidden_entity_is_shown_again() {
    let mut g = Immediate2DGraphics::default();
    let mut pool: Vec<PoolEntity<CircleComponents>> = Vec::new();
    g.fill_circle(1, 1).finalize().fill_circle(2, 2).finalize();
    circle_update_system(&mut g, &mut pool);
    circle_update_system(&mut g, &mut pool);
    assert!(pool.iter().all(|e| !e.is_visible));
    g.fill_circle(5, 5).finalize().fill_circle(6, 6).finalize().fill_circle(7, 7).finalize();
    let stats = circle_update_system(&mut g, &mut pool);
    assert_eq!(stats, FrameStats { updated: 2, hidden: 0, created: 1 });
    assert_eq!(pool.len(), 3);
    assert!(pool.iter().all(|e| e.is_visible));
    assert_eq!(pool[0].components.translation, Vec2 { x: 5, y: 5 });
    assert_eq!(pool[2].components.translation, Vec2 { x: 7, y: 7 });
}

#[test]
fn the_pool_never_shrinks() {
    let mut g = Immediate2DGraphics::default();
    let mut pool: Vec<PoolEntity<CircleComponents>> = Vec::new();
    let mut high_water = 0;
    for &n in &[3usize, 1, 0, 5, 2, 5, 7, 0] {
        for i in 0..n {
            g.fill_circle(i as i32, 0).finalize();
        }
        let before = pool.len();
        circle_update_system(&mut g, &mut pool);
        high_water = high_water.max(n);
        assert!(pool.len() >= before);
        assert_eq!(pool.len(), high_water);
        assert_eq!(pool.iter().filter(|e| e.is_visible).count(), n);
    }
}

#[test]
fn each_pass_drains_its_own_list_only() {
    let mut g = Immediate2DGraphics::default();
    g.fill_circle(0, 0).finalize();
    g.fill_rectangle(0, 0).finalize();
    g.draw_line(0, 0, 1, 1).finalize();
    let mut circles: Vec<PoolEntity<CircleComponents>> = Vec::new();
    let mut rectangles: Vec<PoolEntity<RectangleComponents>> = Vec::new();
    let mut lines: Vec<PoolEntity<LineComponents>> = Vec::new();

    rectangle_update_system(&mut g, &mut rectangles);
    assert_eq!((g.circles.len(), g.rectangles.len(), g.lines.len()), (1, 0, 1));
    assert!(lines_are_drawable(&g));
    line_update_system(&mut g, &mut lines);
    assert_eq!((g.circles.len(), g.rectangles.len(), g.lines.len()), (1, 0, 0));
    circle_update_system(&mut g, &mut circles);
    assert_eq!((g.circles.len(), g.rectangles.len(), g.lines.len()), (0, 0, 0));
    assert_eq!((circles.len(), rectangles.len(), lines.len()), (1, 1, 1));
}

#[test]
fn rectangle_pass_updates_position_scale_and_rotation() {
    let mut g = Immediate2DGraphics::default();
    let mut pool: Vec<PoolEntity<RectangleComponents>> = Vec::new();
    g.fill_rectangle(1, 2).with_width(10).with_height(20).with_rotation(5).finalize();
    g.fill_rectangle(3, 4).finalize();
    let stats = rectangle_update_system(&mut g, &mut pool);
    assert_eq!(stats, FrameStats { updated: 0, hidden: 0, created: 2 });
    g.fill_rectangle(-1, -2)
        .with_width(200)
        .with_height(50)
        .with_rotation(-9)
        .with_border(Color::black(), 32768)
        .finalize();
    let stats = rectangle_update_system(&mut g, &mut pool);
    assert_eq!(stats, FrameStats { updated: 1, hidden: 1, created: 0 });
    assert!(pool[0].is_visible);
    assert_eq!(pool[0].components.translation, Vec2 { x: -1, y: -2 });
    assert_eq!(pool[0].components.scale, Extent { width: 200, height: 50 });
    assert_eq!(pool[0].components.rotation, -9);
    assert_eq!(pool[0].components.style.border_width, Vec2 { x: 8192, y: 32768 });
    assert!(!pool[1].is_visible);
    assert_eq!(pool[1].components.translation, Vec2 { x: 3, y: 4 });
}

#[test]
fn line_pass_sets_the_transform() {
    let mut g = Immediate2DGraphics::default();
    let mut pool: Vec<PoolEntity<LineComponents>> = Vec::new();
    g.draw_line(0, 0, 30, 40).with_stroke(5).finalize();
    g.draw_line(0, 0, 10, 0).with_stroke(1).finalize();
    assert!(lines_are_drawable(&g));
    let stats = line_update_system(&mut g, &mut pool);
    assert_eq!(stats, FrameStats { updated: 0, hidden: 0, created: 2 });
    assert_eq!(pool[0].components.transform, calc_transform_for_line(Vec2::new(0, 0), Vec2::new(30, 40), 5));
    assert_eq!(pool[0].components.transform.x_axis, Vec4 { x: 36, y: 48, z: 0, w: 0 });
    assert_eq!(pool[0].components.transform.y_axis, Vec4 { x: -8, y: 6, z: 0, w: 0 });
    assert_eq!(pool[0].components.transform.w_axis, Vec4 { x: 1, y: -7, z: 0, w: 1 });
    assert_eq!(pool[0].components.style.width, 60);
    assert_eq!(pool[0].components.style.height, 10);
    assert_eq!(pool[1].components.style.width, 12);

    g.draw_line(5, 5, 5, 9).with_stroke(2).finalize();
    let stats = line_update_system(&mut g, &mut pool);
    assert_eq!(stats, FrameStats { updated: 1, hidden: 1, created: 0 });
    assert_eq!(pool[0].components.transform, calc_transform_for_line(Vec2::new(5, 5), Vec2::new(5, 9), 2));
    assert!(!pool[1].is_visible);
    assert_eq!(pool[1].components.transform, calc_transform_for_line(Vec2::new(0, 0), Vec2::new(10, 0), 1));
}

#[test]
fn line_transform_agrees_with_the_style_on_a_short_segment() {
    let mut g = Immediate2DGraphics::default();
    let mut pool: Vec<PoolEntity<LineComponents>> = Vec::new();
    g.draw_line(0, 0, 1, 1).finalize();
    line_update_system(&mut g, &mut pool);
    let c = pool[0].components;
    // the default stroke is 10 units
    assert_eq!((c.style.width, c.style.height), (1310721, 1310720));
    assert_eq!(c.transform.w_axis, Vec4 { x: 0, y: -926818, z: 0, w: 1 });
    assert_eq!(c.transform.x_axis, Vec4 { x: 926819, y: 926819, z: 0, w: 0 });
    assert_eq!(c.transform.y_axis, Vec4 { x: -926818, y: 926818, z: 0, w: 0 });
    // the short side is 2 * 926818 * 1.41421356 / 2 = 1310717.6 raw units long
    let short = c.transform.y_axis.x * c.transform.y_axis.x
        + c.transform.y_axis.y * c.transform.y_axis.y;
    let height = c.style.height as i128;
    assert!(short <= height * height);
    assert!((height - 3) * (height - 3) < short);
}

#[test]
fn a_line_without_length_is_not_drawable() {
    let mut g = Immediate2DGraphics::default();
    assert!(lines_are_drawable(&g));
    g.draw_line(0, 0, 1, 0).finalize();
    assert!(lines_are_drawable(&g));
    g.draw_line(4, 4, 4, 4).finalize();
    assert!(!lines_are_drawable(&g));
    g.draw_line(0, 0, 0, 1).finalize();
    assert!(!lines_are_drawable(&g));
}
