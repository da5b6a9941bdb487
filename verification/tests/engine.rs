use physics::boot::{Start, SPAWN_COUNT};
use physics::bundles::{atom, Circle, PHYS};
use physics::ecs::{Component, ComponentType, Rgba, Shape, System, Waiter, Ref, ECS};

fn store(entitys: Vec<Vec<Component>>, systems: Vec<System>) -> ECS {
    ECS { entitys, systems, size: (1_200_000, 800_000) }
}

fn circle(x: i64, y: i64, vx: i64, vy: i64, r: i64) -> Circle {
    Circle { x, y, vx, vy, r, color: Rgba { r: 0, g: 0, b: 0, a: 1000 } }
}

#[test]
fn empty_schema_matches_every_entity() {
    let e1 = vec![Component::Name("a".to_string()), Component::Float(1)];
    let e2 = vec![Component::Bool(true)];
    let ecs = store(vec![e1, e2], vec![]);
    let view = ecs.with(&vec![]);
    assert_eq!(view, vec![0, 1]);
}

#[test]
fn schema_longer_than_bundle_matches_on_prefix() {
    let e1 = vec![Component::Float(7)];
    let ecs = store(vec![e1], vec![]);
    let schema = vec![ComponentType::Float, ComponentType::Int, ComponentType::Bool];
    let view = ecs.with(&schema);
    assert_eq!(view, vec![0]);
}

#[test]
fn mismatched_prefix_is_filtered_out() {
    let e1 = vec![Component::Name("a".to_string()), Component::Float(1)];
    let e2 = vec![Component::Name("a".to_string()), Component::Bool(false)];
    let ecs = store(vec![e1, e2], vec![]);
    let schema = vec![
        ComponentType::Name("a".to_string()),
        ComponentType::Float,
    ];
    let view = ecs.with(&schema);
    assert_eq!(view, vec![0]);
}

#[test]
fn name_schema_compares_the_tag_text() {
    let e1 = vec![Component::Name("a".to_string())];
    let ecs = store(vec![e1], vec![]);
    assert_eq!(ecs.with(&vec![ComponentType::Name("a".to_string())]), vec![0]);
    let none: Vec<usize> = vec![];
    assert_eq!(ecs.with(&vec![ComponentType::Name("b".to_string())]), none);
}

#[test]
fn behavior_handles_match_no_schema_entry() {
    let phys = PHYS {
        gravity: 1000,
        borders: physics::bundles::Borders { left: -1, bottom: -1, right: 1, top: 1 },
    };
    let e1 = vec![Component::FUNC(phys, "PHYS".to_string())];
    let ecs = store(vec![e1], vec![]);
    let none: Vec<usize> = vec![];
    assert_eq!(ecs.with(&vec![ComponentType::FUNC("PHYS".to_string())]), none);
}

#[test]
fn vec2_and_list_match_recursively() {
    let v2 = Component::Vec2(
        Box::new(Component::Float(1)),
        Box::new(Component::Bool(true)),
    );
    let t_ok = ComponentType::Vec2(
        Box::new(ComponentType::Float),
        Box::new(ComponentType::Bool),
    );
    let t_bad = ComponentType::Vec2(
        Box::new(ComponentType::Bool),
        Box::new(ComponentType::Bool),
    );
    assert!(v2.matches_type(&t_ok));
    assert!(!v2.matches_type(&t_bad));
    let list = Component::List(vec![Component::Int(1), Component::Int(2)]);
    assert!(list.matches_type(&ComponentType::List(vec![
        ComponentType::Int,
        ComponentType::Int
    ])));
    assert!(!list.matches_type(&ComponentType::List(vec![ComponentType::Int])));
}

#[test]
fn mapping_matches_when_schema_keys_are_present() {
    let m = Component::Mapping(vec![
        ("hp".to_string(), Component::Int(3)),
        ("tag".to_string(), Component::Text("x".to_string())),
    ]);
    let t_sub = ComponentType::Mapping(vec![("hp".to_string(), ComponentType::Int)]);
    let t_miss = ComponentType::Mapping(vec![("mp".to_string(), ComponentType::Int)]);
    let t_wrong = ComponentType::Mapping(vec![("hp".to_string(), ComponentType::Bool)]);
    assert!(m.matches_type(&t_sub));
    assert!(!m.matches_type(&t_miss));
    assert!(!m.matches_type(&t_wrong));
}

#[test]
fn remove_entity_drops_every_tagged_entity() {
    let e1 = vec![Component::Name("a".to_string())];
    let e2 = vec![Component::Name("b".to_string())];
    let e3 = vec![Component::Name("a".to_string())];
    let mut ecs = store(vec![e1, e2, e3], vec![]);
    ecs.remove_entity("a".to_string());
    assert_eq!(ecs.entitys.len(), 1);
    match &ecs.entitys[0][0] {
        Component::Name(n) => assert_eq!(n, "b"),
        _ => panic!("expected a name tag"),
    }
    ecs.remove_entity("zzz".to_string());
    assert_eq!(ecs.entitys.len(), 1);
}

#[test]
fn remove_system_removes_by_name() {
    let mut ecs = store(vec![], vec![System::Start(Start)]);
    ecs.remove_system("Other".to_string());
    assert_eq!(ecs.systems.len(), 1);
    ecs.remove_system("Start".to_string());
    assert_eq!(ecs.systems.len(), 0);
}

#[test]
fn bootstrap_spawns_once_and_population_stays() {
    let mut ecs = store(vec![], vec![System::Start(Start)]);
    let _ = ecs.tick();
    assert_eq!(ecs.entitys.len(), SPAWN_COUNT);
    assert_eq!(ecs.systems.len(), 0);
    let _ = ecs.tick();
    assert_eq!(ecs.entitys.len(), SPAWN_COUNT);
    let _ = ecs.tick();
    assert_eq!(ecs.entitys.len(), SPAWN_COUNT);
}

#[test]
fn atom_bundle_has_the_conventional_layout() {
    let b = atom();
    assert_eq!(b.len(), 5);
    match &b[0] {
        Component::Name(n) => assert_eq!(n, ""),
        _ => panic!("slot 0 must be the identity tag"),
    }
    match &b[3] {
        Component::GRAPHICS(Shape::Circle { radius, .. }) => assert_eq!(*radius, 5_000),
        _ => panic!("slot 3 must be the drawable"),
    }
    match &b[4] {
        Component::FUNC(p, n) => {
            assert_eq!(p.gravity, 1000);
            assert_eq!(n, "PHYS");
        }
        _ => panic!("slot 4 must be the behavior handle"),
    }
}

#[test]
fn bundle_roundtrip_keeps_the_circle() {
    let c = circle(1_500, -2_500, 300, -400, 5_000);
    let b = c.to_bundle();
    let c2 = Circle::from_bundle(&b);
    assert_eq!(c2, c);
}

#[test]
fn from_bundle_defaults_missing_slots_to_zero() {
    let b = vec![Component::Name("x".to_string())];
    let c = Circle::from_bundle(&b);
    assert_eq!((c.x, c.y, c.vx, c.vy, c.r), (0, 0, 0, 0, 0));
}

#[test]
fn gravity_at_origin_gives_zero_delta() {
    let mut c = circle(0, 0, 123, -456, 5_000);
    c.gravity(1000);
    assert_eq!(c.vx, 123);
    assert_eq!(c.vy, -456);
}

#[test]
fn gravity_pulls_toward_the_origin() {
    let mut c = circle(1_000, 0, 0, 0, 5_000);
    c.gravity(1000);
    assert_eq!(c.vx, -1_000);
    assert_eq!(c.vy, 0);
}

#[test]
fn head_on_restitution_swaps_and_scales() {
    let mut a = circle(0, 0, 1_000, 0, 1_000);
    let mut b = circle(8_000, 0, -1_000, 0, 1_000);
    Circle::reflect_velocities(&mut a, &mut b, 1_000, 0, 800);
    assert_eq!(a.vx, -800);
    assert_eq!(b.vx, 800);
    assert_eq!(a.vy, 0);
    assert_eq!(b.vy, 0);
}

#[test]
fn swept_detection_reports_touch_at_end_of_tick() {
    let a = circle(0, 0, 1_000, 0, 5_000);
    let b = circle(12_000, 0, -1_000, 0, 5_000);
    let hit = a.intersects(&b).expect("closing bodies must collide");
    assert_eq!(hit.t, 1_000);
    assert_eq!(hit.nx, 1_000);
    assert_eq!(hit.ny, 0);
}

#[test]
fn swept_detection_rejects_past_contact() {
    let a = circle(0, 0, 1_000, 0, 5_000);
    let b = circle(8_000, 0, -1_000, 0, 5_000);
    assert!(a.intersects(&b).is_none());
}

#[test]
fn parallel_motion_reports_no_collision() {
    let a = circle(0, 0, 1_000, 0, 5_000);
    let b = circle(8_000, 0, 1_000, 0, 5_000);
    assert!(a.intersects(&b).is_none());
}

#[test]
fn separated_bodies_report_no_overlap() {
    let a = circle(0, 0, 0, 0, 5_000);
    let b = circle(20_000, 0, 0, 0, 5_000);
    assert!(a.collides(&b).is_none());
}

#[test]
fn coincident_centers_get_a_zero_normal_guard() {
    let a = circle(0, 0, 0, 0, 5_000);
    let b = circle(0, 0, 0, 0, 5_000);
    let o = a.collides(&b).expect("coincident bodies overlap");
    assert_eq!(o.nx, 0);
    assert_eq!(o.ny, 0);
    assert_eq!(o.distance, 0);
}

#[test]
fn five_separation_passes_reach_the_radii_sum() {
    let mut a = circle(0, 0, 0, 0, 5_000);
    let other = circle(8_000, 0, 0, 0, 5_000);
    let ecs = store(vec![other.to_bundle()], vec![]);
    let mut p = 0;
    while p < 5 {
        a.move_away(&ecs);
        p += 1;
    }
    let d = a.distance(&other);
    assert!(d >= 10_000, "distance {} still overlapping", d);
}

#[test]
fn collision_search_picks_the_nearest_hit() {
    let a = circle(0, 0, 4_000, 0, 5_000);
    let near = circle(12_000, 0, -1_000, 0, 5_000);
    let far = circle(13_000, 0, -3_000, 0, 5_000);
    let ecs = store(vec![far.to_bundle(), near.to_bundle()], vec![]);
    let (_hit, idx) = a.collision(&ecs).expect("a hit must be found");
    assert_eq!(idx, 1);
}

#[test]
fn collision_search_skips_the_active_marker() {
    let mut tagged = circle(12_000, 0, -1_000, 0, 5_000).to_bundle();
    tagged[0] = Component::Name("SELF".to_string());
    let a = circle(0, 0, 1_000, 0, 5_000);
    let ecs = store(vec![tagged], vec![]);
    assert!(a.collision(&ecs).is_none());
}

#[test]
fn behavior_call_rewrites_the_updated_entity() {
    let a = circle(0, 0, 1_000, 0, 5_000);
    let b = circle(100_000, 0, 0, 0, 5_000);
    let mut ecs = store(vec![a.to_bundle(), b.to_bundle()], vec![]);
    let mut phys = PHYS {
        gravity: 1000,
        borders: physics::bundles::Borders { left: 0, bottom: 0, right: 0, top: 0 },
    };
    phys.call(&mut ecs, 0);
    assert_eq!(ecs.entitys.len(), 2);
    match &ecs.entitys[0][0] {
        Component::Name(n) => assert_eq!(n, ""),
        _ => panic!("updated entity must keep the tag slot"),
    }
    let moved = Circle::from_bundle(&ecs.entitys[0]);
    assert_eq!(moved.x, 1_000);
    assert_eq!(moved.vx, 1_000);
}

#[test]
fn waiter_reports_period_not_elapsed_at_start() {
    let mut w = Waiter::new(std::time::Duration::from_secs(30));
    assert!(!w.update());
    w.reset();
    assert!(w.time() < std::time::Duration::from_secs(30));
}

#[test]
fn waiter_wait_returns_after_a_zero_period() {
    let mut w = Waiter::new(std::time::Duration::from_millis(0));
    w.wait();
}

#[test]
fn ref_cell_owns_and_counts() {
    let r = Ref::new(41);
    assert_eq!(*r.get(), 41);
    let r2 = r.clone();
    assert_eq!(r2.rc, 2);
    assert_eq!(*r2.get(), 41);
}

#[test]
fn builder_collects_systems() {
    let b = ECS::start().add(System::Start(Start));
    assert_eq!(b.systems.len(), 1);
    assert_eq!(b.entitys.len(), 0);
}

#[test]
fn mapping_first_pair_with_a_key_decides() {
    let m = Component::Mapping(vec![
        ("k".to_string(), Component::Int(1)),
        ("k".to_string(), Component::Bool(true)),
    ]);
    assert!(m.matches_type(&ComponentType::Mapping(vec![(
        "k".to_string(),
        ComponentType::Int
    )])));
    assert!(!m.matches_type(&ComponentType::Mapping(vec![(
        "k".to_string(),
        ComponentType::Bool
    )])));
}

#[test]
fn graphics_schema_compares_the_payload() {
    let shape = Shape::Circle {
        radius: 5_000,
        color: Rgba { r: 0, g: 0, b: 0, a: 1000 },
        x: 0,
        y: 0,
    };
    let other = Shape::Circle {
        radius: 6_000,
        color: Rgba { r: 0, g: 0, b: 0, a: 1000 },
        x: 0,
        y: 0,
    };
    let g = Component::GRAPHICS(shape);
    assert!(g.matches_type(&ComponentType::GRAPHICS(shape)));
    assert!(!g.matches_type(&ComponentType::GRAPHICS(other)));
}

#[test]
fn tangential_components_pass_through_unchanged() {
    let mut a = circle(0, 0, 1_000, 700, 1_000);
    let mut b = circle(8_000, 0, -1_000, -300, 1_000);
    Circle::reflect_velocities(&mut a, &mut b, 1_000, 0, 800);
    assert_eq!(a.vx, -800);
    assert_eq!(b.vx, 800);
    assert_eq!(a.vy, 700);
    assert_eq!(b.vy, -300);
}

#[test]
fn separation_pushes_by_the_radii_sum_penetration() {
    let mut a = circle(0, 0, 0, 0, 2_000);
    let other = circle(6_000, 0, 0, 0, 8_000);
    let ecs = store(vec![other.to_bundle()], vec![]);
    a.move_away(&ecs);
    let d = a.distance(&other);
    assert_eq!(d, 10_000);
}

#[test]
fn separation_works_at_general_positions() {
    let mut a = circle(0, 0, 0, 0, 5_000);
    let other = circle(3_000, 4_000, 0, 0, 5_000);
    let ecs = store(vec![other.to_bundle()], vec![]);
    let mut p = 0;
    while p < 5 {
        a.move_away(&ecs);
        p += 1;
    }
    assert_eq!(a.distance(&other), 10_000);
}

#[test]
fn separation_converges_despite_rounding() {
    let mut a = circle(0, 0, 0, 0, 5_000);
    let other = circle(2_000, 3_000, 0, 0, 5_000);
    let ecs = store(vec![other.to_bundle()], vec![]);
    let mut p = 0;
    while p < 5 {
        a.move_away(&ecs);
        p += 1;
    }
    let d = a.distance(&other);
    assert!(d >= 9_990, "distance {} still well inside the radii sum", d);
}
