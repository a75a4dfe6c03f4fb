use omega::entity::{
    Component, ComponentBody, Entity, EntityChild, EntityFns, LookupError, NoFns, Offset, StepKind,
    OFFSET_NAME,
};
use omega::event::Event;
use omega::frame::run_frame;

#[derive(Debug, Clone, PartialEq)]
enum Part {
    Image { x: i32, y: i32 },
    Data(u32),
}

fn image(name: &str, z: i32, x: i32, y: i32) -> Component<Part> {
    Component::new(name, z, Part::Image { x, y })
}

fn child_names(e: &Entity<Part>) -> Vec<String> {
    let mut names = Vec::new();
    for i in 0..e.child_count() {
        match e.child(i) {
            EntityChild::Component(c) => names.push(c.name.clone()),
            EntityChild::Entity(n) => names.push(n.name.clone()),
        }
    }
    names
}

/// Records which entities each hook ran for.
#[derive(Default)]
struct Recorder {
    updated: Vec<String>,
    events: Vec<String>,
    prerendered: Vec<(String, Offset)>,
}

impl EntityFns<Part, Event> for Recorder {
    fn update(&mut self, e: &mut Entity<Part>, _dt_us: u64) {
        self.updated.push(e.name.clone());
        if let Ok(Part::Data(n)) = e.find_component("data") {
            *n += 1;
        }
    }

    fn event(&mut self, e: &mut Entity<Part>, _ev: &Event) {
        self.events.push(e.name.clone());
    }

    fn prerender(&mut self, e: &mut Entity<Part>, offset: Offset) {
        self.prerendered.push((e.name.clone(), offset));
    }
}

#[test]
fn find_component_returns_same_instance() {
    let mut e: Entity<Part> = Entity::new("e", 0);
    e.add_component(image("bg", 0, 1, 2));
    e.add_component(Component::new("data", 0, Part::Data(7)));
    match e.find_component("data") {
        Ok(Part::Data(n)) => *n = 42,
        other => panic!("unexpected {:?}", other.is_ok()),
    }
    assert_eq!(e.find_component("data"), Ok(&mut Part::Data(42)));
    let c = e.find_component_by_name("bg").unwrap();
    c.zindex = 3;
    assert_eq!(e.find_component_by_name("bg").unwrap().zindex, 3);
}

#[test]
fn find_component_reports_missing_and_mismatched() {
    let mut e: Entity<Part> = Entity::new("e", 0);
    e.add_component(Component::offset(1, 1));
    assert_eq!(e.find_component("nothing").err(), Some(LookupError::NotFound));
    assert_eq!(e.find_component(OFFSET_NAME).err(), Some(LookupError::TypeMismatch));
    assert!(e.find_component_by_name(OFFSET_NAME).is_ok());
    assert_eq!(e.find_child_by_name("nobody").err(), Some(LookupError::NotFound));
}

#[test]
fn find_takes_the_first_match_of_the_right_kind() {
    let mut e: Entity<Part> = Entity::new("e", 0);
    e.add_child(Entity::new("x", 1));
    e.add_component(Component::new("x", 0, Part::Data(1)));
    e.add_component(Component::new("x", 0, Part::Data(2)));
    e.add_child(Entity::new("x", 2));
    assert_eq!(e.find_component("x"), Ok(&mut Part::Data(1)));
    assert_eq!(e.find_child_by_name("x").unwrap().kind, 1);
}

#[test]
fn reorder_children_sorts_stably_at_every_level() {
    let mut root: Entity<Part> = Entity::new("root", 0);
    root.add_component(image("a", 2, 0, 0));
    root.add_component(image("b", 0, 0, 0));
    let mut inner: Entity<Part> = Entity::new("inner", 0);
    inner.zindex = 1;
    inner.add_component(image("i1", 5, 0, 0));
    inner.add_component(image("i2", -5, 0, 0));
    root.add_child(inner);
    root.add_component(image("c", 0, 0, 0));
    root.add_component(image("d", 2, 0, 0));
    root.add_component(image("e", -1, 0, 0));
    root.reorder_children();
    assert_eq!(child_names(&root), vec!["e", "b", "c", "inner", "a", "d"]);
    let inner = root.find_child_by_name("inner").unwrap();
    assert_eq!(child_names(inner), vec!["i2", "i1"]);
    let zs: Vec<i32> = (0..root.child_count()).map(|i| root.child(i).z_index()).collect();
    assert_eq!(zs, vec![-1, 0, 0, 1, 2, 2]);
}

#[test]
fn reorder_children_on_sorted_list_keeps_it() {
    let mut root: Entity<Part> = Entity::new("root", 0);
    root.add_component(image("a", 0, 0, 0));
    root.add_component(image("b", 0, 0, 0));
    root.add_component(image("c", 1, 0, 0));
    root.reorder_children();
    root.reorder_children();
    assert_eq!(child_names(&root), vec!["a", "b", "c"]);
}

#[test]
fn offset_accumulates_down_the_tree() {
    let mut root: Entity<Part> = Entity::new("root", 0);
    root.add_component(Component::offset(10, 5));
    let mut child: Entity<Part> = Entity::new("child", 0);
    child.add_component(Component::offset(-3, 0));
    let mut grandchild: Entity<Part> = Entity::new("grandchild", 0);
    grandchild.add_component(image("img", 0, 0, 0));
    child.add_child(grandchild);
    root.add_child(child);
    let steps = root.render_components(Offset { x: 0, y: 0 }).unwrap();
    let draws: Vec<_> = steps
        .iter()
        .filter(|s| s.kind == StepKind::Draw && root.component_at(&s.path).unwrap().name == "img")
        .collect();
    assert_eq!(draws.len(), 1);
    assert_eq!(draws[0].offset, Offset { x: 7, y: 5 });
    assert_eq!(draws[0].path, vec![1, 1, 0]);
}

#[test]
fn end_to_end_render_positions() {
    let mut root: Entity<Part> = Entity::new("root", 0);
    let mut container: Entity<Part> = Entity::new("container", 0);
    container.add_component(Component::offset(100, 0));
    container.add_component(image("leaf", 0, 50, 50));
    let mut leaf_holder: Entity<Part> = Entity::new("holder", 0);
    leaf_holder.add_component(image("deep", 0, 50, 50));
    container.add_child(leaf_holder);
    root.add_child(container);
    root.reorder_children();
    let steps = root.render_components(Offset { x: 0, y: 0 }).unwrap();
    let mut seen = 0;
    for s in &steps {
        if s.kind != StepKind::Draw {
            continue;
        }
        let c = root.component_at(&s.path).unwrap();
        match &c.body {
            ComponentBody::Custom(Part::Image { x, y }) => {
                assert_eq!(s.offset, Offset { x: 100, y: 0 });
                assert_eq!((*x, *y), (50, 50));
                assert_eq!((x + s.offset.x, y + s.offset.y), (150, 50));
                seen += 1;
            }
            ComponentBody::Offset(o) => assert_eq!(*o, Offset { x: 100, y: 0 }),
            ComponentBody::Custom(Part::Data(_)) => panic!("no data here"),
        }
    }
    assert_eq!(seen, 2);
}

#[test]
fn render_steps_follow_child_order() {
    let mut root: Entity<Part> = Entity::new("root", 0);
    root.add_component(image("a", 0, 0, 0));
    let mut kid: Entity<Part> = Entity::new("kid", 0);
    kid.add_component(image("b", 0, 0, 0));
    root.add_child(kid);
    root.add_component(image("c", 0, 0, 0));
    let steps = root.render_components(Offset { x: 1, y: 2 }).unwrap();
    let got: Vec<(StepKind, Vec<usize>)> = steps.iter().map(|s| (s.kind, s.path.clone())).collect();
    assert_eq!(
        got,
        vec![
            (StepKind::PreRender, vec![]),
            (StepKind::Draw, vec![0]),
            (StepKind::PreRender, vec![1]),
            (StepKind::Draw, vec![1, 0]),
            (StepKind::Draw, vec![2]),
        ]
    );
    assert!(steps.iter().all(|s| s.offset == Offset { x: 1, y: 2 }));
}

#[test]
fn render_fails_when_offsets_overflow() {
    let mut root: Entity<Part> = Entity::new("root", 0);
    root.add_component(Component::offset(i32::MAX, 0));
    assert!(root.render_components(Offset { x: 1, y: 0 }).is_none());
    assert!(root.render_components(Offset { x: 0, y: 0 }).is_some());
}

#[test]
fn inactive_entities_skip_update_and_events_but_still_render() {
    let mut root: Entity<Part> = Entity::new("root", 0);
    let mut sleeping: Entity<Part> = Entity::new("sleeping", 0);
    sleeping.active = false;
    sleeping.add_component(Component::new("data", 0, Part::Data(0)));
    sleeping.add_component(image("img", 0, 0, 0));
    sleeping.add_child(Entity::new("below_sleeping", 0));
    let mut hidden: Entity<Part> = Entity::new("hidden", 0);
    hidden.visible = false;
    hidden.add_component(Component::new("data", 0, Part::Data(0)));
    hidden.add_component(image("img", 0, 0, 0));
    root.add_child(sleeping);
    root.add_child(hidden);

    let mut rec = Recorder::default();
    root.update(&mut rec, 16_000);
    root.handle_event(&mut rec, &Event::WindowUpdated(10, 10));
    assert_eq!(rec.updated, vec!["root", "hidden"]);
    assert_eq!(rec.events, vec!["root", "hidden"]);
    assert_eq!(root.find_child_by_name("sleeping").unwrap().find_component("data"), Ok(&mut Part::Data(0)));
    assert_eq!(root.find_child_by_name("hidden").unwrap().find_component("data"), Ok(&mut Part::Data(1)));

    let steps = root.render_components(Offset { x: 0, y: 0 }).unwrap();
    let drawn: Vec<Vec<usize>> =
        steps.iter().filter(|s| s.kind == StepKind::Draw).map(|s| s.path.clone()).collect();
    assert_eq!(drawn, vec![vec![0, 0], vec![0, 1]]);
    let pre: Vec<Vec<usize>> =
        steps.iter().filter(|s| s.kind == StepKind::PreRender).map(|s| s.path.clone()).collect();
    assert_eq!(pre, vec![vec![], vec![0], vec![0, 2]]);
}

#[test]
fn inactive_root_is_left_alone() {
    let mut root: Entity<Part> = Entity::new("root", 0);
    root.active = false;
    root.add_child(Entity::new("kid", 0));
    let mut rec = Recorder::default();
    root.update(&mut rec, 1);
    root.handle_event(&mut rec, &Event::WindowUpdated(1, 1));
    assert!(rec.updated.is_empty());
    assert!(rec.events.is_empty());
}

#[test]
fn events_visit_entities_depth_first_in_order() {
    let mut root: Entity<Part> = Entity::new("root", 0);
    let mut a: Entity<Part> = Entity::new("a", 0);
    a.add_child(Entity::new("a1", 0));
    root.add_child(a);
    root.add_component(image("img", 0, 0, 0));
    root.add_child(Entity::new("b", 0));
    let mut rec = Recorder::default();
    root.handle_event(&mut rec, &Event::WindowUpdated(1, 1));
    assert_eq!(rec.events, vec!["root", "a", "a1", "b"]);
    let mut none = NoFns;
    root.update::<Event, NoFns>(&mut none, 5);
    assert_eq!(root.child_count(), 3);
}

#[test]
fn prerender_steps_run_through_entity_paths() {
    let mut root: Entity<Part> = Entity::new("root", 0);
    let mut a: Entity<Part> = Entity::new("a", 0);
    a.add_component(Component::offset(4, 4));
    root.add_child(a);
    let steps = root.render_components(Offset { x: 1, y: 1 }).unwrap();
    let mut rec = Recorder::default();
    for s in &steps {
        if s.kind == StepKind::PreRender {
            let e = root.entity_at_mut(&s.path).unwrap();
            rec.prerender(e, s.offset);
        }
    }
    assert_eq!(
        rec.prerendered,
        vec![("root".to_string(), Offset { x: 1, y: 1 }), ("a".to_string(), Offset { x: 5, y: 5 })]
    );
    assert!(root.entity_at_mut(&vec![3]).is_none());
    assert!(root.component_at(&vec![]).is_none());
    assert_eq!(root.own_offset(), None);
}

#[test]
fn default_entity_is_empty_active_and_visible() {
    let e: Entity<Part> = Entity::default();
    assert_eq!(e.name, "");
    assert!(e.active && e.visible);
    assert_eq!(e.zindex, 0);
    assert_eq!(e.child_count(), 0);
}

#[test]
fn frame_runs_events_update_reorder_then_render() {
    let mut root: Entity<Part> = Entity::new("root", 0);
    root.add_component(image("late", 5, 0, 0));
    root.add_component(image("early", -5, 0, 0));
    let mut kid: Entity<Part> = Entity::new("kid", 0);
    kid.add_component(Component::new("data", 0, Part::Data(0)));
    root.add_child(kid);
    let mut rec = Recorder::default();
    let events = vec![Event::WindowUpdated(1, 1), Event::WindowUpdated(2, 2)];
    let steps = run_frame(&mut root, &mut rec, &events, 10).unwrap();
    assert_eq!(rec.events, vec!["root", "kid", "root", "kid"]);
    assert_eq!(rec.updated, vec!["root", "kid"]);
    assert_eq!(child_names(&root), vec!["early", "kid", "late"]);
    let first_draw = steps.iter().find(|s| s.kind == StepKind::Draw).unwrap();
    assert_eq!(root.component_at(&first_draw.path).unwrap().name, "early");
    assert_eq!(root.find_child_by_name("kid").unwrap().find_component("data"), Ok(&mut Part::Data(1)));
}

#[test]
fn offset_is_found_by_its_reserved_name() {
    let mut e: Entity<Part> = Entity::new("e", 0);
    let mut renamed = Component::offset(3, 3);
    renamed.name = "foo".to_string();
    e.add_component(renamed);
    e.add_component(image("img", 0, 0, 0));
    let steps = e.render_components(Offset { x: 0, y: 0 }).unwrap();
    assert!(steps.iter().all(|s| s.offset == Offset { x: 0, y: 0 }));
    assert_eq!(e.own_offset(), None);

    let mut shadowed: Entity<Part> = Entity::new("s", 0);
    shadowed.add_component(Component::new(OFFSET_NAME, 0, Part::Data(1)));
    shadowed.add_component(Component::offset(5, 5));
    assert_eq!(shadowed.own_offset(), None);
    let steps = shadowed.render_components(Offset { x: 1, y: 1 }).unwrap();
    assert!(steps.iter().all(|s| s.offset == Offset { x: 1, y: 1 }));

    let mut named: Entity<Part> = Entity::new("n", 0);
    named.add_component(image("img", 0, 0, 0));
    named.add_component(Component::offset(5, -2));
    assert_eq!(named.own_offset(), Some(Offset { x: 5, y: -2 }));
}
