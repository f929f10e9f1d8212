use viewer_core::disposer::Disposer;
use viewer_core::event::HandlerId;
use viewer_core::renderer::{BaseRenderer, Plane};
use viewer_core::scene::{AmbientLight, DirectionalLight, Geometry, Material, Mesh};
use viewer_core::world::{BaseScene, World};
use viewer_core::world_item::{BaseWorldItem, WorldAction};
use viewer_core::xml::{XmlDocument, XML};

fn three_levels() -> Mesh {
    let grandchild = Mesh::new(Some(Geometry::new()));
    let mut child = Mesh::new(Some(Geometry::new()));
    child.children.push(grandchild);
    child.material.push(Material::new());
    let mut root = Mesh::new(Some(Geometry::new()));
    root.children.push(child);
    root
}

#[test]
fn destroy_releases_every_geometry_of_a_three_level_tree() {
    let mut disposer = Disposer::new();
    let mut root = three_levels();
    let (released, materials) = disposer.destroy(&mut root, true, true);
    assert_eq!(released.len(), 3);
    assert!(released.iter().all(|g| g.released()));
    assert_eq!(materials.len(), 1);
    assert!(materials.iter().all(|m| m.released()));
    assert!(root.children.is_empty());
    assert!(root.geometry.is_none());
}

#[test]
fn destroy_without_recursion_releases_only_the_node() {
    let mut disposer = Disposer::new();
    let mut root = three_levels();
    root.material.push(Material::new());
    let (released, materials) = disposer.destroy(&mut root, false, false);
    assert_eq!(released.len(), 1);
    assert!(materials.is_empty());
    assert!(root.children.is_empty());
    assert_eq!(root.material.len(), 1);
}

#[test]
fn destroy_tolerates_an_empty_node() {
    let mut disposer = Disposer::new();
    let mut node = Mesh::new(None);
    let (released, materials) = disposer.destroy(&mut node, true, true);
    assert!(released.is_empty());
    assert!(materials.is_empty());
}

#[test]
fn geometry_release_is_idempotent() {
    let mut disposer = Disposer::new();
    let mut g = Geometry::new();
    assert!(!g.released());
    disposer.dispose_geometry(&mut g);
    disposer.dispose_geometry(&mut g);
    assert!(g.released());
}

#[test]
fn world_item_add_and_remove_fire_world_change() {
    let mut item = BaseWorldItem::new();
    item.on_world_changed.add(&mut item.events, HandlerId(1));
    let w1 = "w1".to_string();
    let (set, added) = item.add_world(w1.clone());
    assert_eq!(set.unwrap().event, item.worlds.on_item_set.control_handle());
    let change = added.data.unwrap();
    assert_eq!(change.action, WorldAction::Added);
    assert_eq!(change.world, w1);
    assert_eq!(added.handlers, vec![HandlerId(1)]);
    assert!(item.worlds.contains_key(&w1));
    item.set_current_world(Some(w1.clone()));
    let (deleted, removed) = item.remove_world(w1.clone());
    assert!(deleted.is_some());
    let change = removed.data.unwrap();
    assert_eq!(change.action, WorldAction::Removed);
    assert_eq!(change.world, w1);
    assert!(!item.worlds.contains_key(&w1));
    assert!(item.current_world().is_none());
}

#[test]
fn removing_another_world_keeps_the_current_one() {
    let mut item = BaseWorldItem::new();
    item.add_world("a".to_string());
    item.add_world("b".to_string());
    item.set_current_world(Some("a".to_string()));
    item.remove_world("b".to_string());
    assert_eq!(item.current_world(), Some(&"a".to_string()));
}

#[test]
fn scene_dispose_tears_down_roots_and_lights() {
    let mut disposer = Disposer::new();
    let mut scene = BaseScene::new();
    scene.on_disposed.add(&mut scene.events, HandlerId(2));
    scene.scene.children.push(three_levels());
    scene.scene.children.push(Mesh::new(Some(Geometry::new())));
    scene.directional_lights.push(("sun".to_string(), DirectionalLight { target: Mesh::new(None) }));
    scene.ambient_lights.push(("fill".to_string(), AmbientLight));
    let (released, materials, d) = scene.dispose(&mut disposer);
    assert_eq!(released.len(), 4);
    assert_eq!(materials.len(), 1);
    assert_eq!(d.handlers, vec![HandlerId(2)]);
    assert!(scene.scene.children.is_empty());
    assert!(scene.directional_lights.is_empty());
    assert!(scene.ambient_lights.is_empty());
}

#[test]
fn world_dispose_is_final_and_silent_the_second_time() {
    let mut world = World::new("w".to_string());
    world.on_disposed.add(&mut world.events, HandlerId(1));
    world.on_before_update.add(&mut world.events, HandlerId(2));
    let first = world.dispose();
    assert!(world.is_disposing);
    assert_eq!(first.handlers, vec![HandlerId(1)]);
    assert!(world.dispose().handlers.is_empty());
    assert!(world.update().0.handlers.is_empty());
}

#[test]
fn world_update_fires_before_then_after() {
    let mut world = World::new("w".to_string());
    world.on_before_update.add(&mut world.events, HandlerId(1));
    world.on_after_update.add(&mut world.events, HandlerId(2));
    let (before, after) = world.update();
    assert_eq!(before.handlers, vec![HandlerId(1)]);
    assert_eq!(after.handlers, vec![HandlerId(2)]);
    world.on_camera_changed.add(&mut world.events, HandlerId(3));
    assert_eq!(world.use_default_camera().handlers, vec![HandlerId(3)]);
    assert!(!world.active_camera().has_camera_controls());
}

#[test]
fn set_plane_matches_by_normal_and_distance() {
    let mut r = BaseRenderer::new(BaseWorldItem::new());
    let p = Plane::new(0, 0, 0x3f80_0000, 0);
    let q = Plane::new(0x3f80_0000, 0, 0, 0x4000_0000);
    r.set_plane(true, p, None);
    r.set_plane(true, p, None);
    r.set_plane(true, q, Some(true));
    assert_eq!(r.clipping_planes.len(), 2);
    assert_eq!(r.renderer.clipping_planes, vec![p]);
    r.set_plane(false, p, None);
    assert_eq!(r.clipping_planes.len(), 1);
    assert!(r.clipping_planes[0].is_local);
    assert!(r.renderer.clipping_planes.is_empty());
    r.set_plane(false, q, None);
    assert!(r.clipping_planes.is_empty());
}

#[test]
fn set_plane_local_then_shared_keeps_one_plane_in_place() {
    let mut r = BaseRenderer::new(BaseWorldItem::new());
    let p = Plane::new(0, 0, 0x3f80_0000, 0);
    let q = Plane::new(0x3f80_0000, 0, 0, 0);
    r.set_plane(true, p, Some(true));
    r.set_plane(true, q, None);
    r.set_plane(true, p, Some(false));
    assert_eq!(r.clipping_planes, vec![p, q]);
    assert_eq!(r.renderer.clipping_planes, vec![p, q]);
    // +0.0 and -0.0 are different bit patterns, hence different places.
    r.set_plane(true, Plane::new(0, 0, 0x3f80_0000, 0x8000_0000), None);
    assert_eq!(r.clipping_planes.len(), 3);
}

#[test]
fn handler_registered_before_add_fires_on_remove() {
    let mut item = BaseWorldItem::new();
    item.on_world_changed.add(&mut item.events, HandlerId(7));
    item.add_world("w".to_string());
    let (_, removed) = item.remove_world("w".to_string());
    assert_eq!(removed.handlers, vec![HandlerId(7)]);
}

#[test]
fn xml_round_trip_keeps_the_text() {
    let doc = XML::parser().parse("<a b=\"1\"/>").ok().unwrap();
    assert_eq!(doc.raw, "<a b=\"1\"/>");
    let text = XML::builder().build(&XmlDocument { raw: "<x/>".to_string() }).ok().unwrap();
    assert_eq!(text, "<x/>");
}
