use obs_pipeline::scene::{ScaleMode, Scene, SceneItem, SourceId, Transform};

fn item(id: u32, z: i32) -> SceneItem {
    SceneItem {
        source_id: SourceId(id),
        transform: Transform::fullscreen(10, 10),
        visible: true,
        z_order: z,
    }
}

fn ids(scene: &Scene) -> Vec<u32> {
    scene.items().iter().map(|i| i.source_id.0).collect()
}

#[test]
fn new_scene_is_empty() {
    let s = Scene::new("Main", 1280, 720);
    assert_eq!(s.name, "Main");
    assert_eq!(s.canvas_width, 1280);
    assert_eq!(s.canvas_height, 720);
    assert_eq!(s.canvas_width(), 1280);
    assert_eq!(s.canvas_height(), 720);
    assert!(s.items().is_empty());
}

#[test]
fn add_item_keeps_z_order() {
    let mut s = Scene::new("s", 10, 10);
    s.add_item(item(1, 5));
    s.add_item(item(2, -3));
    s.add_item(item(3, 7));
    s.add_item(item(4, 0));
    assert_eq!(ids(&s), vec![2, 4, 1, 3]);
}

#[test]
fn add_item_is_stable_for_equal_z() {
    let mut s = Scene::new("s", 10, 10);
    s.add_item(item(1, 1));
    s.add_item(item(2, 0));
    s.add_item(item(3, 1));
    s.add_item(item(4, 0));
    assert_eq!(ids(&s), vec![2, 4, 1, 3]);
}

#[test]
fn add_item_resorts_after_items_mut() {
    let mut s = Scene::new("s", 10, 10);
    s.add_item(item(1, 1));
    s.add_item(item(2, 2));
    s.items_mut()[0].z_order = 9;
    assert_eq!(ids(&s), vec![1, 2]);
    s.add_item(item(3, 5));
    assert_eq!(ids(&s), vec![2, 3, 1]);
}

#[test]
fn fullscreen_transform() {
    let t = Transform::fullscreen(1920, 1080);
    assert_eq!(t.x, 0);
    assert_eq!(t.y, 0);
    assert_eq!(t.width, 1920);
    assert_eq!(t.height, 1080);
    assert_eq!(t.scale_mode, ScaleMode::Fit);
}
