use ui_draw::emit::{DrawCall, ElementVisuals, Layer};
use ui_draw::order::DrawUi;
use ui_draw::transform::{TransformSet, UiTransform};

fn tf(x: i64, y: i64, z: i64) -> UiTransform {
    UiTransform { x, y, width: 10, height: 20, z }
}

fn vis(id: u32, image: Option<u64>, text: Option<u64>) -> ElementVisuals {
    ElementVisuals { id, image_texture: image, text_texture: text }
}

#[test]
fn draws_follow_cache_order_image_before_text() {
    let mut ui = DrawUi::new(0);
    let mut ts = TransformSet::new();
    ts.insert(1, tf(1, 2, 9));
    ts.insert(2, tf(3, 4, 5));
    ui.maintain(&ts);

    let visuals = vec![vis(1, Some(100), Some(200)), vis(2, Some(300), None)];
    let calls = ui.emit(&ts, &visuals, true);

    let expect = vec![
        DrawCall { id: 1, x: 1, y: 2, width: 10, height: 20, texture: 100, layer: Layer::Image },
        DrawCall { id: 1, x: 1, y: 2, width: 10, height: 20, texture: 200, layer: Layer::Text },
        DrawCall { id: 2, x: 3, y: 4, width: 10, height: 20, texture: 300, layer: Layer::Image },
    ];
    assert_eq!(calls, expect);
}

#[test]
fn unresolved_mesh_aborts_the_frame() {
    let mut ui = DrawUi::new(0);
    let mut ts = TransformSet::new();
    ts.insert(1, tf(0, 0, 1));
    ui.maintain(&ts);
    let visuals = vec![vis(1, Some(100), None)];
    let calls = ui.emit(&ts, &visuals, false);
    assert!(calls.is_empty());
}

#[test]
fn element_without_visuals_contributes_nothing() {
    let mut ui = DrawUi::new(0);
    let mut ts = TransformSet::new();
    ts.insert(1, tf(0, 0, 2));
    ts.insert(2, tf(0, 0, 1));
    ui.maintain(&ts);
    let visuals = vec![vis(2, None, Some(50))];
    let calls = ui.emit(&ts, &visuals, true);
    assert_eq!(calls.len(), 1);
    assert_eq!(calls[0].id, 2);
    assert_eq!(calls[0].texture, 50);
    assert_eq!(calls[0].layer, Layer::Text);
}

#[test]
fn visuals_without_resolved_textures_are_skipped() {
    let mut ui = DrawUi::new(0);
    let mut ts = TransformSet::new();
    ts.insert(1, tf(0, 0, 1));
    ui.maintain(&ts);
    let visuals = vec![vis(1, None, None)];
    let calls = ui.emit(&ts, &visuals, true);
    assert!(calls.is_empty());
}

#[test]
fn empty_cache_emits_nothing() {
    let ui = DrawUi::new(0);
    let ts = TransformSet::new();
    let visuals: Vec<ElementVisuals> = Vec::new();
    let calls = ui.emit(&ts, &visuals, true);
    assert!(calls.is_empty());
}
