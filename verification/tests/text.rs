use ui_draw::text::{normalize_text, RasterStep, UiText, UiTextRenderer, UNIT};
use ui_draw::transform::UiTransform;

fn tf(width: u32, height: u32) -> UiTransform {
    UiTransform { x: 0, y: 0, width, height, z: 0 }
}

const RED: [u32; 4] = [UNIT, 0, 0, UNIT];

#[test]
fn new_text_starts_dirty_without_texture() {
    let t = UiText::new(3, String::from("hi"), RED, 12 * UNIT);
    assert!(t.texture().is_none());
    assert_eq!(t.font(), 3);
    assert_eq!(t.text().as_str(), "hi");
    assert_eq!(t.color(), RED);
    assert_eq!(t.font_size(), 12 * UNIT);
}

#[test]
fn pass_with_resolved_font_clears_dirty_and_stores_texture() {
    let mut t = UiText::new(0, String::from("hi"), RED, UNIT);
    let r = UiTextRenderer;
    let step = r.prepare(&tf(4, 4), &mut t, true);
    assert_eq!(step, RasterStep::Text { width: 4, height: 4 });
    r.finish(&mut t, 99);
    assert_eq!(t.texture(), Some(99));
    // A clean element is skipped next frame.
    let step2 = r.prepare(&tf(4, 4), &mut t, true);
    assert_eq!(step2, RasterStep::Skip);
    assert_eq!(t.texture(), Some(99));
}

#[test]
fn unresolved_font_defers_and_stays_dirty() {
    let mut t = UiText::new(0, String::from("hi"), RED, UNIT);
    let r = UiTextRenderer;
    let step = r.prepare(&tf(4, 4), &mut t, false);
    assert_eq!(step, RasterStep::Skip);
    assert!(t.texture().is_none());
    // The font resolves a later frame; the element is still dirty and
    // is processed then.
    let step2 = r.prepare(&tf(4, 4), &mut t, true);
    assert_eq!(step2, RasterStep::Text { width: 4, height: 4 });
}

#[test]
fn mutations_set_dirty_again() {
    let r = UiTextRenderer;

    let mut t = UiText::new(0, String::from("hi"), RED, UNIT);
    r.prepare(&tf(4, 4), &mut t, true);
    t.set_color([0, 0, 0, UNIT]);
    assert_ne!(r.prepare(&tf(4, 4), &mut t, true), RasterStep::Skip);

    let mut t = UiText::new(0, String::from("hi"), RED, UNIT);
    r.prepare(&tf(4, 4), &mut t, true);
    t.set_font(5);
    assert_ne!(r.prepare(&tf(4, 4), &mut t, true), RasterStep::Skip);

    let mut t = UiText::new(0, String::from("hi"), RED, UNIT);
    r.prepare(&tf(4, 4), &mut t, true);
    t.set_font_size(2 * UNIT);
    assert_ne!(r.prepare(&tf(4, 4), &mut t, true), RasterStep::Skip);

    let mut t = UiText::new(0, String::from("hi"), RED, UNIT);
    r.prepare(&tf(4, 4), &mut t, true);
    *t.text_mut() = String::from("ho");
    assert_ne!(r.prepare(&tf(4, 4), &mut t, true), RasterStep::Skip);
}

#[test]
fn text_mut_with_identical_value_still_dirties() {
    let r = UiTextRenderer;
    let mut t = UiText::new(0, String::from("a"), RED, UNIT);
    r.prepare(&tf(4, 4), &mut t, true);
    assert_eq!(r.prepare(&tf(4, 4), &mut t, true), RasterStep::Skip);
    // Writing the same value through the mutable accessor must still
    // invalidate the render cache.
    *t.text_mut() = String::from("a");
    assert_eq!(t.text().as_str(), "a");
    assert_ne!(r.prepare(&tf(4, 4), &mut t, true), RasterStep::Skip);
}

#[test]
fn transparent_text_skips_layout_and_uploads_blank() {
    let r = UiTextRenderer;
    let mut t = UiText::new(0, String::from("hi"), [UNIT, 0, 0, 0], UNIT);
    let step = r.prepare(&tf(3, 2), &mut t, true);
    assert_eq!(step, RasterStep::Blank { width: 3, height: 2 });
    let buf = ui_draw::raster::blank_buffer(3, 2);
    assert_eq!(buf, vec![0u32; 24]);
    r.finish(&mut t, 7);
    assert_eq!(t.texture(), Some(7));
    assert_eq!(r.prepare(&tf(3, 2), &mut t, true), RasterStep::Skip);
}

#[test]
fn normalization_decomposes_text_with_combining_marks() {
    // A precomposed letter beside a combining acute: the string holds
    // a combining mark, so the whole text is decomposed.
    let s = String::from("\u{00e9}\u{0301}");
    let n = normalize_text(&s);
    assert_eq!(n, "e\u{0301}\u{0301}");
}

#[test]
fn normalization_leaves_text_without_marks_alone() {
    // Precomposed only: no combining mark anywhere, so the text stays
    // as it is even though it is not in decomposed form.
    let s = String::from("caf\u{00e9}");
    assert_eq!(normalize_text(&s), "caf\u{00e9}");
    let plain = String::from("hello");
    assert_eq!(normalize_text(&plain), "hello");
}

#[test]
fn normalization_is_idempotent() {
    let cases = [
        String::from("\u{00e9}\u{0301}"),
        String::from("e\u{0301}"),
        String::from("ascii only"),
        String::new(),
    ];
    for s in cases {
        let once = normalize_text(&s);
        let twice = normalize_text(&once);
        assert_eq!(once, twice);
    }
}

#[test]
fn pass_normalizes_stored_text() {
    let r = UiTextRenderer;
    let mut t = UiText::new(0, String::from("\u{00e9}\u{0301}"), RED, UNIT);
    r.prepare(&tf(4, 4), &mut t, true);
    assert_eq!(t.text().as_str(), "e\u{0301}\u{0301}");
}
