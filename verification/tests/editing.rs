use pic_core::document::editing::{layered_canvas_step, CanvasShift, CanvasStep, LayerStack, StackEdit};
use pic_core::operation::geometry::{Anchor, CanvasParams, CropParams, RgbaColor};
use pic_core::document::hierarchy::{LayerKind, LayerLinks};
use pic_core::document::TargetId;
use pic_core::limits::ResourceLimits;
use pic_core::ErrorCode;

fn id(text: &str) -> TargetId {
    TargetId(text.into())
}

fn layer(name: &str, kind: LayerKind) -> LayerLinks {
    LayerLinks {
        id: id(name),
        kind,
        parent: None,
        clip: None,
        mapping_ok: true,
        visible: true,
        width: 8,
        height: 4,
        has_mask: false,
    }
}

fn order(stack: &LayerStack) -> Vec<String> {
    stack.layers.iter().map(|l| l.id.0.clone()).collect()
}

fn insert(stack: &mut LayerStack, name: &str, kind: LayerKind) {
    stack.apply(&TargetId::canvas(), StackEdit::Insert(layer(name, kind))).unwrap();
}

#[test]
fn a_single_raster_canvas_starts_with_the_base_layer() {
    let stack = LayerStack::from_base(640, 480);
    assert_eq!(order(&stack), ["base"]);
    assert_eq!((stack.layers[0].width, stack.layers[0].height), (640, 480));
    assert_eq!(stack.used, ["base"]);
    assert!(stack.selection.is_none());
    assert!(!stack.layered);
    assert!(stack.check_ids().is_ok());
}

#[test]
fn new_layers_go_on_top_under_fresh_ids() {
    let mut stack = LayerStack::from_base(64, 64);
    insert(&mut stack, "logo", LayerKind::Raster);
    insert(&mut stack, "frame", LayerKind::Group);
    assert_eq!(order(&stack), ["base", "logo", "frame"]);
    assert_eq!(stack.used, ["base", "logo", "frame"]);
    assert!(stack.layered);
    let again = stack.apply(&TargetId::canvas(), StackEdit::Insert(layer("logo", LayerKind::Text)));
    assert_eq!(again.unwrap_err().code, ErrorCode::InvalidTarget);
    let reserved = stack.apply(&TargetId::canvas(), StackEdit::Insert(layer("canvas", LayerKind::Raster)));
    assert_eq!(reserved.unwrap_err().code, ErrorCode::InvalidTarget);
    let bad = stack.apply(&TargetId::canvas(), StackEdit::Insert(layer("a b", LayerKind::Raster)));
    assert_eq!(bad.unwrap_err().code, ErrorCode::InvalidTarget);
    assert_eq!(order(&stack), ["base", "logo", "frame"]);
    assert!(stack.check_ids().is_ok());
}

#[test]
fn removed_layer_ids_are_never_reused() {
    let mut stack = LayerStack::from_base(64, 64);
    insert(&mut stack, "logo", LayerKind::Raster);
    stack.apply(&id("logo"), StackEdit::SelectionSet(id("logo"))).unwrap();
    stack.apply(&id("logo"), StackEdit::Remove).unwrap();
    assert_eq!(order(&stack), ["base"]);
    assert!(stack.selection.is_none());
    assert_eq!(stack.used, ["base", "logo"]);
    let reuse = stack.apply(&TargetId::canvas(), StackEdit::Insert(layer("logo", LayerKind::Raster)));
    assert_eq!(reuse.unwrap_err().code, ErrorCode::InvalidTarget);
    assert_eq!(stack.apply(&id("logo"), StackEdit::Remove).unwrap_err().code, ErrorCode::InvalidTarget);
}

#[test]
fn parenting_moves_a_layer_into_a_group_below_a_sibling() {
    let mut stack = LayerStack::from_base(64, 64);
    insert(&mut stack, "group", LayerKind::Group);
    insert(&mut stack, "a", LayerKind::Raster);
    insert(&mut stack, "b", LayerKind::Raster);
    stack.apply(&id("a"), StackEdit::Parent { parent: Some(id("group")), before: None }).unwrap();
    assert_eq!(order(&stack), ["base", "group", "b", "a"]);
    assert_eq!(stack.layers[3].parent.as_ref().map(|p| p.0.as_str()), Some("group"));
    stack.apply(&id("b"), StackEdit::Parent { parent: Some(id("group")), before: Some(id("a")) }).unwrap();
    assert_eq!(order(&stack), ["base", "group", "b", "a"]);
    assert_eq!(stack.layers[2].parent.as_ref().map(|p| p.0.as_str()), Some("group"));
    // `before` must already be a child of the destination group.
    let wrong = stack.apply(&id("a"), StackEdit::Parent { parent: None, before: Some(id("b")) });
    assert_eq!(wrong.unwrap_err().code, ErrorCode::InvalidHierarchy);
    assert_eq!(stack.layers[3].parent.as_ref().map(|p| p.0.as_str()), Some("group"));
    // A child keeps its group from being removed.
    assert_eq!(stack.apply(&id("group"), StackEdit::Remove).unwrap_err().code, ErrorCode::InvalidHierarchy);
}

#[test]
fn reorder_clip_and_visibility_edit_the_addressed_layer() {
    let mut stack = LayerStack::from_base(64, 64);
    insert(&mut stack, "a", LayerKind::Raster);
    insert(&mut stack, "b", LayerKind::Raster);
    stack.apply(&id("b"), StackEdit::Reorder(Some(id("a")))).unwrap();
    assert_eq!(order(&stack), ["base", "b", "a"]);
    stack.apply(&id("b"), StackEdit::Reorder(None)).unwrap();
    assert_eq!(order(&stack), ["base", "a", "b"]);
    assert_eq!(stack.apply(&id("b"), StackEdit::Reorder(Some(id("b")))).unwrap_err().code, ErrorCode::InvalidTarget);
    stack.apply(&id("b"), StackEdit::Clip(Some(id("a")))).unwrap();
    assert_eq!(stack.layers[2].clip.as_ref().map(|c| c.0.as_str()), Some("a"));
    assert_eq!(stack.apply(&id("a"), StackEdit::Remove).unwrap_err().code, ErrorCode::InvalidHierarchy);
    stack.apply(&id("b"), StackEdit::Clip(None)).unwrap();
    stack.apply(&id("a"), StackEdit::Visible(false)).unwrap();
    assert!(!stack.layers[1].visible);
    assert_eq!(stack.apply(&id("zz"), StackEdit::Visible(true)).unwrap_err().code, ErrorCode::InvalidTarget);
    stack.apply(&id("a"), StackEdit::Remove).unwrap();
    assert_eq!(order(&stack), ["base", "b"]);
}

#[test]
fn selections_live_in_the_canvas_or_an_existing_layer() {
    let mut stack = LayerStack::from_base(64, 64);
    stack.apply(&TargetId::canvas(), StackEdit::SelectionSet(TargetId::canvas())).unwrap();
    assert_eq!(stack.selection.as_ref().map(|s| s.0.as_str()), Some("canvas"));
    let missing = stack.apply(&TargetId::canvas(), StackEdit::SelectionSet(id("ghost")));
    assert_eq!(missing.unwrap_err().code, ErrorCode::InvalidTarget);
    assert_eq!(stack.selection.as_ref().map(|s| s.0.as_str()), Some("canvas"));
    stack.apply(&TargetId::canvas(), StackEdit::SelectionSet(id("base"))).unwrap();
    assert_eq!(stack.selection.as_ref().map(|s| s.0.as_str()), Some("base"));
    stack.apply(&TargetId::canvas(), StackEdit::SelectionClear).unwrap();
    assert!(stack.selection.is_none());
}

#[test]
fn id_checks_find_duplicates_and_unregistered_layers() {
    let mut stack = LayerStack::from_base(64, 64);
    insert(&mut stack, "a", LayerKind::Raster);
    stack.layers.push(layer("a", LayerKind::Raster));
    assert_eq!(stack.check_ids().unwrap_err().code, ErrorCode::InvalidTarget);
    stack.layers.pop();
    stack.layers.push(layer("stray", LayerKind::Raster));
    assert_eq!(stack.check_ids().unwrap_err().code, ErrorCode::InvalidTarget);
    stack.used.push("stray".into());
    assert!(stack.check_ids().is_ok());
}

#[test]
fn stable_ids_drive_order_visibility_and_removal_of_the_stack() {
    let mut stack = LayerStack::from_base(1, 1);
    insert(&mut stack, "red", LayerKind::Raster);
    insert(&mut stack, "blue", LayerKind::Raster);
    stack.apply(&id("blue"), StackEdit::Reorder(Some(id("red")))).unwrap();
    assert_eq!(order(&stack), ["base", "blue", "red"]);
    stack.apply(&id("red"), StackEdit::Visible(false)).unwrap();
    stack.apply(&id("red"), StackEdit::Remove).unwrap();
    assert_eq!(order(&stack), ["base", "blue"]);
    let refused = [
        (id("canvas"), StackEdit::Insert(layer("red", LayerKind::Raster))),
        (id("blue"), StackEdit::Reorder(Some(id("red")))),
        (id("blue"), StackEdit::Reorder(Some(id("blue")))),
        (id("missing"), StackEdit::Visible(true)),
    ];
    for (target, edit) in refused {
        assert_eq!(stack.apply(&target, edit).unwrap_err().code, ErrorCode::InvalidTarget);
    }
    assert_eq!(order(&stack), ["base", "blue"]);
}

#[test]
fn layered_canvas_steps_shift_root_layers_and_resize_the_canvas() {
    let shift = |step: CanvasStep| layered_canvas_step(&step, 10, 6);
    assert_eq!(shift(CanvasStep::Identity).unwrap(), CanvasShift { dx: 0, dy: 0, width: 10, height: 6 });
    let crop = CropParams { x: 2, y: 1, width: 5, height: 4 };
    assert_eq!(shift(CanvasStep::Crop(crop)).unwrap(), CanvasShift { dx: -2, dy: -1, width: 5, height: 4 });
    let outside = CropParams { x: 6, y: 0, width: 5, height: 4 };
    assert_eq!(shift(CanvasStep::Crop(outside)).unwrap_err().code, ErrorCode::InvalidArgument);
    let clear = RgbaColor([0, 0, 0, 0]);
    let grow = CanvasParams { width: 13, height: 9, anchor: Anchor::Center, background: clear };
    assert_eq!(shift(CanvasStep::Canvas(grow)).unwrap(), CanvasShift { dx: 1, dy: 1, width: 13, height: 9 });
    // An odd shrink centers by rounding toward negative infinity.
    let shrink = CanvasParams { width: 7, height: 3, anchor: Anchor::Center, background: clear };
    assert_eq!(shift(CanvasStep::Canvas(shrink)).unwrap(), CanvasShift { dx: -2, dy: -2, width: 7, height: 3 });
    let corner = CanvasParams { width: 12, height: 8, anchor: Anchor::BottomRight, background: clear };
    assert_eq!(shift(CanvasStep::Canvas(corner)).unwrap(), CanvasShift { dx: 2, dy: 2, width: 12, height: 8 });
    let colored = CanvasParams { width: 12, height: 8, anchor: Anchor::TopLeft, background: RgbaColor([0, 0, 0, 255]) };
    assert_eq!(shift(CanvasStep::Canvas(colored)).unwrap_err().code, ErrorCode::InvalidArgument);
    assert_eq!(shift(CanvasStep::Other).unwrap_err().code, ErrorCode::InvalidTarget);
}

#[test]
fn masks_must_match_the_layer_size() {
    let mut stack = LayerStack::from_base(64, 64);
    insert(&mut stack, "logo", LayerKind::Raster);
    let wrong = stack.apply(&id("logo"), StackEdit::MaskSet { width: 4, height: 8 });
    assert_eq!(wrong.unwrap_err().code, ErrorCode::InvalidMask);
    assert!(!stack.layers[1].has_mask);
    stack.apply(&id("logo"), StackEdit::MaskSet { width: 8, height: 4 }).unwrap();
    assert!(stack.layers[1].has_mask);
    let missing = stack.apply(&id("nope"), StackEdit::MaskSet { width: 8, height: 4 });
    assert_eq!(missing.unwrap_err().code, ErrorCode::InvalidTarget);
    stack.apply(&id("logo"), StackEdit::MaskRemove).unwrap();
    assert!(!stack.layers[1].has_mask);
}

#[test]
fn stored_bytes_count_layers_and_masks_at_sixteen_bytes_per_pixel() {
    let mut stack = LayerStack::from_base(4, 3);
    assert_eq!(stack.memory_bytes(), 192);
    insert(&mut stack, "logo", LayerKind::Raster);
    stack.apply(&id("logo"), StackEdit::MaskSet { width: 8, height: 4 }).unwrap();
    assert_eq!(stack.memory_bytes(), 192 + 2 * 32 * 16);
}

#[test]
fn validation_checks_the_canvas_ids_hierarchy_selection_and_single_raster_shape() {
    let limits = ResourceLimits::default();
    let stack = LayerStack::from_base(64, 64);
    assert!(stack.validate(64, 64, &limits).is_ok());
    // Before any layer edit, the base layer must be the whole canvas.
    assert_eq!(stack.validate(32, 32, &limits).unwrap_err().code, ErrorCode::InvalidProject);
    assert_eq!(stack.validate(0, 32, &limits).unwrap_err().code, ErrorCode::InvalidArgument);

    let mut layered = LayerStack::from_base(64, 64);
    insert(&mut layered, "group", LayerKind::Group);
    insert(&mut layered, "a", LayerKind::Raster);
    layered.apply(&id("a"), StackEdit::Parent { parent: Some(id("group")), before: None }).unwrap();
    assert!(layered.validate(64, 64, &limits).is_ok());
    // A layered canvas may differ from its layers' sizes.
    assert!(layered.validate(32, 48, &limits).is_ok());

    let mut selected = LayerStack::from_base(64, 64);
    insert(&mut selected, "a", LayerKind::Raster);
    selected.selection = Some(id("gone"));
    assert_eq!(selected.validate(64, 64, &limits).unwrap_err().code, ErrorCode::InvalidTarget);

    let mut duplicated = LayerStack::from_base(64, 64);
    insert(&mut duplicated, "a", LayerKind::Raster);
    duplicated.layers.push(layer("a", LayerKind::Raster));
    assert_eq!(duplicated.validate(64, 64, &limits).unwrap_err().code, ErrorCode::InvalidTarget);

    let mut orphan = LayerStack::from_base(64, 64);
    insert(&mut orphan, "a", LayerKind::Raster);
    orphan.layers[1].parent = Some(id("missing"));
    assert_eq!(orphan.validate(64, 64, &limits).unwrap_err().code, ErrorCode::InvalidTarget);
    // Only a group can be a parent.
    orphan.layers[1].parent = Some(id("base"));
    assert_eq!(orphan.validate(64, 64, &limits).unwrap_err().code, ErrorCode::InvalidHierarchy);
}

#[test]
fn validation_bounds_stored_and_render_bytes_of_layered_documents() {
    let limits = ResourceLimits { max_buffer_bytes: 10_000, ..ResourceLimits::default() };
    let mut stack = LayerStack::from_base(10, 10);
    let mut masked = layer("a", LayerKind::Raster);
    masked.width = 10;
    masked.height = 10;
    stack.apply(&TargetId::canvas(), StackEdit::Insert(masked)).unwrap();
    stack.apply(&id("a"), StackEdit::MaskSet { width: 10, height: 10 }).unwrap();
    // 1600 + 3200 stored bytes plus 3200 for rendering the canvas.
    assert_eq!(stack.memory_bytes(), 4_800);
    let mut more = layer("b", LayerKind::Raster);
    more.width = 10;
    more.height = 10;
    more.has_mask = true;
    stack.apply(&TargetId::canvas(), StackEdit::Insert(more)).unwrap();
    assert_eq!(stack.memory_bytes(), 8_000);
    assert_eq!(stack.validate(10, 10, &limits).unwrap_err().code, ErrorCode::ResourceLimit);
}
