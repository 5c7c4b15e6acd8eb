use pic_core::document::hierarchy::{
    check_hierarchy, check_render_memory, render_scratch, validate_hierarchy, LayerKind, LayerLinks,
    SCRATCH_FUEL,
};
use pic_core::document::stack::{move_item, plan_remove, plan_reorder, position};
use pic_core::document::targets::{resolve_target, selected_child, RenderTarget};
use pic_core::document::TargetId;
use pic_core::limits::ResourceLimits;
use pic_core::ErrorCode;

fn id(text: &str) -> TargetId {
    TargetId(text.into())
}

fn layer(name: &str, kind: LayerKind, parent: Option<&str>, clip: Option<&str>) -> LayerLinks {
    LayerLinks {
        id: id(name),
        kind,
        parent: parent.map(id),
        clip: clip.map(id),
        mapping_ok: true,
        visible: true,
        width: 10,
        height: 10,
        has_mask: false,
    }
}

fn code(layers: &Vec<LayerLinks>) -> Option<ErrorCode> {
    check_hierarchy(layers).err().map(|e| e.code)
}

#[test]
fn well_formed_groups_and_clips_pass() {
    let layers = vec![
        layer("base", LayerKind::Raster, None, None),
        layer("group", LayerKind::Group, None, None),
        layer("inner", LayerKind::Raster, Some("group"), None),
        layer("shade", LayerKind::Raster, Some("group"), Some("inner")),
        layer("title", LayerKind::Text, None, Some("group")),
    ];
    assert_eq!(code(&layers), None);
}

#[test]
fn references_must_exist_and_parents_must_be_groups() {
    let missing_parent = vec![layer("a", LayerKind::Raster, Some("nowhere"), None)];
    assert_eq!(code(&missing_parent), Some(ErrorCode::InvalidTarget));
    let e = check_hierarchy(&missing_parent).unwrap_err();
    assert_eq!(e.message, "dependency 'nowhere' does not exist");
    let raster_parent = vec![
        layer("a", LayerKind::Raster, None, None),
        layer("b", LayerKind::Raster, Some("a"), None),
    ];
    assert_eq!(code(&raster_parent), Some(ErrorCode::InvalidHierarchy));
    let missing_base = vec![layer("a", LayerKind::Raster, None, Some("gone"))];
    assert_eq!(code(&missing_base), Some(ErrorCode::InvalidTarget));
}

#[test]
fn dependency_cycles_are_reported() {
    let self_parent = vec![layer("g", LayerKind::Group, Some("g"), None)];
    assert_eq!(code(&self_parent), Some(ErrorCode::DependencyCycle));
    let mutual = vec![
        layer("g", LayerKind::Group, Some("h"), None),
        layer("h", LayerKind::Group, Some("g"), None),
    ];
    assert_eq!(code(&mutual), Some(ErrorCode::DependencyCycle));
    let clip_into_parent = vec![
        layer("g", LayerKind::Group, None, None),
        layer("child", LayerKind::Raster, Some("g"), Some("g")),
    ];
    assert_eq!(code(&clip_into_parent), Some(ErrorCode::DependencyCycle));
    let clip_self = vec![layer("a", LayerKind::Raster, None, Some("a"))];
    assert_eq!(code(&clip_self), Some(ErrorCode::DependencyCycle));
}

#[test]
fn nesting_is_limited_to_thirty_two_groups() {
    let mut layers = vec![layer("g0", LayerKind::Group, None, None)];
    for n in 1..=32 {
        let name = format!("g{n}");
        let parent = format!("g{}", n - 1);
        layers.push(layer(&name, LayerKind::Group, Some(&parent), None));
    }
    assert_eq!(code(&layers), None);
    layers.push(layer("leaf", LayerKind::Raster, Some("g32"), None));
    assert_eq!(code(&layers), Some(ErrorCode::ResourceLimit));
}

#[test]
fn clip_bases_are_lower_siblings_that_carry_alpha() {
    let above = vec![
        layer("a", LayerKind::Raster, None, Some("b")),
        layer("b", LayerKind::Raster, None, None),
    ];
    assert_eq!(code(&above), Some(ErrorCode::InvalidHierarchy));
    let other_scope = vec![
        layer("g", LayerKind::Group, None, None),
        layer("inside", LayerKind::Raster, Some("g"), None),
        layer("outside", LayerKind::Raster, None, Some("inside")),
    ];
    assert_eq!(code(&other_scope), Some(ErrorCode::InvalidHierarchy));
    let adjustment = vec![
        layer("adj", LayerKind::Adjustment, None, None),
        layer("a", LayerKind::Raster, None, Some("adj")),
    ];
    assert_eq!(code(&adjustment), Some(ErrorCode::InvalidHierarchy));
    let mut unreliable = vec![layer("a", LayerKind::Raster, None, None)];
    unreliable[0].mapping_ok = false;
    assert_eq!(code(&unreliable), Some(ErrorCode::InvalidHierarchy));
}

#[test]
fn render_scratch_counts_planes_bases_and_groups() {
    let flat = vec![layer("a", LayerKind::Raster, None, None), layer("b", LayerKind::Raster, None, None)];
    assert_eq!(render_scratch(&flat, None, 10, 10, SCRATCH_FUEL), 100 * 48);
    let clipped = vec![
        layer("a", LayerKind::Raster, None, None),
        layer("b", LayerKind::Raster, None, Some("a")),
        layer("c", LayerKind::Raster, None, Some("a")),
        layer("adj", LayerKind::Adjustment, None, None),
    ];
    assert_eq!(render_scratch(&clipped, None, 10, 10, SCRATCH_FUEL), 100 * 64 + 100 * 4);
    let mut group = layer("g", LayerKind::Group, None, None);
    group.width = 4;
    group.height = 5;
    let grouped = vec![group, layer("x", LayerKind::Raster, Some("g"), None)];
    let inner = 20 * 48;
    let recursive = 100 * 16 + inner;
    let composite = 100 * 48 + 20 * 16;
    assert_eq!(
        render_scratch(&grouped, None, 10, 10, SCRATCH_FUEL),
        [100 * 48, recursive, composite].into_iter().max().unwrap() as u64
    );
    let limits = ResourceLimits { max_buffer_bytes: 100 * 48 + 1000, ..ResourceLimits::default() };
    assert!(check_render_memory(&flat, true, 10, 10, 1000, &limits).is_ok());
    assert_eq!(check_render_memory(&flat, true, 10, 10, 1001, &limits).unwrap_err().code, ErrorCode::ResourceLimit);
    assert!(check_render_memory(&flat, false, 10, 10, 1001, &limits).is_ok());
    assert_eq!(validate_hierarchy(&flat, true, 10, 10, 1001, &limits).unwrap_err().code, ErrorCode::ResourceLimit);
    assert!(validate_hierarchy(&flat, true, 10, 10, 0, &limits).is_ok());
}

#[test]
fn reorders_move_a_layer_just_below_a_sibling() {
    let layers = vec![
        layer("a", LayerKind::Raster, None, None),
        layer("b", LayerKind::Raster, None, None),
        layer("c", LayerKind::Raster, None, None),
        layer("d", LayerKind::Raster, None, None),
    ];
    let (from, to) = plan_reorder(&layers, &id("d"), Some(&id("b"))).unwrap();
    let mut names = vec!["a", "b", "c", "d"];
    move_item(&mut names, from, to);
    assert_eq!(names, ["a", "d", "b", "c"]);
    let (from, to) = plan_reorder(&layers, &id("a"), None).unwrap();
    let mut names = vec!["a", "b", "c", "d"];
    move_item(&mut names, from, to);
    assert_eq!(names, ["b", "c", "d", "a"]);
    let (from, to) = plan_reorder(&layers, &id("a"), Some(&id("d"))).unwrap();
    let mut names = vec!["a", "b", "c", "d"];
    move_item(&mut names, from, to);
    assert_eq!(names, ["b", "c", "a", "d"]);
    assert_eq!(plan_reorder(&layers, &id("a"), Some(&id("a"))).unwrap_err().code, ErrorCode::InvalidTarget);
    assert_eq!(plan_reorder(&layers, &id("z"), None).unwrap_err().code, ErrorCode::InvalidTarget);
    assert_eq!(plan_reorder(&layers, &id("a"), Some(&id("z"))).unwrap_err().code, ErrorCode::InvalidTarget);
    let nested = vec![
        layer("g", LayerKind::Group, None, None),
        layer("x", LayerKind::Raster, Some("g"), None),
        layer("y", LayerKind::Raster, None, None),
    ];
    assert_eq!(plan_reorder(&nested, &id("y"), Some(&id("x"))).unwrap_err().code, ErrorCode::InvalidHierarchy);
    assert_eq!(position(&nested, &id("y")), Some(2));
}

#[test]
fn removal_requires_no_children_or_clipped_dependents() {
    let layers = vec![
        layer("g", LayerKind::Group, None, None),
        layer("x", LayerKind::Raster, Some("g"), None),
        layer("y", LayerKind::Raster, Some("g"), Some("x")),
        layer("z", LayerKind::Raster, None, None),
    ];
    assert_eq!(plan_remove(&layers, &id("g")).unwrap_err().code, ErrorCode::InvalidHierarchy);
    assert_eq!(plan_remove(&layers, &id("x")).unwrap_err().code, ErrorCode::InvalidHierarchy);
    assert_eq!(plan_remove(&layers, &id("y")).unwrap(), 2);
    assert_eq!(plan_remove(&layers, &id("z")).unwrap(), 3);
    assert_eq!(plan_remove(&layers, &id("w")).unwrap_err().code, ErrorCode::InvalidTarget);
}

#[test]
fn targets_name_the_canvas_a_layer_or_a_layer_mask() {
    let mut masked = layer("m", LayerKind::Raster, None, None);
    masked.has_mask = true;
    let layers = vec![layer("base", LayerKind::Raster, None, None), layer("x", LayerKind::Raster, None, None), masked];
    assert_eq!(resolve_target(&layers, &TargetId::canvas()).unwrap(), RenderTarget::Canvas);
    assert_eq!(resolve_target(&layers, &id("x")).unwrap(), RenderTarget::Layer(1));
    assert_eq!(resolve_target(&layers, &id("mask:m")).unwrap(), RenderTarget::Mask(2));
    for missing in ["mask:x", "mask:zz", "zz", "mask:canvas", "mask:"] {
        assert_eq!(resolve_target(&layers, &id(missing)).unwrap_err().code, ErrorCode::InvalidTarget, "{missing}");
    }
}

#[test]
fn the_selected_child_of_a_scope_leads_down_to_the_chosen_layer() {
    let layers = vec![
        layer("base", LayerKind::Raster, None, None),
        layer("g", LayerKind::Group, None, None),
        layer("inner", LayerKind::Group, Some("g"), None),
        layer("x", LayerKind::Raster, Some("inner"), None),
        layer("y", LayerKind::Raster, Some("g"), None),
    ];
    assert_eq!(code(&layers), None);
    assert_eq!(selected_child(&layers, None, Some(&id("x"))).unwrap(), Some(1));
    assert_eq!(selected_child(&layers, Some(&id("g")), Some(&id("x"))).unwrap(), Some(2));
    assert_eq!(selected_child(&layers, Some(&id("inner")), Some(&id("x"))).unwrap(), Some(3));
    assert_eq!(selected_child(&layers, Some(&id("g")), Some(&id("g"))).unwrap_err().code, ErrorCode::InvalidHierarchy);
    assert_eq!(selected_child(&layers, Some(&id("y")), Some(&id("x"))).unwrap_err().code, ErrorCode::InvalidHierarchy);
    assert_eq!(selected_child(&layers, None, None).unwrap(), None);
    assert_eq!(selected_child(&layers, None, Some(&id("zz"))).unwrap_err().code, ErrorCode::InvalidTarget);
}
