use easymill::stackup::{LayerCategory, LayerFile, Side, Stackup};

fn layer(path: &str, category: LayerCategory, side: Side) -> LayerFile {
    LayerFile::new(path.to_string(), category, side)
}

#[test]
fn test_effective_category_defaults_to_auto() {
    let f = layer("test.gtl", LayerCategory::Copper, Side::Top);
    assert_eq!(f.effective_category(), LayerCategory::Copper);
    assert_eq!(f.effective_side(), Side::Top);
}

#[test]
fn test_effective_category_uses_override() {
    let mut f = layer("test.gtl", LayerCategory::Copper, Side::Top);
    f.user_category = Some(LayerCategory::Outline);
    assert_eq!(f.effective_category(), LayerCategory::Outline);
}

#[test]
fn test_is_resolved_unknown_is_false() {
    let f = layer("unknown.xyz", LayerCategory::Unknown, Side::All);
    assert!(!f.is_resolved());
}

#[test]
fn test_is_resolved_known_is_true() {
    let f = layer("test.drl", LayerCategory::Drill, Side::All);
    assert!(f.is_resolved());
}

#[test]
fn test_filename_returns_file_name() {
    let f = layer("/some/dir/test-file.gtl", LayerCategory::Copper, Side::Top);
    assert_eq!(f.filename(), "test-file.gtl");
}

#[test]
fn test_filename_returns_empty_for_root() {
    let f = layer("/", LayerCategory::Copper, Side::Top);
    assert_eq!(f.filename(), "");
}

#[test]
fn filename_ignores_trailing_slashes_and_dots() {
    assert_eq!(layer("a/b.gtl/", LayerCategory::Copper, Side::Top).filename(), "b.gtl");
    assert_eq!(layer("a/b.gtl/.", LayerCategory::Copper, Side::Top).filename(), "b.gtl");
    assert_eq!(layer("a/..", LayerCategory::Copper, Side::Top).filename(), "");
    assert_eq!(layer("./b.gtl", LayerCategory::Copper, Side::Top).filename(), "b.gtl");
}

#[test]
fn test_milling_paths_filters_correctly() {
    let mut s = Stackup::new();
    s.layers.push(layer("top.gtl", LayerCategory::Copper, Side::Top));
    s.layers.push(layer("bot.gbl", LayerCategory::Copper, Side::Bottom));
    s.layers.push(layer("outline.gko", LayerCategory::Outline, Side::All));
    s.layers.push(layer("drill.drl", LayerCategory::Drill, Side::All));
    s.layers.push(layer("mask.gts", LayerCategory::Soldermask, Side::Top));
    s.layers.push(layer("unknown.xyz", LayerCategory::Unknown, Side::All));

    let (copper, outline, drill) = s.milling_paths();
    assert_eq!(copper.len(), 2);
    assert_eq!(outline.len(), 1);
    assert_eq!(drill.len(), 1);
}

#[test]
fn test_milling_paths_excludes_unknown() {
    let mut s = Stackup::new();
    s.layers.push(layer("unknown.xyz", LayerCategory::Unknown, Side::All));
    let (copper, outline, drill) = s.milling_paths();
    assert!(copper.is_empty());
    assert!(outline.is_empty());
    assert!(drill.is_empty());
}

#[test]
fn milling_paths_keep_stackup_order() {
    let mut s = Stackup::new();
    s.layers.push(layer("b.gbl", LayerCategory::Copper, Side::Bottom));
    s.layers.push(layer("edge.gko", LayerCategory::Outline, Side::All));
    s.layers.push(layer("a.gtl", LayerCategory::Copper, Side::Top));
    let (copper, outline, drill) = s.milling_paths();
    assert_eq!(copper, vec!["b.gbl".to_string(), "a.gtl".to_string()]);
    assert_eq!(outline, vec!["edge.gko".to_string()]);
    assert!(drill.is_empty());
}

#[test]
fn override_to_unknown_removes_layer_from_milling() {
    let mut s = Stackup::new();
    let mut f = layer("top.gtl", LayerCategory::Copper, Side::Top);
    f.user_category = Some(LayerCategory::Unknown);
    s.layers.push(f);
    let (copper, outline, drill) = s.milling_paths();
    assert!(copper.is_empty() && outline.is_empty() && drill.is_empty());
}

#[test]
fn override_side_wins_over_detected_side() {
    let mut f = layer("top.gtl", LayerCategory::Copper, Side::Top);
    f.user_side = Some(Side::Inner(2));
    assert_eq!(f.effective_side(), Side::Inner(2));
    assert_eq!(f.effective_category(), LayerCategory::Copper);
}

#[test]
fn category_and_side_labels() {
    assert_eq!(LayerCategory::Copper.label(), "Copper");
    assert_eq!(LayerCategory::Soldermask.label(), "Mask");
    assert_eq!(LayerCategory::Unknown.label(), "?");
    assert_eq!(Side::Top.label(), "Top");
    assert_eq!(Side::Bottom.label(), "Bot");
    assert_eq!(Side::Inner(3).label(), "In");
    assert_eq!(Side::All.label(), "All");
}

#[test]
fn variants_list_every_value_once() {
    let cats = LayerCategory::variants();
    assert_eq!(cats.len(), 8);
    assert_eq!(cats[0], LayerCategory::Copper);
    assert_eq!(cats[7], LayerCategory::Unknown);
    let sides = Side::variants();
    assert_eq!(sides, vec![Side::Top, Side::Bottom, Side::Inner(0), Side::All]);
}

#[test]
fn excluded_layers_are_not_milled() {
    let mut s = Stackup::new();
    let mut f = layer("top.gtl", LayerCategory::Copper, Side::Top);
    assert!(!f.excluded);
    f.excluded = true;
    s.layers.push(f);
    s.layers.push(layer("edge.gko", LayerCategory::Outline, Side::All));
    let (copper, outline, drill) = s.milling_paths();
    assert!(copper.is_empty());
    assert_eq!(outline, vec!["edge.gko".to_string()]);
    assert!(drill.is_empty());
}
