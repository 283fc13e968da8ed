//! The board stackup: the loaded layer files, what each one is, and
//! which of them feed the milling pipeline.
use vstd::prelude::*;
pub use crate::text::{component_facts, names_file};
use crate::text::file_name_of;

verus! {

broadcast use vstd::string::group_string_axioms;

/// What a layer file describes.
#[derive(Debug, Clone, Copy, PartialEq, Eq, Structural)]
pub enum LayerCategory {
    Copper,
    Soldermask,
    Silkscreen,
    Solderpaste,
    Outline,
    Drill,
    Drawing,
    Unknown,
}

/// Short display label of a category.
pub open spec fn category_label(c: LayerCategory) -> Seq<char> {
    match c {
        LayerCategory::Copper => "Copper"@,
        LayerCategory::Soldermask => "Mask"@,
        LayerCategory::Silkscreen => "Silk"@,
        LayerCategory::Solderpaste => "Paste"@,
        LayerCategory::Outline => "Outline"@,
        LayerCategory::Drill => "Drill"@,
        LayerCategory::Drawing => "Drawing"@,
        LayerCategory::Unknown => "?"@,
    }
}

/// Every category, in declaration order.
pub open spec fn all_categories() -> Seq<LayerCategory> {
    seq![
        LayerCategory::Copper,
        LayerCategory::Soldermask,
        LayerCategory::Silkscreen,
        LayerCategory::Solderpaste,
        LayerCategory::Outline,
        LayerCategory::Drill,
        LayerCategory::Drawing,
        LayerCategory::Unknown,
    ]
}

impl LayerCategory {
    pub fn label(&self) -> (r: &'static str)
        ensures
            r@ == category_label(*self),
    {
        match self {
            LayerCategory::Copper => "Copper",
            LayerCategory::Soldermask => "Mask",
            LayerCategory::Silkscreen => "Silk",
            LayerCategory::Solderpaste => "Paste",
            LayerCategory::Outline => "Outline",
            LayerCategory::Drill => "Drill",
            LayerCategory::Drawing => "Drawing",
            LayerCategory::Unknown => "?",
        }
    }

    pub fn variants() -> (r: Vec<LayerCategory>)
        ensures
            r@ == all_categories(),
    {
        let r = vec![
            LayerCategory::Copper,
            LayerCategory::Soldermask,
            LayerCategory::Silkscreen,
            LayerCategory::Solderpaste,
            LayerCategory::Outline,
            LayerCategory::Drill,
            LayerCategory::Drawing,
            LayerCategory::Unknown,
        ];
        assert(r@ =~= all_categories());
        r
    }
}

/// Which side of the board a layer belongs to.
#[derive(Debug, Clone, Copy, PartialEq, Eq, Structural)]
pub enum Side {
    Top,
    Bottom,
    Inner(u8),
    All,
}

/// Short display label of a side.
pub open spec fn side_label(s: Side) -> Seq<char> {
    match s {
        Side::Top => "Top"@,
        Side::Bottom => "Bot"@,
        Side::Inner(_) => "In"@,
        Side::All => "All"@,
    }
}

/// The sides offered for selection, in order.
pub open spec fn all_sides() -> Seq<Side> {
    seq![Side::Top, Side::Bottom, Side::Inner(0), Side::All]
}

impl Side {
    pub fn label(&self) -> (r: &'static str)
        ensures
            r@ == side_label(*self),
    {
        match self {
            Side::Top => "Top",
            Side::Bottom => "Bot",
            Side::Inner(_) => "In",
            Side::All => "All",
        }
    }

    pub fn variants() -> (r: Vec<Side>)
        ensures
            r@ == all_sides(),
    {
        let r = vec![Side::Top, Side::Bottom, Side::Inner(0), Side::All];
        assert(r@ =~= all_sides());
        r
    }
}

/// One loaded layer file: where it is, what was detected, and what the
/// user chose instead.
#[derive(Debug, Clone)]
pub struct LayerFile {
    pub path: String,
    pub auto_category: LayerCategory,
    pub auto_side: Side,
    pub user_category: Option<LayerCategory>,
    pub user_side: Option<Side>,
    pub user_label: Option<String>,
    /// Left out of milling by the user, though still loaded.
    pub excluded: bool,
}

/// The category that counts for a layer: the user's choice if there is
/// one, else the detected one.
pub open spec fn effective_category_of(l: LayerFile) -> LayerCategory {
    match l.user_category {
        Some(c) => c,
        None => l.auto_category,
    }
}

/// The side that counts for a layer: the user's choice if there is one,
/// else the detected one.
pub open spec fn effective_side_of(l: LayerFile) -> Side {
    match l.user_side {
        Some(s) => s,
        None => l.auto_side,
    }
}

/// A layer is resolved when its category is known.
pub open spec fn is_resolved_layer(l: LayerFile) -> bool {
    effective_category_of(l) != LayerCategory::Unknown
}

/// A layer is milled when it is resolved and not excluded.
pub open spec fn is_milled(l: LayerFile) -> bool {
    is_resolved_layer(l) && !l.excluded
}

impl LayerFile {
    pub fn new(path: String, category: LayerCategory, side: Side) -> (r: Self)
        ensures
            r.path == path,
            r.auto_category == category,
            r.auto_side == side,
            r.user_category is None,
            r.user_side is None,
            r.user_label is None,
            !r.excluded,
    {
        LayerFile {
            path,
            auto_category: category,
            auto_side: side,
            user_category: None,
            user_side: None,
            user_label: None,
            excluded: false,
        }
    }

    pub fn effective_category(&self) -> (r: LayerCategory)
        ensures
            r == effective_category_of(*self),
    {
        match self.user_category {
            Some(c) => c,
            None => self.auto_category,
        }
    }

    pub fn effective_side(&self) -> (r: Side)
        ensures
            r == effective_side_of(*self),
    {
        match self.user_side {
            Some(s) => s,
            None => self.auto_side,
        }
    }

    pub fn is_resolved(&self) -> (r: bool)
        ensures
            r == is_resolved_layer(*self),
    {
        self.effective_category() != LayerCategory::Unknown
    }

    /// The file name of the layer's path, or the empty string when the
    /// path has none (the root, or a path ending in `..`). For a portable
    /// path it is its final name (see `names_file`).
    pub fn filename(&self) -> (r: String)
        ensures
            names_file(self.path@, r@),
    {
        match file_name_of(self.path.as_str()) {
            Some(n) => n,
            None => String::new(),
        }
    }
}

/// The loaded layers, in the order they were added.
#[derive(Debug, Clone)]
pub struct Stackup {
    pub layers: Vec<LayerFile>,
}

/// The paths of the milled layers whose effective category is `cat`,
/// in stackup order.
pub open spec fn paths_in(layers: Seq<LayerFile>, cat: LayerCategory) -> Seq<String>
    decreases layers.len(),
{
    if layers.len() == 0 {
        Seq::empty()
    } else {
        let rest = paths_in(layers.drop_last(), cat);
        let l = layers.last();
        if is_milled(l) && effective_category_of(l) == cat {
            rest.push(l.path)
        } else {
            rest
        }
    }
}

impl Stackup {
    pub fn new() -> (r: Self)
        ensures
            r.layers@.len() == 0,
    {
        Stackup { layers: Vec::new() }
    }

    /// The inputs of the milling pipeline: the paths of the copper, the
    /// outline and the drill layers, each list in stackup order.
    /// Unresolved and excluded layers and other categories are left out.
    pub fn milling_paths(&self) -> (r: (Vec<String>, Vec<String>, Vec<String>))
        ensures
            r.0@ == paths_in(self.layers@, LayerCategory::Copper),
            r.1@ == paths_in(self.layers@, LayerCategory::Outline),
            r.2@ == paths_in(self.layers@, LayerCategory::Drill),
    {
        let mut copper: Vec<String> = Vec::new();
        let mut outline: Vec<String> = Vec::new();
        let mut drill: Vec<String> = Vec::new();
        let mut i: usize = 0;
        while i < self.layers.len()
            invariant
                i <= self.layers@.len(),
                copper@ == paths_in(self.layers@.take(i as int), LayerCategory::Copper),
                outline@ == paths_in(self.layers@.take(i as int), LayerCategory::Outline),
                drill@ == paths_in(self.layers@.take(i as int), LayerCategory::Drill),
            decreases self.layers.len() - i,
        {
            let layer = &self.layers[i];
            assert(self.layers@.take(i + 1).drop_last() =~= self.layers@.take(i as int));
            assert(self.layers@.take(i + 1).last() == *layer);
            if layer.is_resolved() && !layer.excluded {
                match layer.effective_category() {
                    LayerCategory::Copper => copper.push(layer.path.clone()),
                    LayerCategory::Outline => outline.push(layer.path.clone()),
                    LayerCategory::Drill => drill.push(layer.path.clone()),
                    _ => {},
                }
            }
            i += 1;
        }
        assert(self.layers@.take(self.layers@.len() as int) =~= self.layers@);
        (copper, outline, drill)
    }
}

/// A layer goes to at most one of the milling lists: together the three
/// lists never hold more paths than the stackup has layers.
pub proof fn lemma_milling_lists_bounded(layers: Seq<LayerFile>)
    ensures
        paths_in(layers, LayerCategory::Copper).len() + paths_in(layers, LayerCategory::Outline).len()
            + paths_in(layers, LayerCategory::Drill).len() <= layers.len(),
    decreases layers.len(),
{
    if layers.len() > 0 {
        lemma_milling_lists_bounded(layers.drop_last());
    }
}

/// Adding a layer whose category is unknown, or that is excluded,
/// changes none of the milling lists.
pub proof fn lemma_unmilled_layer_ignored(layers: Seq<LayerFile>, l: LayerFile, cat: LayerCategory)
    requires
        !is_resolved_layer(l) || l.excluded,
    ensures
        paths_in(layers.push(l), cat) == paths_in(layers, cat),
{
    assert(layers.push(l).drop_last() =~= layers);
}

/// Adding a resolved layer that is not excluded appends its path to the
/// list of its own category, and to no other.
pub proof fn lemma_resolved_layer_milled(layers: Seq<LayerFile>, l: LayerFile, cat: LayerCategory)
    requires
        is_resolved_layer(l),
        !l.excluded,
    ensures
        paths_in(layers.push(l), cat) == if effective_category_of(l) == cat {
            paths_in(layers, cat).push(l.path)
        } else {
            paths_in(layers, cat)
        },
{
    assert(layers.push(l).drop_last() =~= layers);
}

/// A user override decides the effective category and side, whatever
/// was detected.
pub proof fn lemma_override_wins(l: LayerFile, c: LayerCategory, s: Side)
    ensures
        effective_category_of(LayerFile { user_category: Some(c), ..l }) == c,
        effective_side_of(LayerFile { user_side: Some(s), ..l }) == s,
        effective_category_of(LayerFile { user_category: None, ..l }) == l.auto_category,
        effective_side_of(LayerFile { user_side: None, ..l }) == l.auto_side,
{
}

} // verus!
