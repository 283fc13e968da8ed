//! The decisions of the milling application: its state, the events it
//! receives (user input and finished background work) and the action it
//! asks to be carried out next. Dialogs, files, threads and floating
//! point work stay with the caller, which carries out the action and
//! reports back with an event.
use vstd::prelude::*;
use vstd::string::StringExecFns;
use crate::conversion::{layer_plans_spec, PngLayerResults, PngRenderResult};
use crate::stackup::{
    category_label, effective_category_of, effective_side_of, is_milled, is_resolved_layer, side_label,
    LayerCategory, LayerFile, Side, Stackup,
};
use crate::text::{decimal, file_name_of, names_file, push_decimal, push_two_digits, two_digits};

verus! {

broadcast use vstd::string::group_string_axioms;

/// Progress of one pipeline step.
#[derive(Debug, Clone, Copy, PartialEq, Eq, Structural)]
pub enum StepState {
    Idle,
    Ready,
    Running,
    Complete,
}

/// Which board side the G-code is for.
#[derive(Debug, Clone, Copy, PartialEq, Eq, Structural)]
pub enum GcodeSide {
    Top,
    Bottom,
}

/// What a finished G-code run reports for one side. The numbers that
/// are measured in floating point arrive already written out.
#[derive(Debug)]
pub struct GcodeSummary {
    /// How many tool paths the G-code follows.
    pub paths: u64,
    /// The cutting distance in metres, with one decimal.
    pub cut_metres: String,
    /// The estimated run time in whole seconds.
    pub estimated_secs: u64,
    /// The cutting distance as shown, in millimetres.
    pub cut_distance: String,
    /// The board size as shown, in millimetres.
    pub board_dimensions: String,
}

/// What the application knows and shows, apart from the numeric results
/// of the background work.
#[derive(Debug)]
pub struct PipelineState {
    pub stackup: Stackup,
    pub editing_layer: Option<usize>,
    pub loaded_top_png_path: Option<String>,
    pub loaded_bottom_png_path: Option<String>,
    pub loaded_inputs: Vec<String>,
    pub gerber_to_png: StepState,
    pub png_to_gcode: StepState,
    pub generated_pngs: Option<PngLayerResults>,
    pub generated_top_gcode: Option<GcodeSummary>,
    pub generated_bottom_gcode: Option<GcodeSummary>,
    pub active_gcode_side: GcodeSide,
    pub gcode_side_indicator: String,
    pub mirror_bottom: bool,
    pub mirror_top: bool,
    pub status: String,
    pub dpi_input: String,
    pub cut_z_mm_input: String,
    pub safe_z_mm_input: String,
    pub feed_rate_input: String,
    pub plunge_rate_input: String,
    pub spindle_speed_input: String,
    pub tool_diameter_mm_input: String,
    pub offset_number_input: String,
    pub offset_stepover_input: String,
    pub estimated_time: String,
    pub cut_distance: String,
    pub board_dimensions: String,
    pub rasterize_stale: bool,
    pub gcode_stale: bool,
    pub expanded_step: Option<u8>,
    pub settings_groups_open: [bool; 4],
    pub mods_server_port: Option<u16>,
    pub pending_mods_open: Option<String>,
}

/// A text setting of the G-code stage.
#[derive(Debug, Clone, Copy, PartialEq, Eq, Structural)]
pub enum GcodeField {
    CutZ,
    SafeZ,
    FeedRate,
    PlungeRate,
    SpindleSpeed,
    ToolDiameter,
    OffsetNumber,
    OffsetStepover,
}

/// Something that happened: user input, or background work that ended.
#[derive(Debug)]
pub enum Event {
    SelectGerberFiles,
    /// Files chosen in the dialog, each with the category and side it
    /// was recognised as.
    GerberFilesPicked(Option<Vec<(String, LayerCategory, Side)>>),
    FileDropped(String, LayerCategory, Side),
    OverrideLayer { index: usize, category: LayerCategory, side: Side },
    LoadPng,
    LoadTopPngPicked(Option<String>),
    LoadBottomPng,
    LoadBottomPngPicked(Option<String>),
    ConvertToPng,
    ConvertToPngFinished(Result<PngLayerResults, String>),
    SaveCopperPng,
    SaveCopperBottomPng,
    SaveDrillPng,
    SaveOutlinePng,
    SaveAllPngs,
    /// The folder chosen for all pictures, and the pictures.
    SaveAllPngsFinished(Option<String>, PngLayerResults),
    /// The destination chosen for a picture, and the picture.
    SavePngPathPicked(Option<String>, String),
    /// A picture was copied to the destination, or the copy failed.
    PngCopied(String, Result<(), String>),
    GenerateGcode,
    GenerateGcodeFinished(Result<GcodeSummary, String>),
    GenerateBothGcode,
    GenerateBothGcodeFinished(Result<(GcodeSummary, GcodeSummary), String>),
    SaveGcode,
    GcodeSavePathPicked(Option<String>),
    /// The G-code was written to the path, or writing failed.
    GcodeWritten(String, Result<(), String>),
    SwitchGcodeSide(GcodeSide),
    MirrorBottomToggled(bool),
    MirrorTopToggled(bool),
    Reset,
    DpiChanged(String),
    GcodeSettingChanged(GcodeField, String),
    ClearPng,
    StepToggled(u8),
    RemoveFile { index: usize },
    /// Leave a layer out of milling, or take it back in.
    ToggleLayerExclude(usize),
    EditLayerToggle(usize),
    SetLayerCategory { index: usize, category: LayerCategory },
    SetLayerSide { index: usize, side: Side },
    ResetLayerOverride(usize),
    OpenInMods(String),
    ModsServerStarted(u16),
    SettingsGroupToggled(usize),
    ReRunRasterize,
    ReRunGcode,
    RunAll,
}

/// What the caller is asked to do next.
#[derive(Debug)]
pub enum Action {
    Nothing,
    PickGerberFiles,
    PickTopPng,
    PickBottomPng,
    /// Render the layer pictures from these inputs.
    Render { copper_top: Vec<String>, copper_bottom: Vec<String>, outline: Vec<String>, drill: Vec<String> },
    /// Ask where to save the picture `source`, proposing `file_name`.
    PickPngDestination { source: String, file_name: String, title: String },
    /// Ask for a folder to save all four pictures into.
    PickPngFolder(PngLayerResults),
    /// Copy each picture (source, file name) into the folder.
    CopyPngs { dir: String, copies: Vec<(String, String)> },
    /// Copy a picture to the destination.
    CopyPng { source: String, dest: String },
    /// Turn the picture into G-code for the active side.
    GenerateGcode { png: String },
    /// Turn both pictures into G-code.
    GenerateBothGcode { top: String, bottom: String },
    /// Ask where to save the G-code of the active side.
    PickGcodeDestination { file_name: String },
    /// Write the G-code of the side to the path.
    WriteGcode { path: String, side: GcodeSide },
    /// Start the local server that hands pictures to mods.
    StartModsServer,
    /// Open the address in a browser.
    OpenUrl(String),
}

/// The text of a side.
pub open spec fn side_text(side: GcodeSide) -> Seq<char> {
    match side {
        GcodeSide::Top => "top"@,
        GcodeSide::Bottom => "bottom"@,
    }
}

/// The copper layers milled from the top: every copper layer whose side
/// is not the bottom.
pub open spec fn is_top_copper(l: LayerFile) -> bool {
    is_milled(l) && effective_category_of(l) == LayerCategory::Copper && effective_side_of(l) != Side::Bottom
}

pub open spec fn is_bottom_copper(l: LayerFile) -> bool {
    is_milled(l) && effective_category_of(l) == LayerCategory::Copper && effective_side_of(l) == Side::Bottom
}

pub open spec fn is_outline(l: LayerFile) -> bool {
    is_milled(l) && effective_category_of(l) == LayerCategory::Outline
}

pub open spec fn is_drill(l: LayerFile) -> bool {
    is_milled(l) && effective_category_of(l) == LayerCategory::Drill
}

/// The paths of the layers that pass `sel`, in stackup order; `sel`
/// is 0 for top copper, 1 for bottom copper, 2 for outline, 3 for drill.
pub open spec fn selected_paths(layers: Seq<LayerFile>, sel: int) -> Seq<String>
    decreases layers.len(),
{
    if layers.len() == 0 {
        Seq::empty()
    } else {
        let l = layers.last();
        let keep = if sel == 0 {
            is_top_copper(l)
        } else if sel == 1 {
            is_bottom_copper(l)
        } else if sel == 2 {
            is_outline(l)
        } else {
            is_drill(l)
        };
        let rest = selected_paths(layers.drop_last(), sel);
        if keep {
            rest.push(l.path)
        } else {
            rest
        }
    }
}

/// The render inputs of the stackup: top copper, bottom copper, outline
/// and drill paths, each in stackup order.
pub fn render_inputs(stackup: &Stackup) -> (r: (Vec<String>, Vec<String>, Vec<String>, Vec<String>))
    ensures
        r.0@ == selected_paths(stackup.layers@, 0),
        r.1@ == selected_paths(stackup.layers@, 1),
        r.2@ == selected_paths(stackup.layers@, 2),
        r.3@ == selected_paths(stackup.layers@, 3),
{
    let mut top: Vec<String> = Vec::new();
    let mut bottom: Vec<String> = Vec::new();
    let mut outline: Vec<String> = Vec::new();
    let mut drill: Vec<String> = Vec::new();
    let mut i: usize = 0;
    while i < stackup.layers.len()
        invariant
            i <= stackup.layers@.len(),
            top@ == selected_paths(stackup.layers@.take(i as int), 0),
            bottom@ == selected_paths(stackup.layers@.take(i as int), 1),
            outline@ == selected_paths(stackup.layers@.take(i as int), 2),
            drill@ == selected_paths(stackup.layers@.take(i as int), 3),
        decreases stackup.layers.len() - i,
    {
        let layer = &stackup.layers[i];
        assert(stackup.layers@.take(i + 1).drop_last() =~= stackup.layers@.take(i as int));
        assert(stackup.layers@.take(i + 1).last() == *layer);
        if layer.is_resolved() && !layer.excluded {
            let cat = layer.effective_category();
            if cat == LayerCategory::Copper {
                if layer.effective_side() == Side::Bottom {
                    bottom.push(layer.path.clone());
                } else {
                    top.push(layer.path.clone());
                }
            } else if cat == LayerCategory::Outline {
                outline.push(layer.path.clone());
            } else if cat == LayerCategory::Drill {
                drill.push(layer.path.clone());
            }
        }
        i += 1;
    }
    assert(stackup.layers@.take(stackup.layers@.len() as int) =~= stackup.layers@);
    (top, bottom, outline, drill)
}

/// How a layer is listed: `[category+side] file name`.
pub open spec fn input_line(l: LayerFile, name: Seq<char>) -> Seq<char> {
    "["@ + category_label(effective_category_of(l)) + "+"@ + side_label(effective_side_of(l)) + "] "@ + name
}

/// The listing of a layer, with the file name of its path (see
/// `names_file`).
pub open spec fn lists_layer(l: LayerFile, entry: Seq<char>) -> bool {
    exists|name: Seq<char>| names_file(l.path@, name) && entry == #[trigger] input_line(l, name)
}

/// The listing of the stackup: one line per layer, in order.
pub open spec fn lists_stackup(layers: Seq<LayerFile>, lines: Seq<String>) -> bool {
    &&& lines.len() == layers.len()
    &&& forall|i: int| 0 <= i < layers.len() ==> lists_layer(layers[i], #[trigger] lines[i]@)
}

/// One line per layer: `[category+side] file name`.
pub fn derive_loaded_inputs(stackup: &Stackup) -> (r: Vec<String>)
    ensures
        lists_stackup(stackup.layers@, r@),
{
    let mut out: Vec<String> = Vec::new();
    let mut i: usize = 0;
    while i < stackup.layers.len()
        invariant
            i <= stackup.layers@.len(),
            out@.len() == i,
            forall|j: int| 0 <= j < i ==> lists_layer(stackup.layers@[j], #[trigger] out@[j]@),
        decreases stackup.layers.len() - i,
    {
        let layer = &stackup.layers[i];
        let name = layer.filename();
        let mut line = String::from_str("[");
        line.append(layer.effective_category().label());
        line.append("+");
        line.append(layer.effective_side().label());
        line.append("] ");
        line.append(name.as_str());
        assert(line@ == input_line(*layer, name@));
        out.push(line);
        i += 1;
    }
    out
}

/// The state of a freshly started application.
pub open spec fn is_initial(s: PipelineState) -> bool {
    &&& s.stackup.layers@.len() == 0
    &&& s.editing_layer is None
    &&& s.loaded_top_png_path is None
    &&& s.loaded_bottom_png_path is None
    &&& s.loaded_inputs@.len() == 0
    &&& s.gerber_to_png == StepState::Idle
    &&& s.png_to_gcode == StepState::Idle
    &&& s.generated_pngs is None
    &&& s.generated_top_gcode is None
    &&& s.generated_bottom_gcode is None
    &&& s.active_gcode_side == GcodeSide::Top
    &&& s.gcode_side_indicator@ == "Top"@
    &&& s.mirror_bottom
    &&& !s.mirror_top
    &&& s.status@.len() == 0
    &&& s.dpi_input@ == "1000"@
    &&& s.cut_z_mm_input@ == "-0.1"@
    &&& s.safe_z_mm_input@ == "2.0"@
    &&& s.feed_rate_input@ == "300.0"@
    &&& s.plunge_rate_input@ == "120.0"@
    &&& s.spindle_speed_input@ == "12000"@
    &&& s.tool_diameter_mm_input@ == "0.4"@
    &&& s.offset_number_input@ == "4"@
    &&& s.offset_stepover_input@ == "0.5"@
    &&& s.estimated_time@ == "--:--:--"@
    &&& s.cut_distance@ == "0.0 mm"@
    &&& s.board_dimensions@ == "0.0 x 0.0 mm"@
    &&& !s.rasterize_stale
    &&& !s.gcode_stale
    &&& s.expanded_step == Some(1u8)
    &&& s.settings_groups_open@ == seq![true, true, false, false]
    &&& s.mods_server_port is None
    &&& s.pending_mods_open is None
}

impl PipelineState {
    pub fn new() -> (r: PipelineState)
        ensures
            is_initial(r),
    {
        let r = PipelineState {
            stackup: Stackup::new(),
            editing_layer: None,
            loaded_top_png_path: None,
            loaded_bottom_png_path: None,
            loaded_inputs: Vec::new(),
            gerber_to_png: StepState::Idle,
            png_to_gcode: StepState::Idle,
            generated_pngs: None,
            generated_top_gcode: None,
            generated_bottom_gcode: None,
            active_gcode_side: GcodeSide::Top,
            gcode_side_indicator: String::from_str("Top"),
            mirror_bottom: true,
            mirror_top: false,
            status: String::new(),
            dpi_input: String::from_str("1000"),
            cut_z_mm_input: String::from_str("-0.1"),
            safe_z_mm_input: String::from_str("2.0"),
            feed_rate_input: String::from_str("300.0"),
            plunge_rate_input: String::from_str("120.0"),
            spindle_speed_input: String::from_str("12000"),
            tool_diameter_mm_input: String::from_str("0.4"),
            offset_number_input: String::from_str("4"),
            offset_stepover_input: String::from_str("0.5"),
            estimated_time: String::from_str("--:--:--"),
            cut_distance: String::from_str("0.0 mm"),
            board_dimensions: String::from_str("0.0 x 0.0 mm"),
            rasterize_stale: false,
            gcode_stale: false,
            expanded_step: Some(1),
            settings_groups_open: [true, true, false, false],
            mods_server_port: None,
            pending_mods_open: None,
        };
        assert(r.settings_groups_open@ =~= seq![true, true, false, false]);
        r
    }
}


/// Whether a step has finished.
pub open spec fn completed(s: StepState) -> bool {
    s == StepState::Complete
}

/// The picture loaded for a side.
pub open spec fn png_of(s: PipelineState, side: GcodeSide) -> Option<String> {
    match side {
        GcodeSide::Top => s.loaded_top_png_path,
        GcodeSide::Bottom => s.loaded_bottom_png_path,
    }
}

/// The G-code summary held for a side.
pub open spec fn gcode_of(s: PipelineState, side: GcodeSide) -> Option<GcodeSummary> {
    match side {
        GcodeSide::Top => s.generated_top_gcode,
        GcodeSide::Bottom => s.generated_bottom_gcode,
    }
}

/// A duration in seconds as `hh:mm:ss`, each part with at least two
/// digits.
pub open spec fn clock(secs: nat) -> Seq<char> {
    two_digits(secs / 3600) + ":"@ + two_digits((secs % 3600) / 60) + ":"@ + two_digits(secs % 60)
}

/// The status after the layer pictures were rendered.
pub open spec fn rendered_status(l: PngLayerResults) -> Seq<char> {
    "Rendered 4 PNGs ("@ + decimal(l.copper_top.width as nat) + "x"@ + decimal(l.copper_top.height as nat)
        + "). Top: "@ + decimal(l.copper_top.dark_pixels as nat) + " dark px, Bottom: "@ + decimal(
        l.copper_bottom.dark_pixels as nat,
    ) + " dark px. Ready for G-code."@
}

/// The status after the G-code of one side was generated.
pub open spec fn generated_status(side: GcodeSide, g: GcodeSummary) -> Seq<char> {
    "Generated "@ + side_text(side) + " G-code: "@ + decimal(g.paths as nat) + " paths, "@ + g.cut_metres@
        + "m cut, est. "@ + clock(g.estimated_secs as nat) + "."@
}

/// The state shows the figures of a G-code summary.
pub open spec fn shows_summary(n: PipelineState, g: GcodeSummary) -> bool {
    &&& n.estimated_time@ == clock(g.estimated_secs as nat)
    &&& n.cut_distance@ == g.cut_distance@
    &&& n.board_dimensions@ == g.board_dimensions@
}

/// The address that opens a picture served on `port` in mods.
pub open spec fn mods_url(port: u16, name: Seq<char>) -> Seq<char> {
    "https://modsproject.org/?program=programs/machines/G-code/mill+2D+PCB&src=http://127.0.0.1:"@ + decimal(
        port as nat,
    ) + "/"@ + name
}

/// The action opens mods on the picture at `path` served on `port`,
/// named by the file name of its path (see `names_file`).
pub open spec fn opens_mods(r: Action, port: u16, path: Seq<char>) -> bool {
    r matches Action::OpenUrl(u) && exists|name: Seq<char>|
        names_file(path, name) && u@ == #[trigger] mods_url(port, name)
}

/// A freshly added layer: detected category and side, no choice of the
/// user.
pub open spec fn new_layer(f: (String, LayerCategory, Side)) -> LayerFile {
    LayerFile {
        path: f.0,
        auto_category: f.1,
        auto_side: f.2,
        user_category: None,
        user_side: None,
        user_label: None,
        excluded: false,
    }
}

/// The user's category choice: none when it is the detected one.
pub open spec fn chosen_category(l: LayerFile, c: LayerCategory) -> Option<LayerCategory> {
    if l.auto_category == c {
        None
    } else {
        Some(c)
    }
}

/// The user's side choice: none when it is the detected one.
pub open spec fn chosen_side(l: LayerFile, side: Side) -> Option<Side> {
    if l.auto_side == side {
        None
    } else {
        Some(side)
    }
}

/// The stackup now holds `layers`, listed anew, and both results are
/// stale where they were complete; nothing else changed.
pub open spec fn layers_edited(s: PipelineState, n: PipelineState, layers: Seq<LayerFile>) -> bool {
    &&& n == PipelineState {
        stackup: n.stackup,
        loaded_inputs: n.loaded_inputs,
        rasterize_stale: completed(s.gerber_to_png),
        gcode_stale: completed(s.png_to_gcode),
        ..s
    }
    &&& n.stackup.layers@ == layers
    &&& lists_stackup(layers, n.loaded_inputs@)
}

/// Layers were added to the stackup, which is listed anew and ready to
/// be rendered; complete results are marked stale.
pub open spec fn layers_added(s: PipelineState, n: PipelineState, added: Seq<LayerFile>) -> bool {
    &&& n == PipelineState {
        stackup: n.stackup,
        loaded_inputs: n.loaded_inputs,
        gerber_to_png: StepState::Ready,
        status: n.status,
        rasterize_stale: completed(s.gerber_to_png),
        gcode_stale: completed(s.png_to_gcode),
        ..s
    }
    &&& n.stackup.layers@ == s.stackup.layers@ + added
    &&& lists_stackup(n.stackup.layers@, n.loaded_inputs@)
}

/// Only the status changed, to `text`.
pub open spec fn status_only(s: PipelineState, n: PipelineState, text: Seq<char>) -> bool {
    n == PipelineState { status: n.status, ..s } && n.status@ == text
}

/// A picture was loaded for one side: rendered pictures are dropped and
/// G-code can be generated.
pub open spec fn png_loaded(s: PipelineState, n: PipelineState, text: Seq<char>) -> bool {
    &&& n == PipelineState {
        loaded_top_png_path: n.loaded_top_png_path,
        loaded_bottom_png_path: n.loaded_bottom_png_path,
        generated_pngs: None,
        gerber_to_png: StepState::Idle,
        gcode_stale: completed(s.png_to_gcode),
        png_to_gcode: StepState::Ready,
        status: n.status,
        ..s
    }
    &&& n.status@ == text
}

/// Rendering is asked for: with no input the status says so, else the
/// render runs on the inputs of the stackup.
pub open spec fn convert_requested(s: PipelineState, n: PipelineState, r: Action) -> bool {
    let top = selected_paths(s.stackup.layers@, 0);
    let bottom = selected_paths(s.stackup.layers@, 1);
    let outline = selected_paths(s.stackup.layers@, 2);
    let drill = selected_paths(s.stackup.layers@, 3);
    if top.len() == 0 && bottom.len() == 0 && outline.len() == 0 && drill.len() == 0 {
        status_only(s, n, "Load Gerber files before converting."@) && r is Nothing
    } else {
        &&& n == PipelineState { gerber_to_png: StepState::Running, status: n.status, ..s }
        &&& n.status@ == "Rendering Gerber to PNG..."@
        &&& r matches Action::Render { copper_top, copper_bottom, outline: o, drill: d } && copper_top@ == top
            && copper_bottom@ == bottom && o@ == outline && d@ == drill
    }
}

/// Saving one picture is asked for: without rendered pictures the
/// status says so, else the caller asks where to save the picture.
pub open spec fn save_png_requested(
    s: PipelineState,
    n: PipelineState,
    r: Action,
    which: int,
    name: Seq<char>,
    title: Seq<char>,
) -> bool {
    match s.generated_pngs {
        None => status_only(s, n, "Run the conversion before saving PNGs."@) && r is Nothing,
        Some(p) => {
            let picture = if which == 0 {
                p.copper_top
            } else if which == 1 {
                p.copper_bottom
            } else if which == 2 {
                p.drills
            } else {
                p.outline
            };
            &&& n == s
            &&& r matches Action::PickPngDestination { source, file_name, title: t }
            &&& source == picture.path
            &&& file_name@ == name
            &&& t@ == title
        },
    }
}

/// G-code for the active side is asked for.
pub open spec fn gcode_requested(s: PipelineState, n: PipelineState, r: Action) -> bool {
    match png_of(s, s.active_gcode_side) {
        None => status_only(s, n, "Generate a "@ + side_text(s.active_gcode_side) + " PNG or load one first."@)
            && r is Nothing,
        Some(png) => {
            &&& n == PipelineState { png_to_gcode: StepState::Running, status: n.status, ..s }
            &&& n.status@ == "Generating G-code from PNG..."@
            &&& r == Action::GenerateGcode { png }
        },
    }
}

/// G-code for both sides is asked for.
pub open spec fn both_gcode_requested(s: PipelineState, n: PipelineState, r: Action) -> bool {
    match (s.loaded_top_png_path, s.loaded_bottom_png_path) {
        (None, _) => status_only(s, n, "Generate a top PNG first."@) && r is Nothing,
        (Some(_), None) => status_only(s, n, "Generate a bottom PNG first."@) && r is Nothing,
        (Some(top), Some(bottom)) => {
            &&& n == PipelineState { png_to_gcode: StepState::Running, status: n.status, ..s }
            &&& n.status@ == "Generating G-code for both sides..."@
            &&& r == Action::GenerateBothGcode { top, bottom }
        },
    }
}

/// How the application answers an event: `n` is the state after `e`
/// arrived in state `s`, and `r` what the caller is asked to do. The
/// definition is large, so it is opaque: `reveal(handles)` brings it in.
#[verifier::opaque]
pub open spec fn handles(s: PipelineState, e: Event, n: PipelineState, r: Action) -> bool {
    match e {
        Event::SelectGerberFiles => n == s && r is PickGerberFiles,
        Event::GerberFilesPicked(None) => n == s && r is Nothing,
        Event::GerberFilesPicked(Some(files)) => {
            &&& layers_added(s, n, files@.map_values(|f: (String, LayerCategory, Side)| new_layer(f)))
            &&& n.status@ == "Added "@ + decimal(files@.len()) + " files via auto-detect."@
            &&& r is Nothing
        },
        Event::FileDropped(path, category, side) => {
            &&& layers_added(s, n, seq![new_layer((path, category, side))])
            &&& exists|name: Seq<char>|
                names_file(path@, name) && n.status@ == #[trigger] ("File dropped: "@ + name)
            &&& r is Nothing
        },
        Event::OverrideLayer { index, category, side } => r is Nothing && if index < s.stackup.layers@.len() {
            let l = s.stackup.layers@[index as int];
            layers_edited(
                s,
                n,
                s.stackup.layers@.update(
                    index as int,
                    LayerFile { user_category: chosen_category(l, category), user_side: chosen_side(l, side), ..l },
                ),
            )
        } else {
            n == s
        },
        Event::LoadPng => n == s && r is PickTopPng,
        Event::LoadTopPngPicked(None) => n == s && r is Nothing,
        Event::LoadTopPngPicked(Some(path)) => {
            &&& png_loaded(s, n, "Top PNG loaded. Ready to generate G-code."@)
            &&& n.loaded_top_png_path == Some(path)
            &&& n.loaded_bottom_png_path == s.loaded_bottom_png_path
            &&& r is Nothing
        },
        Event::LoadBottomPng => n == s && r is PickBottomPng,
        Event::LoadBottomPngPicked(None) => n == s && r is Nothing,
        Event::LoadBottomPngPicked(Some(path)) => {
            &&& png_loaded(s, n, "Bottom PNG loaded. Ready to generate G-code."@)
            &&& n.loaded_bottom_png_path == Some(path)
            &&& n.loaded_top_png_path == s.loaded_top_png_path
            &&& r is Nothing
        },
        Event::ConvertToPng => convert_requested(s, n, r),
        Event::ConvertToPngFinished(Ok(layers)) => {
            &&& n == PipelineState {
                generated_pngs: Some(layers),
                gerber_to_png: StepState::Complete,
                rasterize_stale: false,
                png_to_gcode: StepState::Ready,
                loaded_top_png_path: Some(layers.copper_top.path),
                loaded_bottom_png_path: Some(layers.copper_bottom.path),
                status: n.status,
                ..s
            }
            &&& n.status@ == rendered_status(layers)
            &&& r is Nothing
        },
        Event::ConvertToPngFinished(Err(err)) => {
            &&& n == PipelineState { gerber_to_png: StepState::Ready, status: n.status, ..s }
            &&& n.status@ == "Rendering failed: "@ + err@
            &&& r is Nothing
        },
        Event::SaveCopperPng => save_png_requested(s, n, r, 0, "traces_top.png"@, "Save top traces PNG"@),
        Event::SaveCopperBottomPng => save_png_requested(
            s,
            n,
            r,
            1,
            "traces_bot.png"@,
            "Save bottom traces PNG"@,
        ),
        Event::SaveDrillPng => save_png_requested(s, n, r, 2, "drills.png"@, "Save drills PNG"@),
        Event::SaveOutlinePng => save_png_requested(s, n, r, 3, "outline.png"@, "Save board outline PNG"@),
        Event::SaveAllPngs => match s.generated_pngs {
            None => status_only(s, n, "Run the conversion before saving PNGs."@) && r is Nothing,
            Some(p) => n == s && r == Action::PickPngFolder(p),
        },
        Event::SaveAllPngsFinished(None, _) => n == s && r is Nothing,
        Event::SaveAllPngsFinished(Some(dir), p) => {
            &&& status_only(s, n, "Saved 4 PNGs to "@ + dir@ + "."@)
            &&& r matches Action::CopyPngs { dir: d, copies } && d == dir && copies@.len() == 4
                && copies@[0].0 == p.copper_top.path && copies@[0].1@ == "traces_top.png"@
                && copies@[1].0 == p.copper_bottom.path && copies@[1].1@ == "traces_bot.png"@
                && copies@[2].0 == p.drills.path && copies@[2].1@ == "drills.png"@
                && copies@[3].0 == p.outline.path && copies@[3].1@ == "outline.png"@
        },
        Event::SavePngPathPicked(None, _) => status_only(s, n, "Save canceled."@) && r is Nothing,
        Event::SavePngPathPicked(Some(dest), source) => n == s && r == Action::CopyPng { source, dest },
        Event::PngCopied(dest, Ok(())) => status_only(s, n, "Saved PNG to "@ + dest@ + "."@) && r is Nothing,
        Event::PngCopied(_, Err(err)) => status_only(s, n, "Failed to save PNG: "@ + err@) && r is Nothing,
        Event::GenerateGcode => gcode_requested(s, n, r),
        Event::GenerateGcodeFinished(Ok(g)) => {
            &&& n == PipelineState {
                generated_top_gcode: if s.active_gcode_side == GcodeSide::Top {
                    Some(g)
                } else {
                    s.generated_top_gcode
                },
                generated_bottom_gcode: if s.active_gcode_side == GcodeSide::Bottom {
                    Some(g)
                } else {
                    s.generated_bottom_gcode
                },
                png_to_gcode: StepState::Complete,
                gcode_stale: false,
                estimated_time: n.estimated_time,
                cut_distance: n.cut_distance,
                board_dimensions: n.board_dimensions,
                status: n.status,
                ..s
            }
            &&& shows_summary(n, g)
            &&& n.status@ == generated_status(s.active_gcode_side, g)
            &&& r is Nothing
        },
        Event::GenerateGcodeFinished(Err(err)) => {
            &&& n == PipelineState { png_to_gcode: StepState::Ready, status: n.status, ..s }
            &&& n.status@ == "G-code generation failed: "@ + err@
            &&& r is Nothing
        },
        Event::GenerateBothGcode => both_gcode_requested(s, n, r),
        Event::GenerateBothGcodeFinished(Ok((top, bottom))) => {
            &&& n == PipelineState {
                generated_top_gcode: Some(top),
                generated_bottom_gcode: Some(bottom),
                png_to_gcode: StepState::Complete,
                gcode_stale: false,
                estimated_time: n.estimated_time,
                cut_distance: n.cut_distance,
                board_dimensions: n.board_dimensions,
                status: n.status,
                ..s
            }
            &&& shows_summary(n, if s.active_gcode_side == GcodeSide::Top { top } else { bottom })
            &&& n.status@ == "Generated G-code for both sides."@
            &&& r is Nothing
        },
        Event::GenerateBothGcodeFinished(Err(err)) => {
            &&& n == PipelineState { png_to_gcode: StepState::Ready, status: n.status, ..s }
            &&& n.status@ == "G-code generation failed: "@ + err@
            &&& r is Nothing
        },
        Event::SaveGcode => match gcode_of(s, s.active_gcode_side) {
            None => status_only(s, n, "Run the pipeline before saving G-code."@) && r is Nothing,
            Some(_) => {
                &&& n == s
                &&& r matches Action::PickGcodeDestination { file_name }
                &&& file_name@ == (if s.active_gcode_side == GcodeSide::Top {
                    "output_top.gcode"@
                } else {
                    "output_bot.gcode"@
                })
            },
        },
        Event::GcodeSavePathPicked(None) => status_only(s, n, "Save canceled."@) && r is Nothing,
        Event::GcodeSavePathPicked(Some(path)) => match gcode_of(s, s.active_gcode_side) {
            None => status_only(s, n, "No generated G-code available to save."@) && r is Nothing,
            Some(_) => n == s && r == Action::WriteGcode { path, side: s.active_gcode_side },
        },
        Event::GcodeWritten(path, Ok(())) => status_only(s, n, "Saved generated G-code to "@ + path@ + "."@)
            && r is Nothing,
        Event::GcodeWritten(_, Err(err)) => status_only(s, n, "Failed to save G-code: "@ + err@) && r is Nothing,
        Event::SwitchGcodeSide(side) => {
            &&& r is Nothing
            &&& n.gcode_side_indicator@ == (if side == GcodeSide::Top { "Top"@ } else { "Bottom"@ })
            &&& match gcode_of(s, side) {
                None => n == PipelineState {
                    active_gcode_side: side,
                    gcode_side_indicator: n.gcode_side_indicator,
                    ..s
                },
                Some(g) => n == PipelineState {
                    active_gcode_side: side,
                    gcode_side_indicator: n.gcode_side_indicator,
                    estimated_time: n.estimated_time,
                    cut_distance: n.cut_distance,
                    board_dimensions: n.board_dimensions,
                    ..s
                } && shows_summary(n, g),
            }
        },
        Event::MirrorBottomToggled(v) => r is Nothing && n == PipelineState {
            mirror_bottom: v,
            rasterize_stale: completed(s.gerber_to_png),
            gcode_stale: completed(s.png_to_gcode),
            ..s
        },
        Event::MirrorTopToggled(v) => r is Nothing && n == PipelineState {
            mirror_top: v,
            rasterize_stale: completed(s.gerber_to_png),
            gcode_stale: completed(s.png_to_gcode),
            ..s
        },
        Event::Reset => is_initial(n) && r is Nothing,
        Event::DpiChanged(v) => r is Nothing && n == PipelineState {
            dpi_input: v,
            rasterize_stale: completed(s.gerber_to_png),
            gcode_stale: completed(s.png_to_gcode),
            ..s
        },
        Event::GcodeSettingChanged(field, v) => r is Nothing && n == match field {
            GcodeField::CutZ => PipelineState { cut_z_mm_input: v, gcode_stale: completed(s.png_to_gcode), ..s },
            GcodeField::SafeZ => PipelineState { safe_z_mm_input: v, gcode_stale: completed(s.png_to_gcode), ..s },
            GcodeField::FeedRate => PipelineState { feed_rate_input: v, gcode_stale: completed(s.png_to_gcode), ..s },
            GcodeField::PlungeRate => PipelineState {
                plunge_rate_input: v,
                gcode_stale: completed(s.png_to_gcode),
                ..s
            },
            GcodeField::SpindleSpeed => PipelineState {
                spindle_speed_input: v,
                gcode_stale: completed(s.png_to_gcode),
                ..s
            },
            GcodeField::ToolDiameter => PipelineState {
                tool_diameter_mm_input: v,
                gcode_stale: completed(s.png_to_gcode),
                ..s
            },
            GcodeField::OffsetNumber => PipelineState {
                offset_number_input: v,
                gcode_stale: completed(s.png_to_gcode),
                ..s
            },
            GcodeField::OffsetStepover => PipelineState {
                offset_stepover_input: v,
                gcode_stale: completed(s.png_to_gcode),
                ..s
            },
        },
        Event::ClearPng => r is Nothing && n == PipelineState {
            loaded_top_png_path: None,
            loaded_bottom_png_path: None,
            generated_pngs: None,
            generated_top_gcode: None,
            generated_bottom_gcode: None,
            gerber_to_png: StepState::Idle,
            png_to_gcode: StepState::Ready,
            gcode_stale: false,
            ..s
        },
        Event::StepToggled(k) => r is Nothing && n == PipelineState {
            expanded_step: if s.expanded_step == Some(k) {
                None
            } else {
                Some(k)
            },
            ..s
        },
        Event::RemoveFile { index } => r is Nothing && if index < s.stackup.layers@.len() {
            &&& layers_edited(
                s,
                PipelineState { editing_layer: s.editing_layer, ..n },
                s.stackup.layers@.remove(index as int),
            )
            &&& n.editing_layer == match s.editing_layer {
                Some(i) => if i == index {
                    None
                } else if i > index {
                    Some((i - 1) as usize)
                } else {
                    Some(i)
                },
                None => None,
            }
        } else {
            n == s
        },
        Event::ToggleLayerExclude(index) => r is Nothing && if index < s.stackup.layers@.len() {
            let l = s.stackup.layers@[index as int];
            layers_edited(s, n, s.stackup.layers@.update(index as int, LayerFile { excluded: !l.excluded, ..l }))
        } else {
            n == s
        },
        Event::EditLayerToggle(i) => r is Nothing && n == PipelineState {
            editing_layer: if s.editing_layer == Some(i) {
                None
            } else {
                Some(i)
            },
            ..s
        },
        Event::SetLayerCategory { index, category } => r is Nothing && if index < s.stackup.layers@.len() {
            let l = s.stackup.layers@[index as int];
            layers_edited(
                s,
                n,
                s.stackup.layers@.update(index as int, LayerFile { user_category: chosen_category(l, category), ..l }),
            )
        } else {
            n == s
        },
        Event::SetLayerSide { index, side } => r is Nothing && if index < s.stackup.layers@.len() {
            let l = s.stackup.layers@[index as int];
            layers_edited(
                s,
                n,
                s.stackup.layers@.update(index as int, LayerFile { user_side: chosen_side(l, side), ..l }),
            )
        } else {
            n == s
        },
        Event::ResetLayerOverride(index) => r is Nothing && if index < s.stackup.layers@.len() {
            let l = s.stackup.layers@[index as int];
            layers_edited(
                s,
                n,
                s.stackup.layers@.update(index as int, LayerFile { user_category: None, user_side: None, ..l }),
            )
        } else {
            n == s
        },
        Event::OpenInMods(path) => match s.mods_server_port {
            Some(port) => n == s && opens_mods(r, port, path@),
            None => n == PipelineState { pending_mods_open: Some(path), ..s } && r is StartModsServer,
        },
        Event::ModsServerStarted(port) => n == PipelineState {
            mods_server_port: Some(port),
            pending_mods_open: None,
            ..s
        } && match s.pending_mods_open {
            Some(p) => opens_mods(r, port, p@),
            None => r is Nothing,
        },
        Event::SettingsGroupToggled(i) => r is Nothing && if i < 4 {
            n == PipelineState { settings_groups_open: n.settings_groups_open, ..s }
                && n.settings_groups_open@ == s.settings_groups_open@.update(
                i as int,
                !s.settings_groups_open@[i as int],
            )
        } else {
            n == s
        },
        Event::ReRunRasterize => convert_requested(
            PipelineState { rasterize_stale: false, gcode_stale: completed(s.png_to_gcode), ..s },
            n,
            r,
        ),
        Event::ReRunGcode => gcode_requested(PipelineState { gcode_stale: false, ..s }, n, r),
        Event::RunAll => {
            let has_gerbers = selected_paths(s.stackup.layers@, 0).len() > 0 || selected_paths(
                s.stackup.layers@,
                1,
            ).len() > 0 || selected_paths(s.stackup.layers@, 2).len() > 0 || selected_paths(
                s.stackup.layers@,
                3,
            ).len() > 0;
            let rasterize_needed = has_gerbers && (!completed(s.gerber_to_png) || s.rasterize_stale);
            let has_both = s.loaded_top_png_path is Some && s.loaded_bottom_png_path is Some;
            let has_any = s.loaded_top_png_path is Some || s.loaded_bottom_png_path is Some;
            let gcode_needed = has_any && (!completed(s.png_to_gcode) || s.gcode_stale);
            if rasterize_needed {
                convert_requested(PipelineState { rasterize_stale: false, ..s }, n, r)
            } else if gcode_needed && has_both {
                both_gcode_requested(PipelineState { gcode_stale: false, ..s }, n, r)
            } else if gcode_needed {
                gcode_requested(PipelineState { gcode_stale: false, ..s }, n, r)
            } else {
                n == s && r is Nothing
            }
        },
    }
}

/// `secs` as `hh:mm:ss`.
fn clock_text(secs: u64) -> (r: String)
    ensures
        r@ == clock(secs as nat),
{
    let mut out = String::new();
    push_two_digits(&mut out, secs / 3600);
    out.append(":");
    push_two_digits(&mut out, (secs % 3600) / 60);
    out.append(":");
    push_two_digits(&mut out, secs % 60);
    out
}

/// The status after the layer pictures were rendered.
fn rendered_text(l: &PngLayerResults) -> (r: String)
    ensures
        r@ == rendered_status(*l),
{
    let mut out = String::from_str("Rendered 4 PNGs (");
    push_decimal(&mut out, l.copper_top.width as u64);
    out.append("x");
    push_decimal(&mut out, l.copper_top.height as u64);
    out.append("). Top: ");
    push_decimal(&mut out, l.copper_top.dark_pixels as u64);
    out.append(" dark px, Bottom: ");
    push_decimal(&mut out, l.copper_bottom.dark_pixels as u64);
    out.append(" dark px. Ready for G-code.");
    out
}

/// The status after the G-code of one side was generated.
fn generated_text(side: GcodeSide, g: &GcodeSummary) -> (r: String)
    ensures
        r@ == generated_status(side, *g),
{
    let mut out = String::from_str("Generated ");
    match side {
        GcodeSide::Top => out.append("top"),
        GcodeSide::Bottom => out.append("bottom"),
    }
    out.append(" G-code: ");
    push_decimal(&mut out, g.paths);
    out.append(" paths, ");
    out.append(g.cut_metres.as_str());
    out.append("m cut, est. ");
    let t = clock_text(g.estimated_secs);
    out.append(t.as_str());
    out.append(".");
    out
}

/// The address that opens the picture at `path` in mods.
fn mods_url_text(port: u16, path: &String) -> (r: String)
    ensures
        exists|name: Seq<char>| names_file(path@, name) && r@ == #[trigger] mods_url(port, name),
{
    let name = match file_name_of(path.as_str()) {
        Some(n) => n,
        None => String::new(),
    };
    let mut out = String::from_str(
        "https://modsproject.org/?program=programs/machines/G-code/mill+2D+PCB&src=http://127.0.0.1:",
    );
    push_decimal(&mut out, port as u64);
    out.append("/");
    out.append(name.as_str());
    assert(out@ == mods_url(port, name@));
    out
}

/// A copy of the rendered results.
fn copy_results(p: &PngLayerResults) -> (r: PngLayerResults)
    ensures
        r == *p,
{
    PngLayerResults {
        copper_top: PngRenderResult { path: p.copper_top.path.clone(), ..p.copper_top },
        copper_bottom: PngRenderResult { path: p.copper_bottom.path.clone(), ..p.copper_bottom },
        drills: PngRenderResult { path: p.drills.path.clone(), ..p.drills },
        outline: PngRenderResult { path: p.outline.path.clone(), ..p.outline },
    }
}

/// A copy of an optional path.
fn copy_path(p: &Option<String>) -> (r: Option<String>)
    ensures
        r == *p,
{
    match p {
        Some(s) => Some(s.clone()),
        None => None,
    }
}

impl PipelineState {
    /// Lists the stackup anew.
    fn relist(&mut self)
        ensures
            *final(self) == (PipelineState { loaded_inputs: final(self).loaded_inputs, ..*old(self) }),
            lists_stackup(final(self).stackup.layers@, final(self).loaded_inputs@),
    {
        self.loaded_inputs = derive_loaded_inputs(&self.stackup);
    }

    /// Sets the status to `text`.
    fn say(&mut self, text: &str)
        ensures
            status_only(*old(self), *final(self), text@),
    {
        self.status = String::from_str(text);
    }

    /// Replaces the layer at `index`, lists the stackup anew and marks
    /// complete results stale.
    fn replace_layer(&mut self, index: usize, layer: LayerFile)
        requires
            index < old(self).stackup.layers@.len(),
        ensures
            layers_edited(*old(self), *final(self), old(self).stackup.layers@.update(index as int, layer)),
    {
        let ghost before = self.stackup.layers@;
        self.stackup.layers.remove(index);
        self.stackup.layers.insert(index, layer);
        assert(self.stackup.layers@ =~= before.update(index as int, layer));
        self.rasterize_stale = self.gerber_to_png == StepState::Complete;
        self.gcode_stale = self.png_to_gcode == StepState::Complete;
        self.relist();
    }

    /// Shows the figures of the G-code held for `side`, if any.
    fn show_summary_of(&mut self, side: GcodeSide)
        ensures
            match gcode_of(*old(self), side) {
                None => *final(self) == *old(self),
                Some(g) => *final(self) == (PipelineState {
                    estimated_time: final(self).estimated_time,
                    cut_distance: final(self).cut_distance,
                    board_dimensions: final(self).board_dimensions,
                    ..*old(self)
                }) && shows_summary(*final(self), g),
            },
    {
        let held = match side {
            GcodeSide::Top => &self.generated_top_gcode,
            GcodeSide::Bottom => &self.generated_bottom_gcode,
        };
        let shown = match held {
            Some(g) => Some((clock_text(g.estimated_secs), g.cut_distance.clone(), g.board_dimensions.clone())),
            None => None,
        };
        if let Some((t, c, b)) = shown {
            self.estimated_time = t;
            self.cut_distance = c;
            self.board_dimensions = b;
        }
    }

    /// Adds a layer file to the stackup.
    fn add_layer(&mut self, f: (String, LayerCategory, Side))
        ensures
            *final(self) == (PipelineState { stackup: final(self).stackup, ..*old(self) }),
            final(self).stackup.layers@ == old(self).stackup.layers@.push(new_layer(f)),
    {
        let (path, category, side) = f;
        self.stackup.layers.push(LayerFile::new(path, category, side));
    }

    /// Asks for the layer pictures to be rendered.
    fn convert(&mut self) -> (r: Action)
        ensures
            convert_requested(*old(self), *final(self), r),
    {
        let (top, bottom, outline, drill) = render_inputs(&self.stackup);
        if top.len() == 0 && bottom.len() == 0 && outline.len() == 0 && drill.len() == 0 {
            self.say("Load Gerber files before converting.");
            return Action::Nothing;
        }
        self.gerber_to_png = StepState::Running;
        self.status = String::from_str("Rendering Gerber to PNG...");
        Action::Render { copper_top: top, copper_bottom: bottom, outline, drill }
    }

    /// Asks for G-code of the active side.
    fn generate(&mut self) -> (r: Action)
        ensures
            gcode_requested(*old(self), *final(self), r),
    {
        let png = match self.active_gcode_side {
            GcodeSide::Top => copy_path(&self.loaded_top_png_path),
            GcodeSide::Bottom => copy_path(&self.loaded_bottom_png_path),
        };
        match png {
            None => {
                let mut text = String::from_str("Generate a ");
                match self.active_gcode_side {
                    GcodeSide::Top => text.append("top"),
                    GcodeSide::Bottom => text.append("bottom"),
                }
                text.append(" PNG or load one first.");
                self.status = text;
                Action::Nothing
            },
            Some(png) => {
                self.png_to_gcode = StepState::Running;
                self.status = String::from_str("Generating G-code from PNG...");
                Action::GenerateGcode { png }
            },
        }
    }

    /// Asks for G-code of both sides.
    fn generate_both(&mut self) -> (r: Action)
        ensures
            both_gcode_requested(*old(self), *final(self), r),
    {
        let top = match copy_path(&self.loaded_top_png_path) {
            Some(p) => p,
            None => {
                self.say("Generate a top PNG first.");
                return Action::Nothing;
            },
        };
        let bottom = match copy_path(&self.loaded_bottom_png_path) {
            Some(p) => p,
            None => {
                self.say("Generate a bottom PNG first.");
                return Action::Nothing;
            },
        };
        self.png_to_gcode = StepState::Running;
        self.status = String::from_str("Generating G-code for both sides...");
        Action::GenerateBothGcode { top, bottom }
    }

    /// Asks where to save one rendered picture.
    fn save_png(&mut self, which: u8, name: &str, title: &str) -> (r: Action)
        requires
            which < 4,
        ensures
            save_png_requested(*old(self), *final(self), r, which as int, name@, title@),
    {
        let source = match &self.generated_pngs {
            Some(p) => if which == 0 {
                p.copper_top.path.clone()
            } else if which == 1 {
                p.copper_bottom.path.clone()
            } else if which == 2 {
                p.drills.path.clone()
            } else {
                p.outline.path.clone()
            },
            None => {
                self.say("Run the conversion before saving PNGs.");
                return Action::Nothing;
            },
        };
        Action::PickPngDestination { source, file_name: String::from_str(name), title: String::from_str(title) }
    }
}

impl PipelineState {
    /// Answers the events that change the loaded layer files.
    fn on_layers(&mut self, event: Event) -> (r: Action)
        requires
            event is GerberFilesPicked || event is FileDropped || event is OverrideLayer || event is RemoveFile
                || event is ToggleLayerExclude || event is EditLayerToggle || event is SetLayerCategory
                || event is SetLayerSide || event is ResetLayerOverride || event is SelectGerberFiles,
        ensures
            handles(*old(self), event, *final(self), r),
    {
        proof {
            reveal(handles);
        }
        match event {
            Event::SelectGerberFiles => Action::PickGerberFiles,
            Event::GerberFilesPicked(None) => Action::Nothing,
            Event::GerberFilesPicked(Some(files)) => {
                let ghost before = self.stackup.layers@;
                let count = files.len();
                let mut i: usize = 0;
                while i < files.len()
                    invariant
                        i <= files@.len(),
                        *self == (PipelineState { stackup: self.stackup, ..*old(self) }),
                        self.stackup.layers@ == before + files@.take(i as int).map_values(
                            |f: (String, LayerCategory, Side)| new_layer(f),
                        ),
                    decreases files.len() - i,
                {
                    let f = &files[i];
                    self.add_layer((f.0.clone(), f.1, f.2));
                    assert(files@.take(i + 1).map_values(|f: (String, LayerCategory, Side)| new_layer(f))
                        =~= files@.take(i as int).map_values(|f: (String, LayerCategory, Side)| new_layer(f)).push(
                        new_layer(files@[i as int]),
                    ));
                    i += 1;
                }
                assert(files@.take(files@.len() as int) =~= files@);
                self.relist();
                self.rasterize_stale = self.gerber_to_png == StepState::Complete;
                self.gerber_to_png = StepState::Ready;
                let mut text = String::from_str("Added ");
                push_decimal(&mut text, count as u64);
                text.append(" files via auto-detect.");
                self.status = text;
                self.gcode_stale = self.png_to_gcode == StepState::Complete;
                Action::Nothing
            },
            Event::FileDropped(path, category, side) => {
                let name = match file_name_of(path.as_str()) {
                    Some(n) => n,
                    None => String::new(),
                };
                self.add_layer((path, category, side));
                assert(self.stackup.layers@ =~= old(self).stackup.layers@ + seq![new_layer((path, category, side))]);
                self.relist();
                self.rasterize_stale = self.gerber_to_png == StepState::Complete;
                self.gerber_to_png = StepState::Ready;
                let mut text = String::from_str("File dropped: ");
                text.append(name.as_str());
                assert(text@ == "File dropped: "@ + name@);
                self.status = text;
                self.gcode_stale = self.png_to_gcode == StepState::Complete;
                Action::Nothing
            },
            Event::OverrideLayer { index, category, side } => {
                if index < self.stackup.layers.len() {
                    let l = &self.stackup.layers[index];
                    let user_category = if l.auto_category == category { None } else { Some(category) };
                    let user_side = if l.auto_side == side { None } else { Some(side) };
                    let layer = LayerFile {
                        path: l.path.clone(),
                        auto_category: l.auto_category,
                        auto_side: l.auto_side,
                        user_category,
                        user_side,
                        user_label: copy_path(&l.user_label),
                        excluded: l.excluded,
                    };
                    self.replace_layer(index, layer);
                }
                Action::Nothing
            },
            Event::RemoveFile { index } => {
                if index < self.stackup.layers.len() {
                    self.stackup.layers.remove(index);
                    self.editing_layer = match self.editing_layer {
                        Some(i) => if i == index {
                            None
                        } else if i > index {
                            Some(i - 1)
                        } else {
                            Some(i)
                        },
                        None => None,
                    };
                    self.rasterize_stale = self.gerber_to_png == StepState::Complete;
                    self.gcode_stale = self.png_to_gcode == StepState::Complete;
                    self.relist();
                }
                Action::Nothing
            },
            Event::ToggleLayerExclude(index) => {
                if index < self.stackup.layers.len() {
                    let l = &self.stackup.layers[index];
                    let layer = LayerFile {
                        path: l.path.clone(),
                        auto_category: l.auto_category,
                        auto_side: l.auto_side,
                        user_category: l.user_category,
                        user_side: l.user_side,
                        user_label: copy_path(&l.user_label),
                        excluded: !l.excluded,
                    };
                    self.replace_layer(index, layer);
                }
                Action::Nothing
            },
            Event::EditLayerToggle(i) => {
                self.editing_layer = if self.editing_layer == Some(i) { None } else { Some(i) };
                Action::Nothing
            },
            Event::SetLayerCategory { index, category } => {
                if index < self.stackup.layers.len() {
                    let l = &self.stackup.layers[index];
                    let user_category = if l.auto_category == category { None } else { Some(category) };
                    let layer = LayerFile {
                        path: l.path.clone(),
                        auto_category: l.auto_category,
                        auto_side: l.auto_side,
                        user_category,
                        user_side: l.user_side,
                        user_label: copy_path(&l.user_label),
                        excluded: l.excluded,
                    };
                    self.replace_layer(index, layer);
                }
                Action::Nothing
            },
            Event::SetLayerSide { index, side } => {
                if index < self.stackup.layers.len() {
                    let l = &self.stackup.layers[index];
                    let user_side = if l.auto_side == side { None } else { Some(side) };
                    let layer = LayerFile {
                        path: l.path.clone(),
                        auto_category: l.auto_category,
                        auto_side: l.auto_side,
                        user_category: l.user_category,
                        user_side,
                        user_label: copy_path(&l.user_label),
                        excluded: l.excluded,
                    };
                    self.replace_layer(index, layer);
                }
                Action::Nothing
            },
            Event::ResetLayerOverride(index) => {
                if index < self.stackup.layers.len() {
                    let l = &self.stackup.layers[index];
                    let layer = LayerFile {
                        path: l.path.clone(),
                        auto_category: l.auto_category,
                        auto_side: l.auto_side,
                        user_category: None,
                        user_side: None,
                        user_label: copy_path(&l.user_label),
                        excluded: l.excluded,
                    };
                    self.replace_layer(index, layer);
                }
                Action::Nothing
            },
            _ => Action::Nothing,
        }
    }

    /// Answers the events about the layer pictures.
    fn on_pictures(&mut self, event: Event) -> (r: Action)
        requires
            event is LoadPng || event is LoadTopPngPicked || event is LoadBottomPng
                || event is LoadBottomPngPicked || event is ConvertToPng || event is ConvertToPngFinished
                || event is SaveCopperPng || event is SaveCopperBottomPng || event is SaveDrillPng
                || event is SaveOutlinePng || event is SaveAllPngs || event is SaveAllPngsFinished
                || event is SavePngPathPicked || event is PngCopied || event is ClearPng,
        ensures
            handles(*old(self), event, *final(self), r),
    {
        proof {
            reveal(handles);
        }
        match event {
            Event::LoadPng => Action::PickTopPng,
            Event::LoadTopPngPicked(None) => Action::Nothing,
            Event::LoadTopPngPicked(Some(path)) => {
                self.loaded_top_png_path = Some(path);
                self.generated_pngs = None;
                self.gerber_to_png = StepState::Idle;
                self.gcode_stale = self.png_to_gcode == StepState::Complete;
                self.png_to_gcode = StepState::Ready;
                self.status = String::from_str("Top PNG loaded. Ready to generate G-code.");
                Action::Nothing
            },
            Event::LoadBottomPng => Action::PickBottomPng,
            Event::LoadBottomPngPicked(None) => Action::Nothing,
            Event::LoadBottomPngPicked(Some(path)) => {
                self.loaded_bottom_png_path = Some(path);
                self.generated_pngs = None;
                self.gerber_to_png = StepState::Idle;
                self.gcode_stale = self.png_to_gcode == StepState::Complete;
                self.png_to_gcode = StepState::Ready;
                self.status = String::from_str("Bottom PNG loaded. Ready to generate G-code.");
                Action::Nothing
            },
            Event::ConvertToPng => self.convert(),
            Event::ConvertToPngFinished(Ok(layers)) => {
                let top = layers.copper_top.path.clone();
                let bottom = layers.copper_bottom.path.clone();
                let text = rendered_text(&layers);
                self.generated_pngs = Some(layers);
                self.gerber_to_png = StepState::Complete;
                self.rasterize_stale = false;
                self.png_to_gcode = StepState::Ready;
                self.loaded_top_png_path = Some(top);
                self.loaded_bottom_png_path = Some(bottom);
                self.status = text;
                Action::Nothing
            },
            Event::ConvertToPngFinished(Err(err)) => {
                self.gerber_to_png = StepState::Ready;
                let mut text = String::from_str("Rendering failed: ");
                text.append(err.as_str());
                self.status = text;
                Action::Nothing
            },
            Event::SaveCopperPng => self.save_png(0, "traces_top.png", "Save top traces PNG"),
            Event::SaveCopperBottomPng => self.save_png(1, "traces_bot.png", "Save bottom traces PNG"),
            Event::SaveDrillPng => self.save_png(2, "drills.png", "Save drills PNG"),
            Event::SaveOutlinePng => self.save_png(3, "outline.png", "Save board outline PNG"),
            Event::SaveAllPngs => {
                let pngs = match &self.generated_pngs {
                    Some(p) => copy_results(p),
                    None => {
                        self.say("Run the conversion before saving PNGs.");
                        return Action::Nothing;
                    },
                };
                Action::PickPngFolder(pngs)
            },
            Event::SaveAllPngsFinished(None, _) => Action::Nothing,
            Event::SaveAllPngsFinished(Some(dir), p) => {
                let mut text = String::from_str("Saved 4 PNGs to ");
                text.append(dir.as_str());
                text.append(".");
                self.status = text;
                let mut copies: Vec<(String, String)> = Vec::new();
                copies.push((p.copper_top.path, String::from_str("traces_top.png")));
                copies.push((p.copper_bottom.path, String::from_str("traces_bot.png")));
                copies.push((p.drills.path, String::from_str("drills.png")));
                copies.push((p.outline.path, String::from_str("outline.png")));
                Action::CopyPngs { dir, copies }
            },
            Event::SavePngPathPicked(None, _) => {
                self.say("Save canceled.");
                Action::Nothing
            },
            Event::SavePngPathPicked(Some(dest), source) => Action::CopyPng { source, dest },
            Event::PngCopied(dest, Ok(())) => {
                let mut text = String::from_str("Saved PNG to ");
                text.append(dest.as_str());
                text.append(".");
                self.status = text;
                Action::Nothing
            },
            Event::PngCopied(_, Err(err)) => {
                let mut text = String::from_str("Failed to save PNG: ");
                text.append(err.as_str());
                self.status = text;
                Action::Nothing
            },
            Event::ClearPng => {
                self.loaded_top_png_path = None;
                self.loaded_bottom_png_path = None;
                self.generated_pngs = None;
                self.generated_top_gcode = None;
                self.generated_bottom_gcode = None;
                self.gerber_to_png = StepState::Idle;
                self.png_to_gcode = StepState::Ready;
                self.gcode_stale = self.png_to_gcode == StepState::Complete;
                Action::Nothing
            },
            _ => Action::Nothing,
        }
    }

    /// Answers the events about the G-code.
    fn on_gcode(&mut self, event: Event) -> (r: Action)
        requires
            event is GenerateGcode || event is GenerateGcodeFinished || event is GenerateBothGcode
                || event is GenerateBothGcodeFinished || event is SaveGcode || event is GcodeSavePathPicked
                || event is GcodeWritten || event is SwitchGcodeSide,
        ensures
            handles(*old(self), event, *final(self), r),
    {
        proof {
            reveal(handles);
        }
        match event {
            Event::GenerateGcode => self.generate(),
            Event::GenerateGcodeFinished(Ok(g)) => {
                let side = self.active_gcode_side;
                let text = generated_text(side, &g);
                let shown_time = clock_text(g.estimated_secs);
                let shown_cut = g.cut_distance.clone();
                let shown_size = g.board_dimensions.clone();
                match side {
                    GcodeSide::Top => self.generated_top_gcode = Some(g),
                    GcodeSide::Bottom => self.generated_bottom_gcode = Some(g),
                }
                self.png_to_gcode = StepState::Complete;
                self.gcode_stale = false;
                self.estimated_time = shown_time;
                self.cut_distance = shown_cut;
                self.board_dimensions = shown_size;
                self.status = text;
                Action::Nothing
            },
            Event::GenerateGcodeFinished(Err(err)) => {
                self.png_to_gcode = StepState::Ready;
                let mut text = String::from_str("G-code generation failed: ");
                text.append(err.as_str());
                self.status = text;
                Action::Nothing
            },
            Event::GenerateBothGcode => self.generate_both(),
            Event::GenerateBothGcodeFinished(Ok((top, bottom))) => {
                self.generated_top_gcode = Some(top);
                self.generated_bottom_gcode = Some(bottom);
                self.png_to_gcode = StepState::Complete;
                self.gcode_stale = false;
                let side = self.active_gcode_side;
                self.show_summary_of(side);
                self.status = String::from_str("Generated G-code for both sides.");
                Action::Nothing
            },
            Event::GenerateBothGcodeFinished(Err(err)) => {
                self.png_to_gcode = StepState::Ready;
                let mut text = String::from_str("G-code generation failed: ");
                text.append(err.as_str());
                self.status = text;
                Action::Nothing
            },
            Event::SaveGcode => {
                let has_gcode = match self.active_gcode_side {
                    GcodeSide::Top => self.generated_top_gcode.is_some(),
                    GcodeSide::Bottom => self.generated_bottom_gcode.is_some(),
                };
                if !has_gcode {
                    self.say("Run the pipeline before saving G-code.");
                    return Action::Nothing;
                }
                let file_name = match self.active_gcode_side {
                    GcodeSide::Top => String::from_str("output_top.gcode"),
                    GcodeSide::Bottom => String::from_str("output_bot.gcode"),
                };
                Action::PickGcodeDestination { file_name }
            },
            Event::GcodeSavePathPicked(None) => {
                self.say("Save canceled.");
                Action::Nothing
            },
            Event::GcodeSavePathPicked(Some(path)) => {
                let has_gcode = match self.active_gcode_side {
                    GcodeSide::Top => self.generated_top_gcode.is_some(),
                    GcodeSide::Bottom => self.generated_bottom_gcode.is_some(),
                };
                if has_gcode {
                    Action::WriteGcode { path, side: self.active_gcode_side }
                } else {
                    self.say("No generated G-code available to save.");
                    Action::Nothing
                }
            },
            Event::GcodeWritten(path, Ok(())) => {
                let mut text = String::from_str("Saved generated G-code to ");
                text.append(path.as_str());
                text.append(".");
                self.status = text;
                Action::Nothing
            },
            Event::GcodeWritten(_, Err(err)) => {
                let mut text = String::from_str("Failed to save G-code: ");
                text.append(err.as_str());
                self.status = text;
                Action::Nothing
            },
            Event::SwitchGcodeSide(side) => {
                self.active_gcode_side = side;
                self.gcode_side_indicator = match side {
                    GcodeSide::Top => String::from_str("Top"),
                    GcodeSide::Bottom => String::from_str("Bottom"),
                };
                self.show_summary_of(side);
                Action::Nothing
            },
            _ => Action::Nothing,
        }
    }

    /// Answers the events that change settings and the view.
    fn on_settings(&mut self, event: Event) -> (r: Action)
        requires
            event is MirrorBottomToggled || event is MirrorTopToggled || event is Reset || event is DpiChanged
                || event is GcodeSettingChanged || event is StepToggled || event is SettingsGroupToggled
                || event is OpenInMods || event is ModsServerStarted,
        ensures
            handles(*old(self), event, *final(self), r),
    {
        proof {
            reveal(handles);
        }
        match event {
            Event::MirrorBottomToggled(v) => {
                self.mirror_bottom = v;
                self.rasterize_stale = self.gerber_to_png == StepState::Complete;
                self.gcode_stale = self.png_to_gcode == StepState::Complete;
                Action::Nothing
            },
            Event::MirrorTopToggled(v) => {
                self.mirror_top = v;
                self.rasterize_stale = self.gerber_to_png == StepState::Complete;
                self.gcode_stale = self.png_to_gcode == StepState::Complete;
                Action::Nothing
            },
            Event::Reset => {
                *self = PipelineState::new();
                Action::Nothing
            },
            Event::DpiChanged(v) => {
                self.dpi_input = v;
                self.rasterize_stale = self.gerber_to_png == StepState::Complete;
                self.gcode_stale = self.png_to_gcode == StepState::Complete;
                Action::Nothing
            },
            Event::GcodeSettingChanged(field, v) => {
                match field {
                    GcodeField::CutZ => self.cut_z_mm_input = v,
                    GcodeField::SafeZ => self.safe_z_mm_input = v,
                    GcodeField::FeedRate => self.feed_rate_input = v,
                    GcodeField::PlungeRate => self.plunge_rate_input = v,
                    GcodeField::SpindleSpeed => self.spindle_speed_input = v,
                    GcodeField::ToolDiameter => self.tool_diameter_mm_input = v,
                    GcodeField::OffsetNumber => self.offset_number_input = v,
                    GcodeField::OffsetStepover => self.offset_stepover_input = v,
                }
                self.gcode_stale = self.png_to_gcode == StepState::Complete;
                Action::Nothing
            },
            Event::StepToggled(k) => {
                self.expanded_step = if self.expanded_step == Some(k) { None } else { Some(k) };
                Action::Nothing
            },
            Event::OpenInMods(path) => match self.mods_server_port {
                Some(port) => Action::OpenUrl(mods_url_text(port, &path)),
                None => {
                    self.pending_mods_open = Some(path);
                    Action::StartModsServer
                },
            },
            Event::ModsServerStarted(port) => {
                self.mods_server_port = Some(port);
                let pending = self.pending_mods_open.take();
                match pending {
                    Some(path) => Action::OpenUrl(mods_url_text(port, &path)),
                    None => Action::Nothing,
                }
            },
            Event::SettingsGroupToggled(i) => {
                if i < 4 {
                    self.settings_groups_open[i] = !self.settings_groups_open[i];
                }
                Action::Nothing
            },
            _ => Action::Nothing,
        }
    }

    /// Answers the events that run steps again, or all that are due.
    fn on_runs(&mut self, event: Event) -> (r: Action)
        requires
            event is ReRunRasterize || event is ReRunGcode || event is RunAll,
        ensures
            handles(*old(self), event, *final(self), r),
    {
        proof {
            reveal(handles);
        }
        match event {
            Event::ReRunRasterize => {
                self.rasterize_stale = false;
                self.gcode_stale = self.png_to_gcode == StepState::Complete;
                self.convert()
            },
            Event::ReRunGcode => {
                self.gcode_stale = false;
                self.generate()
            },
            Event::RunAll => {
                let (top, bottom, outline, drill) = render_inputs(&self.stackup);
                let has_gerbers = top.len() > 0 || bottom.len() > 0 || outline.len() > 0 || drill.len() > 0;
                let rasterize_needed = has_gerbers && (self.gerber_to_png != StepState::Complete
                    || self.rasterize_stale);
                let has_both = self.loaded_top_png_path.is_some() && self.loaded_bottom_png_path.is_some();
                let has_any = self.loaded_top_png_path.is_some() || self.loaded_bottom_png_path.is_some();
                let gcode_needed = has_any && (self.png_to_gcode != StepState::Complete || self.gcode_stale);
                if rasterize_needed {
                    self.rasterize_stale = false;
                    self.convert()
                } else if gcode_needed && has_both {
                    self.gcode_stale = false;
                    self.generate_both()
                } else if gcode_needed {
                    self.gcode_stale = false;
                    self.generate()
                } else {
                    Action::Nothing
                }
            },

            _ => Action::Nothing,
        }
    }

    /// Answers an event: updates the state and says what the caller is
    /// to do next.
    pub fn update(&mut self, event: Event) -> (r: Action)
        ensures
            handles(*old(self), event, *final(self), r),
    {
        match event {
            Event::GerberFilesPicked { .. }
            | Event::FileDropped { .. }
            | Event::OverrideLayer { .. }
            | Event::RemoveFile { .. }
            | Event::ToggleLayerExclude { .. }
            | Event::EditLayerToggle { .. }
            | Event::SetLayerCategory { .. }
            | Event::SetLayerSide { .. }
            | Event::ResetLayerOverride { .. }
            | Event::SelectGerberFiles { .. } => self.on_layers(event),
            Event::LoadPng { .. }
            | Event::LoadTopPngPicked { .. }
            | Event::LoadBottomPng { .. }
            | Event::LoadBottomPngPicked { .. }
            | Event::ConvertToPng { .. }
            | Event::ConvertToPngFinished { .. }
            | Event::SaveCopperPng { .. }
            | Event::SaveCopperBottomPng { .. }
            | Event::SaveDrillPng { .. }
            | Event::SaveOutlinePng { .. }
            | Event::SaveAllPngs { .. }
            | Event::SaveAllPngsFinished { .. }
            | Event::SavePngPathPicked { .. }
            | Event::PngCopied { .. }
            | Event::ClearPng { .. } => self.on_pictures(event),
            Event::GenerateGcode { .. }
            | Event::GenerateGcodeFinished { .. }
            | Event::GenerateBothGcode { .. }
            | Event::GenerateBothGcodeFinished { .. }
            | Event::SaveGcode { .. }
            | Event::GcodeSavePathPicked { .. }
            | Event::GcodeWritten { .. }
            | Event::SwitchGcodeSide { .. } => self.on_gcode(event),
            Event::MirrorBottomToggled { .. }
            | Event::MirrorTopToggled { .. }
            | Event::Reset { .. }
            | Event::DpiChanged { .. }
            | Event::GcodeSettingChanged { .. }
            | Event::StepToggled { .. }
            | Event::SettingsGroupToggled { .. }
            | Event::OpenInMods { .. }
            | Event::ModsServerStarted { .. } => self.on_settings(event),
            Event::ReRunRasterize { .. }
            | Event::ReRunGcode { .. }
            | Event::RunAll { .. } => self.on_runs(event),
        }
    }
}

/// The event that saves the picture at position `k` of a picture set
/// (top copper, bottom copper, drills, outline) on its own.
pub open spec fn single_save(k: int) -> Event {
    if k == 0 {
        Event::SaveCopperPng
    } else if k == 1 {
        Event::SaveCopperBottomPng
    } else if k == 2 {
        Event::SaveDrillPng
    } else {
        Event::SaveOutlinePng
    }
}

proof fn lemma_copy_names_are_suffixes()
    ensures
        "_traces_top.png"@.skip(1) == "traces_top.png"@,
        "_traces_bot.png"@.skip(1) == "traces_bot.png"@,
        "_drills.png"@.skip(1) == "drills.png"@,
        "_outline.png"@.skip(1) == "outline.png"@,
{
    reveal_strlit("_traces_top.png");
    reveal_strlit("_traces_bot.png");
    reveal_strlit("_drills.png");
    reveal_strlit("_outline.png");
    reveal_strlit("traces_top.png");
    reveal_strlit("traces_bot.png");
    reveal_strlit("drills.png");
    reveal_strlit("outline.png");
    assert("_traces_top.png"@.skip(1) =~= "traces_top.png"@);
    assert("_traces_bot.png"@.skip(1) =~= "traces_bot.png"@);
    assert("_drills.png"@.skip(1) =~= "drills.png"@);
    assert("_outline.png"@.skip(1) =~= "outline.png"@);
}

/// Saving all pictures names each copy after the picture it copies, as
/// saving that picture alone would: the `k`-th copy has the source and
/// the file name that the `k`-th single save proposes, which is the name
/// suffix the `k`-th layer picture was rendered with (see `layer_plans`)
/// without its leading `_`; no two copies share a name.
pub proof fn lemma_save_all_names_like_single_saves(
    s: PipelineState,
    dir: String,
    p: PngLayerResults,
    n: PipelineState,
    r: Action,
    k: int,
    n2: PipelineState,
    r2: Action,
)
    requires
        s.generated_pngs == Some(p),
        0 <= k < 4,
        handles(s, Event::SaveAllPngsFinished(Some(dir), p), n, r),
        handles(s, single_save(k), n2, r2),
    ensures
        r is CopyPngs,
        r2 is PickPngDestination,
        r->copies@.len() == 4,
        r->copies@[k].0 == r2->PickPngDestination_source,
        r->copies@[k].1@ == r2->PickPngDestination_file_name@,
        forall|i: int, j: int| 0 <= i < j < 4 ==> r->copies@[i].1@ != r->copies@[j].1@,
        forall|mirror_top: bool, mirror_bottom: bool|
            #![trigger layer_plans_spec(mirror_top, mirror_bottom)]
            r->copies@[k].1@ == layer_plans_spec(mirror_top, mirror_bottom)[k].1.skip(1),
{
    reveal(handles);
    lemma_copy_names_are_suffixes();
    reveal_strlit("traces_top.png");
    reveal_strlit("traces_bot.png");
    reveal_strlit("drills.png");
    reveal_strlit("outline.png");
    assert("traces_top.png"@[7] != "traces_bot.png"@[7]);
    assert("traces_top.png"@.len() != "drills.png"@.len());
    assert("traces_top.png"@.len() != "outline.png"@.len());
    assert("traces_bot.png"@.len() != "drills.png"@.len());
    assert("traces_bot.png"@.len() != "outline.png"@.len());
    assert("drills.png"@[0] != "outline.png"@[0]);
}

/// The listing of the loaded files always follows the stackup: if it
/// lists the stackup before an event, it lists it after.
pub proof fn lemma_listing_follows_stackup(s: PipelineState, e: Event, n: PipelineState, r: Action)
    requires
        lists_stackup(s.stackup.layers@, s.loaded_inputs@),
        handles(s, e, n, r),
    ensures
        lists_stackup(n.stackup.layers@, n.loaded_inputs@),
{
    reveal(handles);
}

/// Removing a file keeps the layer being edited: the edited index,
/// moved down past the removed file, names the same layer as before.
pub proof fn lemma_removal_keeps_edited_layer(s: PipelineState, index: usize, n: PipelineState, r: Action, i: usize)
    requires
        handles(s, Event::RemoveFile { index }, n, r),
        index < s.stackup.layers@.len(),
        s.editing_layer == Some(i),
        i < s.stackup.layers@.len(),
        i != index,
    ensures
        n.editing_layer matches Some(j) && j < n.stackup.layers@.len() && n.stackup.layers@[j as int]
            == s.stackup.layers@[i as int],
{
    reveal(handles);
}

/// Stale results are not thrown away: an event that marks the pictures
/// stale keeps them, and one that marks the G-code stale keeps the
/// G-code of both sides.
pub proof fn lemma_stale_results_kept(s: PipelineState, e: Event, n: PipelineState, r: Action)
    requires
        handles(s, e, n, r),
    ensures
        !s.rasterize_stale && n.rasterize_stale ==> n.generated_pngs == s.generated_pngs,
        !s.gcode_stale && n.gcode_stale ==> n.generated_top_gcode == s.generated_top_gcode
            && n.generated_bottom_gcode == s.generated_bottom_gcode,
{
    reveal(handles);
}

} // verus!
