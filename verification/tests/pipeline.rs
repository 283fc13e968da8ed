use easymill::conversion::{PngLayerResults, PngRenderResult};
use easymill::pipeline::{Action, Event, GcodeField, GcodeSide, GcodeSummary, PipelineState, StepState};
use easymill::stackup::{LayerCategory, Side};

fn picture(path: &str, dark: usize) -> PngRenderResult {
    PngRenderResult { path: path.to_string(), width: 20, height: 10, dark_pixels: dark }
}

fn pictures() -> PngLayerResults {
    PngLayerResults {
        copper_top: picture("/r/board_traces_top.png", 5),
        copper_bottom: picture("/r/board_traces_bot.png", 7),
        drills: picture("/r/board_drills.png", 1),
        outline: picture("/r/board_outline.png", 2),
    }
}

fn summary(paths: u64, secs: u64) -> GcodeSummary {
    GcodeSummary {
        paths,
        cut_metres: "1.5".to_string(),
        estimated_secs: secs,
        cut_distance: "1500.0 mm".to_string(),
        board_dimensions: "20.0 x 10.0 mm".to_string(),
    }
}

fn with_two_layers() -> PipelineState {
    let mut s = PipelineState::new();
    let files = vec![
        ("/x/top.gtl".to_string(), LayerCategory::Copper, Side::Top),
        ("/x/edge.gko".to_string(), LayerCategory::Outline, Side::All),
    ];
    s.update(Event::GerberFilesPicked(Some(files)));
    s
}

#[test]
fn new_state_has_the_default_settings() {
    let s = PipelineState::new();
    assert_eq!(s.dpi_input, "1000");
    assert_eq!(s.cut_z_mm_input, "-0.1");
    assert_eq!(s.spindle_speed_input, "12000");
    assert_eq!(s.gcode_side_indicator, "Top");
    assert_eq!(s.estimated_time, "--:--:--");
    assert!(s.mirror_bottom && !s.mirror_top);
    assert_eq!(s.expanded_step, Some(1));
    assert_eq!(s.settings_groups_open, [true, true, false, false]);
    assert_eq!(s.gerber_to_png, StepState::Idle);
}

#[test]
fn picking_files_adds_and_lists_layers() {
    let s = with_two_layers();
    assert_eq!(s.stackup.layers.len(), 2);
    assert_eq!(s.status, "Added 2 files via auto-detect.");
    assert_eq!(s.loaded_inputs, vec!["[Copper+Top] top.gtl".to_string(), "[Outline+All] edge.gko".to_string()]);
    assert_eq!(s.gerber_to_png, StepState::Ready);
}

#[test]
fn dropping_a_file_names_it_in_the_status() {
    let mut s = PipelineState::new();
    let a = s.update(Event::FileDropped("/x/holes.drl".to_string(), LayerCategory::Drill, Side::All));
    assert!(matches!(a, Action::Nothing));
    assert_eq!(s.status, "File dropped: holes.drl");
    assert_eq!(s.loaded_inputs, vec!["[Drill+All] holes.drl".to_string()]);
}

#[test]
fn converting_without_files_asks_for_them() {
    let mut s = PipelineState::new();
    let a = s.update(Event::ConvertToPng);
    assert!(matches!(a, Action::Nothing));
    assert_eq!(s.status, "Load Gerber files before converting.");
    assert_eq!(s.gerber_to_png, StepState::Idle);
}

#[test]
fn converting_hands_the_inputs_to_the_renderer() {
    let mut s = with_two_layers();
    let a = s.update(Event::ConvertToPng);
    match a {
        Action::Render { copper_top, copper_bottom, outline, drill } => {
            assert_eq!(copper_top, vec!["/x/top.gtl".to_string()]);
            assert!(copper_bottom.is_empty());
            assert_eq!(outline, vec!["/x/edge.gko".to_string()]);
            assert!(drill.is_empty());
        }
        other => panic!("unexpected action {other:?}"),
    }
    assert_eq!(s.gerber_to_png, StepState::Running);
    assert_eq!(s.status, "Rendering Gerber to PNG...");
}

#[test]
fn finished_render_reports_its_pictures() {
    let mut s = with_two_layers();
    s.update(Event::ConvertToPng);
    s.update(Event::ConvertToPngFinished(Ok(pictures())));
    assert_eq!(s.status, "Rendered 4 PNGs (20x10). Top: 5 dark px, Bottom: 7 dark px. Ready for G-code.");
    assert_eq!(s.gerber_to_png, StepState::Complete);
    assert_eq!(s.png_to_gcode, StepState::Ready);
    assert_eq!(s.loaded_top_png_path.as_deref(), Some("/r/board_traces_top.png"));
    assert_eq!(s.loaded_bottom_png_path.as_deref(), Some("/r/board_traces_bot.png"));
}

#[test]
fn failed_render_is_reported() {
    let mut s = with_two_layers();
    s.update(Event::ConvertToPng);
    s.update(Event::ConvertToPngFinished(Err("no geometry".to_string())));
    assert_eq!(s.status, "Rendering failed: no geometry");
    assert_eq!(s.gerber_to_png, StepState::Ready);
}

#[test]
fn generated_gcode_is_summed_up() {
    let mut s = PipelineState::new();
    s.update(Event::LoadTopPngPicked(Some("/p/top.png".to_string())));
    assert_eq!(s.status, "Top PNG loaded. Ready to generate G-code.");
    let a = s.update(Event::GenerateGcode);
    assert!(matches!(a, Action::GenerateGcode { ref png } if png == "/p/top.png"));
    s.update(Event::GenerateGcodeFinished(Ok(summary(3, 3725))));
    assert_eq!(s.status, "Generated top G-code: 3 paths, 1.5m cut, est. 01:02:05.");
    assert_eq!(s.estimated_time, "01:02:05");
    assert_eq!(s.cut_distance, "1500.0 mm");
    assert_eq!(s.png_to_gcode, StepState::Complete);
    assert!(s.generated_top_gcode.is_some() && s.generated_bottom_gcode.is_none());
}

#[test]
fn gcode_for_a_side_without_picture_is_refused() {
    let mut s = PipelineState::new();
    s.update(Event::SwitchGcodeSide(GcodeSide::Bottom));
    assert_eq!(s.gcode_side_indicator, "Bottom");
    let a = s.update(Event::GenerateGcode);
    assert!(matches!(a, Action::Nothing));
    assert_eq!(s.status, "Generate a bottom PNG or load one first.");
}

#[test]
fn both_sides_need_both_pictures() {
    let mut s = PipelineState::new();
    s.update(Event::GenerateBothGcode);
    assert_eq!(s.status, "Generate a top PNG first.");
    s.update(Event::LoadTopPngPicked(Some("/p/top.png".to_string())));
    s.update(Event::GenerateBothGcode);
    assert_eq!(s.status, "Generate a bottom PNG first.");
    s.update(Event::LoadBottomPngPicked(Some("/p/bot.png".to_string())));
    let a = s.update(Event::GenerateBothGcode);
    assert!(matches!(a, Action::GenerateBothGcode { ref top, ref bottom } if top == "/p/top.png" && bottom == "/p/bot.png"));
    s.update(Event::GenerateBothGcodeFinished(Ok((summary(2, 59), summary(4, 360000)))));
    assert_eq!(s.status, "Generated G-code for both sides.");
    assert_eq!(s.estimated_time, "00:00:59");
    s.update(Event::SwitchGcodeSide(GcodeSide::Bottom));
    assert_eq!(s.estimated_time, "100:00:00");
}

#[test]
fn saving_gcode_proposes_a_file_name_per_side() {
    let mut s = PipelineState::new();
    s.update(Event::SaveGcode);
    assert_eq!(s.status, "Run the pipeline before saving G-code.");
    s.update(Event::LoadTopPngPicked(Some("/p/top.png".to_string())));
    s.update(Event::GenerateGcode);
    s.update(Event::GenerateGcodeFinished(Ok(summary(1, 1))));
    let a = s.update(Event::SaveGcode);
    assert!(matches!(a, Action::PickGcodeDestination { ref file_name } if file_name == "output_top.gcode"));
    let a = s.update(Event::GcodeSavePathPicked(Some("/out/a.gcode".to_string())));
    assert!(matches!(a, Action::WriteGcode { ref path, side: GcodeSide::Top } if path == "/out/a.gcode"));
    s.update(Event::GcodeWritten("/out/a.gcode".to_string(), Ok(())));
    assert_eq!(s.status, "Saved generated G-code to /out/a.gcode.");
    s.update(Event::GcodeWritten("/out/a.gcode".to_string(), Err("disk full".to_string())));
    assert_eq!(s.status, "Failed to save G-code: disk full");
    s.update(Event::GcodeSavePathPicked(None));
    assert_eq!(s.status, "Save canceled.");
}

#[test]
fn saving_pictures_needs_a_render() {
    let mut s = PipelineState::new();
    let a = s.update(Event::SaveDrillPng);
    assert!(matches!(a, Action::Nothing));
    assert_eq!(s.status, "Run the conversion before saving PNGs.");
    s.update(Event::ConvertToPngFinished(Ok(pictures())));
    let a = s.update(Event::SaveDrillPng);
    assert!(matches!(a, Action::PickPngDestination { ref source, ref file_name, ref title }
        if source == "/r/board_drills.png" && file_name == "drills.png" && title == "Save drills PNG"));
    let a = s.update(Event::SaveAllPngsFinished(Some("/out".to_string()), pictures()));
    match a {
        Action::CopyPngs { dir, copies } => {
            assert_eq!(dir, "/out");
            assert_eq!(copies[1], ("/r/board_traces_bot.png".to_string(), "traces_bot.png".to_string()));
            assert_eq!(copies.len(), 4);
        }
        other => panic!("unexpected action {other:?}"),
    }
    assert_eq!(s.status, "Saved 4 PNGs to /out.");
    s.update(Event::PngCopied("/out/x.png".to_string(), Ok(())));
    assert_eq!(s.status, "Saved PNG to /out/x.png.");
}

#[test]
fn changing_settings_marks_complete_steps_stale() {
    let mut s = with_two_layers();
    s.update(Event::ConvertToPngFinished(Ok(pictures())));
    s.update(Event::GcodeSettingChanged(GcodeField::FeedRate, "500".to_string()));
    assert_eq!(s.feed_rate_input, "500");
    assert!(!s.rasterize_stale && !s.gcode_stale);
    s.update(Event::DpiChanged("1200".to_string()));
    assert!(s.rasterize_stale);
    assert!(!s.gcode_stale);
    let a = s.update(Event::RunAll);
    assert!(matches!(a, Action::Render { .. }));
    assert!(!s.rasterize_stale);
}

#[test]
fn removing_a_file_keeps_the_edited_layer() {
    let mut s = with_two_layers();
    s.update(Event::EditLayerToggle(1));
    assert_eq!(s.editing_layer, Some(1));
    s.update(Event::RemoveFile { index: 0 });
    assert_eq!(s.editing_layer, Some(0));
    assert_eq!(s.stackup.layers[0].path, "/x/edge.gko");
    assert_eq!(s.loaded_inputs, vec!["[Outline+All] edge.gko".to_string()]);
    s.update(Event::RemoveFile { index: 5 });
    assert_eq!(s.stackup.layers.len(), 1);
}

#[test]
fn overriding_to_the_detected_value_clears_the_choice() {
    let mut s = with_two_layers();
    s.update(Event::OverrideLayer { index: 0, category: LayerCategory::Drill, side: Side::Top });
    assert_eq!(s.stackup.layers[0].user_category, Some(LayerCategory::Drill));
    assert_eq!(s.stackup.layers[0].user_side, None);
    assert_eq!(s.loaded_inputs[0], "[Drill+Top] top.gtl");
    s.update(Event::SetLayerCategory { index: 0, category: LayerCategory::Copper });
    assert_eq!(s.stackup.layers[0].user_category, None);
    s.update(Event::SetLayerSide { index: 0, side: Side::Bottom });
    assert_eq!(s.loaded_inputs[0], "[Copper+Bot] top.gtl");
    s.update(Event::ResetLayerOverride(0));
    assert_eq!(s.stackup.layers[0].user_side, None);
}

#[test]
fn mods_opens_once_the_server_runs() {
    let mut s = PipelineState::new();
    let a = s.update(Event::OpenInMods("/r/board_traces_top.png".to_string()));
    assert!(matches!(a, Action::StartModsServer));
    let a = s.update(Event::ModsServerStarted(8080));
    match a {
        Action::OpenUrl(url) => assert_eq!(
            url,
            "https://modsproject.org/?program=programs/machines/G-code/mill+2D+PCB&src=http://127.0.0.1:8080/board_traces_top.png"
        ),
        other => panic!("unexpected action {other:?}"),
    }
    assert_eq!(s.mods_server_port, Some(8080));
    assert!(s.pending_mods_open.is_none());
    let a = s.update(Event::OpenInMods("/r/board_drills.png".to_string()));
    assert!(matches!(a, Action::OpenUrl(ref u) if u.ends_with(":8080/board_drills.png")));
}

#[test]
fn toggles_and_reset() {
    let mut s = PipelineState::new();
    s.update(Event::StepToggled(1));
    assert_eq!(s.expanded_step, None);
    s.update(Event::StepToggled(3));
    assert_eq!(s.expanded_step, Some(3));
    s.update(Event::SettingsGroupToggled(2));
    assert_eq!(s.settings_groups_open, [true, true, true, false]);
    s.update(Event::SettingsGroupToggled(9));
    assert_eq!(s.settings_groups_open, [true, true, true, false]);
    s.update(Event::MirrorTopToggled(true));
    assert!(s.mirror_top);
    s.update(Event::Reset);
    assert!(!s.mirror_top);
    assert_eq!(s.expanded_step, Some(1));
}

#[test]
fn clearing_pictures_drops_results() {
    let mut s = PipelineState::new();
    s.update(Event::ConvertToPngFinished(Ok(pictures())));
    s.update(Event::ClearPng);
    assert!(s.generated_pngs.is_none());
    assert!(s.loaded_top_png_path.is_none());
    assert_eq!(s.gerber_to_png, StepState::Idle);
    assert_eq!(s.png_to_gcode, StepState::Ready);
}

#[test]
fn run_all_does_nothing_when_all_is_done() {
    let mut s = PipelineState::new();
    let a = s.update(Event::RunAll);
    assert!(matches!(a, Action::Nothing));
    let a = s.update(Event::SelectGerberFiles);
    assert!(matches!(a, Action::PickGerberFiles));
}

#[test]
fn excluding_a_layer_keeps_it_out_of_the_render() {
    let mut s = with_two_layers();
    s.update(Event::ConvertToPngFinished(Ok(pictures())));
    s.update(Event::ToggleLayerExclude(0));
    assert!(s.stackup.layers[0].excluded);
    assert!(s.rasterize_stale);
    let a = s.update(Event::ConvertToPng);
    match a {
        Action::Render { copper_top, outline, .. } => {
            assert!(copper_top.is_empty());
            assert_eq!(outline, vec!["/x/edge.gko".to_string()]);
        }
        other => panic!("unexpected action {other:?}"),
    }
    s.update(Event::ToggleLayerExclude(0));
    assert!(!s.stackup.layers[0].excluded);
}

#[test]
fn adding_files_marks_complete_results_stale() {
    let mut s = with_two_layers();
    assert!(!s.rasterize_stale);
    s.update(Event::ConvertToPngFinished(Ok(pictures())));
    s.update(Event::FileDropped("/x/holes.drl".to_string(), LayerCategory::Drill, Side::All));
    assert!(s.rasterize_stale);
    assert_eq!(s.gerber_to_png, StepState::Ready);
}

#[test]
fn stale_results_stay_usable() {
    let mut s = PipelineState::new();
    s.update(Event::ConvertToPngFinished(Ok(pictures())));
    s.update(Event::GenerateGcode);
    s.update(Event::GenerateGcodeFinished(Ok(summary(1, 1))));
    s.update(Event::DpiChanged("600".to_string()));
    assert!(s.rasterize_stale && s.gcode_stale);
    assert!(s.generated_pngs.is_some());
    assert!(s.generated_top_gcode.is_some());
    let a = s.update(Event::SaveGcode);
    assert!(matches!(a, Action::PickGcodeDestination { .. }));
}
