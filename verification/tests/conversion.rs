use easymill::conversion::{
    another_offset_pass, check_render_size, finish_layer, gerber_output_stem, layer_file_name, layer_plans, render_jobs,
    ConversionError,
};
use easymill::gerber::LayerType;
use easymill::raster::GrayImage;

fn paths(v: &[&str]) -> Vec<String> {
    v.iter().map(|s| s.to_string()).collect()
}

#[test]
fn render_size_raises_empty_sides_to_one_pixel() {
    assert_eq!(check_render_size(0, 0, 10), Ok((1, 1, 1)));
    assert_eq!(check_render_size(0, 7, 10), Ok((1, 7, 7)));
}

#[test]
fn render_size_within_the_limit() {
    assert_eq!(check_render_size(100, 100, 10_000), Ok((100, 100, 10_000)));
}

#[test]
fn render_size_over_the_limit_is_refused() {
    assert_eq!(
        check_render_size(100_000, 100_000, 10_000),
        Err(ConversionError::RenderTooLarge {
            width: 100_000,
            height: 100_000,
            pixels: 10_000_000_000,
            max_pixels: 10_000
        })
    );
    assert!(check_render_size(101, 100, 10_000).is_err());
}

#[test]
fn render_jobs_without_input_is_an_error() {
    let none: Vec<String> = Vec::new();
    assert_eq!(render_jobs(&none, &none, &none, &none), Err(ConversionError::EmptyInput));
}

#[test]
fn render_jobs_tag_each_file_with_its_layer() {
    let jobs = render_jobs(&paths(&["t.gtl"]), &paths(&["b.gbl"]), &paths(&["o.gko"]), &paths(&["d.drl", "e.drl"]))
        .unwrap();
    assert_eq!(
        jobs,
        vec![
            ("t.gtl".to_string(), LayerType::CopperTop),
            ("b.gbl".to_string(), LayerType::CopperBottom),
            ("o.gko".to_string(), LayerType::Profile),
            ("d.drl".to_string(), LayerType::Drill),
            ("e.drl".to_string(), LayerType::Drill),
        ]
    );
}

#[test]
fn layer_plans_name_and_finish_the_four_pictures() {
    let plans = layer_plans(false, true);
    let suffixes: Vec<&str> = plans.iter().map(|p| p.suffix).collect();
    assert_eq!(suffixes, vec!["_traces_top.png", "_traces_bot.png", "_drills.png", "_outline.png"]);
    assert!(plans[1].mirror && !plans[0].mirror);
    assert!(plans[2].invert && !plans[3].invert);
    assert!(plans[3].flood_fill && !plans[2].flood_fill);
    assert!(!layer_plans(false, false)[1].mirror);
    assert!(layer_plans(true, false)[0].mirror);
}

#[test]
fn layer_file_name_joins_stem_and_suffix() {
    assert_eq!(layer_file_name("board", "_drills.png"), "board_drills.png");
}

#[test]
fn output_stem_comes_from_the_first_file() {
    assert_eq!(gerber_output_stem(&paths(&["/tmp/x/top.gtl", "/tmp/y/other.gbl"])), "top");
    assert_eq!(gerber_output_stem(&Vec::new()), "output");
}

#[test]
fn output_stem_follows_the_final_name() {
    assert_eq!(gerber_output_stem(&paths(&["a/b/"])), "b");
    assert_eq!(gerber_output_stem(&paths(&["a/board.gtl/."])), "board");
    assert_eq!(gerber_output_stem(&paths(&["a/.."])), "output");
    assert_eq!(gerber_output_stem(&paths(&["/"])), "output");
    assert_eq!(gerber_output_stem(&paths(&["x/.hidden"])), ".hidden");
    assert_eq!(gerber_output_stem(&paths(&["x/a.tar.gz"])), "a.tar");
}

#[test]
fn finish_layer_mirrors_then_inverts() {
    let img = GrayImage::from_raw(3, 1, vec![0, 100, 255]).unwrap();
    let (out, dark) = finish_layer(img, true, true, false, 128);
    assert_eq!(out.pixels, vec![0, 155, 255]);
    assert_eq!(dark, 1);
}

#[test]
fn finish_layer_fills_holes() {
    let mut img = GrayImage::from_pixel(5, 5, 0);
    for y in 1..4 {
        for x in 1..4 {
            img.put_pixel(x, y, 255);
        }
    }
    img.put_pixel(2, 2, 0);
    let (out, dark) = finish_layer(img, false, false, true, 128);
    assert_eq!(out.get_pixel(2, 2), 255);
    assert_eq!(dark, 16);
}

#[test]
fn offset_passes_stop_at_the_asked_number() {
    assert!(another_offset_pass(4, 0));
    assert!(another_offset_pass(4, 3));
    assert!(!another_offset_pass(4, 4));
    assert!(!another_offset_pass(1, 1));
    assert!(another_offset_pass(0, 1000));
}
