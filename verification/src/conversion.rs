//! The integer decisions of the Gerber to PNG stage: which files are
//! rendered into which layer, how large the raster may be, how each
//! layer picture is finished and named, and what the results hold.
use vstd::prelude::*;
use vstd::string::StringExecFns;
use crate::gerber::LayerType;
use crate::raster::{
    count_below, count_dark_pixels, flip_horizontal, flood_fill_holes, holes_filled, invert_image_gray, inverted,
    GrayImage,
};
use crate::text::{file_stem, file_stem_of, final_name, only_slashes, portable_path};

verus! {

broadcast use vstd::string::group_string_axioms;

/// One rendered layer picture.
#[derive(Debug, Clone)]
pub struct PngRenderResult {
    pub path: String,
    pub width: u32,
    pub height: u32,
    pub dark_pixels: usize,
}

/// The four rendered layer pictures of a board.
#[derive(Debug, Clone)]
pub struct PngLayerResults {
    pub copper_top: PngRenderResult,
    pub copper_bottom: PngRenderResult,
    pub drills: PngRenderResult,
    pub outline: PngRenderResult,
}

/// Why a conversion did not produce its output.
#[derive(Debug, Clone, PartialEq, Eq)]
pub enum ConversionError {
    /// No input file was given.
    EmptyInput,
    /// The inputs hold no geometry that can be drawn.
    NoRenderableGerber,
    /// A Gerber file could not be read.
    GerberParseError(String),
    /// The raster would have more pixels than allowed.
    RenderTooLarge { width: u32, height: u32, pixels: u64, max_pixels: u64 },
}

/// The size of the raster: each side at least one pixel, and the
/// pixel count within the limit.
pub open spec fn render_size(width: u32, height: u32, max_pixels: u64) -> Result<(u32, u32, u64), ConversionError> {
    let w: u32 = if width < 1 { 1 } else { width };
    let h: u32 = if height < 1 { 1 } else { height };
    if w * h > max_pixels {
        Err(ConversionError::RenderTooLarge { width: w, height: h, pixels: (w * h) as u64, max_pixels })
    } else {
        Ok((w, h, (w * h) as u64))
    }
}

/// Checks the raster size against the pixel limit before anything is
/// allocated; sides of zero pixels are raised to one.
pub fn check_render_size(width: u32, height: u32, max_pixels: u64) -> (r: Result<(u32, u32, u64), ConversionError>)
    ensures
        r == render_size(width, height, max_pixels),
{
    let w = if width < 1 { 1 } else { width };
    let h = if height < 1 { 1 } else { height };
    assert((w as u64) * (h as u64) <= u64::MAX) by (nonlinear_arith)
        requires
            w <= u32::MAX,
            h <= u32::MAX,
    ;
    let pixels = (w as u64) * (h as u64);
    if pixels > max_pixels {
        Err(ConversionError::RenderTooLarge { width: w, height: h, pixels, max_pixels })
    } else {
        Ok((w, h, pixels))
    }
}

/// The input files in the order they are read, each with the layer its
/// geometry goes to: top copper, bottom copper, outline, drill.
pub open spec fn jobs_of(
    copper_top: Seq<String>,
    copper_bottom: Seq<String>,
    outline: Seq<String>,
    drill: Seq<String>,
) -> Seq<(String, LayerType)> {
    copper_top.map_values(|p: String| (p, LayerType::CopperTop)) + copper_bottom.map_values(
        |p: String| (p, LayerType::CopperBottom),
    ) + outline.map_values(|p: String| (p, LayerType::Profile)) + drill.map_values(
        |p: String| (p, LayerType::Drill),
    )
}

fn append_tagged(jobs: &mut Vec<(String, LayerType)>, paths: &Vec<String>, layer: LayerType)
    ensures
        final(jobs)@ == old(jobs)@ + paths@.map_values(|p: String| (p, layer)),
{
    let ghost start = jobs@;
    let mut i: usize = 0;
    while i < paths.len()
        invariant
            i <= paths@.len(),
            jobs@ == start + paths@.take(i as int).map_values(|p: String| (p, layer)),
        decreases paths.len() - i,
    {
        jobs.push((paths[i].clone(), layer));
        assert(paths@.take(i + 1).map_values(|p: String| (p, layer)) =~= paths@.take(i as int).map_values(
            |p: String| (p, layer),
        ).push((paths@[i as int], layer)));
        assert(jobs@ =~= start + paths@.take(i + 1).map_values(|p: String| (p, layer)));
        i += 1;
    }
    assert(paths@.take(paths@.len() as int) =~= paths@);
}

/// The files to read for a render, each with its layer, or
/// `EmptyInput` when no file was given at all.
pub fn render_jobs(
    copper_top: &Vec<String>,
    copper_bottom: &Vec<String>,
    outline: &Vec<String>,
    drill: &Vec<String>,
) -> (r: Result<Vec<(String, LayerType)>, ConversionError>)
    ensures
        copper_top@.len() == 0 && copper_bottom@.len() == 0 && outline@.len() == 0 && drill@.len() == 0 ==> r
            == Err::<Vec<(String, LayerType)>, ConversionError>(ConversionError::EmptyInput),
        !(copper_top@.len() == 0 && copper_bottom@.len() == 0 && outline@.len() == 0 && drill@.len() == 0) ==> (r
            matches Ok(jobs) && jobs@ == jobs_of(copper_top@, copper_bottom@, outline@, drill@)),
{
    if copper_top.len() == 0 && copper_bottom.len() == 0 && outline.len() == 0 && drill.len() == 0 {
        return Err(ConversionError::EmptyInput);
    }
    let mut jobs: Vec<(String, LayerType)> = Vec::new();
    append_tagged(&mut jobs, copper_top, LayerType::CopperTop);
    append_tagged(&mut jobs, copper_bottom, LayerType::CopperBottom);
    append_tagged(&mut jobs, outline, LayerType::Profile);
    append_tagged(&mut jobs, drill, LayerType::Drill);
    assert(jobs@ =~= jobs_of(copper_top@, copper_bottom@, outline@, drill@));
    Ok(jobs)
}

/// How one layer picture is produced: which geometry, the file name
/// suffix, and the finishing steps.
#[derive(Debug, Clone, Copy, PartialEq, Eq)]
pub struct LayerPlan {
    pub layer: LayerType,
    pub suffix: &'static str,
    pub invert: bool,
    pub flood_fill: bool,
    pub mirror: bool,
}

/// The four layer pictures, in the order they are rendered: top copper
/// and bottom copper (each mirrored when asked), drills (inverted),
/// outline (holes filled).
pub open spec fn layer_plans_spec(mirror_top: bool, mirror_bottom: bool) -> Seq<(LayerType, Seq<char>, bool, bool, bool)> {
    seq![
        (LayerType::CopperTop, "_traces_top.png"@, false, false, mirror_top),
        (LayerType::CopperBottom, "_traces_bot.png"@, false, false, mirror_bottom),
        (LayerType::Drill, "_drills.png"@, true, false, false),
        (LayerType::Profile, "_outline.png"@, false, true, false),
    ]
}

pub open spec fn plan_view(p: LayerPlan) -> (LayerType, Seq<char>, bool, bool, bool) {
    (p.layer, p.suffix@, p.invert, p.flood_fill, p.mirror)
}

pub fn layer_plans(mirror_top: bool, mirror_bottom: bool) -> (r: Vec<LayerPlan>)
    ensures
        r@.map_values(|p: LayerPlan| plan_view(p)) == layer_plans_spec(mirror_top, mirror_bottom),
{
    let r = vec![
        LayerPlan {
            layer: LayerType::CopperTop,
            suffix: "_traces_top.png",
            invert: false,
            flood_fill: false,
            mirror: mirror_top,
        },
        LayerPlan {
            layer: LayerType::CopperBottom,
            suffix: "_traces_bot.png",
            invert: false,
            flood_fill: false,
            mirror: mirror_bottom,
        },
        LayerPlan { layer: LayerType::Drill, suffix: "_drills.png", invert: true, flood_fill: false, mirror: false },
        LayerPlan { layer: LayerType::Profile, suffix: "_outline.png", invert: false, flood_fill: true, mirror: false },
    ];
    assert(r@.map_values(|p: LayerPlan| plan_view(p)) =~= layer_plans_spec(mirror_top, mirror_bottom));
    r
}

/// Each layer picture is drawn from the geometry its name promises and
/// finished as that layer needs: the four plans cover the four layers
/// once each; `_traces_top.png` is the top copper, mirrored when
/// `mirror_top` asks, `_traces_bot.png` the bottom copper, mirrored when
/// `mirror_bottom` asks, `_drills.png` the drills, inverted, and
/// `_outline.png` the profile, with its holes filled.
pub proof fn lemma_plans_match_their_names(mirror_top: bool, mirror_bottom: bool)
    ensures
        ({
            let plans = layer_plans_spec(mirror_top, mirror_bottom);
            &&& plans.len() == 4
            &&& forall|i: int, j: int| 0 <= i < j < 4 ==> plans[i].0 != plans[j].0
            &&& forall|i: int|
                0 <= i < 4 ==> {
                    let (layer, suffix, invert, flood_fill, mirror) = #[trigger] plans[i];
                    &&& (suffix == "_traces_top.png"@ <==> layer == LayerType::CopperTop)
                    &&& (suffix == "_traces_bot.png"@ <==> layer == LayerType::CopperBottom)
                    &&& (suffix == "_drills.png"@ <==> layer == LayerType::Drill)
                    &&& (suffix == "_outline.png"@ <==> layer == LayerType::Profile)
                    &&& invert == (layer == LayerType::Drill)
                    &&& flood_fill == (layer == LayerType::Profile)
                    &&& mirror == ((layer == LayerType::CopperTop && mirror_top) || (layer
                        == LayerType::CopperBottom && mirror_bottom))
                }
        }),
{
    reveal_strlit("_traces_top.png");
    reveal_strlit("_traces_bot.png");
    reveal_strlit("_drills.png");
    reveal_strlit("_outline.png");
    let plans = layer_plans_spec(mirror_top, mirror_bottom);
    assert("_traces_top.png"@[8] != "_traces_bot.png"@[8]);
    assert("_traces_top.png"@.len() != "_drills.png"@.len());
    assert("_traces_top.png"@.len() != "_outline.png"@.len());
    assert("_traces_bot.png"@.len() != "_drills.png"@.len());
    assert("_traces_bot.png"@.len() != "_outline.png"@.len());
    assert("_drills.png"@[1] != "_outline.png"@[1]);
}

/// The file name of a layer picture: the output stem followed by the
/// layer's suffix.
pub fn layer_file_name(stem: &str, suffix: &str) -> (r: String)
    ensures
        r@ == stem@ + suffix@,
{
    let s = String::from_str(stem);
    s.concat(suffix)
}

/// The image mirrored left to right.
pub open spec fn is_mirror(a: GrayImage, b: GrayImage) -> bool {
    &&& b.wf()
    &&& b.width == a.width
    &&& b.height == a.height
    &&& forall|x: int, y: int| b.in_bounds(x, y) ==> #[trigger] b.px(x, y) == a.px(a.width - 1 - x, y)
}

/// `a` is the picture after mirroring, `b` after inverting, `out` after
/// hole filling, each step done only when asked.
pub open spec fn finish_stages(
    image: GrayImage,
    a: GrayImage,
    b: GrayImage,
    out: GrayImage,
    mirror: bool,
    invert: bool,
    flood_fill: bool,
) -> bool {
    &&& (if mirror { is_mirror(image, a) } else { a == image })
    &&& b.width == a.width && b.height == a.height
    &&& b.pixels@ == (if invert { inverted(a.pixels@) } else { a.pixels@ })
    &&& (if flood_fill { holes_filled(b, out) } else { out == b })
}

/// Finishes a rendered layer picture: mirror it when asked, then invert
/// it when asked, then fill its holes when asked; returns the picture and
/// the number of its pixels darker than `threshold`.
pub fn finish_layer(image: GrayImage, mirror: bool, invert: bool, flood_fill: bool, threshold: u8) -> (r: (
    GrayImage,
    usize,
))
    requires
        image.wf(),
        flood_fill ==> image.width * image.height <= u32::MAX,
        flood_fill ==> (image.width == 0) == (image.height == 0),
    ensures
        exists|a: GrayImage, b: GrayImage| #[trigger] finish_stages(image, a, b, r.0, mirror, invert, flood_fill),
        r.1 == count_below(r.0.pixels@, threshold),
{
    let a = if mirror { flip_horizontal(&image) } else { image };
    let ghost ga = a;
    let mut b = a;
    if invert {
        invert_image_gray(&mut b);
    }
    let ghost gb = b;
    proof {
        assert(b.wf());
    }
    let c = if flood_fill { flood_fill_holes(&b) } else { b };
    let dark = count_dark_pixels(&c, threshold);
    proof {
        assert(if mirror { is_mirror(image, ga) } else { ga == image });
        assert(gb.width == ga.width && gb.height == ga.height);
        assert(gb.pixels@ == (if invert { inverted(ga.pixels@) } else { ga.pixels@ }));
        assert(if flood_fill { holes_filled(gb, c) } else { c == gb });
        assert(finish_stages(image, ga, gb, c, mirror, invert, flood_fill));
    }
    let result = (c, dark);
    assert(finish_stages(image, ga, gb, result.0, mirror, invert, flood_fill));
    assert(result.1 == count_below(result.0.pixels@, threshold));
    result
}

/// Whether the milling run makes another offset pass after
/// `passes_done` of them: a positive `offset_number` is the number of
/// passes, and zero asks for passes until one finds no contour.
pub fn another_offset_pass(offset_number: u32, passes_done: u32) -> (r: bool)
    ensures
        r <==> (offset_number == 0 || passes_done < offset_number),
{
    offset_number == 0 || passes_done < offset_number
}

/// The stem of the first input file, or `output` when there is no input
/// or the path has no stem. For a portable first path (see
/// `portable_path`) it is the stem of its final name (see `final_name`).
pub fn gerber_output_stem(paths: &Vec<String>) -> (r: String)
    ensures
        paths@.len() == 0 ==> r@ == "output"@,
        r@ == "output"@ || forall|i: int| 0 <= i < r@.len() ==> r@[i] != '/',
        paths@.len() > 0 && portable_path(paths@[0]@) ==> r@ == match final_name(paths@[0]@) {
            Some(n) => file_stem(n),
            None => "output"@,
        },
        paths@.len() > 0 && only_slashes(paths@[0]@) ==> r@ == "output"@,
{
    if paths.len() == 0 {
        return String::from_str("output");
    }
    match file_stem_of(paths[0].as_str()) {
        Some(s) => s,
        None => String::from_str("output"),
    }
}

/// The layer pictures stay aligned: finishing a picture (mirroring,
/// inverting, filling holes) keeps its width and height.
pub proof fn lemma_finishing_keeps_size(
    image: GrayImage,
    a: GrayImage,
    b: GrayImage,
    out: GrayImage,
    mirror: bool,
    invert: bool,
    flood_fill: bool,
)
    requires
        finish_stages(image, a, b, out, mirror, invert, flood_fill),
    ensures
        out.width == image.width,
        out.height == image.height,
{
}

} // verus!
