//! Rendering one classified icon with resolved fills.
//!
//! The icon's present layers are written, in primary / secondary / overlay
//! order, into a minimal 16-by-16 logical unit SVG scene whose width and
//! height are the target pixel size; rasterising that scene yields the PNG.
//! The scene text is built here and is an exact function of the layers, the
//! fills and the size, so equal inputs always yield equal images.

use vstd::prelude::*;
use vstd::string::{StrSliceExecFns, StringExecFns};
use vstd::utf8::encode_utf8;
use crate::classify::{IconData, LayersView};
use crate::palette::{Fill, FillRuleKind, IconFills, Rgb};
use crate::strutil::{spec_digit_char, spec_nat_string, u32_to_string};
use crate::svg::{raster_result, rasterize_svg};

verus! {

/// The side of the logical scene square, in user units.
pub const LOGICAL_SIZE: u32 = 16;

/// The decimal fraction a fill-opacity attribute carries: "1" for a fully
/// opaque fill, else "0." and six digits of opacity/255, rounded down. Six
/// digits keep the 8-bit value exact when the renderer quantises it back.
pub open spec fn spec_opacity_text(op: u8) -> Seq<char> {
    if op == 255 {
        "1"@
    } else {
        "0."@ + spec_pad6((op as u32) * 1000000 / 255)
    }
}

/// Six decimal digits, zero-padded.
pub open spec fn spec_pad6(v: int) -> Seq<char> {
    seq![
        spec_digit_char(v / 100000 % 10),
        spec_digit_char(v / 10000 % 10),
        spec_digit_char(v / 1000 % 10),
        spec_digit_char(v / 100 % 10),
        spec_digit_char(v / 10 % 10),
        spec_digit_char(v % 10),
    ]
}

/// A colour as a CSS functional notation, decimal channels.
pub open spec fn spec_colour_text(c: Rgb) -> Seq<char> {
    "rgb("@ + spec_nat_string(c.red as int) + ","@ + spec_nat_string(c.green as int) + ","@
        + spec_nat_string(c.blue as int) + ")"@
}

pub open spec fn spec_rule_text(r: FillRuleKind) -> Seq<char> {
    match r {
        FillRuleKind::EvenOdd => "evenodd"@,
        FillRuleKind::NonZero => "nonzero"@,
    }
}

/// One scene layer: a path element carrying the layer's geometry and fill,
/// or nothing when the layer is absent.
pub open spec fn spec_layer_text(d: Option<Seq<char>>, f: Fill) -> Seq<char> {
    match d {
        None => Seq::empty(),
        Some(data) => "<path fill=\""@ + spec_colour_text(f.colour) + "\" fill-opacity=\""@
            + spec_opacity_text(f.opacity) + "\" fill-rule=\""@ + spec_rule_text(f.rule)
            + "\" d=\""@ + data + "\"/>"@,
    }
}

/// The whole scene: a 16-by-16 logical view box sized to the target pixels,
/// holding only the present layers, in primary / secondary / overlay order.
#[verifier::opaque]
pub open spec fn spec_scene_text(layers: LayersView, fills: IconFills, n: u32) -> Seq<char> {
    "<svg xmlns=\"http://www.w3.org/2000/svg\" width=\""@ + spec_nat_string(n as int) + "\" height=\""@
        + spec_nat_string(n as int) + "\" viewBox=\"0 0 16 16\">"@ + spec_layer_text(
        layers.primary,
        fills.primary_fill,
    ) + spec_layer_text(layers.secondary, fills.secondary_fill) + spec_layer_text(
        layers.overlay,
        fills.overlay_fill,
    ) + "</svg>"@
}

/// What rendering a classified icon with the given fills at the given pixel
/// size returns: the PNG bytes, or the rasteriser's failure message. A
/// function of the layers, the fills and the size alone.
pub open spec fn spec_render(layers: LayersView, fills: IconFills, n: u32) -> Result<
    Seq<u8>,
    Seq<char>,
> {
    raster_result(encode_utf8(spec_scene_text(layers, fills, n)), n)
}

/// Why rendering one icon failed.
#[derive(Clone, Debug, PartialEq, Eq)]
pub enum RenderError {
    /// The rasteriser refused the scene or the size; holds its message.
    Rasterise(String),
}

fn opacity_text(op: u8) -> (r: String)
    ensures
        r@ == spec_opacity_text(op),
{
    if op == 255 {
        String::from_str("1")
    } else {
        let v: u32 = (op as u32) * 1000000 / 255;
        let mut s = String::from_str("0.");
        s.append(crate::strutil::u32_to_string(v / 100000 % 10).as_str());
        s.append(crate::strutil::u32_to_string(v / 10000 % 10).as_str());
        s.append(crate::strutil::u32_to_string(v / 1000 % 10).as_str());
        s.append(crate::strutil::u32_to_string(v / 100 % 10).as_str());
        s.append(crate::strutil::u32_to_string(v / 10 % 10).as_str());
        s.append(crate::strutil::u32_to_string(v % 10).as_str());
        proof {
            assert(s@ =~= "0."@ + spec_pad6(v as int));
        }
        s
    }
}

fn colour_text(c: Rgb) -> (r: String)
    ensures
        r@ == spec_colour_text(c),
{
    let mut s = String::from_str("rgb(");
    s.append(u32_to_string(c.red as u32).as_str());
    s.append(",");
    s.append(u32_to_string(c.green as u32).as_str());
    s.append(",");
    s.append(u32_to_string(c.blue as u32).as_str());
    s.append(")");
    s
}

fn rule_text(r: FillRuleKind) -> (t: &'static str)
    ensures
        t@ == spec_rule_text(r),
{
    match r {
        FillRuleKind::EvenOdd => "evenodd",
        FillRuleKind::NonZero => "nonzero",
    }
}

fn layer_text(d: &Option<String>, f: Fill) -> (r: String)
    ensures
        r@ == spec_layer_text(
            match d {
                Some(s) => Some(s@),
                None => None,
            },
            f,
        ),
{
    match d {
        None => String::new(),
        Some(data) => {
            let mut s = String::from_str("<path fill=\"");
            s.append(colour_text(f.colour).as_str());
            s.append("\" fill-opacity=\"");
            s.append(opacity_text(f.opacity).as_str());
            s.append("\" fill-rule=\"");
            s.append(rule_text(f.rule));
            s.append("\" d=\"");
            s.append(data.as_str());
            s.append("\"/>");
            s
        },
    }
}

/// Builds the scene document for one icon at one pixel size.
pub fn scene_text(icon_data: &IconData, fills: &IconFills, n: u32) -> (r: String)
    ensures
        r@ == spec_scene_text(icon_data@, *fills, n),
{
    proof {
        reveal(spec_scene_text);
    }
    let mut s = String::from_str("<svg xmlns=\"http://www.w3.org/2000/svg\" width=\"");
    s.append(u32_to_string(n).as_str());
    s.append("\" height=\"");
    s.append(u32_to_string(n).as_str());
    s.append("\" viewBox=\"0 0 16 16\">");
    s.append(layer_text(&icon_data.primary_path_data, fills.primary_fill).as_str());
    s.append(layer_text(&icon_data.secondary_path_data, fills.secondary_fill).as_str());
    s.append(layer_text(&icon_data.overlay_path_data, fills.overlay_fill).as_str());
    s.append("</svg>");
    s
}

/// Renders one classified icon with the given fills into an n-by-n PNG.
/// The whole outcome, success or failure message, is a function of the
/// layers, the fills and the size: equal inputs always yield the same bytes.
pub fn render_icon(icon_data: &IconData, fills: &IconFills, size: u32) -> (r: Result<
    Vec<u8>,
    RenderError,
>)
    ensures
        r matches Ok(png) ==> spec_render(icon_data@, *fills, size) == Ok::<_, Seq<char>>(png@),
        r matches Err(e) ==> (e matches RenderError::Rasterise(m) && spec_render(
            icon_data@,
            *fills,
            size,
        ) == Err::<Seq<u8>, _>(m@)),
        size == 0 ==> r is Err,
{
    let scene = scene_text(icon_data, fills, size);
    let bytes = scene.as_str().as_bytes_vec();
    match rasterize_svg(&bytes, size) {
        Ok(png) => Ok(png),
        Err(m) => Err(RenderError::Rasterise(m)),
    }
}

} // verus!
