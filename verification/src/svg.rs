//! The trusted boundary to the vector-graphics crates.
//!
//! Parsing a vector document yields, per path, a small record of plain facts:
//! the fill's presence, whether its paint is a flat colour, the red and blue
//! channels, the opacity quantised to 8 bits, and the geometry written as SVG
//! path data text. Rasterisation turns an SVG document into PNG bytes or a
//! failure message. Both calls use fixed parse options with an empty font
//! database and image resolvers that resolve nothing, so neither ever reads
//! the filesystem: every result is a function of the arguments alone.

use core::fmt::Write;
use vstd::prelude::*;
use crate::classify::PathStyle;

verus! {

#[verifier::external_type_specification]
#[verifier::external_body]
pub struct ExTree(usvg::Tree);

#[verifier::external_type_specification]
#[verifier::external_body]
pub struct ExPathNode(usvg::Path);

/// The per-path facts of a parsed document, in walk order. Each element is
/// `((has_fill, is_flat_colour, red, blue, opacity), path_data_text)`.
pub uninterp spec fn doc_facts(data: Seq<u8>) -> Seq<((bool, bool, u8, u8, u8), Seq<char>)>;

/// The per-path facts a parsed tree holds, in walk order.
pub uninterp spec fn tree_facts(t: usvg::Tree) -> Seq<((bool, bool, u8, u8, u8), Seq<char>)>;

/// The facts one path node holds.
pub uninterp spec fn path_facts(p: usvg::Path) -> ((bool, bool, u8, u8, u8), Seq<char>);

/// Whether the bytes parse as an SVG document under the library's fixed
/// parse options.
pub uninterp spec fn svg_parses(data: Seq<u8>) -> bool;

/// The parser's message when the bytes do not parse.
pub uninterp spec fn parse_error_of(data: Seq<u8>) -> Seq<char>;

/// What rasterising an SVG document at n-by-n pixels returns: the encoded
/// PNG bytes, or the failure message.
pub uninterp spec fn raster_result(data: Seq<u8>, n: u32) -> Result<Seq<u8>, Seq<char>>;

/// Relies on usvg::Tree::from_data: with the fixed options (empty font
/// database, image resolvers that resolve nothing) parsing reads only the
/// bytes, so success and the parsed path facts are functions of them.
#[verifier::external_body]
pub fn parse_svg_tree(data: &Vec<u8>) -> (r: Result<usvg::Tree, String>)
    ensures
        r is Ok <==> svg_parses(data@),
        r matches Ok(t) ==> tree_facts(t) == doc_facts(data@),
        r matches Err(m) ==> m@ == parse_error_of(data@),
{
    let mut opt = usvg::Options::default();
    opt.image_href_resolver.resolve_data = Box::new(|_, _, _| None);
    opt.image_href_resolver.resolve_string = Box::new(|_, _| None);
    match usvg::Tree::from_data(data.as_slice(), &opt) {
        Ok(t) => Ok(t),
        Err(e) => Err(e.to_string()),
    }
}

/// Relies on usvg::Group::children and usvg::Node: hands out every path node
/// of a tree, in the same walk order that defines the tree's facts.
#[verifier::external_body]
pub fn tree_path_nodes(t: &usvg::Tree) -> (r: Vec<usvg::Path>)
    ensures
        r@.len() == tree_facts(*t).len(),
        forall|i: int| 0 <= i < r@.len() ==> path_facts(r@[i]) == tree_facts(*t)[i],
{
    let mut out: Vec<usvg::Path> = Vec::new();
    let mut stack: Vec<&usvg::Group> = vec![t.root()];
    while let Some(g) = stack.pop() {
        for n in g.children() {
            match n {
                usvg::Node::Group(c) => stack.push(c),
                usvg::Node::Path(p) => out.push((**p).clone()),
                _ => {},
            }
        }
    }
    out
}

/// Relies on usvg::Path::fill, usvg::Fill::paint and usvg::Fill::opacity:
/// reads the flat style facts of one path node. A path without a fill
/// reports `(false, false, 0, 0, 0)`; a fill whose paint is a gradient or a
/// pattern reports no flat colour and zero channels.
#[verifier::external_body]
pub fn path_node_style(p: &usvg::Path) -> (r: PathStyle)
    ensures
        r.has_fill == path_facts(*p).0.0,
        r.is_colour == path_facts(*p).0.1,
        r.red == path_facts(*p).0.2,
        r.blue == path_facts(*p).0.3,
        r.opacity == path_facts(*p).0.4,
{
    let (has_fill, is_colour, red, blue, opacity) = match p.fill() {
        None => (false, false, 0u8, 0u8, 0u8),
        Some(f) => match f.paint() {
            usvg::Paint::Color(c) => (true, true, c.red, c.blue, f.opacity().to_u8()),
            _ => (true, false, 0u8, 0u8, f.opacity().to_u8()),
        },
    };
    PathStyle { has_fill, is_colour, red, blue, opacity }
}

/// Relies on usvg::Path::data and tiny_skia::Path::segments: writes the
/// node's geometry as absolute SVG path data text ("M 1 2 L 3 4 Z ").
#[verifier::external_body]
pub fn path_node_data_text(p: &usvg::Path) -> (r: String)
    ensures
        r@ == path_facts(*p).1,
{
    let mut s = String::new();
    for seg in p.data().segments() {
        let _ = match seg {
            tiny_skia::PathSegment::MoveTo(a) => write!(s, "M {} {} ", a.x, a.y),
            tiny_skia::PathSegment::LineTo(a) => write!(s, "L {} {} ", a.x, a.y),
            tiny_skia::PathSegment::QuadTo(a, b) => write!(s, "Q {} {} {} {} ", a.x, a.y, b.x, b.y),
            tiny_skia::PathSegment::CubicTo(a, b, c) => write!(
                s, "C {} {} {} {} {} {} ", a.x, a.y, b.x, b.y, c.x, c.y),
            tiny_skia::PathSegment::Close => write!(s, "Z "),
        };
    }
    s
}

/// Relies on usvg::Tree::from_data, tiny_skia::Pixmap::new, resvg::render and
/// tiny_skia::Pixmap::encode_png: rasterises an SVG document at n-by-n pixels
/// and encodes the result as PNG. The document's own width, height and view
/// box drive the scaling; with the fixed filesystem-free parse options the
/// whole outcome, message included, is a function of the document and n.
#[verifier::external_body]
pub fn rasterize_svg(data: &Vec<u8>, n: u32) -> (r: Result<Vec<u8>, String>)
    ensures
        match r {
            Ok(png) => raster_result(data@, n) == Ok::<_, Seq<char>>(png@),
            Err(m) => raster_result(data@, n) == Err::<Seq<u8>, _>(m@),
        },
        n == 0 ==> r is Err,
{
    let mut opt = usvg::Options::default();
    opt.image_href_resolver.resolve_data = Box::new(|_, _, _| None);
    opt.image_href_resolver.resolve_string = Box::new(|_, _| None);
    let tree = match usvg::Tree::from_data(data.as_slice(), &opt) {
        Ok(t) => t,
        Err(e) => return Err(e.to_string()),
    };
    let mut pixmap = match tiny_skia::Pixmap::new(n, n) {
        Some(p) => p,
        None => return Err(String::from("failed to make pixmap")),
    };
    resvg::render(&tree, tiny_skia::Transform::default(), &mut pixmap.as_mut());
    pixmap.encode_png().map_err(|e| e.to_string())
}

} // verus!
