//! The render orchestrator: one PNG per (palette, theme, category, scale,
//! item) tuple, under a deterministic directory layout, or the first failure.
//!
//! A category that has icon mappings but no scaling entry is refused before
//! any rendering begins. Every output is an exact function of the inputs'
//! values, so two runs over equal inputs produce byte-identical files.

use vstd::prelude::*;
use vstd::string::StringExecFns;
use crate::classify::{IconData, LayersView};
use crate::dict::{Dict, lemma_lookup_mapped, seq_lookup};
use crate::mappings::{IconMappings, IconScaling};
use crate::palette::{IconFills, IconPalette, IconTheme, PaletteView, spec_theme_name};
use crate::render::{RenderError, render_icon, spec_render};
use crate::resolve::{get_fill_for, spec_resolve};
use crate::strutil::{contains_char, spec_nat_string, string_eq, u32_to_string};
use crate::tags::{TagSystem, assignments_view};

verus! {

/// One output file of a compile run: a path relative to the output root, and
/// the PNG bytes to put there.
pub struct OutputFile {
    pub path: String,
    pub png: Vec<u8>,
}

/// The mathematical value of one output file.
pub struct OutputFileView {
    pub path: Seq<char>,
    pub png: Seq<u8>,
}

impl View for OutputFile {
    type V = OutputFileView;

    open spec fn view(&self) -> OutputFileView {
        OutputFileView { path: self.path@, png: self.png@ }
    }
}

impl DeepView for OutputFile {
    type V = OutputFileView;

    open spec fn deep_view(&self) -> OutputFileView {
        self.view()
    }
}

/// Why a compile run failed.
#[derive(Clone, Debug, PartialEq, Eq)]
pub enum CompileError {
    /// A palette, category or item name holds a path separator, which would
    /// break the one-file-per-tuple output layout; holds the name.
    BadName(String),
    /// A category with icon mappings has no scaling entry; holds the category.
    NoScaling(String),
    /// An item names an icon that was never loaded: the category, the item
    /// and the icon name.
    NonexistentIcon(String, String, String),
    /// The rasteriser failed; holds its message.
    Render(String),
}

/// The mathematical value of a compile failure.
pub enum CompileErrorView {
    BadName(Seq<char>),
    NoScaling(Seq<char>),
    NonexistentIcon(Seq<char>, Seq<char>, Seq<char>),
    Render(Seq<char>),
}

impl View for CompileError {
    type V = CompileErrorView;

    open spec fn view(&self) -> CompileErrorView {
        match self {
            CompileError::BadName(n) => CompileErrorView::BadName(n@),
            CompileError::NoScaling(c) => CompileErrorView::NoScaling(c@),
            CompileError::NonexistentIcon(c, i, n) => CompileErrorView::NonexistentIcon(
                c@,
                i@,
                n@,
            ),
            CompileError::Render(m) => CompileErrorView::Render(m@),
        }
    }
}

impl CompileError {
    /// The diagnostic text of this failure, naming the offending category,
    /// item and icon where one is involved.
    pub fn message(&self) -> (r: String)
        ensures
            self matches CompileError::BadName(n) ==> r@ == "Name "@ + n@
                + " contains a path separator"@,
            self matches CompileError::NoScaling(c) ==> r@ == "No scaling specified for category "@
                + c@,
            self matches CompileError::NonexistentIcon(c, i, n) ==> r@ == c@ + "/"@ + i@
                + " uses nonexistent icon "@ + n@,
            self matches CompileError::Render(m) ==> r@ == "Failed to render: "@ + m@,
    {
        match self {
            CompileError::BadName(n) => {
                let mut s = String::from_str("Name ");
                s.append(n.as_str());
                s.append(" contains a path separator");
                s
            },
            CompileError::NoScaling(c) => {
                let mut s = String::from_str("No scaling specified for category ");
                s.append(c.as_str());
                s
            },
            CompileError::NonexistentIcon(c, i, n) => {
                let mut s = c.clone();
                s.append("/");
                s.append(i.as_str());
                s.append(" uses nonexistent icon ");
                s.append(n.as_str());
                s
            },
            CompileError::Render(m) => {
                let mut s = String::from_str("Failed to render: ");
                s.append(m.as_str());
                s
            },
        }
    }
}

/// Everything a compile run reads, as mathematical values.
pub struct CompileInputs {
    /// The realised palettes, in order, each with its theme.
    pub palettes: Seq<(IconTheme, PaletteView)>,
    /// Item to tag path, for the "instance" category.
    pub instance_tags: Seq<(Seq<char>, Seq<Seq<char>>)>,
    /// Item to tag path, for the "general" category.
    pub general_tags: Seq<(Seq<char>, Seq<Seq<char>>)>,
    /// Category to (item file name to icon name).
    pub icons: Seq<(Seq<char>, Seq<(Seq<char>, Seq<char>)>)>,
    /// Category to its output resolutions.
    pub scaling: Seq<(Seq<char>, Seq<IconScaling>)>,
    /// Icon name to classified layers.
    pub datas: Seq<(Seq<char>, LayersView)>,
}

/// The inner item table of one category, as values.
pub open spec fn items_view(d: Seq<(Seq<char>, String)>) -> Seq<(Seq<char>, Seq<char>)> {
    d.map(|i: int, p: (Seq<char>, String)| (p.0, p.1@))
}

/// The category tables, as values.
pub open spec fn icons_tables_view(outer: Seq<(Seq<char>, Dict<String>)>) -> Seq<
    (Seq<char>, Seq<(Seq<char>, Seq<char>)>),
> {
    outer.map(|i: int, p: (Seq<char>, Dict<String>)| (p.0, items_view(p.1.view_seq())))
}

/// The scale lists, as values.
pub open spec fn scaling_view(s: Seq<(Seq<char>, Vec<IconScaling>)>) -> Seq<
    (Seq<char>, Seq<IconScaling>),
> {
    s.map(|i: int, p: (Seq<char>, Vec<IconScaling>)| (p.0, p.1@))
}

/// The classified layers cache, as values.
pub open spec fn datas_view(s: Seq<(Seq<char>, IconData)>) -> Seq<(Seq<char>, LayersView)> {
    s.map(|i: int, p: (Seq<char>, IconData)| (p.0, p.1@))
}

/// The values a compile run reads from its arguments.
pub open spec fn inputs_of(
    tag_system: TagSystem,
    palettes: Seq<(IconTheme, IconPalette)>,
    mappings: IconMappings,
    icon_datas: Dict<IconData>,
) -> CompileInputs {
    CompileInputs {
        palettes: palettes.map(|i: int, p: (IconTheme, IconPalette)| (p.0, p.1@)),
        instance_tags: assignments_view(tag_system.instance_tags.view_seq()),
        general_tags: assignments_view(tag_system.general_tags.view_seq()),
        icons: icons_tables_view(mappings.icons.view_seq()),
        scaling: scaling_view(mappings.scaling.view_seq()),
        datas: datas_view(icon_datas.view_seq()),
    }
}

/// The fills of one item: the palette default, except that an item of the
/// "instance" or "general" category with an assigned tag path whose prefix
/// the palette defines gets the most specific such fill.
pub open spec fn spec_fills_for_item(
    pal: PaletteView,
    ins: CompileInputs,
    category: Seq<char>,
    item: Seq<char>,
) -> IconFills {
    let table = if category == "instance"@ {
        Some(ins.instance_tags)
    } else if category == "general"@ {
        Some(ins.general_tags)
    } else {
        None
    };
    match table {
        None => pal.default_fills,
        Some(t) => match seq_lookup(t, item) {
            None => pal.default_fills,
            Some(path) => match spec_resolve(path, pal.tag_fills) {
                Some(f) => f,
                None => pal.default_fills,
            },
        },
    }
}

/// An item without a resolvable tag fill always takes the palette's default
/// fills: an item of a category with no tag table, an item with no assigned
/// tag path, and an item whose path has no matching prefix in the palette
/// all fall back to the default.
pub proof fn lemma_default_fill_fallback(
    pal: PaletteView,
    ins: CompileInputs,
    category: Seq<char>,
    item: Seq<char>,
)
    requires
        ({
            ||| category != "instance"@ && category != "general"@
            ||| category == "instance"@ && seq_lookup(ins.instance_tags, item) is None
            ||| category == "general"@ && seq_lookup(ins.general_tags, item) is None
            ||| category == "instance"@ && (seq_lookup(ins.instance_tags, item) matches Some(path)
                && spec_resolve(path, pal.tag_fills) is None)
            ||| category == "general"@ && (seq_lookup(ins.general_tags, item) matches Some(path)
                && spec_resolve(path, pal.tag_fills) is None)
        }),
    ensures
        spec_fills_for_item(pal, ins, category, item) == pal.default_fills,
{
    reveal_strlit("instance");
    reveal_strlit("general");
    assert("instance"@.len() == 8);
    assert("general"@.len() == 7);
    assert("instance"@ != "general"@);
    if category == "instance"@ {
        let l = seq_lookup(ins.instance_tags, item);
        if l is Some {
            assert(spec_resolve(l->Some_0, pal.tag_fills) is None);
        }
    } else if category == "general"@ {
        let l = seq_lookup(ins.general_tags, item);
        if l is Some {
            assert(spec_resolve(l->Some_0, pal.tag_fills) is None);
        }
    }
}

/// The output path of one tuple:
/// `<palette>/<theme>/<category>/<size>x/<scale-percent>/<item>.png`.
pub open spec fn spec_out_path(
    palette: Seq<char>,
    theme: IconTheme,
    category: Seq<char>,
    scaling: IconScaling,
    item: Seq<char>,
) -> Seq<char> {
    palette + "/"@ + spec_theme_name(theme) + "/"@ + category + "/"@ + spec_nat_string(scaling.size as int)
        + "x/"@ + spec_nat_string(scaling.scale_percent as int) + "/"@ + item + ".png"@
}

/// Theme directory names hold no path separator.
proof fn lemma_theme_name_no_sep(t: IconTheme)
    ensures
        !spec_theme_name(t).contains('/'),
{
    reveal_strlit("Light");
    reveal_strlit("Dark");
    match t {
        IconTheme::Light => {
            if "Light"@.contains('/') {
                let i = choose|i: int| 0 <= i < "Light"@.len() && "Light"@[i] == '/';
                assert(i == 0 || i == 1 || i == 2 || i == 3 || i == 4);
                assert(false);
            }
        },
        IconTheme::Dark => {
            if "Dark"@.contains('/') {
                let i = choose|i: int| 0 <= i < "Dark"@.len() && "Dark"@[i] == '/';
                assert(i == 0 || i == 1 || i == 2 || i == 3);
                assert(false);
            }
        },
    }
}

/// The image suffix holds no path separator.
proof fn lemma_png_suffix_no_sep()
    ensures
        !".png"@.contains('/'),
{
    reveal_strlit(".png");
    if ".png"@.contains('/') {
        let i = choose|i: int| 0 <= i < ".png"@.len() && ".png"@[i] == '/';
        assert(i == 0 || i == 1 || i == 2 || i == 3);
        assert(false);
    }
}

/// Distinct (palette, theme, category, scale, item) tuples map to distinct
/// output paths, provided the palette, category and item names hold no path
/// separator — which a compile run refuses before any rendering. Parallel
/// writers over one run's tuples therefore never touch the same file.
#[verifier::rlimit(100)]
pub proof fn lemma_out_path_injective(
    p1: Seq<char>,
    t1: IconTheme,
    c1: Seq<char>,
    s1: IconScaling,
    i1: Seq<char>,
    p2: Seq<char>,
    t2: IconTheme,
    c2: Seq<char>,
    s2: IconScaling,
    i2: Seq<char>,
)
    requires
        !p1.contains('/'),
        !c1.contains('/'),
        !i1.contains('/'),
        !p2.contains('/'),
        !c2.contains('/'),
        !i2.contains('/'),
        spec_out_path(p1, t1, c1, s1, i1) == spec_out_path(p2, t2, c2, s2, i2),
    ensures
        p1 == p2,
        t1 == t2,
        c1 == c2,
        s1 == s2,
        i1 == i2,
{
    reveal_strlit("/");
    reveal_strlit("x/");
    assert("/"@ =~= seq!['/']);
    assert("x/"@ =~= seq!['x'] + seq!['/']);
    lemma_theme_name_no_sep(t1);
    lemma_theme_name_no_sep(t2);
    lemma_png_suffix_no_sep();
    crate::strutil::lemma_nat_string_no_char(s1.size as int, '/');
    crate::strutil::lemma_nat_string_no_char(s2.size as int, '/');
    crate::strutil::lemma_nat_string_no_char(s1.scale_percent as int, '/');
    crate::strutil::lemma_nat_string_no_char(s2.scale_percent as int, '/');

    let sz1 = spec_nat_string(s1.size as int) + seq!['x'];
    let sz2 = spec_nat_string(s2.size as int) + seq!['x'];
    crate::strutil::lemma_concat_not_contains(spec_nat_string(s1.size as int), seq!['x'], '/');
    crate::strutil::lemma_concat_not_contains(spec_nat_string(s2.size as int), seq!['x'], '/');

    let tail5_1 = i1 + ".png"@;
    let tail4_1 = spec_nat_string(s1.scale_percent as int) + seq!['/'] + tail5_1;
    let tail3_1 = sz1 + seq!['/'] + tail4_1;
    let tail2_1 = c1 + seq!['/'] + tail3_1;
    let tail1_1 = spec_theme_name(t1) + seq!['/'] + tail2_1;
    let tail5_2 = i2 + ".png"@;
    let tail4_2 = spec_nat_string(s2.scale_percent as int) + seq!['/'] + tail5_2;
    let tail3_2 = sz2 + seq!['/'] + tail4_2;
    let tail2_2 = c2 + seq!['/'] + tail3_2;
    let tail1_2 = spec_theme_name(t2) + seq!['/'] + tail2_2;
    assert(spec_out_path(p1, t1, c1, s1, i1) =~= p1 + seq!['/'] + tail1_1);
    assert(spec_out_path(p2, t2, c2, s2, i2) =~= p2 + seq!['/'] + tail1_2);

    crate::strutil::lemma_sep_join_eq(p1, tail1_1, p2, tail1_2, '/');
    crate::strutil::lemma_sep_join_eq(spec_theme_name(t1), tail2_1, spec_theme_name(t2), tail2_2, '/');
    if t1 != t2 {
        reveal_strlit("Light");
        reveal_strlit("Dark");
        assert("Light"@.len() == 5);
        assert("Dark"@.len() == 4);
        assert(false);
    }
    crate::strutil::lemma_sep_join_eq(c1, tail3_1, c2, tail3_2, '/');
    crate::strutil::lemma_sep_join_eq(sz1, tail4_1, sz2, tail4_2, '/');
    assert(sz1.len() == sz2.len());
    assert(spec_nat_string(s1.size as int).len() == spec_nat_string(s2.size as int).len());
    assert forall|k: int| 0 <= k < spec_nat_string(s1.size as int).len() implies spec_nat_string(
        s1.size as int,
    )[k] == spec_nat_string(s2.size as int)[k] by {
        assert(sz1[k] == spec_nat_string(s1.size as int)[k]);
        assert(sz2[k] == spec_nat_string(s2.size as int)[k]);
    }
    assert(spec_nat_string(s1.size as int) =~= spec_nat_string(s2.size as int));
    crate::strutil::lemma_nat_string_injective(s1.size as int, s2.size as int);
    crate::strutil::lemma_sep_join_eq(
        spec_nat_string(s1.scale_percent as int),
        tail5_1,
        spec_nat_string(s2.scale_percent as int),
        tail5_2,
        '/',
    );
    crate::strutil::lemma_nat_string_injective(
        s1.scale_percent as int,
        s2.scale_percent as int,
    );
    assert(tail5_1.len() == tail5_2.len());
    assert(i1.len() == i2.len());
    assert forall|k: int| 0 <= k < i1.len() implies i1[k] == i2[k] by {
        assert(tail5_1[k] == i1[k]);
        assert(tail5_2[k] == i2[k]);
    }
    assert(i1 =~= i2);
}

/// The outputs of one item across its category's scales, once its layers and
/// fills are fixed: one image per scale entry, in order, or the first
/// rasteriser failure with its message.
pub open spec fn spec_scale_outputs(
    palette: Seq<char>,
    theme: IconTheme,
    category: Seq<char>,
    item: Seq<char>,
    layers: LayersView,
    fills: IconFills,
    scales: Seq<IconScaling>,
) -> Result<Seq<OutputFileView>, CompileErrorView>
    decreases scales.len(),
{
    if scales.len() == 0 {
        Ok(Seq::empty())
    } else {
        match spec_scale_outputs(palette, theme, category, item, layers, fills, scales.drop_last()) {
            Err(e) => Err(e),
            Ok(acc) => match spec_render(layers, fills, scales.last().spec_pixel_size()) {
                Err(m) => Err(CompileErrorView::Render(m)),
                Ok(png) => Ok(
                    acc.push(
                        OutputFileView {
                            path: spec_out_path(palette, theme, category, scales.last(), item),
                            png,
                        },
                    ),
                ),
            },
        }
    }
}

/// The outputs of one item: its icon must have been classified, then one
/// image per scale entry.
pub open spec fn spec_item_outputs(
    ins: CompileInputs,
    pal: PaletteView,
    theme: IconTheme,
    category: Seq<char>,
    item: Seq<char>,
    icon: Seq<char>,
    scales: Seq<IconScaling>,
) -> Result<Seq<OutputFileView>, CompileErrorView> {
    match seq_lookup(ins.datas, icon) {
        None => Err(CompileErrorView::NonexistentIcon(category, item, icon)),
        Some(layers) => spec_scale_outputs(
            pal.name,
            theme,
            category,
            item,
            layers,
            spec_fills_for_item(pal, ins, category, item),
            scales,
        ),
    }
}

/// The outputs of one category: every item in table order; the first failure
/// wins.
pub open spec fn spec_category_outputs(
    ins: CompileInputs,
    pal: PaletteView,
    theme: IconTheme,
    category: Seq<char>,
    items: Seq<(Seq<char>, Seq<char>)>,
    scales: Seq<IconScaling>,
) -> Result<Seq<OutputFileView>, CompileErrorView>
    decreases items.len(),
{
    if items.len() == 0 {
        Ok(Seq::empty())
    } else {
        match spec_category_outputs(ins, pal, theme, category, items.drop_last(), scales) {
            Err(e) => Err(e),
            Ok(acc) => match spec_item_outputs(
                ins,
                pal,
                theme,
                category,
                items.last().0,
                items.last().1,
                scales,
            ) {
                Err(e) => Err(e),
                Ok(outs) => Ok(acc + outs),
            },
        }
    }
}

/// The outputs of one palette and theme: every category in table order, each
/// needing a scaling entry; the first failure wins.
pub open spec fn spec_theme_outputs(
    ins: CompileInputs,
    pal: PaletteView,
    theme: IconTheme,
    cats: Seq<(Seq<char>, Seq<(Seq<char>, Seq<char>)>)>,
) -> Result<Seq<OutputFileView>, CompileErrorView>
    decreases cats.len(),
{
    if cats.len() == 0 {
        Ok(Seq::empty())
    } else {
        match spec_theme_outputs(ins, pal, theme, cats.drop_last()) {
            Err(e) => Err(e),
            Ok(acc) => match seq_lookup(ins.scaling, cats.last().0) {
                None => Err(CompileErrorView::NoScaling(cats.last().0)),
                Some(scales) => match spec_category_outputs(
                    ins,
                    pal,
                    theme,
                    cats.last().0,
                    cats.last().1,
                    scales,
                ) {
                    Err(e) => Err(e),
                    Ok(outs) => Ok(acc + outs),
                },
            },
        }
    }
}

/// The outputs of every palette, in order; the first failure wins.
pub open spec fn spec_all_outputs(ins: CompileInputs, pals: Seq<(IconTheme, PaletteView)>) -> Result<
    Seq<OutputFileView>,
    CompileErrorView,
>
    decreases pals.len(),
{
    if pals.len() == 0 {
        Ok(Seq::empty())
    } else {
        match spec_all_outputs(ins, pals.drop_last()) {
            Err(e) => Err(e),
            Ok(acc) => match spec_theme_outputs(ins, pals.last().1, pals.last().0, ins.icons) {
                Err(e) => Err(e),
                Ok(outs) => Ok(acc + outs),
            },
        }
    }
}

/// The first category with icon mappings but no scaling entry, if any.
pub open spec fn spec_first_missing_scaling(
    cats: Seq<(Seq<char>, Seq<(Seq<char>, Seq<char>)>)>,
    scaling: Seq<(Seq<char>, Seq<IconScaling>)>,
) -> Option<Seq<char>>
    decreases cats.len(),
{
    if cats.len() == 0 {
        None
    } else {
        match spec_first_missing_scaling(cats.drop_last(), scaling) {
            Some(c) => Some(c),
            None => if seq_lookup(scaling, cats.last().0) is None {
                Some(cats.last().0)
            } else {
                None
            },
        }
    }
}

/// The first palette whose name holds a path separator, if any.
pub open spec fn spec_first_slashed_palette(pals: Seq<(IconTheme, PaletteView)>) -> Option<
    Seq<char>,
>
    decreases pals.len(),
{
    if pals.len() == 0 {
        None
    } else {
        match spec_first_slashed_palette(pals.drop_last()) {
            Some(n) => Some(n),
            None => if pals.last().1.name.contains('/') {
                Some(pals.last().1.name)
            } else {
                None
            },
        }
    }
}

/// The first item file name of one category that holds a path separator.
pub open spec fn spec_first_slashed_item(items: Seq<(Seq<char>, Seq<char>)>) -> Option<Seq<char>>
    decreases items.len(),
{
    if items.len() == 0 {
        None
    } else {
        match spec_first_slashed_item(items.drop_last()) {
            Some(n) => Some(n),
            None => if items.last().0.contains('/') {
                Some(items.last().0)
            } else {
                None
            },
        }
    }
}

/// The first category or item name of the tables that holds a path separator.
pub open spec fn spec_first_slashed_category(
    cats: Seq<(Seq<char>, Seq<(Seq<char>, Seq<char>)>)>,
) -> Option<Seq<char>>
    decreases cats.len(),
{
    if cats.len() == 0 {
        None
    } else {
        match spec_first_slashed_category(cats.drop_last()) {
            Some(n) => Some(n),
            None => if cats.last().0.contains('/') {
                Some(cats.last().0)
            } else {
                spec_first_slashed_item(cats.last().1)
            },
        }
    }
}

/// The first name of the run that would break the output layout: palette
/// names first, then the category tables in order.
pub open spec fn spec_first_slashed_name(ins: CompileInputs) -> Option<Seq<char>> {
    match spec_first_slashed_palette(ins.palettes) {
        Some(n) => Some(n),
        None => spec_first_slashed_category(ins.icons),
    }
}

/// What a whole compile run yields: a configuration with a category missing
/// its scaling entry, or with a palette, category or item name that holds a
/// path separator, is refused before any rendering; otherwise every
/// (palette, theme, category, item, scale) tuple in order.
pub open spec fn spec_compile_all(ins: CompileInputs) -> Result<
    Seq<OutputFileView>,
    CompileErrorView,
> {
    match spec_first_missing_scaling(ins.icons, ins.scaling) {
        Some(c) => Err(CompileErrorView::NoScaling(c)),
        None => match spec_first_slashed_name(ins) {
            Some(n) => Err(CompileErrorView::BadName(n)),
            None => spec_all_outputs(ins, ins.palettes),
        },
    }
}

/// The compile run is a function of its inputs' values: two runs over equal
/// inputs yield equal results — the same success or failure, and on success
/// the same files, byte for byte.
pub proof fn lemma_compile_deterministic(a: CompileInputs, b: CompileInputs)
    requires
        a.palettes == b.palettes,
        a.instance_tags == b.instance_tags,
        a.general_tags == b.general_tags,
        a.icons == b.icons,
        a.scaling == b.scaling,
        a.datas == b.datas,
    ensures
        spec_compile_all(a) == spec_compile_all(b),
{
    assert(a == b);
}

/// The fills of one item, per the category's tag table and the palette.
fn fills_for_item(
    palette: &IconPalette,
    tag_system: &TagSystem,
    category: &String,
    item: &String,
    Ghost(ins): Ghost<CompileInputs>,
) -> (r: IconFills)
    requires
        palette.wf(),
        tag_system.wf(),
        ins.instance_tags == assignments_view(tag_system.instance_tags.view_seq()),
        ins.general_tags == assignments_view(tag_system.general_tags.view_seq()),
    ensures
        r == spec_fills_for_item(palette@, ins, category@, item@),
{
    if string_eq(category, "instance") {
        proof {
            lemma_lookup_mapped(
                tag_system.instance_tags.view_seq(),
                |v: Vec<String>| v.deep_view(),
                item@,
            );
            assert(assignments_view(tag_system.instance_tags.view_seq())
                =~= tag_system.instance_tags.view_seq().map(
                |i: int, p: (Seq<char>, Vec<String>)| (p.0, (|v: Vec<String>| v.deep_view())(p.1)),
            ));
        }
        match tag_system.instance_tags.get(item.as_str()) {
            Some(list) => match get_fill_for(&palette.tag_fills, list) {
                Some(f) => *f,
                None => palette.default_fills,
            },
            None => palette.default_fills,
        }
    } else if string_eq(category, "general") {
        proof {
            lemma_lookup_mapped(
                tag_system.general_tags.view_seq(),
                |v: Vec<String>| v.deep_view(),
                item@,
            );
            assert(assignments_view(tag_system.general_tags.view_seq())
                =~= tag_system.general_tags.view_seq().map(
                |i: int, p: (Seq<char>, Vec<String>)| (p.0, (|v: Vec<String>| v.deep_view())(p.1)),
            ));
        }
        match tag_system.general_tags.get(item.as_str()) {
            Some(list) => match get_fill_for(&palette.tag_fills, list) {
                Some(f) => *f,
                None => palette.default_fills,
            },
            None => palette.default_fills,
        }
    } else {
        palette.default_fills
    }
}

/// Builds the output path of one tuple.
fn out_path(
    palette_name: &String,
    theme: IconTheme,
    category: &String,
    scaling: IconScaling,
    item: &String,
) -> (r: String)
    ensures
        r@ == spec_out_path(palette_name@, theme, category@, scaling, item@),
{
    let mut s = palette_name.clone();
    s.append("/");
    s.append(theme.name().as_str());
    s.append("/");
    s.append(category.as_str());
    s.append("/");
    s.append(u32_to_string(scaling.size).as_str());
    s.append("x/");
    s.append(u32_to_string(scaling.scale_percent).as_str());
    s.append("/");
    s.append(item.as_str());
    s.append(".png");
    s
}

/// Renders one item at every scale of its category.
#[verifier::rlimit(100)]
fn compile_item(
    palette: &IconPalette,
    theme: IconTheme,
    category: &String,
    item: &String,
    icon: &String,
    tag_system: &TagSystem,
    icon_datas: &Dict<IconData>,
    scales: &Vec<IconScaling>,
    Ghost(ins): Ghost<CompileInputs>,
) -> (r: Result<Vec<OutputFile>, CompileError>)
    requires
        palette.wf(),
        tag_system.wf(),
        icon_datas.wf(),
        ins.instance_tags == assignments_view(tag_system.instance_tags.view_seq()),
        ins.general_tags == assignments_view(tag_system.general_tags.view_seq()),
        ins.datas == datas_view(icon_datas.view_seq()),
    ensures
        r matches Ok(files) ==> spec_item_outputs(
            ins,
            palette@,
            theme,
            category@,
            item@,
            icon@,
            scales@,
        ) == Ok::<_, CompileErrorView>(files.deep_view()),
        r matches Err(e) ==> spec_item_outputs(
            ins,
            palette@,
            theme,
            category@,
            item@,
            icon@,
            scales@,
        ) == Err::<Seq<OutputFileView>, _>(e@),
{
    proof {
        lemma_lookup_mapped(icon_datas.view_seq(), |d: IconData| d@, icon@);
        assert(datas_view(icon_datas.view_seq()) =~= icon_datas.view_seq().map(
            |i: int, p: (Seq<char>, IconData)| (p.0, (|d: IconData| d@)(p.1)),
        ));
    }
    let data = match icon_datas.get(icon.as_str()) {
        Some(d) => d,
        None => {
            return Err(
                CompileError::NonexistentIcon(category.clone(), item.clone(), icon.clone()),
            );
        },
    };
    let fills = fills_for_item(palette, tag_system, category, item, Ghost(ins));
    let mut out: Vec<OutputFile> = Vec::new();
    let mut i: usize = 0;
    proof {
        assert(scales@.take(0) =~= Seq::<IconScaling>::empty());
        assert(out.deep_view() =~= Seq::<OutputFileView>::empty());
    }
    while i < scales.len()
        invariant
            0 <= i <= scales@.len(),
            seq_lookup(ins.datas, icon@) == Some(data@),
            fills == spec_fills_for_item(palette@, ins, category@, item@),
            spec_scale_outputs(
                palette@.name,
                theme,
                category@,
                item@,
                data@,
                fills,
                scales@.take(i as int),
            ) == Ok::<_, CompileErrorView>(out.deep_view()),
        decreases scales@.len() - i,
    {
        proof {
            assert(scales@.take(i as int + 1).drop_last() =~= scales@.take(i as int));
            assert(scales@.take(i as int + 1).last() == scales@[i as int]);
        }
        let s = scales[i];
        let px = s.pixel_size();
        let png = match render_icon(data, &fills, px) {
            Ok(p) => p,
            Err(RenderError::Rasterise(m)) => {
                proof {
                    assert(spec_scale_outputs(
                        palette@.name,
                        theme,
                        category@,
                        item@,
                        data@,
                        fills,
                        scales@.take(i as int + 1),
                    ) == Err::<Seq<OutputFileView>, _>(CompileErrorView::Render(m@)));
                    lemma_scale_err_persists(
                        palette@.name,
                        theme,
                        category@,
                        item@,
                        data@,
                        fills,
                        scales@,
                        i as int + 1,
                    );
                }
                return Err(CompileError::Render(m));
            },
        };
        let path = out_path(&palette.name, theme, category, s, item);
        let ghost oprev = out.deep_view();
        out.push(OutputFile { path, png });
        proof {
            assert(out.deep_view() =~= oprev.push(
                OutputFileView {
                    path: spec_out_path(palette@.name, theme, category@, scales@[i as int], item@),
                    png: spec_render(data@, fills, scales@[i as int].spec_pixel_size())->Ok_0,
                },
            ));
            assert(spec_scale_outputs(
                palette@.name,
                theme,
                category@,
                item@,
                data@,
                fills,
                scales@.take(i as int + 1),
            ) == Ok::<_, CompileErrorView>(out.deep_view()));
        }
        i = i + 1;
    }
    proof {
        assert(scales@.take(scales@.len() as int) =~= scales@);
    }
    Ok(out)
}

proof fn lemma_scale_err_persists(
    palette: Seq<char>,
    theme: IconTheme,
    category: Seq<char>,
    item: Seq<char>,
    layers: LayersView,
    fills: IconFills,
    scales: Seq<IconScaling>,
    i: int,
)
    requires
        0 <= i <= scales.len(),
        spec_scale_outputs(palette, theme, category, item, layers, fills, scales.take(i)) is Err,
    ensures
        spec_scale_outputs(palette, theme, category, item, layers, fills, scales)
            == spec_scale_outputs(palette, theme, category, item, layers, fills, scales.take(i)),
    decreases scales.len() - i,
{
    if i < scales.len() {
        assert(scales.take(i + 1).drop_last() =~= scales.take(i));
        lemma_scale_err_persists(palette, theme, category, item, layers, fills, scales, i + 1);
    } else {
        assert(scales.take(i) =~= scales);
    }
}

/// Renders every item of one category.
#[verifier::rlimit(100)]
fn compile_category(
    palette: &IconPalette,
    theme: IconTheme,
    category: &String,
    items: &Dict<String>,
    tag_system: &TagSystem,
    icon_datas: &Dict<IconData>,
    scales: &Vec<IconScaling>,
    Ghost(ins): Ghost<CompileInputs>,
) -> (r: Result<Vec<OutputFile>, CompileError>)
    requires
        palette.wf(),
        tag_system.wf(),
        icon_datas.wf(),
        items.wf(),
        ins.instance_tags == assignments_view(tag_system.instance_tags.view_seq()),
        ins.general_tags == assignments_view(tag_system.general_tags.view_seq()),
        ins.datas == datas_view(icon_datas.view_seq()),
    ensures
        r matches Ok(files) ==> spec_category_outputs(
            ins,
            palette@,
            theme,
            category@,
            items_view(items.view_seq()),
            scales@,
        ) == Ok::<_, CompileErrorView>(files.deep_view()),
        r matches Err(e) ==> spec_category_outputs(
            ins,
            palette@,
            theme,
            category@,
            items_view(items.view_seq()),
            scales@,
        ) == Err::<Seq<OutputFileView>, _>(e@),
{
    let ghost iv = items_view(items.view_seq());
    let mut out: Vec<OutputFile> = Vec::new();
    let n = items.len();
    let mut i: usize = 0;
    proof {
        assert(iv.take(0) =~= Seq::<(Seq<char>, Seq<char>)>::empty());
        assert(out.deep_view() =~= Seq::<OutputFileView>::empty());
    }
    while i < n
        invariant
            0 <= i <= n,
            n == items.spec_len(),
            iv == items_view(items.view_seq()),
            iv.len() == n,
            forall|k: int|
                0 <= k < n ==> #[trigger] iv[k] == (
                    items.view_seq()[k].0,
                    items.view_seq()[k].1@,
                ),
            palette.wf(),
            tag_system.wf(),
            icon_datas.wf(),
            items.wf(),
            ins.instance_tags == assignments_view(tag_system.instance_tags.view_seq()),
            ins.general_tags == assignments_view(tag_system.general_tags.view_seq()),
            ins.datas == datas_view(icon_datas.view_seq()),
            spec_category_outputs(ins, palette@, theme, category@, iv.take(i as int), scales@)
                == Ok::<_, CompileErrorView>(out.deep_view()),
        decreases n - i,
    {
        proof {
            assert(iv.take(i as int + 1).drop_last() =~= iv.take(i as int));
            assert(iv.take(i as int + 1).last() == iv[i as int]);
        }
        let item = items.key_at(i).clone();
        let icon = items.val_at(i).clone();
        let sub = match compile_item(
            palette,
            theme,
            category,
            &item,
            &icon,
            tag_system,
            icon_datas,
            scales,
            Ghost(ins),
        ) {
            Ok(s) => s,
            Err(e) => {
                proof {
                    assert(spec_category_outputs(
                        ins,
                        palette@,
                        theme,
                        category@,
                        iv.take(i as int + 1),
                        scales@,
                    ) is Err);
                    lemma_category_err_persists(
                        ins,
                        palette@,
                        theme,
                        category@,
                        iv,
                        scales@,
                        i as int + 1,
                    );
                }
                return Err(e);
            },
        };
        let ghost oprev = out.deep_view();
        let ghost sview = sub.deep_view();
        let mut sub = sub;
        out.append(&mut sub);
        proof {
            assert(out.deep_view() =~= oprev + sview);
        }
        i = i + 1;
    }
    proof {
        assert(iv.take(n as int) =~= iv);
    }
    Ok(out)
}

proof fn lemma_category_err_persists(
    ins: CompileInputs,
    pal: PaletteView,
    theme: IconTheme,
    category: Seq<char>,
    items: Seq<(Seq<char>, Seq<char>)>,
    scales: Seq<IconScaling>,
    i: int,
)
    requires
        0 <= i <= items.len(),
        spec_category_outputs(ins, pal, theme, category, items.take(i), scales) is Err,
    ensures
        spec_category_outputs(ins, pal, theme, category, items, scales) == spec_category_outputs(
            ins,
            pal,
            theme,
            category,
            items.take(i),
            scales,
        ),
    decreases items.len() - i,
{
    if i < items.len() {
        assert(items.take(i + 1).drop_last() =~= items.take(i));
        lemma_category_err_persists(ins, pal, theme, category, items, scales, i + 1);
    } else {
        assert(items.take(i) =~= items);
    }
}

/// Renders every category of one palette and theme.
#[verifier::rlimit(100)]
fn compile_palette_theme(
    palette: &IconPalette,
    theme: IconTheme,
    mappings: &IconMappings,
    tag_system: &TagSystem,
    icon_datas: &Dict<IconData>,
    Ghost(ins): Ghost<CompileInputs>,
) -> (r: Result<Vec<OutputFile>, CompileError>)
    requires
        palette.wf(),
        tag_system.wf(),
        icon_datas.wf(),
        mappings.wf(),
        ins.instance_tags == assignments_view(tag_system.instance_tags.view_seq()),
        ins.general_tags == assignments_view(tag_system.general_tags.view_seq()),
        ins.datas == datas_view(icon_datas.view_seq()),
        ins.icons == icons_tables_view(mappings.icons.view_seq()),
        ins.scaling == scaling_view(mappings.scaling.view_seq()),
    ensures
        r matches Ok(files) ==> spec_theme_outputs(ins, palette@, theme, ins.icons) == Ok::<
            _,
            CompileErrorView,
        >(files.deep_view()),
        r matches Err(e) ==> spec_theme_outputs(ins, palette@, theme, ins.icons) == Err::<
            Seq<OutputFileView>,
            _,
        >(e@),
{
    let ghost cv = ins.icons;
    let mut out: Vec<OutputFile> = Vec::new();
    let n = mappings.icons.len();
    let mut i: usize = 0;
    proof {
        assert(cv.len() == n);
        assert(forall|k: int|
            0 <= k < n ==> #[trigger] cv[k] == (
                mappings.icons.view_seq()[k].0,
                items_view(mappings.icons.view_seq()[k].1.view_seq()),
            ));
        assert(cv.take(0) =~= Seq::<(Seq<char>, Seq<(Seq<char>, Seq<char>)>)>::empty());
        assert(out.deep_view() =~= Seq::<OutputFileView>::empty());
    }
    while i < n
        invariant
            0 <= i <= n,
            n == mappings.icons.spec_len(),
            cv == ins.icons,
            cv.len() == n,
            forall|k: int|
                0 <= k < n ==> #[trigger] cv[k] == (
                    mappings.icons.view_seq()[k].0,
                    items_view(mappings.icons.view_seq()[k].1.view_seq()),
                ),
            palette.wf(),
            tag_system.wf(),
            icon_datas.wf(),
            mappings.wf(),
            ins.instance_tags == assignments_view(tag_system.instance_tags.view_seq()),
            ins.general_tags == assignments_view(tag_system.general_tags.view_seq()),
            ins.datas == datas_view(icon_datas.view_seq()),
            ins.scaling == scaling_view(mappings.scaling.view_seq()),
            spec_theme_outputs(ins, palette@, theme, cv.take(i as int)) == Ok::<
                _,
                CompileErrorView,
            >(out.deep_view()),
        decreases n - i,
    {
        proof {
            assert(cv.take(i as int + 1).drop_last() =~= cv.take(i as int));
            assert(cv.take(i as int + 1).last() == cv[i as int]);
            lemma_lookup_mapped(
                mappings.scaling.view_seq(),
                |v: Vec<IconScaling>| v@,
                cv[i as int].0,
            );
            assert(scaling_view(mappings.scaling.view_seq()) =~= mappings.scaling.view_seq().map(
                |j: int, p: (Seq<char>, Vec<IconScaling>)| (p.0, (|v: Vec<IconScaling>| v@)(p.1)),
            ));
        }
        let category = mappings.icons.key_at(i).clone();
        let scales = match mappings.scaling.get(category.as_str()) {
            Some(s) => s,
            None => {
                proof {
                    lemma_theme_err_persists(ins, palette@, theme, cv, i as int + 1);
                }
                return Err(CompileError::NoScaling(category));
            },
        };
        let items = mappings.icons.val_at(i);
        let sub = match compile_category(
            palette,
            theme,
            &category,
            items,
            tag_system,
            icon_datas,
            scales,
            Ghost(ins),
        ) {
            Ok(s) => s,
            Err(e) => {
                proof {
                    assert(spec_theme_outputs(ins, palette@, theme, cv.take(i as int + 1))
                        is Err);
                    lemma_theme_err_persists(ins, palette@, theme, cv, i as int + 1);
                }
                return Err(e);
            },
        };
        let ghost oprev = out.deep_view();
        let ghost sview = sub.deep_view();
        let mut sub = sub;
        out.append(&mut sub);
        proof {
            assert(out.deep_view() =~= oprev + sview);
        }
        i = i + 1;
    }
    proof {
        assert(cv.take(n as int) =~= cv);
    }
    Ok(out)
}

proof fn lemma_theme_err_persists(
    ins: CompileInputs,
    pal: PaletteView,
    theme: IconTheme,
    cats: Seq<(Seq<char>, Seq<(Seq<char>, Seq<char>)>)>,
    i: int,
)
    requires
        0 <= i <= cats.len(),
        spec_theme_outputs(ins, pal, theme, cats.take(i)) is Err,
    ensures
        spec_theme_outputs(ins, pal, theme, cats) == spec_theme_outputs(
            ins,
            pal,
            theme,
            cats.take(i),
        ),
    decreases cats.len() - i,
{
    if i < cats.len() {
        assert(cats.take(i + 1).drop_last() =~= cats.take(i));
        lemma_theme_err_persists(ins, pal, theme, cats, i + 1);
    } else {
        assert(cats.take(i) =~= cats);
    }
}

/// Runs the whole pipeline in memory: validates that every category with
/// mappings has a scaling entry, then renders every (palette, theme,
/// category, item, scale) tuple, in that nesting order, stopping at the
/// first failure.
#[verifier::rlimit(100)]
pub fn compile_all(
    tag_system: &TagSystem,
    palettes: &Vec<(IconTheme, IconPalette)>,
    mappings: &IconMappings,
    icon_datas: &Dict<IconData>,
) -> (r: Result<Vec<OutputFile>, CompileError>)
    requires
        tag_system.wf(),
        mappings.wf(),
        icon_datas.wf(),
        forall|k: int| 0 <= k < palettes@.len() ==> (#[trigger] palettes@[k]).1.wf(),
    ensures
        r matches Ok(files) ==> spec_compile_all(
            inputs_of(*tag_system, palettes@, *mappings, *icon_datas),
        ) == Ok::<_, CompileErrorView>(files.deep_view()),
        r matches Err(e) ==> spec_compile_all(
            inputs_of(*tag_system, palettes@, *mappings, *icon_datas),
        ) == Err::<Seq<OutputFileView>, _>(e@),
{
    let ghost ins = inputs_of(*tag_system, palettes@, *mappings, *icon_datas);
    let ghost cv = ins.icons;
    let n = mappings.icons.len();
    let mut i: usize = 0;
    proof {
        assert(cv.len() == n);
        assert(forall|k: int|
            0 <= k < n ==> #[trigger] cv[k] == (
                mappings.icons.view_seq()[k].0,
                items_view(mappings.icons.view_seq()[k].1.view_seq()),
            ));
        assert(cv.take(0) =~= Seq::<(Seq<char>, Seq<(Seq<char>, Seq<char>)>)>::empty());
    }
    while i < n
        invariant
            0 <= i <= n,
            n == mappings.icons.spec_len(),
            cv == ins.icons,
            cv.len() == n,
            forall|k: int|
                0 <= k < n ==> #[trigger] cv[k] == (
                    mappings.icons.view_seq()[k].0,
                    items_view(mappings.icons.view_seq()[k].1.view_seq()),
                ),
            ins.scaling == scaling_view(mappings.scaling.view_seq()),
            ins == inputs_of(*tag_system, palettes@, *mappings, *icon_datas),
            spec_first_missing_scaling(cv.take(i as int), ins.scaling) is None,
        decreases n - i,
    {
        proof {
            assert(cv.take(i as int + 1).drop_last() =~= cv.take(i as int));
            assert(cv.take(i as int + 1).last() == cv[i as int]);
            lemma_lookup_mapped(
                mappings.scaling.view_seq(),
                |v: Vec<IconScaling>| v@,
                cv[i as int].0,
            );
            assert(scaling_view(mappings.scaling.view_seq()) =~= mappings.scaling.view_seq().map(
                |j: int, p: (Seq<char>, Vec<IconScaling>)| (p.0, (|v: Vec<IconScaling>| v@)(p.1)),
            ));
        }
        let category = mappings.icons.key_at(i);
        if !mappings.scaling.contains_key(category.as_str()) {
            proof {
                lemma_missing_scaling_persists(cv, ins.scaling, i as int + 1);
            }
            return Err(CompileError::NoScaling(category.clone()));
        }
        i = i + 1;
    }
    proof {
        assert(cv.take(n as int) =~= cv);
    }

    let ghost pv = ins.palettes;
    let mut i: usize = 0;
    proof {
        assert(pv.len() == palettes@.len());
        assert(forall|k: int|
            0 <= k < pv.len() ==> #[trigger] pv[k] == (palettes@[k].0, palettes@[k].1@));
        assert(pv.take(0) =~= Seq::<(IconTheme, PaletteView)>::empty());
    }
    while i < palettes.len()
        invariant
            0 <= i <= palettes@.len(),
            pv == ins.palettes,
            pv.len() == palettes@.len(),
            forall|k: int|
                0 <= k < pv.len() ==> #[trigger] pv[k] == (palettes@[k].0, palettes@[k].1@),
            ins == inputs_of(*tag_system, palettes@, *mappings, *icon_datas),
            spec_first_missing_scaling(ins.icons, ins.scaling) is None,
            spec_first_slashed_palette(pv.take(i as int)) is None,
        decreases palettes@.len() - i,
    {
        proof {
            assert(pv.take(i as int + 1).drop_last() =~= pv.take(i as int));
            assert(pv.take(i as int + 1).last() == pv[i as int]);
        }
        if contains_char(palettes[i].1.name.as_str(), '/') {
            proof {
                lemma_slashed_palette_persists(pv, i as int + 1);
            }
            return Err(CompileError::BadName(palettes[i].1.name.clone()));
        }
        i = i + 1;
    }
    proof {
        assert(pv.take(palettes@.len() as int) =~= pv);
    }

    let mut i: usize = 0;
    proof {
        assert(cv.take(0) =~= Seq::<(Seq<char>, Seq<(Seq<char>, Seq<char>)>)>::empty());
    }
    while i < n
        invariant
            0 <= i <= n,
            n == mappings.icons.spec_len(),
            cv == ins.icons,
            cv.len() == n,
            forall|k: int|
                0 <= k < n ==> #[trigger] cv[k] == (
                    mappings.icons.view_seq()[k].0,
                    items_view(mappings.icons.view_seq()[k].1.view_seq()),
                ),
            mappings.wf(),
            ins == inputs_of(*tag_system, palettes@, *mappings, *icon_datas),
            spec_first_missing_scaling(ins.icons, ins.scaling) is None,
            spec_first_slashed_palette(ins.palettes) is None,
            spec_first_slashed_category(cv.take(i as int)) is None,
        decreases n - i,
    {
        proof {
            assert(cv.take(i as int + 1).drop_last() =~= cv.take(i as int));
            assert(cv.take(i as int + 1).last() == cv[i as int]);
        }
        let category = mappings.icons.key_at(i);
        if contains_char(category.as_str(), '/') {
            proof {
                lemma_slashed_category_persists(cv, i as int + 1);
            }
            return Err(CompileError::BadName(category.clone()));
        }
        let items = mappings.icons.val_at(i);
        let ghost itv = cv[i as int].1;
        let m = items.len();
        let mut j: usize = 0;
        proof {
            assert(itv.take(0) =~= Seq::<(Seq<char>, Seq<char>)>::empty());
            assert(itv.len() == m);
            assert(forall|k: int|
                0 <= k < m ==> #[trigger] itv[k] == (
                    items.view_seq()[k].0,
                    items.view_seq()[k].1@,
                ));
        }
        while j < m
            invariant
                0 <= j <= m,
                m == items.spec_len(),
                itv.len() == m,
                forall|k: int|
                    0 <= k < m ==> #[trigger] itv[k] == (
                        items.view_seq()[k].0,
                        items.view_seq()[k].1@,
                    ),
                0 <= i < cv.len(),
                cv == ins.icons,
                itv == cv[i as int].1,
                !cv[i as int].0.contains('/'),
                ins == inputs_of(*tag_system, palettes@, *mappings, *icon_datas),
                spec_first_missing_scaling(ins.icons, ins.scaling) is None,
                spec_first_slashed_palette(ins.palettes) is None,
                spec_first_slashed_category(cv.take(i as int)) is None,
                spec_first_slashed_item(itv.take(j as int)) is None,
            decreases m - j,
        {
            proof {
                assert(itv.take(j as int + 1).drop_last() =~= itv.take(j as int));
                assert(itv.take(j as int + 1).last() == itv[j as int]);
            }
            if contains_char(items.key_at(j).as_str(), '/') {
                let bad = items.key_at(j).clone();
                proof {
                    lemma_slashed_item_persists(itv, j as int + 1);
                    assert(spec_first_slashed_item(itv) == Some(bad@));
                    assert(cv.take(i as int + 1).drop_last() =~= cv.take(i as int));
                    assert(cv.take(i as int + 1).last() == cv[i as int]);
                    assert(spec_first_slashed_category(cv.take(i as int + 1)) == Some(bad@));
                    lemma_slashed_category_persists(cv, i as int + 1);
                }
                return Err(CompileError::BadName(bad));
            }
            j = j + 1;
        }
        proof {
            assert(itv.take(m as int) =~= itv);
        }
        i = i + 1;
    }
    proof {
        assert(cv.take(n as int) =~= cv);
    }

    let mut out: Vec<OutputFile> = Vec::new();
    let mut i: usize = 0;
    proof {
        assert(pv.len() == palettes@.len());
        assert(forall|k: int|
            0 <= k < pv.len() ==> #[trigger] pv[k] == (palettes@[k].0, palettes@[k].1@));
        assert(pv.take(0) =~= Seq::<(IconTheme, PaletteView)>::empty());
        assert(out.deep_view() =~= Seq::<OutputFileView>::empty());
    }
    while i < palettes.len()
        invariant
            0 <= i <= palettes@.len(),
            pv == ins.palettes,
            pv.len() == palettes@.len(),
            forall|k: int|
                0 <= k < pv.len() ==> #[trigger] pv[k] == (palettes@[k].0, palettes@[k].1@),
            forall|k: int| 0 <= k < palettes@.len() ==> (#[trigger] palettes@[k]).1.wf(),
            tag_system.wf(),
            mappings.wf(),
            icon_datas.wf(),
            ins == inputs_of(*tag_system, palettes@, *mappings, *icon_datas),
            spec_first_missing_scaling(ins.icons, ins.scaling) is None,
            spec_first_slashed_name(ins) is None,
            spec_all_outputs(ins, pv.take(i as int)) == Ok::<_, CompileErrorView>(out.deep_view()),
        decreases palettes@.len() - i,
    {
        proof {
            assert(pv.take(i as int + 1).drop_last() =~= pv.take(i as int));
            assert(pv.take(i as int + 1).last() == pv[i as int]);
        }
        let theme = palettes[i].0;
        let palette = &palettes[i].1;
        let sub = match compile_palette_theme(
            palette,
            theme,
            mappings,
            tag_system,
            icon_datas,
            Ghost(ins),
        ) {
            Ok(s) => s,
            Err(e) => {
                proof {
                    assert(spec_all_outputs(ins, pv.take(i as int + 1)) is Err);
                    lemma_all_err_persists(ins, pv, i as int + 1);
                }
                return Err(e);
            },
        };
        let ghost oprev = out.deep_view();
        let ghost sview = sub.deep_view();
        let mut sub = sub;
        out.append(&mut sub);
        proof {
            assert(out.deep_view() =~= oprev + sview);
        }
        i = i + 1;
    }
    proof {
        assert(pv.take(palettes@.len() as int) =~= pv);
    }
    Ok(out)
}

proof fn lemma_slashed_palette_persists(pals: Seq<(IconTheme, PaletteView)>, i: int)
    requires
        0 <= i <= pals.len(),
        spec_first_slashed_palette(pals.take(i)) is Some,
    ensures
        spec_first_slashed_palette(pals) == spec_first_slashed_palette(pals.take(i)),
    decreases pals.len() - i,
{
    if i < pals.len() {
        assert(pals.take(i + 1).drop_last() =~= pals.take(i));
        lemma_slashed_palette_persists(pals, i + 1);
    } else {
        assert(pals.take(i) =~= pals);
    }
}

proof fn lemma_slashed_item_persists(items: Seq<(Seq<char>, Seq<char>)>, i: int)
    requires
        0 <= i <= items.len(),
        spec_first_slashed_item(items.take(i)) is Some,
    ensures
        spec_first_slashed_item(items) == spec_first_slashed_item(items.take(i)),
    decreases items.len() - i,
{
    if i < items.len() {
        assert(items.take(i + 1).drop_last() =~= items.take(i));
        lemma_slashed_item_persists(items, i + 1);
    } else {
        assert(items.take(i) =~= items);
    }
}

proof fn lemma_slashed_category_persists(
    cats: Seq<(Seq<char>, Seq<(Seq<char>, Seq<char>)>)>,
    i: int,
)
    requires
        0 <= i <= cats.len(),
        spec_first_slashed_category(cats.take(i)) is Some,
    ensures
        spec_first_slashed_category(cats) == spec_first_slashed_category(cats.take(i)),
    decreases cats.len() - i,
{
    if i < cats.len() {
        assert(cats.take(i + 1).drop_last() =~= cats.take(i));
        lemma_slashed_category_persists(cats, i + 1);
    } else {
        assert(cats.take(i) =~= cats);
    }
}

proof fn lemma_missing_scaling_persists(
    cats: Seq<(Seq<char>, Seq<(Seq<char>, Seq<char>)>)>,
    scaling: Seq<(Seq<char>, Seq<IconScaling>)>,
    i: int,
)
    requires
        0 <= i <= cats.len(),
        spec_first_missing_scaling(cats.take(i), scaling) is Some,
    ensures
        spec_first_missing_scaling(cats, scaling) == spec_first_missing_scaling(
            cats.take(i),
            scaling,
        ),
    decreases cats.len() - i,
{
    if i < cats.len() {
        assert(cats.take(i + 1).drop_last() =~= cats.take(i));
        lemma_missing_scaling_persists(cats, scaling, i + 1);
    } else {
        assert(cats.take(i) =~= cats);
    }
}

proof fn lemma_all_err_persists(ins: CompileInputs, pals: Seq<(IconTheme, PaletteView)>, i: int)
    requires
        0 <= i <= pals.len(),
        spec_all_outputs(ins, pals.take(i)) is Err,
    ensures
        spec_all_outputs(ins, pals) == spec_all_outputs(ins, pals.take(i)),
    decreases pals.len() - i,
{
    if i < pals.len() {
        assert(pals.take(i + 1).drop_last() =~= pals.take(i));
        lemma_all_err_persists(ins, pals, i + 1);
    } else {
        assert(pals.take(i) =~= pals);
    }
}

} // verus!
