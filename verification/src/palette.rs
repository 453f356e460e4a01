//! Fills, themes and palettes.
//!
//! A palette names, per theme, a table of colour definitions (hex literals),
//! a default colour, a "duo" colour used by every overlay, and per-tag-path
//! colour references. Compiling a palette resolves every reference into an
//! [`IconFills`] value: the primary and secondary layers use the referenced
//! colour (the secondary at 60% opacity), the overlay uses the duo colour.

use vstd::prelude::*;
use vstd::string::StringExecFns;
use crate::dict::{Dict, seq_insert, seq_lookup};
use crate::strutil::string_eq;

verus! {

/// A flat 8-bit colour.
#[derive(Clone, Copy, Debug, PartialEq, Eq)]
pub struct Rgb {
    pub red: u8,
    pub green: u8,
    pub blue: u8,
}

/// How the inside of a path is decided when it is filled.
#[derive(Clone, Copy, Debug, PartialEq, Eq)]
pub enum FillRuleKind {
    EvenOdd,
    NonZero,
}

/// One fill: a flat colour, an 8-bit opacity and a fill rule.
#[derive(Clone, Copy, Debug, PartialEq, Eq)]
pub struct Fill {
    pub colour: Rgb,
    pub opacity: u8,
    pub rule: FillRuleKind,
}

/// The fills of the three layer roles of one icon.
#[derive(Clone, Copy, Debug, PartialEq, Eq)]
pub struct IconFills {
    pub primary_fill: Fill,
    pub secondary_fill: Fill,
    pub overlay_fill: Fill,
}

/// The secondary layer's opacity: 60% on the 8-bit scale.
pub open spec fn secondary_opacity() -> u8 {
    153u8
}

/// The fills a main and an overlay colour yield: primary and secondary take
/// the main colour (the secondary at 60% opacity), the overlay takes the
/// overlay colour; every fill uses the even-odd rule.
pub open spec fn spec_fills_from_colours(main: Rgb, overlay: Rgb) -> IconFills {
    IconFills {
        primary_fill: Fill { colour: main, opacity: 255u8, rule: FillRuleKind::EvenOdd },
        secondary_fill: Fill {
            colour: main,
            opacity: secondary_opacity(),
            rule: FillRuleKind::EvenOdd,
        },
        overlay_fill: Fill { colour: overlay, opacity: 255u8, rule: FillRuleKind::EvenOdd },
    }
}

impl IconFills {
    /// Builds the fills of the three layer roles from a main and an overlay
    /// colour.
    pub fn from_colours(main: Rgb, overlay: Rgb) -> (r: IconFills)
        ensures
            r == spec_fills_from_colours(main, overlay),
    {
        IconFills {
            primary_fill: Fill { colour: main, opacity: 255, rule: FillRuleKind::EvenOdd },
            secondary_fill: Fill { colour: main, opacity: 153, rule: FillRuleKind::EvenOdd },
            overlay_fill: Fill { colour: overlay, opacity: 255, rule: FillRuleKind::EvenOdd },
        }
    }
}

/// The value of one hexadecimal digit, case-insensitive.
pub open spec fn hex_digit_val(c: char) -> Option<u8> {
    let v = c as u32;
    if 48 <= v && v <= 57 {
        Some((v - 48) as u8)
    } else if 97 <= v && v <= 102 {
        Some((v - 87) as u8)
    } else if 65 <= v && v <= 70 {
        Some((v - 55) as u8)
    } else {
        None
    }
}

pub open spec fn is_hex_digit(c: char) -> bool {
    hex_digit_val(c) is Some
}

/// The byte two hexadecimal digits spell.
pub open spec fn hex_pair_val(a: char, b: char) -> u8 {
    ((hex_digit_val(a)->Some_0 as u32) * 16 + (hex_digit_val(b)->Some_0 as u32)) as u8
}

/// The byte one shorthand hexadecimal digit spells (the digit doubled).
pub open spec fn hex_short_val(a: char) -> u8 {
    ((hex_digit_val(a)->Some_0 as u32) * 17) as u8
}

/// What parsing an RGB(A) hex literal yields: `#RGB`, `#RGBA`, `#RRGGBB` or
/// `#RRGGBBAA`, case-insensitive; an alpha channel is accepted and dropped.
pub open spec fn spec_parse_hex(s: Seq<char>) -> Option<Rgb> {
    if s.len() == 4 && s[0] == '#' && is_hex_digit(s[1]) && is_hex_digit(s[2]) && is_hex_digit(
        s[3],
    ) {
        Some(Rgb { red: hex_short_val(s[1]), green: hex_short_val(s[2]), blue: hex_short_val(s[3]) })
    } else if s.len() == 5 && s[0] == '#' && is_hex_digit(s[1]) && is_hex_digit(s[2])
        && is_hex_digit(s[3]) && is_hex_digit(s[4]) {
        Some(Rgb { red: hex_short_val(s[1]), green: hex_short_val(s[2]), blue: hex_short_val(s[3]) })
    } else if s.len() == 7 && s[0] == '#' && is_hex_digit(s[1]) && is_hex_digit(s[2])
        && is_hex_digit(s[3]) && is_hex_digit(s[4]) && is_hex_digit(s[5]) && is_hex_digit(s[6]) {
        Some(
            Rgb {
                red: hex_pair_val(s[1], s[2]),
                green: hex_pair_val(s[3], s[4]),
                blue: hex_pair_val(s[5], s[6]),
            },
        )
    } else if s.len() == 9 && s[0] == '#' && is_hex_digit(s[1]) && is_hex_digit(s[2])
        && is_hex_digit(s[3]) && is_hex_digit(s[4]) && is_hex_digit(s[5]) && is_hex_digit(s[6])
        && is_hex_digit(s[7]) && is_hex_digit(s[8]) {
        Some(
            Rgb {
                red: hex_pair_val(s[1], s[2]),
                green: hex_pair_val(s[3], s[4]),
                blue: hex_pair_val(s[5], s[6]),
            },
        )
    } else {
        None
    }
}

/// The value of one hexadecimal digit, case-insensitive.
fn hex_digit(c: char) -> (r: Option<u8>)
    ensures
        r == hex_digit_val(c),
        r matches Some(v) ==> v < 16,
{
    let v = c as u32;
    if 48 <= v && v <= 57 {
        Some((v - 48) as u8)
    } else if 97 <= v && v <= 102 {
        Some((v - 87) as u8)
    } else if 65 <= v && v <= 70 {
        Some((v - 55) as u8)
    } else {
        None
    }
}

/// Parses an RGB(A) hex literal: accepts exactly the `#RGB`, `#RGBA`,
/// `#RRGGBB` and `#RRGGBBAA` shapes, case-insensitive; the alpha channel, if
/// any, is dropped.
pub fn parse_hex_colour(s: &str) -> (r: Option<Rgb>)
    ensures
        r == spec_parse_hex(s@),
{
    let n = s.unicode_len();
    if n != 4 && n != 5 && n != 7 && n != 9 {
        return None;
    }
    if s.get_char(0) != '#' {
        return None;
    }
    if n == 4 || n == 5 {
        let d1 = hex_digit(s.get_char(1));
        let d2 = hex_digit(s.get_char(2));
        let d3 = hex_digit(s.get_char(3));
        let d4: Option<u8> = if n == 5 {
            hex_digit(s.get_char(4))
        } else {
            Some(0)
        };
        match (d1, d2, d3, d4) {
            (Some(a), Some(b), Some(c), Some(_)) => Some(
                Rgb { red: a * 17, green: b * 17, blue: c * 17 },
            ),
            _ => None,
        }
    } else {
        let d1 = hex_digit(s.get_char(1));
        let d2 = hex_digit(s.get_char(2));
        let d3 = hex_digit(s.get_char(3));
        let d4 = hex_digit(s.get_char(4));
        let d5 = hex_digit(s.get_char(5));
        let d6 = hex_digit(s.get_char(6));
        let d7: Option<u8> = if n == 9 {
            hex_digit(s.get_char(7))
        } else {
            Some(0)
        };
        let d8: Option<u8> = if n == 9 {
            hex_digit(s.get_char(8))
        } else {
            Some(0)
        };
        match (d1, d2, d3, d4, d5, d6, d7, d8) {
            (Some(a), Some(b), Some(c), Some(d), Some(e), Some(f), Some(_), Some(_)) => Some(
                Rgb { red: a * 16 + b, green: c * 16 + d, blue: e * 16 + f },
            ),
            _ => None,
        }
    }
}

/// A rendering variant of a palette; there are exactly two.
#[derive(Clone, Copy, Debug, PartialEq, Eq, Hash)]
pub enum IconTheme {
    Light,
    Dark,
}

/// The theme's directory name.
pub open spec fn spec_theme_name(t: IconTheme) -> Seq<char> {
    match t {
        IconTheme::Light => "Light"@,
        IconTheme::Dark => "Dark"@,
    }
}

impl IconTheme {
    /// The theme's directory name.
    pub fn name(&self) -> (r: String)
        ensures
            r@ == spec_theme_name(*self),
    {
        match self {
            IconTheme::Light => String::from_str("Light"),
            IconTheme::Dark => String::from_str("Dark"),
        }
    }
}

/// The theme a definition key names: "light" or "dark", exactly.
pub open spec fn spec_theme_of(name: Seq<char>) -> Option<IconTheme> {
    if name == "light"@ {
        Some(IconTheme::Light)
    } else if name == "dark"@ {
        Some(IconTheme::Dark)
    } else {
        None
    }
}

/// One palette realised for one theme: a default fill set and per-tag-path
/// fill overrides.
#[derive(Debug, PartialEq, Eq)]
pub struct IconPalette {
    pub name: String,
    pub default_fills: IconFills,
    pub tag_fills: Dict<IconFills>,
}

/// The mathematical value of a realised palette.
pub struct PaletteView {
    pub name: Seq<char>,
    pub default_fills: IconFills,
    pub tag_fills: Seq<(Seq<char>, IconFills)>,
}

impl View for IconPalette {
    type V = PaletteView;

    open spec fn view(&self) -> PaletteView {
        PaletteView {
            name: self.name@,
            default_fills: self.default_fills,
            tag_fills: self.tag_fills.view_seq(),
        }
    }
}

impl IconPalette {
    pub open spec fn wf(&self) -> bool {
        self.tag_fills.wf()
    }
}

/// A palette definition as read from configuration, colours still as hex
/// literal text: per theme a table of colour definitions, a default and a
/// duo colour reference, and per-tag-path colour references.
pub struct PaletteDef {
    pub name: String,
    pub theme_definitions: Vec<(String, Vec<(String, String)>)>,
    pub default_colour: String,
    pub duo_colour: String,
    pub tag_colours: Vec<(String, String)>,
}

/// The mathematical value of a palette definition.
pub struct PaletteDefView {
    pub name: Seq<char>,
    pub theme_definitions: Seq<(Seq<char>, Seq<(Seq<char>, Seq<char>)>)>,
    pub default_colour: Seq<char>,
    pub duo_colour: Seq<char>,
    pub tag_colours: Seq<(Seq<char>, Seq<char>)>,
}

/// The view of a sequence of string pairs.
pub open spec fn pairs_view(s: Seq<(String, String)>) -> Seq<(Seq<char>, Seq<char>)> {
    s.map(|i: int, p: (String, String)| (p.0@, p.1@))
}

impl View for PaletteDef {
    type V = PaletteDefView;

    open spec fn view(&self) -> PaletteDefView {
        PaletteDefView {
            name: self.name@,
            theme_definitions: self.theme_definitions@.map(
                |i: int, t: (String, Vec<(String, String)>)| (t.0@, pairs_view(t.1@)),
            ),
            default_colour: self.default_colour@,
            duo_colour: self.duo_colour@,
            tag_colours: pairs_view(self.tag_colours@),
        }
    }
}

/// Why a palette definition was rejected.
#[derive(Clone, Debug, PartialEq, Eq)]
pub enum PaletteError {
    /// A theme key other than "light" or "dark": the key and the palette name.
    InvalidTheme(String, String),
    /// A colour definition whose literal does not parse: the colour name and
    /// the literal.
    BadColourLiteral(String, String),
    /// The duo colour reference names no definition: the reference and the
    /// palette name.
    UndefinedDuoColour(String, String),
    /// The default colour reference names no definition: the reference and
    /// the palette name.
    UndefinedDefaultColour(String, String),
    /// A tag's colour reference names no definition: the tag, the reference
    /// and the palette name.
    UndefinedTagColour(String, String, String),
}

/// The mathematical value of a palette failure.
pub enum PaletteErrorView {
    InvalidTheme(Seq<char>, Seq<char>),
    BadColourLiteral(Seq<char>, Seq<char>),
    UndefinedDuoColour(Seq<char>, Seq<char>),
    UndefinedDefaultColour(Seq<char>, Seq<char>),
    UndefinedTagColour(Seq<char>, Seq<char>, Seq<char>),
}

impl View for PaletteError {
    type V = PaletteErrorView;

    open spec fn view(&self) -> PaletteErrorView {
        match self {
            PaletteError::InvalidTheme(a, b) => PaletteErrorView::InvalidTheme(a@, b@),
            PaletteError::BadColourLiteral(a, b) => PaletteErrorView::BadColourLiteral(a@, b@),
            PaletteError::UndefinedDuoColour(a, b) => PaletteErrorView::UndefinedDuoColour(a@, b@),
            PaletteError::UndefinedDefaultColour(a, b) => PaletteErrorView::UndefinedDefaultColour(
                a@,
                b@,
            ),
            PaletteError::UndefinedTagColour(a, b, c) => PaletteErrorView::UndefinedTagColour(
                a@,
                b@,
                c@,
            ),
        }
    }
}

impl PaletteError {
    /// The diagnostic text of this failure, naming the offending reference
    /// and palette.
    pub fn message(&self) -> (r: String)
        ensures
            self matches PaletteError::InvalidTheme(t, p) ==> r@ == "Invalid theme "@ + t@
                + " for palette "@ + p@,
            self matches PaletteError::BadColourLiteral(n, l) ==> r@ == "Colour "@ + n@
                + " has unparsable literal "@ + l@,
            self matches PaletteError::UndefinedDuoColour(d, p) ==> r@ == "Duo colour "@ + d@
                + " is not defined for palette "@ + p@,
            self matches PaletteError::UndefinedDefaultColour(d, p) ==> r@ == "Default colour "@
                + d@ + " is not defined for palette "@ + p@,
            self matches PaletteError::UndefinedTagColour(t, c, p) ==> r@ == "Colour "@ + c@
                + " for "@ + t@ + " is not defined for palette "@ + p@,
    {
        match self {
            PaletteError::InvalidTheme(t, p) => {
                let mut s = String::from_str("Invalid theme ");
                s.append(t.as_str());
                s.append(" for palette ");
                s.append(p.as_str());
                s
            },
            PaletteError::BadColourLiteral(n, l) => {
                let mut s = String::from_str("Colour ");
                s.append(n.as_str());
                s.append(" has unparsable literal ");
                s.append(l.as_str());
                s
            },
            PaletteError::UndefinedDuoColour(d, p) => {
                let mut s = String::from_str("Duo colour ");
                s.append(d.as_str());
                s.append(" is not defined for palette ");
                s.append(p.as_str());
                s
            },
            PaletteError::UndefinedDefaultColour(d, p) => {
                let mut s = String::from_str("Default colour ");
                s.append(d.as_str());
                s.append(" is not defined for palette ");
                s.append(p.as_str());
                s
            },
            PaletteError::UndefinedTagColour(t, c, p) => {
                let mut s = String::from_str("Colour ");
                s.append(c.as_str());
                s.append(" for ");
                s.append(t.as_str());
                s.append(" is not defined for palette ");
                s.append(p.as_str());
                s
            },
        }
    }
}

/// Parses colour definitions in order into a colour table; the first literal
/// that does not parse is the error.
pub open spec fn spec_parse_defs(pairs: Seq<(Seq<char>, Seq<char>)>) -> Result<
    Seq<(Seq<char>, Rgb)>,
    PaletteErrorView,
>
    decreases pairs.len(),
{
    if pairs.len() == 0 {
        Ok(Seq::empty())
    } else {
        match spec_parse_defs(pairs.drop_last()) {
            Err(e) => Err(e),
            Ok(t) => match spec_parse_hex(pairs.last().1) {
                None => Err(PaletteErrorView::BadColourLiteral(pairs.last().0, pairs.last().1)),
                Some(c) => Ok(seq_insert(t, pairs.last().0, c)),
            },
        }
    }
}

/// Turns a colour table into a fill table with a fixed duo (overlay) colour.
pub open spec fn spec_fills_table(colours: Seq<(Seq<char>, Rgb)>, duo: Rgb) -> Seq<
    (Seq<char>, IconFills),
> {
    colours.map(|i: int, p: (Seq<char>, Rgb)| (p.0, spec_fills_from_colours(p.1, duo)))
}

/// Resolves per-tag-path colour references against a fill table, in order;
/// the first unknown reference is the error.
pub open spec fn spec_tag_table(
    tag_colours: Seq<(Seq<char>, Seq<char>)>,
    fills: Seq<(Seq<char>, IconFills)>,
    palette: Seq<char>,
) -> Result<Seq<(Seq<char>, IconFills)>, PaletteErrorView>
    decreases tag_colours.len(),
{
    if tag_colours.len() == 0 {
        Ok(Seq::empty())
    } else {
        match spec_tag_table(tag_colours.drop_last(), fills, palette) {
            Err(e) => Err(e),
            Ok(t) => match seq_lookup(fills, tag_colours.last().1) {
                None => Err(
                    PaletteErrorView::UndefinedTagColour(
                        tag_colours.last().0,
                        tag_colours.last().1,
                        palette,
                    ),
                ),
                Some(f) => Ok(seq_insert(t, tag_colours.last().0, f)),
            },
        }
    }
}

/// Realises one theme of a palette definition from that theme's colour
/// definitions.
pub open spec fn spec_palette_for_theme(
    def: PaletteDefView,
    theme_defs: Seq<(Seq<char>, Seq<char>)>,
) -> Result<PaletteView, PaletteErrorView> {
    match spec_parse_defs(theme_defs) {
        Err(e) => Err(e),
        Ok(colours) => match seq_lookup(colours, def.duo_colour) {
            None => Err(PaletteErrorView::UndefinedDuoColour(def.duo_colour, def.name)),
            Some(duo) => {
                let fills = spec_fills_table(colours, duo);
                match seq_lookup(fills, def.default_colour) {
                    None => Err(
                        PaletteErrorView::UndefinedDefaultColour(def.default_colour, def.name),
                    ),
                    Some(default_fills) => match spec_tag_table(def.tag_colours, fills, def.name) {
                        Err(e) => Err(e),
                        Ok(tag_fills) => Ok(
                            PaletteView { name: def.name, default_fills, tag_fills },
                        ),
                    },
                }
            },
        },
    }
}

/// Realises every theme of a palette definition, in definition order; a
/// theme key other than "light" or "dark" is an error, and the first error
/// of any theme wins.
pub open spec fn spec_compile_palette(def: PaletteDefView) -> Result<
    Seq<(IconTheme, PaletteView)>,
    PaletteErrorView,
> {
    spec_compile_themes(def, def.theme_definitions)
}

pub open spec fn spec_compile_themes(
    def: PaletteDefView,
    themes: Seq<(Seq<char>, Seq<(Seq<char>, Seq<char>)>)>,
) -> Result<Seq<(IconTheme, PaletteView)>, PaletteErrorView>
    decreases themes.len(),
{
    if themes.len() == 0 {
        Ok(Seq::empty())
    } else {
        match spec_compile_themes(def, themes.drop_last()) {
            Err(e) => Err(e),
            Ok(t) => match spec_theme_of(themes.last().0) {
                None => Err(PaletteErrorView::InvalidTheme(themes.last().0, def.name)),
                Some(theme) => match spec_palette_for_theme(def, themes.last().1) {
                    Err(e) => Err(e),
                    Ok(pv) => Ok(t.push((theme, pv))),
                },
            },
        }
    }
}

/// Parses one theme's colour definitions into a colour table.
fn parse_colour_defs(defs: &Vec<(String, String)>) -> (r: Result<Dict<Rgb>, PaletteError>)
    ensures
        r matches Ok(d) ==> d.wf() && spec_parse_defs(pairs_view(defs@)) == Ok::<
            _,
            PaletteErrorView,
        >(d.view_seq()),
        r matches Err(e) ==> spec_parse_defs(pairs_view(defs@)) == Err::<Seq<(Seq<char>, Rgb)>, _>(
            e@,
        ),
{
    let ghost pv = pairs_view(defs@);
    let mut table: Dict<Rgb> = Dict::new();
    let mut i: usize = 0;
    while i < defs.len()
        invariant
            0 <= i <= defs@.len(),
            pv == pairs_view(defs@),
            pv.len() == defs@.len(),
            table.wf(),
            spec_parse_defs(pv.take(i as int)) == Ok::<_, PaletteErrorView>(table.view_seq()),
            forall|k: int| 0 <= k < pv.len() ==> pv[k] == (defs@[k].0@, defs@[k].1@),
        decreases defs@.len() - i,
    {
        proof {
            assert(pv.take(i as int + 1).drop_last() =~= pv.take(i as int));
            assert(pv.take(i as int + 1).last() == pv[i as int]);
        }
        match parse_hex_colour(defs[i].1.as_str()) {
            None => {
                proof {
                    lemma_parse_defs_err_persists(pv, i as int + 1);
                }
                return Err(PaletteError::BadColourLiteral(defs[i].0.clone(), defs[i].1.clone()));
            },
            Some(c) => {
                table.insert(defs[i].0.clone(), c);
            },
        }
        i = i + 1;
    }
    proof {
        assert(pv.take(defs@.len() as int) =~= pv);
    }
    Ok(table)
}

proof fn lemma_parse_defs_err_persists(pairs: Seq<(Seq<char>, Seq<char>)>, i: int)
    requires
        0 <= i <= pairs.len(),
        spec_parse_defs(pairs.take(i)) is Err,
    ensures
        spec_parse_defs(pairs) == spec_parse_defs(pairs.take(i)),
    decreases pairs.len() - i,
{
    if i < pairs.len() {
        assert(pairs.take(i + 1).drop_last() =~= pairs.take(i));
        lemma_parse_defs_err_persists(pairs, i + 1);
    } else {
        assert(pairs.take(i) =~= pairs);
    }
}

/// Builds the fill table of one theme from its colour table and duo colour.
fn make_fills_table(colours: &Dict<Rgb>, duo: Rgb) -> (r: Dict<IconFills>)
    requires
        colours.wf(),
    ensures
        r.wf(),
        r.view_seq() == spec_fills_table(colours.view_seq(), duo),
{
    let ghost cv = colours.view_seq();
    let mut out: Dict<IconFills> = Dict::new();
    let n = colours.len();
    let mut i: usize = 0;
    while i < n
        invariant
            0 <= i <= n,
            n == cv.len(),
            cv == colours.view_seq(),
            colours.wf(),
            out.wf(),
            out.view_seq() =~= spec_fills_table(cv.take(i as int), duo),
            forall|a: int, b: int| 0 <= a < b < i ==> cv[a].0 != cv[b].0,
        decreases n - i,
    {
        let key = colours.key_at(i).clone();
        let c = *colours.val_at(i);
        let ghost before = out.view_seq();
        out.insert(key, IconFills::from_colours(c, duo));
        proof {
            assert(forall|a: int, b: int|
                0 <= a < b < cv.len() ==> cv[a].0 != cv[b].0);
            assert(forall|k: int| 0 <= k < i ==> before[k].0 == cv[k].0);
            assert(forall|k: int| 0 <= k < i ==> before[k].0 != cv[i as int].0);
            crate::dict::lemma_insert_appends(before, cv[i as int].0, spec_fills_from_colours(c, duo));
            assert(out.view_seq() =~= before.push(
                (cv[i as int].0, spec_fills_from_colours(c, duo)),
            ));
            assert(spec_fills_table(cv.take(i as int + 1), duo) =~= spec_fills_table(
                cv.take(i as int),
                duo,
            ).push((cv[i as int].0, spec_fills_from_colours(c, duo))));
        }
        i = i + 1;
    }
    proof {
        assert(cv.take(n as int) =~= cv);
    }
    out
}

/// Resolves the per-tag-path colour references of a palette against one
/// theme's fill table.
fn make_tag_table(
    tag_colours: &Vec<(String, String)>,
    fills: &Dict<IconFills>,
    palette: &String,
) -> (r: Result<Dict<IconFills>, PaletteError>)
    requires
        fills.wf(),
    ensures
        r matches Ok(d) ==> d.wf() && spec_tag_table(
            pairs_view(tag_colours@),
            fills.view_seq(),
            palette@,
        ) == Ok::<_, PaletteErrorView>(d.view_seq()),
        r matches Err(e) ==> spec_tag_table(pairs_view(tag_colours@), fills.view_seq(), palette@)
            == Err::<Seq<(Seq<char>, IconFills)>, _>(e@),
{
    let ghost tv = pairs_view(tag_colours@);
    let mut out: Dict<IconFills> = Dict::new();
    let mut i: usize = 0;
    while i < tag_colours.len()
        invariant
            0 <= i <= tag_colours@.len(),
            tv == pairs_view(tag_colours@),
            tv.len() == tag_colours@.len(),
            fills.wf(),
            out.wf(),
            spec_tag_table(tv.take(i as int), fills.view_seq(), palette@) == Ok::<
                _,
                PaletteErrorView,
            >(out.view_seq()),
            forall|k: int| 0 <= k < tv.len() ==> tv[k] == (tag_colours@[k].0@, tag_colours@[k].1@),
        decreases tag_colours@.len() - i,
    {
        proof {
            assert(tv.take(i as int + 1).drop_last() =~= tv.take(i as int));
            assert(tv.take(i as int + 1).last() == tv[i as int]);
        }
        match fills.get(tag_colours[i].1.as_str()) {
            None => {
                proof {
                    lemma_tag_table_err_persists(tv, fills.view_seq(), palette@, i as int + 1);
                }
                return Err(
                    PaletteError::UndefinedTagColour(
                        tag_colours[i].0.clone(),
                        tag_colours[i].1.clone(),
                        palette.clone(),
                    ),
                );
            },
            Some(f) => {
                let ff = *f;
                out.insert(tag_colours[i].0.clone(), ff);
            },
        }
        i = i + 1;
    }
    proof {
        assert(tv.take(tag_colours@.len() as int) =~= tv);
    }
    Ok(out)
}

proof fn lemma_tag_table_err_persists(
    tag_colours: Seq<(Seq<char>, Seq<char>)>,
    fills: Seq<(Seq<char>, IconFills)>,
    palette: Seq<char>,
    i: int,
)
    requires
        0 <= i <= tag_colours.len(),
        spec_tag_table(tag_colours.take(i), fills, palette) is Err,
    ensures
        spec_tag_table(tag_colours, fills, palette) == spec_tag_table(
            tag_colours.take(i),
            fills,
            palette,
        ),
    decreases tag_colours.len() - i,
{
    if i < tag_colours.len() {
        assert(tag_colours.take(i + 1).drop_last() =~= tag_colours.take(i));
        lemma_tag_table_err_persists(tag_colours, fills, palette, i + 1);
    } else {
        assert(tag_colours.take(i) =~= tag_colours);
    }
}

impl IconPalette {
    /// Realises one theme of a palette definition.
    fn for_theme(def: &PaletteDef, defs: &Vec<(String, String)>) -> (r: Result<
        IconPalette,
        PaletteError,
    >)
        ensures
            r matches Ok(p) ==> p.wf() && spec_palette_for_theme(def@, pairs_view(defs@)) == Ok::<
                _,
                PaletteErrorView,
            >(p@),
            r matches Err(e) ==> spec_palette_for_theme(def@, pairs_view(defs@)) == Err::<
                PaletteView,
                _,
            >(e@),
    {
        let colours = match parse_colour_defs(defs) {
            Ok(c) => c,
            Err(e) => {
                return Err(e);
            },
        };
        let duo = match colours.get(def.duo_colour.as_str()) {
            Some(c) => *c,
            None => {
                return Err(
                    PaletteError::UndefinedDuoColour(def.duo_colour.clone(), def.name.clone()),
                );
            },
        };
        let fills = make_fills_table(&colours, duo);
        let default_fills = match fills.get(def.default_colour.as_str()) {
            Some(f) => *f,
            None => {
                return Err(
                    PaletteError::UndefinedDefaultColour(
                        def.default_colour.clone(),
                        def.name.clone(),
                    ),
                );
            },
        };
        let tag_fills = match make_tag_table(&def.tag_colours, &fills, &def.name) {
            Ok(t) => t,
            Err(e) => {
                return Err(e);
            },
        };
        Ok(IconPalette { name: def.name.clone(), default_fills, tag_fills })
    }

    /// Realises every theme of a palette definition, in definition order.
    pub fn all_from_json(def: &PaletteDef) -> (r: Result<
        Vec<(IconTheme, IconPalette)>,
        PaletteError,
    >)
        ensures
            r matches Ok(v) ==> (spec_compile_palette(def@) matches Ok(pvs) && palettes_match(
                v@,
                pvs,
            )),
            r matches Err(e) ==> spec_compile_palette(def@) == Err::<
                Seq<(IconTheme, PaletteView)>,
                PaletteErrorView,
            >(e@),
    {
        let ghost tds = def@.theme_definitions;
        let mut out: Vec<(IconTheme, IconPalette)> = Vec::new();
        let ghost mut gpvs = Seq::<(IconTheme, PaletteView)>::empty();
        let mut i: usize = 0;
        while i < def.theme_definitions.len()
            invariant
                0 <= i <= def.theme_definitions@.len(),
                tds == def@.theme_definitions,
                tds.len() == def.theme_definitions@.len(),
                forall|k: int|
                    0 <= k < tds.len() ==> #[trigger] tds[k] == (
                        def.theme_definitions@[k].0@,
                        pairs_view(def.theme_definitions@[k].1@),
                    ),
                spec_compile_themes(def@, tds.take(i as int)) == Ok::<_, PaletteErrorView>(gpvs),
                palettes_match(out@, gpvs),
            decreases def.theme_definitions@.len() - i,
        {
            proof {
                assert(tds.take(i as int + 1).drop_last() =~= tds.take(i as int));
                assert(tds.take(i as int + 1).last() == tds[i as int]);
            }
            let theme_name = &def.theme_definitions[i].0;
            let theme = if string_eq(theme_name, "light") {
                proof {
                    assert(spec_theme_of(tds[i as int].0) == Some(IconTheme::Light));
                }
                IconTheme::Light
            } else if string_eq(theme_name, "dark") {
                proof {
                    assert(spec_theme_of(tds[i as int].0) == Some(IconTheme::Dark));
                }
                IconTheme::Dark
            } else {
                proof {
                    assert(spec_theme_of(tds[i as int].0) is None);
                    lemma_compile_themes_err_persists(def@, tds, i as int + 1);
                }
                return Err(PaletteError::InvalidTheme(theme_name.clone(), def.name.clone()));
            };
            let palette = match Self::for_theme(def, &def.theme_definitions[i].1) {
                Ok(p) => p,
                Err(e) => {
                    proof {
                        lemma_compile_themes_err_persists(def@, tds, i as int + 1);
                    }
                    return Err(e);
                },
            };
            let ghost pview = palette@;
            proof {
                assert(tds[i as int].1 == pairs_view(def.theme_definitions@[i as int].1@));
                assert(spec_palette_for_theme(def@, tds[i as int].1) == Ok::<
                    PaletteView,
                    PaletteErrorView,
                >(pview));
                assert(spec_compile_themes(def@, tds.take(i as int + 1)) == Ok::<
                    Seq<(IconTheme, PaletteView)>,
                    PaletteErrorView,
                >(gpvs.push((theme, pview))));
                lemma_palettes_match_push(out@, gpvs, theme, palette);
                gpvs = gpvs.push((theme, pview));
            }
            out.push((theme, palette));
            i = i + 1;
        }
        proof {
            assert(tds.take(def.theme_definitions@.len() as int) =~= tds);
        }
        Ok(out)
    }
}

/// The realised palettes correspond pairwise to their mathematical values.
pub open spec fn palettes_match(
    v: Seq<(IconTheme, IconPalette)>,
    pvs: Seq<(IconTheme, PaletteView)>,
) -> bool {
    v.len() == pvs.len() && forall|k: int|
        0 <= k < v.len() ==> (#[trigger] pvs[k]).0 == v[k].0 && pvs[k].1 == v[k].1@ && v[k].1.wf()
}

proof fn lemma_palettes_match_push(
    v: Seq<(IconTheme, IconPalette)>,
    pvs: Seq<(IconTheme, PaletteView)>,
    t: IconTheme,
    p: IconPalette,
)
    requires
        palettes_match(v, pvs),
        p.wf(),
    ensures
        palettes_match(v.push((t, p)), pvs.push((t, p@))),
{
    let v2 = v.push((t, p));
    let p2 = pvs.push((t, p@));
    assert forall|k: int|
        0 <= k < v2.len() implies (#[trigger] p2[k]).0 == v2[k].0 && p2[k].1 == v2[k].1@
        && v2[k].1.wf() by {
        if k < v.len() {
            assert(p2[k] == pvs[k]);
            assert(v2[k] == v[k]);
        } else {
            assert(p2[k] == (t, p@));
            assert(v2[k] == (t, p));
        }
    }
}

proof fn lemma_compile_themes_err_persists(
    def: PaletteDefView,
    themes: Seq<(Seq<char>, Seq<(Seq<char>, Seq<char>)>)>,
    i: int,
)
    requires
        0 <= i <= themes.len(),
        spec_compile_themes(def, themes.take(i)) is Err,
    ensures
        spec_compile_themes(def, themes) == spec_compile_themes(def, themes.take(i)),
    decreases themes.len() - i,
{
    if i < themes.len() {
        assert(themes.take(i + 1).drop_last() =~= themes.take(i));
        lemma_compile_themes_err_persists(def, themes, i + 1);
    } else {
        assert(themes.take(i) =~= themes);
    }
}

} // verus!
