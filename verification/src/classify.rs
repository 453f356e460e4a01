//! The layer classifier: turns one raw vector icon document into a small
//! fixed set of named path layers.
//!
//! Every fill-bearing path of the document is assigned a semantic role from
//! its visual cues, in priority order: a flat colour whose blue and red
//! channels are both under 200 is the overlay; otherwise an opacity under 200
//! (on the 8-bit scale) marks the secondary layer; everything else is the
//! primary layer. A path with no fill, or a second path falling on a role
//! already taken, is a hard error.

use vstd::prelude::*;
use crate::svg::{
    doc_facts, parse_error_of, parse_svg_tree, path_facts, path_node_data_text, path_node_style,
    svg_parses, tree_path_nodes,
};

verus! {

/// The flat facts the classifier reads from one vector path.
#[derive(Clone, Copy, Debug, PartialEq, Eq)]
pub struct PathStyle {
    /// The path has a fill at all.
    pub has_fill: bool,
    /// The fill's paint is a flat colour, not a gradient or a pattern.
    pub is_colour: bool,
    pub red: u8,
    pub blue: u8,
    /// Fill opacity quantised to the 8-bit scale.
    pub opacity: u8,
}

/// Why an icon document was rejected.
#[derive(Clone, Debug, PartialEq, Eq)]
pub enum IconError {
    /// The document could not be parsed; holds the parser's message.
    UnreadableSvg(String),
    NoFill,
    TwoPrimary,
    TwoSecondary,
    TwoOverlay,
}

impl IconError {
    /// The diagnostic text of this failure.
    pub fn message(&self) -> (r: String)
        ensures
            self matches IconError::UnreadableSvg(m) ==> r@ == "Could not read icon: "@ + m@,
            self is NoFill ==> r@ == "No fill found for path"@,
            self is TwoPrimary ==> r@ == "Icon has two primary layers"@,
            self is TwoSecondary ==> r@ == "Icon has two secondary layers"@,
            self is TwoOverlay ==> r@ == "Icon has two overlay layers"@,
    {
        match self {
            IconError::UnreadableSvg(m) => {
                let mut s = String::from_str("Could not read icon: ");
                s.append(m.as_str());
                s
            },
            IconError::NoFill => String::from_str("No fill found for path"),
            IconError::TwoPrimary => String::from_str("Icon has two primary layers"),
            IconError::TwoSecondary => String::from_str("Icon has two secondary layers"),
            IconError::TwoOverlay => String::from_str("Icon has two overlay layers"),
        }
    }
}

/// A flat colour with both blue and red channels under 200 marks the overlay.
pub open spec fn spec_is_overlay(s: PathStyle) -> bool {
    s.is_colour && s.blue < 200 && s.red < 200
}

/// An opacity under 200 (and no overlay colouring) marks the secondary layer.
pub open spec fn spec_is_secondary(s: PathStyle) -> bool {
    s.opacity < 200
}

/// Which path index was chosen for each layer role.
#[derive(Clone, Copy, Debug, PartialEq, Eq)]
pub struct RoleSlots {
    pub primary: Option<usize>,
    pub secondary: Option<usize>,
    pub overlay: Option<usize>,
}

pub open spec fn empty_slots() -> RoleSlots {
    RoleSlots { primary: None, secondary: None, overlay: None }
}

/// Places path `i` with style `s` into its role, refusing a taken role.
pub open spec fn spec_place(acc: RoleSlots, s: PathStyle, i: usize) -> Result<RoleSlots, IconError> {
    if !s.has_fill {
        Err(IconError::NoFill)
    } else if spec_is_overlay(s) {
        if acc.overlay is Some {
            Err(IconError::TwoOverlay)
        } else {
            Ok(RoleSlots { primary: acc.primary, secondary: acc.secondary, overlay: Some(i) })
        }
    } else if spec_is_secondary(s) {
        if acc.secondary is Some {
            Err(IconError::TwoSecondary)
        } else {
            Ok(RoleSlots { primary: acc.primary, secondary: Some(i), overlay: acc.overlay })
        }
    } else {
        if acc.primary is Some {
            Err(IconError::TwoPrimary)
        } else {
            Ok(RoleSlots { primary: Some(i), secondary: acc.secondary, overlay: acc.overlay })
        }
    }
}

/// Classifies the paths in order; the first error wins.
pub open spec fn spec_classify(styles: Seq<PathStyle>) -> Result<RoleSlots, IconError>
    decreases styles.len(),
{
    if styles.len() == 0 {
        Ok(empty_slots())
    } else {
        match spec_classify(styles.drop_last()) {
            Ok(acc) => spec_place(acc, styles.last(), (styles.len() - 1) as usize),
            Err(e) => Err(e),
        }
    }
}

/// Classification failures are structural: never the parser's error.
pub proof fn lemma_classify_err_kind(styles: Seq<PathStyle>)
    ensures
        spec_classify(styles) matches Err(e) ==> !(e is UnreadableSvg),
    decreases styles.len(),
{
    if styles.len() > 0 {
        lemma_classify_err_kind(styles.drop_last());
    }
}

/// An error stays once reached: classifying any extension of a failing
/// prefix fails the same way.
pub proof fn lemma_classify_err_persists(styles: Seq<PathStyle>, i: int)
    requires
        0 <= i <= styles.len(),
        spec_classify(styles.take(i)) is Err,
    ensures
        spec_classify(styles) == spec_classify(styles.take(i)),
    decreases styles.len() - i,
{
    if i < styles.len() {
        assert(styles.take(i + 1).drop_last() =~= styles.take(i));
        lemma_classify_err_persists(styles, i + 1);
    } else {
        assert(styles.take(i) =~= styles);
    }
}

/// Every chosen slot indexes a path of the sequence.
pub proof fn lemma_slots_in_range(styles: Seq<PathStyle>, slots: RoleSlots)
    requires
        spec_classify(styles) == Ok::<RoleSlots, IconError>(slots),
    ensures
        slots.primary matches Some(i) ==> i < styles.len(),
        slots.secondary matches Some(i) ==> i < styles.len(),
        slots.overlay matches Some(i) ==> i < styles.len(),
    decreases styles.len(),
{
    if styles.len() > 0 {
        let prefix = styles.drop_last();
        match spec_classify(prefix) {
            Ok(acc) => {
                lemma_slots_in_range(prefix, acc);
            },
            Err(_) => {},
        }
    }
}

/// Classifies a sequence of path styles into role slots, or fails on the
/// first unfillable or duplicated path.
pub fn classify_paths(styles: &Vec<PathStyle>) -> (r: Result<RoleSlots, IconError>)
    ensures
        r == spec_classify(styles@),
{
    let mut slots = RoleSlots { primary: None, secondary: None, overlay: None };
    let mut i: usize = 0;
    while i < styles.len()
        invariant
            0 <= i <= styles@.len(),
            spec_classify(styles@.take(i as int)) == Ok::<RoleSlots, IconError>(slots),
        decreases styles@.len() - i,
    {
        let s = styles[i];
        proof {
            assert(styles@.take(i as int + 1).drop_last() =~= styles@.take(i as int));
            assert(styles@.take(i as int + 1).last() == styles@[i as int]);
        }
        if !s.has_fill {
            proof {
                lemma_classify_err_persists(styles@, i as int + 1);
            }
            return Err(IconError::NoFill);
        }
        if s.is_colour && s.blue < 200 && s.red < 200 {
            if slots.overlay.is_some() {
                proof {
                    lemma_classify_err_persists(styles@, i as int + 1);
                }
                return Err(IconError::TwoOverlay);
            }
            slots.overlay = Some(i);
        } else if s.opacity < 200 {
            if slots.secondary.is_some() {
                proof {
                    lemma_classify_err_persists(styles@, i as int + 1);
                }
                return Err(IconError::TwoSecondary);
            }
            slots.secondary = Some(i);
        } else {
            if slots.primary.is_some() {
                proof {
                    lemma_classify_err_persists(styles@, i as int + 1);
                }
                return Err(IconError::TwoPrimary);
            }
            slots.primary = Some(i);
        }
        i = i + 1;
    }
    proof {
        assert(styles@.take(styles@.len() as int) =~= styles@);
    }
    Ok(slots)
}

/// One classified icon: at most one path per layer role, each held as SVG
/// path data text. An absent layer is legitimate and is simply omitted when
/// the icon is rendered.
#[derive(Debug, PartialEq, Eq)]
pub struct IconData {
    pub primary_path_data: Option<String>,
    pub secondary_path_data: Option<String>,
    pub overlay_path_data: Option<String>,
}

/// The mathematical value of a classified icon: the path data text of each
/// present layer.
pub struct LayersView {
    pub primary: Option<Seq<char>>,
    pub secondary: Option<Seq<char>>,
    pub overlay: Option<Seq<char>>,
}

impl View for IconData {
    type V = LayersView;

    open spec fn view(&self) -> LayersView {
        LayersView {
            primary: match self.primary_path_data {
                Some(s) => Some(s@),
                None => None,
            },
            secondary: match self.secondary_path_data {
                Some(s) => Some(s@),
                None => None,
            },
            overlay: match self.overlay_path_data {
                Some(s) => Some(s@),
                None => None,
            },
        }
    }
}

/// The style facts of every path of a document, in walk order.
pub open spec fn doc_styles(data: Seq<u8>) -> Seq<PathStyle> {
    doc_facts(data).map(
        |i: int, f: ((bool, bool, u8, u8, u8), Seq<char>)|
            PathStyle {
                has_fill: f.0.0,
                is_colour: f.0.1,
                red: f.0.2,
                blue: f.0.3,
                opacity: f.0.4,
            },
    )
}

/// The layers owed for a document once classification chose these slots.
pub open spec fn doc_layers(data: Seq<u8>, slots: RoleSlots) -> LayersView {
    LayersView {
        primary: match slots.primary {
            Some(i) => Some(doc_facts(data)[i as int].1),
            None => None,
        },
        secondary: match slots.secondary {
            Some(i) => Some(doc_facts(data)[i as int].1),
            None => None,
        },
        overlay: match slots.overlay {
            Some(i) => Some(doc_facts(data)[i as int].1),
            None => None,
        },
    }
}

impl IconData {
    /// Parses a raw vector icon document and classifies its paths into layer
    /// roles.
    pub fn from_svg_data(svg_data: Vec<u8>) -> (r: Result<IconData, IconError>)
        ensures
            r matches Ok(d) ==> (spec_classify(doc_styles(svg_data@)) matches Ok(slots)
                && d@ == doc_layers(svg_data@, slots)),
            r matches Err(e) ==> (e matches IconError::UnreadableSvg(_) || spec_classify(
                doc_styles(svg_data@),
            ) == Err::<RoleSlots, IconError>(e)),
            (r matches Err(e) && e matches IconError::UnreadableSvg(_)) <==> !svg_parses(
                svg_data@,
            ),
            r matches Err(e) ==> (e matches IconError::UnreadableSvg(m) ==> m@ == parse_error_of(
                svg_data@,
            )),
    {
        let tree = match parse_svg_tree(&svg_data) {
            Ok(t) => t,
            Err(m) => {
                return Err(IconError::UnreadableSvg(m));
            },
        };
        let nodes = tree_path_nodes(&tree);
        let ghost facts = doc_facts(svg_data@);
        let mut styles: Vec<PathStyle> = Vec::new();
        let mut j: usize = 0;
        while j < nodes.len()
            invariant
                0 <= j <= nodes@.len(),
                styles@.len() == j,
                facts == doc_facts(svg_data@),
                nodes@.len() == facts.len(),
                forall|k: int| 0 <= k < nodes@.len() ==> path_facts(nodes@[k]) == facts[k],
                forall|k: int| 0 <= k < j ==> styles@[k] == doc_styles(svg_data@)[k],
            decreases nodes@.len() - j,
        {
            let st = path_node_style(&nodes[j]);
            proof {
                assert(doc_styles(svg_data@).len() == facts.len());
                assert(doc_styles(svg_data@)[j as int] == PathStyle {
                    has_fill: facts[j as int].0.0,
                    is_colour: facts[j as int].0.1,
                    red: facts[j as int].0.2,
                    blue: facts[j as int].0.3,
                    opacity: facts[j as int].0.4,
                });
            }
            styles.push(st);
            j = j + 1;
        }
        proof {
            assert(styles@ =~= doc_styles(svg_data@));
        }
        let slots = match classify_paths(&styles) {
            Ok(s) => s,
            Err(e) => {
                proof {
                    lemma_classify_err_kind(doc_styles(svg_data@));
                }
                return Err(e);
            },
        };
        proof {
            lemma_slots_in_range(styles@, slots);
        }
        let primary_path_data = match slots.primary {
            Some(i) => Some(path_node_data_text(&nodes[i])),
            None => None,
        };
        let secondary_path_data = match slots.secondary {
            Some(i) => Some(path_node_data_text(&nodes[i])),
            None => None,
        };
        let overlay_path_data = match slots.overlay {
            Some(i) => Some(path_node_data_text(&nodes[i])),
            None => None,
        };
        Ok(IconData { primary_path_data, secondary_path_data, overlay_path_data })
    }
}

/// A lone fill-bearing path that is neither overlay-coloured nor translucent
/// becomes the primary layer, and nothing else.
pub proof fn lemma_single_opaque_path_is_primary(styles: Seq<PathStyle>)
    requires
        styles.len() == 1,
        styles[0].has_fill,
        styles[0].opacity >= 200,
        !spec_is_overlay(styles[0]),
    ensures
        spec_classify(styles) == Ok::<RoleSlots, IconError>(
            RoleSlots { primary: Some(0usize), secondary: None, overlay: None },
        ),
{
    let e = Seq::<PathStyle>::empty();
    assert(spec_classify(e) == Ok::<RoleSlots, IconError>(empty_slots()));
    assert(styles.drop_last() =~= e);
    assert(spec_classify(styles) == spec_place(empty_slots(), styles.last(), 0usize));
    assert(styles.last() == styles[0]);
}

/// Two fill-bearing paths, neither overlay-coloured, one opaque and one
/// translucent, become exactly a primary and a secondary layer, in either
/// order, with no overlay.
pub proof fn lemma_opaque_translucent_pair(styles: Seq<PathStyle>)
    requires
        styles.len() == 2,
        forall|i: int| 0 <= i < 2 ==> styles[i].has_fill && !spec_is_overlay(styles[i]),
        (styles[0].opacity >= 200) != (styles[1].opacity >= 200),
    ensures
        spec_classify(styles) == Ok::<RoleSlots, IconError>(
            RoleSlots {
                primary: Some((if styles[0].opacity >= 200 { 0usize } else { 1usize })),
                secondary: Some((if styles[0].opacity >= 200 { 1usize } else { 0usize })),
                overlay: None,
            },
        ),
{
    let e = Seq::<PathStyle>::empty();
    let first = styles.drop_last();
    assert(spec_classify(e) == Ok::<RoleSlots, IconError>(empty_slots()));
    assert(first.drop_last() =~= e);
    assert(first.len() == 1);
    assert(first.last() == styles[0]);
    assert(spec_classify(first) == spec_place(empty_slots(), styles[0], 0usize));
    assert(styles.last() == styles[1]);
    let mid = spec_classify(first)->Ok_0;
    assert(spec_classify(styles) == spec_place(mid, styles[1], 1usize));
}

/// Two translucent, non-overlay, fill-bearing paths clash on the secondary
/// role.
pub proof fn lemma_two_translucent_paths_fail(styles: Seq<PathStyle>)
    requires
        styles.len() == 2,
        forall|i: int| 0 <= i < 2 ==> styles[i].has_fill && !spec_is_overlay(styles[i])
            && styles[i].opacity < 200,
    ensures
        spec_classify(styles) == Err::<RoleSlots, IconError>(IconError::TwoSecondary),
{
    let e = Seq::<PathStyle>::empty();
    let first = styles.drop_last();
    assert(spec_classify(e) == Ok::<RoleSlots, IconError>(empty_slots()));
    assert(first.drop_last() =~= e);
    assert(first.len() == 1);
    assert(first.last() == styles[0]);
    assert(spec_classify(first) == spec_place(empty_slots(), styles[0], 0usize));
    assert(styles.last() == styles[1]);
    let mid = spec_classify(first)->Ok_0;
    assert(spec_classify(styles) == spec_place(mid, styles[1], 1usize));
}

/// A path with no fill at all is a hard error: wherever it stands, if the
/// paths before it classify without clashing, the whole document fails with
/// the no-fill error.
pub proof fn lemma_unfilled_path_fails(styles: Seq<PathStyle>, i: int)
    requires
        0 <= i < styles.len(),
        !styles[i].has_fill,
        spec_classify(styles.take(i)) is Ok,
    ensures
        spec_classify(styles.take(i + 1)) == Err::<RoleSlots, IconError>(IconError::NoFill),
        spec_classify(styles) == Err::<RoleSlots, IconError>(IconError::NoFill),
{
    assert(styles.take(i + 1).drop_last() =~= styles.take(i));
    assert(styles.take(i + 1).last() == styles[i]);
    lemma_classify_err_persists(styles, i + 1);
}

} // verus!
