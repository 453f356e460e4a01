use iconpack::classify::{classify_paths, IconData, IconError, PathStyle, RoleSlots};

fn style(has_fill: bool, is_colour: bool, red: u8, blue: u8, opacity: u8) -> PathStyle {
    PathStyle { has_fill, is_colour, red, blue, opacity }
}

fn opaque_plain() -> PathStyle {
    style(true, true, 250, 250, 255)
}

fn translucent_plain() -> PathStyle {
    style(true, true, 250, 250, 120)
}

#[test]
fn single_opaque_path_is_only_primary() {
    let r = classify_paths(&vec![opaque_plain()]).unwrap();
    assert_eq!(r, RoleSlots { primary: Some(0), secondary: None, overlay: None });
}

#[test]
fn opaque_and_translucent_pair_is_primary_and_secondary() {
    let r = classify_paths(&vec![opaque_plain(), translucent_plain()]).unwrap();
    assert_eq!(r, RoleSlots { primary: Some(0), secondary: Some(1), overlay: None });
    let r = classify_paths(&vec![translucent_plain(), opaque_plain()]).unwrap();
    assert_eq!(r, RoleSlots { primary: Some(1), secondary: Some(0), overlay: None });
}

#[test]
fn two_translucent_paths_clash_on_secondary() {
    let r = classify_paths(&vec![translucent_plain(), translucent_plain()]);
    assert_eq!(r, Err(IconError::TwoSecondary));
    assert_eq!(
        IconError::TwoSecondary.message(),
        "Icon has two secondary layers"
    );
}

#[test]
fn unfilled_path_is_an_error() {
    let r = classify_paths(&vec![style(false, false, 0, 0, 0)]);
    assert_eq!(r, Err(IconError::NoFill));
    assert_eq!(IconError::NoFill.message(), "No fill found for path");
}

#[test]
fn low_blue_and_red_colour_is_the_overlay() {
    let r = classify_paths(&vec![style(true, true, 199, 199, 255)]).unwrap();
    assert_eq!(r, RoleSlots { primary: None, secondary: None, overlay: Some(0) });
}

#[test]
fn overlay_thresholds_are_exact() {
    // A red or blue channel at 200 is no longer overlay-coloured.
    let r = classify_paths(&vec![style(true, true, 200, 199, 255)]).unwrap();
    assert_eq!(r.overlay, None);
    assert_eq!(r.primary, Some(0));
    let r = classify_paths(&vec![style(true, true, 199, 200, 255)]).unwrap();
    assert_eq!(r.overlay, None);
    // Opacity 200 is primary, 199 is secondary.
    let r = classify_paths(&vec![style(true, true, 250, 250, 200)]).unwrap();
    assert_eq!(r.primary, Some(0));
    let r = classify_paths(&vec![style(true, true, 250, 250, 199)]).unwrap();
    assert_eq!(r.secondary, Some(0));
}

#[test]
fn gradient_paint_is_never_overlay() {
    // Not a flat colour: the channel test cannot make it an overlay.
    let r = classify_paths(&vec![style(true, false, 0, 0, 255)]).unwrap();
    assert_eq!(r, RoleSlots { primary: Some(0), secondary: None, overlay: None });
}

#[test]
fn two_primaries_and_two_overlays_fail() {
    let r = classify_paths(&vec![opaque_plain(), opaque_plain()]);
    assert_eq!(r, Err(IconError::TwoPrimary));
    let overlay = style(true, true, 10, 10, 255);
    let r = classify_paths(&vec![overlay, overlay]);
    assert_eq!(r, Err(IconError::TwoOverlay));
}

fn svg_one_path(fill: &str, extra: &str) -> Vec<u8> {
    format!(
        "<svg xmlns=\"http://www.w3.org/2000/svg\" viewBox=\"0 0 16 16\">\
         <path d=\"M 0 0 L 16 0 L 16 16 L 0 16 Z\" fill=\"{}\"{}/></svg>",
        fill, extra
    )
    .into_bytes()
}

#[test]
fn svg_with_one_red_path_has_only_a_primary_layer() {
    let icon = IconData::from_svg_data(svg_one_path("#ff0000", "")).unwrap();
    assert!(icon.primary_path_data.is_some());
    assert!(icon.secondary_path_data.is_none());
    assert!(icon.overlay_path_data.is_none());
    // The geometry crosses the boundary as absolute SVG path data text.
    assert_eq!(
        icon.primary_path_data.unwrap(),
        "M 0 0 L 16 0 L 16 16 L 0 16 Z "
    );
}

#[test]
fn svg_without_fill_is_refused() {
    let r = IconData::from_svg_data(svg_one_path("none", ""));
    assert_eq!(r, Err(IconError::NoFill));
}

#[test]
fn svg_with_two_translucent_paths_is_refused() {
    let svg = "<svg xmlns=\"http://www.w3.org/2000/svg\" viewBox=\"0 0 16 16\">\
               <path d=\"M 0 0 L 8 0 L 8 8 L 0 8 Z\" fill=\"#ffffff\" fill-opacity=\"0.5\"/>\
               <path d=\"M 8 8 L 16 8 L 16 16 L 8 16 Z\" fill=\"#ffffff\" fill-opacity=\"0.5\"/>\
               </svg>"
        .as_bytes()
        .to_vec();
    let r = IconData::from_svg_data(svg);
    assert_eq!(r, Err(IconError::TwoSecondary));
}

#[test]
fn svg_overlay_colour_goes_to_the_overlay_slot() {
    let icon = IconData::from_svg_data(svg_one_path("#104010", "")).unwrap();
    assert!(icon.overlay_path_data.is_some());
    assert!(icon.primary_path_data.is_none());
}

#[test]
fn svg_half_opacity_goes_to_the_secondary_slot() {
    let icon =
        IconData::from_svg_data(svg_one_path("#ffffff", " fill-opacity=\"0.5\"")).unwrap();
    assert!(icon.secondary_path_data.is_some());
    assert!(icon.primary_path_data.is_none());
}

#[test]
fn unreadable_bytes_are_refused_with_the_parser_message() {
    let r = IconData::from_svg_data(b"this is not an icon".to_vec());
    match r {
        Err(IconError::UnreadableSvg(m)) => assert!(!m.is_empty()),
        other => panic!("expected an unreadable-svg failure, got {:?}", other),
    }
}
