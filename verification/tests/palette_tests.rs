use iconpack::dict::Dict;
use iconpack::palette::{
    parse_hex_colour, IconFills, IconPalette, IconTheme, PaletteDef, PaletteError, Rgb,
};
use iconpack::resolve::get_fill_for;

#[test]
fn hex_parsing_accepts_the_four_shapes_and_drops_alpha() {
    assert_eq!(
        parse_hex_colour("#FF8000"),
        Some(Rgb { red: 255, green: 128, blue: 0 })
    );
    assert_eq!(
        parse_hex_colour("#f00"),
        Some(Rgb { red: 255, green: 0, blue: 0 })
    );
    assert_eq!(
        parse_hex_colour("#f00a"),
        Some(Rgb { red: 255, green: 0, blue: 0 })
    );
    assert_eq!(
        parse_hex_colour("#ff000080"),
        Some(Rgb { red: 255, green: 0, blue: 0 })
    );
}

#[test]
fn hex_parsing_refuses_other_shapes() {
    assert_eq!(parse_hex_colour(""), None);
    assert_eq!(parse_hex_colour("red"), None);
    assert_eq!(parse_hex_colour("ff0000"), None);
    assert_eq!(parse_hex_colour("#12345"), None);
    assert_eq!(parse_hex_colour("#gg0000"), None);
    // A sign is not a hexadecimal digit, in any channel position.
    assert_eq!(parse_hex_colour("#+1+2+3"), None);
    assert_eq!(parse_hex_colour("# f0000"), None);
}

#[test]
fn fills_from_colours_set_the_fixed_opacities() {
    let main = Rgb { red: 10, green: 20, blue: 230 };
    let duo = Rgb { red: 1, green: 2, blue: 3 };
    let fills = IconFills::from_colours(main, duo);
    assert_eq!(fills.primary_fill.colour, main);
    assert_eq!(fills.primary_fill.opacity, 255);
    assert_eq!(fills.secondary_fill.colour, main);
    assert_eq!(fills.secondary_fill.opacity, 153);
    assert_eq!(fills.overlay_fill.colour, duo);
    assert_eq!(fills.overlay_fill.opacity, 255);
}

fn sample_def() -> PaletteDef {
    PaletteDef {
        name: "Sample".to_string(),
        theme_definitions: vec![
            (
                "light".to_string(),
                vec![
                    ("white".to_string(), "#ffffff".to_string()),
                    ("blue".to_string(), "#0000ff".to_string()),
                ],
            ),
            (
                "dark".to_string(),
                vec![
                    ("white".to_string(), "#202020".to_string()),
                    ("blue".to_string(), "#000080".to_string()),
                ],
            ),
        ],
        default_colour: "white".to_string(),
        duo_colour: "blue".to_string(),
        tag_colours: vec![("A>B".to_string(), "blue".to_string())],
    }
}

#[test]
fn a_palette_realises_once_per_theme_in_order() {
    let all = IconPalette::all_from_json(&sample_def()).unwrap();
    assert_eq!(all.len(), 2);
    assert_eq!(all[0].0, IconTheme::Light);
    assert_eq!(all[1].0, IconTheme::Dark);
    let light = &all[0].1;
    assert_eq!(light.name, "Sample");
    assert_eq!(
        light.default_fills.primary_fill.colour,
        Rgb { red: 255, green: 255, blue: 255 }
    );
    // Every overlay takes the duo colour.
    assert_eq!(
        light.default_fills.overlay_fill.colour,
        Rgb { red: 0, green: 0, blue: 255 }
    );
    let dark = &all[1].1;
    assert_eq!(
        dark.default_fills.primary_fill.colour,
        Rgb { red: 32, green: 32, blue: 32 }
    );
}

#[test]
fn unknown_theme_names_are_refused() {
    let mut def = sample_def();
    def.theme_definitions[0].0 = "dusk".to_string();
    assert_eq!(
        IconPalette::all_from_json(&def),
        Err(PaletteError::InvalidTheme("dusk".to_string(), "Sample".to_string()))
    );
}

#[test]
fn bad_colour_literals_are_refused() {
    let mut def = sample_def();
    def.theme_definitions[0].1[1].1 = "blue".to_string();
    assert_eq!(
        IconPalette::all_from_json(&def),
        Err(PaletteError::BadColourLiteral("blue".to_string(), "blue".to_string()))
    );
}

#[test]
fn undefined_duo_and_default_references_are_refused() {
    let mut def = sample_def();
    def.duo_colour = "violet".to_string();
    assert_eq!(
        IconPalette::all_from_json(&def),
        Err(PaletteError::UndefinedDuoColour("violet".to_string(), "Sample".to_string()))
    );
    let mut def = sample_def();
    def.default_colour = "violet".to_string();
    assert_eq!(
        IconPalette::all_from_json(&def),
        Err(PaletteError::UndefinedDefaultColour("violet".to_string(), "Sample".to_string()))
    );
}

#[test]
fn palette_failures_carry_their_context_in_text() {
    assert_eq!(
        PaletteError::InvalidTheme("dusk".to_string(), "Sample".to_string()).message(),
        "Invalid theme dusk for palette Sample"
    );
    assert_eq!(
        PaletteError::UndefinedDuoColour("violet".to_string(), "Sample".to_string()).message(),
        "Duo colour violet is not defined for palette Sample"
    );
    assert_eq!(
        PaletteError::UndefinedTagColour(
            "A>B".to_string(),
            "violet".to_string(),
            "Sample".to_string()
        )
        .message(),
        "Colour violet for A>B is not defined for palette Sample"
    );
}

#[test]
fn undefined_tag_colour_references_are_refused() {
    let mut def = sample_def();
    def.tag_colours.push(("C".to_string(), "violet".to_string()));
    assert_eq!(
        IconPalette::all_from_json(&def),
        Err(PaletteError::UndefinedTagColour(
            "C".to_string(),
            "violet".to_string(),
            "Sample".to_string()
        ))
    );
}

fn fills_table(defs: &[(&str, Rgb)]) -> Dict<IconFills> {
    let duo = Rgb { red: 9, green: 9, blue: 9 };
    let mut d = Dict::new();
    for (k, c) in defs {
        d.insert(k.to_string(), IconFills::from_colours(*c, duo));
    }
    d
}

#[test]
fn resolution_returns_the_most_specific_matching_prefix() {
    let red = Rgb { red: 255, green: 0, blue: 0 };
    let green = Rgb { red: 0, green: 255, blue: 0 };
    let fills = fills_table(&[("A", red), ("A>B>C", green)]);
    let path = vec!["A".to_string(), "B".to_string(), "C".to_string()];
    let hit = get_fill_for(&fills, &path).unwrap();
    assert_eq!(hit.primary_fill.colour, green);
}

#[test]
fn resolution_without_any_matching_prefix_yields_nothing() {
    let red = Rgb { red: 255, green: 0, blue: 0 };
    let fills = fills_table(&[("X", red)]);
    let path = vec!["A".to_string(), "B".to_string(), "C".to_string()];
    assert!(get_fill_for(&fills, &path).is_none());
}

#[test]
fn resolution_walks_every_prefix_length() {
    let red = Rgb { red: 255, green: 0, blue: 0 };
    let fills = fills_table(&[("A>B", red)]);
    let path = vec!["A".to_string(), "B".to_string(), "C".to_string()];
    let hit = get_fill_for(&fills, &path).unwrap();
    assert_eq!(hit.primary_fill.colour, red);
    // The joined key must match exactly: no prefix of ["A"] alone is "A>B".
    let short = vec!["A".to_string()];
    assert!(get_fill_for(&fills, &short).is_none());
}

#[test]
fn dict_keeps_insertion_order_and_replaces_in_place() {
    let mut d: Dict<u32> = Dict::new();
    d.insert("b".to_string(), 1);
    d.insert("a".to_string(), 2);
    d.insert("b".to_string(), 3);
    assert_eq!(d.len(), 2);
    assert_eq!(d.key_at(0).as_str(), "b");
    assert_eq!(d.key_at(1).as_str(), "a");
    assert_eq!(d.get("b"), Some(&3));
    assert_eq!(d.get("a"), Some(&2));
    assert_eq!(d.get("c"), None);
    assert!(d.contains_key("a"));
    assert!(!d.contains_key("c"));
}
