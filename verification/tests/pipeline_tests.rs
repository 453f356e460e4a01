use iconpack::classify::IconData;
use iconpack::dict::Dict;
use iconpack::mappings::{missing_icons, APIClass, APIDump, IconMappings, IconScaling};
use iconpack::orchestrate::{compile_all, CompileError, OutputFile};
use iconpack::palette::{IconFills, IconPalette, IconTheme, PaletteDef, Rgb};
use iconpack::render::render_icon;
use iconpack::strutil::u32_to_string;
use iconpack::tags::TagSystem;

fn square_svg(fill: &str) -> Vec<u8> {
    format!(
        "<svg xmlns=\"http://www.w3.org/2000/svg\" viewBox=\"0 0 16 16\">\
         <path d=\"M 0 0 L 16 0 L 16 16 L 0 16 Z\" fill=\"{}\"/></svg>",
        fill
    )
    .into_bytes()
}

#[test]
fn strings_sort_into_byte_order() {
    let v = vec![
        "pear".to_string(),
        "Apple".to_string(),
        "apple".to_string(),
        "pear".to_string(),
        "fig".to_string(),
    ];
    assert_eq!(
        iconpack::strutil::sort_strings(v),
        vec![
            "Apple".to_string(),
            "apple".to_string(),
            "fig".to_string(),
            "pear".to_string(),
            "pear".to_string(),
        ]
    );
}

#[test]
fn numbers_print_in_decimal() {
    assert_eq!(u32_to_string(0), "0");
    assert_eq!(u32_to_string(7), "7");
    assert_eq!(u32_to_string(12345), "12345");
    assert_eq!(u32_to_string(u32::MAX), "4294967295");
}

#[test]
fn pixel_size_rounds_to_the_nearest_pixel() {
    assert_eq!(IconScaling { size: 16, scale_percent: 100 }.pixel_size(), 16);
    assert_eq!(IconScaling { size: 16, scale_percent: 150 }.pixel_size(), 24);
    assert_eq!(IconScaling { size: 16, scale_percent: 200 }.pixel_size(), 32);
    // 1.6 and 7.5 pixels round to 2 and 8, not down.
    assert_eq!(IconScaling { size: 16, scale_percent: 10 }.pixel_size(), 2);
    assert_eq!(IconScaling { size: 5, scale_percent: 150 }.pixel_size(), 8);
}

#[test]
fn rendering_yields_a_png_of_the_requested_size_and_colour() {
    let icon = IconData::from_svg_data(square_svg("#ff8080")).unwrap();
    let red = Rgb { red: 255, green: 0, blue: 0 };
    let duo = Rgb { red: 0, green: 0, blue: 255 };
    let fills = IconFills::from_colours(red, duo);
    let png = render_icon(&icon, &fills, 16).unwrap();
    let pixmap = tiny_skia::Pixmap::decode_png(&png).unwrap();
    assert_eq!(pixmap.width(), 16);
    assert_eq!(pixmap.height(), 16);
    // The square covers the whole scene: every pixel carries the fill, not
    // the source colour.
    let px = pixmap.pixel(8, 8).unwrap();
    assert_eq!((px.red(), px.green(), px.blue(), px.alpha()), (255, 0, 0, 255));
    let png32 = render_icon(&icon, &fills, 32).unwrap();
    let pixmap32 = tiny_skia::Pixmap::decode_png(&png32).unwrap();
    assert_eq!((pixmap32.width(), pixmap32.height()), (32, 32));
}

#[test]
fn rendering_at_zero_pixels_fails() {
    let icon = IconData::from_svg_data(square_svg("#ff8080")).unwrap();
    let fills = IconFills::from_colours(
        Rgb { red: 1, green: 2, blue: 3 },
        Rgb { red: 4, green: 5, blue: 6 },
    );
    assert!(render_icon(&icon, &fills, 0).is_err());
}

fn sample_palette_def() -> PaletteDef {
    PaletteDef {
        name: "Pal".to_string(),
        theme_definitions: vec![
            (
                "light".to_string(),
                vec![
                    ("main".to_string(), "#ff0000".to_string()),
                    ("duo".to_string(), "#0000ff".to_string()),
                ],
            ),
            (
                "dark".to_string(),
                vec![
                    ("main".to_string(), "#00ff00".to_string()),
                    ("duo".to_string(), "#0000ff".to_string()),
                ],
            ),
        ],
        default_colour: "main".to_string(),
        duo_colour: "duo".to_string(),
        tag_colours: vec![],
    }
}

fn sample_inputs() -> (TagSystem, Vec<(IconTheme, IconPalette)>, IconMappings, Dict<IconData>) {
    let tag_system = TagSystem::new_from_parts(vec![], vec![], vec![]);
    let palettes = IconPalette::all_from_json(&sample_palette_def()).unwrap();
    let mappings = IconMappings::new_from_json(
        vec![(
            "instance".to_string(),
            vec![IconScaling { size: 16, scale_percent: 100 }],
        )],
        vec![(
            "instance".to_string(),
            vec![
                ("itemA".to_string(), "iconA".to_string()),
                ("itemB".to_string(), "iconB".to_string()),
            ],
        )],
    );
    let mut icon_datas: Dict<IconData> = Dict::new();
    icon_datas.insert(
        "iconA".to_string(),
        IconData::from_svg_data(square_svg("#ff8888")).unwrap(),
    );
    icon_datas.insert(
        "iconB".to_string(),
        IconData::from_svg_data(square_svg("#cc4444")).unwrap(),
    );
    (tag_system, palettes, mappings, icon_datas)
}

#[test]
fn one_palette_two_themes_two_items_produce_four_deterministic_files() {
    let (tag_system, palettes, mappings, icon_datas) = sample_inputs();
    let files = compile_all(&tag_system, &palettes, &mappings, &icon_datas).unwrap();
    assert_eq!(files.len(), 4);
    let paths: Vec<&str> = files.iter().map(|f| f.path.as_str()).collect();
    assert_eq!(
        paths,
        vec![
            "Pal/Light/instance/16x/100/itemA.png",
            "Pal/Light/instance/16x/100/itemB.png",
            "Pal/Dark/instance/16x/100/itemA.png",
            "Pal/Dark/instance/16x/100/itemB.png",
        ]
    );
    for f in &files {
        let pixmap = tiny_skia::Pixmap::decode_png(&f.png).unwrap();
        assert_eq!((pixmap.width(), pixmap.height()), (16, 16));
    }
}

#[test]
fn two_runs_over_equal_inputs_yield_byte_identical_files() {
    let (tag_system, palettes, mappings, icon_datas) = sample_inputs();
    let first = compile_all(&tag_system, &palettes, &mappings, &icon_datas).unwrap();
    let (tag_system, palettes, mappings, icon_datas) = sample_inputs();
    let second = compile_all(&tag_system, &palettes, &mappings, &icon_datas).unwrap();
    assert_eq!(first.len(), second.len());
    for (a, b) in first.iter().zip(second.iter()) {
        assert_eq!(a.path, b.path);
        assert_eq!(a.png, b.png);
    }
}

#[test]
fn a_category_without_scaling_is_refused_before_rendering() {
    let (tag_system, palettes, _, icon_datas) = sample_inputs();
    let mappings = IconMappings::new_from_json(
        vec![],
        vec![(
            "instance".to_string(),
            vec![("itemA".to_string(), "iconA".to_string())],
        )],
    );
    let r = compile_all(&tag_system, &palettes, &mappings, &icon_datas);
    assert_eq!(r.err(), Some(CompileError::NoScaling("instance".to_string())));
    assert_eq!(
        CompileError::NoScaling("instance".to_string()).message(),
        "No scaling specified for category instance"
    );
}

#[test]
fn names_with_path_separators_are_refused_before_rendering() {
    // A palette name with a separator would let two distinct tuples share
    // one output path, so the run refuses it up front.
    let (tag_system, mut palettes, mappings, icon_datas) = sample_inputs();
    palettes[0].1.name = "Pa/l".to_string();
    let r = compile_all(&tag_system, &palettes, &mappings, &icon_datas);
    assert_eq!(r.err(), Some(CompileError::BadName("Pa/l".to_string())));
    assert_eq!(
        CompileError::BadName("Pa/l".to_string()).message(),
        "Name Pa/l contains a path separator"
    );

    let (tag_system, palettes, _, icon_datas) = sample_inputs();
    let mappings = IconMappings::new_from_json(
        vec![(
            "a/16x".to_string(),
            vec![IconScaling { size: 16, scale_percent: 100 }],
        )],
        vec![(
            "a/16x".to_string(),
            vec![("itemA".to_string(), "iconA".to_string())],
        )],
    );
    let r = compile_all(&tag_system, &palettes, &mappings, &icon_datas);
    assert_eq!(r.err(), Some(CompileError::BadName("a/16x".to_string())));

    let (tag_system, palettes, _, icon_datas) = sample_inputs();
    let mappings = IconMappings::new_from_json(
        vec![(
            "instance".to_string(),
            vec![IconScaling { size: 16, scale_percent: 100 }],
        )],
        vec![(
            "instance".to_string(),
            vec![("it/em".to_string(), "iconA".to_string())],
        )],
    );
    let r = compile_all(&tag_system, &palettes, &mappings, &icon_datas);
    assert_eq!(r.err(), Some(CompileError::BadName("it/em".to_string())));
}

#[test]
fn an_unloaded_icon_name_is_refused_with_its_context() {
    let (tag_system, palettes, mappings, _) = sample_inputs();
    let icon_datas: Dict<IconData> = Dict::new();
    let r = compile_all(&tag_system, &palettes, &mappings, &icon_datas);
    assert_eq!(
        r.err(),
        Some(CompileError::NonexistentIcon(
            "instance".to_string(),
            "itemA".to_string(),
            "iconA".to_string()
        ))
    );
    let e = CompileError::NonexistentIcon(
        "instance".to_string(),
        "itemA".to_string(),
        "iconA".to_string(),
    );
    assert_eq!(e.message(), "instance/itemA uses nonexistent icon iconA");
}

#[test]
fn tagged_instance_items_take_the_resolved_fill() {
    // A palette that re-tints tag path "UI" to the duo colour; an item under
    // that tag renders blue, a plain item renders the default red.
    let mut def = sample_palette_def();
    def.theme_definitions.truncate(1);
    def.tag_colours = vec![("UI".to_string(), "duo".to_string())];
    let palettes = IconPalette::all_from_json(&def).unwrap();
    let tag_system = TagSystem::new_from_parts(
        vec!["UI".to_string()],
        vec![],
        vec![("itemA".to_string(), vec!["UI".to_string()])],
    );
    let mappings = IconMappings::new_from_json(
        vec![(
            "instance".to_string(),
            vec![IconScaling { size: 16, scale_percent: 100 }],
        )],
        vec![(
            "instance".to_string(),
            vec![
                ("itemA".to_string(), "iconA".to_string()),
                ("itemB".to_string(), "iconA".to_string()),
            ],
        )],
    );
    let mut icon_datas: Dict<IconData> = Dict::new();
    icon_datas.insert(
        "iconA".to_string(),
        IconData::from_svg_data(square_svg("#ff8888")).unwrap(),
    );
    let files = compile_all(&tag_system, &palettes, &mappings, &icon_datas).unwrap();
    assert_eq!(files.len(), 2);
    let colour_of = |f: &OutputFile| {
        let pm = tiny_skia::Pixmap::decode_png(&f.png).unwrap();
        let px = pm.pixel(8, 8).unwrap();
        (px.red(), px.green(), px.blue())
    };
    assert_eq!(colour_of(&files[0]), (0, 0, 255));
    assert_eq!(colour_of(&files[1]), (255, 0, 0));
}

#[test]
fn unique_icon_names_deduplicate_in_first_occurrence_order() {
    let mappings = IconMappings::new_from_json(
        vec![],
        vec![
            (
                "general".to_string(),
                vec![
                    ("g1".to_string(), "star".to_string()),
                    ("g2".to_string(), "disk".to_string()),
                ],
            ),
            (
                "instance".to_string(),
                vec![
                    ("i1".to_string(), "disk".to_string()),
                    ("i2".to_string(), "gear".to_string()),
                ],
            ),
        ],
    );
    assert_eq!(
        mappings.unique_icon_names(),
        vec!["star".to_string(), "disk".to_string(), "gear".to_string()]
    );
}

#[test]
fn missing_icons_lists_unmapped_class_names_in_dump_order() {
    let dump = APIDump {
        classes: vec![
            APIClass { name: "Mapped".to_string() },
            APIClass { name: "Lost".to_string() },
            APIClass { name: "Gone".to_string() },
        ],
    };
    let mut table: Dict<String> = Dict::new();
    table.insert("Mapped".to_string(), "icon".to_string());
    assert_eq!(
        missing_icons(&dump, &table),
        vec!["Lost".to_string(), "Gone".to_string()]
    );
}
