use keynav_wayland::config::{
    keymap_keycode, default_config, parse_actions, parse_config, Config, ConfigError, KeynavAction, MouseButton,
    RawConfig, ResolveError, TokenLookup, MOD_INVALID,
};
use keynav_wayland::geometry::Fraction;
use keynav_wayland::parse::ButtonError;

#[test]
fn basic_parse() {
    let config = "\
h cut-left
j cut-down
k cut-up
l cut-right

Shift+h move-left
Shift+j move-down
Shift+k move-up
Shift+l move-right

semicolon cursorzoom 100 100
Return warp, click 1,end
Escape end";

    let expected = Ok(RawConfig {
        mappings: vec![
            (vec!["h".into()], vec![KeynavAction::CutLeft(None)]),
            (vec!["j".into()], vec![KeynavAction::CutDown(None)]),
            (vec!["k".into()], vec![KeynavAction::CutUp(None)]),
            (vec!["l".into()], vec![KeynavAction::CutRight(None)]),
            (
                vec!["Shift".into(), "h".into()],
                vec![KeynavAction::MoveLeft(None)],
            ),
            (
                vec!["Shift".into(), "j".into()],
                vec![KeynavAction::MoveDown(None)],
            ),
            (
                vec!["Shift".into(), "k".into()],
                vec![KeynavAction::MoveUp(None)],
            ),
            (
                vec!["Shift".into(), "l".into()],
                vec![KeynavAction::MoveRight(None)],
            ),
            (
                vec!["semicolon".into()],
                vec![KeynavAction::CursorZoom {
                    width: 100,
                    height: 100,
                }],
            ),
            (
                vec!["Return".into()],
                vec![
                    KeynavAction::Warp,
                    KeynavAction::Click(Some(MouseButton::Left)),
                    KeynavAction::End,
                ],
            ),
            (vec!["Escape".into()], vec![KeynavAction::End]),
        ],
    });
    assert_eq!(expected, parse_config(config.to_string()));
}

#[test]
fn default_config_matches_its_text() {
    let text = "h cut-left\nj cut-down\nk cut-up\nl cut-right\nShift+h move-left\nShift+j move-down\nShift+k move-up\nShift+l move-right\nsemicolon cursorzoom 100 100\nReturn warp, click 1, end\nEscape end\n";
    assert_eq!(parse_config(text.to_string()), Ok(default_config()));
}

#[test]
fn actions_with_arguments() {
    assert_eq!(
        parse_actions("cut-right 0.25, click 2,cursorzoom 10 20 , drag 3, move-up, doubleclick"),
        Ok(vec![
            KeynavAction::CutRight(Some(Fraction { ticks: 250_000_000 })),
            KeynavAction::Click(Some(MouseButton::Right)),
            KeynavAction::CursorZoom { width: 10, height: 20 },
            KeynavAction::DragButton(MouseButton::Middle),
            KeynavAction::MoveUp(None),
            KeynavAction::DoubleClick(None),
        ])
    );
    assert_eq!(
        parse_actions("move-left 2, cut-down .5, cut-up +1."),
        Ok(vec![
            KeynavAction::MoveLeft(Some(Fraction { ticks: 2_000_000_000 })),
            KeynavAction::CutDown(Some(Fraction { ticks: 500_000_000 })),
            KeynavAction::CutUp(Some(Fraction { ticks: 1_000_000_000 })),
        ])
    );
}

#[test]
fn actions_report_the_unknown_piece() {
    assert_eq!(parse_actions("warp, jump"), Err(" jump".to_string()));
    assert_eq!(parse_actions("click 4"), Err("click 4".to_string()));
    assert_eq!(parse_actions("drag"), Err("drag".to_string()));
    assert_eq!(parse_actions("cut-left -0.5"), Err("cut-left -0.5".to_string()));
    assert_eq!(parse_actions("cut-left 0.1234567891"), Err("cut-left 0.1234567891".to_string()));
    assert_eq!(parse_actions("cut-left ."), Err("cut-left .".to_string()));
    assert_eq!(parse_actions("warp,"), Err("".to_string()));
    assert_eq!(parse_actions("cursorzoom 1 4294967296"), Err("cursorzoom 1 4294967296".to_string()));
    assert_eq!(parse_actions("end now"), Err("end now".to_string()));
}

#[test]
fn config_errors_carry_line_numbers() {
    assert_eq!(
        parse_config("\n  # a comment\nh cut-left\nj fly".to_string()),
        Err(ConfigError::UnknownAction { line: 4, action: "fly".to_string() })
    );
    assert_eq!(
        parse_config("h cut-left\n   lonely   \n".to_string()),
        Err(ConfigError::MissingActions { line: 2 })
    );
}

#[test]
fn config_skips_blank_and_comment_lines() {
    assert_eq!(
        parse_config("\t\n#h cut-left\n   \n  x\twarp  \n".to_string()),
        Ok(RawConfig { mappings: vec![(vec!["x".into()], vec![KeynavAction::Warp])] })
    );
    assert_eq!(parse_config(String::new()), Ok(RawConfig { mappings: vec![] }));
}

#[test]
fn mouse_button_numbers() {
    assert_eq!(MouseButton::parse("1"), Ok(MouseButton::Left));
    assert_eq!(MouseButton::parse("+2"), Ok(MouseButton::Right));
    assert_eq!(MouseButton::parse("3"), Ok(MouseButton::Middle));
    assert_eq!(MouseButton::parse("4"), Err(ButtonError::OutOfRange));
    assert_eq!(MouseButton::parse("0"), Err(ButtonError::OutOfRange));
    assert_eq!(MouseButton::parse("x"), Err(ButtonError::NotANumber));
    assert_eq!(MouseButton::parse(""), Err(ButtonError::NotANumber));
    assert_eq!(MouseButton::Left.to_code(), 0x110);
    assert_eq!(MouseButton::Right.to_code(), 0x111);
    assert_eq!(MouseButton::Middle.to_code(), 0x112);
}

fn key(keysym: u32) -> TokenLookup {
    TokenLookup { mod_index: MOD_INVALID, keysym }
}

fn modifier(index: u32) -> TokenLookup {
    TokenLookup { mod_index: index, keysym: 0 }
}

fn raw(entries: Vec<(Vec<&str>, Vec<KeynavAction>)>) -> RawConfig {
    RawConfig {
        mappings: entries
            .into_iter()
            .map(|(names, acts)| (names.into_iter().map(String::from).collect(), acts))
            .collect(),
    }
}

#[test]
fn resolution_builds_masks() {
    let r = raw(vec![
        (vec!["Shift", "Control", "h"], vec![KeynavAction::MoveLeft(None)]),
        (vec!["h"], vec![KeynavAction::CutLeft(None)]),
    ]);
    let lookups = vec![vec![modifier(0), modifier(2), key(0x68)], vec![key(0x68)]];
    let c = Config::from_raw_config(&r, &lookups).unwrap();
    assert_eq!(c.lookup(0b101, 0x68), Some(vec![KeynavAction::MoveLeft(None)]));
    assert_eq!(c.lookup(0, 0x68), Some(vec![KeynavAction::CutLeft(None)]));
    assert_eq!(c.lookup(1, 0x68), None);
}

#[test]
fn resolution_later_mapping_wins() {
    let r = raw(vec![
        (vec!["h"], vec![KeynavAction::CutLeft(None)]),
        (vec!["j"], vec![KeynavAction::CutDown(None)]),
        (vec!["h"], vec![KeynavAction::Warp, KeynavAction::End]),
    ]);
    let lookups = vec![vec![key(0x68)], vec![key(0x6a)], vec![key(0x68)]];
    let c = Config::from_raw_config(&r, &lookups).unwrap();
    assert_eq!(c.lookup(0, 0x68), Some(vec![KeynavAction::Warp, KeynavAction::End]));
    assert_eq!(c.lookup(0, 0x6a), Some(vec![KeynavAction::CutDown(None)]));
}

#[test]
fn resolution_is_deterministic() {
    let r = default_config();
    let lookups: Vec<Vec<TokenLookup>> = r
        .mappings
        .iter()
        .map(|(names, _)| {
            names
                .iter()
                .map(|n| if n == "Shift" { modifier(0) } else { key(n.len() as u32 + 0x60) })
                .collect()
        })
        .collect();
    let first = Config::from_raw_config(&r, &lookups).unwrap();
    let second = Config::from_raw_config(&r, &lookups).unwrap();
    for mask in 0..2u32 {
        for sym in 0x60..0x70u32 {
            assert_eq!(first.lookup(mask, sym), second.lookup(mask, sym));
        }
    }
    assert!(first.lookup(1, 0x61).is_some());
}

#[test]
fn resolution_errors() {
    let r = raw(vec![
        (vec!["h"], vec![KeynavAction::CutLeft(None)]),
        (vec!["Shift", "bogus"], vec![KeynavAction::Warp]),
    ]);
    let unknown = vec![vec![key(0x68)], vec![modifier(0), key(0)]];
    assert_eq!(
        Config::from_raw_config(&r, &unknown).err(),
        Some(ResolveError::UnknownToken { entry: 1, token: 1 })
    );
    let extra = vec![vec![key(0x68)], vec![key(1), key(2)]];
    assert_eq!(
        Config::from_raw_config(&r, &extra).err(),
        Some(ResolveError::ExtraKey { entry: 1, token: 1 })
    );
    let none = vec![vec![key(0x68)], vec![modifier(0), modifier(1)]];
    assert_eq!(Config::from_raw_config(&r, &none).err(), Some(ResolveError::NoKey { entry: 1 }));
    let wide = vec![vec![key(0x68)], vec![modifier(32), key(5)]];
    assert_eq!(
        Config::from_raw_config(&r, &wide).err(),
        Some(ResolveError::ModifierOutOfRange { entry: 1, token: 0 })
    );
}

#[test]
fn keymap_codes_are_offset() {
    assert_eq!(keymap_keycode(28), Some(36));
    assert_eq!(keymap_keycode(u32::MAX), None);
}
