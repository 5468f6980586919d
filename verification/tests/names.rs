use pocket_rom_sync::version::{base_name, has_version_mark};

#[test]
fn base_name_drops_extension_and_version() {
    assert_eq!(base_name("Game (v1.0).gba"), "Game");
    assert_eq!(base_name("Game (V1.0).gba"), "Game");
    assert_eq!(base_name("Game (Rev A).gba"), "Game");
    assert_eq!(base_name("Game (Beta Version).gba"), "Game");
    assert_eq!(base_name("Game.gba"), "Game");
    assert_eq!(base_name("Game"), "Game");
}

#[test]
fn base_name_keeps_other_tags() {
    assert_eq!(base_name("Game (USA).gba"), "Game (USA)");
    assert_eq!(base_name("Game (v1.0) (USA).gba"), "Game  (USA)");
    assert_eq!(base_name("Game (USA) (v1.0).gba"), "Game (USA) (v1.0)");
    assert_eq!(base_name("Game (Rev).gba"), "Game (Rev)");
    assert_eq!(base_name("Game (va.0).gba"), "Game (va.0)");
}

#[test]
fn base_name_drops_several_version_tags() {
    assert_eq!(base_name("Game (v1.0) (Rev 2).gba"), "Game");
    assert_eq!(base_name("(v9.9)Game(version).gba"), "Game");
}

#[test]
fn base_name_of_unclosed_brackets() {
    assert_eq!(base_name("Game (v1.0.gba"), "Game (v1.0");
    assert_eq!(base_name("Game v1.0).gba"), "Game v1.0)");
    assert_eq!(base_name(") Game (v1.0).gba"), ") Game");
}

#[test]
fn base_name_of_short_names() {
    assert_eq!(base_name(""), "");
    assert_eq!(base_name(".gba"), "");
    assert_eq!(base_name("(v1.0).gba"), "");
    assert_eq!(base_name("a.b.c"), "a.b");
}

#[test]
fn base_name_beyond_ascii() {
    assert_eq!(base_name("ポケモン (V1.1).gba"), "ポケモン");
    assert_eq!(base_name("\u{a0}é\u{3000}.gba"), "é");
}

#[test]
fn base_name_trims_white_space_and_nothing_else() {
    let blank: Vec<char> = vec![
        '\u{9}', '\u{a}', '\u{b}', '\u{c}', '\u{d}', ' ', '\u{85}', '\u{a0}', '\u{1680}',
        '\u{2000}', '\u{2001}', '\u{2002}', '\u{2003}', '\u{2004}', '\u{2005}', '\u{2006}',
        '\u{2007}', '\u{2008}', '\u{2009}', '\u{200a}', '\u{2028}', '\u{2029}', '\u{202f}',
        '\u{205f}', '\u{3000}',
    ];
    for n in 0u32..0x110000u32 {
        if let Some(c) = char::from_u32(n) {
            assert_eq!(c.is_whitespace(), blank.contains(&c), "{}", n);
            if c != '.' && c != '(' && n < 0x3100 {
                let name = format!("{}a{}.gba", c, c);
                let expected = if blank.contains(&c) {
                    "a".to_string()
                } else {
                    format!("{}a{}", c, c)
                };
                assert_eq!(base_name(&name), expected);
            }
        }
    }
}

#[test]
fn versions_of_one_game_share_a_base_name() {
    assert_eq!(base_name("Game (v1.0) [b].gba"), base_name("Game (v1.1) [b].gba"));
    assert_eq!(base_name("Game (v1.0).gba"), base_name("Game .gba"));
}

#[test]
fn stripped_names_have_nothing_left_to_strip() {
    let once = base_name("Game (v1.0)(USA) (v2.0).gba");
    assert_eq!(once, "Game (USA) (v2.0)");
    assert_eq!(base_name(&format!("{}.gba", once)), once);
}

#[test]
fn version_marks() {
    for digit in 0..10 {
        assert!(has_version_mark(&format!("(v{}.", digit)));
    }
    assert!(has_version_mark("(rev b)"));
    assert!(has_version_mark("(version)"));
    assert!(!has_version_mark("(V1.0)"));
    assert!(!has_version_mark("(v10)"));
    assert!(!has_version_mark("(rev)"));
    assert!(!has_version_mark(""));
}
