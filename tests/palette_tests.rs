use rgb_to_ansi::ansi256_to_rgb;
use rgb_to_ansi::palette::{
    ansi88_to_rgb, easychecks256, easychecks88, get_exact_color256, get_exact_color88, grey_to_ansi256, grey_to_ansi88,
};

#[test]
fn palette_entries_match_xterm() {
    assert_eq!(ansi256_to_rgb(0), (0, 0, 0));
    assert_eq!(ansi256_to_rgb(1), (205, 0, 0));
    assert_eq!(ansi256_to_rgb(12), (92, 92, 255));
    assert_eq!(ansi256_to_rgb(16), (0, 0, 0));
    assert_eq!(ansi256_to_rgb(21), (0, 0, 255));
    assert_eq!(ansi256_to_rgb(46), (0, 255, 0));
    assert_eq!(ansi256_to_rgb(67), (95, 135, 175));
    assert_eq!(ansi256_to_rgb(196), (255, 0, 0));
    assert_eq!(ansi256_to_rgb(231), (255, 255, 255));
    assert_eq!(ansi256_to_rgb(232), (8, 8, 8));
    assert_eq!(ansi256_to_rgb(255), (238, 238, 238));
}

#[test]
fn palette_agrees_with_ansi_colours() {
    for i in 0..=255u8 {
        assert_eq!(ansi256_to_rgb(i), ansi_colours::rgb_from_ansi256(i), "entry {}", i);
    }
}

#[test]
fn exact_colour_prefers_searchable_entries() {
    assert_eq!(get_exact_color256(255, 0, 0), Some(196));
    assert_eq!(get_exact_color256(0, 255, 0), Some(46));
    assert_eq!(get_exact_color256(0, 0, 255), Some(21));
    assert_eq!(get_exact_color256(95, 135, 175), Some(67));
    assert_eq!(get_exact_color256(0, 0, 0), Some(16));
    assert_eq!(get_exact_color256(255, 255, 255), Some(231));
    assert_eq!(get_exact_color256(128, 128, 128), Some(244));
    assert_eq!(get_exact_color256(127, 127, 127), Some(8));
    assert_eq!(get_exact_color256(100, 100, 100), None);
    assert_eq!(get_exact_color256(8, 8, 8), Some(232));
}

#[test]
fn exact_colour_finds_named_entries() {
    assert_eq!(get_exact_color256(205, 0, 0), Some(1));
    assert_eq!(get_exact_color256(0, 0, 238), Some(4));
    assert_eq!(get_exact_color256(92, 92, 255), Some(12));
    assert_eq!(get_exact_color256(229, 229, 229), Some(7));
    assert_eq!(get_exact_color256(1, 2, 3), None);
    assert_eq!(get_exact_color256(250, 251, 252), None);
}

#[test]
fn exact_colour_round_trips_every_entry() {
    for i in 16..=255u8 {
        let (r, g, b) = ansi256_to_rgb(i);
        assert_eq!(get_exact_color256(r, g, b), Some(i));
    }
}

#[test]
fn exact_colour_88() {
    assert_eq!(get_exact_color88(139, 139, 139), Some(37));
    assert_eq!(get_exact_color88(46, 46, 46), Some(80));
    assert_eq!(get_exact_color88(231, 231, 231), Some(87));
    assert_eq!(get_exact_color88(255, 0, 0), Some(64));
    assert_eq!(get_exact_color88(0, 139, 205), Some(22));
    assert_eq!(get_exact_color88(205, 0, 0), Some(48));
    assert_eq!(get_exact_color88(0, 0, 238), Some(4));
    assert_eq!(get_exact_color88(95, 135, 175), None);
}

#[test]
fn grey_tables() {
    assert_eq!(grey_to_ansi256(0), 16);
    assert_eq!(grey_to_ansi256(1), 16);
    assert_eq!(grey_to_ansi256(2), 232);
    assert_eq!(grey_to_ansi256(95), 59);
    assert_eq!(grey_to_ansi256(128), 244);
    assert_eq!(grey_to_ansi256(246), 255);
    assert_eq!(grey_to_ansi256(247), 231);
    assert_eq!(grey_to_ansi256(255), 231);
    assert_eq!(grey_to_ansi88(0), 16);
    assert_eq!(grey_to_ansi88(12), 80);
    assert_eq!(grey_to_ansi88(139), 37);
    assert_eq!(grey_to_ansi88(255), 79);
}

#[test]
fn grey_table_answers_grey_entries_exactly() {
    for i in 232..=255u8 {
        let (v, _, _) = ansi256_to_rgb(i);
        assert_eq!(grey_to_ansi256(v), i);
    }
    for (v, i) in [(0u8, 16u8), (95, 59), (135, 102), (175, 145), (215, 188), (255, 231)] {
        assert_eq!(grey_to_ansi256(v), i);
    }
}

#[test]
fn easychecks_order() {
    assert_eq!(easychecks256(128, 128, 128), Some(grey_to_ansi256(128)));
    assert_eq!(easychecks256(255, 255, 255), Some(231));
    assert_eq!(easychecks256(255, 0, 0), Some(196));
    assert_eq!(easychecks256(250, 251, 252), None);
    assert_eq!(easychecks88(139, 139, 139), Some(37));
    assert_eq!(easychecks88(0, 0, 255), Some(19));
    assert_eq!(easychecks88(250, 251, 252), None);
}

#[test]
fn exact_match_law_on_every_entry() {
    for i in 0..=255u8 {
        let (r, g, b) = ansi256_to_rgb(i);
        let named_shadowed = [0u8, 7, 8, 9, 10, 11, 13, 14, 15].contains(&i);
        if !named_shadowed {
            assert_eq!(easychecks256(r, g, b), Some(i), "entry {}", i);
        }
    }
}

#[test]
fn palette88_entries() {
    assert_eq!(ansi88_to_rgb(1), (205, 0, 0));
    assert_eq!(ansi88_to_rgb(16), (0, 0, 0));
    assert_eq!(ansi88_to_rgb(22), (0, 139, 205));
    assert_eq!(ansi88_to_rgb(37), (139, 139, 139));
    assert_eq!(ansi88_to_rgb(79), (255, 255, 255));
    assert_eq!(ansi88_to_rgb(80), (46, 46, 46));
    assert_eq!(ansi88_to_rgb(83), (139, 139, 139));
    assert_eq!(ansi88_to_rgb(87), (231, 231, 231));
    for i in 16..88u8 {
        let (r, g, b) = ansi88_to_rgb(i);
        let found = get_exact_color88(r, g, b);
        assert!(found == Some(i) || (i == 83 && found == Some(37)), "entry {}", i);
    }
}
