use tilemap_editor::hash::{tileset_id_for, to_hex_lower};
use tilemap_editor::palette::{
    filtered_palette_indices, palette_filter_matches, saturating_product, tile_cell_in_sheet,
    tileset_grid_dims,
};
use tilemap_editor::paths::path_join_asset;
use tilemap_editor::text::{
    chars_lt, contains_chars, decimal_chars, find_char, is_blank, parse_u32, trim_string,
};

fn chars(s: &str) -> Vec<char> {
    s.chars().collect()
}

#[test]
fn join_asset_paths() {
    assert_eq!(path_join_asset("tilesets", "foo.png"), "tilesets/foo.png");
    assert_eq!(path_join_asset("/tilesets\\", "\\foo.png/"), "tilesets/foo.png");
    assert_eq!(path_join_asset("", "foo.png"), "foo.png");
    assert_eq!(path_join_asset("//", "/a/b.png"), "a/b.png");
    assert_eq!(path_join_asset("a/b", ""), "a/b/");
}

#[test]
fn joined_path_rejoins_unchanged() {
    let r = path_join_asset("\\assets/tiles//", "/x.png\\");
    assert_eq!(r, "assets/tiles/x.png");
    assert_eq!(path_join_asset("", &r), r);
    assert!(r.ends_with("x.png"));
}

#[test]
fn unicode_white_space_is_trimmed() {
    assert_eq!(parse_u32(&chars("\u{3000}7\u{a0}")), Some(7));
    assert_eq!(parse_u32(&chars("\t\n 9\r")), Some(9));
    assert_eq!(parse_u32(&chars("1 2")), None);
    assert_eq!(parse_u32(&chars("")), None);
    assert!(palette_filter_matches(9, 4, "1,2"));
    assert!(palette_filter_matches(9, 4, "1x2"));
    assert!(palette_filter_matches(9, 4, "1X2"));
    assert!(!palette_filter_matches(9, 4, "2,1"));
    assert!(palette_filter_matches(5, 0, "0,5"));
    assert!(!palette_filter_matches(123, 8, "23"));
}

#[test]
fn trimming_and_blank() {
    assert_eq!(trim_string("  ab c \t\n"), "ab c");
    assert_eq!(trim_string("\u{3000}x\u{a0}"), "x");
    assert!(is_blank(" \t "));
    assert!(is_blank(""));
    assert!(!is_blank(" a "));
}

#[test]
fn parse_digits_only() {
    assert_eq!(parse_u32(&chars(" 42 ")), Some(42));
    assert_eq!(parse_u32(&chars("007")), Some(7));
    assert_eq!(parse_u32(&chars("4294967295")), Some(u32::MAX));
    assert_eq!(parse_u32(&chars("4294967296")), None);
    assert_eq!(parse_u32(&chars("+5")), None);
    assert_eq!(parse_u32(&chars("1a")), None);
    assert_eq!(parse_u32(&chars("   ")), None);
}

#[test]
fn decimal_search_and_order() {
    assert_eq!(decimal_chars(0), chars("0"));
    assert_eq!(decimal_chars(1203), chars("1203"));
    assert!(contains_chars(&chars("12,34"), &chars("2,3")));
    assert!(!contains_chars(&chars("12"), &chars("123")));
    assert!(contains_chars(&chars("abc"), &chars("")));
    assert_eq!(find_char(&chars("a-b-c"), '-'), 1);
    assert_eq!(find_char(&chars("abc"), '-'), 3);
    assert!(chars_lt(&chars("ab"), &chars("b")));
    assert!(chars_lt(&chars("ab"), &chars("abc")));
    assert!(!chars_lt(&chars("b"), &chars("ab")));
    assert!(!chars_lt(&chars("ab"), &chars("ab")));
}

#[test]
fn palette_filter_cases() {
    assert!(palette_filter_matches(5, 8, "   "));
    assert!(palette_filter_matches(15, 8, "10-20"));
    assert!(palette_filter_matches(15, 8, "20-10"));
    assert!(!palette_filter_matches(21, 8, "10-20"));
    assert!(palette_filter_matches(12, 8, " 12 "));
    assert!(!palette_filter_matches(112, 8, "12"));
    // 13 with 8 columns sits at x=5, y=1
    assert!(palette_filter_matches(13, 8, "5,1"));
    assert!(palette_filter_matches(13, 8, "5x1"));
    assert!(palette_filter_matches(13, 8, "5X1"));
    assert!(!palette_filter_matches(13, 8, "1,5"));
    assert!(palette_filter_matches(123, 0, "0,12"));
    assert!(!palette_filter_matches(123, 0, "2,"));
    assert!(palette_filter_matches(31, 8, "1-x") == false);
}

#[test]
fn palette_indices_in_order() {
    assert_eq!(filtered_palette_indices(4, 3, "1"), vec![1]);
    assert_eq!(filtered_palette_indices(4, 3, "2-5"), vec![2, 3, 4, 5]);
    assert_eq!(filtered_palette_indices(4, 3, ""), (0..12).collect::<Vec<u32>>());
    assert_eq!(filtered_palette_indices(4, 3, ",2"), vec![8, 9, 10, 11]);
    assert_eq!(filtered_palette_indices(0, 9, ""), Vec::<u32>::new());
}

#[test]
fn sheet_geometry() {
    assert_eq!(tile_cell_in_sheet(13, 8), (5, 1));
    assert_eq!(tileset_grid_dims(256, 96, 32, 32), Some((8, 3)));
    assert_eq!(tileset_grid_dims(31, 96, 32, 32), None);
    assert_eq!(tileset_grid_dims(5, 7, 0, 0), Some((5, 7)));
    assert_eq!(saturating_product(70000, 70000), u32::MAX);
    assert_eq!(saturating_product(7, 6), 42);
}

#[test]
fn tileset_ids_are_hex_blake3() {
    assert_eq!(to_hex_lower(&[0x00, 0xbe, 0xef, 0x0f]), "00beef0f");
    assert_eq!(
        tileset_id_for(b""),
        "af1349b9f5f9a1a6a0404dea36dcc9499bcb25c9adc112b7cc9a93cae41f3262"
    );
    let id = tileset_id_for(b"tileset bytes");
    assert_eq!(id.len(), 64);
    assert_ne!(id, tileset_id_for(b"other bytes"));
}
