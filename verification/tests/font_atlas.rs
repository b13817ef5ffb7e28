use xelgui::render::font_atlas::{
    apply_property_line, is_header_line, is_white_char, parse_atlas_glyphs, parse_u32_chars,
    split_lines, trim_chars, FontAtlas,
};

fn chars(s: &str) -> Vec<char> {
    s.chars().collect()
}

const SAMPLE: &str = "font_e.png\nsize: 128,128\nformat: RGBA8888\n  chars count=3\nA\n  rotate: false\n  xy: 2, 4\n  size: 8, 8\nB\n  xy: 10,4\n\nC\n";

#[test]
fn atlas_parses_entries_after_header() {
    let a = FontAtlas::from_parts(128, 64, 8, 8, SAMPLE);
    assert_eq!((a.texture_width, a.texture_height, a.glyph_width, a.glyph_height), (128, 64, 8, 8));
    assert_eq!(a.glyph_origin('A'), Some((2, 4)));
    assert_eq!(a.glyph_origin('B'), Some((10, 4)));
    assert_eq!(a.glyph_origin('C'), Some((0, 0)));
    assert_eq!(a.glyph_origin('D'), None);
    assert_eq!(a.glyphs.len(), 3);
}

#[test]
fn atlas_without_header_has_no_glyphs() {
    let a = FontAtlas::from_parts(1, 1, 1, 1, "A\n  xy: 1, 2\n");
    assert!(a.glyphs.is_empty());
}

#[test]
fn atlas_lines_before_header_are_skipped() {
    let a = FontAtlas::from_parts(1, 1, 1, 1, "Z\n  xy: 5, 5\nchars count=1\nQ\n\txy:7,8\r\n");
    assert_eq!(a.glyph_origin('Z'), None);
    assert_eq!(a.glyph_origin('Q'), Some((7, 8)));
}

#[test]
fn atlas_later_entry_wins() {
    let a = FontAtlas::from_parts(1, 1, 1, 1, "chars count=2\nA\n xy: 1,1\nA\n xy: 2,2\n");
    assert_eq!(a.glyph_origin('A'), Some((2, 2)));
    assert_eq!(a.glyphs.len(), 1);
}

#[test]
fn atlas_bad_numbers_count_as_zero() {
    let a = FontAtlas::from_parts(1, 1, 1, 1, "chars count=3\nA\n xy: x, 3\nB\n xy: 1, 2, 3\nC\n xy: +4, 99999999999\n");
    assert_eq!(a.glyph_origin('A'), Some((0, 3)));
    assert_eq!(a.glyph_origin('B'), Some((0, 0)));
    assert_eq!(a.glyph_origin('C'), Some((4, 0)));
}

#[test]
fn atlas_orphan_property_lines_are_ignored() {
    let a = FontAtlas::from_parts(1, 1, 1, 1, "chars count=1\nA\n\n xy: 9, 9\n");
    assert_eq!(a.glyph_origin('A'), Some((0, 0)));
}

#[test]
fn lines_split_like_str_lines() {
    for s in ["", "a", "a\n", "a\r\nb", "\n\n", "a\rb\n", "x\r", "\r\n"] {
        let got: Vec<String> = split_lines(&chars(s)).iter().map(|l| l.iter().collect()).collect();
        let want: Vec<String> = s.lines().map(String::from).collect();
        assert_eq!(got, want, "{:?}", s);
    }
}

#[test]
fn trim_matches_str_trim() {
    for s in ["  a b  ", "\t\u{3000}x\u{a0}", "", "   ", "a"] {
        let got: String = trim_chars(&chars(s)).into_iter().collect();
        assert_eq!(got, s.trim());
    }
    for c in ['\u{85}', '\u{2009}', ' ', 'a', '\u{200b}'] {
        assert_eq!(is_white_char(c), c.is_whitespace());
    }
}

#[test]
fn parse_u32_matches_str_parse() {
    for s in ["0", "42", "+7", "+", "-1", "", "4294967295", "4294967296", "00012", "1 2", "x"] {
        assert_eq!(parse_u32_chars(&chars(s)), s.parse::<u32>().ok(), "{:?}", s);
    }
}

#[test]
fn header_and_properties() {
    assert!(is_header_line(&chars("  chars count=95")));
    assert!(!is_header_line(&chars("chars count")));
    assert_eq!(apply_property_line(&chars("xy: 3, 4"), (1, 1)), (3, 4));
    assert_eq!(apply_property_line(&chars("size: 3, 4"), (1, 1)), (1, 1));
    assert_eq!(apply_property_line(&chars("xy: 3"), (1, 1)), (1, 1));
}

#[test]
fn parse_glyphs_directly() {
    let m = parse_atlas_glyphs("chars count=1\nA\n  xy: 1, 2\n");
    assert_eq!(m.get(&('A' as u32)), Some(&(1, 2)));
}

#[test]
fn atlas_from_image_takes_its_size() {
    let img = image::DynamicImage::new_rgba8(128, 64);
    let a = FontAtlas::new(&img, 8, 16, SAMPLE);
    assert_eq!((a.texture_width, a.texture_height), (128, 64));
    assert_eq!((a.glyph_width, a.glyph_height), (8, 16));
    assert_eq!(a.glyph_origin('B'), Some((10, 4)));
}
