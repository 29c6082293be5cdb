use image_go_nord::palette::hex_to_rgb;
use image_go_nord::{aurora, frost, nord, polar_night, snow_storm};
use image_go_nord::{DynamicPalette, Palette, StaticPalette};

#[test]
fn parse_three_colors_skipping_comments() {
    let p = DynamicPalette::from_palette_str("#8FBCBB\n#88c0d0 (nord8)\nskip this\n#5e81ac").unwrap();
    assert_eq!(
        p.colors(),
        &[[0x8F, 0xBC, 0xBB], [0x88, 0xC0, 0xD0], [0x5E, 0x81, 0xAC]][..]
    );
}

#[test]
fn parse_messy_text_equals_frost() {
    let text = r#"
    ========== Nord Frost Palette ==========
    #8FBCBB is called nord7
    #88c0d0 (nord8)
    #81A1C1
    skip this line
    #5e81ac -- an informative comment about nord9?
"#;
    let palette = DynamicPalette::from_palette_str(text).unwrap();
    let frost = StaticPalette::from_rgb_hex([0x8FBCBB, 0x88C0D0, 0x81A1C1, 0x5E81AC]);
    assert_eq!(palette, frost.into());
}

#[test]
fn parse_fails_on_first_bad_word() {
    assert!(DynamicPalette::from_palette_str("#8FBCBB\n#zz0000\n#000000").is_err());
    assert!(DynamicPalette::from_palette_str("#123456789").is_err());
}

#[test]
fn parse_without_color_lines_is_empty() {
    let p = DynamicPalette::from_palette_str("nothing here\n\n# \n").unwrap();
    assert_eq!(p.len(), 0);
}

#[test]
fn parse_accepts_crlf_and_leading_space() {
    let p = DynamicPalette::from_palette_str("  #  0A0B0C\r\n#+ff").unwrap();
    assert_eq!(p.colors(), &[[0x0A, 0x0B, 0x0C], [0x00, 0x00, 0xFF]][..]);
}

#[test]
fn hex_unpacks_channels() {
    assert_eq!(hex_to_rgb(0x123456), [0x12, 0x34, 0x56]);
    assert_eq!(hex_to_rgb(0xFF0A0B0C), [0x0A, 0x0B, 0x0C]);
}

#[test]
fn nearest_index_prefers_first_of_equals() {
    let p = StaticPalette::from_colors([[0, 0, 0], [10, 10, 10], [10, 10, 10], [255, 255, 255]]);
    assert_eq!(p.index_of(&[9, 9, 9, 0]), 1);
    assert_eq!(p.index_of(&[200, 250, 240, 255]), 3);
    assert_eq!(p.index_of(&[1, 2, 0, 255]), 0);
}

#[test]
fn no_entry_closer_than_nearest() {
    let p = nord();
    let c = [120, 80, 200, 255];
    let i = p.index_of(&c);
    let best = image_go_nord::utils::delta(&c, &p.lookup(i).unwrap()[..3]);
    for j in 0..p.len() {
        let e = p.lookup(j).unwrap();
        assert!(image_go_nord::utils::delta(&c, &e[..3]) >= best);
    }
}

#[test]
fn map_color_keeps_alpha() {
    let p: DynamicPalette = frost().into();
    let mut c = [0x80, 0xA0, 0xC0, 17];
    p.map_color(&mut c);
    assert_eq!(c, [0x81, 0xA1, 0xC1, 17]);
}

#[test]
fn lookup_gives_opaque_entry_or_none() {
    let p = frost();
    assert!(p.has_lookup());
    assert_eq!(p.lookup(1), Some([0x88, 0xC0, 0xD0, 255]));
    assert_eq!(p.lookup(4), None);
    let d: DynamicPalette = p.into();
    assert_eq!(d.lookup(3), Some([0x5E, 0x81, 0xAC, 255]));
    assert_eq!(d.lookup(4), None);
}

#[test]
fn four_parts_join_into_nord() {
    let parts: Vec<DynamicPalette> = vec![
        aurora().into(),
        frost().into(),
        polar_night().into(),
        snow_storm().into(),
    ];
    let joined = DynamicPalette::concat(&parts);
    assert_eq!(joined.len(), 16);
    let whole: DynamicPalette = nord().into();
    assert_eq!(joined, whole);
    assert_eq!(joined.colors()[0], [0xBF, 0x61, 0x6A]);
    assert_eq!(joined.colors()[5], [0x8F, 0xBC, 0xBB]);
    assert_eq!(joined.colors()[15], [0xEC, 0xEF, 0xF4]);
}

#[test]
fn from_entries_keeps_order() {
    let d = DynamicPalette::from_entries(vec![[3, 2, 1], [1, 2, 3]]);
    assert_eq!(d.colors(), &[[3, 2, 1], [1, 2, 3]][..]);
    assert_eq!(d.len(), 2);
}

#[test]
fn cloned_palette_has_same_colors() {
    let d: DynamicPalette = nord().into();
    let c = d.clone();
    assert_eq!(c.colors(), d.colors());
    assert_eq!(c, d);
}

#[test]
fn parse_error_is_that_of_first_bad_word() {
    let err = DynamicPalette::from_palette_str("#8FBCBB\n#zz0000\n#123456789").unwrap_err();
    assert_eq!(err, u32::from_str_radix("zz0000", 16).unwrap_err());
    let err = DynamicPalette::from_palette_str("#123456789\n#zz").unwrap_err();
    assert_eq!(err, u32::from_str_radix("123456789", 16).unwrap_err());
}
