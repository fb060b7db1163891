use zeron::identity::{avatar, fill_and_text, hue, monogram, tile, Length, Shape, Tint, HUES};

/// The hue as a part of the wheel.
fn wheel(seed: &str) -> f32 {
    hue(seed) as f32 / HUES as f32
}

#[test]
fn hue_is_stable_and_bounded() {
    // Never stored, so it must be reproducible on any platform.
    assert_eq!(wheel("space-7"), wheel("space-7"));
    assert_ne!(wheel("space-7"), wheel("space-8"));
    for seed in ["", "a", "space-7", "/Users/x/code/very-long-project-name"] {
        let h = wheel(seed);
        assert!((0.0..1.0).contains(&h), "{seed} produced {h}");
    }
}

#[test]
fn hue_is_the_fnv_hash_of_the_bytes() {
    // Published FNV-1a hashes of "", "a" and "foobar".
    assert_eq!(hue(""), 0xcbf29ce484222325u64 % 17);
    assert_eq!(hue("a"), 0xaf63dc4c8601ec8cu64 % 17);
    assert_eq!(hue("foobar"), 0x85944171f73967e8u64 % 17);
    let by_hand = "\u{e9}\u{2192}".bytes().fold(0xcbf29ce484222325u64, |h, b| {
        (h ^ b as u64).wrapping_mul(0x100000001b3)
    });
    assert_eq!(hue("\u{e9}\u{2192}"), by_hand % 17);
}

#[test]
fn monogram_skips_punctuation_and_never_blanks() {
    assert_eq!(monogram("zeron"), "Z");
    assert_eq!(monogram(".dotfiles"), "D");
    assert_eq!(monogram("  spaced"), "S");
    assert_eq!(monogram("42-tests"), "4");
    assert_eq!(monogram(""), "·");
    assert_eq!(monogram("—"), "·");
}

#[test]
fn monogram_goes_by_unicode() {
    // One letter may have more than one capital.
    assert_eq!(monogram("\u{df}eta"), "SS");
    assert_eq!(monogram("\u{1f600} \u{e9}t\u{e9}"), "\u{c9}");
    assert_eq!(monogram("\u{4e2d}"), "\u{4e2d}");
    for u in 0..128u32 {
        let c = char::from_u32(u).unwrap();
        let expected = if c.is_ascii_alphanumeric() {
            c.to_ascii_uppercase().to_string()
        } else {
            "·".to_string()
        };
        assert_eq!(monogram(&c.to_string()), expected);
    }
}

#[test]
fn tiles_take_their_colors_from_seed_and_theme() {
    let tint = |saturation: u8, lightness: u8| Tint { hue: 3, saturation, lightness, alpha: 100 };
    assert_eq!(fill_and_text(3, true), (tint(52, 86), tint(72, 28)));
    assert_eq!(fill_and_text(3, false), (tint(42, 26), tint(78, 78)));

    for light in [true, false] {
        let place = tile("space-7", "zeron", light);
        let person = avatar("space-7", "ann", light);
        assert_eq!(place.shape, Shape::RoundedRect);
        assert_eq!(person.shape, Shape::Circle);
        assert_eq!(place.radius, Length { hundredths: 30, at_least: Some(4) });
        assert_eq!(person.radius, Length { hundredths: 50, at_least: None });
        assert_eq!(place.text_size, Length { hundredths: 46, at_least: Some(9) });
        assert_eq!(person.text_size, place.text_size);
        assert_eq!((place.fill, place.text), fill_and_text(hue("space-7"), light));
        assert_eq!((person.fill, person.text), (place.fill, place.text));
        assert_eq!(place.monogram, "Z");
        assert_eq!(person.monogram, "A");
    }
    assert_eq!(
        tile("space-7", "zeron", true).fill.hue,
        tile("space-7", "zeron", false).fill.hue
    );
}
