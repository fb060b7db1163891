//! Identity tiles: the monogram that stands in for a project or a person
//! wherever there is no uploaded image.
//!
//! The color comes from the row's own id and is stored nowhere, so one project
//! has one color on every device. Lightness and saturation come from the
//! theme.

use vstd::prelude::*;
use vstd::utf8::encode_utf8;

verus! {

/// Distinct hues on the wheel. A prime count keeps ids that are numbered in
/// sequence from landing on the same few of them.
pub const HUES: u64 = 17;

/// The hash of no bytes.
pub const FNV_OFFSET: u64 = 0xcbf2_9ce4_8422_2325;

/// What a hash is multiplied by for each byte: the 64-bit FNV prime.
pub const FNV_PRIME: u64 = 0x100_0000_01b3;

/// The 64-bit FNV-1a hash: each byte is mixed into the low bits of the hash,
/// which is then multiplied by the prime, modulo two to the power of 64.
pub open spec fn fnv1a(bytes: Seq<u8>) -> u64
    decreases bytes.len(),
{
    if bytes.len() == 0 {
        FNV_OFFSET
    } else {
        (fnv1a(bytes.drop_last()) ^ (bytes.last() as u64)).wrapping_mul(FNV_PRIME)
    }
}

/// The hue of `seed`, in parts of the wheel.
pub open spec fn hue_of(seed: Seq<char>) -> u64 {
    fnv1a(encode_utf8(seed)) % HUES
}

/// The hue of `seed`, as a number of parts of the wheel out of [`HUES`]. It
/// depends on nothing but the characters of `seed`.
pub fn hue(seed: &str) -> (r: u64)
    ensures
        r == hue_of(seed@),
        r < HUES,
{
    let bytes: &[u8] = seed.as_bytes();
    let mut h: u64 = FNV_OFFSET;
    for i in 0..bytes.len()
        invariant
            h == fnv1a(bytes@.take(i as int)),
    {
        assert(bytes@.take(i + 1).drop_last() =~= bytes@.take(i as int));
        h = (h ^ (bytes[i] as u64)).wrapping_mul(FNV_PRIME);
    }
    assert(bytes@.take(bytes@.len() as int) =~= bytes@);
    h % HUES
}

/// The ASCII characters.
pub open spec fn is_ascii(c: char) -> bool {
    (c as u32) < 128
}

/// Every character of `text` is an ASCII one.
pub open spec fn all_ascii(text: Seq<char>) -> bool {
    forall|i: int| 0 <= i < text.len() ==> is_ascii(#[trigger] text[i])
}

/// The ASCII letters and digits.
pub open spec fn is_ascii_alphanumeric(c: char) -> bool {
    ||| '0' <= c <= '9'
    ||| 'a' <= c <= 'z'
    ||| 'A' <= c <= 'Z'
}

/// The ASCII capital of an ASCII letter; any other character is its own.
pub open spec fn ascii_capital(c: char) -> char {
    if 'a' <= c <= 'z' {
        (c as u32 - 32) as char
    } else {
        c
    }
}

/// Whether `char::is_alphanumeric` counts `c` as a letter or a number.
pub uninterp spec fn is_alphanumeric(c: char) -> bool;

/// `char::is_alphanumeric` goes by the character alone. Of the ASCII
/// characters it holds of the letters and digits, and of no other.
pub assume_specification[ char::is_alphanumeric ](c: char) -> (r: bool)
    ensures
        r == is_alphanumeric(c),
        is_ascii(c) ==> r == is_ascii_alphanumeric(c),
;

/// The uppercase of `c`, as `char::to_uppercase` maps it.
pub uninterp spec fn uppercase(c: char) -> Seq<char>;

/// Calls `char::to_uppercase`. Trusted: the mapping goes by the character
/// alone and yields one or more characters; of an ASCII character it is the
/// ASCII capital.
#[verifier::external_body]
fn to_uppercase(c: char) -> (r: String)
    ensures
        r@ == uppercase(c),
        r@.len() >= 1,
        is_ascii(c) ==> r@ == seq![ascii_capital(c)],
{
    c.to_uppercase().to_string()
}

/// The letter of a label: the first of its characters that is a letter or a
/// number, in uppercase, or a dot where there is none.
pub open spec fn monogram_of(label: Seq<char>) -> Seq<char>
    decreases label.len(),
{
    if label.len() == 0 {
        "·"@
    } else if is_alphanumeric(label[0]) {
        uppercase(label[0])
    } else {
        monogram_of(label.drop_first())
    }
}

/// [`monogram_of`] a label of ASCII characters: the first letter or digit, as a
/// capital.
pub open spec fn ascii_monogram(label: Seq<char>) -> Seq<char>
    decreases label.len(),
{
    if label.len() == 0 {
        "·"@
    } else if is_ascii_alphanumeric(label[0]) {
        seq![ascii_capital(label[0])]
    } else {
        ascii_monogram(label.drop_first())
    }
}

/// The letter that a tile shows. Leading punctuation falls through to the
/// first character that carries meaning, and the tile is never blank.
pub fn monogram(label: &str) -> (r: String)
    ensures
        r@ == monogram_of(label@),
        r@.len() > 0,
        all_ascii(label@) ==> r@ == ascii_monogram(label@),
{
    assert(label@.skip(0) =~= label@);
    for c in it: label.chars()
        invariant
            it.seq() == label@,
            monogram_of(label@) == monogram_of(label@.skip(it.index() as int)),
            all_ascii(label@) ==> ascii_monogram(label@) == ascii_monogram(
                label@.skip(it.index() as int),
            ),
    {
        let ghost i = it.index() as int;
        assert(label@.skip(i)[0] == c);
        assert(label@[i] == c);
        if c.is_alphanumeric() {
            return to_uppercase(c);
        }
        assert(label@.skip(i).drop_first() =~= label@.skip(i + 1));
    }
    proof {
        reveal_strlit("·");
    }
    "·".to_owned()
}

/// A color: a hue in parts of the wheel, and saturation, lightness and opacity
/// in hundredths.
#[derive(Clone, Copy, Debug, PartialEq, Eq, Structural)]
pub struct Tint {
    pub hue: u64,
    pub saturation: u8,
    pub lightness: u8,
    pub alpha: u8,
}

/// The fill of a tile with the hue `hue`.
pub open spec fn fill_of(hue: u64, light: bool) -> Tint {
    if light {
        Tint { hue, saturation: 52, lightness: 86, alpha: 100 }
    } else {
        Tint { hue, saturation: 42, lightness: 26, alpha: 100 }
    }
}

/// The text color on a tile with the hue `hue`.
pub open spec fn text_of(hue: u64, light: bool) -> Tint {
    if light {
        Tint { hue, saturation: 72, lightness: 28, alpha: 100 }
    } else {
        Tint { hue, saturation: 78, lightness: 78, alpha: 100 }
    }
}

/// The fill of a tile and its text color. Dark themes get a dim, desaturated
/// wash with a bright glyph; light themes the inverse.
pub fn fill_and_text(hue: u64, light: bool) -> (r: (Tint, Tint))
    ensures
        r.0 == fill_of(hue, light),
        r.1 == text_of(hue, light),
{
    if light {
        (
            Tint { hue, saturation: 52, lightness: 86, alpha: 100 },
            Tint { hue, saturation: 72, lightness: 28, alpha: 100 },
        )
    } else {
        (
            Tint { hue, saturation: 42, lightness: 26, alpha: 100 },
            Tint { hue, saturation: 78, lightness: 78, alpha: 100 },
        )
    }
}

/// The outline of a mark.
#[derive(Clone, Copy, Debug, PartialEq, Eq, Structural)]
pub enum Shape {
    /// A place: a project, a folder.
    RoundedRect,
    /// A person: an account, a device's owner.
    Circle,
}

/// A length that goes by the side of a mark: so many hundredths of it, and at
/// least so many pixels where there is a least.
#[derive(Clone, Copy, Debug, PartialEq, Eq, Structural)]
pub struct Length {
    pub hundredths: u8,
    pub at_least: Option<u8>,
}

/// The corner radius of a mark: half of the side makes a circle.
pub open spec fn radius_of(shape: Shape) -> Length {
    match shape {
        Shape::RoundedRect => Length { hundredths: 30, at_least: Some(4) },
        Shape::Circle => Length { hundredths: 50, at_least: None },
    }
}

/// The size of a mark's letter. It goes by the mark, not by the type scale.
pub open spec fn letter_size() -> Length {
    Length { hundredths: 46, at_least: Some(9) }
}

/// What a mark shows.
#[derive(Debug, PartialEq)]
pub struct Mark {
    pub shape: Shape,
    pub radius: Length,
    pub text_size: Length,
    pub fill: Tint,
    pub text: Tint,
    pub monogram: String,
}

/// What a [`Mark`] shows.
pub struct MarkView {
    pub shape: Shape,
    pub radius: Length,
    pub text_size: Length,
    pub fill: Tint,
    pub text: Tint,
    pub monogram: Seq<char>,
}

impl Mark {
    pub open spec fn view(&self) -> MarkView {
        MarkView {
            shape: self.shape,
            radius: self.radius,
            text_size: self.text_size,
            fill: self.fill,
            text: self.text,
            monogram: self.monogram@,
        }
    }
}

/// The mark of an identity.
pub open spec fn mark_of(seed: Seq<char>, label: Seq<char>, shape: Shape, light: bool) -> MarkView {
    MarkView {
        shape,
        radius: radius_of(shape),
        text_size: letter_size(),
        fill: fill_of(hue_of(seed), light),
        text: text_of(hue_of(seed), light),
        monogram: monogram_of(label),
    }
}

/// The mark of an identity, colored by its seed and lettered by its label.
fn mark(seed: &str, label: &str, shape: Shape, light: bool) -> (r: Mark)
    ensures
        r@ == mark_of(seed@, label@, shape, light),
{
    let (fill, text) = fill_and_text(hue(seed), light);
    let radius: Length = match shape {
        Shape::RoundedRect => Length { hundredths: 30, at_least: Some(4) },
        Shape::Circle => Length { hundredths: 50, at_least: None },
    };
    let text_size: Length = Length { hundredths: 46, at_least: Some(9) };
    Mark { shape, radius, text_size, fill, text, monogram: monogram(label) }
}

/// The rounded tile of a place.
pub fn tile(seed: &str, label: &str, light: bool) -> (r: Mark)
    ensures
        r@ == mark_of(seed@, label@, Shape::RoundedRect, light),
{
    mark(seed, label, Shape::RoundedRect, light)
}

/// The circular variant, for a person.
pub fn avatar(seed: &str, label: &str, light: bool) -> (r: Mark)
    ensures
        r@ == mark_of(seed@, label@, Shape::Circle, light),
{
    mark(seed, label, Shape::Circle, light)
}

/// One identity reads the same wherever it appears: the colors of its mark
/// depend on its seed and the theme alone, not on the label or the shape.
pub proof fn lemma_identity_reads_the_same(
    seed: Seq<char>,
    label: Seq<char>,
    other_label: Seq<char>,
    shape: Shape,
    other_shape: Shape,
    light: bool,
)
    ensures
        ({
            let a = mark_of(seed, label, shape, light);
            let b = mark_of(seed, other_label, other_shape, light);
            &&& a.fill == b.fill
            &&& a.text == b.text
            &&& a.fill.hue == a.text.hue
        }),
{
}

/// The tile and the avatar of one identity agree in everything but their
/// outline: the avatar is a circle, the tile a square with rounded corners.
pub proof fn lemma_tile_and_avatar_differ_in_outline_alone(
    seed: Seq<char>,
    label: Seq<char>,
    light: bool,
)
    ensures
        ({
            let tile = mark_of(seed, label, Shape::RoundedRect, light);
            let avatar = mark_of(seed, label, Shape::Circle, light);
            &&& avatar == MarkView { shape: avatar.shape, radius: avatar.radius, ..tile }
            &&& avatar.radius == Length { hundredths: 50, at_least: None }
            &&& tile.radius == Length { hundredths: 30, at_least: Some(4) }
        }),
{
}

/// Contrast holds in either theme: the glyph is darker than a light theme's
/// fill and brighter than a dark theme's, by half of the scale at least.
pub proof fn lemma_contrast_holds(hue: u64, light: bool)
    ensures
        light ==> text_of(hue, light).lightness + 50 <= fill_of(hue, light).lightness,
        !light ==> fill_of(hue, light).lightness + 50 <= text_of(hue, light).lightness,
{
}

/// A theme changes how a mark is painted, never its hue or its letter.
pub proof fn lemma_theme_keeps_the_hue(seed: Seq<char>, label: Seq<char>, shape: Shape)
    ensures
        mark_of(seed, label, shape, true).fill.hue == mark_of(seed, label, shape, false).fill.hue,
        mark_of(seed, label, shape, true).monogram == mark_of(seed, label, shape, false).monogram,
        mark_of(seed, label, shape, true).fill.hue < HUES,
{
}

/// The hash of one more byte is the hash so far with the byte in its low bits,
/// times the prime and modulo two to the power of 64. The hue is the hash of
/// the seed's UTF-8 bytes, modulo seventeen.
pub proof fn lemma_one_more_byte(bytes: Seq<u8>, byte: u8, seed: Seq<char>)
    ensures
        fnv1a(Seq::empty()) == 0xcbf2_9ce4_8422_2325,
        fnv1a(bytes.push(byte)) == ((fnv1a(bytes) ^ (byte as u64)) * 0x100_0000_01b3)
            % 0x1_0000_0000_0000_0000,
        hue_of(seed) == fnv1a(encode_utf8(seed)) % 17,
{
    assert(bytes.push(byte).drop_last() =~= bytes);
}

/// The letter of a label is its first letter or number, in uppercase, however
/// much stands before it; a label with none shows a dot.
pub proof fn lemma_first_letter_counts(label: Seq<char>, at: int)
    ensures
        0 <= at < label.len() && is_alphanumeric(label[at]) && (forall|j: int|
            0 <= j < at ==> !is_alphanumeric(#[trigger] label[j])) ==> monogram_of(label)
            == uppercase(label[at]),
        (forall|j: int| 0 <= j < label.len() ==> !is_alphanumeric(#[trigger] label[j]))
            ==> monogram_of(label) == "·"@,
    decreases label.len(),
{
    if label.len() > 0 && !is_alphanumeric(label[0]) {
        let rest = label.drop_first();
        assert forall|j: int| 0 <= j < rest.len() implies #[trigger] rest[j] == label[j + 1] by {}
        lemma_first_letter_counts(rest, at - 1);
    }
}

/// Of a label of ASCII characters the letter is the first ASCII letter or
/// digit, a small one as its capital.
pub proof fn lemma_first_ascii_letter_counts(label: Seq<char>, at: int)
    ensures
        0 <= at < label.len() && is_ascii_alphanumeric(label[at]) && (forall|j: int|
            0 <= j < at ==> !is_ascii_alphanumeric(#[trigger] label[j])) ==> {
            &&& ascii_monogram(label).len() == 1
            &&& 'a' <= label[at] <= 'z' ==> ascii_monogram(label)[0] as int == label[at] as int - 32
            &&& !('a' <= label[at] <= 'z') ==> ascii_monogram(label)[0] == label[at]
        },
        (forall|j: int| 0 <= j < label.len() ==> !is_ascii_alphanumeric(#[trigger] label[j]))
            ==> ascii_monogram(label) == "·"@,
    decreases label.len(),
{
    if label.len() > 0 && !is_ascii_alphanumeric(label[0]) {
        let rest = label.drop_first();
        assert forall|j: int| 0 <= j < rest.len() implies #[trigger] rest[j] == label[j + 1] by {}
        lemma_first_ascii_letter_counts(rest, at - 1);
    }
}

/// Tiles differ in hue alone: in one theme every fill and every text color is
/// the same but for the hue, and the hue is the one that was asked for.
pub proof fn lemma_tiles_differ_in_hue_alone(hue: u64, other: u64, light: bool)
    ensures
        fill_of(hue, light) == (Tint { hue, ..fill_of(other, light) }),
        text_of(hue, light) == (Tint { hue, ..text_of(other, light) }),
        fill_of(hue, light).alpha == 100,
        text_of(hue, light).alpha == 100,
{
}

/// A mark is colored by its seed and lettered by its label, and by nothing
/// else; what a mark shows is what it holds.
pub proof fn lemma_mark_goes_by_seed_and_label(
    seed: Seq<char>,
    label: Seq<char>,
    shape: Shape,
    light: bool,
    mark: Mark,
)
    ensures
        mark_of(seed, label, shape, light).shape == shape,
        mark_of(seed, label, shape, light).fill == fill_of(hue_of(seed), light),
        mark_of(seed, label, shape, light).text == text_of(hue_of(seed), light),
        mark_of(seed, label, shape, light).monogram == monogram_of(label),
        mark_of(seed, label, shape, light).text_size == (Length {
            hundredths: 46,
            at_least: Some(9),
        }),
        mark@.shape == mark.shape,
        mark@.radius == mark.radius,
        mark@.text_size == mark.text_size,
        mark@.fill == mark.fill,
        mark@.text == mark.text,
        mark@.monogram == mark.monogram@,
{
}

} // verus!
