//! Named bichrome bitmaps and the registry they are looked up in.
use crate::canvas::{black, keyed, white, Image, Rgba};
use crate::error::Error;
use vstd::prelude::*;
use vstd::string::StringExecFns;

verus! {

/// The image a codec decodes from `buf`: width, height and four bytes per pixel; none
/// where `buf` holds no image it can read.
pub uninterp spec fn decoded_image(buf: Seq<u8>) -> Option<(u32, u32, Seq<u8>)>;

/// Relies on image::load_from_memory, which guesses the format and decodes the bitmap, and
/// on DynamicImage::into_rgba8, which turns it into four bytes per pixel.
#[verifier::external_body]
fn decode_rgba(buf: &[u8]) -> (r: Result<(u32, u32, Vec<u8>), image::ImageError>)
    ensures
        match r {
            Ok((w, h, px)) => decoded_image(buf@) == Some((w, h, px@)) && px@.len() == 4 * w * h,
            Err(_) => decoded_image(buf@) is None,
        },
{
    let img = image::load_from_memory(buf)?.into_rgba8();
    Ok((img.width(), img.height(), img.into_raw()))
}

/// Pixel `i` of four-byte pixels.
pub open spec fn color_at(raw: Seq<u8>, i: int) -> Rgba {
    Rgba { r: raw[4 * i], g: raw[4 * i + 1], b: raw[4 * i + 2], a: raw[4 * i + 3] }
}

/// Black and white stay; every other color becomes transparent.
pub open spec fn key_color(c: Rgba) -> Rgba {
    if c == black() || c == white() {
        c
    } else {
        crate::canvas::transparent()
    }
}

/// The keyed pixels of four-byte pixels.
pub open spec fn keyed_pixels(raw: Seq<u8>) -> Seq<Rgba> {
    Seq::new(raw.len() / 4, |i: int| key_color(color_at(raw, i)))
}

/// A named bitmap of black, white and transparent pixels.
#[derive(Clone, Debug)]
pub struct Sprite {
    pub name: String,
    pub width: u32,
    pub height: u32,
    pub pixels: Vec<Rgba>,
}

impl Sprite {
    pub open spec fn wf(&self) -> bool {
        &&& self.pixels@.len() == self.width * self.height
        &&& forall|i: int|
            0 <= i < self.pixels@.len() ==> #[trigger] self.pixels@[i] == black()
                || self.pixels@[i] == white() || self.pixels@[i] == crate::canvas::transparent()
    }

    /// A sprite from four-byte pixels, `width` by `height`, keyed to black, white and
    /// transparent.
    pub fn from_rgba(name: &str, width: u32, height: u32, raw: &Vec<u8>) -> (r: Sprite)
        requires
            raw@.len() == 4 * width * height,
        ensures
            r.wf(),
            r.name@ == name@,
            r.width == width,
            r.height == height,
            r.pixels@ == keyed_pixels(raw@),
    {
        let n: usize = raw.len() / 4;
        let mut pixels: Vec<Rgba> = Vec::new();
        let mut i: usize = 0;
        while i < n
            invariant
                n == raw@.len() / 4,
                i <= n,
                pixels@.len() == i,
                forall|j: int| 0 <= j < i ==> #[trigger] pixels@[j] == key_color(color_at(raw@, j)),
            decreases n - i,
        {
            let len = raw.len();
            assert(4 * i + 3 < len);
            let k: usize = 4 * i;
            let c = Rgba { r: raw[k], g: raw[k + 1], b: raw[k + 2], a: raw[k + 3] };
            let bw = (c.r == 0 && c.g == 0 && c.b == 0 && c.a == 255) || (c.r == 255 && c.g == 255
                && c.b == 255 && c.a == 255);
            if bw {
                pixels.push(c);
            } else {
                pixels.push(Rgba::transparent());
            }
            i = i + 1;
        }
        assert(pixels@ =~= keyed_pixels(raw@));
        assert(n == width * height) by (nonlinear_arith)
            requires
                n == raw@.len() / 4,
                raw@.len() == 4 * width * height,
        ;
        Sprite { name: name.to_owned(), width, height, pixels }
    }

    /// Decodes a bitmap and keys its pixels: anything but pure black or pure white becomes
    /// transparent.
    pub fn from_slice(name: &str, buf: &[u8]) -> (r: Result<Sprite, Error>)
        ensures
            match r {
                Ok(s) => {
                    &&& s.wf()
                    &&& s.name@ == name@
                    &&& decoded_image(buf@) matches Some((w, h, raw)) && w == s.width && h
                        == s.height && s.pixels@ == keyed_pixels(raw)
                },
                Err(e) => e == Error::Decoding && decoded_image(buf@) is None,
            },
    {
        match decode_rgba(buf) {
            Ok((w, h, raw)) => Ok(Sprite::from_rgba(name, w, h, &raw)),
            Err(_) => Err(Error::Decoding),
        }
    }

    pub fn name(&self) -> (r: &str)
        ensures
            r@ == self.name@,
    {
        self.name.as_str()
    }

    /// Draws the sprite onto `image` with its top-left corner at `(x, y)`; transparent pixels
    /// leave the canvas as it was, and what falls off the canvas is clipped.
    pub fn overlay(&self, image: &mut Image, x: i64, y: i64)
        requires
            self.wf(),
            old(image).wf(),
        ensures
            final(image).wf(),
            final(image).width == old(image).width,
            final(image).height == old(image).height,
            old(image).width > 0 ==> final(image).pixels@ == crate::canvas::overlaid(
                old(image).pixels@,
                old(image).width as int,
                self.pixels@,
                self.width as int,
                self.height as int,
                x as int,
                y as int,
            ),
            old(image).width == 0 ==> final(image).pixels@ == old(image).pixels@,
    {
        assert(keyed(self.pixels@)) by {
            assert forall|i: int| 0 <= i < self.pixels@.len() implies #[trigger] self.pixels@[i].a
                == 0 || self.pixels@[i].a == 255 by {
                assert(self.pixels@[i] == black() || self.pixels@[i] == white()
                    || self.pixels@[i] == crate::canvas::transparent());
            }
        }
        image.overlay(&self.pixels, self.width, self.height, x, y);
    }
}

/// The sprites a scene is drawn with, looked up by name.
#[derive(Clone, Debug)]
pub struct SpriteSheet {
    pub sprites: Vec<Sprite>,
}

/// Index of the first sprite named `name` at or after `from`; the length if there is none.
pub open spec fn index_named(s: Seq<Sprite>, name: Seq<char>, from: int) -> int
    decreases s.len() - from,
{
    if from < 0 || from >= s.len() {
        s.len() as int
    } else if s[from].name@ == name {
        from
    } else {
        index_named(s, name, from + 1)
    }
}

pub proof fn lemma_index_named_bounds(s: Seq<Sprite>, name: Seq<char>, from: int)
    requires
        0 <= from <= s.len(),
    ensures
        from <= index_named(s, name, from) <= s.len(),
        index_named(s, name, from) < s.len() ==> s[index_named(s, name, from)].name@ == name,
    decreases s.len() - from,
{
    if from < s.len() && s[from].name@ != name {
        lemma_index_named_bounds(s, name, from + 1);
    }
}

impl SpriteSheet {
    pub open spec fn wf(&self) -> bool {
        &&& forall|i: int| 0 <= i < self.sprites@.len() ==> #[trigger] self.sprites@[i].wf()
        &&& names_unique(self.sprites@)
    }

    pub open spec fn has(&self, name: Seq<char>) -> bool {
        index_named(self.sprites@, name, 0) < self.sprites@.len()
    }

    /// The first sprite called `name`.
    pub open spec fn named(&self, name: Seq<char>) -> Sprite {
        self.sprites@[index_named(self.sprites@, name, 0)]
    }
}

/// A sprite found by name in a sound sheet is sound and carries that name.
pub proof fn lemma_named_wf(sheet: SpriteSheet, name: Seq<char>)
    requires
        sheet.wf(),
        sheet.has(name),
    ensures
        sheet.named(name).wf(),
        sheet.named(name).name@ == name,
{
    lemma_index_named_bounds(sheet.sprites@, name, 0);
    let i = index_named(sheet.sprites@, name, 0);
    assert(sheet.sprites@[i].wf());
}

/// No two sprites share a name.
pub open spec fn names_unique(s: Seq<Sprite>) -> bool {
    forall|i: int, j: int| 0 <= i < j < s.len() ==> #[trigger] s[i].name@ != #[trigger] s[j].name@
}

/// Whether a sprite among the first `upto` is called `name`.
pub fn name_among(sprites: &Vec<Sprite>, upto: usize, name: &String) -> (r: bool)
    requires
        upto <= sprites@.len(),
    ensures
        r == exists|j: int| 0 <= j < upto && #[trigger] sprites@[j].name@ == name@,
{
    let mut j: usize = 0;
    while j < upto
        invariant
            upto <= sprites@.len(),
            j <= upto,
            forall|k: int| 0 <= k < j ==> #[trigger] sprites@[k].name@ != name@,
        decreases upto - j,
    {
        if sprites[j].name == *name {
            return true;
        }
        j = j + 1;
    }
    false
}

/// Decodes every asset, a name with the bytes of its bitmap, into one sheet.
pub fn sprites(assets: &Vec<(String, Vec<u8>)>) -> (r: Result<SpriteSheet, Error>)
    ensures
        match r {
            Ok(sheet) => {
                &&& sheet.wf()
                &&& sheet.sprites@.len() == assets@.len()
                &&& forall|i: int|
                    0 <= i < assets@.len() ==> {
                        let s = #[trigger] sheet.sprites@[i];
                        &&& s.name@ == assets@[i].0@
                        &&& decoded_image(assets@[i].1@) matches Some((w, h, raw)) && w == s.width
                            && h == s.height && s.pixels@ == keyed_pixels(raw)
                    }
            },
            Err(e) => (e == Error::Decoding && exists|i: int|
                0 <= i < assets@.len() && decoded_image(#[trigger] assets@[i].1@) is None) || (e
                == Error::DuplicateSprite && exists|i: int, j: int|
                0 <= i < j < assets@.len() && #[trigger] assets@[i].0@ == #[trigger] assets@[j].0@),
        },
{
    let mut out: Vec<Sprite> = Vec::new();
    let mut i: usize = 0;
    while i < assets.len()
        invariant
            i <= assets@.len(),
            out@.len() == i,
            forall|j: int|
                0 <= j < i ==> {
                    let s = #[trigger] out@[j];
                    &&& s.wf()
                    &&& s.name@ == assets@[j].0@
                    &&& decoded_image(assets@[j].1@) matches Some((w, h, raw)) && w == s.width && h
                        == s.height && s.pixels@ == keyed_pixels(raw)
                },
            names_unique(out@),
        decreases assets@.len() - i,
    {
        let (name, bytes) = &assets[i];
        if name_among(&out, i, name) {
            proof {
                let j = choose|j: int| 0 <= j < i && #[trigger] out@[j].name@ == name@;
                assert(assets@[j].0@ == assets@[i as int].0@);
            }
            return Err(Error::DuplicateSprite);
        }
        match Sprite::from_slice(name.as_str(), bytes.as_slice()) {
            Ok(s) => {
                let ghost before = out@;
                out.push(s);
                assert forall|a: int, b: int| 0 <= a < b < out@.len() implies #[trigger] out@[a].name@
                    != #[trigger] out@[b].name@ by {
                    if b == i {
                        assert(out@[a] == before[a]);
                    } else {
                        assert(out@[a] == before[a]);
                        assert(out@[b] == before[b]);
                    }
                }
            },
            Err(e) => {
                return Err(e);
            },
        }
        i = i + 1;
    }
    Ok(SpriteSheet { sprites: out })
}

/// The sprite called `name`.
pub fn sprite<'a>(sheet: &'a SpriteSheet, name: &str) -> (r: &'a Sprite)
    requires
        sheet.has(name@),
    ensures
        *r == sheet.named(name@),
{
    let wanted = name.to_owned();
    let mut i: usize = 0;
    proof {
        lemma_index_named_bounds(sheet.sprites@, name@, 0);
    }
    while i < sheet.sprites.len()
        invariant
            0 <= i <= index_named(sheet.sprites@, name@, 0),
            index_named(sheet.sprites@, name@, 0) < sheet.sprites@.len(),
            index_named(sheet.sprites@, name@, i as int) == index_named(sheet.sprites@, name@, 0),
            wanted@ == name@,
        decreases sheet.sprites@.len() - i,
    {
        proof {
            lemma_index_named_bounds(sheet.sprites@, name@, i as int);
        }
        if sheet.sprites[i].name == wanted {
            return &sheet.sprites[i];
        }
        assert(index_named(sheet.sprites@, name@, i as int) == index_named(
            sheet.sprites@,
            name@,
            i + 1,
        ));
        i = i + 1;
    }
    proof {
        lemma_index_named_bounds(sheet.sprites@, name@, i as int);
    }
    &sheet.sprites[i]
}

/// The decimal digit `d`.
pub open spec fn digit_char(d: int) -> char {
    if d == 0 {
        '0'
    } else if d == 1 {
        '1'
    } else if d == 2 {
        '2'
    } else if d == 3 {
        '3'
    } else if d == 4 {
        '4'
    } else if d == 5 {
        '5'
    } else if d == 6 {
        '6'
    } else if d == 7 {
        '7'
    } else if d == 8 {
        '8'
    } else {
        '9'
    }
}

/// `prefix`, an underscore and `n` in two digits: `cloud` and 5 give `cloud_05`.
pub open spec fn indexed_name(prefix: Seq<char>, n: int) -> Seq<char> {
    prefix + seq!['_', digit_char(n / 10), digit_char(n % 10)]
}

fn digit_str(d: usize) -> (r: &'static str)
    requires
        d < 10,
    ensures
        r@ == seq![digit_char(d as int)],
{
    proof {
        reveal_strlit("0");
        reveal_strlit("1");
        reveal_strlit("2");
        reveal_strlit("3");
        reveal_strlit("4");
        reveal_strlit("5");
        reveal_strlit("6");
        reveal_strlit("7");
        reveal_strlit("8");
        reveal_strlit("9");
    }
    match d {
        0 => "0",
        1 => "1",
        2 => "2",
        3 => "3",
        4 => "4",
        5 => "5",
        6 => "6",
        7 => "7",
        8 => "8",
        _ => "9",
    }
}

/// The name `prefix` followed by an underscore and `n` in two digits.
pub fn indexed_name_exec(prefix: &str, n: usize) -> (r: String)
    requires
        n < 100,
    ensures
        r@ == indexed_name(prefix@, n as int),
{
    let mut name = prefix.to_owned();
    proof {
        reveal_strlit("_");
    }
    name.append("_");
    name.append(digit_str(n / 10));
    name.append(digit_str(n % 10));
    assert(name@ =~= indexed_name(prefix@, n as int));
    name
}

/// The `n`th sprite of a family: `prefix` followed by `n` in two digits.
pub fn spriten<'a>(sheet: &'a SpriteSheet, prefix: &str, n: usize) -> (r: &'a Sprite)
    requires
        n < 100,
        sheet.has(indexed_name(prefix@, n as int)),
    ensures
        *r == sheet.named(indexed_name(prefix@, n as int)),
{
    let name = indexed_name_exec(prefix, n);
    sprite(sheet, name.as_str())
}

/// The names of the sprites a scene is drawn with: clouds by size, digits 0 to 9 with the
/// plus and minus signs and a spare, the four tree species by sway, flowers, houses, moons,
/// the sun, a thermometer and lightning.
pub open spec fn sprite_catalog() -> Seq<&'static str> {
    seq![
        "cloud_02", "cloud_03", "cloud_05", "cloud_10", "cloud_30", "cloud_50",
        "digit_00", "digit_01", "digit_02", "digit_03", "digit_04", "digit_05", "digit_06",
        "digit_07", "digit_08", "digit_09", "digit_10", "digit_11", "digit_12",
        "east_00", "east_01", "east_02", "east_03",
        "flower_00", "flower_01",
        "house_00", "house_01", "house_02",
        "moon_00", "moon_01",
        "palm_00", "palm_01", "palm_02", "palm_03",
        "pine_00", "pine_01", "pine_02", "pine_03",
        "sun_00",
        "temp_00",
        "tree_00", "tree_01", "tree_02", "tree_03",
        "lightning_00", "lightning_01", "lightning_02", "lightning_03", "lightning_04",
        "lightning_05",
    ]
}

/// The names of the sprites a scene is drawn with, one bitmap each.
pub fn sprite_names() -> (r: Vec<&'static str>)
    ensures
        r@ == sprite_catalog(),
        r@.len() == 50,
{
    let r = vec![
        "cloud_02", "cloud_03", "cloud_05", "cloud_10", "cloud_30", "cloud_50",
        "digit_00", "digit_01", "digit_02", "digit_03", "digit_04", "digit_05", "digit_06",
        "digit_07", "digit_08", "digit_09", "digit_10", "digit_11", "digit_12",
        "east_00", "east_01", "east_02", "east_03",
        "flower_00", "flower_01",
        "house_00", "house_01", "house_02",
        "moon_00", "moon_01",
        "palm_00", "palm_01", "palm_02", "palm_03",
        "pine_00", "pine_01", "pine_02", "pine_03",
        "sun_00",
        "temp_00",
        "tree_00", "tree_01", "tree_02", "tree_03",
        "lightning_00", "lightning_01", "lightning_02", "lightning_03", "lightning_04",
        "lightning_05",
    ];
    assert(r@ =~= sprite_catalog());
    r
}

} // verus!
