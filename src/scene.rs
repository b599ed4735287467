//! The rules that compose a landscape from the weather: what is drawn, and where.
use crate::canvas::{black, lemma_only_blackened_trans, only_blackened, overlaid, Image, Rgba};
use crate::chance::{random_range, random_u32, shuffle};
use crate::curve::in_limit;
use crate::error::Error;
use crate::layout::{graph_from_curve, laid_out, Moment, RenderContext, TEMPERATURE_LIMIT};
use crate::sprites::{indexed_name, lemma_named_wf, sprite, spriten, Sprite, SpriteSheet};
use crate::weather::{Condition, DataPoint, WeatherData};
use rand::rngs::StdRng;
use vstd::prelude::*;

verus! {

broadcast use vstd::seq_lib::group_to_multiset_ensures, vstd::laws_cmp::group_laws_cmp;

/// Cloud sprite sizes, from the smallest.
pub open spec fn is_cloud_size(n: int) -> bool {
    n == 2 || n == 3 || n == 5 || n == 10 || n == 30 || n == 50
}

/// Prefix of the sprites of tree species `k`: pine, east, palm, tree.
pub open spec fn species_name(k: int) -> Seq<char> {
    if k == 0 {
        "pine"@
    } else if k == 1 {
        "east"@
    } else if k == 2 {
        "palm"@
    } else {
        "tree"@
    }
}

impl SpriteSheet {
    /// Every sprite a scene may ask for is there.
    pub open spec fn complete(&self) -> bool {
        &&& self.wf()
        &&& self.has("house_00"@)
        &&& self.has("house_01"@)
        &&& self.has("sun_00"@)
        &&& self.has("moon_00"@)
        &&& self.has("flower_00"@)
        &&& self.has("flower_01"@)
        &&& self.has("cloud_02"@)
        &&& forall|d: int| 0 <= d < 13 ==> self.has(#[trigger] indexed_name("digit"@, d))
        &&& forall|n: int| is_cloud_size(n) ==> self.has(#[trigger] indexed_name("cloud"@, n))
        &&& forall|k: int, l: int|
            0 <= k < 4 && 0 <= l < 4 ==> self.has(#[trigger] indexed_name(species_name(k), l))
    }
}

impl Sprite {
    /// Whether the sprite is sound: as many pixels as its size says, each black, white or
    /// transparent.
    pub fn is_wf(&self) -> (r: bool)
        ensures
            r == self.wf(),
    {
        assert((self.width as u128) * (self.height as u128) <= 0xffff_ffff * 0xffff_ffff) by (nonlinear_arith)
            requires
                self.width <= 0xffff_ffff,
                self.height <= 0xffff_ffff,
        ;
        if self.pixels.len() as u128 != (self.width as u128) * (self.height as u128) {
            return false;
        }
        let mut i: usize = 0;
        while i < self.pixels.len()
            invariant
                i <= self.pixels@.len(),
                forall|j: int|
                    0 <= j < i ==> #[trigger] self.pixels@[j] == black() || self.pixels@[j]
                        == crate::canvas::white() || self.pixels@[j]
                        == crate::canvas::transparent(),
            decreases self.pixels@.len() - i,
        {
            let c = self.pixels[i];
            let keyed = (c.r == 0 && c.g == 0 && c.b == 0 && (c.a == 255 || c.a == 0)) || (c.r
                == 255 && c.g == 255 && c.b == 255 && c.a == 255);
            if !keyed {
                return false;
            }
            i = i + 1;
        }
        true
    }
}

impl SpriteSheet {
    /// Whether a sprite called `name` is there.
    pub fn has_sprite(&self, name: &str) -> (r: bool)
        ensures
            r == self.has(name@),
    {
        let wanted = name.to_owned();
        let mut i: usize = 0;
        proof {
            crate::sprites::lemma_index_named_bounds(self.sprites@, name@, 0);
        }
        while i < self.sprites.len()
            invariant
                0 <= i <= crate::sprites::index_named(self.sprites@, name@, 0),
                crate::sprites::index_named(self.sprites@, name@, 0) <= self.sprites@.len(),
                crate::sprites::index_named(self.sprites@, name@, i as int)
                    == crate::sprites::index_named(self.sprites@, name@, 0),
                wanted@ == name@,
            decreases self.sprites@.len() - i,
        {
            proof {
                crate::sprites::lemma_index_named_bounds(self.sprites@, name@, i as int);
            }
            if self.sprites[i].name == wanted {
                return true;
            }
            assert(crate::sprites::index_named(self.sprites@, name@, i as int)
                == crate::sprites::index_named(self.sprites@, name@, i + 1));
            i = i + 1;
        }
        false
    }

    fn has_indexed(&self, prefix: &str, n: usize) -> (r: bool)
        requires
            n < 100,
        ensures
            r == self.has(indexed_name(prefix@, n as int)),
    {
        let name = crate::sprites::indexed_name_exec(prefix, n);
        self.has_sprite(name.as_str())
    }

    /// Whether every sprite a scene may ask for is there and sound.
    pub fn is_complete(&self) -> (r: bool)
        ensures
            r == self.complete(),
    {
        let mut i: usize = 0;
        while i < self.sprites.len()
            invariant
                i <= self.sprites@.len(),
                forall|j: int| 0 <= j < i ==> #[trigger] self.sprites@[j].wf(),
                forall|a: int, b: int|
                    0 <= a < b < i ==> #[trigger] self.sprites@[a].name@
                        != #[trigger] self.sprites@[b].name@,
            decreases self.sprites@.len() - i,
        {
            if !self.sprites[i].is_wf() {
                return false;
            }
            if crate::sprites::name_among(&self.sprites, i, &self.sprites[i].name) {
                return false;
            }
            i = i + 1;
        }
        proof {
            reveal_strlit("house_00");
            reveal_strlit("house_01");
            reveal_strlit("sun_00");
            reveal_strlit("moon_00");
            reveal_strlit("flower_00");
            reveal_strlit("flower_01");
            reveal_strlit("cloud_02");
        }
        if !(self.has_sprite("house_00") && self.has_sprite("house_01") && self.has_sprite("sun_00")
            && self.has_sprite("moon_00") && self.has_sprite("flower_00") && self.has_sprite(
            "flower_01",
        ) && self.has_sprite("cloud_02")) {
            return false;
        }
        let mut d: usize = 0;
        while d < 13
            invariant
                d <= 13,
                forall|k: int| 0 <= k < d ==> self.has(#[trigger] indexed_name("digit"@, k)),
            decreases 13 - d,
        {
            if !self.has_indexed("digit", d) {
                return false;
            }
            d = d + 1;
        }
        let sizes: Vec<usize> = vec![2, 3, 5, 10, 30, 50];
        let mut k: usize = 0;
        while k < sizes.len()
            invariant
                sizes@ == seq![2usize, 3, 5, 10, 30, 50],
                k <= 6,
                forall|j: int| 0 <= j < k ==> self.has(#[trigger] indexed_name("cloud"@, sizes@[j] as int)),
            decreases 6 - k,
        {
            if !self.has_indexed("cloud", sizes[k]) {
                return false;
            }
            k = k + 1;
        }
        assert forall|n: int| is_cloud_size(n) implies self.has(#[trigger] indexed_name("cloud"@, n)) by {
            if n == 2 { assert(sizes@[0] == 2); } else if n == 3 { assert(sizes@[1] == 3); }
            else if n == 5 { assert(sizes@[2] == 5); } else if n == 10 { assert(sizes@[3] == 10); }
            else if n == 30 { assert(sizes@[4] == 30); } else { assert(sizes@[5] == 50); }
        }
        let mut sp: usize = 0;
        while sp < 4
            invariant
                sp <= 4,
                forall|a: int, b: int|
                    0 <= a < sp && 0 <= b < 4 ==> self.has(#[trigger] indexed_name(species_name(a), b)),
            decreases 4 - sp,
        {
            let mut l: usize = 0;
            while l < 4
                invariant
                    sp < 4,
                    l <= 4,
                    forall|a: int, b: int|
                        0 <= a < sp && 0 <= b < 4 ==> self.has(#[trigger] indexed_name(species_name(a), b)),
                    forall|b: int| 0 <= b < l ==> self.has(#[trigger] indexed_name(species_name(sp as int), b)),
                decreases 4 - l,
            {
                if !self.has_indexed(species_prefix(sp), l) {
                    return false;
                }
                l = l + 1;
            }
            sp = sp + 1;
        }
        true
    }
}

/// The cloud sizes drawn for a cloud cover of `f` tenths of a percent.
pub open spec fn cloud_sizes(f: int) -> Seq<usize> {
    if 20 <= f < 50 {
        seq![2]
    } else if 50 <= f < 100 {
        seq![3, 2]
    } else if 100 <= f < 200 {
        seq![5, 3, 2]
    } else if 200 <= f < 300 {
        seq![10, 5]
    } else if 300 <= f < 400 {
        seq![10, 10]
    } else if 400 <= f < 500 {
        seq![10, 10, 5]
    } else if 500 <= f < 600 {
        seq![30, 5]
    } else if 600 <= f < 700 {
        seq![30, 10]
    } else if 700 <= f < 800 {
        seq![30, 10, 5, 5]
    } else if 800 <= f < 900 {
        seq![30, 10, 10]
    } else if 900 <= f {
        seq![50, 30, 10, 10, 5]
    } else {
        seq![]
    }
}

/// The cloud sizes for a cloud cover of `f` tenths of a percent.
pub fn cloud_set(f: i64) -> (r: Vec<usize>)
    ensures
        r@ == cloud_sizes(f as int),
{
    let r: Vec<usize> = if 20 <= f && f < 50 {
        vec![2]
    } else if 50 <= f && f < 100 {
        vec![3, 2]
    } else if 100 <= f && f < 200 {
        vec![5, 3, 2]
    } else if 200 <= f && f < 300 {
        vec![10, 5]
    } else if 300 <= f && f < 400 {
        vec![10, 10]
    } else if 400 <= f && f < 500 {
        vec![10, 10, 5]
    } else if 500 <= f && f < 600 {
        vec![30, 5]
    } else if 600 <= f && f < 700 {
        vec![30, 10]
    } else if 700 <= f && f < 800 {
        vec![30, 10, 5, 5]
    } else if 800 <= f && f < 900 {
        vec![30, 10, 10]
    } else if 900 <= f {
        vec![50, 30, 10, 10, 5]
    } else {
        vec![]
    };
    assert(r@ =~= cloud_sizes(f as int));
    r
}

/// Angular distance of two directions in tenths of a degree, the short way round.
pub open spec fn direction_distance(a: int, b: int) -> int {
    let d = if a >= b { a - b } else { b - a };
    if d > 1800 {
        3600 - d
    } else {
        d
    }
}

/// How many trees of a species stand for a wind this far (tenths of a degree) from its
/// direction: four within 11.25 degrees, then three, three, two, two, one, one, then none.
pub open spec fn tree_count(distance: int) -> int {
    let index = (2 * distance) / 225;
    if index == 0 {
        4
    } else if index == 1 || index == 2 {
        3
    } else if index == 3 || index == 4 {
        2
    } else if index == 5 || index == 6 {
        1
    } else {
        0
    }
}

/// The tree species for a wind from `dir` (tenths of a degree): pines for the north, east
/// trees for the east, palms for the south and trees for the west, as many as `tree_count`.
pub open spec fn tree_species(dir: int) -> Seq<usize> {
    Seq::new(tree_count(direction_distance(dir, 0)) as nat, |i: int| 0usize) + Seq::new(
        tree_count(direction_distance(dir, 900)) as nat,
        |i: int| 1usize,
    ) + Seq::new(tree_count(direction_distance(dir, 1800)) as nat, |i: int| 2usize) + Seq::new(
        tree_count(direction_distance(dir, 2700)) as nat,
        |i: int| 3usize,
    )
}

fn tree_count_exec(a: i64, b: i64) -> (n: usize)
    requires
        0 <= a <= 3600,
        0 <= b <= 3600,
    ensures
        n == tree_count(direction_distance(a as int, b as int)),
        n <= 4,
{
    let d0: i64 = if a >= b { a - b } else { b - a };
    let d: i64 = if d0 > 1800 { 3600 - d0 } else { d0 };
    let index: i64 = (2 * d) / 225;
    if index == 0 {
        4
    } else if index == 1 || index == 2 {
        3
    } else if index == 3 || index == 4 {
        2
    } else if index == 5 || index == 6 {
        1
    } else {
        0
    }
}

fn push_repeated(v: &mut Vec<usize>, item: usize, count: usize)
    ensures
        final(v)@ == old(v)@ + Seq::new(count as nat, |i: int| item),
{
    let mut k: usize = 0;
    let ghost start = v@;
    while k < count
        invariant
            k <= count,
            v@ == start + Seq::new(k as nat, |i: int| item),
        decreases count - k,
    {
        v.push(item);
        k = k + 1;
        assert(v@ =~= start + Seq::new(k as nat, |i: int| item));
    }
}

/// The species of the trees for a wind from `dir`, as indices of `species_name`.
pub fn select_trees(dir: i64) -> (r: Vec<usize>)
    requires
        0 <= dir <= 3600,
    ensures
        r@ == tree_species(dir as int),
{
    let mut trees: Vec<usize> = Vec::new();
    let n0 = tree_count_exec(dir, 0);
    push_repeated(&mut trees, 0, n0);
    let n1 = tree_count_exec(dir, 900);
    push_repeated(&mut trees, 1, n1);
    let n2 = tree_count_exec(dir, 1800);
    push_repeated(&mut trees, 2, n2);
    let n3 = tree_count_exec(dir, 2700);
    push_repeated(&mut trees, 3, n3);
    assert(trees@ =~= tree_species(dir as int));
    trees
}

/// How far the trees sway for a wind speed of `s` tenths of a meter per second: none below
/// calm's end at 0.4 m/s, up to four full sways above 12.4 m/s.
pub open spec fn sway_levels(s: int) -> Seq<usize> {
    if s <= 4 {
        seq![]
    } else if s <= 7 {
        seq![0]
    } else if s <= 17 {
        seq![1, 0, 0]
    } else if s <= 33 {
        seq![1, 1, 0, 0]
    } else if s <= 52 {
        seq![1, 2, 0, 0]
    } else if s <= 74 {
        seq![1, 2, 2, 0]
    } else if s <= 98 {
        seq![1, 2, 3, 0]
    } else if s <= 124 {
        seq![2, 2, 3, 0]
    } else {
        seq![3, 3, 3, 3]
    }
}

fn species_prefix(k: usize) -> (r: &'static str)
    requires
        k < 4,
    ensures
        r@ == species_name(k as int),
{
    proof {
        reveal_strlit("pine");
        reveal_strlit("east");
        reveal_strlit("palm");
        reveal_strlit("tree");
    }
    if k == 0 {
        "pine"
    } else if k == 1 {
        "east"
    } else if k == 2 {
        "palm"
    } else {
        "tree"
    }
}

/// The sway of each tree for a wind speed of `s` tenths of a meter per second.
pub fn sway_set(s: i64) -> (r: Vec<usize>)
    ensures
        r@ == sway_levels(s as int),
{
    let r: Vec<usize> = if s <= 4 {
        vec![]
    } else if s <= 7 {
        vec![0]
    } else if s <= 17 {
        vec![1, 0, 0]
    } else if s <= 33 {
        vec![1, 1, 0, 0]
    } else if s <= 52 {
        vec![1, 2, 0, 0]
    } else if s <= 74 {
        vec![1, 2, 2, 0]
    } else if s <= 98 {
        vec![1, 2, 3, 0]
    } else if s <= 124 {
        vec![2, 2, 3, 0]
    } else {
        vec![3, 3, 3, 3]
    };
    assert(r@ =~= sway_levels(s as int));
    r
}

/// The rounded sine of `n` radians, with pi taken as 355/113: 1 where the sine is at least
/// one half, -1 where it is at most minus one half, 0 between.
pub open spec fn wobble(n: int) -> int {
    let r = (113 * n) % 710;
    if 710 <= 12 * r <= 3550 {
        1
    } else if 4970 <= 12 * r <= 7810 {
        -1
    } else {
        0
    }
}

/// The rounded sine of `n` radians.
pub fn rounded_sine(n: i64) -> (r: i64)
    requires
        0 <= n <= 0x1_0000_0000,
    ensures
        r == wobble(n as int),
{
    let r: i64 = (113 * n) % 710;
    if 710 <= 12 * r && 12 * r <= 3550 {
        1
    } else if 4970 <= 12 * r && 12 * r <= 7810 {
        -1
    } else {
        0
    }
}

/// How heavy a condition's precipitation looks: `(heaviness, factor)`.
pub open spec fn heaviness(c: Condition) -> (int, int) {
    match c {
        Condition::Snow => (5, 10),
        Condition::Sleet => (5, 15),
        _ => (5, 20),
    }
}

/// Whether a drop falls for a uniform 32-bit `draw`: with `amount` in tenths of a
/// millimeter, a drop falls with chance `amount / (heaviness * factor)`.
pub open spec fn drop_falls(draw: u32, amount: int, c: Condition) -> bool {
    let (h, f) = heaviness(c);
    draw * (h * f * 10) < amount * 0x1_0000_0000
}

/// Whether a drop falls for `draw`.
pub fn drop_test(draw: u32, amount: i64, c: Condition) -> (r: bool)
    requires
        0 <= amount <= 100000,
    ensures
        r == drop_falls(draw, amount as int, c),
{
    let weight: i128 = match c {
        Condition::Snow => 500,
        Condition::Sleet => 750,
        _ => 1000,
    };
    (draw as i128) * weight < (amount as i128) * 0x1_0000_0000
}

/// The first forecast with temperature `t`, where the extremes are labeled.
pub fn first_with_temperature(forecasts: &Vec<DataPoint>, t: i64) -> (r: Option<usize>)
    ensures
        match r {
            Some(i) => i < forecasts@.len() && forecasts@[i as int].air_temperature == t && forall|
                j: int,
            | 0 <= j < i ==> forecasts@[j].air_temperature != t,
            None => forall|j: int|
                0 <= j < forecasts@.len() ==> forecasts@[j].air_temperature != t,
        },
{
    let mut i: usize = 0;
    while i < forecasts.len()
        invariant
            i <= forecasts@.len(),
            forall|j: int| 0 <= j < i ==> forecasts@[j].air_temperature != t,
        decreases forecasts@.len() - i,
    {
        if forecasts[i].air_temperature == t {
            return Some(i);
        }
        i = i + 1;
    }
    None
}

proof fn lemma_cloud_sizes(f: int)
    ensures
        forall|k: int|
            0 <= k < cloud_sizes(f).len() ==> is_cloud_size(#[trigger] cloud_sizes(f)[k] as int),
{
}

/// The drawing left everything but the canvas's pixels as it was.
pub open spec fn same_layout(a: RenderContext, b: RenderContext) -> bool {
    &&& b.wf()
    &&& a.moment == b.moment
    &&& a.x_offset == b.x_offset
    &&& a.x_step == b.x_step
    &&& a.y_offset == b.y_offset
    &&& a.y_step == b.y_step
    &&& a.cloud_height == b.cloud_height
    &&& a.min_temperature == b.min_temperature
    &&& a.max_temperature == b.max_temperature
    &&& a.dpp_num == b.dpp_num
    &&& a.dpp_den == b.dpp_den
    &&& a.temperature_graph@ == b.temperature_graph@
    &&& a.img.width == b.img.width
    &&& a.img.height == b.img.height
}

/// `pixels` (`w` wide) with `s` drawn at `(x, y)`.
pub open spec fn with_sprite(pixels: Seq<Rgba>, w: int, s: Sprite, x: int, y: int) -> Seq<Rgba> {
    overlaid(pixels, w, s.pixels@, s.width as int, s.height as int, x, y)
}

/// The pixels after `value` is drawn at `(x, y)`: the plus or minus sign, then the tens
/// digit if there is one, then the units digit, each a sprite's width plus one apart, the
/// digits centered on `x`.
pub open spec fn number_pixels(
    pixels: Seq<Rgba>,
    w: int,
    sheet: SpriteSheet,
    x: int,
    y: int,
    value: int,
) -> Seq<Rgba> {
    let sign = if value >= 0 {
        sheet.named(indexed_name("digit"@, 10))
    } else {
        sheet.named(indexed_name("digit"@, 11))
    };
    let v = if value < 0 { -value } else { value };
    let d1 = v / 10;
    let d2 = v % 10;
    let digits = if v < 10 { 1int } else { 2 };
    let dw = sign.width as int;
    let off0 = -((digits * (dw + 1)) / 2) - dw;
    let p1 = with_sprite(pixels, w, sign, x + off0, y);
    let off1 = off0 + dw + 1;
    let p2 = if d1 > 0 {
        with_sprite(p1, w, sheet.named(indexed_name("digit"@, d1)), x + off1, y)
    } else {
        p1
    };
    let off2 = if d1 > 0 { off1 + dw + 1 } else { off1 };
    with_sprite(p2, w, sheet.named(indexed_name("digit"@, d2)), x + off2, y)
}

/// The pixels after cloud `k` of `sizes` is drawn at column `x + offsets[k]`, row `y`, in
/// order.
pub open spec fn clouds_pixels(
    pixels: Seq<Rgba>,
    w: int,
    sheet: SpriteSheet,
    sizes: Seq<usize>,
    offsets: Seq<int>,
    x: int,
    y: int,
) -> Seq<Rgba>
    decreases sizes.len(),
{
    if sizes.len() == 0 {
        pixels
    } else {
        let before = clouds_pixels(pixels, w, sheet, sizes.drop_last(), offsets.drop_last(), x, y);
        with_sprite(
            before,
            w,
            sheet.named(indexed_name("cloud"@, sizes.last() as int)),
            x + offsets.last(),
            y,
        )
    }
}

/// The pixels after the trees from the `k`th on are planted, the next at column `x_off`:
/// tree `k` is species `species[k]` swaying `sway[k]`, standing on the graph's row at column
/// `x_off + 5`; a tree whose column is off the graph is left out without moving on, and
/// planting stops at the graph's length in columns or when the sways run out.
pub open spec fn trees_pixels(
    pixels: Seq<Rgba>,
    w: int,
    sheet: SpriteSheet,
    graph: Map<i64, i64>,
    x_off: int,
    species: Seq<usize>,
    sway: Seq<usize>,
    k: int,
) -> Seq<Rgba>
    decreases sway.len() - k,
{
    if k < 0 || k >= sway.len() || x_off + 5 > graph.len() {
        pixels
    } else if k < species.len() {
        if graph.contains_key((x_off + 5) as i64) {
            let t = sheet.named(indexed_name(species_name(species[k] as int), sway[k] as int));
            trees_pixels(
                with_sprite(pixels, w, t, x_off, graph[(x_off + 5) as i64] - t.height + 1),
                w,
                sheet,
                graph,
                x_off + 9,
                species,
                sway,
                k + 1,
            )
        } else {
            trees_pixels(pixels, w, sheet, graph, x_off, species, sway, k + 1)
        }
    } else {
        trees_pixels(pixels, w, sheet, graph, x_off + 9, species, sway, k + 1)
    }
}

/// Every pixel of `q` that differs from `p` lies in the band of columns `x..x + width` on
/// the graph, from row `y - 1` down to just above the graph's row in its column.
pub open spec fn changed_in_band(
    p: Seq<Rgba>,
    q: Seq<Rgba>,
    w: int,
    graph: Map<i64, i64>,
    x: int,
    y: int,
    width: int,
) -> bool {
    forall|i: int|
        0 <= i < p.len() && #[trigger] q[i] != p[i] ==> {
            let c = i % w;
            let r = i / w;
            &&& x <= c < x + width
            &&& graph.contains_key(c as i64)
            &&& y - 1 <= r < graph[c as i64]
        }
}

proof fn lemma_blacken_in_band(
    orig: Seq<Rgba>,
    before: Image,
    after: Image,
    graph: Map<i64, i64>,
    x: int,
    y: int,
    width: int,
    c: int,
    r: int,
)
    requires
        before.wf(),
        before.width > 0,
        orig.len() == before.pixels@.len(),
        changed_in_band(orig, before.pixels@, before.width as int, graph, x, y, width),
        before.in_bounds(c, r) ==> after.pixels@ == before.pixels@.update(
            crate::canvas::index_of(before.width as int, c, r),
            black(),
        ),
        !before.in_bounds(c, r) ==> after.pixels@ == before.pixels@,
        x <= c < x + width,
        -0x1_0000_0000_0000 <= c <= 0x1_0000_0000_0000,
        graph.contains_key(c as i64),
        y - 1 <= r < graph[c as i64],
    ensures
        changed_in_band(orig, after.pixels@, before.width as int, graph, x, y, width),
{
    if before.in_bounds(c, r) {
        let w = before.width as int;
        let idx = crate::canvas::index_of(w, c, r);
        crate::canvas::lemma_index_in_range(w, before.height as int, c, r);
        vstd::arithmetic::div_mod::lemma_fundamental_div_mod_converse(idx, w, r, c);
        assert forall|i: int|
            0 <= i < orig.len() && #[trigger] after.pixels@[i] != orig[i] implies {
            let cc = i % w;
            let rr = i / w;
            &&& x <= cc < x + width
            &&& graph.contains_key(cc as i64)
            &&& y - 1 <= rr < graph[cc as i64]
        } by {
            if i != idx {
                assert(after.pixels@[i] == before.pixels@[i]);
            }
        }
    }
}

/// Clouds of `data`'s cover drawn over columns `x..x + width` at row `y`, each at some
/// offset into the band.
pub open spec fn clouds_drawn(
    a: RenderContext,
    b: RenderContext,
    sheet: SpriteSheet,
    data: DataPoint,
    x: int,
    y: int,
    width: int,
) -> bool {
    &&& same_layout(a, b)
    &&& cloud_sizes(data.cloud_area_fraction as int).len() == 0 || width == 0 ==> b.img == a.img
    &&& width > 0 ==> exists|offsets: Seq<int>|
        {
            &&& offsets.len() == cloud_sizes(data.cloud_area_fraction as int).len()
            &&& forall|k: int| 0 <= k < offsets.len() ==> 0 <= #[trigger] offsets[k] < width
            &&& b.img.pixels@ == clouds_pixels(
                a.img.pixels@,
                a.img.width as int,
                sheet,
                cloud_sizes(data.cloud_area_fraction as int),
                offsets,
                x,
                y,
            )
        }
}

/// Rain or snow drawn in the band under the graph over columns `x..x + width` from row `y`.
pub open spec fn precipitation_drawn(
    a: RenderContext,
    b: RenderContext,
    data: DataPoint,
    x: int,
    y: int,
    width: int,
) -> bool {
    &&& same_layout(a, b)
    &&& only_blackened(a.img.pixels@, b.img.pixels@)
    &&& data.precipitation_amount <= 0 ==> b.img == a.img
    &&& changed_in_band(
        a.img.pixels@,
        b.img.pixels@,
        a.img.width as int,
        a.temperature_graph@,
        x,
        y,
        width,
    )
    &&& data.precipitation_amount > 0 ==> rain_columns(
        a.img.pixels@,
        b.img.pixels@,
        a.img.width as int,
        a.img.height as int,
        a.temperature_graph@,
        x,
        x + width,
        y,
        data.precipitation_amount as int,
        data.condition,
    )
}

/// Fog over columns `x..x + width` from row `y`: none where the graph is off the band or the
/// band is too narrow; else streaks `k = 0, 1, ...` at rows `y + 6k` while `6k` is under
/// the range (half the height from `y` to the graph's top) and `k` rows' share of it under
/// the fog cover, each starting some columns into the band.
pub open spec fn fog_drawn(
    a: RenderContext,
    b: RenderContext,
    data: DataPoint,
    x: int,
    y: int,
    width: int,
) -> bool {
    let fw = width / 2;
    let fog = data.fog_area_fraction as int;
    &&& same_layout(a, b)
    &&& only_blackened(a.img.pixels@, b.img.pixels@)
    &&& data.fog_area_fraction == 0 ==> b.img == a.img
    &&& match graph_top_of(a.temperature_graph@, x, x + width) {
        None => b.img == a.img,
        Some(top) => {
            let yr = trunc_half(top - y);
            if fw / 2 <= 3 {
                b.img == a.img
            } else {
                exists|starts: Seq<int>|
                    {
                        &&& forall|k: int|
                            0 <= k < starts.len() ==> 3 <= #[trigger] starts[k] < fw / 2 && 6 * k
                                < yr && 6000 * k < fog * yr
                        &&& 6 * starts.len() >= yr || fog * yr <= 6000 * starts.len()
                        &&& b.img.pixels@ == fog_rows(
                            a.img.pixels@,
                            a.img.width as int,
                            a.img.height as int,
                            x,
                            y,
                            fw,
                            starts,
                        )
                    }
            }
        },
    }
}

/// The trees for `data`'s wind planted from column `x`.
pub open spec fn trees_drawn(
    a: RenderContext,
    b: RenderContext,
    sheet: SpriteSheet,
    data: DataPoint,
    x: int,
) -> bool {
    &&& same_layout(a, b)
    &&& data.wind_speed <= 4 ==> b.img == a.img
    &&& exists|species: Seq<usize>, sway: Seq<usize>|
        {
            &&& species.to_multiset() == tree_species(data.wind_from_direction as int).to_multiset()
            &&& sway.to_multiset() == sway_levels(data.wind_speed as int).to_multiset()
            &&& b.img.pixels@ == trees_pixels(
                a.img.pixels@,
                a.img.width as int,
                sheet,
                a.temperature_graph@,
                x,
                species,
                sway,
                0,
            )
        }
}

/// The first forecast with temperature `t`, if any, labeled with it.
pub open spec fn extremum_drawn(
    a: RenderContext,
    b: RenderContext,
    sheet: SpriteSheet,
    forecasts: Seq<DataPoint>,
    t: i64,
) -> bool {
    &&& same_layout(a, b)
    &&& (forall|j: int| 0 <= j < forecasts.len() ==> forecasts[j].air_temperature != t)
        ==> b.img == a.img
    &&& forall|i: int|
        0 <= i < forecasts.len() && #[trigger] forecasts[i].air_temperature == t && (forall|j: int|
            0 <= j < i ==> forecasts[j].air_temperature != t) ==> b.img.pixels@ == number_pixels(
            a.img.pixels@,
            a.img.width as int,
            sheet,
            a.spec_forecast_x(i),
            a.spec_temperature_to_y(t as int) + 5,
            crate::curve::round_div(t as int, 10),
        )
}

/// Clouds, then precipitation, then fog over columns `x..x + width`.
pub open spec fn sky_drawn(
    a: RenderContext,
    b: RenderContext,
    sheet: SpriteSheet,
    data: DataPoint,
    x: int,
    width: int,
) -> bool {
    exists|m1: RenderContext, m2: RenderContext|
        #![trigger clouds_drawn(a, m1, sheet, data, x, 5, width), precipitation_drawn(m1, m2, data, x, a.cloud_height + 5, width)]
        {
            &&& clouds_drawn(a, m1, sheet, data, x, 5, width)
            &&& precipitation_drawn(m1, m2, data, x, a.cloud_height + 5, width)
            &&& fog_drawn(m2, b, data, x, a.cloud_height + 10, width)
        }
}

/// The house on the row of `weather`'s temperature, lit at twilight.
pub open spec fn house_drawn(
    a: RenderContext,
    b: RenderContext,
    sheet: SpriteSheet,
    weather: DataPoint,
) -> bool {
    let house = if a.moment.is_twilight() {
        sheet.named("house_01"@)
    } else {
        sheet.named("house_00"@)
    };
    &&& same_layout(a, b)
    &&& b.img.pixels@ == with_sprite(
        a.img.pixels@,
        a.img.width as int,
        house,
        0,
        a.spec_temperature_to_y(weather.air_temperature as int) - house.height,
    )
}

/// Temperature `t` labeled below its row at column `x`.
pub open spec fn temperature_drawn(
    a: RenderContext,
    b: RenderContext,
    sheet: SpriteSheet,
    t: i64,
    x: int,
) -> bool {
    &&& same_layout(a, b)
    &&& b.img.pixels@ == number_pixels(
        a.img.pixels@,
        a.img.width as int,
        sheet,
        x,
        a.spec_temperature_to_y(t as int) + 5,
        crate::curve::round_div(t as int, 10),
    )
}

/// The house, the sky over it and the current temperature, in that order.
pub open spec fn current_drawn(
    a: RenderContext,
    b: RenderContext,
    sheet: SpriteSheet,
    weather: DataPoint,
) -> bool {
    exists|m1: RenderContext, m2: RenderContext|
        {
            &&& house_drawn(a, m1, sheet, weather)
            &&& sky_drawn(m1, m2, sheet, weather, 0, a.x_offset as int)
            &&& temperature_drawn(m2, b, sheet, weather.air_temperature, a.x_offset / 2)
        }
}

/// The sky and trees of forecasts `i`, `i + 4`, ... in turn.
pub open spec fn forecast_passes(
    a: RenderContext,
    b: RenderContext,
    sheet: SpriteSheet,
    forecasts: Seq<DataPoint>,
    i: int,
) -> bool
    decreases forecasts.len() - i,
{
    if i < 0 || i >= forecasts.len() {
        b == a
    } else {
        exists|m1: RenderContext, m2: RenderContext|
            {
                &&& sky_drawn(a, m1, sheet, forecasts[i], a.spec_forecast_x(i), a.x_step * 4)
                &&& trees_drawn(m1, m2, sheet, forecasts[i], a.spec_forecast_x(i))
                &&& if forecasts.len() - i <= 4 {
                    b == m2
                } else {
                    forecast_passes(m2, b, sheet, forecasts, i + 4)
                }
            }
    }
}

/// Every fourth forecast's sky and trees, then the lowest and the highest temperature labeled.
pub open spec fn forecasts_drawn(
    a: RenderContext,
    b: RenderContext,
    sheet: SpriteSheet,
    forecasts: Seq<DataPoint>,
) -> bool {
    exists|m1: RenderContext, m2: RenderContext|
        {
            &&& forecast_passes(a, m1, sheet, forecasts, 0)
            &&& extremum_drawn(m1, m2, sheet, forecasts, a.min_temperature)
            &&& extremum_drawn(m2, b, sheet, forecasts, a.max_temperature)
        }
}

/// Flower `name` planted on the graph at the column of `ts`, when that column is right of
/// the house and on the graph.
pub open spec fn flower_drawn(
    a: RenderContext,
    b: RenderContext,
    sheet: SpriteSheet,
    name: Seq<char>,
    ts: i64,
) -> bool {
    let x = a.spec_timestamp_to_x(ts as int);
    let flower = sheet.named(name);
    &&& same_layout(a, b)
    &&& x < a.x_offset || !a.temperature_graph@.contains_key(x as i64) ==> b.img == a.img
    &&& x >= a.x_offset && a.temperature_graph@.contains_key(x as i64) ==> b.img.pixels@
        == with_sprite(
        a.img.pixels@,
        a.img.width as int,
        flower,
        x,
        a.temperature_graph@[x as i64] - flower.height,
    )
}

/// The flowers at the next midnight and the next noon.
pub open spec fn flowers_drawn(a: RenderContext, b: RenderContext, sheet: SpriteSheet) -> bool {
    exists|m: RenderContext|
        {
            &&& flower_drawn(a, m, sheet, "flower_00"@, a.moment.next_midnight)
            &&& flower_drawn(m, b, sheet, "flower_01"@, a.moment.next_noon)
        }
}

/// The sun and the moon centered on the columns of the next sunrise and sunset.
pub open spec fn celestial_drawn(a: RenderContext, b: RenderContext, sheet: SpriteSheet) -> bool {
    let sun = sheet.named("sun_00"@);
    let moon = sheet.named("moon_00"@);
    let w = a.img.width as int;
    let sun_x = a.spec_timestamp_to_x(a.moment.next_sunrise as int) - (sun.width / 2) as int;
    let moon_x = a.spec_timestamp_to_x(a.moment.next_sunset as int) - (moon.width / 2) as int;
    &&& same_layout(a, b)
    &&& b.img.pixels@ == with_sprite(with_sprite(a.img.pixels@, w, sun, sun_x, 0), w, moon, moon_x, 0)
}

/// The graph plotted: one black pixel at every column and row of it on the canvas.
pub open spec fn graph_drawn(a: RenderContext, b: RenderContext) -> bool {
    &&& same_layout(a, b)
    &&& only_blackened(a.img.pixels@, b.img.pixels@)
    &&& forall|c: i64|
        0 <= c < a.img.width && #[trigger] a.temperature_graph@.contains_key(c) && 0
            <= a.temperature_graph@[c] < a.img.height ==> b.img.pixel(
            c as int,
            a.temperature_graph@[c] as int,
        ) == black()
}

/// The smaller of two optional rows.
pub open spec fn min_opt(a: Option<int>, b: Option<int>) -> Option<int> {
    match (a, b) {
        (Some(u), Some(v)) => Some(if u <= v { u } else { v }),
        (Some(u), None) => Some(u),
        (None, _) => b,
    }
}

/// The smallest row of the graph over columns `c..end`.
pub open spec fn graph_top_of(graph: Map<i64, i64>, c: int, end: int) -> Option<int>
    decreases end - c,
{
    if c >= end {
        None
    } else {
        min_opt(
            if graph.contains_key(c as i64) {
                Some(graph[c as i64] as int)
            } else {
                None
            },
            graph_top_of(graph, c + 1, end),
        )
    }
}

/// Half of `v`, rounded toward zero.
pub open spec fn trunc_half(v: int) -> int {
    if v >= 0 {
        v / 2
    } else {
        -((-v) / 2)
    }
}

/// `p` (`w` by `h`) with `(x, y)` blackened, if it is on the canvas.
pub open spec fn blacken(p: Seq<Rgba>, w: int, h: int, x: int, y: int) -> Seq<Rgba> {
    if 0 <= x < w && 0 <= y < h {
        p.update(crate::canvas::index_of(w, x, y), black())
    } else {
        p
    }
}

/// The first `n` dots of a fog streak from `(xs, ys)`: dot `i` at column `xs + i`, wobbling
/// by the rounded sine of `i + 2` about row `ys`.
pub open spec fn streak(p: Seq<Rgba>, w: int, h: int, xs: int, ys: int, n: int) -> Seq<Rgba>
    decreases n,
{
    if n <= 0 {
        p
    } else {
        blacken(streak(p, w, h, xs, ys, n - 1), w, h, xs + n - 1, ys + wobble(n + 1))
    }
}

/// Fog streak `k` starting `starts[k]` columns into the band at row `y + 6 * k`, each
/// `fw + 1` dots long.
pub open spec fn fog_rows(
    p: Seq<Rgba>,
    w: int,
    h: int,
    x: int,
    y: int,
    fw: int,
    starts: Seq<int>,
) -> Seq<Rgba>
    decreases starts.len(),
{
    if starts.len() == 0 {
        p
    } else {
        let k = starts.len() - 1;
        streak(fog_rows(p, w, h, x, y, fw, starts.drop_last()), w, h, x + starts[k], y + 6 * k, fw + 1)
    }
}

/// One candidate drop at `(c, r)` for the draws `d`: it falls where `drop_falls` says so
/// for `d.0`; snow blackens one pixel, rain two stacked (`(c, r)` and the one above), and
/// sleet snow when `d.1` is even and rain otherwise.
pub open spec fn rain_cell(
    p: Seq<Rgba>,
    w: int,
    h: int,
    c: int,
    r: int,
    d: (u32, u32),
    amount: int,
    cond: Condition,
) -> Seq<Rgba> {
    if drop_falls(d.0, amount, cond) {
        let snow = match cond {
            Condition::Snow => true,
            Condition::Sleet => d.1 % 2 == 0,
            _ => false,
        };
        let p1 = blacken(p, w, h, c, r);
        if snow {
            p1
        } else {
            blacken(p1, w, h, c, r - 1)
        }
    } else {
        p
    }
}

/// The candidate drops of column `c` at rows `y`, `y + 2`, ..., one for each draw, in turn.
pub open spec fn rain_rows(
    p: Seq<Rgba>,
    w: int,
    h: int,
    c: int,
    y: int,
    draws: Seq<(u32, u32)>,
    amount: int,
    cond: Condition,
) -> Seq<Rgba>
    decreases draws.len(),
{
    if draws.len() == 0 {
        p
    } else {
        let j = draws.len() - 1;
        rain_cell(
            rain_rows(p, w, h, c, y, draws.drop_last(), amount, cond),
            w,
            h,
            c,
            y + 2 * j,
            draws.last(),
            amount,
            cond,
        )
    }
}

/// How many of the rows `y`, `y + 2`, ... lie above row `ymax`.
pub open spec fn rows_above(y: int, ymax: int) -> int {
    if ymax > y {
        (ymax - y + 1) / 2
    } else {
        0
    }
}

/// `q` is `m` after the candidate drops of column `c`, if it is on the graph: tried from row
/// `y` down to just above the graph, for some draws.
pub open spec fn rain_column(
    m: Seq<Rgba>,
    q: Seq<Rgba>,
    w: int,
    h: int,
    graph: Map<i64, i64>,
    c: int,
    y: int,
    amount: int,
    cond: Condition,
) -> bool {
    if graph.contains_key(c as i64) {
        exists|draws: Seq<(u32, u32)>|
            draws.len() == rows_above(y, graph[c as i64] as int) && q == #[trigger] rain_rows(
                m,
                w,
                h,
                c,
                y,
                draws,
                amount,
                cond,
            )
    } else {
        q == m
    }
}

/// `q` is `p` after the candidate drops of the columns `x..c`, column by column.
pub open spec fn rain_columns(
    p: Seq<Rgba>,
    q: Seq<Rgba>,
    w: int,
    h: int,
    graph: Map<i64, i64>,
    x: int,
    c: int,
    y: int,
    amount: int,
    cond: Condition,
) -> bool {
    exists|states: Seq<Seq<Rgba>>|
        {
            &&& states.len() == c - x + 1
            &&& states[0] == p
            &&& states[c - x] == q
            &&& forall|k: int|
                0 <= k < c - x ==> rain_column(
                    #[trigger] states[k],
                    states[k + 1],
                    w,
                    h,
                    graph,
                    x + k,
                    y,
                    amount,
                    cond,
                )
        }
}

/// Largest magnitude of a position handed to the drawing rules.
pub const POSITION_LIMIT: i64 = 0x100_0000_0000;

pub open spec fn position(v: int) -> bool {
    -POSITION_LIMIT <= v <= POSITION_LIMIT
}

/// Draws scenes; in night mode a scene drawn in the dark is inverted.
#[derive(Clone, Copy, Debug)]
pub struct Renderer {
    pub night_mode: bool,
}

impl Renderer {
    pub fn new(night_mode: bool) -> (r: Renderer)
        ensures
            r.night_mode == night_mode,
    {
        Renderer { night_mode }
    }

    fn draw_sprite(&self, ctx: &mut RenderContext, sprite: &Sprite, x: i64, y: i64)
        requires
            old(ctx).wf(),
            sprite.wf(),
        ensures
            same_layout(*old(ctx), *final(ctx)),
            final(ctx).img.pixels@ == crate::canvas::overlaid(
                old(ctx).img.pixels@,
                old(ctx).img.width as int,
                sprite.pixels@,
                sprite.width as int,
                sprite.height as int,
                x as int,
                y as int,
            ),
    {
        sprite.overlay(&mut ctx.img, x, y);
    }

    /// Draws `value` as a sign and one or two digits, centered on column `x` without the
    /// sign.
    pub fn draw_number(&self, ctx: &mut RenderContext, sheet: &SpriteSheet, x: i64, y: i64, value: i64)
        requires
            old(ctx).wf(),
            sheet.complete(),
            position(x as int),
            position(y as int),
            -99 <= value <= 99,
        ensures
            same_layout(*old(ctx), *final(ctx)),
            final(ctx).img.pixels@ == number_pixels(
                old(ctx).img.pixels@,
                old(ctx).img.width as int,
                *sheet,
                x as int,
                y as int,
                value as int,
            ),
    {
        let sign = if value >= 0 {
            spriten(sheet, "digit", 10)
        } else {
            spriten(sheet, "digit", 11)
        };
        proof {
            lemma_named_wf(*sheet, indexed_name("digit"@, 10));
            lemma_named_wf(*sheet, indexed_name("digit"@, 11));
        }
        let v: i64 = if value < 0 { -value } else { value };
        let d1: i64 = v / 10;
        let d2: i64 = v % 10;
        let digits: i64 = if v < 10 { 1 } else { 2 };
        let digit_width: i64 = sign.width as i64;
        let mut offset: i64 = -(digits * (digit_width + 1) / 2) - digit_width;
        self.draw_sprite(ctx, sign, x + offset, y);
        offset = offset + digit_width + 1;
        if d1 > 0 {
            proof {
                lemma_named_wf(*sheet, indexed_name("digit"@, d1 as int));
            }
            let digit = spriten(sheet, "digit", d1 as usize);
            self.draw_sprite(ctx, digit, x + offset, y);
            offset = offset + digit_width + 1;
        }
        proof {
            lemma_named_wf(*sheet, indexed_name("digit"@, d2 as int));
        }
        let digit = spriten(sheet, "digit", d2 as usize);
        self.draw_sprite(ctx, digit, x + offset, y);
    }

    /// Labels temperature `t` (tenths of a degree), rounded to whole degrees, below its row
    /// at column `x`.
    pub fn draw_temperature(&self, ctx: &mut RenderContext, sheet: &SpriteSheet, t: i64, x: i64)
        requires
            old(ctx).wf(),
            sheet.complete(),
            -TEMPERATURE_LIMIT <= t <= TEMPERATURE_LIMIT,
            position(x as int),
        ensures
            temperature_drawn(*old(ctx), *final(ctx), *sheet, t, x as int),
            same_layout(*old(ctx), *final(ctx)),
            final(ctx).img.pixels@ == number_pixels(
                old(ctx).img.pixels@,
                old(ctx).img.width as int,
                *sheet,
                x as int,
                old(ctx).spec_temperature_to_y(t as int) + 5,
                crate::curve::round_div(t as int, 10),
            ),
    {
        let y = ctx.temperature_to_y(t);
        let value = crate::curve::round_div_exec(t as i128, 10) as i64;
        proof {
            if t >= 0 {
                assert((2 * t + 10) / 20 <= 99) by (nonlinear_arith)
                    requires
                        0 <= t <= 994,
                ;
            } else {
                assert((-2 * t + 10) / 20 <= 99) by (nonlinear_arith)
                    requires
                        -994 <= t < 0,
                ;
                assert((-2 * t + 10) / 20 >= 0) by (nonlinear_arith)
                    requires
                        -994 <= t < 0,
                ;
            }
        }
        self.draw_number(ctx, sheet, x, y + 5, value);
    }

    /// Draws the house with its base on the row of the current temperature; its windows are
    /// lit at twilight.
    pub fn draw_house(&self, ctx: &mut RenderContext, sheet: &SpriteSheet, weather: &DataPoint)
        requires
            old(ctx).wf(),
            sheet.complete(),
            weather.valid(),
        ensures
            house_drawn(*old(ctx), *final(ctx), *sheet, *weather),
            same_layout(*old(ctx), *final(ctx)),
            ({
                let house = if old(ctx).moment.is_twilight() {
                    sheet.named("house_01"@)
                } else {
                    sheet.named("house_00"@)
                };
                final(ctx).img.pixels@ == with_sprite(
                    old(ctx).img.pixels@,
                    old(ctx).img.width as int,
                    house,
                    0,
                    old(ctx).spec_temperature_to_y(weather.air_temperature as int) - house.height,
                )
            }),
    {
        let house = if ctx.moment.twilight() {
            sprite(sheet, "house_01")
        } else {
            sprite(sheet, "house_00")
        };
        proof {
            lemma_named_wf(*sheet, "house_00"@);
            lemma_named_wf(*sheet, "house_01"@);
        }
        let y = ctx.temperature_to_y(weather.air_temperature) - house.height as i64;
        self.draw_sprite(ctx, house, 0, y);
    }

    /// Draws the sun centered on the column of the next sunrise and the moon centered on
    /// that of the next sunset, both at the top.
    pub fn draw_celestial_bodies(&self, ctx: &mut RenderContext, sheet: &SpriteSheet)
        requires
            old(ctx).wf(),
            sheet.complete(),
        ensures
            celestial_drawn(*old(ctx), *final(ctx), *sheet),
            same_layout(*old(ctx), *final(ctx)),
            ({
                let sun = sheet.named("sun_00"@);
                let moon = sheet.named("moon_00"@);
                let w = old(ctx).img.width as int;
                let sun_x = old(ctx).spec_timestamp_to_x(old(ctx).moment.next_sunrise as int) - (
                sun.width / 2) as int;
                let moon_x = old(ctx).spec_timestamp_to_x(old(ctx).moment.next_sunset as int) - (
                moon.width / 2) as int;
                final(ctx).img.pixels@ == with_sprite(
                    with_sprite(old(ctx).img.pixels@, w, sun, sun_x, 0),
                    w,
                    moon,
                    moon_x,
                    0,
                )
            }),
    {
        proof {
            lemma_named_wf(*sheet, "sun_00"@);
            lemma_named_wf(*sheet, "moon_00"@);
        }
        let sun = sprite(sheet, "sun_00");
        let sun_x = ctx.timestamp_to_x(ctx.moment.next_sunrise) - (sun.width / 2) as i64;
        self.draw_sprite(ctx, sun, sun_x, 0);
        let moon = sprite(sheet, "moon_00");
        let moon_x = ctx.timestamp_to_x(ctx.moment.next_sunset) - (moon.width / 2) as i64;
        self.draw_sprite(ctx, moon, moon_x, 0);
    }

    /// Plants flower `name` on the graph at the column of `ts`, if that column is right of
    /// the house and on the graph.
    pub fn draw_flower(&self, ctx: &mut RenderContext, sheet: &SpriteSheet, name: &str, ts: i64)
        requires
            old(ctx).wf(),
            sheet.complete(),
            sheet.has(name@),
            crate::layout::near(ts, old(ctx).moment.instant),
        ensures
            flower_drawn(*old(ctx), *final(ctx), *sheet, name@, ts),
            same_layout(*old(ctx), *final(ctx)),
            ({
                let x = old(ctx).spec_timestamp_to_x(ts as int);
                x < old(ctx).x_offset || !old(ctx).temperature_graph@.contains_key(x as i64)
            }) ==> final(ctx).img == old(ctx).img,
            ({
                let x = old(ctx).spec_timestamp_to_x(ts as int);
                let flower = sheet.named(name@);
                x >= old(ctx).x_offset && old(ctx).temperature_graph@.contains_key(x as i64)
                    ==> final(ctx).img.pixels@ == with_sprite(
                    old(ctx).img.pixels@,
                    old(ctx).img.width as int,
                    flower,
                    x,
                    old(ctx).temperature_graph@[x as i64] - flower.height,
                )
            }),
    {
        let x = ctx.timestamp_to_x(ts);
        if x < ctx.x_offset {
            return;
        }
        match ctx.temperature_graph.get(&x) {
            Some(row) => {
                let row: i64 = *row;
                proof {
                    lemma_named_wf(*sheet, name@);
                    assert(in_limit(ctx.temperature_graph@[x] as int));
                }
                let flower = sprite(sheet, name);
                let y = row - flower.height as i64;
                self.draw_sprite(ctx, flower, x, y);
            },
            None => {},
        }
    }

    /// Flowers mark the next local midnight and noon.
    pub fn draw_midday_and_midnight(&self, ctx: &mut RenderContext, sheet: &SpriteSheet)
        requires
            old(ctx).wf(),
            sheet.complete(),
        ensures
            same_layout(*old(ctx), *final(ctx)),
            flowers_drawn(*old(ctx), *final(ctx), *sheet),
    {
        let midnight = ctx.moment.next_midnight;
        let noon = ctx.moment.next_noon;
        proof {
            reveal_strlit("flower_00");
            reveal_strlit("flower_01");
        }
        self.draw_flower(ctx, sheet, "flower_00", midnight);
        let ghost m = *ctx;
        self.draw_flower(ctx, sheet, "flower_01", noon);
        assert(flower_drawn(*old(ctx), m, *sheet, "flower_00"@, old(ctx).moment.next_midnight));
        assert(flower_drawn(m, *ctx, *sheet, "flower_01"@, old(ctx).moment.next_noon));
    }

    /// Scatters the clouds of `data`'s cloud cover over columns `x..x + width` at row `y`.
    pub fn draw_clouds(
        &self,
        ctx: &mut RenderContext,
        sheet: &SpriteSheet,
        data: &DataPoint,
        x: i64,
        y: i64,
        width: i64,
        rng: &mut StdRng,
    )
        requires
            old(ctx).wf(),
            sheet.complete(),
            position(x as int),
            position(y as int),
            0 <= width <= POSITION_LIMIT,
        ensures
            clouds_drawn(*old(ctx), *final(ctx), *sheet, *data, x as int, y as int, width as int),
            same_layout(*old(ctx), *final(ctx)),
            cloud_sizes(data.cloud_area_fraction as int).len() == 0 || width == 0 ==> final(ctx).img
                == old(ctx).img,
            width > 0 ==> exists|offsets: Seq<int>|
                {
                    &&& offsets.len() == cloud_sizes(data.cloud_area_fraction as int).len()
                    &&& forall|k: int| 0 <= k < offsets.len() ==> 0 <= #[trigger] offsets[k] < width
                    &&& final(ctx).img.pixels@ == clouds_pixels(
                        old(ctx).img.pixels@,
                        old(ctx).img.width as int,
                        *sheet,
                        cloud_sizes(data.cloud_area_fraction as int),
                        offsets,
                        x as int,
                        y as int,
                    )
                },
    {
        let sizes = cloud_set(data.cloud_area_fraction);
        if width <= 0 {
            return;
        }
        proof {
            lemma_cloud_sizes(data.cloud_area_fraction as int);
        }
        let mut k: usize = 0;
        let ghost mut offsets: Seq<int> = seq![];
        proof {
            assert(sizes@.subrange(0, 0) =~= Seq::<usize>::empty());
        }
        while k < sizes.len()
            invariant
                same_layout(*old(ctx), *ctx),
                sheet.complete(),
                sizes@ == cloud_sizes(data.cloud_area_fraction as int),
                forall|i: int| 0 <= i < sizes@.len() ==> is_cloud_size(#[trigger] sizes@[i] as int),
                k <= sizes@.len(),
                k == 0 ==> ctx.img == old(ctx).img,
                position(x as int),
                position(y as int),
                0 < width <= POSITION_LIMIT,
                offsets.len() == k,
                forall|i: int| 0 <= i < offsets.len() ==> 0 <= #[trigger] offsets[i] < width,
                ctx.img.pixels@ == clouds_pixels(
                    old(ctx).img.pixels@,
                    old(ctx).img.width as int,
                    *sheet,
                    sizes@.subrange(0, k as int),
                    offsets,
                    x as int,
                    y as int,
                ),
            decreases sizes@.len() - k,
        {
            let n = sizes[k];
            proof {
                assert(is_cloud_size(sizes@[k as int] as int));
                lemma_named_wf(*sheet, indexed_name("cloud"@, n as int));
            }
            let offset = random_range(rng, 0, width);
            let cloud = spriten(sheet, "cloud", n);
            self.draw_sprite(ctx, cloud, x + offset, y);
            proof {
                let done = sizes@.subrange(0, k + 1);
                assert(done.drop_last() =~= sizes@.subrange(0, k as int));
                let next = offsets.push(offset as int);
                assert(next.drop_last() =~= offsets);
                offsets = next;
            }
            k = k + 1;
        }
        proof {
            assert(sizes@.subrange(0, k as int) =~= sizes@);
        }
    }

    /// The smallest row, the highest point on screen, of the graph over columns
    /// `x..x + width`; none where the graph has no column there.
    fn graph_top(&self, ctx: &RenderContext, x: i64, width: i64) -> (r: Option<i64>)
        requires
            ctx.wf(),
            position(x as int),
            0 <= width <= POSITION_LIMIT,
        ensures
            r matches Some(v) ==> in_limit(v as int),
            match r {
                Some(v) => graph_top_of(ctx.temperature_graph@, x as int, x + width) == Some(
                    v as int,
                ),
                None => graph_top_of(ctx.temperature_graph@, x as int, x + width) is None,
            },
    {
        let mut best: Option<i64> = None;
        let mut c: i64 = x;
        while c < x + width
            invariant
                ctx.wf(),
                x <= c <= x + width,
                position(x as int),
                0 <= width <= POSITION_LIMIT,
                best matches Some(v) ==> in_limit(v as int),
                min_opt(
                    match best {
                        Some(v) => Some(v as int),
                        None => None,
                    },
                    graph_top_of(ctx.temperature_graph@, c as int, x + width),
                ) == graph_top_of(ctx.temperature_graph@, x as int, x + width),
            decreases x + width - c,
        {
            match ctx.temperature_graph.get(&c) {
                Some(row) => {
                    let row: i64 = *row;
                    proof {
                        assert(in_limit(ctx.temperature_graph@[c] as int));
                    }
                    best = match best {
                        Some(b) => if row < b { Some(row) } else { Some(b) },
                        None => Some(row),
                    };
                },
                None => {},
            }
            c = c + 1;
        }
        best
    }

    /// Streaks of fog in rows 6 apart from row `y` down toward half the height above the
    /// graph, as long as the row's share of that height stays below the fog cover; each
    /// streak is a dotted wavy line `width / 2` long, starting a random few columns into the
    /// band.
    pub fn draw_fog(
        &self,
        ctx: &mut RenderContext,
        data: &DataPoint,
        x: i64,
        y: i64,
        width: i64,
        rng: &mut StdRng,
    )
        requires
            old(ctx).wf(),
            data.valid(),
            position(x as int),
            position(y as int),
            0 <= width <= 0x1_0000_0000,
        ensures
            fog_drawn(*old(ctx), *final(ctx), *data, x as int, y as int, width as int),
            same_layout(*old(ctx), *final(ctx)),
            only_blackened(old(ctx).img.pixels@, final(ctx).img.pixels@),
            data.fog_area_fraction == 0 ==> final(ctx).img == old(ctx).img,
    {
        let top = self.graph_top(ctx, x, width);
        let y_max = match top {
            Some(v) => v,
            None => {
                return;
            },
        };
        let fog_width: i64 = width / 2;
        let d: i64 = y_max - y;
        let y_range: i64 = if d >= 0 { d / 2 } else { -((-d) / 2) };
        if fog_width / 2 <= 3 {
            return;
        }
        let ghost w = old(ctx).img.width as int;
        let ghost h = old(ctx).img.height as int;
        let ghost fog = data.fog_area_fraction as int;
        let ghost mut starts: Seq<int> = seq![];
        let mut y_off: i64 = 0;
        while y_off < y_range
            invariant
                same_layout(*old(ctx), *ctx),
                only_blackened(old(ctx).img.pixels@, ctx.img.pixels@),
                data.valid(),
                0 <= y_off,
                y_off == 6 * starts.len(),
                y_range <= POSITION_LIMIT,
                y_range == trunc_half(y_max - y),
                position(x as int),
                position(y as int),
                3 < fog_width / 2,
                fog_width <= 0x8000_0000,
                fog == data.fog_area_fraction,
                w == old(ctx).img.width,
                h == old(ctx).img.height,
                forall|k: int|
                    0 <= k < starts.len() ==> 3 <= #[trigger] starts[k] < fog_width / 2 && 6 * k
                        < y_range && 6000 * k < fog * y_range,
                ctx.img.pixels@ == fog_rows(old(ctx).img.pixels@, w, h, x as int, y as int, fog_width as int, starts),
                data.fog_area_fraction == 0 ==> ctx.img == old(ctx).img,
            ensures
                same_layout(*old(ctx), *ctx),
                only_blackened(old(ctx).img.pixels@, ctx.img.pixels@),
                forall|k: int|
                    0 <= k < starts.len() ==> 3 <= #[trigger] starts[k] < fog_width / 2 && 6 * k
                        < y_range && 6000 * k < fog * y_range,
                6 * starts.len() >= y_range || fog * y_range <= 6000 * starts.len(),
                ctx.img.pixels@ == fog_rows(old(ctx).img.pixels@, w, h, x as int, y as int, fog_width as int, starts),
                data.fog_area_fraction == 0 ==> ctx.img == old(ctx).img,
            decreases y_range + 6 - y_off,
        {
            proof {
                assert(data.fog_area_fraction * y_range <= 1000 * 0x100_0000_0000) by (nonlinear_arith)
                    requires
                        0 <= data.fog_area_fraction <= 1000,
                        0 < y_range <= 0x100_0000_0000,
                ;
                assert(data.fog_area_fraction * y_range >= 0) by (nonlinear_arith)
                    requires
                        0 <= data.fog_area_fraction,
                        0 < y_range,
                ;
                if data.fog_area_fraction == 0 {
                    assert(data.fog_area_fraction * y_range == 0) by (nonlinear_arith)
                        requires
                            data.fog_area_fraction == 0,
                    ;
                }
            }
            if data.fog_area_fraction * y_range <= y_off * 1000 {
                break;
            }
            let s = random_range(rng, 3, fog_width / 2);
            let x_start = x + s;
            let y_start = y + y_off;
            let ghost base = ctx.img.pixels@;
            let mut i: i64 = 0;
            while i <= fog_width
                invariant
                    same_layout(*old(ctx), *ctx),
                    only_blackened(old(ctx).img.pixels@, ctx.img.pixels@),
                    0 <= i <= fog_width + 1,
                    fog_width <= 0x8000_0000,
                    position(x as int),
                    position(y as int),
                    x + 3 <= x_start <= x + fog_width,
                    y <= y_start <= y + POSITION_LIMIT,
                    w == ctx.img.width,
                    h == ctx.img.height,
                    ctx.img.pixels@ == streak(base, w, h, x_start as int, y_start as int, i as int),
                decreases fog_width + 1 - i,
            {
                let dy = rounded_sine(i + 2);
                let ghost before = ctx.img.pixels@;
                ctx.img.draw_pixel(x_start + i, y_start + dy);
                proof {
                    lemma_only_blackened_trans(old(ctx).img.pixels@, before, ctx.img.pixels@);
                }
                i = i + 1;
            }
            proof {
                let next = starts.push(s as int);
                assert(next.drop_last() =~= starts);
                assert(6000 * (starts.len() as int) < fog * y_range);
                starts = next;
            }
            y_off = y_off + 6;
        }
        assert(graph_top_of(old(ctx).temperature_graph@, x as int, x + width) == Some(y_max as int));
        assert(fog_drawn(*old(ctx), *ctx, *data, x as int, y as int, width as int)) by {
            assert(ctx.img.pixels@ == fog_rows(
                old(ctx).img.pixels@,
                old(ctx).img.width as int,
                old(ctx).img.height as int,
                x as int,
                y as int,
                (width / 2) as int,
                starts,
            ));
        }
    }

    /// Rain or snow below row `y` down to the graph over columns `x..x + width`, every
    /// second row: a drop falls where a random draw says so; snow is one pixel, rain two
    /// stacked, sleet either at random.
    pub fn draw_precipitation(
        &self,
        ctx: &mut RenderContext,
        data: &DataPoint,
        x: i64,
        y: i64,
        width: i64,
        rng: &mut StdRng,
    )
        requires
            old(ctx).wf(),
            data.valid(),
            position(x as int),
            position(y as int),
            0 <= width <= 0x1_0000_0000,
        ensures
            precipitation_drawn(*old(ctx), *final(ctx), *data, x as int, y as int, width as int),
            same_layout(*old(ctx), *final(ctx)),
            only_blackened(old(ctx).img.pixels@, final(ctx).img.pixels@),
            data.precipitation_amount <= 0 ==> final(ctx).img == old(ctx).img,
            changed_in_band(
                old(ctx).img.pixels@,
                final(ctx).img.pixels@,
                old(ctx).img.width as int,
                old(ctx).temperature_graph@,
                x as int,
                y as int,
                width as int,
            ),
    {
        if data.precipitation_amount <= 0 {
            return;
        }
        let ghost w = old(ctx).img.width as int;
        let ghost h = old(ctx).img.height as int;
        let ghost amount = data.precipitation_amount as int;
        let ghost cond = data.condition;
        let ghost mut states: Seq<Seq<Rgba>> = seq![old(ctx).img.pixels@];
        let mut c: i64 = x;
        while c < x + width
            invariant
                w == old(ctx).img.width,
                h == old(ctx).img.height,
                amount == data.precipitation_amount,
                cond == data.condition,
                states.len() == c - x + 1,
                states[0] == old(ctx).img.pixels@,
                states[c - x] == ctx.img.pixels@,
                forall|k: int|
                    0 <= k < c - x ==> rain_column(
                        #[trigger] states[k],
                        states[k + 1],
                        w,
                        h,
                        old(ctx).temperature_graph@,
                        x + k,
                        y as int,
                        amount,
                        cond,
                    ),
                same_layout(*old(ctx), *ctx),
                only_blackened(old(ctx).img.pixels@, ctx.img.pixels@),
                data.valid(),
                x <= c <= x + width,
                position(x as int),
                position(y as int),
                0 <= width <= 0x1_0000_0000,
                changed_in_band(
                    old(ctx).img.pixels@,
                    ctx.img.pixels@,
                    old(ctx).img.width as int,
                    old(ctx).temperature_graph@,
                    x as int,
                    y as int,
                    width as int,
                ),
            decreases x + width - c,
        {
            let ghost m = ctx.img.pixels@;
            match ctx.temperature_graph.get(&c) {
                Some(row) => {
                    let y_max: i64 = *row;
                    proof {
                        assert(in_limit(ctx.temperature_graph@[c] as int));
                    }
                    let mut r: i64 = y;
                    let ghost mut draws: Seq<(u32, u32)> = seq![];
                    while r < y_max
                        invariant
                            w == old(ctx).img.width,
                            h == old(ctx).img.height,
                            amount == data.precipitation_amount,
                            cond == data.condition,
                            r == y + 2 * draws.len(),
                            draws.len() > 0 ==> y + 2 * (draws.len() - 1) < y_max,
                            ctx.img.pixels@ == rain_rows(m, w, h, c as int, y as int, draws, amount, cond),
                            same_layout(*old(ctx), *ctx),
                            only_blackened(old(ctx).img.pixels@, ctx.img.pixels@),
                            data.valid(),
                            y <= r,
                            in_limit(y_max as int),
                            position(y as int),
                            -0x200_0000_0000 <= c <= 0x200_0000_0000,
                            x <= c < x + width,
                            old(ctx).temperature_graph@.contains_key(c),
                            y_max == old(ctx).temperature_graph@[c],
                            changed_in_band(
                                old(ctx).img.pixels@,
                                ctx.img.pixels@,
                                old(ctx).img.width as int,
                                old(ctx).temperature_graph@,
                                x as int,
                                y as int,
                                width as int,
                            ),
                        decreases y_max + 2 - r,
                    {
                        let draw = random_u32(rng);
                        let ghost prev = ctx.img.pixels@;
                        let ghost mut second: u32 = 0;
                        if drop_test(draw, data.precipitation_amount, data.condition) {
                            let snow = match data.condition {
                                Condition::Snow => true,
                                Condition::Sleet => {
                                    let d = random_u32(rng);
                                    proof {
                                        second = d;
                                    }
                                    d % 2 == 0
                                },
                                _ => false,
                            };
                            let ghost before = ctx.img.pixels@;
                            let ghost before_img = ctx.img;
                            ctx.img.draw_pixel(c, r);
                            proof {
                                lemma_only_blackened_trans(old(ctx).img.pixels@, before, ctx.img.pixels@);
                                lemma_blacken_in_band(
                                    old(ctx).img.pixels@,
                                    before_img,
                                    ctx.img,
                                    old(ctx).temperature_graph@,
                                    x as int,
                                    y as int,
                                    width as int,
                                    c as int,
                                    r as int,
                                );
                            }
                            if !snow {
                                let ghost before2 = ctx.img.pixels@;
                                let ghost before_img2 = ctx.img;
                                ctx.img.draw_pixel(c, r - 1);
                                proof {
                                    lemma_only_blackened_trans(old(ctx).img.pixels@, before2, ctx.img.pixels@);
                                    lemma_blacken_in_band(
                                        old(ctx).img.pixels@,
                                        before_img2,
                                        ctx.img,
                                        old(ctx).temperature_graph@,
                                        x as int,
                                        y as int,
                                        width as int,
                                        c as int,
                                        (r - 1) as int,
                                    );
                                }
                            }
                        }
                        proof {
                            let next = draws.push((draw, second));
                            assert(next.drop_last() =~= draws);
                            assert(ctx.img.pixels@ == rain_cell(
                                prev,
                                w,
                                h,
                                c as int,
                                r as int,
                                (draw, second),
                                amount,
                                cond,
                            ));
                            draws = next;
                        }
                        r = r + 2;
                    }
                    proof {
                        assert(draws.len() == rows_above(y as int, y_max as int));
                        assert(rain_column(
                            m,
                            ctx.img.pixels@,
                            w,
                            h,
                            old(ctx).temperature_graph@,
                            c as int,
                            y as int,
                            amount,
                            cond,
                        ));
                    }
                },
                None => {},
            }
            proof {
                assert(rain_column(
                    m,
                    ctx.img.pixels@,
                    w,
                    h,
                    old(ctx).temperature_graph@,
                    c as int,
                    y as int,
                    amount,
                    cond,
                ));
                let next = states.push(ctx.img.pixels@);
                assert forall|k: int| 0 <= k < c + 1 - x implies rain_column(
                    #[trigger] next[k],
                    next[k + 1],
                    w,
                    h,
                    old(ctx).temperature_graph@,
                    x + k,
                    y as int,
                    amount,
                    cond,
                ) by {
                    if k < c - x {
                        assert(next[k] == states[k]);
                        assert(next[k + 1] == states[k + 1]);
                    } else {
                        assert(next[k] == m);
                    }
                }
                states = next;
            }
            c = c + 1;
        }
        assert(rain_columns(
            old(ctx).img.pixels@,
            ctx.img.pixels@,
            w,
            h,
            old(ctx).temperature_graph@,
            x as int,
            x + width,
            y as int,
            amount,
            cond,
        ));
    }

    /// Plants trees along the graph from column `x`, 9 columns apart: species chosen by the
    /// wind's direction, sway by its speed, both lists shuffled before they are paired. A
    /// tree whose column is off the graph is skipped.
    pub fn draw_trees(
        &self,
        ctx: &mut RenderContext,
        sheet: &SpriteSheet,
        data: &DataPoint,
        x: i64,
        rng: &mut StdRng,
    )
        requires
            old(ctx).wf(),
            sheet.complete(),
            data.valid(),
            position(x as int),
        ensures
            trees_drawn(*old(ctx), *final(ctx), *sheet, *data, x as int),
            same_layout(*old(ctx), *final(ctx)),
            data.wind_speed <= 4 ==> final(ctx).img == old(ctx).img,
            exists|species: Seq<usize>, sway: Seq<usize>|
                {
                    &&& species.to_multiset() == tree_species(
                        data.wind_from_direction as int,
                    ).to_multiset()
                    &&& sway.to_multiset() == sway_levels(data.wind_speed as int).to_multiset()
                    &&& final(ctx).img.pixels@ == trees_pixels(
                        old(ctx).img.pixels@,
                        old(ctx).img.width as int,
                        *sheet,
                        old(ctx).temperature_graph@,
                        x as int,
                        species,
                        sway,
                        0,
                    )
                },
    {
        let mut trees = select_trees(data.wind_from_direction);
        shuffle(rng, &mut trees);
        let mut levels = sway_set(data.wind_speed);
        shuffle(rng, &mut levels);
        proof {
            assert forall|i: int| 0 <= i < trees@.len() implies #[trigger] trees@[i] < 4 by {
                assert(trees@.to_multiset().count(trees@[i]) > 0);
                assert(tree_species(data.wind_from_direction as int).contains(trees@[i]));
            }
            assert forall|i: int| 0 <= i < levels@.len() implies #[trigger] levels@[i] < 4 by {
                assert(levels@.to_multiset().count(levels@[i]) > 0);
                assert(sway_levels(data.wind_speed as int).contains(levels@[i]));
            }
        }
        let graph_len: usize = ctx.temperature_graph.len();
        let mut x_offset: i64 = x;
        let mut k: usize = 0;
        while k < levels.len()
            invariant
                same_layout(*old(ctx), *ctx),
                sheet.complete(),
                forall|i: int| 0 <= i < trees@.len() ==> #[trigger] trees@[i] < 4,
                forall|i: int| 0 <= i < levels@.len() ==> #[trigger] levels@[i] < 4,
                levels@.len() == sway_levels(data.wind_speed as int).len(),
                k <= levels@.len(),
                k == 0 ==> ctx.img == old(ctx).img,
                x <= x_offset <= x + 9 * k,
                position(x as int),
                graph_len == old(ctx).temperature_graph@.len(),
                trees_pixels(
                    old(ctx).img.pixels@,
                    old(ctx).img.width as int,
                    *sheet,
                    old(ctx).temperature_graph@,
                    x as int,
                    trees@,
                    levels@,
                    0,
                ) == trees_pixels(
                    ctx.img.pixels@,
                    old(ctx).img.width as int,
                    *sheet,
                    old(ctx).temperature_graph@,
                    x_offset as int,
                    trees@,
                    levels@,
                    k as int,
                ),
            ensures
                k >= levels@.len() || x_offset + 5 > old(ctx).temperature_graph@.len(),
            decreases levels@.len() - k,
        {
            let offset = x_offset + 5;
            if (offset as i128) > (graph_len as i128) {
                break;
            }
            if k < trees.len() {
                match ctx.temperature_graph.get(&offset) {
                    Some(row) => {
                        let row: i64 = *row;
                        proof {
                            assert(in_limit(ctx.temperature_graph@[offset] as int));
                            assert(trees@[k as int] < 4);
                            assert(levels@[k as int] < 4);
                            lemma_named_wf(
                                *sheet,
                                indexed_name(species_name(trees@[k as int] as int), levels@[k as int] as int),
                            );
                        }
                        let prefix = species_prefix(trees[k]);
                        let tree = spriten(sheet, prefix, levels[k]);
                        let y = (row - tree.height as i64) + 1;
                        self.draw_sprite(ctx, tree, x_offset, y);
                    },
                    None => {
                        k = k + 1;
                        continue;
                    },
                }
            }
            x_offset = x_offset + 9;
            k = k + 1;
        }
        proof {
            assert(trees_pixels(
                ctx.img.pixels@,
                old(ctx).img.width as int,
                *sheet,
                old(ctx).temperature_graph@,
                x_offset as int,
                trees@,
                levels@,
                k as int,
            ) == ctx.img.pixels@);
        }
    }

    /// Labels the first forecast whose temperature is `t`, if one is.
    pub fn draw_temperature_extrema(
        &self,
        ctx: &mut RenderContext,
        sheet: &SpriteSheet,
        forecasts: &Vec<DataPoint>,
        t: i64,
    )
        requires
            old(ctx).wf(),
            sheet.complete(),
            forall|i: int| 0 <= i < forecasts@.len() ==> #[trigger] forecasts@[i].valid(),
            forecasts@.len() <= 10000,
        ensures
            extremum_drawn(*old(ctx), *final(ctx), *sheet, forecasts@, t),
            same_layout(*old(ctx), *final(ctx)),
            (forall|j: int| 0 <= j < forecasts@.len() ==> forecasts@[j].air_temperature != t)
                ==> final(ctx).img == old(ctx).img,
            forall|i: int|
                0 <= i < forecasts@.len() && #[trigger] forecasts@[i].air_temperature == t && (
                forall|j: int| 0 <= j < i ==> forecasts@[j].air_temperature != t)
                    ==> final(ctx).img.pixels@ == number_pixels(
                    old(ctx).img.pixels@,
                    old(ctx).img.width as int,
                    *sheet,
                    old(ctx).spec_forecast_x(i),
                    old(ctx).spec_temperature_to_y(t as int) + 5,
                    crate::curve::round_div(t as int, 10),
                ),
    {
        match first_with_temperature(forecasts, t) {
            Some(i) => {
                proof {
                    assert(forecasts@[i as int].valid());
                }
                let x = ctx.forecast_x(i);
                self.draw_temperature(ctx, sheet, forecasts[i].air_temperature, x);
            },
            None => {},
        }
    }

    /// Clouds, precipitation and fog over columns `x..x + width`.
    pub fn draw_sky(
        &self,
        ctx: &mut RenderContext,
        sheet: &SpriteSheet,
        data: &DataPoint,
        x: i64,
        width: i64,
        rng: &mut StdRng,
    )
        requires
            old(ctx).wf(),
            sheet.complete(),
            data.valid(),
            position(x as int),
            0 <= width <= 0x1_0000_0000,
        ensures
            same_layout(*old(ctx), *final(ctx)),
            sky_drawn(*old(ctx), *final(ctx), *sheet, *data, x as int, width as int),
    {
        let h = ctx.cloud_height;
        self.draw_clouds(ctx, sheet, data, x, 5, width, rng);
        let ghost m1 = *ctx;
        self.draw_precipitation(ctx, data, x, h + 5, width, rng);
        let ghost m2 = *ctx;
        self.draw_fog(ctx, data, x, h + 10, width, rng);
        assert(clouds_drawn(*old(ctx), m1, *sheet, *data, x as int, 5, width as int));
        assert(precipitation_drawn(m1, m2, *data, x as int, old(ctx).cloud_height + 5, width as int));
        assert(fog_drawn(m2, *ctx, *data, x as int, old(ctx).cloud_height + 10, width as int));
    }

    /// The house, the sky above it and the current temperature.
    pub fn draw_current_weather(
        &self,
        ctx: &mut RenderContext,
        sheet: &SpriteSheet,
        weather: &DataPoint,
        rng: &mut StdRng,
    )
        requires
            old(ctx).wf(),
            sheet.complete(),
            weather.valid(),
        ensures
            same_layout(*old(ctx), *final(ctx)),
            current_drawn(*old(ctx), *final(ctx), *sheet, *weather),
    {
        self.draw_house(ctx, sheet, weather);
        let ghost m1 = *ctx;
        let w = ctx.x_offset;
        self.draw_sky(ctx, sheet, weather, 0, w, rng);
        let ghost m2 = *ctx;
        self.draw_temperature(ctx, sheet, weather.air_temperature, w / 2);
        assert(house_drawn(*old(ctx), m1, *sheet, *weather));
        assert(sky_drawn(m1, m2, *sheet, *weather, 0, old(ctx).x_offset as int));
        assert(temperature_drawn(m2, *ctx, *sheet, weather.air_temperature, old(ctx).x_offset / 2));
    }

    /// The sky and trees of every fourth forecast, then labels at the lowest and highest
    /// temperature.
    pub fn draw_forecasts(
        &self,
        ctx: &mut RenderContext,
        sheet: &SpriteSheet,
        forecasts: &Vec<DataPoint>,
        rng: &mut StdRng,
    )
        requires
            old(ctx).wf(),
            sheet.complete(),
            forall|i: int| 0 <= i < forecasts@.len() ==> #[trigger] forecasts@[i].valid(),
            forecasts@.len() <= 10000,
        ensures
            same_layout(*old(ctx), *final(ctx)),
            forecasts_drawn(*old(ctx), *final(ctx), *sheet, forecasts@),
    {
        let mut i: usize = 0;
        while i < forecasts.len()
            invariant_except_break
                forall|q: RenderContext|
                    #[trigger] forecast_passes(*ctx, q, *sheet, forecasts@, i as int)
                        ==> forecast_passes(*old(ctx), q, *sheet, forecasts@, 0),
            invariant
                same_layout(*old(ctx), *ctx),
                sheet.complete(),
                forall|k: int| 0 <= k < forecasts@.len() ==> #[trigger] forecasts@[k].valid(),
                forecasts@.len() <= 10000,
                i == 0 || i < forecasts@.len(),
                forecasts@.len() == 0 ==> *ctx == *old(ctx),
            ensures
                same_layout(*old(ctx), *ctx),
                forecast_passes(*old(ctx), *ctx, *sheet, forecasts@, 0),
            decreases forecasts@.len() - i,
        {
            let ghost c = *ctx;
            proof {
                assert(forecasts@[i as int].valid());
                assert(ctx.x_step * (i + 1) <= 296 * 10001) by (nonlinear_arith)
                    requires
                        0 <= ctx.x_step <= 296,
                        i <= 10000,
                ;
                assert(ctx.x_step * (i + 1) >= 0) by (nonlinear_arith)
                    requires
                        0 <= ctx.x_step,
                        i >= 0,
                ;
            }
            let x = ctx.forecast_x(i);
            let w = ctx.x_step * 4;
            self.draw_sky(ctx, sheet, &forecasts[i], x, w, rng);
            let ghost m1 = *ctx;
            self.draw_trees(ctx, sheet, &forecasts[i], x, rng);
            let ghost m2 = *ctx;
            proof {
                assert(sky_drawn(c, m1, *sheet, forecasts@[i as int], c.spec_forecast_x(i as int), c.x_step * 4));
                assert(trees_drawn(m1, m2, *sheet, forecasts@[i as int], c.spec_forecast_x(i as int)));
            }
            if forecasts.len() - i <= 4 {
                assert(forecast_passes(c, m2, *sheet, forecasts@, i as int));
                assert(forecast_passes(*old(ctx), m2, *sheet, forecasts@, 0));
                break;
            }
            proof {
                assert forall|q: RenderContext|
                    #[trigger] forecast_passes(m2, q, *sheet, forecasts@, i + 4)
                        implies forecast_passes(*old(ctx), q, *sheet, forecasts@, 0) by {
                    assert(forecast_passes(c, q, *sheet, forecasts@, i as int));
                }
            }
            i = i + 4;
        }
        proof {
            if forecasts@.len() == 0 {
                assert(forecast_passes(*ctx, *ctx, *sheet, forecasts@, 0));
            }
        }
        let ghost m1 = *ctx;
        let lo = ctx.min_temperature;
        let hi = ctx.max_temperature;
        self.draw_temperature_extrema(ctx, sheet, forecasts, lo);
        let ghost m2 = *ctx;
        self.draw_temperature_extrema(ctx, sheet, forecasts, hi);
        assert(extremum_drawn(m1, m2, *sheet, forecasts@, old(ctx).min_temperature));
        assert(extremum_drawn(m2, *ctx, *sheet, forecasts@, old(ctx).max_temperature));
    }

    /// Plots the temperature graph, one black pixel per column.
    pub fn draw_graph(&self, ctx: &mut RenderContext)
        requires
            old(ctx).wf(),
        ensures
            graph_drawn(*old(ctx), *final(ctx)),
            same_layout(*old(ctx), *final(ctx)),
            only_blackened(old(ctx).img.pixels@, final(ctx).img.pixels@),
            forall|c: i64|
                0 <= c < old(ctx).img.width && #[trigger] old(ctx).temperature_graph@.contains_key(c)
                    && 0 <= old(ctx).temperature_graph@[c] < old(ctx).img.height
                    ==> final(ctx).img.pixel(c as int, old(ctx).temperature_graph@[c] as int)
                    == black(),
    {
        let w = ctx.img.width as i64;
        let mut c: i64 = 0;
        while c < w
            invariant
                same_layout(*old(ctx), *ctx),
                only_blackened(old(ctx).img.pixels@, ctx.img.pixels@),
                0 <= c <= w,
                w == ctx.img.width,
                forall|k: i64|
                    0 <= k < c && #[trigger] ctx.temperature_graph@.contains_key(k) && 0
                        <= ctx.temperature_graph@[k] < ctx.img.height ==> ctx.img.pixel(
                        k as int,
                        ctx.temperature_graph@[k] as int,
                    ) == black(),
            decreases w - c,
        {
            match ctx.temperature_graph.get(&c) {
                Some(row) => {
                    let row: i64 = *row;
                    let ghost before = ctx.img.pixels@;
                    ctx.img.draw_pixel(c, row);
                    proof {
                        lemma_only_blackened_trans(old(ctx).img.pixels@, before, ctx.img.pixels@);
                        assert forall|k: i64|
                            0 <= k <= c && #[trigger] ctx.temperature_graph@.contains_key(k) && 0
                                <= ctx.temperature_graph@[k] < ctx.img.height implies ctx.img.pixel(
                            k as int,
                            ctx.temperature_graph@[k] as int,
                        ) == black() by {
                            let i = crate::canvas::index_of(ctx.img.width as int, k as int, ctx.temperature_graph@[k] as int);
                            crate::canvas::lemma_index_in_range(ctx.img.width as int, ctx.img.height as int, k as int, ctx.temperature_graph@[k] as int);
                            assert(ctx.img.pixels@[i] == before[i] || ctx.img.pixels@[i] == black());
                        }
                    }
                },
                None => {},
            }
            c = c + 1;
        }
    }

    /// In night mode, inverts the canvas when the render instant is before dawn or after
    /// dusk.
    pub fn apply_night_mode(&self, img: &mut Image, moment: &Moment)
        requires
            old(img).wf(),
        ensures
            final(img).wf(),
            final(img).width == old(img).width,
            final(img).height == old(img).height,
            self.night_mode && moment.is_dark() ==> final(img).pixels@ == crate::canvas::inverted(
                old(img).pixels@,
            ),
            !(self.night_mode && moment.is_dark()) ==> final(img).pixels@ == old(img).pixels@,
    {
        if self.night_mode && moment.dark() {
            img.invert_pixels();
        }
    }

    /// Renders the weather into a landscape: sun and moon, the current weather, the forecasts,
    /// the flowers at midnight and noon, the temperature graph rasterized from `curve`, and,
    /// in night mode after dark, the whole canvas inverted. Fails when there are fewer than
    /// two forecasts.
    pub fn render(
        &self,
        data: &WeatherData,
        moment: Moment,
        sheet: &SpriteSheet,
        curve: &Vec<crate::curve::CurveSegment>,
        rng: &mut StdRng,
    ) -> (r: Result<Image, Error>)
        requires
            data.valid(),
            moment.valid(),
            sheet.complete(),
        ensures
            data.forecasts@.len() < 2 ==> r == Err::<Image, Error>(Error::NotEnoughForecasts),
            data.forecasts@.len() >= 2 ==> (r matches Ok(img) && img.wf() && img.width
                == crate::canvas::PANEL_HEIGHT && img.height == crate::canvas::PANEL_WIDTH),
            r matches Ok(img) ==> exists|
                c0: RenderContext,
                c1: RenderContext,
                c2: RenderContext,
                c3: RenderContext,
                c4: RenderContext,
                c5: RenderContext,
                c6: RenderContext,
            |
                #![trigger laid_out(c0, *data, moment, *sheet), graph_from_curve(c0, c1, curve@), celestial_drawn(c1, c2, *sheet), current_drawn(c2, c3, *sheet, data.current), forecasts_drawn(c3, c4, *sheet, data.forecasts@), flowers_drawn(c4, c5, *sheet), graph_drawn(c5, c6)]
                {
                    &&& laid_out(c0, *data, moment, *sheet)
                    &&& graph_from_curve(c0, c1, curve@)
                    &&& celestial_drawn(c1, c2, *sheet)
                    &&& current_drawn(c2, c3, *sheet, data.current)
                    &&& forecasts_drawn(c3, c4, *sheet, data.forecasts@)
                    &&& flowers_drawn(c4, c5, *sheet)
                    &&& graph_drawn(c5, c6)
                    &&& img.pixels@ == if self.night_mode && moment.is_dark() {
                        crate::canvas::inverted(c6.img.pixels@)
                    } else {
                        c6.img.pixels@
                    }
                },
    {
        let mut ctx = match RenderContext::new(data, moment, sheet) {
            Ok(ctx) => ctx,
            Err(e) => {
                return Err(e);
            },
        };
        let ghost c0 = ctx;
        ctx.populate_temperature_graph(curve);
        let ghost c1 = ctx;
        self.draw_celestial_bodies(&mut ctx, sheet);
        let ghost c2 = ctx;
        self.draw_current_weather(&mut ctx, sheet, &data.current, rng);
        let ghost c3 = ctx;
        self.draw_forecasts(&mut ctx, sheet, &data.forecasts, rng);
        let ghost c4 = ctx;
        self.draw_midday_and_midnight(&mut ctx, sheet);
        let ghost c5 = ctx;
        self.draw_graph(&mut ctx);
        let ghost c6 = ctx;
        let mut img = ctx.img;
        self.apply_night_mode(&mut img, &moment);
        assert(laid_out(c0, *data, moment, *sheet));
        assert(graph_from_curve(c0, c1, curve@));
        assert(celestial_drawn(c1, c2, *sheet));
        assert(current_drawn(c2, c3, *sheet, data.current));
        assert(forecasts_drawn(c3, c4, *sheet, data.forecasts@));
        assert(flowers_drawn(c4, c5, *sheet));
        assert(graph_drawn(c5, c6));
        Ok(img)
    }
}

} // verus!
