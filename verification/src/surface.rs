use vstd::arithmetic::div_mod::lemma_fundamental_div_mod;
use vstd::arithmetic::div_mod::lemma_fundamental_div_mod_converse;
use vstd::prelude::*;

verus! {

/// A frame of `w` by `h` pixels. The buffer holds the rows one after another,
/// and three bytes (red, green, blue) for each pixel.
#[derive(Debug, Clone, PartialEq, Eq, Hash)]
pub struct Surface {
    pub pixels: Vec<u8>,
    pub w: u32,
    pub h: u32,
}

/// A rectangular tile of a frame: `w` by `h` pixels with the top left corner at
/// `(x0, y0)`.
#[derive(Debug, Clone, Copy, PartialEq, Eq, Hash, Structural)]
pub struct Division {
    pub x0: u32,
    pub y0: u32,
    pub w: u32,
    pub h: u32,
}

/// How many tiles it takes to span `len` pixels when a tile is `step` pixels
/// long: the last tile is shorter where `step` does not divide `len`.
pub open spec fn tiles_along(len: int, step: int) -> int
    recommends
        step > 0,
{
    if len % step == 0 {
        len / step
    } else {
        len / step + 1
    }
}

/// The length of tile number `i` along an axis of `len` pixels.
pub open spec fn tile_span(len: int, step: int, i: int) -> int {
    if (i + 1) * step <= len {
        step
    } else {
        len - i * step
    }
}

/// The tile in column `i` and row `j` of a `w` by `h` frame cut into tiles of
/// `dw` by `dh` pixels.
pub open spec fn tile_at(w: int, h: int, dw: int, dh: int, i: int, j: int) -> Division {
    Division {
        x0: (i * dw) as u32,
        y0: (j * dh) as u32,
        w: tile_span(w, dw, i) as u32,
        h: tile_span(h, dh, j) as u32,
    }
}

/// All tiles of a `w` by `h` frame, column after column, each column from the
/// top down.
pub open spec fn tiling(w: int, h: int, dw: int, dh: int) -> Seq<Division> {
    let rows = tiles_along(h, dh);
    Seq::new(
        (tiles_along(w, dw) * rows) as nat,
        |k: int| tile_at(w, h, dw, dh, k / rows, k % rows),
    )
}

/// Some tile of `tiles` holds the pixel `(x, y)`.
pub open spec fn covered(tiles: Seq<Division>, x: int, y: int) -> bool {
    exists|k: int| 0 <= k < tiles.len() && (#[trigger] tiles[k]).contains(x, y)
}

/// The tiles lie inside a `w` by `h` frame, every pixel of the frame is in one
/// of them, and no pixel is in two.
pub open spec fn is_partition(tiles: Seq<Division>, w: int, h: int) -> bool {
    &&& forall|k: int| 0 <= k < tiles.len() ==> (#[trigger] tiles[k]).within(w, h)
    &&& forall|x: int, y: int| 0 <= x < w && 0 <= y < h ==> #[trigger] covered(tiles, x, y)
    &&& forall|k: int, l: int, x: int, y: int|
        0 <= k < tiles.len() && 0 <= l < tiles.len() && #[trigger] tiles[k].contains(x, y)
            && #[trigger] tiles[l].contains(x, y) ==> k == l
}

impl Division {
    /// The pixel `(x, y)` of the frame belongs to this tile.
    pub open spec fn contains(&self, x: int, y: int) -> bool {
        self.x0 <= x < self.x0 + self.w && self.y0 <= y < self.y0 + self.h
    }

    /// The tile does not reach beyond a frame of `w` by `h` pixels.
    pub open spec fn within(&self, w: int, h: int) -> bool {
        self.x0 + self.w <= w && self.y0 + self.h <= h
    }
}

/// Facts about the tiles along one axis: tile `i` is not empty, is no longer
/// than `step`, starts at `i * step` and ends inside the axis.
pub proof fn lemma_tile_span(len: int, step: int, i: int)
    requires
        len >= 0,
        step > 0,
        0 <= i < tiles_along(len, step),
    ensures
        0 < tile_span(len, step, i) <= step,
        0 <= i * step < len,
        i * step + tile_span(len, step, i) <= len,
{
    let q = len / step;
    let r = len % step;
    lemma_fundamental_div_mod(len, step);
    assert(len == step * q + r);
    assert(0 <= r < step);
    assert(i * step < len && 0 <= i * step) by (nonlinear_arith)
        requires
            len == step * q + r,
            0 <= r < step,
            step > 0,
            0 <= i,
            r == 0 ==> i < q,
            r != 0 ==> i < q + 1,
    ;
    assert((i + 1) * step == i * step + step) by (nonlinear_arith);
}

/// The pixel at offset `x` along an axis lies in tile number `x / step`, and in
/// no other.
pub proof fn lemma_tile_of_pixel(len: int, step: int, x: int)
    requires
        step > 0,
        0 <= x < len,
    ensures
        0 <= x / step < tiles_along(len, step),
        (x / step) * step <= x < (x / step) * step + tile_span(len, step, x / step),
        forall|i: int|
            0 <= i && i * step <= x < i * step + #[trigger] tile_span(len, step, i) && tile_span(
                len,
                step,
                i,
            ) <= step ==> i == x / step,
{
    let i = x / step;
    let q = len / step;
    let r = len % step;
    lemma_fundamental_div_mod(x, step);
    lemma_fundamental_div_mod(len, step);
    assert(0 <= i && i < tiles_along(len, step)) by (nonlinear_arith)
        requires
            x == step * i + x % step,
            0 <= x % step < step,
            len == step * q + r,
            0 <= r < step,
            0 <= x < len,
            step > 0,
            tiles_along(len, step) == if r == 0 {
                q
            } else {
                q + 1
            },
    ;
    assert(i * step == step * i) by (nonlinear_arith);
    assert((i + 1) * step == i * step + step) by (nonlinear_arith);
    assert forall|k: int|
        0 <= k && k * step <= x < k * step + #[trigger] tile_span(len, step, k) && tile_span(
            len,
            step,
            k,
        ) <= step implies k == x / step by {
        assert(step * k == k * step) by (nonlinear_arith);
        lemma_fundamental_div_mod_converse(x, step, k, x - k * step);
    }
}

/// Cutting a frame into tiles of a fixed size leaves no pixel out and puts no
/// pixel into two tiles.
pub proof fn lemma_tiling_is_partition(w: int, h: int, dw: int, dh: int)
    requires
        w >= 0,
        h >= 0,
        dw > 0,
        dh > 0,
        w <= u32::MAX,
        h <= u32::MAX,
    ensures
        is_partition(tiling(w, h, dw, dh), w, h),
{
    let tiles = tiling(w, h, dw, dh);
    let cols = tiles_along(w, dw);
    let rows = tiles_along(h, dh);
    assert forall|k: int| 0 <= k < tiles.len() implies (#[trigger] tiles[k]).within(w, h) by {
        lemma_tile_index(cols, rows, k);
        lemma_tile_span(w, dw, k / rows);
        lemma_tile_span(h, dh, k % rows);
    }
    assert forall|x: int, y: int| 0 <= x < w && 0 <= y < h implies #[trigger] covered(
        tiles,
        x,
        y,
    ) by {
        lemma_tile_of_pixel(w, dw, x);
        lemma_tile_of_pixel(h, dh, y);
        let i = x / dw;
        let j = y / dh;
        let k = i * rows + j;
        lemma_tile_number(cols, rows, i, j);
        lemma_tile_span(w, dw, i);
        lemma_tile_span(h, dh, j);
        assert(tiles[k] == tile_at(w, h, dw, dh, i, j));
        assert(tiles[k].contains(x, y));
    }
    assert forall|k: int, l: int, x: int, y: int|
        0 <= k < tiles.len() && 0 <= l < tiles.len() && #[trigger] tiles[k].contains(x, y)
            && #[trigger] tiles[l].contains(x, y) implies k == l by {
        lemma_tile_holds(w, h, dw, dh, k, x, y);
        lemma_tile_holds(w, h, dw, dh, l, x, y);
    }
}

/// Tile number `k` of a tiling stands in column `k / rows` and row `k % rows`.
proof fn lemma_tile_index(cols: int, rows: int, k: int)
    requires
        cols >= 0,
        rows >= 0,
        0 <= k < cols * rows,
    ensures
        rows > 0,
        0 <= k / rows < cols,
        0 <= k % rows < rows,
        k == (k / rows) * rows + k % rows,
{
    assert(rows > 0) by (nonlinear_arith)
        requires
            cols >= 0,
            rows >= 0,
            0 < cols * rows,
    ;
    lemma_fundamental_div_mod(k, rows);
    let q = k / rows;
    assert(0 <= q < cols && q * rows == rows * q) by (nonlinear_arith)
        requires
            k == rows * q + k % rows,
            0 <= k % rows < rows,
            0 <= k < cols * rows,
    ;
}

/// The tile in column `i` and row `j` has the number `i * rows + j`.
proof fn lemma_tile_number(cols: int, rows: int, i: int, j: int)
    requires
        0 <= i < cols,
        0 <= j < rows,
    ensures
        0 <= i * rows + j < cols * rows,
        (i * rows + j) / rows == i,
        (i * rows + j) % rows == j,
{
    assert(0 <= i * rows + j < cols * rows && rows * i == i * rows) by (nonlinear_arith)
        requires
            0 <= i < cols,
            0 <= j < rows,
    ;
    lemma_fundamental_div_mod_converse(i * rows + j, rows, i, j);
}

/// A tile of a tiling that holds the pixel `(x, y)` is the tile in column
/// `x / dw` and row `y / dh`.
proof fn lemma_tile_holds(w: int, h: int, dw: int, dh: int, k: int, x: int, y: int)
    requires
        0 <= w <= u32::MAX,
        0 <= h <= u32::MAX,
        dw > 0,
        dh > 0,
        0 <= k < tiling(w, h, dw, dh).len(),
        tiling(w, h, dw, dh)[k].contains(x, y),
    ensures
        0 <= x < w,
        0 <= y < h,
        k == (x / dw) * tiles_along(h, dh) + y / dh,
{
    let cols = tiles_along(w, dw);
    let rows = tiles_along(h, dh);
    lemma_tile_index(cols, rows, k);
    let i = k / rows;
    let j = k % rows;
    lemma_tile_span(w, dw, i);
    lemma_tile_span(h, dh, j);
    lemma_tile_of_pixel(w, dw, x);
    lemma_tile_of_pixel(h, dh, y);
    assert(tile_span(w, dw, i) <= dw);
    assert(tile_span(h, dh, j) <= dh);
}

/// The number of tiles along an axis.
fn count_along(len: u32, step: u32) -> (n: u32)
    requires
        step > 0,
    ensures
        n == tiles_along(len as int, step as int),
{
    let q = len / step;
    proof {
        lemma_fundamental_div_mod(len as int, step as int);
        if len % step != 0 {
            assert(q < u32::MAX) by (nonlinear_arith)
                requires
                    len == step * q + len % step,
                    0 < len % step < step,
                    len <= u32::MAX,
                    q >= 0,
            ;
        }
    }
    if len % step != 0 {
        q + 1
    } else {
        q
    }
}

/// Where tile number `i` along an axis starts, and how long it is.
fn span_of(len: u32, step: u32, i: u32) -> (r: (u32, u32))
    requires
        step > 0,
        i < tiles_along(len as int, step as int),
    ensures
        r.0 == i * step,
        r.1 == tile_span(len as int, step as int, i as int),
{
    proof {
        lemma_tile_span(len as int, step as int, i as int);
    }
    let start = i * step;
    let rest = len - start;
    if rest < step {
        (start, rest)
    } else {
        (start, step)
    }
}

impl Surface {
    /// The buffer holds three bytes for each pixel of the frame.
    pub open spec fn wf(&self) -> bool {
        self.pixels@.len() == 3 * (self.w * self.h)
    }

    /// Where the three bytes of the pixel `(x, y)` start in the buffer.
    pub open spec fn offset(&self, x: int, y: int) -> int {
        3 * (y * self.w + x)
    }

    /// The red, green and blue byte of the pixel `(x, y)`.
    pub open spec fn color_at(&self, x: int, y: int) -> (u8, u8, u8) {
        (
            self.pixels@[self.offset(x, y)],
            self.pixels@[self.offset(x, y) + 1],
            self.pixels@[self.offset(x, y) + 2],
        )
    }

    /// A black frame of `w` by `h` pixels.
    pub fn new(w: u32, h: u32) -> (surf: Surface)
        requires
            3 * (w * h) <= usize::MAX,
        ensures
            surf.wf(),
            surf.w == w,
            surf.h == h,
            forall|i: int| 0 <= i < surf.pixels@.len() ==> surf.pixels@[i] == 0,
    {
        assert(w * h <= 3 * (w * h)) by (nonlinear_arith)
            requires
                w >= 0,
                h >= 0,
        ;
        let count: usize = (w as usize) * (h as usize);
        let pixels = vec![0u8; count * 3];
        Surface { pixels, w, h }
    }

    /// Cuts the frame into tiles of `dw` by `dh` pixels, column after column and
    /// each column from the top down. The tiles of the last column and of the
    /// last row are smaller where the tile size does not divide the frame's.
    pub fn divide(&self, dw: u32, dh: u32) -> (tiles: Vec<Division>)
        requires
            dw > 0,
            dh > 0,
        ensures
            tiles@ == tiling(self.w as int, self.h as int, dw as int, dh as int),
            is_partition(tiles@, self.w as int, self.h as int),
    {
        let cols = count_along(self.w, dw);
        let rows = count_along(self.h, dh);
        let ghost all = tiling(self.w as int, self.h as int, dw as int, dh as int);
        let mut tiles: Vec<Division> = Vec::new();
        let mut i: u32 = 0;
        while i < cols
            invariant
                dw > 0,
                dh > 0,
                cols == tiles_along(self.w as int, dw as int),
                rows == tiles_along(self.h as int, dh as int),
                all == tiling(self.w as int, self.h as int, dw as int, dh as int),
                i <= cols,
                tiles@.len() == i * rows,
                forall|k: int| 0 <= k < tiles@.len() ==> tiles@[k] == all[k],
            decreases cols - i,
        {
            let (x0, w) = span_of(self.w, dw, i);
            let mut j: u32 = 0;
            while j < rows
                invariant
                    dw > 0,
                    dh > 0,
                    cols == tiles_along(self.w as int, dw as int),
                    rows == tiles_along(self.h as int, dh as int),
                    all == tiling(self.w as int, self.h as int, dw as int, dh as int),
                    i < cols,
                    j <= rows,
                    x0 == i * dw,
                    w == tile_span(self.w as int, dw as int, i as int),
                    tiles@.len() == i * rows + j,
                    forall|k: int| 0 <= k < tiles@.len() ==> tiles@[k] == all[k],
                decreases rows - j,
            {
                let (y0, h) = span_of(self.h, dh, j);
                proof {
                    lemma_tile_number(cols as int, rows as int, i as int, j as int);
                }
                tiles.push(Division { x0, y0, w, h });
                j += 1;
            }
            proof {
                assert((i + 1) * rows == i * rows + rows) by (nonlinear_arith);
            }
            i += 1;
        }
        proof {
            assert(tiles@ =~= all);
            lemma_tiling_is_partition(self.w as int, self.h as int, dw as int, dh as int);
        }
        tiles
    }
}

/// Inside a frame `w` pixels wide, the bytes of two different pixels do not
/// overlap, and the bytes of a pixel of the frame lie inside the buffer.
pub proof fn lemma_offsets_apart(w: int, h: int, x: int, y: int, u: int, v: int)
    requires
        0 <= x < w,
        0 <= y < h,
        0 <= u < w,
        0 <= v < h,
    ensures
        0 <= y * w,
        0 <= 3 * (y * w + x),
        3 * (y * w + x) + 2 < 3 * (w * h),
        (x, y) != (u, v) ==> 3 * (y * w + x) + 2 < 3 * (v * w + u) || 3 * (v * w + u) + 2 < 3 * (y
            * w + x),
{
    assert(0 <= y * w && 0 <= y * w + x < w * h) by (nonlinear_arith)
        requires
            0 <= x < w,
            0 <= y < h,
    ;
    if y < v {
        assert(y * w + x < v * w + u) by (nonlinear_arith)
            requires
                0 <= x < w,
                0 <= u,
                0 <= y < v,
        ;
    } else if v < y {
        assert(v * w + u < y * w + x) by (nonlinear_arith)
            requires
                0 <= u < w,
                0 <= x,
                0 <= v < y,
        ;
    }
}

/// No two tiles of a partition write to the same byte of the frame: the bytes
/// of a pixel of one tile do not overlap the bytes of a pixel of another.
pub proof fn lemma_tiles_share_no_byte(
    tiles: Seq<Division>,
    w: int,
    h: int,
    k: int,
    l: int,
    x: int,
    y: int,
    u: int,
    v: int,
)
    requires
        is_partition(tiles, w, h),
        0 <= k < tiles.len(),
        0 <= l < tiles.len(),
        k != l,
        tiles[k].contains(x, y),
        tiles[l].contains(u, v),
    ensures
        3 * (y * w + x) + 2 < 3 * (v * w + u) || 3 * (v * w + u) + 2 < 3 * (y * w + x),
{
    assert(tiles[k].within(w, h));
    assert(tiles[l].within(w, h));
    if x == u && y == v {
        assert(tiles[l].contains(x, y));
    }
    lemma_offsets_apart(w, h, x, y, u, v);
}

/// Two frames of one size that agree on the color of every pixel hold the same
/// bytes.
pub proof fn lemma_same_colors_same_bytes(a: Surface, b: Surface)
    requires
        a.wf(),
        b.wf(),
        a.w == b.w,
        a.h == b.h,
        forall|x: int, y: int|
            0 <= x < a.w && 0 <= y < a.h ==> #[trigger] a.color_at(x, y) == b.color_at(x, y),
    ensures
        a.pixels@ == b.pixels@,
{
    let w = a.w as int;
    let h = a.h as int;
    assert forall|i: int| 0 <= i < a.pixels@.len() implies a.pixels@[i] == b.pixels@[i] by {
        let p = i / 3;
        let c = i % 3;
        lemma_fundamental_div_mod(i, 3);
        assert(w > 0) by (nonlinear_arith)
            requires
                0 <= i < 3 * (w * h),
                w >= 0,
                h >= 0,
        ;
        let y = p / w;
        let x = p % w;
        lemma_fundamental_div_mod(p, w);
        assert(0 <= y < h && y * w == w * y) by (nonlinear_arith)
            requires
                p == w * y + x,
                0 <= x < w,
                0 <= p < w * h,
        ;
        assert(a.offset(x, y) == 3 * p);
        assert(a.color_at(x, y) == b.color_at(x, y));
    }
    assert(a.pixels@ =~= b.pixels@);
}

/// The frame shows, in each tile, the pixels of the part that belongs to it.
pub open spec fn composed_of(frame: Surface, tiles: Seq<Division>, parts: Seq<Surface>) -> bool {
    forall|k: int, x: int, y: int|
        0 <= k < tiles.len() && #[trigger] tiles[k].contains(x, y) ==> frame.color_at(x, y)
            == parts[k].color_at(x - tiles[k].x0, y - tiles[k].y0)
}

/// `part` has the size of the tile `at` and holds, for each pixel of that tile,
/// the color that `shade` gives to the pixel's place in the frame.
pub open spec fn shows(part: Surface, at: Division, shade: spec_fn(int, int) -> (u8, u8, u8)) -> bool {
    &&& part.wf()
    &&& part.w == at.w
    &&& part.h == at.h
    &&& forall|x: int, y: int|
        0 <= x < at.w && 0 <= y < at.h ==> #[trigger] part.color_at(x, y) == shade(
            at.x0 + x,
            at.y0 + y,
        )
}

/// A part rendered by a shader that gives each place one color shows the
/// picture of those colors.
pub proof fn lemma_rendered_part_shows<F: Fn(u32, u32) -> (u8, u8, u8)>(
    part: Surface,
    at: Division,
    shade: &F,
    picture: spec_fn(int, int) -> (u8, u8, u8),
)
    requires
        at.rendered(shade, part),
        at.within(u32::MAX as int, u32::MAX as int),
        forall|x: u32, y: u32, c: (u8, u8, u8)|
            call_ensures(shade, (x, y), c) ==> c == picture(x as int, y as int),
    ensures
        shows(part, at, picture),
{
    assert forall|x: int, y: int| 0 <= x < at.w && 0 <= y < at.h implies #[trigger] part.color_at(
        x,
        y,
    ) == picture(at.x0 + x, at.y0 + y) by {
        assert(call_ensures(shade, ((at.x0 + x) as u32, (at.y0 + y) as u32), part.color_at(x, y)));
    }
}

/// A frame put together from tiles that each show their share of one picture
/// shows that picture: the color of a pixel depends on its place alone.
pub proof fn lemma_composed_frame_shows(
    frame: Surface,
    tiles: Seq<Division>,
    parts: Seq<Surface>,
    shade: spec_fn(int, int) -> (u8, u8, u8),
)
    requires
        is_partition(tiles, frame.w as int, frame.h as int),
        tiles.len() == parts.len(),
        composed_of(frame, tiles, parts),
        forall|k: int| 0 <= k < tiles.len() ==> shows(#[trigger] parts[k], tiles[k], shade),
    ensures
        forall|x: int, y: int|
            0 <= x < frame.w && 0 <= y < frame.h ==> #[trigger] frame.color_at(x, y) == shade(
                x,
                y,
            ),
{
    assert forall|x: int, y: int| 0 <= x < frame.w && 0 <= y < frame.h implies #[trigger] frame.color_at(
        x,
        y,
    ) == shade(x, y) by {
        assert(covered(tiles, x, y));
        let k = choose|k: int| 0 <= k < tiles.len() && (#[trigger] tiles[k]).contains(x, y);
        assert(tiles[k].contains(x, y));
        assert(shows(parts[k], tiles[k], shade));
        assert(parts[k].color_at(x - tiles[k].x0, y - tiles[k].y0) == shade(
            tiles[k].x0 + (x - tiles[k].x0),
            tiles[k].y0 + (y - tiles[k].y0),
        ));
    }
}

/// How a frame is cut into tiles does not show in the picture: two frames of
/// one size, each put together from its own tiles, hold the same bytes when the
/// tiles of both show one picture.
pub proof fn lemma_tiling_leaves_no_trace(
    a: Surface,
    tiles_a: Seq<Division>,
    parts_a: Seq<Surface>,
    b: Surface,
    tiles_b: Seq<Division>,
    parts_b: Seq<Surface>,
    shade: spec_fn(int, int) -> (u8, u8, u8),
)
    requires
        a.wf(),
        b.wf(),
        a.w == b.w,
        a.h == b.h,
        is_partition(tiles_a, a.w as int, a.h as int),
        is_partition(tiles_b, b.w as int, b.h as int),
        tiles_a.len() == parts_a.len(),
        tiles_b.len() == parts_b.len(),
        composed_of(a, tiles_a, parts_a),
        composed_of(b, tiles_b, parts_b),
        forall|k: int| 0 <= k < tiles_a.len() ==> shows(#[trigger] parts_a[k], tiles_a[k], shade),
        forall|k: int| 0 <= k < tiles_b.len() ==> shows(#[trigger] parts_b[k], tiles_b[k], shade),
    ensures
        a.pixels@ == b.pixels@,
{
    lemma_composed_frame_shows(a, tiles_a, parts_a, shade);
    lemma_composed_frame_shows(b, tiles_b, parts_b, shade);
    lemma_same_colors_same_bytes(a, b);
}

impl Surface {
    /// The color of the pixel `(x, y)`.
    pub fn color(&self, x: u32, y: u32) -> (c: (u8, u8, u8))
        requires
            self.wf(),
            x < self.w,
            y < self.h,
        ensures
            c == self.color_at(x as int, y as int),
    {
        proof {
            lemma_offsets_apart(self.w as int, self.h as int, x as int, y as int, 0, 0);
            assert(self.pixels.len() == 3 * (self.w * self.h));
        }
        let at: usize = 3 * ((y as usize) * (self.w as usize) + (x as usize));
        (self.pixels[at], self.pixels[at + 1], self.pixels[at + 2])
    }

    /// Stores a color in the pixel `(x, y)`: three bytes from `3 * (y * w + x)`
    /// on, and no other byte of the buffer.
    pub fn put(&mut self, x: u32, y: u32, r: u8, g: u8, b: u8)
        requires
            old(self).wf(),
            x < old(self).w,
            y < old(self).h,
        ensures
            final(self).wf(),
            final(self).w == old(self).w,
            final(self).h == old(self).h,
            final(self).pixels@ == old(self).pixels@.update(
                old(self).offset(x as int, y as int),
                r,
            ).update(old(self).offset(x as int, y as int) + 1, g).update(
                old(self).offset(x as int, y as int) + 2,
                b,
            ),
            final(self).color_at(x as int, y as int) == (r, g, b),
            forall|u: int, v: int|
                0 <= u < old(self).w && 0 <= v < old(self).h && (u, v) != (x as int, y as int)
                    ==> #[trigger] final(self).color_at(u, v) == old(self).color_at(u, v),
    {
        proof {
            lemma_offsets_apart(self.w as int, self.h as int, x as int, y as int, 0, 0);
            assert(self.pixels.len() == 3 * (self.w * self.h));
        }
        let at: usize = 3 * ((y as usize) * (self.w as usize) + (x as usize));
        self.pixels[at] = r;
        self.pixels[at + 1] = g;
        self.pixels[at + 2] = b;
        proof {
            assert forall|u: int, v: int|
                0 <= u < old(self).w && 0 <= v < old(self).h && (u, v) != (
                    x as int,
                    y as int,
                ) implies #[trigger] self.color_at(u, v) == old(self).color_at(u, v) by {
                lemma_offsets_apart(self.w as int, self.h as int, x as int, y as int, u, v);
                lemma_offsets_apart(self.w as int, self.h as int, u, v, x as int, y as int);
            }
        }
    }

    /// Copies `part` into the tile `at` of this frame, pixel by pixel; pixels
    /// outside the tile keep their color.
    pub fn paste(&mut self, at: &Division, part: &Surface)
        requires
            old(self).wf(),
            part.wf(),
            at.within(old(self).w as int, old(self).h as int),
            part.w == at.w,
            part.h == at.h,
        ensures
            final(self).wf(),
            final(self).w == old(self).w,
            final(self).h == old(self).h,
            forall|x: int, y: int|
                0 <= x < old(self).w && 0 <= y < old(self).h ==> #[trigger] final(self).color_at(
                    x,
                    y,
                ) == if at.contains(x, y) {
                    part.color_at(x - at.x0, y - at.y0)
                } else {
                    old(self).color_at(x, y)
                },
    {
        let mut yi: u32 = 0;
        while yi < at.h
            invariant
                self.wf(),
                part.wf(),
                self.w == old(self).w,
                self.h == old(self).h,
                at.within(self.w as int, self.h as int),
                part.w == at.w,
                part.h == at.h,
                yi <= at.h,
                forall|x: int, y: int|
                    0 <= x < self.w && 0 <= y < self.h ==> #[trigger] self.color_at(x, y) == if at.contains(
                        x,
                        y,
                    ) && y - at.y0 < yi {
                        part.color_at(x - at.x0, y - at.y0)
                    } else {
                        old(self).color_at(x, y)
                    },
            decreases at.h - yi,
        {
            let mut xi: u32 = 0;
            while xi < at.w
                invariant
                    self.wf(),
                    part.wf(),
                    self.w == old(self).w,
                    self.h == old(self).h,
                    at.within(self.w as int, self.h as int),
                    part.w == at.w,
                    part.h == at.h,
                    yi < at.h,
                    xi <= at.w,
                    forall|x: int, y: int|
                        0 <= x < self.w && 0 <= y < self.h ==> #[trigger] self.color_at(x, y)
                            == if at.contains(x, y) && (y - at.y0 < yi || (y - at.y0 == yi && x
                            - at.x0 < xi)) {
                            part.color_at(x - at.x0, y - at.y0)
                        } else {
                            old(self).color_at(x, y)
                        },
                decreases at.w - xi,
            {
                let (r, g, b) = part.color(xi, yi);
                self.put(at.x0 + xi, at.y0 + yi, r, g, b);
                xi += 1;
            }
            yi += 1;
        }
    }

    /// Puts the frame together from the tiles of a partition and the part
    /// rendered for each: every pixel takes the color that the part of its
    /// tile holds for it.
    pub fn compose(&mut self, tiles: &Vec<Division>, parts: &Vec<Surface>)
        requires
            old(self).wf(),
            is_partition(tiles@, old(self).w as int, old(self).h as int),
            tiles@.len() == parts@.len(),
            forall|k: int|
                0 <= k < tiles@.len() ==> (#[trigger] parts@[k]).wf() && parts@[k].w == tiles@[k].w
                    && parts@[k].h == tiles@[k].h,
        ensures
            final(self).wf(),
            final(self).w == old(self).w,
            final(self).h == old(self).h,
            composed_of(*final(self), tiles@, parts@),
    {
        let mut k: usize = 0;
        while k < tiles.len()
            invariant
                self.wf(),
                self.w == old(self).w,
                self.h == old(self).h,
                k <= tiles@.len(),
                is_partition(tiles@, self.w as int, self.h as int),
                tiles@.len() == parts@.len(),
                forall|k: int|
                    0 <= k < tiles@.len() ==> (#[trigger] parts@[k]).wf() && parts@[k].w
                        == tiles@[k].w && parts@[k].h == tiles@[k].h,
                forall|l: int, x: int, y: int|
                    0 <= l < k && #[trigger] tiles@[l].contains(x, y) ==> self.color_at(x, y)
                        == parts@[l].color_at(x - tiles@[l].x0, y - tiles@[l].y0),
            decreases tiles@.len() - k,
        {
            let ghost before = *self;
            assert(tiles@[k as int].within(self.w as int, self.h as int));
            self.paste(&tiles[k], &parts[k]);
            proof {
                assert forall|l: int, x: int, y: int|
                    0 <= l < k + 1 && #[trigger] tiles@[l].contains(x, y) implies self.color_at(
                    x,
                    y,
                ) == parts@[l].color_at(x - tiles@[l].x0, y - tiles@[l].y0) by {
                    assert(tiles@[l].within(self.w as int, self.h as int));
                    if l < k {
                        if tiles@[k as int].contains(x, y) {
                            assert(false);
                        }
                        assert(self.color_at(x, y) == before.color_at(x, y));
                    }
                }
            }
            k += 1;
        }
    }
}

impl Division {
    /// Tells whether the pixel `(x, y)` of the frame belongs to this tile.
    pub fn holds(&self, x: u32, y: u32) -> (b: bool)
        ensures
            b == self.contains(x as int, y as int),
    {
        x >= self.x0 && x - self.x0 < self.w && y >= self.y0 && y - self.y0 < self.h
    }

    /// Tells whether the tile lies inside the frame `surf`.
    pub fn fits(&self, surf: &Surface) -> (b: bool)
        ensures
            b == self.within(surf.w as int, surf.h as int),
    {
        self.x0 <= surf.w && surf.w - self.x0 >= self.w && self.y0 <= surf.h && surf.h - self.y0
            >= self.h
    }

    /// The part shows what `shade` gave for each pixel of the tile, asked by the
    /// pixel's place in the frame.
    pub open spec fn rendered<F: Fn(u32, u32) -> (u8, u8, u8)>(&self, shade: &F, part: Surface) -> bool {
        &&& part.wf()
        &&& part.w == self.w
        &&& part.h == self.h
        &&& forall|x: int, y: int|
            0 <= x < self.w && 0 <= y < self.h ==> call_ensures(
                shade,
                ((self.x0 + x) as u32, (self.y0 + y) as u32),
                #[trigger] part.color_at(x, y),
            )
    }

    /// Renders the tile into a part of its own size: asks `shade` once for each
    /// pixel of the tile, row by row, by the pixel's place in the frame.
    pub fn render<F: Fn(u32, u32) -> (u8, u8, u8)>(&self, shade: &F) -> (part: Surface)
        requires
            3 * (self.w * self.h) <= usize::MAX,
            self.within(u32::MAX as int, u32::MAX as int),
            forall|x: u32, y: u32| self.contains(x as int, y as int) ==> call_requires(shade, (x, y)),
        ensures
            self.rendered(shade, part),
    {
        let mut part = Surface::new(self.w, self.h);
        let mut yi: u32 = 0;
        while yi < self.h
            invariant
                part.wf(),
                part.w == self.w,
                part.h == self.h,
                yi <= self.h,
                self.within(u32::MAX as int, u32::MAX as int),
                forall|x: u32, y: u32|
                    self.contains(x as int, y as int) ==> call_requires(shade, (x, y)),
                forall|x: int, y: int|
                    0 <= x < self.w && 0 <= y < yi ==> call_ensures(
                        shade,
                        ((self.x0 + x) as u32, (self.y0 + y) as u32),
                        #[trigger] part.color_at(x, y),
                    ),
            decreases self.h - yi,
        {
            let mut xi: u32 = 0;
            while xi < self.w
                invariant
                    part.wf(),
                    part.w == self.w,
                    part.h == self.h,
                    yi < self.h,
                    xi <= self.w,
                    self.within(u32::MAX as int, u32::MAX as int),
                    forall|x: u32, y: u32|
                        self.contains(x as int, y as int) ==> call_requires(shade, (x, y)),
                    forall|x: int, y: int|
                        0 <= x < self.w && (0 <= y < yi || (y == yi && x < xi)) ==> call_ensures(
                            shade,
                            ((self.x0 + x) as u32, (self.y0 + y) as u32),
                            #[trigger] part.color_at(x, y),
                        ),
                decreases self.w - xi,
            {
                let x = self.x0 + xi;
                let y = self.y0 + yi;
                assert(self.contains(x as int, y as int));
                let (r, g, b) = shade(x, y);
                part.put(xi, yi, r, g, b);
                xi += 1;
            }
            yi += 1;
        }
        part
    }

    /// Gives the pixel `(x, y)` of this tile its color in the frame `surf`. The
    /// tile writes to its own pixels only.
    pub fn set_color(&self, surf: &mut Surface, x: u32, y: u32, r: u8, g: u8, b: u8)
        requires
            old(surf).wf(),
            self.within(old(surf).w as int, old(surf).h as int),
            self.contains(x as int, y as int),
        ensures
            final(surf).wf(),
            final(surf).w == old(surf).w,
            final(surf).h == old(surf).h,
            final(surf).pixels@ == old(surf).pixels@.update(
                old(surf).offset(x as int, y as int),
                r,
            ).update(old(surf).offset(x as int, y as int) + 1, g).update(
                old(surf).offset(x as int, y as int) + 2,
                b,
            ),
            final(surf).color_at(x as int, y as int) == (r, g, b),
            forall|u: int, v: int|
                0 <= u < old(surf).w && 0 <= v < old(surf).h && (u, v) != (x as int, y as int)
                    ==> #[trigger] final(surf).color_at(u, v) == old(surf).color_at(u, v),
    {
        surf.put(x, y, r, g, b);
    }
}

} // verus!
