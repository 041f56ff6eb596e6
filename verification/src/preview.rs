//! Top-down preview images of maps, north up, as binary PPM files.

use vstd::prelude::*;

use crate::grid;
use crate::text;

verus! {

/// An image whose pixel `(0, 0)` is the south-west corner.
pub struct Image {
    w: usize,
    h: usize,
    rgb: Vec<u8>,
}

/// Where the pixel in column `x`, `y` rows from the south, stands among the rows from the north.
pub open spec fn place(x: int, y: int, w: int, h: int) -> int {
    grid::at(x, h - 1 - y, w)
}

proof fn lemma_place(x: int, y: int, w: int, h: int)
    requires
        0 <= x < w,
        0 <= y < h,
    ensures
        0 <= place(x, y, w, h) < w * h,
{
    grid::lemma_at(x, h - 1 - y, w, h);
}

proof fn lemma_places_differ(x: int, y: int, a: int, b: int, w: int, h: int)
    requires
        0 <= x < w,
        0 <= y < h,
        0 <= a < w,
        0 <= b < h,
        place(x, y, w, h) == place(a, b, w, h),
    ensures
        x == a,
        y == b,
{
    grid::lemma_at(x, h - 1 - y, w, h);
    grid::lemma_at(a, h - 1 - b, w, h);
}

impl Image {
    pub closed spec fn width(&self) -> int {
        self.w as int
    }

    pub closed spec fn height(&self) -> int {
        self.h as int
    }

    /// The bytes of the pixels, row by row from the north.
    pub closed spec fn bytes(&self) -> Seq<u8> {
        self.rgb@
    }

    pub closed spec fn wf(&self) -> bool {
        self.rgb@.len() == 3 * (self.w * self.h)
    }

    /// Every pixel has three bytes.
    pub proof fn lemma_bytes(&self)
        requires
            self.wf(),
        ensures
            self.bytes().len() == 3 * (self.width() * self.height()),
    {
    }

    /// The colour of a pixel.
    pub open spec fn pixel(&self, x: int, y: int) -> (u8, u8, u8) {
        let i = 3 * place(x, y, self.width(), self.height());
        (self.bytes()[i], self.bytes()[i + 1], self.bytes()[i + 2])
    }

    /// A black image of a map of `cw` by `ch` cells, with one pixel per `stride` cells.
    pub fn new(cw: usize, ch: usize, stride: usize) -> (r: Image)
        requires
            0 < stride,
            3 * ((cw / stride) * (ch / stride)) <= usize::MAX,
        ensures
            r.wf(),
            r.width() == cw as int / stride as int,
            r.height() == ch as int / stride as int,
            forall|x: int, y: int|
                0 <= x < r.width() && 0 <= y < r.height() ==> #[trigger] r.pixel(x, y) == (0u8, 0u8, 0u8),
    {
        let (w, h): (usize, usize) = (cw / stride, ch / stride);
        assert(0 <= w * h) by (nonlinear_arith);
        let rgb: Vec<u8> = vec![0; 3 * (w * h)];
        let r = Image { w, h, rgb };
        proof {
            assert forall|x: int, y: int| 0 <= x < w && 0 <= y < h implies #[trigger] r.pixel(x, y) == (0u8, 0u8, 0u8) by {
                lemma_place(x, y, w as int, h as int);
            }
        }
        r
    }

    /// Colours one pixel.
    pub fn paint(&mut self, x: usize, y: usize, c: (u8, u8, u8))
        requires
            old(self).wf(),
            x < old(self).width(),
            y < old(self).height(),
        ensures
            final(self).wf(),
            final(self).width() == old(self).width(),
            final(self).height() == old(self).height(),
            forall|a: int, b: int|
                0 <= a < old(self).width() && 0 <= b < old(self).height() ==> #[trigger] final(self).pixel(a, b)
                    == if a == x && b == y {
                    c
                } else {
                    old(self).pixel(a, b)
                },
    {
        let total: usize = self.rgb.len();
        let ghost (w, h) = (self.w as int, self.h as int);
        proof {
            lemma_place(x as int, y as int, w, h);
            assert(0 <= (h - 1 - y) * w) by (nonlinear_arith)
                requires
                    y < h,
                    0 <= w,
            ;
        }
        let i: usize = 3 * ((self.h - 1 - y) * self.w + x);
        self.rgb.set(i, c.0);
        self.rgb.set(i + 1, c.1);
        self.rgb.set(i + 2, c.2);
        proof {
            assert forall|a: int, b: int| 0 <= a < w && 0 <= b < h implies #[trigger] self.pixel(a, b) == if a == x
                && b == y {
                c
            } else {
                old(self).pixel(a, b)
            } by {
                lemma_place(a, b, w, h);
                if place(a, b, w, h) == place(x as int, y as int, w, h) {
                    lemma_places_differ(a, b, x as int, y as int, w, h);
                }
            }
        }
    }

    /// Colours one pixel if the image has it.
    pub fn dot(&mut self, x: i64, y: i64, c: (u8, u8, u8))
        requires
            old(self).wf(),
        ensures
            final(self).wf(),
            final(self).width() == old(self).width(),
            final(self).height() == old(self).height(),
            forall|a: int, b: int|
                0 <= a < old(self).width() && 0 <= b < old(self).height() ==> #[trigger] final(self).pixel(a, b)
                    == if a == x && b == y {
                    c
                } else {
                    old(self).pixel(a, b)
                },
    {
        if x >= 0 && y >= 0 && (x as u64) < self.w as u64 && (y as u64) < self.h as u64 {
            self.paint(x as usize, y as usize, c);
        }
    }

    /// Colours the pixels of the image at most `r` columns and `r` rows from `(x, y)`.
    pub fn stamp(&mut self, x: i64, y: i64, r: i64, c: (u8, u8, u8))
        requires
            old(self).wf(),
            0 <= r <= 16,
            -0x4000_0000_0000_0000 <= x <= 0x4000_0000_0000_0000,
            -0x4000_0000_0000_0000 <= y <= 0x4000_0000_0000_0000,
        ensures
            final(self).wf(),
            final(self).width() == old(self).width(),
            final(self).height() == old(self).height(),
            forall|a: int, b: int|
                0 <= a < old(self).width() && 0 <= b < old(self).height() ==> #[trigger] final(self).pixel(a, b)
                    == if x - r <= a <= x + r && y - r <= b <= y + r {
                    c
                } else {
                    old(self).pixel(a, b)
                },
    {
        let ghost start = *self;
        let mut dy: i64 = -r;
        while dy <= r
            invariant
                self.wf(),
                self.width() == start.width(),
                self.height() == start.height(),
                0 <= r <= 16,
                -r <= dy <= r + 1,
                -0x4000_0000_0000_0000 <= x <= 0x4000_0000_0000_0000,
                -0x4000_0000_0000_0000 <= y <= 0x4000_0000_0000_0000,
                forall|a: int, b: int|
                    0 <= a < start.width() && 0 <= b < start.height() ==> #[trigger] self.pixel(a, b) == if x - r
                        <= a <= x + r && y - r <= b < y + dy {
                        c
                    } else {
                        start.pixel(a, b)
                    },
            decreases r + 1 - dy,
        {
            let mut dx: i64 = -r;
            while dx <= r
                invariant
                    self.wf(),
                    self.width() == start.width(),
                    self.height() == start.height(),
                    0 <= r <= 16,
                    -r <= dy <= r,
                    -r <= dx <= r + 1,
                    -0x4000_0000_0000_0000 <= x <= 0x4000_0000_0000_0000,
                    -0x4000_0000_0000_0000 <= y <= 0x4000_0000_0000_0000,
                    forall|a: int, b: int|
                        0 <= a < start.width() && 0 <= b < start.height() ==> #[trigger] self.pixel(a, b) == if x
                            - r <= a <= x + r && y - r <= b < y + dy || x - r <= a < x + dx && b == y + dy {
                            c
                        } else {
                            start.pixel(a, b)
                        },
                decreases r + 1 - dx,
            {
                self.dot(x + dx, y + dy, c);
                dx += 1;
            }
            dy += 1;
        }
    }

    /// The file: a header with the size, then the rows from the north.
    pub open spec fn file(&self) -> Seq<u8> {
        vstd::utf8::encode_utf8(
            "P6\n"@ + text::decimal_of(self.width() as nat) + " "@ + text::decimal_of(self.height() as nat)
                + "\n255\n"@,
        ) + self.bytes()
    }

    /// The image as a binary PPM file.
    pub fn to_ppm(&self) -> (r: Vec<u8>)
        ensures
            r@ == self.file(),
    {
        let mut header = "P6\n".to_owned();
        vstd::string::StringExecFns::append(&mut header, text::decimal(self.w as u64).as_str());
        vstd::string::StringExecFns::append(&mut header, " ");
        vstd::string::StringExecFns::append(&mut header, text::decimal(self.h as u64).as_str());
        vstd::string::StringExecFns::append(&mut header, "\n255\n");
        let mut r: Vec<u8> = Vec::new();
        r.extend_from_slice(header.as_str().as_bytes());
        r.extend_from_slice(self.rgb.as_slice());
        assert(r@ =~= self.file());
        r
    }
}

/// North is up: of two pixels in a column, the one farther north comes first in the file.
pub proof fn lemma_north_is_up(x: int, south: int, north: int, w: int, h: int)
    requires
        0 <= x < w,
        0 <= south < north < h,
    ensures
        place(x, north, w, h) < place(x, south, w, h),
{
    assert((h - 1 - north) * w < (h - 1 - south) * w) by (nonlinear_arith)
        requires
            south < north,
            0 < w,
    ;
}

/// What an obstacle is.
#[derive(Clone, Copy, Debug, PartialEq, Eq, Structural)]
pub enum Tag {
    Trunk,
    Canopy,
    CanopyBroadleaf,
    Rock,
    Pillar,
    Wall,
    Hedge,
    Fence,
    Building,
    Silo,
    Other(u16),
}

/// The shape of an obstacle, as far as the preview cares.
#[derive(Clone, Copy, Debug, PartialEq, Eq, Structural)]
pub enum Shape {
    Cuboid,
    Cylinder,
    Other,
}

/// How an obstacle is drawn.
#[derive(Clone, Copy, Debug, PartialEq, Eq)]
pub enum Mark {
    Nothing,
    /// Its footprint, in a colour.
    Footprint((u8, u8, u8)),
    /// A square around its centre, by its radius in pixels.
    Square((u8, u8, u8), u8),
}

/// How an obstacle is drawn: footprints of hedges (their foliage), fences, buildings and silos, squares
/// for crowns and rocks, and nothing else.
pub open spec fn mark_of(tag: Tag, shape: Shape, solid: bool) -> Mark {
    match (tag, shape) {
        (Tag::Hedge, Shape::Cuboid) => if solid {
            Mark::Nothing
        } else {
            Mark::Footprint((40, 90, 35))
        },
        (Tag::Fence, Shape::Cuboid) => Mark::Footprint((140, 100, 60)),
        (Tag::Building, Shape::Cuboid) => Mark::Footprint((150, 60, 45)),
        (Tag::Silo, Shape::Cylinder) => Mark::Footprint((200, 200, 205)),
        (Tag::Canopy, _) => Mark::Square((20, 70, 30), 1),
        (Tag::CanopyBroadleaf, _) => Mark::Square((60, 120, 40), 1),
        (Tag::Rock, _) => Mark::Square((150, 150, 150), 0),
        _ => Mark::Nothing,
    }
}

pub fn mark(tag: Tag, shape: Shape, solid: bool) -> (r: Mark)
    ensures
        r == mark_of(tag, shape, solid),
{
    match (tag, shape) {
        (Tag::Hedge, Shape::Cuboid) => if solid {
            Mark::Nothing
        } else {
            Mark::Footprint((40, 90, 35))
        },
        (Tag::Fence, Shape::Cuboid) => Mark::Footprint((140, 100, 60)),
        (Tag::Building, Shape::Cuboid) => Mark::Footprint((150, 60, 45)),
        (Tag::Silo, Shape::Cylinder) => Mark::Footprint((200, 200, 205)),
        (Tag::Canopy, _) => Mark::Square((20, 70, 30), 1),
        (Tag::CanopyBroadleaf, _) => Mark::Square((60, 120, 40), 1),
        (Tag::Rock, _) => Mark::Square((150, 150, 150), 0),
        _ => Mark::Nothing,
    }
}

/// Every pixel has its own place in the file.
pub proof fn lemma_pixels_have_their_own_place(x: int, y: int, a: int, b: int, w: int, h: int)
    requires
        0 <= x < w,
        0 <= y < h,
        0 <= a < w,
        0 <= b < h,
    ensures
        0 <= place(x, y, w, h) < w * h,
        place(x, y, w, h) == place(a, b, w, h) <==> x == a && y == b,
        x + 1 < w ==> place(x + 1, y, w, h) == place(x, y, w, h) + 1,
        y + 1 < h ==> place(x, y + 1, w, h) == place(x, y, w, h) - w,
        place(0, h - 1, w, h) == 0,
{
    lemma_place(x, y, w, h);
    if place(x, y, w, h) == place(a, b, w, h) {
        lemma_places_differ(x, y, a, b, w, h);
    }
    if y + 1 < h {
        assert((h - 1 - y) * w == (h - 1 - (y + 1)) * w + w) by (nonlinear_arith);
    }
}

/// Trunks, pillars, walls and what has no name are not drawn. Crowns and rocks are drawn as squares,
/// whatever their shape, crowns as wider ones. Hedges are drawn by their foliage alone, and fences,
/// buildings and silos by their footprint in the shape that they have.
pub proof fn lemma_what_is_drawn(tag: Tag, shape: Shape, solid: bool)
    ensures
        mark_of(tag, shape, solid) is Square <==> tag == Tag::Canopy || tag == Tag::CanopyBroadleaf || tag == Tag::Rock,
        mark_of(tag, shape, solid) matches Mark::Square(_, r) ==> (r == 0 <==> tag == Tag::Rock) && r <= 1,
        mark_of(tag, shape, solid) is Footprint <==> shape == Shape::Cuboid && (tag == Tag::Hedge && !solid || tag
            == Tag::Fence || tag == Tag::Building) || shape == Shape::Cylinder && tag == Tag::Silo,
        tag != Tag::Hedge ==> mark_of(tag, shape, solid) == mark_of(tag, shape, !solid),
{
}

/// No two kinds of obstacles are drawn alike.
pub proof fn lemma_marks_tell_obstacles_apart(a: Tag, b: Tag, s: Shape, t: Shape, p: bool, q: bool)
    requires
        mark_of(a, s, p) == mark_of(b, t, q),
        mark_of(a, s, p) !is Nothing,
    ensures
        a == b,
{
}

/// A file starts with its kind, the width before the height, and the largest value of a colour, and then
/// holds the three bytes of every pixel.
pub proof fn lemma_files_have_a_header(i: &Image)
    requires
        i.wf(),
    ensures
        ({
            let head = vstd::utf8::encode_utf8(
                "P6\n"@ + text::decimal_of(i.width() as nat) + " "@ + text::decimal_of(i.height() as nat) + "\n255\n"@,
            );
            &&& i.file().take(head.len() as int) == head
            &&& i.file().skip(head.len() as int) == i.bytes()
            &&& i.bytes().len() == 3 * (i.width() * i.height())
        }),
{
    let head = vstd::utf8::encode_utf8(
        "P6\n"@ + text::decimal_of(i.width() as nat) + " "@ + text::decimal_of(i.height() as nat) + "\n255\n"@,
    );
    i.lemma_bytes();
    assert(i.file().take(head.len() as int) =~= head);
    assert(i.file().skip(head.len() as int) =~= i.bytes());
}

} // verus!
