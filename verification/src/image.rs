//! The image: a grid of pixels that is addressed from the top left corner and
//! stored from the bottom row up.

use vstd::prelude::*;
use vstd::arithmetic::div_mod::lemma_fundamental_div_mod_converse;
use crate::header::{
    data_size_for,
    lemma_pixel_count_bounded,
    describable,
    pixel_array_size,
    valid_dimensions,
    BmpDibHeader,
    BmpHeader,
};
use crate::pixel::Pixel;

verus! {

/// What an image holds, as plain values.
pub struct ImageView {
    pub header: BmpHeader,
    pub dib_header: BmpDibHeader,
    pub palette: Option<Seq<Pixel>>,
    pub width: int,
    pub height: int,
    pub padding: int,
    pub data: Seq<Pixel>,
}

/// The place in the pixel store of the pixel in column `x` of row `y`, rows
/// counted from the top: the store starts with the bottom row.
pub open spec fn flat_index(width: int, height: int, x: int, y: int) -> int {
    (height - y - 1) * width + x
}

/// The pair that a walk over an image `width` pixels wide reaches after
/// `position` steps: row after row, each from left to right.
pub open spec fn pair_at(width: int, position: int) -> (u32, u32) {
    ((position % width) as u32, (position / width) as u32)
}

/// The number of steps after which such a walk reaches column `x` of row
/// `y`.
pub open spec fn position_of(width: int, x: int, y: int) -> int {
    y * width + x
}

/// Inside an image, every coordinate has a place of its own in the store.
pub proof fn lemma_flat_index(width: int, height: int, x: int, y: int)
    requires
        0 <= x < width,
        0 <= y < height,
    ensures
        0 <= flat_index(width, height, x, y) < width * height,
        flat_index(width, height, x, y) % width == x,
        flat_index(width, height, x, y) / width == height - y - 1,
{
    let row = height - y - 1;
    assert(0 <= row * width && row * width + width <= height * width) by (nonlinear_arith)
        requires
            0 <= row <= height - 1,
            0 < width,
    ;
    assert(height * width == width * height) by (nonlinear_arith);
    lemma_fundamental_div_mod_converse(flat_index(width, height, x, y), width, row, x);
}

/// The image type.
///
/// The point (0, 0) is the upper left corner of the image.
#[derive(Clone, Debug, PartialEq, Eq)]
pub struct Image {
    header: BmpHeader,
    dib_header: BmpDibHeader,
    color_palette: Option<Vec<Pixel>>,
    width: u32,
    height: u32,
    padding: u32,
    data: Vec<Pixel>,
}

impl View for Image {
    type V = ImageView;

    closed spec fn view(&self) -> ImageView {
        ImageView {
            header: self.header,
            dib_header: self.dib_header,
            palette: match self.color_palette {
                Some(p) => Some(p@),
                None => None,
            },
            width: self.width as int,
            height: self.height as int,
            padding: self.padding as int,
            data: self.data@,
        }
    }
}

impl Image {
    /// The invariant of every image: its width and height can be described
    /// by the headers, and the store holds no more pixels than the grid has
    /// places.
    pub open spec fn wf(&self) -> bool {
        &&& describable(self@.width, self@.height)
        &&& self@.data.len() <= self@.width * self@.height
    }

    /// Whether the store holds a pixel for every place of the grid.
    pub open spec fn complete(&self) -> bool {
        self@.data.len() == self@.width * self@.height
    }

    /// Whether the store holds the pixel in column `x` of row `y`.
    pub open spec fn holds(&self, x: int, y: int) -> bool {
        &&& 0 <= x < self@.width
        &&& 0 <= y < self@.height
        &&& flat_index(self@.width, self@.height, x, y) < self@.data.len()
    }

    /// The pixel in column `x` of row `y`, rows counted from the top.
    pub open spec fn pixel_at(&self, x: int, y: int) -> Pixel {
        self@.data[flat_index(self@.width, self@.height, x, y)]
    }

    /// A complete image holds every pixel of its grid.
    pub proof fn lemma_complete_holds(&self, x: int, y: int)
        requires
            self.complete(),
            0 <= x < self@.width,
            0 <= y < self@.height,
        ensures
            self.holds(x, y),
    {
        lemma_flat_index(self@.width, self@.height, x, y);
    }

    /// Puts an image together from its parts.
    pub(crate) fn assemble(
        header: BmpHeader,
        dib_header: BmpDibHeader,
        color_palette: Option<Vec<Pixel>>,
        width: u32,
        height: u32,
        data: Vec<Pixel>,
    ) -> (img: Image)
        ensures
            img@ == (ImageView {
                header,
                dib_header,
                palette: match color_palette {
                    Some(p) => Some(p@),
                    None => None,
                },
                width: width as int,
                height: height as int,
                padding: width as int % 4,
                data: data@,
            }),
    {
        Image { header, dib_header, color_palette, width, height, padding: width % 4, data }
    }

    /// Returns a new image of the given width and height, with every pixel
    /// black. It is described as an uncompressed image of 24 bits per pixel
    /// without a palette, whose pixel data starts behind the two headers.
    pub fn new(width: u32, height: u32) -> (img: Image)
        requires
            valid_dimensions(width as int, height as int),
        ensures
            img.wf(),
            img.complete(),
            img@ == (ImageView {
                header: BmpHeader {
                    file_size: (54 + pixel_array_size(width as int, height as int)) as u32,
                    creator1: 0,
                    creator2: 0,
                    pixel_offset: 54,
                },
                dib_header: BmpDibHeader::describing(width as int, height as int),
                palette: None,
                width: width as int,
                height: height as int,
                padding: width as int % 4,
                data: Seq::new((width * height) as nat, |k: int| Pixel::black()),
            }),
            forall|x: int, y: int|
                0 <= x < width && 0 <= y < height ==> #[trigger] img.pixel_at(x, y)
                    == Pixel::black(),
    {
        proof {
            lemma_pixel_count_bounded(width as int, height as int);
        }
        let count: u32 = width * height;
        let mut data: Vec<Pixel> = Vec::with_capacity(count as usize);
        let mut i: u32 = 0;
        while i < count
            invariant
                i <= count,
                data@ == Seq::new(i as nat, |k: int| Pixel::black()),
            decreases count - i,
        {
            data.push(Pixel::new(0, 0, 0));
            i += 1;
            assert(data@ =~= Seq::new(i as nat, |k: int| Pixel::black()));
        }
        let data_size: u32 = data_size_for(width, height);
        let img = Image {
            header: BmpHeader::new(54, data_size),
            dib_header: BmpDibHeader::new(width as i32, height as i32),
            color_palette: None,
            width,
            height,
            padding: width % 4,
            data,
        };
        proof {
            assert forall|x: int, y: int| 0 <= x < width && 0 <= y < height implies #[trigger] img.pixel_at(
                x,
                y,
            ) == Pixel::black() by {
                lemma_flat_index(width as int, height as int, x, y);
            }
        }
        img
    }

    /// Returns the width of the image.
    pub fn get_width(&self) -> (w: u32)
        ensures
            w == self@.width,
    {
        self.width
    }

    /// Returns the height of the image.
    pub fn get_height(&self) -> (h: u32)
        ensures
            h == self@.height,
    {
        self.height
    }

    /// Returns the number of pixels that the store holds.
    pub fn pixel_count(&self) -> (n: usize)
        ensures
            n == self@.data.len(),
    {
        self.data.len()
    }

    /// Sets the pixel in column `x` of row `y`, rows counted from the top.
    /// No other pixel changes, nor anything else of the image.
    pub fn set_pixel(&mut self, x: u32, y: u32, val: Pixel)
        requires
            old(self).wf(),
            old(self).holds(x as int, y as int),
        ensures
            final(self).wf(),
            final(self).complete() == old(self).complete(),
            final(self)@ == (ImageView {
                data: old(self)@.data.update(
                    flat_index(old(self)@.width, old(self)@.height, x as int, y as int),
                    val,
                ),
                ..old(self)@
            }),
            final(self).pixel_at(x as int, y as int) == val,
            forall|x2: int, y2: int|
                old(self).holds(x2, y2) && (x2 != x || y2 != y) ==> #[trigger] final(self).pixel_at(
                    x2,
                    y2,
                ) == old(self).pixel_at(x2, y2),
            forall|x2: int, y2: int| final(self).holds(x2, y2) == old(self).holds(x2, y2),
    {
        proof {
            lemma_pixel_count_bounded(self.width as int, self.height as int);
            lemma_flat_index(self.width as int, self.height as int, x as int, y as int);
            assert forall|x2: int, y2: int|
                0 <= x2 < self.width && 0 <= y2 < self.height && (x2 != x || y2 != y) implies flat_index(
                self.width as int,
                self.height as int,
                x2,
                y2,
            ) != flat_index(self.width as int, self.height as int, x as int, y as int) by {
                lemma_flat_index(self.width as int, self.height as int, x2, y2);
            }
        }
        let row: u32 = self.height - y - 1;
        assert(row * self.width <= flat_index(
            self.width as int,
            self.height as int,
            x as int,
            y as int,
        ));
        let at: u32 = row * self.width + x;
        self.data.set(at as usize, val);
    }

    /// Returns the pixel in column `x` of row `y`, rows counted from the top.
    pub fn get_pixel(&self, x: u32, y: u32) -> (p: Pixel)
        requires
            self.wf(),
            self.holds(x as int, y as int),
        ensures
            p == self.pixel_at(x as int, y as int),
    {
        proof {
            lemma_pixel_count_bounded(self.width as int, self.height as int);
            lemma_flat_index(self.width as int, self.height as int, x as int, y as int);
        }
        let row: u32 = self.height - y - 1;
        assert(row * self.width <= flat_index(
            self.width as int,
            self.height as int,
            x as int,
            y as int,
        ));
        let at: u32 = row * self.width + x;
        self.data[at as usize]
    }

    /// Returns a walk over the coordinates of the image, from the upper left
    /// corner on, row after row.
    pub fn coordinates(&self) -> (it: ImageIndex)
        ensures
            it.wf(),
            it.width() == self@.width,
            it.height() == self@.height,
            it.position() == 0,
    {
        ImageIndex::new(self.width, self.height)
    }
}

/// A walk over the coordinates of an image in row-major order, starting in
/// the upper left corner.
#[derive(Clone, Copy, Debug)]
pub struct ImageIndex {
    width: u32,
    height: u32,
    x: u32,
    y: u32,
}

impl ImageIndex {
    /// The invariant of the walk: it stands inside the grid, or at the start
    /// of the row below the last one; in a grid without pixels it never
    /// leaves the start.
    pub closed spec fn wf(&self) -> bool {
        if self.width == 0 || self.height == 0 {
            self.x == 0 && self.y == 0
        } else {
            (self.x < self.width && self.y < self.height) || (self.x == 0 && self.y
                == self.height)
        }
    }

    /// The width of the grid.
    pub closed spec fn width(&self) -> int {
        self.width as int
    }

    /// The height of the grid.
    pub closed spec fn height(&self) -> int {
        self.height as int
    }

    /// The number of pairs that the walk has passed.
    pub closed spec fn position(&self) -> int {
        self.y * self.width + self.x
    }

    /// The number of pairs in the whole walk.
    pub open spec fn total(&self) -> int {
        self.width() * self.height()
    }

    /// Creates a walk that stands at the start of a grid of the given size.
    pub fn new(width: u32, height: u32) -> (it: ImageIndex)
        ensures
            it.wf(),
            it.width() == width,
            it.height() == height,
            it.position() == 0,
    {
        ImageIndex { width, height, x: 0, y: 0 }
    }

    /// A walk never passes more pairs than the grid has.
    pub proof fn lemma_position_bounded(&self)
        requires
            self.wf(),
        ensures
            0 <= self.position() <= self.total(),
            0 <= self.width(),
            0 <= self.height(),
    {
        let w = self.width as int;
        let h = self.height as int;
        let y = self.y as int;
        assert(0 <= y * w && y * w + w <= w * h || y == h) by (nonlinear_arith)
            requires
                0 <= y <= h,
                0 <= w,
        ;
        assert(h * w == w * h) by (nonlinear_arith);
        assert(0 * w == 0);
    }

    /// Yields the pair at which the walk stands and moves on by one, or
    /// yields nothing, and stays, where every pair has been passed.
    pub fn next(&mut self) -> (item: Option<(u32, u32)>)
        requires
            old(self).wf(),
        ensures
            final(self).wf(),
            final(self).width() == old(self).width(),
            final(self).height() == old(self).height(),
            old(self).position() < old(self).total() ==> item == Some(
                pair_at(old(self).width(), old(self).position()),
            ) && final(self).position() == old(self).position() + 1,
            old(self).position() >= old(self).total() ==> item is None && *final(self) == *old(
                self,
            ),
    {
        proof {
            self.lemma_position_bounded();
            let w = self.width as int;
            let h = self.height as int;
            let y = self.y as int;
            if self.x < self.width && self.y < self.height {
                assert(y * w + w <= w * h) by (nonlinear_arith)
                    requires
                        0 <= y < h,
                        0 <= w,
                ;
                lemma_fundamental_div_mod_converse(self.position(), w, y, self.x as int);
                assert((y + 1) * w == y * w + w) by (nonlinear_arith);
            } else {
                assert(h * w == w * h) by (nonlinear_arith);
                assert(0 * w == 0);
            }
        }
        if self.x < self.width && self.y < self.height {
            let this = Some((self.x, self.y));
            self.x += 1;
            if self.x == self.width {
                self.x = 0;
                self.y += 1;
            }
            this
        } else {
            None
        }
    }
}

impl ImageIndex {
    /// Returns the pairs that the walk has not passed yet, in its order.
    pub fn to_vec(&self) -> (pairs: Vec<(u32, u32)>)
        requires
            self.wf(),
        ensures
            pairs@ == Seq::new(
                (self.total() - self.position()) as nat,
                |i: int| pair_at(self.width(), self.position() + i),
            ),
    {
        let ghost goal = Seq::new(
            (self.total() - self.position()) as nat,
            |i: int| pair_at(self.width(), self.position() + i),
        );
        let mut walk: ImageIndex = *self;
        let mut pairs: Vec<(u32, u32)> = Vec::new();
        proof {
            self.lemma_position_bounded();
        }
        loop
            invariant_except_break
                walk.position() <= walk.total(),
            invariant
                walk.wf(),
                walk.width() == self.width(),
                walk.height() == self.height(),
                self.position() <= walk.position(),
                pairs@.len() == walk.position() - self.position(),
                forall|i: int| 0 <= i < pairs@.len() ==> pairs@[i] == goal[i],
                goal.len() == self.total() - self.position(),
                forall|i: int|
                    0 <= i < goal.len() ==> goal[i] == pair_at(self.width(), self.position() + i),
            ensures
                walk.position() == walk.total(),
            decreases walk.total() - walk.position(),
        {
            proof {
                walk.lemma_position_bounded();
            }
            match walk.next() {
                Some(pair) => {
                    pairs.push(pair);
                },
                None => {
                    break ;
                },
            }
        }
        assert(pairs@ =~= goal);
        pairs
    }
}

/// Every pair of the walk lies in the grid, every place of the grid is the
/// pair of one position, and no two positions have the same pair: the walk
/// covers the grid exactly once, row after row from the upper left corner.
pub proof fn lemma_walk_covers_grid(width: int, height: int)
    requires
        0 <= width <= u32::MAX,
        0 <= height <= u32::MAX,
    ensures
        width > 0 && height > 0 ==> pair_at(width, 0) == (0u32, 0u32),
        forall|p: int|
            0 <= p < width * height ==> 0 <= (#[trigger] pair_at(width, p)).0 < width && 0 <= pair_at(
                width,
                p,
            ).1 < height,
        forall|x: int, y: int|
            0 <= x < width && 0 <= y < height ==> 0 <= #[trigger] position_of(width, x, y) < width
                * height && pair_at(width, position_of(width, x, y)) == (x as u32, y as u32),
        forall|p: int, q: int|
            0 <= p < q < width * height ==> #[trigger] pair_at(width, p) != #[trigger] pair_at(
                width,
                q,
            ),
        forall|p: int|
            0 <= p && p + 1 < width * height ==> {
                let a = #[trigger] pair_at(width, p);
                let b = pair_at(width, p + 1);
                if a.0 + 1 < width {
                    b == (((a.0 + 1) as u32), a.1)
                } else {
                    b == (0u32, ((a.1 + 1) as u32))
                }
            },
{
    assert forall|p: int| 0 <= p < width * height implies 0 <= (#[trigger] pair_at(width, p)).0
        < width && 0 <= pair_at(width, p).1 < height by {
        lemma_position_split(width, height, p);
    }
    assert forall|x: int, y: int| 0 <= x < width && 0 <= y < height implies 0
        <= #[trigger] position_of(width, x, y) < width * height && pair_at(
        width,
        position_of(width, x, y),
    ) == (x as u32, y as u32) by {
        lemma_flat_index(width, height, x, height - y - 1);
    }
    assert forall|p: int, q: int| 0 <= p < q < width * height implies #[trigger] pair_at(width, p)
        != #[trigger] pair_at(width, q) by {
        lemma_position_split(width, height, p);
        lemma_position_split(width, height, q);
    }
    assert forall|p: int| 0 <= p && p + 1 < width * height implies {
        let a = #[trigger] pair_at(width, p);
        let b = pair_at(width, p + 1);
        if a.0 + 1 < width {
            b == (((a.0 + 1) as u32), a.1)
        } else {
            b == (0u32, ((a.1 + 1) as u32))
        }
    } by {
        lemma_position_split(width, height, p);
        lemma_position_split(width, height, p + 1);
        let x = p % width;
        let y = p / width;
        if x + 1 < width {
            lemma_fundamental_div_mod_converse(p + 1, width, y, x + 1);
        } else {
            assert((y + 1) * width == y * width + width) by (nonlinear_arith);
            lemma_fundamental_div_mod_converse(p + 1, width, y + 1, 0);
        }
    }
}

/// A position inside the grid splits into a row and a column of the grid.
pub proof fn lemma_position_split(width: int, height: int, p: int)
    requires
        0 <= p < width * height,
        0 <= width,
        0 <= height,
    ensures
        0 <= p % width < width,
        0 <= p / width < height,
        p == (p / width) * width + p % width,
{
    assert(width > 0) by (nonlinear_arith)
        requires
            0 <= p < width * height,
            0 <= width,
    ;
    vstd::arithmetic::div_mod::lemma_fundamental_div_mod(p, width);
    let q = p / width;
    assert(q >= 0 && q < height) by (nonlinear_arith)
        requires
            p == width * q + p % width,
            0 <= p % width < width,
            0 <= p < width * height,
            0 < width,
    ;
    assert(width * q == q * width) by (nonlinear_arith);
}

} // verus!
