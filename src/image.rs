use vstd::prelude::*;

verus! {

/// An 8-bit RGB color, as it leaves the tone mapper.
#[derive(Clone, Copy, Debug, PartialEq, Eq, Structural)]
pub struct Rgb {
    pub r: u8,
    pub g: u8,
    pub b: u8,
}

impl Rgb {
    pub fn new(r: u8, g: u8, b: u8) -> (c: Rgb)
        ensures
            c == (Rgb { r, g, b }),
    {
        Rgb { r, g, b }
    }

    pub open spec fn black() -> Rgb {
        Rgb { r: 0, g: 0, b: 0 }
    }

    /// The four-channel form handed to a display surface: full opacity.
    pub fn to_rgba(&self) -> (out: [u8; 4])
        ensures
            out@ == seq![self.r, self.g, self.b, 255u8],
    {
        let out: [u8; 4] = [self.r, self.g, self.b, 255];
        assert(out@ =~= seq![self.r, self.g, self.b, 255u8]);
        out
    }
}

/// Row-major position of the pixel `(x, y)` in an image `width` pixels wide.
pub open spec fn cell_index(width: nat, x: nat, y: nat) -> nat {
    y * width + x
}

/// The row-major position of a pixel inside the grid lies inside the grid.
pub proof fn lemma_cell_index_in_bounds(width: nat, height: nat, x: nat, y: nat)
    requires
        x < width,
        y < height,
    ensures
        y * width <= cell_index(width, x, y) < width * height,
{
    assert(y * width <= y * width + x < width * height) by (nonlinear_arith)
        requires
            x < width,
            y < height,
    ;
}

/// A `width` by `height` grid of colors; row 0 is the top scanline.
pub struct Image {
    width: u32,
    height: u32,
    cells: Vec<Rgb>,
}

impl Image {
    pub closed spec fn spec_width(&self) -> nat {
        self.width as nat
    }

    pub closed spec fn spec_height(&self) -> nat {
        self.height as nat
    }

    /// The colors in row-major order, top row first.
    pub closed spec fn cells(&self) -> Seq<Rgb> {
        self.cells@
    }

    pub open spec fn wf(&self) -> bool {
        self.cells().len() == self.spec_width() * self.spec_height()
    }

    pub open spec fn pixel(&self, x: nat, y: nat) -> Rgb {
        self.cells()[cell_index(self.spec_width(), x, y) as int]
    }

    /// An all-black image.
    pub fn new(width: u32, height: u32) -> (img: Image)
        requires
            width as nat * height as nat <= usize::MAX,
        ensures
            img.wf(),
            img.spec_width() == width,
            img.spec_height() == height,
            img.cells() == Seq::new(width as nat * height as nat, |i: int| Rgb::black()),
    {
        let total: usize = (width as usize) * (height as usize);
        let mut cells: Vec<Rgb> = Vec::with_capacity(total);
        let mut i: usize = 0;
        while i < total
            invariant
                i <= total,
                total == width as nat * height as nat,
                cells@ == Seq::new(i as nat, |k: int| Rgb::black()),
            decreases total - i,
        {
            cells.push(Rgb { r: 0, g: 0, b: 0 });
            i = i + 1;
            assert(cells@ =~= Seq::new(i as nat, |k: int| Rgb::black()));
        }
        Image { width, height, cells }
    }

    pub fn width(&self) -> (w: u32)
        ensures
            w == self.spec_width(),
    {
        self.width
    }

    pub fn height(&self) -> (h: u32)
        ensures
            h == self.spec_height(),
    {
        self.height
    }

    /// The colors in row-major order, top row first.
    pub fn as_slice(&self) -> (s: &[Rgb])
        ensures
            s@ == self.cells(),
    {
        self.cells.as_slice()
    }

    pub fn get(&self, x: u32, y: u32) -> (c: Rgb)
        requires
            self.wf(),
            x < self.spec_width(),
            y < self.spec_height(),
        ensures
            c == self.pixel(x as nat, y as nat),
    {
        let n: usize = self.cells.len();
        proof {
            lemma_cell_index_in_bounds(self.width as nat, self.height as nat, x as nat, y as nat);
        }
        self.cells[(y as usize) * (self.width as usize) + (x as usize)]
    }

    /// Places `c` at `(x, y)`; every other pixel is kept.
    pub fn set(&mut self, x: u32, y: u32, c: Rgb)
        requires
            old(self).wf(),
            x < old(self).spec_width(),
            y < old(self).spec_height(),
        ensures
            final(self).wf(),
            final(self).spec_width() == old(self).spec_width(),
            final(self).spec_height() == old(self).spec_height(),
            final(self).cells() == old(self).cells().update(
                cell_index(old(self).spec_width(), x as nat, y as nat) as int,
                c,
            ),
    {
        let n: usize = self.cells.len();
        proof {
            lemma_cell_index_in_bounds(self.width as nat, self.height as nat, x as nat, y as nat);
        }
        let i: usize = (y as usize) * (self.width as usize) + (x as usize);
        self.cells.set(i, c);
    }
}

/// The output row of the renderer's scanline `j`: the renderer counts
/// scanlines from the bottom of the viewport, the image from the top.
pub fn scanline_row(height: u32, j: u32) -> (y: u32)
    requires
        j < height,
    ensures
        y == height - 1 - j,
        y < height,
{
    height - 1 - j
}

} // verus!
