use vstd::prelude::*;

use crate::image::{cell_index, lemma_cell_index_in_bounds, Image, Rgb};

verus! {

/// What render workers send to the presentation side. Pixels may arrive in
/// any order; progress reports may lag behind the pixels.
#[derive(Clone, Copy, Debug, PartialEq, Eq, Structural)]
pub enum RenderMessage {
    /// The finished color of the pixel in column `x`, row `y` (row 0 on top).
    Pixel { x: u32, y: u32, color: Rgb },
    /// The workers' count of finished pixels when it was sampled.
    Progress { done: u64 },
    /// Every worker is done.
    Finished,
}

/// What the presentation side knows: the picture so far, which pixels have
/// arrived, the highest progress report seen, and whether the render ended.
pub struct CanvasView {
    pub width: nat,
    pub height: nat,
    pub cells: Seq<Rgb>,
    pub filled: Seq<bool>,
    pub reported: nat,
    pub finished: bool,
}

impl CanvasView {
    pub open spec fn wf(self) -> bool {
        &&& self.cells.len() == self.width * self.height
        &&& self.filled.len() == self.width * self.height
    }

    pub open spec fn contains(self, x: nat, y: nat) -> bool {
        x < self.width && y < self.height
    }
}

/// Number of `true` entries.
pub open spec fn count_filled(s: Seq<bool>) -> nat
    decreases s.len(),
{
    if s.len() == 0 {
        0
    } else {
        count_filled(s.drop_last()) + if s.last() {
            1nat
        } else {
            0nat
        }
    }
}

/// The effect of one message. A pixel outside the canvas is dropped.
pub open spec fn step(v: CanvasView, m: RenderMessage) -> CanvasView {
    match m {
        RenderMessage::Pixel { x, y, color } => {
            if v.contains(x as nat, y as nat) {
                let i = cell_index(v.width, x as nat, y as nat) as int;
                CanvasView { cells: v.cells.update(i, color), filled: v.filled.update(i, true), ..v }
            } else {
                v
            }
        },
        RenderMessage::Progress { done } => {
            CanvasView {
                reported: if done as nat > v.reported {
                    done as nat
                } else {
                    v.reported
                },
                ..v
            }
        },
        RenderMessage::Finished => CanvasView { finished: true, ..v },
    }
}

/// The effect of a stream of messages, received front to back.
pub open spec fn step_all(v: CanvasView, ms: Seq<RenderMessage>) -> CanvasView
    decreases ms.len(),
{
    if ms.len() == 0 {
        v
    } else {
        step_all(step(v, ms[0]), ms.subrange(1, ms.len() as int))
    }
}

/// Two messages that both place a color on the same pixel of the canvas, but
/// not the same color.
pub open spec fn conflicting(v: CanvasView, a: RenderMessage, b: RenderMessage) -> bool {
    &&& a matches RenderMessage::Pixel { x: xa, y: ya, color: ca }
    &&& b matches RenderMessage::Pixel { x: xb, y: yb, color: cb }
    &&& v.contains(xa as nat, ya as nat)
    &&& xa == xb
    &&& ya == yb
    &&& ca != cb
}

pub open spec fn swap_adjacent(ms: Seq<RenderMessage>, i: int) -> Seq<RenderMessage> {
    ms.update(i, ms[i + 1]).update(i + 1, ms[i])
}

proof fn lemma_count_filled_update(s: Seq<bool>, i: int)
    requires
        0 <= i < s.len(),
    ensures
        count_filled(s.update(i, true)) == count_filled(s) + if s[i] {
            0nat
        } else {
            1nat
        },
    decreases s.len(),
{
    let t = s.update(i, true);
    if i == s.len() - 1 {
        assert(t.drop_last() =~= s.drop_last());
    } else {
        assert(t.drop_last() =~= s.drop_last().update(i, true));
        lemma_count_filled_update(s.drop_last(), i);
    }
}

proof fn lemma_count_filled_bound(s: Seq<bool>)
    ensures
        count_filled(s) <= s.len(),
        count_filled(s) == s.len() <==> forall|i: int| 0 <= i < s.len() ==> #[trigger] s[i],
    decreases s.len(),
{
    if s.len() > 0 {
        let p = s.drop_last();
        lemma_count_filled_bound(p);
        if count_filled(s) == s.len() {
            assert forall|i: int| 0 <= i < s.len() implies #[trigger] s[i] by {
                if i < s.len() - 1 {
                    assert(p[i] == s[i]);
                }
            }
        }
        if forall|i: int| 0 <= i < s.len() ==> #[trigger] s[i] {
            assert forall|i: int| 0 <= i < p.len() implies #[trigger] p[i] by {
                assert(s[i]);
            }
            assert(s[s.len() - 1]);
        }
    }
}

proof fn lemma_count_filled_all_false(n: nat)
    ensures
        count_filled(Seq::new(n, |i: int| false)) == 0,
    decreases n,
{
    if n > 0 {
        assert(Seq::new(n, |i: int| false).drop_last() =~= Seq::new((n - 1) as nat, |i: int| false));
        lemma_count_filled_all_false((n - 1) as nat);
    }
}

proof fn lemma_cell_index_injective(width: nat, x1: nat, y1: nat, x2: nat, y2: nat)
    requires
        x1 < width,
        x2 < width,
        cell_index(width, x1, y1) == cell_index(width, x2, y2),
    ensures
        x1 == x2,
        y1 == y2,
{
    if y1 < y2 {
        assert(y1 * width + width <= y2 * width) by (nonlinear_arith)
            requires
                y1 < y2,
        ;
    } else if y2 < y1 {
        assert(y2 * width + width <= y1 * width) by (nonlinear_arith)
            requires
                y2 < y1,
        ;
    }
}

/// Every message keeps the canvas well formed.
pub proof fn lemma_step_wf(v: CanvasView, m: RenderMessage)
    requires
        v.wf(),
    ensures
        step(v, m).wf(),
        step(v, m).width == v.width,
        step(v, m).height == v.height,
{
    if let RenderMessage::Pixel { x, y, .. } = m {
        if v.contains(x as nat, y as nat) {
            lemma_cell_index_in_bounds(v.width, v.height, x as nat, y as nat);
        }
    }
}

/// Pixels that arrive out of order give the same picture: two messages
/// received one after the other can be received the other way round, with
/// the same result, unless they paint one pixel in two different colors.
pub proof fn lemma_step_commutes(v: CanvasView, a: RenderMessage, b: RenderMessage)
    requires
        v.wf(),
        !conflicting(v, a, b),
    ensures
        step(step(v, a), b) == step(step(v, b), a),
{
    if let RenderMessage::Pixel { x: xa, y: ya, color: ca } = a {
        if let RenderMessage::Pixel { x: xb, y: yb, color: cb } = b {
            if v.contains(xa as nat, ya as nat) && v.contains(xb as nat, yb as nat) {
                let ia = cell_index(v.width, xa as nat, ya as nat) as int;
                let ib = cell_index(v.width, xb as nat, yb as nat) as int;
                lemma_cell_index_in_bounds(v.width, v.height, xa as nat, ya as nat);
                lemma_cell_index_in_bounds(v.width, v.height, xb as nat, yb as nat);
                if ia == ib {
                    lemma_cell_index_injective(v.width, xa as nat, ya as nat, xb as nat, yb as nat);
                } else {
                    assert(v.cells.update(ia, ca).update(ib, cb) =~= v.cells.update(ib, cb).update(
                        ia,
                        ca,
                    ));
                    assert(v.filled.update(ia, true).update(ib, true) =~= v.filled.update(
                        ib,
                        true,
                    ).update(ia, true));
                }
            }
        }
    }
}

/// Receiving a whole stream in another order, obtained by swapping two
/// neighbouring messages that do not paint one pixel in two colors, leaves
/// the canvas in the same state.
pub proof fn lemma_step_all_swap(v: CanvasView, ms: Seq<RenderMessage>, i: int)
    requires
        v.wf(),
        0 <= i,
        i + 1 < ms.len(),
        !conflicting(v, ms[i], ms[i + 1]),
    ensures
        step_all(v, ms) == step_all(v, swap_adjacent(ms, i)),
    decreases i,
{
    let sw = swap_adjacent(ms, i);
    lemma_step_wf(v, ms[0]);
    if i == 0 {
        let a = ms[0];
        let b = ms[1];
        let rest = ms.subrange(2, ms.len() as int);
        let ms1 = ms.subrange(1, ms.len() as int);
        let sw1 = sw.subrange(1, sw.len() as int);
        lemma_step_commutes(v, a, b);
        assert(ms1.subrange(1, ms1.len() as int) =~= rest);
        assert(sw1.subrange(1, sw1.len() as int) =~= rest);
        assert(ms1[0] == b);
        assert(sw1[0] == a);
        assert(sw[0] == b);
        assert(step_all(v, ms) == step_all(step(v, a), ms1));
        assert(step_all(step(v, a), ms1) == step_all(step(step(v, a), b), rest));
        assert(step_all(v, sw) == step_all(step(v, b), sw1));
        assert(step_all(step(v, b), sw1) == step_all(step(step(v, b), a), rest));
    } else {
        let tail = ms.subrange(1, ms.len() as int);
        assert(sw.subrange(1, sw.len() as int) =~= swap_adjacent(tail, i - 1));
        assert(sw[0] == ms[0]);
        let v1 = step(v, ms[0]);
        assert(tail[i - 1] == ms[i] && tail[i] == ms[i + 1]);
        lemma_step_all_swap(v1, tail, i - 1);
    }
}

/// The presentation side of a render: receives the workers' messages and
/// places each pixel at its coordinates.
pub struct Canvas {
    image: Image,
    filled: Vec<bool>,
    placed: usize,
    reported: u64,
    finished: bool,
}

impl View for Canvas {
    type V = CanvasView;

    closed spec fn view(&self) -> CanvasView {
        CanvasView {
            width: self.image.spec_width(),
            height: self.image.spec_height(),
            cells: self.image.cells(),
            filled: self.filled@,
            reported: self.reported as nat,
            finished: self.finished,
        }
    }
}

impl Canvas {
    pub closed spec fn wf(&self) -> bool {
        &&& self.image.wf()
        &&& self@.wf()
        &&& self.placed == count_filled(self.filled@)
    }

    /// An empty `width` by `height` canvas: all black, nothing received.
    pub fn new(width: u32, height: u32) -> (c: Canvas)
        requires
            width as nat * height as nat <= usize::MAX,
        ensures
            c.wf(),
            c@.width == width,
            c@.height == height,
            c@.cells == Seq::new(width as nat * height as nat, |i: int| Rgb::black()),
            c@.filled == Seq::new(width as nat * height as nat, |i: int| false),
            c@.reported == 0,
            !c@.finished,
    {
        let image = Image::new(width, height);
        let total: usize = (width as usize) * (height as usize);
        let mut filled: Vec<bool> = Vec::with_capacity(total);
        let mut i: usize = 0;
        while i < total
            invariant
                i <= total,
                filled@ == Seq::new(i as nat, |k: int| false),
            decreases total - i,
        {
            filled.push(false);
            i = i + 1;
            assert(filled@ =~= Seq::new(i as nat, |k: int| false));
        }
        proof {
            lemma_count_filled_all_false(total as nat);
        }
        Canvas { image, filled, placed: 0, reported: 0, finished: false }
    }

    /// Takes one message. Returns whether a pixel was placed.
    pub fn apply(&mut self, m: RenderMessage) -> (placed: bool)
        requires
            old(self).wf(),
        ensures
            final(self).wf(),
            final(self)@ == step(old(self)@, m),
            placed == (m matches RenderMessage::Pixel { x, y, .. } && old(self)@.contains(
                x as nat,
                y as nat,
            )),
    {
        match m {
            RenderMessage::Pixel { x, y, color } => {
                if x < self.image.width() && y < self.image.height() {
                    let n: usize = self.filled.len();
                    let ghost idx = cell_index(self.image.spec_width(), x as nat, y as nat) as int;
                    proof {
                        lemma_cell_index_in_bounds(
                            self.image.spec_width(),
                            self.image.spec_height(),
                            x as nat,
                            y as nat,
                        );
                        lemma_count_filled_update(self.filled@, idx);
                        lemma_count_filled_bound(self.filled@.update(idx, true));
                    }
                    self.image.set(x, y, color);
                    let i: usize = (y as usize) * (self.image.width() as usize) + (x as usize);
                    if !self.filled[i] {
                        self.filled.set(i, true);
                        self.placed = self.placed + 1;
                    } else {
                        assert(self.filled@.update(idx, true) =~= self.filled@);
                    }
                    true
                } else {
                    false
                }
            },
            RenderMessage::Progress { done } => {
                if done > self.reported {
                    self.reported = done;
                }
                false
            },
            RenderMessage::Finished => {
                self.finished = true;
                false
            },
        }
    }

    /// The picture so far.
    pub fn image(&self) -> (img: &Image)
        requires
            self.wf(),
        ensures
            img.wf(),
            img.spec_width() == self@.width,
            img.spec_height() == self@.height,
            img.cells() == self@.cells,
    {
        &self.image
    }

    /// Number of distinct pixels received so far.
    pub fn placed(&self) -> (n: usize)
        requires
            self.wf(),
        ensures
            n == count_filled(self@.filled),
            n <= self@.width * self@.height,
    {
        proof {
            lemma_count_filled_bound(self.filled@);
        }
        self.placed
    }

    /// Number of pixels in the picture.
    pub fn total(&self) -> (n: usize)
        requires
            self.wf(),
        ensures
            n == self@.width * self@.height,
    {
        self.filled.len()
    }

    /// Whether every pixel has been received.
    pub fn is_complete(&self) -> (b: bool)
        requires
            self.wf(),
        ensures
            b == forall|i: int| 0 <= i < self@.filled.len() ==> #[trigger] self@.filled[i],
    {
        proof {
            lemma_count_filled_bound(self.filled@);
        }
        self.placed == self.filled.len()
    }

    /// The highest progress count reported so far.
    pub fn reported(&self) -> (n: u64)
        ensures
            n == self@.reported,
    {
        self.reported
    }

    /// Whether the workers said they are done.
    pub fn finished(&self) -> (b: bool)
        ensures
            b == self@.finished,
    {
        self.finished
    }
}

} // verus!
