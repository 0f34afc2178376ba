//! Layout of the amplifier head in its 920x340 logical design space, and the
//! grain of its vinyl.

use vstd::prelude::*;

use crate::gui::{WINDOW_HEIGHT, WINDOW_WIDTH};

verus! {

/// A rectangle in the faceplate's logical design space.
#[derive(Debug, Clone, Copy, PartialEq, Eq, Structural)]
pub struct Plate {
    /// Left edge, in logical pixels.
    pub x: i32,
    /// Top edge, in logical pixels.
    pub y: i32,
    /// Width, in logical pixels.
    pub w: i32,
    /// Height, in logical pixels.
    pub h: i32,
}

/// Corner radius of the tolex-covered box, in logical pixels.
pub const CHASSIS_RADIUS: i32 = 13;

/// Side of the moulded corner protectors, in logical pixels.
pub const CORNER_SIZE: i32 = 52;

/// Corner radius of the panel aperture.
pub const PANEL_RADIUS: i32 = 24;

/// Width of the chrome trim around that aperture.
pub const CHROME_WIDTH: i32 = 5;

/// Corner radius of the control bar and its cells.
pub const BAR_RADIUS: i32 = 4;

/// Width of the black outline drawn around the bar and between its cells.
pub const BAR_INK_WIDTH: i32 = 3;

impl Plate {
    /// Whether every edge fits its type.
    pub open spec fn in_range(&self) -> bool {
        i32::MIN <= self.x + self.w <= i32::MAX && i32::MIN <= self.y + self.h <= i32::MAX
    }

    /// Whether a point lies on the plate.
    pub open spec fn covers(&self, x: int, y: int) -> bool {
        self.x <= x < self.x + self.w && self.y <= y < self.y + self.h
    }

    /// Builds a plate from its logical-space edges and size.
    pub fn new(x: i32, y: i32, w: i32, h: i32) -> (plate: Self)
        ensures
            plate == (Plate { x, y, w, h }),
    {
        Plate { x, y, w, h }
    }

    /// Right edge, in logical pixels.
    pub fn right(&self) -> (edge: i32)
        requires
            self.in_range(),
        ensures
            edge == self.x + self.w,
    {
        self.x + self.w
    }

    /// Bottom edge, in logical pixels.
    pub fn bottom(&self) -> (edge: i32)
        requires
            self.in_range(),
        ensures
            edge == self.y + self.h,
    {
        self.y + self.h
    }

    /// Whether `self` lies entirely inside `outer`.
    pub fn inside(&self, outer: &Plate) -> (yes: bool)
        requires
            self.in_range(),
            outer.in_range(),
        ensures
            yes == lies_inside(*self, *outer),
            self.w > 0 && self.h > 0 ==> yes == (outer.covers(self.x as int, self.y as int)
                && outer.covers(self.x + self.w - 1, self.y + self.h - 1)),
    {
        self.x >= outer.x && self.y >= outer.y && self.right() <= outer.right() && self.bottom()
            <= outer.bottom()
    }

    /// Whether two plates share any area.
    pub fn overlaps(&self, other: &Plate) -> (yes: bool)
        requires
            self.in_range(),
            other.in_range(),
        ensures
            yes == share_area(*self, *other),
    {
        self.x < other.right() && other.x < self.right() && self.y < other.bottom() && other.y
            < self.bottom()
    }
}

/// Whether `inner` lies entirely inside `outer`.
pub open spec fn lies_inside(inner: Plate, outer: Plate) -> bool {
    &&& inner.x >= outer.x
    &&& inner.y >= outer.y
    &&& inner.x + inner.w <= outer.x + outer.w
    &&& inner.y + inner.h <= outer.y + outer.h
}

/// Whether the edges of two plates cross.
pub open spec fn share_area(a: Plate, b: Plate) -> bool {
    a.x < b.x + b.w && b.x < a.x + a.w && a.y < b.y + b.h && b.y < a.y + a.h
}

/// A plate inside another covers nothing the other does not.
pub proof fn law_inside_means_covered(inner: Plate, outer: Plate, x: int, y: int)
    requires
        lies_inside(inner, outer),
        inner.covers(x, y),
    ensures
        outer.covers(x, y),
{
}

/// A plate whose every point lies on another is inside it.
pub proof fn law_covered_means_inside(inner: Plate, outer: Plate)
    requires
        inner.w > 0,
        inner.h > 0,
        forall|x: int, y: int| #[trigger] inner.covers(x, y) ==> outer.covers(x, y),
    ensures
        lies_inside(inner, outer),
{
    assert(inner.covers(inner.x as int, inner.y as int));
    assert(inner.covers(inner.x + inner.w - 1, inner.y + inner.h - 1));
}

/// Two plates share area exactly if some point lies on both.
pub proof fn law_overlap_means_a_common_point(a: Plate, b: Plate)
    requires
        a.w > 0,
        a.h > 0,
        b.w > 0,
        b.h > 0,
    ensures
        share_area(a, b) <==> exists|x: int, y: int| a.covers(x, y) && #[trigger] b.covers(x, y),
{
    if share_area(a, b) {
        let x = if a.x < b.x {
            b.x as int
        } else {
            a.x as int
        };
        let y = if a.y < b.y {
            b.y as int
        } else {
            a.y as int
        };
        assert(a.covers(x, y) && b.covers(x, y));
    }
}

/// The whole chassis.
pub fn chassis() -> (plate: Plate)
    ensures
        plate == (Plate { x: 0, y: 0, w: WINDOW_WIDTH as i32, h: WINDOW_HEIGHT as i32 }),
{
    Plate::new(0, 0, WINDOW_WIDTH as i32, WINDOW_HEIGHT as i32)
}

/// The chrome-framed aperture and the white control panel inside it.
pub fn panel() -> (plate: Plate)
    ensures
        plate == (Plate { x: 46, y: 58, w: 828, h: 220 }),
{
    Plate::new(46, 58, 828, 220)
}

/// Header strip carrying the wordmark, the model plate and the badge.
pub fn header() -> (plate: Plate)
    ensures
        plate == (Plate { x: 70, y: 72, w: 780, h: 44 }),
{
    Plate::new(70, 72, 780, 44)
}

/// The black-outlined control bar.
pub fn bar() -> (plate: Plate)
    ensures
        plate == bar_plate(),
        plate == (Plate { x: 64, y: 130, w: 792, h: 130 }),
{
    Plate::new(64, 130, 792, 130)
}

/// The control bar.
pub open spec fn bar_plate() -> Plate {
    Plate { x: 64, y: 130, w: 792, h: 130 }
}

/// The three cells of the control bar, from left to right.
#[derive(Debug, Clone, Copy, PartialEq, Eq, Structural)]
pub enum Cell {
    /// The pilot jewel and the six switches, on panel white.
    Switches,
    /// The clean channel's three controls, on orange.
    Clean,
    /// The dirty channel's five controls, on orange.
    Dirty,
}

/// Where a cell is.
pub open spec fn cell_plate(cell: Cell) -> Plate {
    match cell {
        Cell::Switches => Plate { x: 64, y: 130, w: 232, h: 130 },
        Cell::Clean => Plate { x: 296, y: 130, w: 216, h: 130 },
        Cell::Dirty => Plate { x: 512, y: 130, w: 344, h: 130 },
    }
}

impl Cell {
    /// Where the cell is.
    pub fn plate(self) -> (plate: Plate)
        ensures
            plate == cell_plate(self),
            self == Cell::Switches ==> plate == (Plate { x: 64, y: 130, w: 232, h: 130 }),
            self == Cell::Clean ==> plate == (Plate { x: 296, y: 130, w: 216, h: 130 }),
            self == Cell::Dirty ==> plate == (Plate { x: 512, y: 130, w: 344, h: 130 }),
    {
        match self {
            Cell::Switches => Plate::new(64, 130, 232, 130),
            Cell::Clean => Plate::new(296, 130, 216, 130),
            Cell::Dirty => Plate::new(512, 130, 344, 130),
        }
    }
}

/// The cells tile the bar: every point of it lies on exactly one of them, and
/// no cell reaches beyond it.
pub proof fn law_the_cells_tile_the_bar(x: int, y: int, a: Cell, b: Cell)
    ensures
        bar_plate().covers(x, y) <==> cell_plate(Cell::Switches).covers(x, y) || cell_plate(
            Cell::Clean,
        ).covers(x, y) || cell_plate(Cell::Dirty).covers(x, y),
        cell_plate(a).covers(x, y) && cell_plate(b).covers(x, y) ==> a == b,
{
}

// ---------------------------------------------------------------------------
// Grain
// ---------------------------------------------------------------------------

/// Speckles in the tolex grain.
pub const GRAIN_SPECKLES: usize = 5200;

/// Seed of the grain generator. Fixed so the texture is identical on every
/// redraw and every instance.
pub const GRAIN_SEED: u32 = 0x9E37_79B9;

/// A draw of the generator is this many times larger than the fraction it
/// stands for.
pub const GRAIN_SCALE: u32 = 0x100_0000;

/// The state after `draws` draws: a linear congruential generator.
pub open spec fn grain_state(draws: nat) -> u32
    decreases draws,
{
    if draws == 0 {
        GRAIN_SEED
    } else {
        ((grain_state((draws - 1) as nat) * 1_664_525 + 1_013_904_223) % 0x1_0000_0000) as u32
    }
}

/// Each state of the generator follows from the one before, and the first is the
/// seed.
pub proof fn law_the_grain_follows_its_seed(draws: nat)
    ensures
        grain_state(0) == 0x9E37_79B9,
        grain_state(draws + 1) == (grain_state(draws) * 1_664_525 + 1_013_904_223) % 0x1_0000_0000,
{
}

/// Fixed-seed generator of the vinyl grain.
pub struct Grain {
    state: u32,
    drawn: Ghost<nat>,
}

impl Grain {
    /// Numbers drawn so far.
    pub closed spec fn draws(&self) -> nat {
        self.drawn@
    }

    /// What every operation keeps.
    pub closed spec fn well_formed(&self) -> bool {
        self.state == grain_state(self.drawn@)
    }

    /// A generator at its seed.
    pub fn new() -> (grain: Self)
        ensures
            grain.well_formed(),
            grain.draws() == 0,
    {
        Grain { state: GRAIN_SEED, drawn: Ghost(0) }
    }

    /// Draws the next number: the upper 24 bits of the state, a fraction of
    /// [`GRAIN_SCALE`].
    pub fn draw(&mut self) -> (fraction: u32)
        requires
            old(self).well_formed(),
        ensures
            final(self).well_formed(),
            final(self).draws() == old(self).draws() + 1,
            fraction == grain_state(old(self).draws() + 1) / 0x100,
            fraction < GRAIN_SCALE,
    {
        let product: u64 = self.state as u64 * 1_664_525 + 1_013_904_223;
        self.state = (product % 0x1_0000_0000) as u32;
        self.drawn = Ghost(self.drawn@ + 1);
        self.state / 0x100
    }
}

impl Default for Grain {
    /// A generator at its seed.
    fn default() -> (grain: Self)
        ensures
            grain.well_formed(),
            grain.draws() == 0,
    {
        Grain::new()
    }
}

} // verus!
