//! The picture on the first page: four overlapping blocks.

use crate::tui::rounding::{round_to, rounded};
use vstd::prelude::*;

verus! {

/// The most columns or rows of a terminal.
pub const MAX_SIDE: usize = 65_535;

/// The shade of a cell of the picture.
#[derive(Debug, Clone, Copy, PartialEq, Eq, Structural)]
pub enum Shade {
    Blank,
    Dark,
    Light,
}

/// A block: its left column, its width and height, and its shade. It begins in the top row.
#[derive(Debug, Clone, Copy, PartialEq, Eq, Structural)]
pub struct SplashBlock {
    pub left: usize,
    pub width: usize,
    pub height: usize,
    pub light: bool,
}

/// The unit of the shares: a share of one is this number.
pub const WHOLE: u64 = 268_435_456;

/// Shares of a side are rounded to 24 binary digits before they become a whole number.
pub const SHARE_LIMIT: u64 = 16_777_216;

/// 0.06, to 24 binary digits.
pub const SHARE_06: u64 = 16_106_127;

/// 0.18, to 24 binary digits.
pub const SHARE_18: u64 = 48_318_384;

/// 0.34, to 24 binary digits.
pub const SHARE_34: u64 = 91_268_056;

/// 0.46, to 24 binary digits.
pub const SHARE_46: u64 = 123_480_312;

/// 0.52, to 24 binary digits.
pub const SHARE_52: u64 = 139_586_432;

/// 0.54, to 24 binary digits.
pub const SHARE_54: u64 = 144_955_152;

/// 0.68, to 24 binary digits.
pub const SHARE_68: u64 = 182_536_112;

/// 0.82, to 24 binary digits.
pub const SHARE_82: u64 = 220_117_072;

/// 0.86, to 24 binary digits.
pub const SHARE_86: u64 = 230_854_496;

/// 0.94, to 24 binary digits.
pub const SHARE_94: u64 = 252_329_328;

/// A share of a side, rounded down.
pub open spec fn share_down(side: int, share: u64) -> int {
    rounded((side * share) as nat, SHARE_LIMIT as nat) as int / WHOLE as int
}

/// A share of a side, rounded up.
pub open spec fn share_up(side: int, share: u64) -> int {
    (rounded((side * share) as nat, SHARE_LIMIT as nat) as int + WHOLE - 1) / WHOLE as int
}

/// The four blocks, from the back to the front.
pub open spec fn splash_blocks(width: int, height: int) -> Seq<SplashBlock> {
    seq![
        SplashBlock {
            left: 0,
            width: width as usize,
            height: share_up(height, SHARE_34) as usize,
            light: false,
        },
        SplashBlock {
            left: share_down(width, SHARE_18) as usize,
            width: share_up(width, SHARE_82) as usize,
            height: share_up(height, SHARE_52) as usize,
            light: true,
        },
        SplashBlock {
            left: share_down(width, SHARE_46) as usize,
            width: share_up(width, SHARE_54) as usize,
            height: share_up(height, SHARE_68) as usize,
            light: false,
        },
        SplashBlock {
            left: share_down(width, SHARE_94) as usize,
            width: if share_up(width, SHARE_06) < 1 {
                1
            } else {
                share_up(width, SHARE_06) as usize
            },
            height: share_up(height, SHARE_86) as usize,
            light: true,
        },
    ]
}

impl SplashBlock {
    /// Whether a cell lies in the block.
    pub open spec fn holds(self, col: int, row: int) -> bool {
        self.left <= col < self.left + self.width && row < self.height
    }

    /// Whether a cell of the block lies on its edge.
    pub open spec fn on_edge(self, col: int, row: int) -> bool {
        col == self.left || col + 1 == self.left + self.width || row == 0 || row + 1 == self.height
    }

    /// The shade of a cell of the block: its edge is dark.
    pub open spec fn shade(self, col: int, row: int) -> Shade {
        if self.light && !self.on_edge(col, row) {
            Shade::Light
        } else {
            Shade::Dark
        }
    }

    /// The shade of a cell, where it lies in the block.
    fn shade_of(&self, col: usize, row: usize) -> (out: Option<Shade>)
        requires
            self.left <= 2 * MAX_SIDE + 1,
            self.width <= 2 * MAX_SIDE + 1,
            col <= MAX_SIDE,
            row <= MAX_SIDE,
        ensures
            out == (if self.holds(col as int, row as int) {
                Some(self.shade(col as int, row as int))
            } else {
                None
            }),
    {
        if col < self.left || self.left + self.width <= col || self.height <= row {
            return None;
        }
        let edge = col == self.left || col + 1 == self.left + self.width || row == 0 || row + 1
            == self.height;
        if self.light && !edge {
            Some(Shade::Light)
        } else {
            Some(Shade::Dark)
        }
    }
}

/// The shade of a cell under the first `n` blocks: that of the front one of those that hold it.
pub open spec fn covered(blocks: Seq<SplashBlock>, n: int, col: int, row: int) -> Shade
    decreases n,
{
    if n <= 0 {
        Shade::Blank
    } else if blocks[n - 1].holds(col, row) {
        blocks[n - 1].shade(col, row)
    } else {
        covered(blocks, n - 1, col, row)
    }
}

/// The shade of a cell of the picture. The last row is blank.
pub open spec fn splash_shade(width: int, height: int, col: int, row: int) -> Shade {
    if row + 1 >= height {
        Shade::Blank
    } else {
        covered(splash_blocks(width, height), 4, col, row)
    }
}

/// A share of a side, rounded down.
fn part_down(side: usize, share: u64) -> (out: usize)
    requires
        side <= MAX_SIDE,
        share <= WHOLE,
    ensures
        out == share_down(side as int, share),
        out <= 2 * MAX_SIDE + 1,
{
    assert(side * share <= 65_535 * 268_435_456) by (nonlinear_arith)
        requires
            0 <= side <= 65_535,
            0 <= share <= 268_435_456,
    ;
    let product: u128 = round_to(side as u64 * share, SHARE_LIMIT);
    (product / WHOLE as u128) as usize
}

/// A share of a side, rounded up.
fn part_up(side: usize, share: u64) -> (out: usize)
    requires
        side <= MAX_SIDE,
        share <= WHOLE,
    ensures
        out == share_up(side as int, share),
        out <= 2 * MAX_SIDE + 1,
{
    assert(side * share <= 65_535 * 268_435_456) by (nonlinear_arith)
        requires
            0 <= side <= 65_535,
            0 <= share <= 268_435_456,
    ;
    let product: u128 = round_to(side as u64 * share, SHARE_LIMIT);
    ((product + WHOLE as u128 - 1) / WHOLE as u128) as usize
}

/// The shade of a cell of the picture.
pub fn splash_motif_cell(width: usize, height: usize, col: usize, row: usize) -> (out: Shade)
    requires
        width <= MAX_SIDE,
        height <= MAX_SIDE,
        col <= MAX_SIDE,
        row <= MAX_SIDE,
    ensures
        out == splash_shade(width as int, height as int, col as int, row as int),
{
    if row + 1 >= height {
        return Shade::Blank;
    }
    let strip: usize = part_up(width, SHARE_06);
    let front = SplashBlock {
        left: part_down(width, SHARE_94),
        width: if strip < 1 { 1 } else { strip },
        height: part_up(height, SHARE_86),
        light: true,
    };
    let third = SplashBlock {
        left: part_down(width, SHARE_46),
        width: part_up(width, SHARE_54),
        height: part_up(height, SHARE_68),
        light: false,
    };
    let second = SplashBlock {
        left: part_down(width, SHARE_18),
        width: part_up(width, SHARE_82),
        height: part_up(height, SHARE_52),
        light: true,
    };
    let back = SplashBlock { left: 0, width, height: part_up(height, SHARE_34), light: false };
    proof {
        reveal_with_fuel(covered, 5);
        let blocks = splash_blocks(width as int, height as int);
        assert(blocks[3] == front && blocks[2] == third && blocks[1] == second && blocks[0]
            == back);
    }
    match front.shade_of(col, row) {
        Some(shade) => shade,
        None => match third.shade_of(col, row) {
            Some(shade) => shade,
            None => match second.shade_of(col, row) {
                Some(shade) => shade,
                None => match back.shade_of(col, row) {
                    Some(shade) => shade,
                    None => Shade::Blank,
                },
            },
        },
    }
}

} // verus!
