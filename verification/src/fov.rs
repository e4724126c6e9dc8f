//! Field of view as plain data: a visibility grid the presentation layer
//! computes (or the simple radius fallback below) and the game rules read.

use vstd::prelude::*;

use crate::game::grid_wf;
use crate::game::Game;
use crate::game::Tile;
use crate::objects::spec_dist_sq;

verus! {

/// Which cells the player currently sees.
pub struct Fov {
    pub visible: Vec<Vec<bool>>,
}

impl Fov {
    /// A cell is visible: on the grid, with its flag set.
    pub open spec fn spec_vis(&self, x: int, y: int) -> bool {
        &&& 0 <= x < self.visible@.len()
        &&& 0 <= y < self.visible@[x]@.len()
        &&& self.visible@[x]@[y]
    }

    pub fn is_in_fov(&self, x: i32, y: i32) -> (b: bool)
        ensures
            b == self.spec_vis(x as int, y as int),
    {
        if x < 0 || y < 0 {
            return false;
        }
        let xu = x as usize;
        let yu = y as usize;
        if xu >= self.visible.len() {
            return false;
        }
        if yu >= self.visible[xu].len() {
            return false;
        }
        self.visible[xu][yu]
    }

    /// A simple field of view: everything within `radius` of `(px, py)`
    /// is visible, walls notwithstanding.
    pub fn within_radius(w: i32, h: i32, px: i32, py: i32, radius: i32) -> (fov: Fov)
        requires
            0 <= w <= 10000,
            0 <= h <= 10000,
            0 <= radius,
        ensures
            fov.visible@.len() == w,
            forall|x: int| 0 <= x < w ==> (#[trigger] fov.visible@[x])@.len() == h,
            forall|x: int, y: int|
                0 <= x < w && 0 <= y < h ==> (#[trigger] fov.visible@[x]@[y]) == (spec_dist_sq(
                    px as int,
                    py as int,
                    x,
                    y,
                ) <= radius * radius),
    {
        let mut visible: Vec<Vec<bool>> = Vec::new();
        let mut x: i32 = 0;
        while x < w
            invariant
                0 <= x <= w,
                0 <= w <= 10000,
                0 <= h <= 10000,
                0 <= radius,
                visible@.len() == x,
                forall|i: int| 0 <= i < x ==> (#[trigger] visible@[i])@.len() == h,
                forall|i: int, j: int|
                    0 <= i < x && 0 <= j < h ==> (#[trigger] visible@[i]@[j]) == (spec_dist_sq(
                        px as int,
                        py as int,
                        i,
                        j,
                    ) <= radius * radius),
            decreases w - x,
        {
            let mut col: Vec<bool> = Vec::new();
            let mut y: i32 = 0;
            while y < h
                invariant
                    0 <= y <= h,
                    0 <= h <= 10000,
                    0 <= radius,
                    col@.len() == y,
                    forall|j: int|
                        0 <= j < y ==> (#[trigger] col@[j]) == (spec_dist_sq(
                            px as int,
                            py as int,
                            x as int,
                            j,
                        ) <= radius * radius),
                decreases h - y,
            {
                let dx: i64 = x as i64 - px as i64;
                let dy: i64 = y as i64 - py as i64;
                proof {
                    assert(0 <= dx * dx <= 0x10000000000000000 && 0 <= dy * dy
                        <= 0x10000000000000000) by (nonlinear_arith)
                        requires
                            -0x100000000 <= dx <= 0x100000000,
                            -0x100000000 <= dy <= 0x100000000,
                    ;
                    assert(0 <= (radius as int) * (radius as int) <= 0x4000000000000000)
                        by (nonlinear_arith)
                        requires
                            0 <= radius <= 0x80000000,
                    ;
                }
                let d2: i128 = (dx as i128) * (dx as i128) + (dy as i128) * (dy as i128);
                let r2: i128 = (radius as i128) * (radius as i128);
                col.push(d2 <= r2);
                y = y + 1;
            }
            let ghost prev = visible@;
            visible.push(col);
            proof {
                assert(forall|i: int| 0 <= i < x ==> visible@[i] == prev[i]);
            }
            x = x + 1;
        }
        Fov { visible }
    }
}

/// Mark every currently visible tile as explored; the renderer calls
/// this as it draws the map.
pub fn update_explored(game: &mut Game, fov: &Fov)
    requires
        old(game).wf(),
    ensures
        final(game).wf(),
        *final(game) == (Game { map: final(game).map, ..*old(game) }),
        final(game).map@.len() == old(game).map@.len(),
        forall|x: int, y: int|
            0 <= x < old(game).map@.len() && 0 <= y < (#[trigger] old(game).map@[x])@.len() ==> (
            #[trigger] final(game).map@[x]@[y]) == (Tile {
                explored: old(game).map@[x]@[y].explored || fov.spec_vis(x, y),
                ..old(game).map@[x]@[y]
            }),
{
    let w = game.game_settings.map_w;
    let h = game.game_settings.map_h;
    let ghost map0 = game.map@;
    let mut x: i32 = 0;
    while x < w
        invariant
            0 <= x <= w,
            map0 == old(game).map@,
            w == game.game_settings.map_w,
            h == game.game_settings.map_h,
            *game == (Game { map: game.map, ..*old(game) }),
            old(game).wf(),
            grid_wf(map0, w as int, h as int),
            grid_wf(game.map@, w as int, h as int),
            forall|i: int, j: int|
                0 <= i < w && 0 <= j < h ==> (#[trigger] game.map@[i]@[j]) == (if i < x {
                    Tile { explored: map0[i]@[j].explored || fov.spec_vis(i, j), ..map0[i]@[j] }
                } else {
                    map0[i]@[j]
                }),
        decreases w - x,
    {
        let mut col: Vec<Tile> = Vec::new();
        game.map.set_and_swap(x as usize, &mut col);
        let ghost col0 = col@;
        let mut y: i32 = 0;
        while y < h
            invariant
                0 <= y <= h,
                0 <= x < w,
                col@.len() == col0.len() == h,
                forall|j: int|
                    0 <= j < h ==> (#[trigger] col@[j]) == (if j < y {
                        Tile { explored: col0[j].explored || fov.spec_vis(x as int, j), ..col0[j] }
                    } else {
                        col0[j]
                    }),
            decreases h - y,
        {
            let t = col[y as usize];
            let vis = fov.is_in_fov(x, y);
            col.set(y as usize, Tile { explored: t.explored || vis, ..t });
            y = y + 1;
        }
        game.map.set_and_swap(x as usize, &mut col);
        x = x + 1;
    }
}

} // verus!
