//! # Frontends
//! What the ways to present the Game of Life compute: the pixels and the delay
//! of a GIF frame, the text of the terminal view, how long to wait between
//! generations, and the size of the field.
use vstd::prelude::*;
use vstd::string::StringExecFns;

use crate::game_of_life;
use crate::gameoflife::GameOfLife;

verus! {

pub enum Presentations {
    Gif,
    Tui,
}

impl Presentations {
    /// The name shown to the user.
    pub fn name(&self) -> (s: &'static str)
        ensures
            s@ == (match self {
                Presentations::Gif => "GIF"@,
                Presentations::Tui => "TUI"@,
            }),
    {
        match self {
            Presentations::Gif => "GIF",
            Presentations::Tui => "TUI",
        }
    }
}

/// The brightness of a cell in a GIF frame: 255 for a living cell, in
/// proportion `cell / state` below, rounded down, at most 255; with a living
/// state of 0, a cell of state 0 is black and any other white.
pub open spec fn intensity(cell: u8, state: u8) -> u8 {
    if state == 0 {
        if cell == 0 {
            0
        } else {
            255
        }
    } else if (255 * cell) / (state as int) >= 255 {
        255
    } else {
        ((255 * cell) / (state as int)) as u8
    }
}

/// The brightness of a cell in a GIF frame.
pub fn pixel_intensity(cell: u8, state: u8) -> (v: u8)
    ensures
        v == intensity(cell, state),
{
    if state == 0 {
        if cell == 0 {
            0
        } else {
            255
        }
    } else {
        let scaled: u32 = 255u32 * (cell as u32) / (state as u32);
        if scaled >= 255 {
            255
        } else {
            scaled as u8
        }
    }
}

/// Position of the first colour channel of the pixel `(x, y)` in an RGB frame
/// of `numx` columns, rows one after the other.
pub open spec fn pixel_index(numx: int, x: int, y: int) -> int {
    3 * (y * numx + x)
}

proof fn lemma_pixel_order(numx: int, numy: int, x1: int, y1: int, x2: int, y2: int)
    requires
        0 <= x1 < numx,
        0 <= x2 <= numx,
        0 <= y1,
        0 <= y2,
        y1 < y2 || (y1 == y2 && x1 < x2),
    ensures
        y1 * numx + x1 < y2 * numx + x2,
{
    if y1 < y2 {
        assert(y1 * numx + numx <= y2 * numx) by (nonlinear_arith)
            requires
                y1 < y2,
                0 <= numx,
        ;
    }
}

/// The RGB pixels of a GIF frame of the field: the rows of the field one after
/// the other, every channel of the pixel `(x, y)` holding the cell's brightness.
pub fn gif_frame_pixels<G: GameOfLife>(gol: &G) -> (pixels: Vec<u8>)
    requires
        gol.inv(),
        3 * gol.spec_numx() * gol.spec_numy() <= usize::MAX,
    ensures
        pixels@.len() == 3 * gol.spec_numx() * gol.spec_numy(),
        forall|x: int, y: int, c: int|
            0 <= x < gol.spec_numx() && 0 <= y < gol.spec_numy() && 0 <= c < 3 ==> #[trigger] pixels@[pixel_index(
                gol.spec_numx() as int,
                x,
                y,
            ) + c] == intensity(gol.field()[x][y], gol.rule().spec_state()),
{
    let numx = gol.numx();
    let numy = gol.numy();
    let state = gol.state();
    let mut pixels: Vec<u8> = Vec::new();
    let mut y: usize = 0;
    while y < numy
        invariant
            gol.inv(),
            numx == gol.spec_numx(),
            numy == gol.spec_numy(),
            state == gol.rule().spec_state(),
            3 * numx * numy <= usize::MAX,
            y <= numy,
            pixels@.len() == 3 * (y * numx),
            forall|a: int, b: int, c: int|
                0 <= a < numx && 0 <= b < y && 0 <= c < 3 ==> #[trigger] pixels@[pixel_index(
                    numx as int,
                    a,
                    b,
                ) + c] == intensity(gol.field()[a][b], state),
        decreases numy - y,
    {
        let mut x: usize = 0;
        while x < numx
            invariant
                gol.inv(),
                numx == gol.spec_numx(),
                numy == gol.spec_numy(),
                state == gol.rule().spec_state(),
                3 * numx * numy <= usize::MAX,
                y < numy,
                x <= numx,
                pixels@.len() == 3 * (y * numx + x),
                forall|a: int, b: int, c: int|
                    0 <= a < numx && 0 <= b <= y && (b < y || a < x) && 0 <= c < 3 ==> #[trigger] pixels@[pixel_index(
                        numx as int,
                        a,
                        b,
                    ) + c] == intensity(gol.field()[a][b], state),
            decreases numx - x,
        {
            proof {
                lemma_pixel_order(numx as int, numy as int, x as int, y as int, 0, numy as int);
                assert(3 * (numy * numx) == 3 * numx * numy) by (nonlinear_arith);
            }
            let v = match gol.cell(x, y) {
                Some(cell) => pixel_intensity(cell, state),
                None => 0,
            };
            let ghost before = pixels@;
            pixels.push(v);
            pixels.push(v);
            pixels.push(v);
            proof {
                assert forall|a: int, b: int, c: int|
                    0 <= a < numx && 0 <= b <= y && (b < y || a < x + 1) && 0 <= c < 3 implies #[trigger] pixels@[pixel_index(
                    numx as int,
                    a,
                    b,
                ) + c] == intensity(gol.field()[a][b], state) by {
                    if b < y || a < x {
                        lemma_pixel_order(numx as int, numy as int, a, b, x as int, y as int);
                        assert(pixels@[pixel_index(numx as int, a, b) + c] == before[pixel_index(
                            numx as int,
                            a,
                            b,
                        ) + c]);
                    }
                }
            }
            x = x + 1;
        }
        proof {
            assert(y * numx + numx == (y + 1) * numx) by (nonlinear_arith);
        }
        y = y + 1;
    }
    proof {
        assert(numy * numx == numx * numy) by (nonlinear_arith);
        assert(3 * (numy * numx) == 3 * numx * numy) by (nonlinear_arith);
    }
    pixels
}

/// The delay of a GIF frame, in hundredths of a second, for the time per
/// iteration in milliseconds: the milliseconds divided by 10, at most the
/// largest delay a GIF frame holds.
pub fn gif_frame_delay(millis: u128) -> (delay: u16)
    ensures
        delay == (if millis / 10 <= u16::MAX {
            (millis / 10) as int
        } else {
            u16::MAX as int
        }),
{
    let hundredths = millis / 10;
    if hundredths <= u16::MAX as u128 {
        hundredths as u16
    } else {
        u16::MAX
    }
}

/// How the terminal view waits between two generations: it looks for a key
/// press `checks` times, sleeping 200 ms after each look but the last, and the
/// rest of the time (`remaining` ms) after the last. It looks at least once.
pub fn polling_plan(millis: u128) -> (plan: (u128, u128))
    ensures
        plan.0 == millis / 200 + 1,
        plan.1 == millis % 200,
        (plan.0 - 1) * 200 + plan.1 == millis,
{
    let polling_time: u128 = 200;
    let sleep_how_often = millis / polling_time;
    let remaining_sleep = millis - sleep_how_often * polling_time;
    (sleep_how_often + 1, remaining_sleep)
}

/// The sleep, in milliseconds, after the key check number `check` (counted
/// from 0) of `checks`.
pub open spec fn sleep_after(check: int, checks: int, remaining: int) -> int {
    if check + 1 < checks {
        200
    } else {
        remaining
    }
}

/// How long the terminal view sleeps after its key check number `check`
/// (counted from 0) of `checks`: 200 ms after each check but the last, the
/// remaining time after the last.
pub fn sleep_after_check(check: u128, checks: u128, remaining: u128) -> (millis: u128)
    ensures
        millis == sleep_after(check as int, checks as int, remaining as int),
{
    if checks > 0 && check < checks - 1 {
        200
    } else {
        remaining
    }
}

/// The sleeps after the first `k` key checks, added up.
pub open spec fn total_sleep(k: nat, checks: int, remaining: int) -> int
    decreases k,
{
    if k == 0 {
        0
    } else {
        total_sleep((k - 1) as nat, checks, remaining) + sleep_after(k - 1, checks, remaining)
    }
}

proof fn lemma_total_sleep_prefix(k: nat, checks: int, remaining: int)
    requires
        k < checks,
    ensures
        total_sleep(k, checks, remaining) == 200 * k,
    decreases k,
{
    if k > 0 {
        lemma_total_sleep_prefix((k - 1) as nat, checks, remaining);
    }
}

/// Over one generation the terminal view sleeps exactly the time per
/// iteration, whatever the plan's split into key checks.
pub proof fn lemma_polling_plan_sleeps_time_per_iteration(millis: u128)
    ensures
        total_sleep((millis / 200 + 1) as nat, millis / 200 + 1, (millis % 200) as int) == millis,
{
    let checks = millis / 200 + 1;
    lemma_total_sleep_prefix((checks - 1) as nat, checks as int, (millis % 200) as int);
    assert(total_sleep(checks as nat, checks as int, (millis % 200) as int) == total_sleep(
        (checks - 1) as nat,
        checks as int,
        (millis % 200) as int,
    ) + (millis % 200));
}

/// Returns the user preference for the field size if specified, else the
/// terminal size less the frame (two columns and two rows), else 10 by 10.
pub fn get_size(numx: Option<u32>, numy: Option<u32>, terminal: Option<(u16, u16)>) -> (size: (
    u32,
    u32,
))
    requires
        numx is None ==> (terminal matches Some((w, _)) ==> w >= 2),
        numy is None ==> (terminal matches Some((_, h)) ==> h >= 2),
    ensures
        size.0 == (match (numx, terminal) {
            (Some(v), _) => v as int,
            (None, Some((w, _))) => w - 2,
            (None, None) => 10,
        }),
        size.1 == (match (numy, terminal) {
            (Some(v), _) => v as int,
            (None, Some((_, h))) => h - 2,
            (None, None) => 10,
        }),
{
    let x = match numx {
        Some(v) => v,
        None => match terminal {
            Some((w, _)) => (w - 2) as u32,
            None => 10,
        },
    };
    let y = match numy {
        Some(v) => v,
        None => match terminal {
            Some((_, h)) => (h - 2) as u32,
            None => 10,
        },
    };
    (x, y)
}

/// The character that shows a cell in the terminal: a shaded block for a cell
/// that holds any state, a space for an empty one.
pub open spec fn cell_char(occupied: bool) -> char {
    if occupied {
        '▒'
    } else {
        ' '
    }
}

/// `n` copies of `c`.
pub open spec fn repeat_char(c: char, n: nat) -> Seq<char> {
    Seq::new(n, |i: int| c)
}

/// The upper edge of the frame around a field of `width` columns.
pub fn top_border(width: usize) -> (line: String)
    ensures
        line@ == seq!['┌'] + repeat_char('─', width as nat) + seq!['┐'],
{
    proof {
        reveal_strlit("┌");
        reveal_strlit("┐");
    }
    border_line(width, "┌", "┐")
}

/// The lower edge of the frame around a field of `width` columns.
pub fn bottom_border(width: usize) -> (line: String)
    ensures
        line@ == seq!['└'] + repeat_char('─', width as nat) + seq!['┘'],
{
    proof {
        reveal_strlit("└");
        reveal_strlit("┘");
    }
    border_line(width, "└", "┘")
}

fn border_line(width: usize, left: &str, right: &str) -> (line: String)
    ensures
        line@ == left@ + repeat_char('─', width as nat) + right@,
{
    let mut line = String::new();
    line.append(left);
    let mut i: usize = 0;
    while i < width
        invariant
            i <= width,
            line@ == left@ + repeat_char('─', i as nat),
        decreases width - i,
    {
        line.append("─");
        proof {
            reveal_strlit("─");
        }
        assert(line@ =~= left@ + repeat_char('─', (i + 1) as nat));
        i = i + 1;
    }
    line.append(right);
    line
}

/// The row `y` of the field as shown in the terminal, one character per column.
pub open spec fn row_chars(field: Seq<Seq<u8>>, numx: nat, y: int) -> Seq<char> {
    Seq::new(numx, |x: int| cell_char(field[x][y] > 0))
}

/// In the terminal, the cell `(x, y)` is shown shaded exactly when it holds a
/// state other than 0, whatever that state is, and blank when it is empty.
pub proof fn lemma_row_shows_occupied_cells(field: Seq<Seq<u8>>, numx: nat, y: int)
    ensures
        row_chars(field, numx, y).len() == numx,
        forall|x: int|
            0 <= x < numx ==> #[trigger] row_chars(field, numx, y)[x] == (if field[x][y] != 0 {
                '▒'
            } else {
                ' '
            }),
{
}

/// The row `y` of the field as shown in the terminal.
pub fn field_row<G: GameOfLife>(gol: &G, y: usize) -> (row: String)
    requires
        gol.inv(),
        y < gol.spec_numy(),
    ensures
        row@ == row_chars(gol.field(), gol.spec_numx(), y as int),
        row@.len() == gol.spec_numx(),
        forall|x: int|
            0 <= x < gol.spec_numx() ==> #[trigger] row@[x] == (if gol.field()[x][y as int] != 0 {
                '▒'
            } else {
                ' '
            }),
{
    proof {
        lemma_row_shows_occupied_cells(gol.field(), gol.spec_numx(), y as int);
    }
    let numx = gol.numx();
    let mut row = String::new();
    let mut x: usize = 0;
    while x < numx
        invariant
            gol.inv(),
            numx == gol.spec_numx(),
            y < gol.spec_numy(),
            x <= numx,
            row@ == row_chars(gol.field(), x as nat, y as int),
        decreases numx - x,
    {
        let occupied = match gol.cell(x, y) {
            Some(v) => v > 0,
            None => false,
        };
        proof {
            reveal_strlit("▒");
            reveal_strlit(" ");
        }
        if occupied {
            row.append("▒");
        } else {
            row.append(" ");
        }
        assert(row@ =~= row_chars(gol.field(), (x + 1) as nat, y as int));
        x = x + 1;
    }
    row
}

/// The row `y` of a field of living and dead cells as shown in the terminal.
pub open spec fn life_row_chars(field: Seq<Seq<bool>>, numx: nat, y: int) -> Seq<char> {
    Seq::new(numx, |x: int| cell_char(field[x][y]))
}

/// The row `y` of a Conway field as shown in the terminal.
pub fn life_row<G: game_of_life::GameOfLife>(gol: &G, y: usize) -> (row: String)
    requires
        gol.inv(),
        y < gol.spec_numy(),
    ensures
        row@ == life_row_chars(gol.field(), gol.spec_numx(), y as int),
        row@.len() == gol.spec_numx(),
        forall|x: int|
            0 <= x < gol.spec_numx() ==> #[trigger] row@[x] == (if gol.field()[x][y as int] {
                '▒'
            } else {
                ' '
            }),
{
    let numx = gol.numx();
    let mut row = String::new();
    let mut x: usize = 0;
    while x < numx
        invariant
            gol.inv(),
            numx == gol.spec_numx(),
            y < gol.spec_numy(),
            x <= numx,
            row@ == life_row_chars(gol.field(), x as nat, y as int),
        decreases numx - x,
    {
        proof {
            reveal_strlit("▒");
            reveal_strlit(" ");
        }
        if gol.cell(x, y) {
            row.append("▒");
        } else {
            row.append(" ");
        }
        assert(row@ =~= life_row_chars(gol.field(), (x + 1) as nat, y as int));
        x = x + 1;
    }
    row
}

} // verus!
