//! Filling a row-major image from a per-pixel function, one row at a time
//! so that callers may hand rows to separate workers.
use crate::blur::cell;
use vstd::prelude::*;

verus! {

/// Fills `row`, row `y` of an image, with `evaluate(x, y)` at each column `x`.
pub fn render_row<T, F: Fn(usize, usize) -> T>(row: &mut [T], y: usize, evaluate: &F)
    requires
        forall|x: usize| x < old(row)@.len() ==> evaluate.requires((x, y)),
    ensures
        final(row)@.len() == old(row)@.len(),
        forall|x: int|
            0 <= x < final(row)@.len() ==> evaluate.ensures((x as usize, y), #[trigger] final(row)@[x]),
{
    let w = row.len();
    let mut x: usize = 0;
    while x < w
        invariant
            row@.len() == w,
            x <= w,
            forall|i: usize| i < w ==> evaluate.requires((i, y)),
            forall|i: int| 0 <= i < x ==> evaluate.ensures((i as usize, y), #[trigger] row@[i]),
        decreases w - x,
    {
        let v = evaluate(x, y);
        row[x] = v;
        x = x + 1;
    }
}

/// Fills the row-major image `buf` of `w` columns and `h` rows with
/// `evaluate(x, y)` at each pixel.
pub fn render<T, F: Fn(usize, usize) -> T>(w: usize, h: usize, buf: &mut [T], evaluate: &F)
    requires
        old(buf)@.len() == w * h,
        forall|x: usize, y: usize| x < w && y < h ==> evaluate.requires((x, y)),
    ensures
        final(buf)@.len() == w * h,
        forall|x: int, y: int|
            0 <= x < w && 0 <= y < h ==> evaluate.ensures(
                (x as usize, y as usize),
                #[trigger] final(buf)@[cell(w as int, y, x)],
            ),
{
    let len = buf.len();
    let mut y: usize = 0;
    while y < h
        invariant
            buf@.len() == w * h,
            len == w * h,
            y <= h,
            forall|i: usize, j: usize| i < w && j < h ==> evaluate.requires((i, j)),
            forall|i: int, j: int|
                0 <= i < w && 0 <= j < y ==> evaluate.ensures(
                    (i as usize, j as usize),
                    #[trigger] buf@[cell(w as int, j, i)],
                ),
        decreases h - y,
    {
        let mut x: usize = 0;
        while x < w
            invariant
                buf@.len() == w * h,
                len == w * h,
                y < h,
                x <= w,
                forall|i: usize, j: usize| i < w && j < h ==> evaluate.requires((i, j)),
                forall|i: int, j: int|
                    0 <= i < w && 0 <= j < y ==> evaluate.ensures(
                        (i as usize, j as usize),
                        #[trigger] buf@[cell(w as int, j, i)],
                    ),
                forall|i: int|
                    0 <= i < x ==> evaluate.ensures(
                        (i as usize, y),
                        #[trigger] buf@[cell(w as int, y as int, i)],
                    ),
            decreases w - x,
        {
            proof {
                assert(y * w + x < w * h) by (nonlinear_arith)
                    requires
                        x < w,
                        y < h,
                ;
            }
            let v = evaluate(x, y);
            let k = y * w + x;
            buf[k] = v;
            proof {
                assert forall|i: int, j: int|
                    0 <= i < w && 0 <= j < y implies evaluate.ensures(
                    (i as usize, j as usize),
                    #[trigger] buf@[cell(w as int, j, i)],
                ) by {
                    assert(cell(w as int, j, i) < k) by (nonlinear_arith)
                        requires
                            0 <= i < w,
                            0 <= j < y,
                            k == y * w + x,
                            x >= 0,
                    ;
                }
                assert forall|i: int| 0 <= i < x + 1 implies evaluate.ensures(
                    (i as usize, y),
                    #[trigger] buf@[cell(w as int, y as int, i)],
                ) by {
                    if i < x {
                        assert(cell(w as int, y as int, i) < k);
                    }
                }
            }
            x = x + 1;
        }
        y = y + 1;
    }
}

} // verus!
