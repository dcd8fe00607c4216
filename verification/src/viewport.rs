//! Enumeration of a rectangular viewport: every coordinate with row in
//! `0..width` and column in `0..height`, in row-major order. Drivers use
//! it to seed a population and to walk the cells they render.

use vstd::prelude::*;

verus! {

/// The row-major position of the cell `(a, b)` in a viewport of `h`
/// columns.
pub open spec fn cell_index(a: int, b: int, h: int) -> int {
    a * h + b
}

/// All coordinates `(row, col)` with `0 <= row < width` and
/// `0 <= col < height`, in row-major order. A non-positive width or
/// height yields the empty vector.
pub fn points(width: i32, height: i32) -> (r: Vec<(i32, i32)>)
    ensures
        width <= 0 || height <= 0 ==> r@.len() == 0,
        width > 0 && height > 0 ==> r@.len() == width * height,
        forall|a: int, b: int|
            #![trigger cell_index(a, b, height as int)]
            0 <= a < width && 0 <= b < height ==> r@[cell_index(a, b, height as int)] == ((
                a as i32,
                b as i32,
            )),
{
    let mut r: Vec<(i32, i32)> = Vec::new();
    if width <= 0 || height <= 0 {
        return r;
    }
    let mut row: i32 = 0;
    while row < width
        invariant
            0 < width,
            0 < height,
            0 <= row <= width,
            r@.len() == row * height,
            forall|a: int, b: int|
                #![trigger cell_index(a, b, height as int)]
                0 <= a < row && 0 <= b < height ==> r@[cell_index(a, b, height as int)] == ((
                    a as i32,
                    b as i32,
                )),
        decreases width - row,
    {
        let mut col: i32 = 0;
        while col < height
            invariant
                0 < width,
                0 < height,
                0 <= row < width,
                0 <= col <= height,
                r@.len() == row * height + col,
                forall|a: int, b: int|
                    #![trigger cell_index(a, b, height as int)]
                    0 <= a < row && 0 <= b < height ==> r@[cell_index(a, b, height as int)] == ((
                        a as i32,
                        b as i32,
                    )),
                forall|b: int|
                    #![trigger cell_index(row as int, b, height as int)]
                    0 <= b < col ==> r@[cell_index(row as int, b, height as int)] == ((
                        row as i32,
                        b as i32,
                    )),
            decreases height - col,
        {
            let ghost old_r = r@;
            r.push((row, col));
            proof {
                assert(cell_index(row as int, col as int, height as int) == r@.len() - 1);
                assert forall|a: int, b: int|
                    #![trigger cell_index(a, b, height as int)]
                    0 <= a < row && 0 <= b < height implies r@[cell_index(a, b, height as int)]
                    == ((a as i32, b as i32)) by {
                    assert(a * height + b < row * height + col) by (nonlinear_arith)
                        requires
                            0 <= a,
                            a < row,
                            0 <= b < height,
                            0 <= col,
                    ;
                    assert(r@[cell_index(a, b, height as int)] == old_r[cell_index(
                        a,
                        b,
                        height as int,
                    )]);
                }
            }
            col += 1;
        }
        proof {
            assert(row * height + height == (row + 1) * height) by (nonlinear_arith);
        }
        row += 1;
    }
    r
}

} // verus!
