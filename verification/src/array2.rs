use vstd::prelude::*;

verus! {

/// The element of a row-major sequence with rows of `width` cells that sits at
/// column `col` and row `row`.
pub open spec fn grid_at<T>(cells: Seq<T>, width: int, col: int, row: int) -> T {
    cells[row * width + col]
}

/// A row-major position lies inside a `width` x `height` grid.
pub proof fn lemma_grid_index_bounds(width: int, height: int, col: int, row: int)
    requires
        0 <= col < width,
        0 <= row < height,
    ensures
        0 <= row * width + col < width * height,
        row * width + col + 1 <= width * height,
        row * width + col < height * width,
{
    assert(0 <= row * width + col < width * height && width * height == height * width) by (nonlinear_arith)
        requires
            0 <= col < width,
            0 <= row < height,
    ;
}

/// Distinct positions of a grid have distinct row-major indices.
pub proof fn lemma_grid_index_injective(width: int, col1: int, row1: int, col2: int, row2: int)
    requires
        0 <= col1 < width,
        0 <= col2 < width,
        0 <= row1,
        0 <= row2,
        row1 * width + col1 == row2 * width + col2,
    ensures
        col1 == col2,
        row1 == row2,
{
    assert(row1 == row2) by (nonlinear_arith)
        requires
            0 <= col1 < width,
            0 <= col2 < width,
            0 <= row1,
            0 <= row2,
            row1 * width + col1 == row2 * width + col2,
    ;
}

/// Read after write: writing `val` at `(col, row)` of a `width` x `height`
/// row-major sequence makes that cell read `val` and leaves every other cell
/// as it was.
pub proof fn lemma_read_after_write<T>(
    cells: Seq<T>,
    width: int,
    height: int,
    col: int,
    row: int,
    val: T,
)
    requires
        cells.len() == width * height,
        0 <= col < width,
        0 <= row < height,
    ensures
        grid_at(cells.update(row * width + col, val), width, col, row) == val,
        forall|c: int, r: int|
            #![trigger grid_at(cells.update(row * width + col, val), width, c, r)]
            0 <= c < width && 0 <= r < height && (c != col || r != row) ==> grid_at(
                cells.update(row * width + col, val),
                width,
                c,
                r,
            ) == grid_at(cells, width, c, r),
{
    lemma_grid_index_bounds(width, height, col, row);
    assert forall|c: int, r: int|
        #![trigger grid_at(cells.update(row * width + col, val), width, c, r)]
        0 <= c < width && 0 <= r < height && (c != col || r != row) implies grid_at(
            cells.update(row * width + col, val),
            width,
            c,
            r,
        ) == grid_at(cells, width, c, r) by {
        lemma_grid_index_bounds(width, height, c, r);
        if r * width + c == row * width + col {
            lemma_grid_index_injective(width, c, r, col, row);
        }
    }
}

/// Two row-major sequences of the same `width` x `height` shape that agree at
/// every cell are equal.
pub proof fn lemma_grid_ext<T>(s1: Seq<T>, s2: Seq<T>, width: int, height: int)
    requires
        0 <= width,
        0 <= height,
        s1.len() == width * height,
        s2.len() == width * height,
        forall|c: int, r: int|
            #![trigger grid_at(s1, width, c, r)]
            0 <= c < width && 0 <= r < height ==> grid_at(s1, width, c, r) == grid_at(
                s2,
                width,
                c,
                r,
            ),
    ensures
        s1 == s2,
{
    assert forall|i: int| 0 <= i < s1.len() implies s1[i] == s2[i] by {
        let r = i / width;
        let c = i % width;
        assert(width > 0) by (nonlinear_arith)
            requires
                0 <= i < width * height,
                0 <= width,
                0 <= height,
        ;
        vstd::arithmetic::div_mod::lemma_fundamental_div_mod(i, width);
        assert(0 <= c < width);
        assert(0 <= r < height) by (nonlinear_arith)
            requires
                0 <= i < width * height,
                width > 0,
                r == i / width,
        ;
        assert(i == r * width + c) by (nonlinear_arith)
            requires
                i == width * (i / width) + i % width,
                r == i / width,
                c == i % width,
        ;
        assert(grid_at(s1, width, c, r) == grid_at(s2, width, c, r));
    }
    assert(s1 =~= s2);
}

/// Why a grid could not be built.
#[derive(Clone, Copy, Debug, PartialEq, Eq, Structural)]
pub enum Array2Error {
    /// The number of values given is not `width * height`.
    SizeMismatch,
}

/// A `width` x `height` grid of values stored in row-major order: the value at
/// column `col` and row `row` is `data[row * width + col]`.
pub struct Array2<T> {
    pub width: usize,
    pub height: usize,
    pub data: Vec<T>,
}

impl<T> Array2<T> {
    /// The grid holds exactly `width * height` values.
    pub open spec fn wf(&self) -> bool {
        self.data@.len() == self.width * self.height
    }

    /// `(col, row)` names a cell of the grid.
    pub open spec fn in_bounds(&self, col: int, row: int) -> bool {
        0 <= col < self.width && 0 <= row < self.height
    }

    /// The value at column `col` and row `row`.
    pub open spec fn cell(&self, col: int, row: int) -> T {
        grid_at(self.data@, self.width as int, col, row)
    }

    /// Builds a grid from `values` laid out in row-major order; fails when
    /// there are not exactly `width * height` of them.
    pub fn from_row_major(width: usize, height: usize, values: Vec<T>) -> (r: Result<
        Array2<T>,
        Array2Error,
    >)
        ensures
            r is Ok <==> values@.len() == width * height,
            r matches Ok(a) ==> a.wf() && a.width == width && a.height == height && a.data@
                == values@,
            r matches Err(e) ==> e == Array2Error::SizeMismatch,
    {
        let len = values.len();
        match width.checked_mul(height) {
            Some(n) => {
                if n == len {
                    Ok(Array2 { width, height, data: values })
                } else {
                    Err(Array2Error::SizeMismatch)
                }
            },
            None => Err(Array2Error::SizeMismatch),
        }
    }

    /// A reference to the value at column `col` and row `row`, or `None` when
    /// that cell is outside the grid.
    pub fn get(&self, col: usize, row: usize) -> (r: Option<&T>)
        requires
            self.wf(),
        ensures
            r == (if self.in_bounds(col as int, row as int) {
                Some(&self.cell(col as int, row as int))
            } else {
                None
            }),
    {
        proof {
            assert(self.data@.len() == self.data.len());
        }
        if col < self.width && row < self.height {
            proof {
                lemma_grid_index_bounds(self.width as int, self.height as int, col as int, row as int);
            }
            Some(&self.data[row * self.width + col])
        } else {
            None
        }
    }

    /// Stores `val` at column `col` and row `row` and returns `true`; returns
    /// `false` and leaves the grid unchanged when that cell is outside it.
    pub fn set(&mut self, col: usize, row: usize, val: T) -> (stored: bool)
        requires
            old(self).wf(),
        ensures
            stored == old(self).in_bounds(col as int, row as int),
            final(self).wf(),
            final(self).width == old(self).width,
            final(self).height == old(self).height,
            stored ==> final(self).data@ == old(self).data@.update(
                row * old(self).width + col,
                val,
            ),
            !stored ==> final(self).data@ == old(self).data@,
            stored ==> final(self).cell(col as int, row as int) == val,
            forall|c: int, r: int|
                #![trigger final(self).cell(c, r)]
                old(self).in_bounds(c, r) && (c != col || r != row) ==> final(self).cell(c, r)
                    == old(self).cell(c, r),
    {
        proof {
            assert(self.data@.len() == self.data.len());
        }
        if col < self.width && row < self.height {
            proof {
                lemma_grid_index_bounds(self.width as int, self.height as int, col as int, row as int);
            }
            let idx = row * self.width + col;
            self.data.set(idx, val);
            proof {
                lemma_read_after_write(old(self).data@, self.width as int, self.height as int, col as int, row as int, val);
            }
            true
        } else {
            false
        }
    }
}

impl<T: Copy> Array2<T> {
    /// A `width` x `height` grid whose every cell holds `val`.
    pub fn new(width: usize, height: usize, val: T) -> (a: Array2<T>)
        requires
            width * height <= usize::MAX,
        ensures
            a.wf(),
            a.width == width,
            a.height == height,
            forall|i: int| 0 <= i < a.data@.len() ==> a.data@[i] == val,
            forall|c: int, r: int| #![trigger a.cell(c, r)] a.in_bounds(c, r) ==> a.cell(c, r) == val,
    {
        let n: usize = width * height;
        let mut data: Vec<T> = Vec::new();
        let mut i: usize = 0;
        while i < n
            invariant
                i <= n,
                data@.len() == i,
                forall|k: int| 0 <= k < i ==> data@[k] == val,
            decreases n - i,
        {
            data.push(val);
            i = i + 1;
        }
        let a = Array2 { width, height, data };
        proof {
            assert forall|c: int, r: int| #![trigger a.cell(c, r)] a.in_bounds(c, r) implies a.cell(
                c,
                r,
            ) == val by {
                lemma_grid_index_bounds(width as int, height as int, c, r);
            }
        }
        a
    }

    /// The grid of the same shape whose every cell holds what `f` returns for
    /// the value in the same cell of `self`.
    pub fn map<U>(&self, f: impl Fn(T) -> U) -> (out: Array2<U>)
        requires
            self.wf(),
            forall|v: T| call_requires(f, (v,)),
        ensures
            out.wf(),
            out.width == self.width,
            out.height == self.height,
            forall|i: int|
                0 <= i < self.data@.len() ==> call_ensures(f, (self.data@[i],), #[trigger] out.data@[i]),
            forall|c: int, r: int|
                #![trigger out.cell(c, r)]
                self.in_bounds(c, r) ==> call_ensures(f, (self.cell(c, r),), out.cell(c, r)),
    {
        let n = self.data.len();
        let mut data: Vec<U> = Vec::new();
        let mut i: usize = 0;
        while i < n
            invariant
                n == self.data@.len(),
                i <= n,
                data@.len() == i,
                forall|v: T| call_requires(f, (v,)),
                forall|k: int| 0 <= k < i ==> call_ensures(f, (self.data@[k],), #[trigger] data@[k]),
            decreases n - i,
        {
            let v = f(self.data[i]);
            data.push(v);
            i = i + 1;
        }
        let out = Array2 { width: self.width, height: self.height, data };
        proof {
            assert forall|c: int, r: int|
                #![trigger out.cell(c, r)]
                self.in_bounds(c, r) implies call_ensures(f, (self.cell(c, r),), out.cell(c, r)) by {
                lemma_grid_index_bounds(self.width as int, self.height as int, c, r);
            }
        }
        out
    }
}

} // verus!
