use crate::text::{count_text, decimal, decimal_text};
use crate::vector::{dot, dot_same_len, DimensionMismatch, Vector};
use vstd::arithmetic::div_mod::lemma_fundamental_div_mod_converse;
use vstd::prelude::*;
use vstd::string::StringExecFns;

verus! {

/// A dense matrix of `row` × `col` numbers, stored row by row in `data`.
pub struct Matrix {
    pub data: Vec<i64>,
    pub row: usize,
    pub col: usize,
}

/// Row `i` of `m`: the contiguous run `[i * col, (i + 1) * col)` of its data.
pub open spec fn row_of(m: Matrix, i: int) -> Seq<i64> {
    m.data@.subrange(i * m.col, (i + 1) * m.col)
}

/// Column `j` of `m`: every `col`-th element of its data, starting at `j`.
pub open spec fn col_of(m: Matrix, j: int) -> Seq<i64> {
    Seq::new(m.row as nat, |r: int| m.data@[r * m.col + j])
}

/// The cell at flat index `k` of the product `a · b`: row `k / b.col` of `a`
/// dotted with column `k % b.col` of `b`.
pub open spec fn product_cell(a: Matrix, b: Matrix, k: int) -> i64 {
    dot(row_of(a, k / b.col as int), col_of(b, k % b.col as int))
}

/// The data of the product `a · b`, row by row.
pub open spec fn product(a: Matrix, b: Matrix) -> Seq<i64> {
    Seq::new((a.row * b.col) as nat, |k: int| product_cell(a, b, k))
}

/// The first `n` elements of `s` in decimal, separated by single spaces.
pub open spec fn spaced(s: Seq<i64>, n: nat) -> Seq<char>
    decreases n,
{
    if n == 0 {
        Seq::empty()
    } else if n == 1 {
        decimal(s[0] as int)
    } else {
        spaced(s, (n - 1) as nat) + seq![' '] + decimal(s[n - 1] as int)
    }
}

/// The first `n` rows of `m`, each spaced, separated by ", ".
pub open spec fn rows_text(m: Matrix, n: nat) -> Seq<char>
    decreases n,
{
    if n == 0 {
        Seq::empty()
    } else if n == 1 {
        spaced(row_of(m, 0), m.col as nat)
    } else {
        rows_text(m, (n - 1) as nat) + seq![',', ' '] + spaced(row_of(m, n - 1), m.col as nat)
    }
}

/// `m` as text: its rows, separated by ", ", wrapped in braces.
pub open spec fn matrix_text(m: Matrix) -> Seq<char> {
    seq!['{'] + rows_text(m, m.row as nat) + seq!['}']
}

proof fn lemma_row_in_bounds(row: int, col: int, i: int)
    requires
        0 <= i < row,
        0 <= col,
    ensures
        0 <= i * col,
        (i + 1) * col <= row * col,
        i * col + col == (i + 1) * col,
{
    assert(0 <= i * col) by (nonlinear_arith)
        requires
            0 <= i,
            0 <= col,
    ;
    assert((i + 1) * col <= row * col) by (nonlinear_arith)
        requires
            i + 1 <= row,
            0 <= col,
    ;
    assert(i * col + col == (i + 1) * col) by (nonlinear_arith);
}

impl Matrix {
    /// The matrix's data holds exactly `row * col` elements.
    pub open spec fn wf(&self) -> bool {
        self.data@.len() == self.row * self.col
    }

    pub fn new(data: Vec<i64>, row: usize, col: usize) -> (r: Matrix)
        requires
            data@.len() == row * col,
        ensures
            r.data@ == data@,
            r.row == row,
            r.col == col,
            r.wf(),
    {
        Matrix { data, row, col }
    }

    /// Row `i`, as a vector of its own.
    pub fn row_vector(&self, i: usize) -> (r: Vector)
        requires
            self.wf(),
            i < self.row,
        ensures
            r@ == row_of(*self, i as int),
    {
        let n = self.data.len();
        proof {
            lemma_row_in_bounds(self.row as int, self.col as int, i as int);
        }
        let start = i * self.col;
        let end = start + self.col;
        let mut v: Vec<i64> = Vec::new();
        let mut k: usize = start;
        while k < end
            invariant
                self.wf(),
                start <= k <= end,
                end <= self.data@.len(),
                v@ == self.data@.subrange(start as int, k as int),
            decreases end - k,
        {
            v.push(self.data[k]);
            assert(v@ =~= self.data@.subrange(start as int, k + 1));
            k += 1;
        }
        Vector::new(v)
    }

    /// Column `j`, as a vector of its own.
    pub fn col_vector(&self, j: usize) -> (r: Vector)
        requires
            self.wf(),
            j < self.col,
        ensures
            r@ == col_of(*self, j as int),
    {
        let n = self.data.len();
        let mut v: Vec<i64> = Vec::new();
        let mut r: usize = 0;
        while r < self.row
            invariant
                self.wf(),
                j < self.col,
                r <= self.row,
                n == self.data@.len(),
                v@ =~= col_of(*self, j as int).take(r as int),
            decreases self.row - r,
        {
            proof {
                lemma_row_in_bounds(self.row as int, self.col as int, r as int);
                assert(r * self.col + j < (r + 1) * self.col) by (nonlinear_arith)
                    requires
                        j < self.col,
                ;
            }
            v.push(self.data[r * self.col + j]);
            assert(v@ =~= col_of(*self, j as int).take(r + 1));
            r += 1;
        }
        Vector::new(v)
    }

    /// Row `i` in decimal, elements separated by single spaces.
    fn row_text(&self, i: usize) -> (r: String)
        requires
            self.wf(),
            i < self.row,
        ensures
            r@ == spaced(row_of(*self, i as int), self.col as nat),
    {
        let n = self.data.len();
        proof {
            lemma_row_in_bounds(self.row as int, self.col as int, i as int);
        }
        let ghost s = row_of(*self, i as int);
        let start = i * self.col;
        let mut out = String::new();
        let mut j: usize = 0;
        while j < self.col
            invariant
                self.wf(),
                s == row_of(*self, i as int),
                s.len() == self.col,
                n == self.data@.len(),
                start == i * self.col,
                0 <= start,
                start + self.col == (i + 1) * self.col,
                start + self.col <= self.data@.len(),
                j <= self.col,
                out@ == spaced(s, j as nat),
            decreases self.col - j,
        {
            proof {
                reveal_strlit(" ");
            }
            if j > 0 {
                out.append(" ");
            }
            let d = decimal_text(self.data[start + j]);
            out.append(d.as_str());
            proof {
                assert(s[j as int] == self.data@[start + j]);
                if j == 0 {
                    assert(spaced(s, 1) == decimal(s[0] as int));
                } else {
                    assert(spaced(s, (j + 1) as nat) == spaced(s, j as nat) + seq![' ']
                        + decimal(s[j as int] as int));
                }
                assert(out@ =~= spaced(s, (j + 1) as nat));
            }
            j += 1;
        }
        out
    }

    /// The matrix as text: `{` rows separated by ", " `}`, the elements of a
    /// row separated by single spaces.
    pub fn to_string(&self) -> (r: String)
        requires
            self.wf(),
        ensures
            r@ == matrix_text(*self),
    {
        let mut out = String::new();
        proof {
            reveal_strlit("{");
        }
        out.append("{");
        let mut i: usize = 0;
        while i < self.row
            invariant
                self.wf(),
                i <= self.row,
                out@ == seq!['{'] + rows_text(*self, i as nat),
            decreases self.row - i,
        {
            proof {
                reveal_strlit(", ");
            }
            if i > 0 {
                out.append(", ");
            }
            let t = self.row_text(i);
            out.append(t.as_str());
            proof {
                let m = *self;
                if i == 0 {
                    assert(rows_text(m, 1) == spaced(row_of(m, 0), m.col as nat));
                } else {
                    assert(rows_text(m, (i + 1) as nat) == rows_text(m, i as nat) + seq![',', ' ']
                        + spaced(row_of(m, i as int), m.col as nat));
                }
                assert(out@ =~= seq!['{'] + rows_text(m, (i + 1) as nat));
            }
            i += 1;
        }
        proof {
            reveal_strlit("}");
        }
        out.append("}");
        assert(out@ =~= matrix_text(*self));
        out
    }

    /// The matrix with its shape: `Matrix(row=R, col=C, TEXT)`.
    pub fn to_debug_string(&self) -> (r: String)
        requires
            self.wf(),
        ensures
            r@ == seq!['M', 'a', 't', 'r', 'i', 'x', '(', 'r', 'o', 'w', '='] + decimal(
                self.row as int,
            ) + seq![',', ' ', 'c', 'o', 'l', '='] + decimal(self.col as int) + seq![',', ' ']
                + matrix_text(*self) + seq![')'],
    {
        proof {
            reveal_strlit("Matrix(row=");
            reveal_strlit(", col=");
            reveal_strlit(", ");
            reveal_strlit(")");
        }
        let mut out = String::new();
        out.append("Matrix(row=");
        let r = count_text(self.row);
        out.append(r.as_str());
        out.append(", col=");
        let c = count_text(self.col);
        out.append(c.as_str());
        out.append(", ");
        let t = self.to_string();
        out.append(t.as_str());
        out.append(")");
        out
    }
}

/// Multiplies `a` by `b` one cell at a time: cell `(i, j)` of the result, at flat
/// index `i * b.col + j`, is row `i` of `a` dotted with column `j` of `b`. Fails,
/// before any work, when `a.col != b.row`.
pub fn multiply_sequential(a: &Matrix, b: &Matrix) -> (r: Result<Matrix, DimensionMismatch>)
    requires
        a.wf(),
        b.wf(),
    ensures
        r is Err <==> a.col != b.row,
        r matches Err(e) ==> e.left == a.col && e.right == b.row,
        r matches Ok(c) ==> c.row == a.row && c.col == b.col && c.data@ == product(*a, *b),
{
    if a.col != b.row {
        return Err(DimensionMismatch { left: a.col, right: b.row });
    }
    let mut data: Vec<i64> = Vec::new();
    let mut i: usize = 0;
    while i < a.row
        invariant
            a.wf(),
            b.wf(),
            a.col == b.row,
            i <= a.row,
            data@.len() == i * b.col,
            forall|k: int| 0 <= k < data@.len() ==> data@[k] == #[trigger] product_cell(*a, *b, k),
        decreases a.row - i,
    {
        let rv = a.row_vector(i);
        proof {
            lemma_row_in_bounds(a.row as int, a.col as int, i as int);
        }
        let mut j: usize = 0;
        while j < b.col
            invariant
                a.wf(),
                b.wf(),
                a.col == b.row,
                i < a.row,
                j <= b.col,
                rv@ == row_of(*a, i as int),
                rv@.len() == a.col,
                data@.len() == i * b.col + j,
                forall|k: int|
                    0 <= k < data@.len() ==> data@[k] == #[trigger] product_cell(*a, *b, k),
            decreases b.col - j,
        {
            let cv = b.col_vector(j);
            let v = dot_same_len(&rv, &cv);
            proof {
                let k = i * b.col + j;
                lemma_fundamental_div_mod_converse(k, b.col as int, i as int, j as int);
            }
            data.push(v);
            j += 1;
        }
        assert(i * b.col + b.col == (i + 1) * b.col) by (nonlinear_arith);
        i += 1;
    }
    let c = Matrix { data, row: a.row, col: b.col };
    assert(c.data@ =~= product(*a, *b));
    Ok(c)
}

} // verus!
