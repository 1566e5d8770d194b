use crate::text::{decimal, decimal_text};
use vstd::prelude::*;
use vstd::string::StringExecFns;

verus! {

/// The error of an operation whose two operands disagree on a shared dimension:
/// `left` is the extent on the left operand, `right` the one on the right.
#[derive(Debug, Clone, Copy, PartialEq, Eq, Structural)]
pub struct DimensionMismatch {
    pub left: usize,
    pub right: usize,
}

/// The sum of the first `n` pairwise products of `a` and `b`, folded from the left
/// starting at zero, in `i64`'s wrapping (two's complement) arithmetic.
pub open spec fn dot_prefix(a: Seq<i64>, b: Seq<i64>, n: nat) -> i64
    decreases n,
{
    if n == 0 {
        0i64
    } else {
        dot_prefix(a, b, (n - 1) as nat).wrapping_add(a[n - 1].wrapping_mul(b[n - 1]))
    }
}

/// The dot product of two sequences of equal length.
pub open spec fn dot(a: Seq<i64>, b: Seq<i64>) -> i64 {
    dot_prefix(a, b, a.len())
}

/// A fixed-length sequence of numbers.
pub struct Vector {
    data: Vec<i64>,
}

impl View for Vector {
    type V = Seq<i64>;

    closed spec fn view(&self) -> Seq<i64> {
        self.data@
    }
}

impl Vector {
    pub fn new(data: Vec<i64>) -> (r: Vector)
        ensures
            r@ == data@,
    {
        Vector { data }
    }

    pub fn len(&self) -> (r: usize)
        ensures
            r == self@.len(),
    {
        self.data.len()
    }

    pub fn as_slice(&self) -> (r: &[i64])
        ensures
            r@ == self@,
    {
        self.data.as_slice()
    }

    /// The elements in decimal, separated by ", " and wrapped in braces.
    pub fn to_string(&self) -> (r: String)
        ensures
            r@ == seq!['{'] + joined(self@, self@.len()) + seq!['}'],
    {
        let mut out = String::new();
        proof {
            reveal_strlit("{");
            reveal_strlit(", ");
            reveal_strlit("}");
        }
        out.append("{");
        let n = self.data.len();
        let mut i: usize = 0;
        while i < n
            invariant
                n == self@.len(),
                i <= n,
                out@ == seq!['{'] + joined(self@, i as nat),
            decreases n - i,
        {
            proof {
                reveal_strlit(", ");
            }
            if i > 0 {
                out.append(", ");
            }
            let d = decimal_text(self.data[i]);
            out.append(d.as_str());
            proof {
                let s = self@;
                if i == 0 {
                    assert(joined(s, 1) == decimal(s[0] as int));
                } else {
                    assert(joined(s, (i + 1) as nat) == joined(s, i as nat) + seq![',', ' ']
                        + decimal(s[i as int] as int));
                }
                assert(out@ =~= seq!['{'] + joined(s, (i + 1) as nat));
            }
            i += 1;
        }
        out.append("}");
        out
    }
}

/// The first `n` elements in decimal, separated by ", ".
pub open spec fn joined(s: Seq<i64>, n: nat) -> Seq<char>
    decreases n,
{
    if n == 0 {
        Seq::empty()
    } else if n == 1 {
        decimal(s[0] as int)
    } else {
        joined(s, (n - 1) as nat) + seq![',', ' '] + decimal(s[n - 1] as int)
    }
}

/// The dot product of `a` and `b`: the sum of their pairwise products, starting
/// from zero. Fails when the lengths differ.
pub fn dot_product(a: &Vector, b: &Vector) -> (r: Result<i64, DimensionMismatch>)
    ensures
        r is Err <==> a@.len() != b@.len(),
        r matches Ok(v) ==> v == dot(a@, b@),
        r matches Err(e) ==> e.left == a@.len() && e.right == b@.len(),
        a@.len() == 0 && b@.len() == 0 ==> r == Ok::<i64, DimensionMismatch>(0),
{
    let n = a.data.len();
    if n != b.data.len() {
        return Err(DimensionMismatch { left: n, right: b.data.len() });
    }
    Ok(dot_same_len(a, b))
}

/// The dot product of two vectors of equal length.
pub fn dot_same_len(a: &Vector, b: &Vector) -> (r: i64)
    requires
        a@.len() == b@.len(),
    ensures
        r == dot(a@, b@),
{
    let n = a.data.len();
    let mut acc: i64 = 0;
    let mut i: usize = 0;
    while i < n
        invariant
            n == a@.len(),
            n == b@.len(),
            i <= n,
            acc == dot_prefix(a@, b@, i as nat),
        decreases n - i,
    {
        acc = acc.wrapping_add(a.data[i].wrapping_mul(b.data[i]));
        i += 1;
    }
    acc
}

} // verus!
