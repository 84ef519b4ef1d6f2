//! Walking the cells of a three-dimensional box in a fixed axis order.

use vstd::arithmetic::div_mod::*;
use vstd::prelude::*;

verus! {

/// The axis order of the scene format: axis 0 varies fastest, axis 2
/// slowest.
pub open spec fn format_order() -> [usize; 3] {
    [0usize, 1usize, 2usize]
}

/// Number of cells of a box of the given size.
pub open spec fn volume(size: [u32; 3]) -> nat {
    (size[0] as nat) * (size[1] as nat) * (size[2] as nat)
}

/// Whether `order` names each of the three axes once.
pub open spec fn is_axis_order(order: [usize; 3]) -> bool {
    &&& order[0] < 3
    &&& order[1] < 3
    &&& order[2] < 3
    &&& order[0] != order[1]
    &&& order[1] != order[2]
    &&& order[0] != order[2]
}

/// The value that belongs to `axis`, where `fast`, `mid` and `slow` belong
/// to the axes `order[0]`, `order[1]` and `order[2]`.
pub open spec fn along(order: [usize; 3], axis: usize, fast: int, mid: int, slow: int) -> int {
    if order[0] == axis {
        fast
    } else if order[1] == axis {
        mid
    } else {
        slow
    }
}

/// Coordinates of the `k`-th cell of a box that is walked with the axis
/// `order[0]` varying fastest and `order[2]` slowest.
pub open spec fn cell_at(size: [u32; 3], order: [usize; 3], k: int) -> [u32; 3] {
    let fast = k % (size[order[0] as int] as int);
    let mid = (k / (size[order[0] as int] as int)) % (size[order[1] as int] as int);
    let slow = (k / (size[order[0] as int] as int)) / (size[order[1] as int] as int);
    [
        along(order, 0, fast, mid, slow) as u32,
        along(order, 1, fast, mid, slow) as u32,
        along(order, 2, fast, mid, slow) as u32,
    ]
}

/// The place of the cell `at` in the walk: the number of cells before it.
pub open spec fn rank(size: [u32; 3], order: [usize; 3], at: [u32; 3]) -> int {
    at[order[0] as int] + size[order[0] as int] * (at[order[1] as int] + size[order[1] as int]
        * at[order[2] as int])
}

/// Whether the cell `at` lies inside the box.
pub open spec fn inside(size: [u32; 3], at: [u32; 3]) -> bool {
    at[0] < size[0] && at[1] < size[1] && at[2] < size[2]
}

/// Place-value arithmetic with three digits: the digits `a`, `b`, `c` in
/// the bases `n`, `m`, `l` are recovered from their value by division.
pub proof fn lemma_digits(n: int, m: int, l: int, a: int, b: int, c: int)
    requires
        0 <= a < n,
        0 <= b < m,
        0 <= c < l,
    ensures
        (a + n * (b + m * c)) % n == a,
        ((a + n * (b + m * c)) / n) % m == b,
        ((a + n * (b + m * c)) / n) / m == c,
        0 <= a + n * (b + m * c) < n * m * l,
{
    let high = b + m * c;
    let k = a + n * high;
    assert(k == high * n + a) by (nonlinear_arith)
        requires
            k == a + n * high,
    ;
    lemma_fundamental_div_mod_converse(k, n, high, a);
    assert(high == c * m + b) by (nonlinear_arith)
        requires
            high == b + m * c,
    ;
    lemma_fundamental_div_mod_converse(high, m, c, b);
    assert(0 <= k < n * m * l) by (nonlinear_arith)
        requires
            0 <= a < n,
            0 <= b < m,
            0 <= c < l,
            k == a + n * (b + m * c),
    ;
}

/// The digits of a value below `n * m * l` lie below their bases and add
/// up to the value again.
pub proof fn lemma_digits_of(n: int, m: int, l: int, k: int)
    requires
        0 < n,
        0 < m,
        0 < l,
        0 <= k < n * m * l,
    ensures
        0 <= k % n < n,
        0 <= (k / n) % m < m,
        0 <= (k / n) / m < l,
        k == k % n + n * ((k / n) % m + m * ((k / n) / m)),
{
    lemma_fundamental_div_mod(k, n);
    lemma_mod_bound(k, n);
    let high = k / n;
    assert(0 <= high < m * l) by (nonlinear_arith)
        requires
            0 < n,
            0 <= k < n * m * l,
            k == n * high + k % n,
            0 <= k % n < n,
    ;
    lemma_fundamental_div_mod(high, m);
    lemma_mod_bound(high, m);
    let top = high / m;
    assert(0 <= top < l) by (nonlinear_arith)
        requires
            0 < m,
            0 <= high < m * l,
            high == m * top + high % m,
            0 <= high % m < m,
    ;
}

/// Inside a box, the place of a cell in the walk and the cell at a place
/// determine each other.
pub proof fn lemma_cell_at_rank(size: [u32; 3], order: [usize; 3], at: [u32; 3])
    requires
        is_axis_order(order),
        inside(size, at),
    ensures
        0 <= rank(size, order, at) < volume(size),
        cell_at(size, order, rank(size, order, at)) == at,
{
    let n = size[order[0] as int] as int;
    let m = size[order[1] as int] as int;
    let l = size[order[2] as int] as int;
    lemma_digits(
        n,
        m,
        l,
        at[order[0] as int] as int,
        at[order[1] as int] as int,
        at[order[2] as int] as int,
    );
    lemma_volume_by_order(size, order);
    assert(cell_at(size, order, rank(size, order, at)) =~= at);
}

/// The cell at a place below the volume lies inside the box and has that
/// place in the walk.
pub proof fn lemma_rank_cell_at(size: [u32; 3], order: [usize; 3], k: int)
    requires
        is_axis_order(order),
        0 <= k < volume(size),
    ensures
        inside(size, cell_at(size, order, k)),
        rank(size, order, cell_at(size, order, k)) == k,
{
    let n = size[order[0] as int] as int;
    let m = size[order[1] as int] as int;
    let l = size[order[2] as int] as int;
    lemma_volume_by_order(size, order);
    assert(0 < n && 0 < m && 0 < l) by (nonlinear_arith)
        requires
            0 <= n,
            0 <= m,
            0 <= l,
            0 <= k < n * m * l,
    ;
    lemma_digits_of(n, m, l, k);
}

/// The volume is the product of the three sizes in any axis order.
pub proof fn lemma_volume_by_order(size: [u32; 3], order: [usize; 3])
    requires
        is_axis_order(order),
    ensures
        volume(size) == (size[order[0] as int] as int) * (size[order[1] as int] as int) * (
        size[order[2] as int] as int),
{
    let x = size[0] as int;
    let y = size[1] as int;
    let z = size[2] as int;
    assert(x * y * z == x * z * y && x * y * z == y * x * z && x * y * z == y * z * x && x * y * z
        == z * x * y && x * y * z == z * y * x) by (nonlinear_arith);
}

/// A walk over the cells of a box.
///
/// The walk visits every cell of the box once. The axis `order[0]` varies
/// fastest and `order[2]` slowest; a box with a side of length zero has no
/// cells.
#[derive(Clone, Copy, Debug)]
pub struct BoxIter {
    size: [u32; 3],
    current: [u32; 3],
    order: [usize; 3],
    done: bool,
}

impl BoxIter {
    #[verifier::type_invariant]
    spec fn well_formed(self) -> bool {
        &&& is_axis_order(self.order)
        &&& self.done || inside(self.size, self.current)
    }

    /// The size of the box.
    pub closed spec fn size(self) -> [u32; 3] {
        self.size
    }

    /// The axis order of the walk.
    pub closed spec fn order(self) -> [usize; 3] {
        self.order
    }

    /// Number of cells that the walk has handed out.
    pub closed spec fn position(self) -> int {
        if self.done {
            volume(self.size) as int
        } else {
            rank(self.size, self.order, self.current)
        }
    }

    /// A walk at the start of the box of the given size.
    pub fn new(size: [u32; 3], order: [usize; 3]) -> (walk: BoxIter)
        requires
            is_axis_order(order),
        ensures
            walk.size() == size,
            walk.order() == order,
            walk.position() == 0,
    {
        let done = size[0] == 0 || size[1] == 0 || size[2] == 0;
        proof {
            if done {
                assert(volume(size) == 0) by (nonlinear_arith)
                    requires
                        size[0] == 0 || size[1] == 0 || size[2] == 0,
                        volume(size) == (size[0] as nat) * (size[1] as nat) * (size[2] as nat),
                ;
            } else {
                assert(rank(size, order, [0u32, 0u32, 0u32]) == 0) by (nonlinear_arith)
                    requires
                        rank(size, order, [0u32, 0u32, 0u32]) == 0 + size[order[0] as int] * (0
                            + size[order[1] as int] * 0),
                ;
            }
        }
        BoxIter { size, current: [0, 0, 0], order, done }
    }

    /// The next cell of the walk, or `None` when every cell has been
    /// handed out.
    pub fn next(&mut self) -> (cell: Option<[u32; 3]>)
        ensures
            final(self).size() == old(self).size(),
            final(self).order() == old(self).order(),
            0 <= old(self).position() <= volume(old(self).size()),
            old(self).position() < volume(old(self).size()) ==> cell == Some(
                cell_at(old(self).size(), old(self).order(), old(self).position()),
            ) && final(self).position() == old(self).position() + 1,
            old(self).position() >= volume(old(self).size()) ==> cell is None
                && final(self).position() == old(self).position(),
    {
        proof {
            use_type_invariant(&*self);
            if !self.done {
                lemma_cell_at_rank(self.size, self.order, self.current);
            }
        }
        if self.done {
            return None;
        }
        let here = self.current;
        let size = self.size;
        let fast = self.order[0];
        let mid = self.order[1];
        let slow = self.order[2];
        let mut next = self.current;
        let mut done = false;
        if next[fast] + 1 < size[fast] {
            next[fast] = next[fast] + 1;
        } else {
            next[fast] = 0;
            if next[mid] + 1 < size[mid] {
                next[mid] = next[mid] + 1;
            } else {
                next[mid] = 0;
                if next[slow] + 1 < size[slow] {
                    next[slow] = next[slow] + 1;
                } else {
                    next[slow] = 0;
                    done = true;
                }
            }
        }
        proof {
            lemma_volume_by_order(size, self.order);
            lemma_carry(
                size[fast as int] as int,
                size[mid as int] as int,
                size[slow as int] as int,
                here[fast as int] as int,
                here[mid as int] as int,
                here[slow as int] as int,
            );
        }
        self.current = next;
        self.done = done;
        Some(here)
    }
}

/// Counting up by one in place-value arithmetic with three digits.
proof fn lemma_carry(n: int, m: int, l: int, a: int, b: int, c: int)
    requires
        0 <= a < n,
        0 <= b < m,
        0 <= c < l,
    ensures
        a + 1 < n ==> (a + 1) + n * (b + m * c) == a + n * (b + m * c) + 1,
        a + 1 == n && b + 1 < m ==> 0 + n * ((b + 1) + m * c) == a + n * (b + m * c) + 1,
        a + 1 == n && b + 1 == m && c + 1 < l ==> 0 + n * (0 + m * (c + 1)) == a + n * (b + m
            * c) + 1,
        a + 1 == n && b + 1 == m && c + 1 == l ==> n * m * l == a + n * (b + m * c) + 1,
{
    assert(a + 1 == n && b + 1 < m ==> 0 + n * ((b + 1) + m * c) == a + n * (b + m * c) + 1)
        by (nonlinear_arith);
    assert(a + 1 == n && b + 1 == m && c + 1 < l ==> 0 + n * (0 + m * (c + 1)) == a + n * (b + m
        * c) + 1) by (nonlinear_arith);
    assert(a + 1 == n && b + 1 == m && c + 1 == l ==> n * m * l == a + n * (b + m * c) + 1)
        by (nonlinear_arith);
}

} // verus!
