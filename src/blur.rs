//! Index logic of a Gaussian blur approximated by three box passes per axis:
//! the choice of box widths, the edge-replicating windows a running sum
//! slides over, and the in-place transpose between the two axes.
use vstd::multiset::Multiset;
use vstd::prelude::*;

verus! {

/// Position of the cell in row `r` and column `c` of a row-major square grid of side `s`.
pub open spec fn cell(s: int, r: int, c: int) -> int {
    r * s + c
}

proof fn lemma_cell_bounds(s: int, r: int, c: int)
    requires
        0 <= r < s,
        0 <= c < s,
    ensures
        0 <= cell(s, r, c) < s * s,
{
    assert(0 <= r * s + c < s * s) by (nonlinear_arith)
        requires
            0 <= r < s,
            0 <= c < s,
    ;
}

proof fn lemma_cell_injective(s: int, r1: int, c1: int, r2: int, c2: int)
    requires
        0 <= r1 < s,
        0 <= c1 < s,
        0 <= r2 < s,
        0 <= c2 < s,
        cell(s, r1, c1) == cell(s, r2, c2),
    ensures
        r1 == r2,
        c1 == c2,
{
    assert(r1 == r2 && c1 == c2) by (nonlinear_arith)
        requires
            0 <= r1 < s,
            0 <= c1 < s,
            0 <= r2 < s,
            0 <= c2 < s,
            r1 * s + c1 == r2 * s + c2,
    ;
}

/// The grid `t` is the transpose of the grid `s`, both square of side `n`.
pub open spec fn is_transpose_of<T>(t: Seq<T>, s: Seq<T>, n: int) -> bool {
    &&& t.len() == n * n
    &&& s.len() == n * n
    &&& forall|r: int, c: int|
        0 <= r < n && 0 <= c < n ==> #[trigger] t[cell(n, r, c)] == s[cell(n, c, r)]
}

/// Transposes a square row-major grid of side `size` in place.
pub fn transpose_square<T: Copy>(buf: &mut [T], size: usize)
    requires
        old(buf)@.len() == size * size,
    ensures
        is_transpose_of(final(buf)@, old(buf)@, size as int),
{
    let ghost orig = buf@;
    let ghost n = size as int;
    let len = buf.len();
    if size == 0 {
        assert(buf@.len() == 0);
        return;
    }
    let mut y: usize = 0;
    while y < size
        invariant
            n == size,
            len == n * n,
            buf@.len() == n * n,
            orig.len() == n * n,
            0 <= y <= size,
            forall|r: int, c: int|
                0 <= r < n && 0 <= c < n ==> #[trigger] buf@[cell(n, r, c)] == if r < y || c < y {
                    orig[cell(n, c, r)]
                } else {
                    orig[cell(n, r, c)]
                },
        decreases size - y,
    {
        let mut x: usize = y + 1;
        while x < size
            invariant
                n == size,
                len == n * n,
            len == n * n,
                buf@.len() == n * n,
                orig.len() == n * n,
                0 <= y < size,
                y + 1 <= x <= size,
                forall|r: int, c: int|
                    0 <= r < n && 0 <= c < n ==> #[trigger] buf@[cell(n, r, c)] == if r < y || c < y
                        || (r == y && c < x) || (c == y && r < x) {
                        orig[cell(n, c, r)]
                    } else {
                        orig[cell(n, r, c)]
                    },
            decreases size - x,
        {
            proof {
                lemma_cell_bounds(n, y as int, x as int);
                lemma_cell_bounds(n, x as int, y as int);
                assert(y * size <= y * size + x < len);
                assert(x * size + y < n * n);
            }
            let i = y * size + x;
            let j = x * size + y;
            let a = buf[i];
            let b = buf[j];
            buf[i] = b;
            buf[j] = a;
            proof {
                assert forall|r: int, c: int| 0 <= r < n && 0 <= c < n implies #[trigger] buf@[cell(n, r, c)]
                    == if r < y || c < y || (r == y && c < x + 1) || (c == y && r < x + 1) {
                    orig[cell(n, c, r)]
                } else {
                    orig[cell(n, r, c)]
                } by {
                    lemma_cell_bounds(n, r, c);
                    lemma_cell_bounds(n, c, r);
                    if cell(n, r, c) == i {
                        lemma_cell_injective(n, r, c, y as int, x as int);
                    } else if cell(n, r, c) == j {
                        lemma_cell_injective(n, r, c, x as int, y as int);
                    }
                }
            }
            x = x + 1;
        }
        y = y + 1;
    }
}

/// Transposing a square grid twice gives the grid back.
pub proof fn lemma_transpose_twice<T>(a: Seq<T>, b: Seq<T>, c: Seq<T>, n: int)
    requires
        n >= 0,
        is_transpose_of(b, a, n),
        is_transpose_of(c, b, n),
    ensures
        c == a,
{
    assert forall|i: int| 0 <= i < a.len() implies c[i] == a[i] by {
        let r = i / n;
        let k = i % n;
        vstd::arithmetic::div_mod::lemma_fundamental_div_mod(i, n);
        vstd::arithmetic::div_mod::lemma_mod_pos_bound(i, n);
        vstd::arithmetic::div_mod::lemma_div_pos_is_pos(i, n);
        assert(n > 0) by (nonlinear_arith)
            requires
                0 <= i < n * n,
                n >= 0,
        ;
        assert(r < n && i == r * n + k) by (nonlinear_arith)
            requires
                n > 0,
                i == n * r + k,
                0 <= k,
                i < n * n,
                0 <= r,
        ;
        lemma_cell_bounds(n, r, k);
        lemma_cell_bounds(n, k, r);
        assert(i == cell(n, r, k));
        assert(c[cell(n, r, k)] == b[cell(n, k, r)]);
        assert(b[cell(n, k, r)] == a[cell(n, r, k)]);
    }
    assert(c =~= a);
}

/// Largest odd width not above `w`, the narrower of the two box widths
/// that approximate a Gaussian whose ideal box width rounds down to `w`.
pub fn lower_box_width(w: u32) -> (r: u32)
    requires
        w >= 1,
    ensures
        r % 2 == 1,
        r <= w < r + 2,
{
    if w % 2 == 0 {
        w - 1
    } else {
        w
    }
}

/// The three box widths: the first `m` passes use the narrow width `wl`,
/// the others the wide width `wl + 2`.
pub fn box_widths(wl: u32, m: u32) -> (r: [u32; 3])
    requires
        wl % 2 == 1,
        wl <= u32::MAX - 2,
    ensures
        forall|i: int| 0 <= i < 3 ==> #[trigger] r[i] == if i < m { wl as int } else { wl + 2 },
{
    let wu = wl + 2;
    [
        if 0 < m { wl } else { wu },
        if 1 < m { wl } else { wu },
        if 2 < m { wl } else { wu },
    ]
}

/// Index `i` moved into `[0, w)` by replicating the edges.
pub open spec fn clamp_index(i: int, w: int) -> int {
    if i < 0 {
        0
    } else if i >= w {
        w - 1
    } else {
        i
    }
}

/// The indices of a row of width `w` that a box of radius `rd` centred on
/// `x` averages, edge samples repeated where the box leaves the row.
pub open spec fn window(x: int, rd: int, w: int) -> Seq<int> {
    Seq::new((2 * rd + 1) as nat, |k: int| clamp_index(x - rd + k, w))
}

/// Radius of a box filter of odd width.
pub fn filter_radius(filter_width: u32) -> (r: usize)
    requires
        filter_width % 2 == 1,
    ensures
        2 * r + 1 == filter_width,
{
    ((filter_width - 1) / 2) as usize
}

/// The indices summed for the first output sample of a row of width `w`.
pub fn window_start(w: usize, rd: usize) -> (r: Vec<usize>)
    requires
        w >= 1,
        2 * rd + 1 <= usize::MAX,
    ensures
        r@.len() == 2 * rd + 1,
        forall|k: int| 0 <= k < r@.len() ==> r@[k] as int == #[trigger] window(0, rd as int, w as int)[k],
{
    let mut r: Vec<usize> = Vec::new();
    let mut k: usize = 0;
    while k < rd
        invariant
            k <= rd,
            r@.len() == k,
            forall|j: int| 0 <= j < k ==> r@[j] == 0,
        decreases rd - k,
    {
        r.push(0);
        k = k + 1;
    }
    let mut i: usize = 0;
    while i <= rd
        invariant
            2 * rd + 1 <= usize::MAX,
            w >= 1,
            i <= rd + 1,
            r@.len() == rd + i,
            forall|j: int| 0 <= j < rd ==> r@[j] == 0,
            forall|j: int| rd <= j < rd + i ==> r@[j] as int == clamp_index(j - rd, w as int),
        decreases rd + 1 - i,
    {
        if i < w {
            r.push(i);
        } else {
            r.push(w - 1);
        }
        i = i + 1;
    }
    r
}

/// The index that enters the box when it slides from `x` to `x + 1`.
pub fn entering_index(x: usize, rd: usize, w: usize) -> (r: usize)
    requires
        w >= 1,
    ensures
        r == clamp_index(x + rd + 1, w as int),
{
    if x >= w || rd >= w - 1 - x {
        w - 1
    } else {
        x + rd + 1
    }
}

/// The index that leaves the box when it slides from `x` to `x + 1`.
pub fn leaving_index(x: usize, rd: usize, w: usize) -> (r: usize)
    requires
        x < w,
    ensures
        r == clamp_index(x - rd, w as int),
{
    if x < rd {
        0
    } else {
        x - rd
    }
}

/// Sliding the box one step drops its first index, the leaving one, and
/// appends the entering one; so a running sum stays the sum over the box.
pub proof fn lemma_window_slides(x: int, rd: int, w: int)
    requires
        rd >= 0,
        w >= 1,
    ensures
        window(x, rd, w)[0] == clamp_index(x - rd, w),
        window(x + 1, rd, w) == window(x, rd, w).drop_first().push(clamp_index(x + rd + 1, w)),
        window(x + 1, rd, w).to_multiset() == window(x, rd, w).to_multiset().remove(
            clamp_index(x - rd, w),
        ).insert(clamp_index(x + rd + 1, w)),
{
    let s = window(x, rd, w);
    let t = window(x + 1, rd, w);
    assert(t =~= s.drop_first().push(clamp_index(x + rd + 1, w)));
    assert(s.drop_first() =~= s.remove(0));
    vstd::seq_lib::to_multiset_remove(s, 0);
    vstd::seq_lib::to_multiset_build(s.remove(0), clamp_index(x + rd + 1, w));
}

/// What a running accumulator holds after `x` slides from the first
/// window: the leaving index taken out and the entering one put in at each step.
pub open spec fn running_window(x: nat, rd: int, w: int) -> Multiset<int>
    decreases x,
{
    if x == 0 {
        window(0, rd, w).to_multiset()
    } else {
        let p = (x - 1) as int;
        running_window((x - 1) as nat, rd, w).remove(clamp_index(p - rd, w)).insert(
            clamp_index(p + rd + 1, w),
        )
    }
}

/// Starting from the first window and sliding with the entering and leaving
/// indices, the accumulator holds exactly the window of every position.
pub proof fn lemma_running_window(x: nat, rd: int, w: int)
    requires
        rd >= 0,
        w >= 1,
    ensures
        running_window(x, rd, w) == window(x as int, rd, w).to_multiset(),
    decreases x,
{
    if x > 0 {
        lemma_running_window((x - 1) as nat, rd, w);
        lemma_window_slides(x - 1, rd, w);
    }
}

/// A box of width one holds only the sample under it: such a pass leaves
/// a row as it is.
pub proof fn lemma_unit_window(x: int, w: int)
    requires
        0 <= x < w,
    ensures
        window(x, 0, w) == seq![x],
{
    assert(window(x, 0, w) =~= seq![x]);
}

} // verus!
