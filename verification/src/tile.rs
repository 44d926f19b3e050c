//! The integer matrix product of small tiles, and the kernels that probe the device.
use vstd::prelude::*;

verus! {

use crate::expr::{lemma_sum_equal, sum};

/// The term of an inner index in the product of a row and a column of the tiles.
pub open spec fn mmai_term(lhs: Seq<u8>, rhs: Seq<i8>, row: int, column: int) -> spec_fn(
    int,
) -> int {
    |k: int| lhs[row * 32 + k] * rhs[k * 16 + column]
}

/// The product of a 16 by 32 tile of unsigned bytes and a 32 by 16 tile of signed bytes, added
/// to a 16 by 16 tile. Tiles are stored row by row.
pub open spec fn mmai_product(lhs: Seq<u8>, rhs: Seq<i8>, acc: Seq<i32>) -> Seq<int> {
    Seq::new(256, |o: int| acc[o] + sum(mmai_term(lhs, rhs, o / 16, o % 16), 32))
}

/// A partial product of bytes.
proof fn lemma_mmai_bounds(lhs: Seq<u8>, rhs: Seq<i8>, row: int, column: int, n: int)
    requires
        0 <= n,
    ensures
        -32640 * n <= sum(mmai_term(lhs, rhs, row, column), n) <= 32385 * n,
    decreases n,
{
    if n > 0 {
        lemma_mmai_bounds(lhs, rhs, row, column, n - 1);
        let x = lhs[row * 32 + n - 1] as int;
        let y = rhs[(n - 1) * 16 + column] as int;
        assert(-32640 <= x * y <= 32385) by (nonlinear_arith)
            requires
                0 <= x <= 255,
                -128 <= y <= 127,
        ;
    }
}

/// Computes [`mmai_product`]. The accumulators leave room for 32 products of bytes.
pub fn mmai(lhs: &Vec<u8>, rhs: &Vec<i8>, acc: &Vec<i32>) -> (r: Vec<i32>)
    requires
        lhs@.len() == 512,
        rhs@.len() == 512,
        acc@.len() == 256,
        forall|o: int|
            0 <= o < 256 ==> i32::MIN + 32 * 32640 <= #[trigger] acc@[o] <= i32::MAX - 32 * 32385,
    ensures
        r@.len() == 256,
        forall|o: int| 0 <= o < 256 ==> r@[o] == mmai_product(lhs@, rhs@, acc@)[o],
{
    let ghost expected = mmai_product(lhs@, rhs@, acc@);
    let mut r: Vec<i32> = Vec::new();
    let mut o: usize = 0;
    while o < 256
        invariant
            o <= 256,
            lhs@.len() == 512,
            rhs@.len() == 512,
            acc@.len() == 256,
            forall|j: int|
                0 <= j < 256 ==> i32::MIN + 32 * 32640 <= #[trigger] acc@[j] <= i32::MAX - 32
                    * 32385,
            expected == mmai_product(lhs@, rhs@, acc@),
            r@.len() == o,
            forall|j: int| 0 <= j < o ==> r@[j] == expected[j],
        decreases 256 - o,
    {
        let row: usize = o / 16;
        let column: usize = o % 16;
        let mut total: i32 = acc[o];
        let mut k: usize = 0;
        while k < 32
            invariant
                k <= 32,
                o < 256,
                row == o / 16,
                column == o % 16,
                lhs@.len() == 512,
                rhs@.len() == 512,
                acc@.len() == 256,
                i32::MIN + 32 * 32640 <= acc@[o as int] <= i32::MAX - 32 * 32385,
                total == acc@[o as int] + sum(
                    mmai_term(lhs@, rhs@, row as int, column as int),
                    k as int,
                ),
            decreases 32 - k,
        {
            proof {
                lemma_mmai_bounds(lhs@, rhs@, row as int, column as int, k as int);
                lemma_mmai_bounds(lhs@, rhs@, row as int, column as int, k + 1);
                let x = lhs@[row * 32 + k] as int;
                let y = rhs@[k * 16 + column] as int;
                assert(-32640 <= x * y <= 32385) by (nonlinear_arith)
                    requires
                        0 <= x <= 255,
                        -128 <= y <= 127,
                ;
            }
            total = total + lhs[row * 32 + k] as i32 * rhs[k * 16 + column] as i32;
            k = k + 1;
        }
        r.push(total);
        o = o + 1;
    }
    r
}

/// A tile of zeros.
pub fn zero_tile() -> (r: Vec<i32>)
    ensures
        r@ == Seq::new(256, |o: int| 0i32),
{
    let mut r: Vec<i32> = Vec::new();
    let mut o: usize = 0;
    while o < 256
        invariant
            o <= 256,
            r@ == Seq::new(o as nat, |j: int| 0i32),
        decreases 256 - o,
    {
        r.push(0);
        o = o + 1;
    }
    r
}

/// An integer that a kernel stores, and where.
#[derive(Debug, Clone, Copy, PartialEq, Eq, Structural)]
pub struct IntStore {
    pub index: i32,
    pub value: i32,
}

/// A sum of ones.
proof fn lemma_sum_ones(n: int)
    requires
        0 <= n,
    ensures
        sum(|k: int| 1int, n) == n,
    decreases n,
{
    if n > 0 {
        lemma_sum_ones(n - 1);
    }
}

/// The probe of the matrix unit: the product of two tiles of ones has 32 everywhere.
pub fn mmai_i8_16x16_probe() -> (r: Vec<IntStore>)
    ensures
        r@.len() == 256,
        forall|o: int|
            0 <= o < 256 ==> (#[trigger] r@[o]).index == o && r@[o].value == 32,
{
    let mut lhs: Vec<u8> = Vec::new();
    let mut rhs: Vec<i8> = Vec::new();
    while lhs.len() < 512
        invariant
            lhs@.len() <= 512,
            rhs@.len() == lhs@.len(),
            forall|i: int| 0 <= i < lhs@.len() ==> lhs@[i] == 1,
            forall|i: int| 0 <= i < rhs@.len() ==> rhs@[i] == 1,
        decreases 512 - lhs@.len(),
    {
        lhs.push(1);
        rhs.push(1);
    }
    let result = mmai(&lhs, &rhs, &zero_tile());
    let mut r: Vec<IntStore> = Vec::new();
    let mut o: i32 = 0;
    while o < 256
        invariant
            0 <= o <= 256,
            lhs@.len() == 512,
            rhs@.len() == 512,
            forall|i: int| 0 <= i < 512 ==> lhs@[i] == 1,
            forall|i: int| 0 <= i < 512 ==> rhs@[i] == 1,
            result@.len() == 256,
            forall|j: int|
                0 <= j < 256 ==> #[trigger] result@[j] == sum(
                    mmai_term(lhs@, rhs@, j / 16, j % 16),
                    32,
                ),
            r@.len() == o,
            forall|j: int| 0 <= j < o ==> (#[trigger] r@[j]).index == j && r@[j].value == 32,
        decreases 256 - o,
    {
        proof {
            let f = mmai_term(lhs@, rhs@, o as int / 16, o as int % 16);
            let ones = |k: int| 1int;
            assert forall|k: int| 0 <= k < 32 implies #[trigger] f(k) == ones(k) by {
                let row = o as int / 16;
                assert(0 <= row * 32 + k < 512);
                assert(0 <= k * 16 + o as int % 16 < 512);
            }
            lemma_sum_equal(f, ones, 32);
            lemma_sum_ones(32);
        }
        r.push(IntStore { index: o, value: result[o as usize] });
        o = o + 1;
    }
    r
}

/// A single precision number that a kernel stores, by its bits, and where.
#[derive(Debug, Clone, Copy, PartialEq, Eq, Structural)]
pub struct BitsStore {
    pub index: i32,
    pub bits: u32,
}

/// Whether a program of the fill kernel stores an element: programs take runs of 128 elements in
/// turns.
pub open spec fn is_filled(len: int, grid: int, pid: int, index: int) -> bool {
    &&& 0 <= index < len
    &&& pid <= index / 128
    &&& (index / 128 - pid) % grid == 0
}

/// The fill kernel: stores the number in all elements that fall to the program, in order.
pub fn fill_constant_f32(value: u32, len: i32, grid: i32, pid: i32) -> (r: Vec<BitsStore>)
    requires
        0 <= pid,
        0 < grid,
        128 * pid <= i32::MAX,
        128 * grid <= i32::MAX,
        len + 127 <= i32::MAX,
    ensures
        forall|j: int| 0 <= j < r@.len() ==> (#[trigger] r@[j]).bits == value,
        forall|i: int, j: int|
            0 <= i < j < r@.len() ==> (#[trigger] r@[i]).index < (#[trigger] r@[j]).index,
        forall|j: int|
            0 <= j < r@.len() ==> is_filled(
                len as int,
                grid as int,
                pid as int,
                (#[trigger] r@[j]).index as int,
            ),
        forall|index: int|
            #[trigger] is_filled(len as int, grid as int, pid as int, index) ==> exists|j: int|
                0 <= j < r@.len() && (#[trigger] r@[j]).index == index,
{
    let mut r: Vec<BitsStore> = Vec::new();
    let step: i64 = grid as i64 * 128;
    let mut offset: i64 = pid as i64 * 128;
    let ghost mut turn: int = 0;
    while offset < len as i64
        invariant
            0 <= pid,
            0 < grid,
            len + 127 <= i32::MAX,
            step == 128 * grid,
            128 * grid <= i32::MAX,
            0 <= turn,
            offset == 128 * (pid + turn * grid),
            0 <= offset <= 2 * (i32::MAX as int),
            forall|j: int| 0 <= j < r@.len() ==> (#[trigger] r@[j]).bits == value,
            forall|i: int, j: int|
                0 <= i < j < r@.len() ==> (#[trigger] r@[i]).index < (#[trigger] r@[j]).index,
            forall|j: int|
                0 <= j < r@.len() ==> (#[trigger] r@[j]).index < offset && is_filled(
                    len as int,
                    grid as int,
                    pid as int,
                    r@[j].index as int,
                ),
            forall|index: int|
                #[trigger] is_filled(len as int, grid as int, pid as int, index) && index < offset
                    ==> exists|j: int| 0 <= j < r@.len() && (#[trigger] r@[j]).index == index,
        decreases 2 * (i32::MAX as int) - offset,
    {
        let mut lane: i64 = 0;
        while lane < 128 && offset + lane < len as i64
            invariant
                0 <= lane <= 128,
                0 <= pid,
                0 < grid,
                0 <= turn,
                0 <= offset < len <= i32::MAX,
                offset == 128 * (pid + turn * grid),
                forall|j: int| 0 <= j < r@.len() ==> (#[trigger] r@[j]).bits == value,
                forall|i: int, j: int|
                    0 <= i < j < r@.len() ==> (#[trigger] r@[i]).index < (#[trigger] r@[j]).index,
                forall|j: int|
                    0 <= j < r@.len() ==> (#[trigger] r@[j]).index < offset + lane && is_filled(
                        len as int,
                        grid as int,
                        pid as int,
                        r@[j].index as int,
                    ),
                forall|index: int|
                    #[trigger] is_filled(len as int, grid as int, pid as int, index) && index
                        < offset + lane ==> exists|j: int|
                        0 <= j < r@.len() && (#[trigger] r@[j]).index == index,
            decreases 128 - lane,
        {
            let index: i32 = (offset + lane) as i32;
            let ghost before = r@;
            proof {
                lemma_run(pid as int, grid as int, turn, index as int);
            }
            r.push(BitsStore { index, bits: value });
            proof {
                assert forall|i: int|
                    #[trigger] is_filled(len as int, grid as int, pid as int, i) && i < offset
                        + lane + 1 implies exists|j: int|
                    0 <= j < r@.len() && (#[trigger] r@[j]).index == i by {
                    if i == index {
                        assert(r@[before.len() as int].index == i);
                    } else {
                        let j = choose|j: int|
                            0 <= j < before.len() && (#[trigger] before[j]).index == i;
                        assert(r@[j].index == i);
                    }
                }
            }
            lane = lane + 1;
        }
        proof {
            assert forall|index: int|
                #[trigger] is_filled(len as int, grid as int, pid as int, index) && index < offset
                    + step implies exists|j: int|
                0 <= j < r@.len() && (#[trigger] r@[j]).index == index by {
                lemma_gap(pid as int, grid as int, turn, index);
            }
            assert((turn + 1) * grid == turn * grid + grid) by (nonlinear_arith);
            turn = turn + 1;
        }
        offset = offset + step;
    }
    r
}

/// The elements of a run fall to the program whose turn it is.
proof fn lemma_run(pid: int, grid: int, turn: int, index: int)
    requires
        0 <= pid,
        0 < grid,
        0 <= turn,
        128 * (pid + turn * grid) <= index < 128 * (pid + turn * grid) + 128,
    ensures
        pid <= index / 128,
        (index / 128 - pid) % grid == 0,
{
    assert(0 <= turn * grid) by (nonlinear_arith)
        requires
            0 <= turn,
            0 < grid,
    ;
    assert(index / 128 == pid + turn * grid);
    vstd::arithmetic::div_mod::lemma_mod_multiples_basic(turn, grid);
}

/// Between its run and its next run nothing falls to a program.
proof fn lemma_gap(pid: int, grid: int, turn: int, index: int)
    requires
        0 <= pid,
        0 < grid,
        0 <= turn,
        pid <= index / 128,
        (index / 128 - pid) % grid == 0,
        index < 128 * (pid + turn * grid) + 128 * grid,
    ensures
        index < 128 * (pid + turn * grid) + 128,
{
    let q = (index / 128 - pid) / grid;
    vstd::arithmetic::div_mod::lemma_fundamental_div_mod(index / 128 - pid, grid);
    assert(index / 128 == pid + grid * q);
    assert(index / 128 < pid + turn * grid + grid);
    assert(q <= turn) by (nonlinear_arith)
        requires
            0 < grid,
            grid * q < turn * grid + grid,
    ;
    assert(grid * q <= turn * grid) by (nonlinear_arith)
        requires
            0 < grid,
            q <= turn,
    ;
}

/// With any number of programs, every element falls to exactly one of them.
pub proof fn law_fill_covers_once(len: int, grid: int, index: int)
    requires
        0 < grid,
        0 <= index < len,
    ensures
        exists|pid: int| 0 <= pid < grid && #[trigger] is_filled(len, grid, pid, index),
        forall|p: int, q: int|
            0 <= p < grid && 0 <= q < grid && #[trigger] is_filled(len, grid, p, index)
                && #[trigger] is_filled(len, grid, q, index) ==> p == q,
{
    let run = index / 128;
    let pid = run % grid;
    vstd::arithmetic::div_mod::lemma_fundamental_div_mod(run, grid);
    vstd::arithmetic::div_mod::lemma_mod_bound(run, grid);
    vstd::arithmetic::div_mod::lemma_mod_multiples_basic(run / grid, grid);
    assert((run / grid) * grid == grid * (run / grid)) by (nonlinear_arith);
    assert(0 <= grid * (run / grid)) by (nonlinear_arith)
        requires
            0 <= run,
            0 < grid,
    ;
    assert(is_filled(len, grid, pid, index));
    assert forall|p: int| 0 <= p < grid && #[trigger] is_filled(len, grid, p, index) implies p
        == pid by {
        let k = (run - p) / grid;
        vstd::arithmetic::div_mod::lemma_fundamental_div_mod(run - p, grid);
        vstd::arithmetic::div_mod::lemma_fundamental_div_mod_converse(run, grid, k, p);
    }
}

/// Elements that the smoke test fills.
pub const SMOKE_LEN: usize = 257;

/// The bits of the number that the smoke test fills with: 3.25.
pub const SMOKE_VALUE: u32 = 0x4050_0000;

/// How many runs of 128 elements a buffer has.
pub open spec fn runs_in(len: int) -> int {
    (len + 127) / 128
}

/// The runs of a buffer hold all its elements, and none is empty.
pub proof fn law_runs_hold_the_buffer(len: int)
    requires
        0 <= len,
    ensures
        len <= 128 * runs_in(len) < len + 128,
{
}

/// How many programs fill a buffer with one run of 128 elements each.
pub fn fill_blocks(len: u32) -> (r: u32)
    ensures
        r == runs_in(len as int),
{
    if len % 128 == 0 {
        len / 128
    } else {
        len / 128 + 1
    }
}

/// Runs the fill kernel on a buffer: afterwards every element is the number.
pub fn run_fill(value: u32, len: u32) -> (r: Vec<u32>)
    requires
        len + 127 <= i32::MAX,
    ensures
        r@.len() == len,
        forall|i: int| 0 <= i < len ==> r@[i] == value,
{
    let mut out: Vec<u32> = Vec::new();
    while out.len() < len as usize
        invariant
            out@.len() <= len,
        decreases len - out@.len(),
    {
        out.push(0);
    }
    let grid: u32 = fill_blocks(len);
    let mut pid: u32 = 0;
    while pid < grid
        invariant
            pid <= grid,
            grid == (len + 127) / 128,
            len + 127 <= i32::MAX,
            out@.len() == len,
            forall|p: int, i: int|
                0 <= p < pid && #[trigger] is_filled(len as int, grid as int, p, i) ==> out@[i]
                    == value,
        decreases grid - pid,
    {
        let stores = fill_constant_f32(value, len as i32, grid as i32, pid as i32);
        let ghost before = out@;
        let mut j: usize = 0;
        while j < stores.len()
            invariant
                j <= stores@.len(),
                before.len() == len,
                out@.len() == len,
                forall|k: int|
                    0 <= k < stores@.len() ==> (#[trigger] stores@[k]).bits == value && 0
                        <= stores@[k].index < len,
                forall|i: int| 0 <= i < len && before[i] == value ==> #[trigger] out@[i] == value,
                forall|k: int| 0 <= k < j ==> out@[(#[trigger] stores@[k]).index as int] == value,
            decreases stores@.len() - j,
        {
            let index: usize = stores[j].index as usize;
            out.set(index, stores[j].bits);
            j = j + 1;
        }
        proof {
            assert forall|p: int, i: int|
                0 <= p < pid + 1 && #[trigger] is_filled(
                    len as int,
                    grid as int,
                    p,
                    i,
                ) implies out@[i] == value by {
                if p == pid {
                    let k = choose|k: int|
                        0 <= k < stores@.len() && (#[trigger] stores@[k]).index == i;
                    assert(out@[stores@[k].index as int] == value);
                } else {
                    assert(before[i] == value);
                }
            }
        }
        pid = pid + 1;
    }
    proof {
        assert forall|i: int| 0 <= i < len implies out@[i] == value by {
            law_fill_covers_once(len as int, grid as int, i);
            let p = choose|p: int|
                0 <= p < grid && #[trigger] is_filled(len as int, grid as int, p, i);
            assert(is_filled(len as int, grid as int, p, i));
        }
    }
    out
}

/// Runs the probe of the matrix unit on a buffer: afterwards every element is 32.
pub fn run_mmai_probe() -> (r: Vec<i32>)
    ensures
        r@.len() == 256,
        forall|i: int| 0 <= i < 256 ==> r@[i] == 32,
{
    let stores = mmai_i8_16x16_probe();
    let mut out = zero_tile();
    let mut j: usize = 0;
    while j < 256
        invariant
            j <= 256,
            out@.len() == 256,
            stores@.len() == 256,
            forall|o: int|
                0 <= o < 256 ==> (#[trigger] stores@[o]).index == o && stores@[o].value == 32,
            forall|i: int| 0 <= i < j ==> out@[i] == 32,
        decreases 256 - j,
    {
        let index: usize = stores[j].index as usize;
        out.set(index, stores[j].value);
        j = j + 1;
    }
    out
}

/// A 16 by 32 tile, row by row.
pub open spec fn left_tile(m: spec_fn(int, int) -> u8) -> Seq<u8> {
    Seq::new(512, |p: int| m(p / 32, p % 32))
}

/// A 32 by 16 tile, row by row.
pub open spec fn right_tile(m: spec_fn(int, int) -> i8) -> Seq<i8> {
    Seq::new(512, |p: int| m(p / 16, p % 16))
}

/// A 16 by 16 tile, row by row.
pub open spec fn square_tile<T>(m: spec_fn(int, int) -> T) -> Seq<T> {
    Seq::new(256, |p: int| m(p / 16, p % 16))
}

/// Multiplying tiles multiplies the matrices that they hold: the product of tiles that hold `l` and
/// `r`, added to a tile that holds `a`, holds `l * r + a`.
pub proof fn law_tiles_multiply_as_matrices(
    l: spec_fn(int, int) -> u8,
    r: spec_fn(int, int) -> i8,
    a: spec_fn(int, int) -> i32,
)
    ensures
        mmai_product(left_tile(l), right_tile(r), square_tile(a)) == square_tile(
            |row: int, column: int| a(row, column) + sum(|k: int| l(row, k) * r(k, column), 32),
        ),
{
    let product = mmai_product(left_tile(l), right_tile(r), square_tile(a));
    let expected = square_tile(
        |row: int, column: int| a(row, column) + sum(|k: int| l(row, k) * r(k, column), 32),
    );
    assert forall|o: int| 0 <= o < 256 implies product[o] == expected[o] by {
        let row = o / 16;
        let column = o % 16;
        let f = mmai_term(left_tile(l), right_tile(r), row, column);
        let g = |k: int| l(row, k) * r(k, column);
        assert forall|k: int| 0 <= k < 32 implies #[trigger] f(k) == g(k) by {
            let x = row * 32 + k;
            let y = k * 16 + column;
            assert(x / 32 == row && x % 32 == k);
            assert(y / 16 == k && y % 16 == column);
        }
        lemma_sum_equal(f, g, 32);
    }
    assert(product =~= expected);
}

/// Runs of 128 elements go to the programs in turns: a program stores exactly the elements of the
/// buffer in the runs `pid`, `pid + grid`, `pid + 2 * grid` and so on.
pub proof fn law_fill_takes_turns(len: int, grid: int, pid: int, index: int)
    requires
        0 < grid,
    ensures
        is_filled(len, grid, pid, index) <==> 0 <= index < len && exists|turn: int|
            0 <= turn && index / 128 == pid + #[trigger] (turn * grid),
{
    let run = index / 128;
    if is_filled(len, grid, pid, index) {
        let turn = (run - pid) / grid;
        vstd::arithmetic::div_mod::lemma_fundamental_div_mod(run - pid, grid);
        assert(run == pid + turn * grid) by (nonlinear_arith)
            requires
                run - pid == grid * turn,
        ;
        assert(0 <= turn) by (nonlinear_arith)
            requires
                0 <= run - pid,
                run - pid == grid * turn,
                0 < grid,
        ;
    }
    if 0 <= index < len && exists|turn: int|
        0 <= turn && index / 128 == pid + #[trigger] (turn * grid) {
        let turn = choose|turn: int| 0 <= turn && index / 128 == pid + #[trigger] (turn * grid);
        assert(0 <= turn * grid) by (nonlinear_arith)
            requires
                0 <= turn,
                0 < grid,
        ;
        vstd::arithmetic::div_mod::lemma_mod_multiples_basic(turn, grid);
    }
}

} // verus!
