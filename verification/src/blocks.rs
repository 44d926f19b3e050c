//! The byte layouts of quantized blocks, and how they are decoded.
//!
//! - Q4_K: 256 weights in 144 bytes. Two half precision scales at 0 and 2, twelve bytes of
//!   packed six bit scales and mins at 4, 128 bytes of packed nibbles at 16.
//! - Q6_K: 256 weights in 210 bytes. Low nibbles at 0, high bit pairs at 128, sixteen signed
//!   scales at 192, a half precision scale at 208.
//! - Q8_1: 32 activations in 36 bytes. A half precision scale at 0, the half precision sum of
//!   the activations at 2, 32 signed bytes at 4.
//! - Q8_1 for matrix products: four such groups in 144 bytes, their scales first. Either a
//!   half precision scale and sum per group, or one single precision scale per group.
use vstd::prelude::*;

verus! {

/// Columns in a block of weights.
pub const QK_K: usize = 256;

/// Columns in a Q8_1 block.
pub const Q8_1_BLOCK_SIZE: usize = 32;

/// Bytes of a Q8_1 block.
pub const Q8_1_BLOCK_BYTES: usize = 36;

/// Columns in a Q8_1 block for matrix products.
pub const Q8_1_MMQ_BLOCK_SIZE: usize = 128;

/// Bytes of a Q8_1 block for matrix products.
pub const Q8_1_MMQ_BLOCK_BYTES: usize = 144;

/// Bytes of a Q4_K block.
pub const Q4K_BLOCK_BYTES: usize = 144;

/// Bytes of a Q6_K block.
pub const Q6K_BLOCK_BYTES: usize = 210;

/// The little endian half precision bits in the `i`-th pair of bytes.
pub open spec fn half_at(mem: Seq<u8>, i: int) -> u16 {
    (mem[2 * i] + 256 * mem[2 * i + 1]) as u16
}

/// The little endian single precision bits in the `i`-th four bytes.
pub open spec fn single_at(mem: Seq<u8>, i: int) -> u32 {
    (mem[4 * i] + 0x100 * mem[4 * i + 1] + 0x1_0000 * mem[4 * i + 2] + 0x100_0000 * mem[4 * i
        + 3]) as u32
}

/// A byte in two's complement.
pub open spec fn signed(byte: u8) -> int {
    if byte < 128 {
        byte as int
    } else {
        byte - 256
    }
}

/// Reads [`half_at`].
pub fn read_half(mem: &[u8], i: usize) -> (r: u16)
    requires
        2 * i + 1 < mem.len(),
    ensures
        r == half_at(mem@, i as int),
{
    mem[2 * i] as u16 + 256 * mem[2 * i + 1] as u16
}

/// Reads [`single_at`].
pub fn read_single(mem: &[u8], i: usize) -> (r: u32)
    requires
        4 * i + 3 < mem.len(),
    ensures
        r == single_at(mem@, i as int),
{
    mem[4 * i] as u32 + 0x100 * mem[4 * i + 1] as u32 + 0x1_0000 * mem[4 * i + 2] as u32
        + 0x100_0000 * mem[4 * i + 3] as u32
}

/// Reads a byte in two's complement.
pub fn read_signed(mem: &[u8], i: usize) -> (r: i8)
    requires
        i < mem.len(),
    ensures
        r == signed(mem@[i as int]),
{
    let byte: u8 = mem[i];
    if byte < 128 {
        byte as i8
    } else {
        (byte as i16 - 256) as i8
    }
}

// Q4_K

/// A group of 32 Q4_K weights. The weight in a lane stands for
/// `d * scale * quants[lane] - dmin * min`.
#[derive(Debug, PartialEq)]
pub struct Q4Group {
    pub d: u16,
    pub dmin: u16,
    pub scale: u8,
    pub min: u8,
    pub quants: Vec<u8>,
}

/// The mathematical model of a [`Q4Group`].
#[verifier::ext_equal]
pub struct Q4GroupView {
    pub d: u16,
    pub dmin: u16,
    pub scale: u8,
    pub min: u8,
    pub quants: Seq<u8>,
}

impl View for Q4Group {
    type V = Q4GroupView;

    open spec fn view(&self) -> Q4GroupView {
        Q4GroupView {
            d: self.d,
            dmin: self.dmin,
            scale: self.scale,
            min: self.min,
            quants: self.quants@,
        }
    }
}

/// The six bit scale of a group. The first four groups have a byte each. The others keep four
/// bits in the low half of a byte of their own, and two in the top of the byte of an earlier
/// group.
pub open spec fn q4k_scale(mem: Seq<u8>, base: int, group: int) -> u8 {
    if group < 4 {
        mem[base + 4 + group] % 64
    } else {
        (mem[base + 8 + group] % 16 + 16 * (mem[base + group] / 64)) as u8
    }
}

/// The six bit min of a group, packed like the scale.
pub open spec fn q4k_min(mem: Seq<u8>, base: int, group: int) -> u8 {
    if group < 4 {
        mem[base + 8 + group] % 64
    } else {
        (mem[base + 8 + group] / 16 + 16 * (mem[base + 4 + group] / 64)) as u8
    }
}

/// The four bit weight of a lane: two groups share 32 bytes, the even one in the low halves.
pub open spec fn q4k_quant(mem: Seq<u8>, base: int, group: int, lane: int) -> u8 {
    let byte = mem[base + 16 + (group / 2) * 32 + lane];
    if group % 2 == 0 {
        byte % 16
    } else {
        byte / 16
    }
}

/// The group of the Q4_K block at a byte offset.
pub open spec fn q4k_group(mem: Seq<u8>, base: int, group: int) -> Q4GroupView {
    Q4GroupView {
        d: half_at(mem, base / 2),
        dmin: half_at(mem, base / 2 + 1),
        scale: q4k_scale(mem, base, group),
        min: q4k_min(mem, base, group),
        quants: Seq::new(32, |lane: int| q4k_quant(mem, base, group, lane)),
    }
}

/// Reads [`q4k_scale`] and [`q4k_min`].
pub fn read_q4k_scale_min(mem: &[u8], base: usize, group: usize) -> (r: (u8, u8))
    requires
        base + Q4K_BLOCK_BYTES <= mem.len(),
        group < 8,
    ensures
        r.0 == q4k_scale(mem@, base as int, group as int),
        r.1 == q4k_min(mem@, base as int, group as int),
        r.0 < 64,
        r.1 < 64,
{
    if group < 4 {
        let scale_byte: u8 = mem[base + 4 + group];
        let min_byte: u8 = mem[base + 8 + group];
        assert(scale_byte & 63 == scale_byte % 64) by (bit_vector);
        assert(min_byte & 63 == min_byte % 64) by (bit_vector);
        (scale_byte & 63, min_byte & 63)
    } else {
        let packed: u8 = mem[base + 8 + group];
        let scale_hi: u8 = mem[base + group];
        let min_hi: u8 = mem[base + 4 + group];
        proof {
            lemma_six_bits(packed, scale_hi);
            lemma_six_bits(packed, min_hi);
        }
        ((packed & 15) | ((scale_hi >> 6) << 4), (packed >> 4) | ((min_hi >> 6) << 4))
    }
}

/// Joining the top two bits of one byte to either half of another.
proof fn lemma_six_bits(packed: u8, high: u8)
    ensures
        ((packed & 15) | ((high >> 6) << 4)) == packed % 16 + 16 * (high / 64),
        ((packed >> 4) | ((high >> 6) << 4)) == packed / 16 + 16 * (high / 64),
        packed % 16 + 16 * (high / 64) < 64,
        packed / 16 + 16 * (high / 64) < 64,
{
    assert(((packed & 15) | ((high >> 6) << 4)) == packed % 16 + 16 * (high / 64)) by (bit_vector);
    assert(((packed >> 4) | ((high >> 6) << 4)) == packed / 16 + 16 * (high / 64)) by (bit_vector);
}

/// Reads [`q4k_quant`].
pub fn read_q4k_quant(mem: &[u8], base: usize, group: usize, lane: usize) -> (r: u8)
    requires
        base + Q4K_BLOCK_BYTES <= mem.len(),
        group < 8,
        lane < 32,
    ensures
        r == q4k_quant(mem@, base as int, group as int, lane as int),
        r < 16,
{
    let byte: u8 = mem[base + 16 + (group / 2) * 32 + lane];
    assert(byte & 15 == byte % 16) by (bit_vector);
    assert((byte >> 4) & 15 == byte / 16) by (bit_vector);
    if group % 2 == 0 {
        byte & 15
    } else {
        (byte >> 4) & 15
    }
}

/// Reads a group of a Q4_K block.
pub fn read_q4k_group(mem: &[u8], base: usize, group: usize) -> (r: Q4Group)
    requires
        base + Q4K_BLOCK_BYTES <= mem.len(),
        group < 8,
    ensures
        r@ == q4k_group(mem@, base as int, group as int),
        r.quants@.len() == 32,
        r.scale < 64,
        r.min < 64,
        forall|l: int| 0 <= l < 32 ==> r.quants@[l] < 16,
{
    let d: u16 = read_half(mem, base / 2);
    let dmin: u16 = read_half(mem, base / 2 + 1);
    let (scale, min) = read_q4k_scale_min(mem, base, group);
    let mut quants: Vec<u8> = Vec::new();
    let mut lane: usize = 0;
    while lane < 32
        invariant
            lane <= 32,
            group < 8,
            base + Q4K_BLOCK_BYTES <= mem.len(),
            quants@.len() == lane,
            forall|l: int|
                0 <= l < lane ==> quants@[l] == q4k_quant(mem@, base as int, group as int, l)
                    && quants@[l] < 16,
        decreases 32 - lane,
    {
        quants.push(read_q4k_quant(mem, base, group, lane));
        lane = lane + 1;
    }
    let r = Q4Group { d, dmin, scale, min, quants };
    assert(r@.quants =~= q4k_group(mem@, base as int, group as int).quants);
    r
}

// Q8_1

/// A group of 32 Q8_1 activations. The activation in a lane stands for `d * quants[lane]`, and
/// `sum` for the sum of the activations before they were quantized.
#[derive(Debug, PartialEq)]
pub struct Q8Group {
    pub d: u16,
    pub sum: u16,
    pub quants: Vec<i8>,
}

/// The mathematical model of a [`Q8Group`].
#[verifier::ext_equal]
pub struct Q8GroupView {
    pub d: u16,
    pub sum: u16,
    pub quants: Seq<i8>,
}

impl View for Q8Group {
    type V = Q8GroupView;

    open spec fn view(&self) -> Q8GroupView {
        Q8GroupView { d: self.d, sum: self.sum, quants: self.quants@ }
    }
}

/// The 32 signed bytes from a byte offset on.
pub open spec fn signed_bytes(mem: Seq<u8>, start: int) -> Seq<i8> {
    Seq::new(32, |lane: int| signed(mem[start + lane]) as i8)
}

/// The Q8_1 block at a byte offset.
pub open spec fn q8_group(mem: Seq<u8>, base: int) -> Q8GroupView {
    Q8GroupView {
        d: half_at(mem, base / 2),
        sum: half_at(mem, base / 2 + 1),
        quants: signed_bytes(mem, base + 4),
    }
}

/// One of the four groups of the Q8_1 block for matrix products at a byte offset, in the layout
/// with a half precision scale and sum per group.
pub open spec fn q8_mmq_group(mem: Seq<u8>, base: int, slot: int) -> Q8GroupView {
    Q8GroupView {
        d: half_at(mem, (base + slot * 4) / 2),
        sum: half_at(mem, (base + slot * 4) / 2 + 1),
        quants: signed_bytes(mem, base + 16 + slot * 32),
    }
}

/// Reads 32 signed bytes.
pub fn read_signed_bytes(mem: &[u8], start: usize) -> (r: Vec<i8>)
    requires
        start + 32 <= mem.len(),
    ensures
        r@ == signed_bytes(mem@, start as int),
{
    let mut quants: Vec<i8> = Vec::new();
    let mut lane: usize = 0;
    while lane < 32
        invariant
            lane <= 32,
            start + 32 <= mem.len(),
            quants@.len() == lane,
            forall|l: int| 0 <= l < lane ==> quants@[l] == signed(mem@[start + l]) as i8,
        decreases 32 - lane,
    {
        quants.push(read_signed(mem, start + lane));
        lane = lane + 1;
    }
    assert(quants@ =~= signed_bytes(mem@, start as int));
    quants
}

/// Reads a Q8_1 block.
pub fn read_q8_group(mem: &[u8], base: usize) -> (r: Q8Group)
    requires
        base + Q8_1_BLOCK_BYTES <= mem.len(),
    ensures
        r@ == q8_group(mem@, base as int),
{
    Q8Group {
        d: read_half(mem, base / 2),
        sum: read_half(mem, base / 2 + 1),
        quants: read_signed_bytes(mem, base + 4),
    }
}

/// Reads a group of a Q8_1 block for matrix products.
pub fn read_q8_mmq_group(mem: &[u8], base: usize, slot: usize) -> (r: Q8Group)
    requires
        base + Q8_1_MMQ_BLOCK_BYTES <= mem.len(),
        slot < 4,
    ensures
        r@ == q8_mmq_group(mem@, base as int, slot as int),
{
    Q8Group {
        d: read_half(mem, (base + slot * 4) / 2),
        sum: read_half(mem, (base + slot * 4) / 2 + 1),
        quants: read_signed_bytes(mem, base + 16 + slot * 32),
    }
}

// Q6_K

/// The two bits of a byte at position `pair`, counted from the lowest.
pub open spec fn bit_pair(byte: u8, pair: int) -> u8 {
    if pair == 0 {
        byte % 4
    } else if pair == 1 {
        byte / 4 % 4
    } else if pair == 2 {
        byte / 16 % 4
    } else {
        byte / 64
    }
}

/// The six bit weight of a column of a block, less 32. A block has two halves of four runs of 32
/// columns. The low four bits of runs 0 and 2, and of runs 1 and 3, share 32 bytes; the high two
/// bits of all four runs share 32 bytes.
pub open spec fn q6k_quant(mem: Seq<u8>, base: int, column: int) -> int {
    let half = column / 128;
    let run = (column % 128) / 32;
    let lane = column % 32;
    let low = mem[base + 64 * half + 32 * (run % 2) + lane];
    let high = mem[base + 128 + 32 * half + lane];
    (if run < 2 {
        low % 16
    } else {
        low / 16
    }) + 16 * bit_pair(high, run) - 32
}

/// The signed scale of a column of a block: one for every sixteen columns.
pub open spec fn q6k_scale(mem: Seq<u8>, base: int, column: int) -> int {
    signed(mem[base + 192 + column / 16])
}

/// The half precision scale of a block.
pub open spec fn q6k_d(mem: Seq<u8>, base: int) -> u16 {
    half_at(mem, (base + 208) / 2)
}

/// The column that lane `lane` of the low or high part `part` of the `iqs`-th four bytes of low
/// nibbles holds.
pub open spec fn q6k_column(iqs: int, part: int, lane: int) -> int {
    128 * (iqs / 16) + 32 * ((iqs % 16) / 8 + 2 * part) + 4 * (iqs % 8) + lane
}

/// Reads [`q6k_quant`] of the column that [`q6k_column`] gives.
pub fn read_q6k_quant(mem: &[u8], base: usize, iqs: usize, part: usize, lane: usize) -> (r: i32)
    requires
        base + Q6K_BLOCK_BYTES <= mem.len(),
        iqs < 32,
        part < 2,
        lane < 4,
    ensures
        r == q6k_quant(mem@, base as int, q6k_column(iqs as int, part as int, lane as int)),
        -32 <= r < 32,
{
    let low: u8 = mem[base + 4 * iqs + lane];
    let high_index: usize = 8 * (iqs / 16) + iqs % 8;
    let high: u8 = mem[base + 128 + 4 * high_index + lane];
    let low_shift: u8 = if part == 0 { 0 } else { 4 };
    let high_shift: u8 = (if (iqs % 16) / 8 == 0 { 0u8 } else { 2u8 }) + low_shift;
    let joined: u8 = ((low >> low_shift) & 15) | (((high >> high_shift) & 3) << 4);
    proof {
        let column = q6k_column(iqs as int, part as int, lane as int);
        let run = (iqs % 16) / 8 + 2 * part;
        assert(column / 128 == iqs / 16);
        assert((column % 128) / 32 == run);
        assert(column % 32 == 4 * (iqs % 8) + lane);
        assert(4 * iqs == 64 * (iqs / 16) + 32 * ((iqs % 16) / 8) + 4 * (iqs % 8));
        assert(high_shift == 2 * run);
        lemma_join_q6(low, high, part as int, run as int, low_shift, high_shift);
    }
    joined as i32 - 32
}

/// Joining four low bits and a pair of high bits.
proof fn lemma_join_q6(low: u8, high: u8, part: int, run: int, low_shift: u8, high_shift: u8)
    requires
        0 <= part < 2,
        part == run / 2,
        0 <= run < 4,
        low_shift == 4 * part,
        high_shift == 2 * run,
    ensures
        (((low >> low_shift) & 15) | (((high >> high_shift) & 3) << 4)) == (if part == 0 {
            low % 16
        } else {
            low / 16
        }) + 16 * bit_pair(high, run),
        bit_pair(high, run) < 4,
{
    assert(((low >> 0) & 15) == low % 16) by (bit_vector);
    assert(((low >> 4) & 15) == low / 16) by (bit_vector);
    assert(((high >> 0) & 3) == high % 4) by (bit_vector);
    assert(((high >> 2) & 3) == high / 4 % 4) by (bit_vector);
    assert(((high >> 4) & 3) == high / 16 % 4) by (bit_vector);
    assert(((high >> 6) & 3) == high / 64) by (bit_vector);
    let nibble: u8 = (low >> low_shift) & 15;
    let pair: u8 = (high >> high_shift) & 3;
    assert(nibble | (pair << 4) == nibble + 16 * pair) by (bit_vector)
        requires
            nibble < 16,
            pair < 4,
    ;
}

/// Reads [`q6k_scale`] of the columns that [`q6k_column`] gives for the four lanes.
pub fn read_q6k_scale(mem: &[u8], base: usize, iqs: usize, part: usize) -> (r: i8)
    requires
        base + Q6K_BLOCK_BYTES <= mem.len(),
        iqs < 32,
        part < 2,
    ensures
        forall|lane: int|
            0 <= lane < 4 ==> r == #[trigger] q6k_scale(
                mem@,
                base as int,
                q6k_column(iqs as int, part as int, lane),
            ),
{
    let index: usize = 8 * (iqs / 16) + (iqs % 16) / 4 + 4 * part;
    proof {
        assert forall|lane: int| 0 <= lane < 4 implies q6k_column(iqs as int, part as int, lane)
            / 16 == index by {
            assert((iqs % 16) / 4 == 2 * ((iqs % 16) / 8) + (iqs % 8) / 4);
        }
    }
    read_signed(mem, base + 192 + index)
}

/// Reads [`q6k_d`].
pub fn read_q6k_d(mem: &[u8], base: usize) -> (r: u16)
    requires
        base + Q6K_BLOCK_BYTES <= mem.len(),
    ensures
        r == q6k_d(mem@, base as int),
{
    read_half(mem, (base + 208) / 2)
}

/// The models of groups keep every field.
pub proof fn law_group_models_keep_everything(w: Q4Group, a: Q8Group)
    ensures
        w@.d == w.d && w@.dmin == w.dmin && w@.scale == w.scale && w@.min == w.min,
        w@.quants == w.quants@,
        a@.d == a.d && a@.sum == a.sum,
        a@.quants == a.quants@,
{
}

} // verus!
