use vstd::prelude::*;
use crate::voxel::{BlockType, block_id};

verus! {

/// Mask of the low `n` bits of a word.
pub open spec fn low_mask(n: u64) -> u64 {
    ((1u64 << n) - 1) as u64
}

/// Bit `k` of word `w`.
pub open spec fn word_bit(w: u64, k: u64) -> bool {
    (w >> k) & 1u64 == 1u64
}

/// Bit `k` of a little-endian string of 64-bit words.
pub open spec fn data_bit(data: Seq<u64>, k: int) -> bool {
    word_bit(data[k / 64], (k % 64) as u64)
}

/// Unsigned value of the `n` bits that start at bit `start`, least significant first.
pub open spec fn bits_value(data: Seq<u64>, start: int, n: nat) -> nat
    decreases n,
{
    if n == 0 {
        0
    } else {
        (if data_bit(data, start) { 1nat } else { 0nat }) + 2 * bits_value(data, start + 1, (n - 1) as nat)
    }
}

/// Palette slot packed for voxel `i` when every voxel takes `bits` bits.
pub open spec fn packed_slot(data: Seq<u64>, bits: nat, i: int) -> nat {
    bits_value(data, i * bits, bits)
}

// ---------------------------------------------------------------------------
// Word-level facts, proved by the bit-vector solver.

proof fn bv_low_step(v: u64, n: u64)
    by (bit_vector)
    requires
        2 <= n <= 8,
    ensures
        v & low_mask(n) == (v & 1u64) + 2 * ((v >> 1u64) & low_mask((n - 1) as u64)),
{
}

proof fn bv_low_one(v: u64)
    by (bit_vector)
    ensures
        v & low_mask(1u64) == v & 1u64,
        v & 1u64 == 1u64 || v & 1u64 == 0u64,
{
}

proof fn bv_shift_bit(v: u64, j: u64)
    by (bit_vector)
    requires
        j < 63,
    ensures
        ((v >> 1u64) >> j) & 1u64 == (v >> ((j + 1) as u64)) & 1u64,
{
}

proof fn bv_shift_off_bit(w: u64, off: u64, j: u64)
    by (bit_vector)
    requires
        off + j < 64,
    ensures
        ((w >> off) >> j) & 1u64 == (w >> ((off + j) as u64)) & 1u64,
{
}

proof fn bv_small_masked(v: u64, n: u64)
    by (bit_vector)
    requires
        1 <= n <= 8,
        v <= low_mask(n),
    ensures
        v & low_mask(n) == v,
{
}

proof fn bv_mask_le(v: u64, n: u64)
    by (bit_vector)
    requires
        1 <= n <= 8,
    ensures
        v & low_mask(n) <= low_mask(n),
{
}

proof fn bv_cross_read(w0: u64, w1: u64, off: u64, b: u64, j: u64)
    by (bit_vector)
    requires
        off < 64,
        1 <= b <= 8,
        off + b > 64,
        j < b,
    ensures
        ({
            let pal = ((w0 >> off) & low_mask(b)) | ((w1 & low_mask((b - (64 - off)) as u64)) << ((64 - off) as u64));
            &&& j < 64 - off ==> ((pal >> j) & 1u64 == (w0 >> ((off + j) as u64)) & 1u64)
            &&& j >= 64 - off ==> ((pal >> j) & 1u64 == (w1 >> ((j - (64 - off)) as u64)) & 1u64)
            &&& pal <= low_mask(b)
        }),
{
}

proof fn bv_write_single(w: u64, v: u64, off: u64, b: u64, k: u64)
    by (bit_vector)
    requires
        1 <= b <= 8,
        off + b <= 64,
        v <= low_mask(b),
        k < 64,
    ensures
        ({
            let nw = (w & !((low_mask(b) << off) as u64)) | ((v << off) as u64);
            &&& (off <= k && k < off + b) ==> ((nw >> k) & 1u64 == (v >> ((k - off) as u64)) & 1u64)
            &&& !(off <= k && k < off + b) ==> ((nw >> k) & 1u64 == (w >> k) & 1u64)
        }),
{
}

proof fn bv_write_cross(w0: u64, w1: u64, v: u64, off: u64, b: u64, k: u64)
    by (bit_vector)
    requires
        off < 64,
        1 <= b <= 8,
        off + b > 64,
        v <= low_mask(b),
        k < 64,
    ensures
        ({
            let nw0 = (w0 & !((low_mask(b) << off) as u64)) | ((v << off) as u64);
            let nw1 = (w1 & !low_mask((b - (64 - off)) as u64)) | (v >> ((64 - off) as u64));
            &&& k >= off ==> ((nw0 >> k) & 1u64 == (v >> ((k - off) as u64)) & 1u64)
            &&& k < off ==> ((nw0 >> k) & 1u64 == (w0 >> k) & 1u64)
            &&& k < b - (64 - off) ==> ((nw1 >> k) & 1u64 == (v >> ((k + (64 - off)) as u64)) & 1u64)
            &&& k >= b - (64 - off) ==> ((nw1 >> k) & 1u64 == (w1 >> k) & 1u64)
        }),
{
}

proof fn bv_shl_pos(n: u64)
    by (bit_vector)
    requires
        n < 64,
    ensures
        (1u64 << n) >= 1,
        low_mask(n) == ((1u64 << n) - 1) as u64,
{
}

proof fn bv_zero_bit(k: u64)
    by (bit_vector)
    requires
        k < 64,
    ensures
        (0u64 >> k) & 1u64 == 0u64,
{
}

proof fn bv_shift_fits(i: u64, r: u64)
    by (bit_vector)
    requires
        r <= 8,
        i >> r == 0,
    ensures
        i + 1 <= (1u64 << r),
{
}

proof fn bv_pow_mono(a: u64, b: u64)
    by (bit_vector)
    requires
        a <= b <= 8,
    ensures
        (1u64 << a) <= (1u64 << b),
{
}

proof fn bv_bit_length(i: u64, r: u64)
    by (bit_vector)
    requires
        1 <= r <= 4,
        1 <= i < 16,
        i >> r == 0,
        (i >> ((r - 1) as u64)) & 1u64 != 0,
    ensures
        r == (if i < 2 { 1u64 } else if i < 4 { 2u64 } else if i < 8 { 3u64 } else { 4u64 }),
{
}

/// Number of bits a palette index needs (for indices 1 to 15).
pub open spec fn index_bits(i: int) -> int {
    if i < 2 {
        1
    } else if i < 4 {
        2
    } else if i < 8 {
        3
    } else {
        4
    }
}

proof fn bv_small_shift(i: u64, r: u64)
    by (bit_vector)
    requires
        1 <= r <= 64,
        i < 16,
        (i >> ((r - 1) as u64)) & 1u64 != 0,
    ensures
        r <= 4,
{
}

// ---------------------------------------------------------------------------
// Bit-string lemmas.

/// Bits that agree with the low bits of `v` read back as `v` masked to `n` bits.
proof fn lemma_bits_value_of_word(data: Seq<u64>, s: int, n: nat, v: u64)
    requires
        1 <= n <= 8,
        forall|j: int| 0 <= j < n ==> #[trigger] data_bit(data, s + j) == word_bit(v, j as u64),
    ensures
        bits_value(data, s, n) == (v & low_mask(n as u64)) as nat,
    decreases n,
{
    reveal_with_fuel(bits_value, 2);
    assert(data_bit(data, s + 0) == word_bit(v, 0));
    assert(s + 0 == s);
    if n == 1 {
        bv_low_one(v);
        assert(word_bit(v, 0) == ((v >> 0u64) & 1u64 == 1u64));
        assert((v >> 0u64) == v) by (bit_vector);
    } else {
        let v1 = v >> 1u64;
        assert forall|j: int| 0 <= j < n - 1 implies #[trigger] data_bit(data, (s + 1) + j) == word_bit(
            v1,
            j as u64,
        ) by {
            assert(data_bit(data, s + (j + 1)) == word_bit(v, (j + 1) as u64));
            assert((s + 1) + j == s + (j + 1));
            bv_shift_bit(v, j as u64);
        }
        lemma_bits_value_of_word(data, s + 1, (n - 1) as nat, v1);
        bv_low_step(v, n as u64);
        bv_low_one(v);
        assert((v >> 0u64) == v) by (bit_vector);
    }
}

/// Bit strings that agree on a range hold the same value there.
proof fn lemma_bits_value_frame(d1: Seq<u64>, d2: Seq<u64>, s: int, n: nat)
    requires
        forall|k: int| s <= k < s + n ==> #[trigger] data_bit(d1, k) == data_bit(d2, k),
    ensures
        bits_value(d1, s, n) == bits_value(d2, s, n),
    decreases n,
{
    if n > 0 {
        assert(data_bit(d1, s) == data_bit(d2, s));
        lemma_bits_value_frame(d1, d2, s + 1, (n - 1) as nat);
    }
}

/// A voxel's bit range lies in word `index * b / 64`, possibly spilling into the next one.
proof fn lemma_slot_geometry(index: int, b: int)
    requires
        0 <= index < 32768,
        1 <= b <= 4,
    ensures
        0 <= index * b <= 131068,
        index * b + b <= 32768 * b,
        (index * b) / 64 < 512 * b,
        (index * b) % 64 + b > 64 ==> (index * b) / 64 + 1 < 512 * b,
{
    assert(b == 1 || b == 2 || b == 3 || b == 4);
    if b == 1 {
    } else if b == 2 {
    } else if b == 3 {
    } else {
    }
}

/// Distinct voxels occupy disjoint bit ranges.
proof fn lemma_slots_disjoint(i: int, j: int, b: int)
    by (nonlinear_arith)
    requires
        i != j,
        1 <= b,
    ensures
        j * b + b <= i * b || i * b + b <= j * b,
{
    if j < i {
        assert((j + 1) * b <= i * b);
    } else {
        assert((i + 1) * b <= j * b);
    }
}

/// Splitting a bit position into word and offset.
proof fn lemma_div_mod_64(k: int, q: int, r: int)
    requires
        k == q * 64 + r,
        0 <= r < 64,
    ensures
        k / 64 == q,
        k % 64 == r,
{
}

/// A sequence of distinct block types has at most sixteen entries.
proof fn lemma_distinct_blocks_bound(s: Seq<BlockType>)
    requires
        s.no_duplicates(),
    ensures
        s.len() <= 16,
{
    let f = |b: BlockType| block_id(b) as int;
    let ids = s.map_values(f);
    assert(vstd::relations::injective(f)) by {
        assert forall|a: BlockType, b: BlockType| #[trigger] f(a) == #[trigger] f(b) implies a == b by {
            crate::voxel::lemma_block_id_roundtrip(a);
            crate::voxel::lemma_block_id_roundtrip(b);
        }
    }
    s.lemma_no_duplicates_injective(f);
    ids.unique_seq_to_set();
    vstd::set_lib::lemma_int_range(0, 16);
    assert forall|x: int| #[trigger] ids.to_set().contains(x) implies vstd::set_lib::set_int_range(0, 16).contains(x) by {
        let k = choose|k: int| 0 <= k < ids.len() && ids[k] == x;
        crate::voxel::lemma_block_id_roundtrip(s[k]);
    }
    vstd::set_lib::lemma_len_subset(ids.to_set(), vstd::set_lib::set_int_range(0, 16));
}

// ---------------------------------------------------------------------------
// Reading and writing one packed slot.

/// Reads the palette slot of voxel `index`.
fn read_slot(data: &Vec<u64>, bits: u8, mask: u64, index: usize) -> (r: u64)
    requires
        1 <= bits <= 4,
        mask == low_mask(bits as u64),
        data@.len() == 512 * bits,
        index < 32768,
    ensures
        r as nat == packed_slot(data@, bits as nat, index as int),
        r <= mask,
{
    let b = bits as usize;
    proof {
        lemma_slot_geometry(index as int, b as int);
    }
    let bit_index = index * b;
    let u64_index = bit_index / 64;
    let bit_offset = bit_index % 64;
    let w0 = data[u64_index];
    let mut pal_idx = (w0 >> bit_offset) & mask;
    let bits_left = 64 - bit_offset;
    if bits_left < b {
        let remaining_bits = b - bits_left;
        proof {
            bv_shl_pos(remaining_bits as u64);
        }
        let w1 = data[u64_index + 1];
        pal_idx = pal_idx | ((w1 & ((1u64 << remaining_bits) - 1)) << bits_left);
        proof {
            let off = bit_offset as u64;
            assert forall|j: int| 0 <= j < b implies #[trigger] data_bit(data@, bit_index + j) == word_bit(
                pal_idx,
                j as u64,
            ) by {
                bv_cross_read(w0, w1, off, b as u64, j as u64);
                if j < 64 - off {
                    lemma_div_mod_64(bit_index + j, u64_index as int, off + j);
                } else {
                    lemma_div_mod_64(bit_index + j, u64_index + 1, j - (64 - off));
                }
            }
            bv_cross_read(w0, w1, off, b as u64, 0);
            lemma_bits_value_of_word(data@, bit_index as int, b as nat, pal_idx);
            bv_small_masked(pal_idx, b as u64);
        }
    } else {
        proof {
            let off = bit_offset as u64;
            let v = w0 >> off;
            assert forall|j: int| 0 <= j < b implies #[trigger] data_bit(data@, bit_index + j) == word_bit(
                v,
                j as u64,
            ) by {
                lemma_div_mod_64(bit_index + j, u64_index as int, off + j);
                bv_shift_off_bit(w0, off, j as u64);
            }
            lemma_bits_value_of_word(data@, bit_index as int, b as nat, v);
            bv_mask_le(v, b as u64);
        }
    }
    pal_idx
}

/// Every bit of `new` equals the matching bit of `old`, except the `b` bits of voxel `index`,
/// which hold the low bits of `v`.
pub open spec fn written(old: Seq<u64>, new: Seq<u64>, b: int, index: int, v: u64) -> bool {
    &&& new.len() == old.len()
    &&& forall|k: int|
        0 <= k < 64 * old.len() ==> #[trigger] data_bit(new, k) == if index * b <= k < index * b + b {
            word_bit(v, (k - index * b) as u64)
        } else {
            data_bit(old, k)
        }
}

/// Writing one slot leaves every other slot as it was and stores `v` in the written one.
proof fn lemma_written_slots(old: Seq<u64>, new: Seq<u64>, b: int, index: int, v: u64)
    requires
        1 <= b <= 4,
        old.len() == 512 * b,
        0 <= index < 32768,
        v <= low_mask(b as u64),
        written(old, new, b, index, v),
    ensures
        packed_slot(new, b as nat, index) == v,
        forall|j: int|
            0 <= j < 32768 && j != index ==> #[trigger] packed_slot(new, b as nat, j) == packed_slot(
                old,
                b as nat,
                j,
            ),
{
    lemma_slot_geometry(index, b);
    assert forall|j: int| 0 <= j < b implies #[trigger] data_bit(new, index * b + j) == word_bit(
        v,
        j as u64,
    ) by {
        assert(index * b + j - index * b == j);
    }
    lemma_bits_value_of_word(new, index * b, b as nat, v);
    bv_small_masked(v, b as u64);
    assert forall|j: int| 0 <= j < 32768 && j != index implies #[trigger] packed_slot(
        new,
        b as nat,
        j,
    ) == packed_slot(old, b as nat, j) by {
        lemma_slot_geometry(j, b);
        lemma_slots_disjoint(index, j, b);
        lemma_bits_value_frame(new, old, j * b, b as nat);
    }
}

/// Stores `pal_idx` in the slot of voxel `index`.
fn write_slot(data: &mut Vec<u64>, bits: u8, mask: u64, index: usize, pal_idx: u64)
    requires
        1 <= bits <= 4,
        mask == low_mask(bits as u64),
        old(data)@.len() == 512 * bits,
        index < 32768,
        pal_idx <= mask,
    ensures
        written(old(data)@, final(data)@, bits as int, index as int, pal_idx),
{
    let b = bits as usize;
    proof {
        lemma_slot_geometry(index as int, b as int);
    }
    let bit_index = index * b;
    let u64_index = bit_index / 64;
    let bit_offset = bit_index % 64;
    let ghost d0 = data@;
    let clear_mask = !(mask << bit_offset);
    let w0 = data[u64_index];
    let nw0 = (w0 & clear_mask) | (pal_idx << bit_offset);
    data.set(u64_index, nw0);
    let bits_left = 64 - bit_offset;
    if bits_left < b {
        let remaining_bits = b - bits_left;
        proof {
            bv_shl_pos(remaining_bits as u64);
        }
        let clear_mask_next = !((1u64 << remaining_bits) - 1);
        let w1 = data[u64_index + 1];
        let nw1 = (w1 & clear_mask_next) | (pal_idx >> bits_left);
        data.set(u64_index + 1, nw1);
        proof {
            let off = bit_offset as u64;
            assert forall|k: int| 0 <= k < 64 * d0.len() implies #[trigger] data_bit(data@, k) == if bit_index
                <= k < bit_index + b {
                word_bit(pal_idx, (k - bit_index) as u64)
            } else {
                data_bit(d0, k)
            } by {
                let q = k / 64;
                let r = k % 64;
                lemma_div_mod_64(k, q, r);
                bv_write_cross(w0, w1, pal_idx, off, b as u64, r as u64);
                if q == u64_index {
                } else if q == u64_index + 1 {
                } else {
                    assert(data@[q] == d0[q]);
                }
            }
        }
    } else {
        proof {
            let off = bit_offset as u64;
            assert forall|k: int| 0 <= k < 64 * d0.len() implies #[trigger] data_bit(data@, k) == if bit_index
                <= k < bit_index + b {
                word_bit(pal_idx, (k - bit_index) as u64)
            } else {
                data_bit(d0, k)
            } by {
                let q = k / 64;
                let r = k % 64;
                lemma_div_mod_64(k, q, r);
                bv_write_single(w0, pal_idx, off, b as u64, r as u64);
                if q != u64_index {
                    assert(data@[q] == d0[q]);
                }
            }
        }
    }
}

/// All-zero words hold slot zero for every voxel.
proof fn lemma_zero_slots(data: Seq<u64>, b: int)
    requires
        1 <= b <= 4,
        data.len() == 512 * b,
        forall|q: int| 0 <= q < data.len() ==> data[q] == 0u64,
    ensures
        forall|i: int| 0 <= i < 32768 ==> #[trigger] packed_slot(data, b as nat, i) == 0,
{
    assert forall|i: int| 0 <= i < 32768 implies #[trigger] packed_slot(data, b as nat, i) == 0 by {
        lemma_slot_geometry(i, b);
        assert forall|j: int| 0 <= j < b implies #[trigger] data_bit(data, i * b + j) == word_bit(
            0u64,
            j as u64,
        ) by {
            let k = i * b + j;
            lemma_div_mod_64(k, k / 64, k % 64);
            bv_zero_bit((k % 64) as u64);
            bv_zero_bit(j as u64);
        }
        lemma_bits_value_of_word(data, i * b, b as nat, 0u64);
        assert(0u64 & low_mask(b as u64) == 0u64) by (bit_vector);
    }
}

/// Block storage for one chunk: each voxel holds a small index into a list of the distinct
/// block types present, and the indices are bit-packed into 64-bit words, least significant
/// bit first, with as many bits per voxel as the list length needs.
#[derive(Clone)]
pub struct Palette {
    pub palette: Vec<BlockType>,
    pub data: Vec<u64>,
    pub bits_per_block: u8,
    pub mask: u64,
}

impl Palette {
    /// Palette slot stored for voxel `i`.
    pub open spec fn slot(&self, i: int) -> nat {
        packed_slot(self.data@, self.bits_per_block as nat, i)
    }

    /// Packing layout: bit width, mask and word count agree, the block list is non-empty
    /// and free of repeats, and every stored slot names an entry of the list.
    pub open spec fn packing_ok(&self) -> bool {
        &&& 1 <= self.bits_per_block <= 4
        &&& self.mask == low_mask(self.bits_per_block as u64)
        &&& self.data@.len() == 512 * self.bits_per_block
        &&& 1 <= self.palette@.len()
        &&& self.palette@.no_duplicates()
        &&& forall|i: int| 0 <= i < 32768 ==> #[trigger] self.slot(i) < self.palette@.len()
    }

    /// Well-formedness: the packing is consistent and the bit width can address every
    /// entry of the block list.
    pub open spec fn wf(&self) -> bool {
        &&& self.packing_ok()
        &&& self.palette@.len() <= (1u64 << (self.bits_per_block as u64))
    }
}

impl View for Palette {
    type V = Seq<BlockType>;

    /// The block at every voxel of the chunk.
    open spec fn view(&self) -> Seq<BlockType> {
        Seq::new(32768, |i: int| self.palette@[self.slot(i) as int])
    }
}

impl Palette {
    /// A palette in which every voxel is air.
    pub fn new() -> (r: Self)
        ensures
            r.wf(),
            r@ == Seq::new(32768, |i: int| BlockType::Air),
            r.palette@ == seq![BlockType::Air],
            r.bits_per_block == 1,
    {
        let data: Vec<u64> = vec![0; (32768 + 63) / 64];
        let mut palette: Vec<BlockType> = Vec::new();
        palette.push(BlockType::Air);
        let r = Self { palette, data, bits_per_block: 1, mask: 1 };
        proof {
            assert(low_mask(1u64) == 1u64) by (bit_vector);
            assert(forall|q: int| 0 <= q < data@.len() ==> data@[q] == 0u64);
            lemma_zero_slots(data@, 1);
            assert(r.palette@ =~= seq![BlockType::Air]);
            assert forall|i: int| 0 <= i < 32768 implies #[trigger] r.slot(i) == 0 by {
                assert(packed_slot(data@, 1, i) == 0);
            }
            assert((1u64 << 1u64) == 2u64) by (bit_vector);
            assert(r@ =~= Seq::new(32768, |i: int| BlockType::Air));
        }
        r
    }

    /// The block stored at voxel `index`.
    pub fn get(&self, index: usize) -> (r: BlockType)
        requires
            self.wf(),
            index < 32768,
        ensures
            r == self@[index as int],
    {
        let pal_idx = read_slot(&self.data, self.bits_per_block, self.mask, index);
        let n = self.palette.len();
        proof {
            assert(self.slot(index as int) < self.palette@.len());
            assert(self@[index as int] == self.palette@[self.slot(index as int) as int]);
            assert(pal_idx < self.palette@.len());
        }
        let k = pal_idx as usize;
        proof {
            assert(k as int == pal_idx as int);
        }
        self.palette[k]
    }

    /// Stores `block` at voxel `index`, adding it to the block list (and widening the
    /// packing when the list outgrows the bit width) if it is not listed yet.
    pub fn set(&mut self, index: usize, block: BlockType)
        requires
            old(self).wf(),
            index < 32768,
        ensures
            final(self).wf(),
            final(self)@ == old(self)@.update(index as int, block),
            old(self).palette@.contains(block) ==> final(self).palette@ == old(self).palette@,
            !old(self).palette@.contains(block) ==> final(self).palette@ == old(self).palette@.push(
                block,
            ),
            final(self).bits_per_block == if !old(self).palette@.contains(block) && index_bits(
                old(self).palette@.len() as int,
            ) > old(self).bits_per_block {
                index_bits(old(self).palette@.len() as int)
            } else {
                old(self).bits_per_block as int
            },
    {
        let ghost before = self@;
        let n = self.palette.len();
        let mut found: Option<u64> = None;
        let mut i: usize = 0;
        while i < n
            invariant_except_break
                found is None,
            invariant
                0 <= i <= n,
                n == self.palette@.len(),
                forall|j: int| 0 <= j < i ==> self.palette@[j] != block,
            ensures
                found matches Some(p) ==> p < n && self.palette@[p as int] == block,
                found is None ==> forall|j: int| 0 <= j < n ==> self.palette@[j] != block,
            decreases n - i,
        {
            if self.palette[i] == block {
                found = Some(i as u64);
                break;
            }
            i = i + 1;
        }
        let palette_idx = match found {
            Some(p) => {
                proof {
                    assert(self.palette@.contains(block));
                }
                p
            },
            None => {
                let i = self.palette.len() as u64;
                let ghost old_pal = self.palette@;
                proof {
                    assert(!old_pal.contains(block));
                }
                self.palette.push(block);
                proof {
                    assert forall|a: int, c: int|
                        0 <= a < c < self.palette@.len() implies self.palette@[a] != self.palette@[c] by {
                        if c == old_pal.len() {
                            assert(old_pal[a] == self.palette@[a]);
                        }
                    }
                    assert(self.palette@.no_duplicates());
                    lemma_distinct_blocks_bound(self.palette@);
                    assert forall|j: int| 0 <= j < 32768 implies #[trigger] self.slot(j) < self.palette@.len() by {
                        assert(self.data@ == old(self).data@);
                        assert(self.slot(j) == old(self).slot(j));
                        assert(old(self).slot(j) < old(self).palette@.len());
                    }
                }
                let required_bits = (64 - i.leading_zeros()) as u8;
                proof {
                    vstd::std_specs::bits::axiom_u64_leading_zeros(i);
                    let lz = vstd::std_specs::bits::u64_leading_zeros(i);
                    assert(1 <= i < 16);
                    assert(lz < 64);
                    let r = (64 - lz) as u64;
                    assert((i >> ((63 - lz) as u64)) & 1u64 != 0u64);
                    assert(((63 - lz) as u64) == ((r - 1) as u64));
                    bv_small_shift(i, r);
                    assert(i >> ((64 - lz) as u64) == 0);
                    bv_shift_fits(i, r);
                    assert(required_bits == r);
                    bv_bit_length(i, r);
                    assert(required_bits as int == index_bits(i as int));
                }
                if required_bits > self.bits_per_block {
                    self.resize_bits(required_bits);
                } else {
                    proof {
                        bv_pow_mono(required_bits as u64, self.bits_per_block as u64);
                    }
                }
                i
            },
        };
        proof {
            assert(self@ =~= before);
        }
        self.write_index(index, palette_idx);
    }

    /// Stores palette slot `pal_idx` at voxel `index`.
    fn write_index(&mut self, index: usize, pal_idx: u64)
        requires
            1 <= old(self).bits_per_block <= 4,
            old(self).mask == low_mask(old(self).bits_per_block as u64),
            old(self).data@.len() == 512 * old(self).bits_per_block,
            index < 32768,
            pal_idx <= old(self).mask,
        ensures
            final(self).palette == old(self).palette,
            final(self).bits_per_block == old(self).bits_per_block,
            final(self).mask == old(self).mask,
            final(self).data@.len() == old(self).data@.len(),
            final(self).slot(index as int) == pal_idx,
            forall|j: int|
                0 <= j < 32768 && j != index ==> #[trigger] final(self).slot(j) == old(self).slot(j),
    {
        let ghost d0 = self.data@;
        write_slot(&mut self.data, self.bits_per_block, self.mask, index, pal_idx);
        proof {
            lemma_written_slots(
                d0,
                self.data@,
                self.bits_per_block as int,
                index as int,
                pal_idx,
            );
        }
    }

    /// Re-packs every voxel with `new_bits` bits per voxel.
    fn resize_bits(&mut self, new_bits: u8)
        requires
            old(self).packing_ok(),
            old(self).bits_per_block <= new_bits <= 4,
            old(self).palette@.len() <= (1u64 << (new_bits as u64)),
        ensures
            final(self).wf(),
            final(self).bits_per_block == new_bits,
            final(self).palette == old(self).palette,
            forall|j: int| 0 <= j < 32768 ==> #[trigger] final(self).slot(j) == old(self).slot(j),
    {
        let old_bits = self.bits_per_block;
        let old_mask = self.mask;
        let mut old_data: Vec<u64> = Vec::new();
        std::mem::swap(&mut old_data, &mut self.data);
        proof {
            bv_shl_pos(new_bits as u64);
        }
        self.bits_per_block = new_bits;
        self.mask = (1u64 << new_bits) - 1;
        let total_bits = 32768 * (new_bits as usize);
        self.data = vec![0; (total_bits + 63) / 64];
        proof {
            assert(forall|q: int| 0 <= q < self.data@.len() ==> self.data@[q] == 0u64);
            lemma_zero_slots(self.data@, new_bits as int);
        }
        let mut i: usize = 0;
        while i < 32768
            invariant
                0 <= i <= 32768,
                self.bits_per_block == new_bits,
                1 <= new_bits <= 4,
                self.mask == low_mask(new_bits as u64),
                self.data@.len() == 512 * new_bits,
                self.palette == old(self).palette,
                old_bits == old(self).bits_per_block,
                old_mask == old(self).mask,
                old_data@ == old(self).data@,
                old(self).packing_ok(),
                old(self).palette@.len() <= (1u64 << (new_bits as u64)),
                forall|j: int| 0 <= j < i ==> #[trigger] self.slot(j) == old(self).slot(j),
            decreases 32768 - i,
        {
            let pal_idx = read_slot(&old_data, old_bits, old_mask, i);
            proof {
                assert(old(self).slot(i as int) < old(self).palette@.len());
                assert(pal_idx < (1u64 << (new_bits as u64)));
                assert(pal_idx <= low_mask(new_bits as u64));
            }
            self.write_index(i, pal_idx);
            i = i + 1;
        }
        proof {
            assert forall|j: int| 0 <= j < 32768 implies #[trigger] self.slot(j) < self.palette@.len() by {
                assert(self.slot(j) == old(self).slot(j));
            }
        }
    }
}


} // verus!
