use vstd::prelude::*;

verus! {

/// Width of the stored half canvas, in cells.
pub const CANVAS_WIDTH: u64 = 32;

/// Height of the canvas, in cells.
pub const CANVAS_HEIGHT: u64 = 64;

/// Size of the packed canvas: one bit per cell.
pub const CANVAS_BYTES: usize = 256;

/// `(x, y)` names a cell of the 32×64 half canvas.
pub open spec fn in_canvas(x: int, y: int) -> bool {
    0 <= x < CANVAS_WIDTH && 0 <= y < CANVAS_HEIGHT
}

/// The mask that selects bit `offset` of a byte, counting from the most significant bit.
pub open spec fn mask_of(offset: u8) -> u8 {
    1u8 << ((7 - offset) as u8)
}

/// Bit `index` of a packed bit string, most significant bit first within each byte.
pub open spec fn bit_at(data: Seq<u8>, index: int) -> bool {
    data[index / 8] & mask_of((index % 8) as u8) != 0
}

fn bit_mask(offset: u8) -> (r: u8)
    requires
        offset < 8,
    ensures
        r == mask_of(offset),
{
    1u8 << (7 - offset)
}

proof fn lemma_bit_update(b: u8, k: u8, j: u8)
    requires
        k < 8,
        j < 8,
    ensures
        ((b | mask_of(k)) & mask_of(j) != 0) == (j == k || b & mask_of(j) != 0),
        ((b & !mask_of(k)) & mask_of(j) != 0) == (j != k && b & mask_of(j) != 0),
        0u8 & mask_of(j) == 0,
{
    assert(((b | (1u8 << ((7 - k) as u8))) & (1u8 << ((7 - j) as u8)) != 0) == (j == k || b & (1u8
        << ((7 - j) as u8)) != 0)) by (bit_vector)
        requires
            k < 8,
            j < 8,
    ;
    assert(((b & !(1u8 << ((7 - k) as u8))) & (1u8 << ((7 - j) as u8)) != 0) == (j != k && b & (1u8
        << ((7 - j) as u8)) != 0)) by (bit_vector)
        requires
            k < 8,
            j < 8,
    ;
    assert(0u8 & (1u8 << ((7 - j) as u8)) == 0) by (bit_vector);
}

proof fn lemma_byte_from_bits(a: u8, b: u8)
    requires
        (a & mask_of(0) != 0) == (b & mask_of(0) != 0),
        (a & mask_of(1) != 0) == (b & mask_of(1) != 0),
        (a & mask_of(2) != 0) == (b & mask_of(2) != 0),
        (a & mask_of(3) != 0) == (b & mask_of(3) != 0),
        (a & mask_of(4) != 0) == (b & mask_of(4) != 0),
        (a & mask_of(5) != 0) == (b & mask_of(5) != 0),
        (a & mask_of(6) != 0) == (b & mask_of(6) != 0),
        (a & mask_of(7) != 0) == (b & mask_of(7) != 0),
    ensures
        a == b,
{
    assert(a == b) by (bit_vector)
        requires
            (a & (1u8 << 7u8) != 0) == (b & (1u8 << 7u8) != 0),
            (a & (1u8 << 6u8) != 0) == (b & (1u8 << 6u8) != 0),
            (a & (1u8 << 5u8) != 0) == (b & (1u8 << 5u8) != 0),
            (a & (1u8 << 4u8) != 0) == (b & (1u8 << 4u8) != 0),
            (a & (1u8 << 3u8) != 0) == (b & (1u8 << 3u8) != 0),
            (a & (1u8 << 2u8) != 0) == (b & (1u8 << 2u8) != 0),
            (a & (1u8 << 1u8) != 0) == (b & (1u8 << 1u8) != 0),
            (a & (1u8 << 0u8) != 0) == (b & (1u8 << 0u8) != 0),
    ;
}

/// A 32×64 monochrome half canvas packed into 256 bytes, one bit per cell.
///
/// Cell `(x, y)` is bit `y * 32 + x`, most significant bit first within each byte;
/// a set bit is foreground.
#[derive(Clone, Debug, PartialEq, Eq)]
pub struct BinaryImage32x64 {
    pub data: Vec<u8>,
}

impl View for BinaryImage32x64 {
    type V = Seq<u8>;

    open spec fn view(&self) -> Seq<u8> {
        self.data@
    }
}

impl BinaryImage32x64 {
    /// The canvas holds exactly 256 bytes.
    pub open spec fn wf(&self) -> bool {
        self.data@.len() == CANVAS_BYTES
    }

    /// Whether cell `(x, y)` is foreground; no cell outside the canvas is.
    pub open spec fn pixel(&self, x: int, y: int) -> bool {
        in_canvas(x, y) && bit_at(self.data@, y * 32 + x)
    }

    /// The foreground cells.
    pub open spec fn marks(&self) -> Set<(int, int)> {
        Set::new(|c: (int, int)| self.pixel(c.0, c.1))
    }

    /// An all-background canvas.
    pub fn new() -> (r: Self)
        ensures
            r.wf(),
            r@ == Seq::new(256, |i: int| 0u8),
            r.marks() == Set::<(int, int)>::empty(),
    {
        let mut data: Vec<u8> = Vec::new();
        while data.len() < CANVAS_BYTES
            invariant
                data@.len() <= CANVAS_BYTES,
                forall|i: int| 0 <= i < data@.len() ==> data@[i] == 0u8,
            decreases CANVAS_BYTES - data@.len(),
        {
            data.push(0u8);
        }
        let r = BinaryImage32x64 { data };
        assert(r@ =~= Seq::new(256, |i: int| 0u8));
        assert forall|c: (int, int)| !r.pixel(c.0, c.1) by {
            if in_canvas(c.0, c.1) {
                let i = c.1 * 32 + c.0;
                lemma_bit_update(0u8, 0u8, (i % 8) as u8);
            }
        }
        assert(r.marks() =~= Set::<(int, int)>::empty());
        r
    }

    /// Makes cell `(x, y)` foreground or background; a cell outside the canvas is ignored.
    pub fn set_pixel(&mut self, x: u64, y: u64, value: bool)
        requires
            old(self).wf(),
        ensures
            final(self).wf(),
            final(self).marks() == if !in_canvas(x as int, y as int) {
                old(self).marks()
            } else if value {
                old(self).marks().insert((x as int, y as int))
            } else {
                old(self).marks().remove((x as int, y as int))
            },
            !in_canvas(x as int, y as int) ==> *final(self) == *old(self),
    {
        if x < CANVAS_WIDTH && y < CANVAS_HEIGHT {
            let bit_index = (y * 32 + x) as usize;
            let byte_index = bit_index / 8;
            let bit_offset = bit_index % 8;
            let mask = bit_mask(bit_offset as u8);
            let old_byte = self.data[byte_index];
            let new_byte = if value {
                old_byte | mask
            } else {
                old_byte & !mask
            };
            self.data.set(byte_index, new_byte);
            proof {
                let pre = *old(self);
                let target = (x as int, y as int);
                let expected = if value {
                    pre.marks().insert(target)
                } else {
                    pre.marks().remove(target)
                };
                assert forall|c: (int, int)| #[trigger]
                    self.marks().contains(c) == expected.contains(c) by {
                    assert(self.marks().contains(c) == self.pixel(c.0, c.1));
                    assert(pre.marks().contains(c) == pre.pixel(c.0, c.1));
                    if in_canvas(c.0, c.1) {
                        let i = c.1 * 32 + c.0;
                        if i / 8 == byte_index as int {
                            lemma_bit_update(old_byte, bit_offset as u8, (i % 8) as u8);
                            assert((i % 8 == bit_offset as int) == (c == target));
                        }
                    }
                }
                assert(self.marks() =~= expected);
            }
        }
    }

    /// Whether cell `(x, y)` is foreground; `false` outside the canvas.
    pub fn get_pixel(&self, x: u64, y: u64) -> (r: bool)
        requires
            self.wf(),
        ensures
            r == self.pixel(x as int, y as int),
            !in_canvas(x as int, y as int) ==> !r,
    {
        if x < CANVAS_WIDTH && y < CANVAS_HEIGHT {
            let bit_index = (y * 32 + x) as usize;
            let byte_index = bit_index / 8;
            let bit_offset = bit_index % 8;
            (self.data[byte_index] & bit_mask(bit_offset as u8)) != 0
        } else {
            false
        }
    }

    /// The 256 packed bytes.
    pub fn to_bytes(&self) -> (r: Vec<u8>)
        requires
            self.wf(),
        ensures
            r@ == self@,
            r@.len() == CANVAS_BYTES,
    {
        let mut bytes: Vec<u8> = Vec::new();
        let mut i: usize = 0;
        while i < self.data.len()
            invariant
                i <= self.data@.len(),
                bytes@ == self.data@.subrange(0, i as int),
            decreases self.data@.len() - i,
        {
            bytes.push(self.data[i]);
            i = i + 1;
            assert(bytes@ =~= self.data@.subrange(0, i as int));
        }
        assert(bytes@ =~= self.data@);
        bytes
    }

    /// The canvas carried as eight 32-byte chunks, in order.
    pub fn from_chunks(chunks: &[[u8; 32]]) -> (r: Self)
        requires
            chunks@.len() == 8,
        ensures
            r.wf(),
            forall|i: int| 0 <= i < CANVAS_BYTES ==> #[trigger] r@[i] == chunks@[i / 32]@[i % 32],
    {
        let mut data: Vec<u8> = Vec::new();
        let mut c: usize = 0;
        while c < chunks.len()
            invariant
                chunks@.len() == 8,
                c <= 8,
                data@.len() == 32 * c,
                forall|i: int| 0 <= i < data@.len() ==> #[trigger] data@[i] == chunks@[i / 32]@[i % 32],
            decreases 8 - c,
        {
            let chunk = &chunks[c];
            let mut k: usize = 0;
            while k < 32
                invariant
                    chunks@.len() == 8,
                    c < 8,
                    k <= 32,
                    *chunk == chunks@[c as int],
                    data@.len() == 32 * c + k,
                    forall|i: int| 0 <= i < data@.len() ==> #[trigger] data@[i] == chunks@[i / 32]@[i % 32],
                decreases 32 - k,
            {
                proof {
                    let i = 32 * c + k;
                    assert(i / 32 == c as int && i % 32 == k as int) by (nonlinear_arith)
                        requires
                            i == 32 * c + k,
                            0 <= k < 32,
                            0 <= c,
                    ;
                }
                data.push(chunk[k]);
                k = k + 1;
            }
            c = c + 1;
        }
        BinaryImage32x64 { data }
    }

    /// The canvas whose packed bytes are `bytes`.
    pub fn from_bytes(bytes: &[u8]) -> (r: Self)
        requires
            bytes@.len() == CANVAS_BYTES,
        ensures
            r.wf(),
            r@ == bytes@,
    {
        BinaryImage32x64 { data: vstd::slice::slice_to_vec(bytes) }
    }
}

/// Two canvases with the same foreground cells hold the same bytes.
pub proof fn lemma_marks_determine_bytes(a: BinaryImage32x64, b: BinaryImage32x64)
    requires
        a.wf(),
        b.wf(),
        a.marks() == b.marks(),
    ensures
        a@ == b@,
{
    assert forall|i: int| 0 <= i < 256 implies a@[i] == b@[i] by {
        assert forall|j: u8| j < 8 implies (a@[i] & #[trigger] mask_of(j) != 0) == (b@[i] & mask_of(j)
            != 0) by {
            let k = 8 * i + j;
            let c = (k % 32, k / 32);
            assert(k / 8 == i && k % 8 == j as int) by (nonlinear_arith)
                requires
                    k == 8 * i + j,
                    0 <= j < 8,
            ;
            assert(c.1 * 32 + c.0 == k && 0 <= c.0 < 32 && 0 <= c.1 < 64) by (nonlinear_arith)
                requires
                    c == (k % 32, k / 32),
                    0 <= k < 2048,
            ;
            assert(a.marks().contains(c) == a.pixel(c.0, c.1));
            assert(a.marks().contains(c) == b.marks().contains(c));
            assert(a.pixel(c.0, c.1) == b.pixel(c.0, c.1));
        }
        lemma_byte_from_bits(a@[i], b@[i]);
    }
    assert(a@ =~= b@);
}

/// Packing round trip: a canvas rebuilt from the bytes that `to_bytes` hands out holds
/// those 256 bytes again and shows the same cells.
pub proof fn lemma_bytes_round_trip(c: BinaryImage32x64, bytes: Seq<u8>, d: BinaryImage32x64)
    requires
        c.wf(),
        bytes == c@,
        d@ == bytes,
    ensures
        bytes.len() == CANVAS_BYTES,
        d.wf(),
        d@ == c@,
        d.marks() == c.marks(),
{
    assert(d.marks() =~= c.marks());
}

} // verus!
