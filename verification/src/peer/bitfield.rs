//! The bitmap a peer announces: which pieces it has.

use vstd::prelude::*;

verus! {

/// Whether bit `bit` of `byte` is set, counting from the most significant
/// bit.
pub open spec fn spec_bit_set(byte: u8, bit: u32) -> bool {
    byte & (0x80u8 >> bit) != 0
}

/// Whether the bitmap `bytes` marks piece `piece`: the piece lies within the
/// bitmap and its bit is set. Bit `i` is bit `i % 8`, counted from the most
/// significant, of byte `i / 8`.
pub open spec fn spec_has_piece(bytes: Seq<u8>, piece: nat) -> bool {
    &&& piece < 8 * bytes.len()
    &&& spec_bit_set(bytes[(piece / 8) as int], (piece % 8) as u32)
}

/// The pieces below `bound` that `bytes` marks, in ascending order.
pub open spec fn spec_pieces_below(bytes: Seq<u8>, bound: nat) -> Seq<usize>
    decreases bound,
{
    if bound == 0 {
        Seq::empty()
    } else if spec_has_piece(bytes, (bound - 1) as nat) {
        spec_pieces_below(bytes, (bound - 1) as nat).push((bound - 1) as usize)
    } else {
        spec_pieces_below(bytes, (bound - 1) as nat)
    }
}

/// All the pieces that `bytes` marks, in ascending order.
pub open spec fn spec_pieces(bytes: Seq<u8>) -> Seq<usize> {
    spec_pieces_below(bytes, 8 * bytes.len())
}

/// `byte` with bit `bit` set, counting from the most significant bit.
pub open spec fn spec_with_bit(byte: u8, bit: u32) -> u8 {
    byte | (0x80u8 >> bit)
}

/// The bitmap `bytes` with piece `piece` marked; `bytes` itself where the
/// piece lies beyond the bitmap.
pub open spec fn spec_set_piece(bytes: Seq<u8>, piece: nat) -> Seq<u8> {
    if piece < 8 * bytes.len() {
        bytes.update(
            (piece / 8) as int,
            spec_with_bit(bytes[(piece / 8) as int], (piece % 8) as u32),
        )
    } else {
        bytes
    }
}

/// Marking a piece sets exactly one bit: afterwards the bitmap marks the
/// piece, if it lies within the bitmap, and every piece it marked before,
/// and no other.
pub proof fn lemma_set_piece_sets_one_bit(bytes: Seq<u8>, piece: nat, other: nat)
    ensures
        spec_set_piece(bytes, piece).len() == bytes.len(),
        spec_has_piece(spec_set_piece(bytes, piece), other) == (spec_has_piece(bytes, other) || (
        other == piece && piece < 8 * bytes.len())),
{
    if piece < 8 * bytes.len() && other < 8 * bytes.len() && other / 8 == piece / 8 {
        let byte: u8 = bytes[(piece / 8) as int];
        let bit: u32 = (other % 8) as u32;
        let bit_i: u32 = (piece % 8) as u32;
        assert(bit < 8 && bit_i < 8 ==> ((byte | (0x80u8 >> bit_i)) & (0x80u8 >> bit) != 0) == ((
        byte & (0x80u8 >> bit) != 0) || bit == bit_i)) by (bit_vector);
    }
}

/// `spec_pieces_below` lists exactly the marked pieces under the bound, each
/// once and in strictly ascending order.
pub proof fn lemma_pieces_below(bytes: Seq<u8>, bound: nat)
    requires
        bound <= usize::MAX,
    ensures
        forall|k: int|
            0 <= k < spec_pieces_below(bytes, bound).len() ==> {
                &&& (#[trigger] spec_pieces_below(bytes, bound)[k]) < bound
                &&& spec_has_piece(bytes, spec_pieces_below(bytes, bound)[k] as nat)
            },
        forall|j: int, k: int|
            0 <= j < k < spec_pieces_below(bytes, bound).len() ==> (#[trigger] spec_pieces_below(
                bytes,
                bound,
            )[j]) < (#[trigger] spec_pieces_below(bytes, bound)[k]),
        forall|piece: nat|
            piece < bound && spec_has_piece(bytes, piece) ==> #[trigger] spec_pieces_below(
                bytes,
                bound,
            ).contains(piece as usize),
        spec_pieces_below(bytes, bound).len() <= bound,
    decreases bound,
{
    if bound > 0 {
        let below = spec_pieces_below(bytes, (bound - 1) as nat);
        let all = spec_pieces_below(bytes, bound);
        lemma_pieces_below(bytes, (bound - 1) as nat);
        assert forall|piece: nat|
            piece < bound && spec_has_piece(bytes, piece) implies all.contains(piece as usize) by {
            if piece == bound - 1 {
                assert(all[all.len() - 1] == piece as usize);
            } else {
                assert(below.contains(piece as usize));
                let k = choose|k: int| 0 <= k < below.len() && below[k] == piece as usize;
                assert(all[k] == piece as usize);
            }
        }
    }
}

/// A bitmap of piece possession. Bit `i`, counted from the most significant
/// bit of the first byte, is set when the peer has piece `i`.
pub struct BitField {
    payload: Vec<u8>,
}

impl View for BitField {
    type V = Seq<u8>;

    closed spec fn view(&self) -> Seq<u8> {
        self.payload@
    }
}

impl BitField {
    /// Number of pieces the bitmap can speak of.
    pub open spec fn bit_capacity(&self) -> nat {
        8 * self@.len()
    }

    /// Takes the payload of a bitfield message as the bitmap.
    pub fn from_payload(payload: Vec<u8>) -> (bit_field: Self)
        ensures
            bit_field@ == payload@,
    {
        Self { payload }
    }

    /// The bytes of the bitmap.
    pub fn payload(&self) -> (bytes: &Vec<u8>)
        ensures
            bytes@ == self@,
    {
        &self.payload
    }

    /// Whether the peer has piece `piece`. A piece at or beyond the bitmap's
    /// capacity is one the peer does not have.
    pub fn has_piece(&self, piece: u32) -> (present: bool)
        ensures
            present == spec_has_piece(self@, piece as nat),
            piece >= self.bit_capacity() ==> !present,
    {
        let byte_i: usize = (piece / 8) as usize;
        let bit_i: u32 = piece % 8;
        if byte_i >= self.payload.len() {
            return false;
        }
        let byte: u8 = self.payload[byte_i];
        byte & (0x80u8 >> bit_i) != 0
    }

    /// The pieces the peer has, in ascending order. Calling it again on an
    /// unchanged bitmap gives the same sequence.
    pub fn pieces(&self) -> (pieces: Vec<usize>)
        requires
            self.bit_capacity() <= usize::MAX,
        ensures
            pieces@ == spec_pieces(self@),
            forall|k: int|
                0 <= k < pieces.len() ==> spec_has_piece(self@, #[trigger] pieces[k] as nat),
            forall|j: int, k: int| 0 <= j < k < pieces.len() ==> pieces[j] < pieces[k],
            forall|piece: nat|
                spec_has_piece(self@, piece) ==> #[trigger] pieces@.contains(piece as usize),
    {
        let mut pieces: Vec<usize> = Vec::new();
        let mut byte_i: usize = 0;
        while byte_i < self.payload.len()
            invariant
                byte_i <= self.payload.len(),
                8 * self.payload.len() <= usize::MAX,
                pieces@ == spec_pieces_below(self@, (8 * byte_i) as nat),
            decreases self.payload.len() - byte_i,
        {
            let byte: u8 = self.payload[byte_i];
            let mut bit_i: u32 = 0;
            while bit_i < 8
                invariant
                    bit_i <= 8,
                    byte_i < self.payload.len(),
                    byte == self.payload[byte_i as int],
                    8 * self.payload.len() <= usize::MAX,
                    pieces@ == spec_pieces_below(self@, (8 * byte_i + bit_i) as nat),
                decreases 8 - bit_i,
            {
                let piece_i: usize = byte_i * 8 + bit_i as usize;
                assert(piece_i / 8 == byte_i && piece_i % 8 == bit_i);
                if byte & (0x80u8 >> bit_i) != 0 {
                    pieces.push(piece_i);
                }
                bit_i += 1;
            }
            byte_i += 1;
        }
        proof {
            lemma_pieces_below(self@, 8 * self@.len());
        }
        pieces
    }

    /// Records that the peer has announced piece `piece`: sets its bit and no
    /// other. A piece beyond the bitmap's capacity leaves the bitmap as it
    /// is, and the answer is `false`.
    pub fn set_piece(&mut self, piece: u32) -> (within: bool)
        ensures
            within == (piece < old(self).bit_capacity()),
            final(self)@ == spec_set_piece(old(self)@, piece as nat),
    {
        let byte_i: usize = (piece / 8) as usize;
        let bit_i: u32 = piece % 8;
        if byte_i >= self.payload.len() {
            return false;
        }
        let byte: u8 = self.payload[byte_i];
        self.payload[byte_i] = byte | (0x80u8 >> bit_i);
        true
    }
}

} // verus!
