//! Putting the content together: blocks into pieces, verified pieces into
//! the whole, and the whole cut into its files.

use crate::blocks::{block_count, block_length, spec_block_count, spec_block_length, BLOCK_MAX_SIZE};
use crate::hash::{digest, digest_matches, spec_sha1};
use crate::peer::message::Piece;
use crate::torrent::{
    lemma_files_length_grows, lemma_pieces_cover_content, spec_files_length, spec_piece_count,
    spec_piece_size, File, Info, Keys, Torrent,
};
use vstd::arithmetic::mul::{lemma_mul_inequality, lemma_mul_is_distributive_add_other_way};
use vstd::prelude::*;

verus! {

/// `bytes` with the bytes from offset `at` on replaced by `data`.
pub open spec fn spec_write_at(bytes: Seq<u8>, at: int, data: Seq<u8>) -> Seq<u8>
    recommends
        0 <= at,
        at + data.len() <= bytes.len(),
{
    bytes.subrange(0, at) + data + bytes.subrange(at + data.len(), bytes.len() as int)
}

/// Writing at an offset changes the bytes written and no others: what is
/// written stands where it was written, and every other byte stays.
pub proof fn lemma_write_at(bytes: Seq<u8>, at: int, data: Seq<u8>)
    requires
        0 <= at,
        at + data.len() <= bytes.len(),
    ensures
        spec_write_at(bytes, at, data).len() == bytes.len(),
        spec_write_at(bytes, at, data).subrange(at, at + data.len()) == data,
        forall|j: int|
            0 <= j < bytes.len() && !(at <= j < at + data.len()) ==> spec_write_at(
                bytes,
                at,
                data,
            )[j] == #[trigger] bytes[j],
{
    assert(spec_write_at(bytes, at, data).subrange(at, at + data.len()) =~= data);
}

/// Copies `data` into `dst` from offset `at` on.
pub fn write_at(dst: &mut Vec<u8>, at: usize, data: &[u8])
    requires
        at + data@.len() <= old(dst)@.len(),
    ensures
        final(dst)@ == spec_write_at(old(dst)@, at as int, data@),
{
    let size: usize = dst.len();
    let mut k: usize = 0;
    while k < data.len()
        invariant
            k <= data@.len(),
            at + data@.len() <= size,
            dst@.len() == size,
            dst@.len() == old(dst)@.len(),
            forall|j: int| 0 <= j < at ==> dst@[j] == old(dst)@[j],
            forall|j: int| at <= j < at + k ==> dst@[j] == data@[j - at],
            forall|j: int| at + k <= j < dst@.len() ==> dst@[j] == old(dst)@[j],
        decreases data@.len() - k,
    {
        dst[at + k] = data[k];
        k += 1;
    }
    proof {
        assert(dst@ =~= spec_write_at(old(dst)@, at as int, data@));
    }
}

/// Number of blocks not yet received.
pub open spec fn spec_count_missing(received: Seq<bool>) -> nat
    decreases received.len(),
{
    if received.len() == 0 {
        0
    } else if received.last() {
        spec_count_missing(received.drop_last())
    } else {
        spec_count_missing(received.drop_last()) + 1
    }
}

/// No block is missing exactly when every block has been received.
pub proof fn lemma_none_missing(received: Seq<bool>)
    ensures
        spec_count_missing(received) <= received.len(),
        (spec_count_missing(received) == 0) == (forall|b: int|
            0 <= b < received.len() ==> #[trigger] received[b]),
    decreases received.len(),
{
    if received.len() > 0 {
        lemma_none_missing(received.drop_last());
        if spec_count_missing(received) == 0 {
            assert forall|b: int| 0 <= b < received.len() implies #[trigger] received[b] by {
                if b < received.len() - 1 {
                    assert(received.drop_last()[b]);
                }
            }
        } else if received.last() {
            let b = choose|b: int| 0 <= b < received.len() - 1 && !received.drop_last()[b];
            assert(!received[b]);
        }
    }
}

/// Where nothing has been received, everything is missing.
pub proof fn lemma_all_missing(received: Seq<bool>)
    requires
        forall|b: int| 0 <= b < received.len() ==> !#[trigger] received[b],
    ensures
        spec_count_missing(received) == received.len(),
    decreases received.len(),
{
    if received.len() > 0 {
        lemma_all_missing(received.drop_last());
    }
}

/// Marking a block received lowers the count of missing blocks by one if it
/// was missing, and leaves it as it is otherwise.
pub proof fn lemma_mark_received(received: Seq<bool>, block: int)
    requires
        0 <= block < received.len(),
    ensures
        spec_count_missing(received.update(block, true)) + (if received[block] {
            0nat
        } else {
            1nat
        }) == spec_count_missing(received),
    decreases received.len(),
{
    let marked = received.update(block, true);
    if block == received.len() - 1 {
        assert(marked.drop_last() =~= received.drop_last());
    } else {
        lemma_mark_received(received.drop_last(), block);
        assert(marked.drop_last() =~= received.drop_last().update(block, true));
    }
}

/// Why a block cannot be taken into a piece.
#[derive(Debug, Clone, Copy, PartialEq, Eq, Structural)]
pub enum BlockError {
    /// The block belongs to another piece.
    WrongPiece { expected: u32, found: u32 },
    /// No block of the piece begins at this offset.
    WrongOffset { begin: u32 },
    /// The block at this offset has another length.
    WrongLength { expected: u32, found: usize },
    /// No piece is being fetched.
    NotFetching,
}

/// Which block of piece `index`, of `length` bytes, a payload with these
/// coordinates fills, or why it fills none: it must name the piece, begin
/// where a block of the piece begins, and be as long as that block.
pub open spec fn spec_check_block(
    index: u32,
    length: u32,
    found_index: u32,
    begin: u32,
    block_len: nat,
) -> Result<nat, BlockError> {
    if found_index != index {
        Err(BlockError::WrongPiece { expected: index, found: found_index })
    } else if begin % 16384 != 0 || begin / 16384 >= spec_block_count(length as nat) {
        Err(BlockError::WrongOffset { begin })
    } else if block_len != spec_block_length(length as nat, (begin / 16384) as nat) {
        Err(
            BlockError::WrongLength {
                expected: spec_block_length(length as nat, (begin / 16384) as nat) as u32,
                found: block_len as usize,
            },
        )
    } else {
        Ok((begin / 16384) as nat)
    }
}

/// A piece being put together from its blocks. Each block is written at its
/// own offset, so the order in which blocks arrive does not matter.
pub struct PieceBuffer {
    index: u32,
    length: u32,
    bytes: Vec<u8>,
    received: Vec<bool>,
    missing: u32,
}

impl PieceBuffer {
    /// The index of the piece.
    pub closed spec fn spec_index(&self) -> u32 {
        self.index
    }

    /// The length of the piece.
    pub closed spec fn spec_length(&self) -> u32 {
        self.length
    }

    /// The bytes of the piece as far as they have arrived; zero elsewhere
    /// until a block is written there.
    pub closed spec fn spec_bytes(&self) -> Seq<u8> {
        self.bytes@
    }

    /// For each block, whether it has arrived.
    pub closed spec fn spec_received(&self) -> Seq<bool> {
        self.received@
    }

    /// The buffer is as long as the piece, and there is one mark for each
    /// block of the piece.
    pub closed spec fn wf(&self) -> bool {
        &&& self.bytes@.len() == self.length
        &&& self.received@.len() == spec_block_count(self.length as nat)
        &&& self.missing == spec_count_missing(self.received@)
    }

    /// Whether every block has arrived.
    pub open spec fn spec_complete(&self) -> bool {
        forall|b: int| 0 <= b < self.spec_received().len() ==> #[trigger] self.spec_received()[b]
    }

    /// An empty buffer for piece `index`, of `length` bytes: all zero, no
    /// block received.
    pub fn new(index: u32, length: u32) -> (buffer: Self)
        ensures
            buffer.wf(),
            buffer.spec_index() == index,
            buffer.spec_length() == length,
            buffer.spec_bytes() == Seq::new(length as nat, |j: int| 0u8),
            buffer.spec_received() == Seq::new(spec_block_count(length as nat), |b: int| false),
    {
        let count: u32 = block_count(length);
        let bytes: Vec<u8> = vec![0u8; length as usize];
        let received: Vec<bool> = vec![false; count as usize];
        proof {
            assert(bytes@ =~= Seq::new(length as nat, |j: int| 0u8));
            assert(received@ =~= Seq::new(count as nat, |b: int| false));
            lemma_all_missing(received@);
        }
        Self { index, length, bytes, received, missing: count }
    }

    /// Takes a block into the piece, at the block's own offset. A block that
    /// names another piece, begins where no block of this piece begins, or
    /// has the wrong length is refused and changes nothing. A block that
    /// arrives again is written again and counted once.
    pub fn accept(&mut self, piece: &Piece) -> (result: Result<(), BlockError>)
        requires
            old(self).wf(),
        ensures
            final(self).wf(),
            final(self).spec_index() == old(self).spec_index(),
            final(self).spec_length() == old(self).spec_length(),
            match spec_check_block(
                old(self).spec_index(),
                old(self).spec_length(),
                piece.spec_index(),
                piece.spec_begin(),
                piece.spec_block().len(),
            ) {
                Err(error) => {
                    &&& result == Err::<(), BlockError>(error)
                    &&& final(self).spec_bytes() == old(self).spec_bytes()
                    &&& final(self).spec_received() == old(self).spec_received()
                },
                Ok(block) => {
                    &&& result == Ok::<(), BlockError>(())
                    &&& final(self).spec_bytes() == spec_write_at(
                        old(self).spec_bytes(),
                        piece.spec_begin() as int,
                        piece.spec_block(),
                    )
                    &&& final(self).spec_received() == old(self).spec_received().update(
                        block as int,
                        true,
                    )
                },
            },
    {
        if piece.index() != self.index {
            return Err(BlockError::WrongPiece { expected: self.index, found: piece.index() });
        }
        let begin: u32 = piece.begin();
        let block: u32 = begin / BLOCK_MAX_SIZE;
        if begin % BLOCK_MAX_SIZE != 0 || block >= block_count(self.length) {
            return Err(BlockError::WrongOffset { begin });
        }
        let expected: u32 = block_length(self.length, block);
        let data: &[u8] = piece.block();
        if data.len() != expected as usize {
            return Err(BlockError::WrongLength { expected, found: data.len() });
        }
        proof {
            lemma_mark_received(self.received@, block as int);
            lemma_none_missing(self.received@);
        }
        write_at(&mut self.bytes, begin as usize, data);
        if !self.received[block as usize] {
            self.received[block as usize] = true;
            self.missing = self.missing - 1;
        } else {
            proof {
                assert(self.received@ =~= old(self).received@.update(block as int, true));
            }
        }
        Ok(())
    }

    /// Whether every block has arrived.
    pub fn is_complete(&self) -> (complete: bool)
        requires
            self.wf(),
        ensures
            complete == self.spec_complete(),
    {
        proof {
            lemma_none_missing(self.received@);
            assert(self.spec_received() == self.received@);
            assert(self.spec_complete() == (forall|b: int|
                0 <= b < self.received@.len() ==> #[trigger] self.received@[b]));
        }
        self.missing == 0
    }

    /// The index of the piece.
    pub fn index(&self) -> (index: u32)
        ensures
            index == self.spec_index(),
    {
        self.index
    }

    /// The bytes of the piece as far as they have arrived.
    pub fn bytes(&self) -> (bytes: &[u8])
        ensures
            bytes@ == self.spec_bytes(),
    {
        self.bytes.as_slice()
    }

    /// The bytes of the piece, once every block has arrived. A piece of
    /// which a block is still missing when its fetch ends has failed.
    pub fn finish(self) -> (result: Result<Vec<u8>, DownloadError>)
        requires
            self.wf(),
        ensures
            self.spec_complete() ==> {
                &&& result matches Ok(bytes)
                &&& bytes@ == self.spec_bytes()
                &&& bytes@.len() == self.spec_length()
            },
            !self.spec_complete() ==> result == Err::<Vec<u8>, DownloadError>(
                DownloadError::MissingBlocks { piece: self.spec_index() },
            ),
    {
        if self.is_complete() {
            Ok(self.bytes)
        } else {
            Err(DownloadError::MissingBlocks { piece: self.index })
        }
    }
}

/// Why a download cannot be completed.
#[derive(Debug, Clone, Copy, PartialEq, Eq, Structural)]
pub enum DownloadError {
    /// No connected peer holds the piece.
    NoPeers { piece: u32 },
    /// The peers fetching the piece all finished before every block of it
    /// had arrived.
    MissingBlocks { piece: u32 },
    /// The bytes put together for the piece do not have the digest the
    /// metadata declares for it.
    HashMismatch { piece: u32 },
}

/// The bytes of piece `piece` within the content `bytes`.
pub open spec fn spec_piece_bytes(bytes: Seq<u8>, piece_length: nat, piece: nat) -> Seq<u8> {
    bytes.subrange(
        (piece * piece_length) as int,
        (piece * piece_length + spec_piece_size(bytes.len(), piece_length, piece)) as int,
    )
}

/// Writing a piece at its place in the content makes it the content's piece
/// there, and leaves every other piece as it was.
pub proof fn lemma_write_piece(
    bytes: Seq<u8>,
    piece_length: nat,
    piece: nat,
    data: Seq<u8>,
    other: nat,
)
    requires
        piece_length > 0,
        piece < spec_piece_count(bytes.len(), piece_length),
        other < spec_piece_count(bytes.len(), piece_length),
        data.len() == spec_piece_size(bytes.len(), piece_length, piece),
    ensures
        piece * piece_length + data.len() <= bytes.len(),
        spec_write_at(bytes, (piece * piece_length) as int, data).len() == bytes.len(),
        spec_piece_bytes(
            spec_write_at(bytes, (piece * piece_length) as int, data),
            piece_length,
            piece,
        ) == data,
        other != piece ==> spec_piece_bytes(
            spec_write_at(bytes, (piece * piece_length) as int, data),
            piece_length,
            other,
        ) == spec_piece_bytes(bytes, piece_length, other),
{
    let total = bytes.len();
    let written = spec_write_at(bytes, (piece * piece_length) as int, data);
    lemma_pieces_cover_content(total, piece_length, piece);
    lemma_pieces_cover_content(total, piece_length, other);
    assert(written.len() == total);
    assert(spec_piece_bytes(written, piece_length, piece) =~= data);
    if other < piece {
        lemma_mul_inequality(other as int + 1, piece as int, piece_length as int);
        lemma_mul_is_distributive_add_other_way(piece_length as int, other as int, 1);
        assert(other * piece_length + piece_length <= piece * piece_length);
        assert(spec_piece_bytes(written, piece_length, other) =~= spec_piece_bytes(
            bytes,
            piece_length,
            other,
        ));
    } else if other > piece {
        lemma_mul_inequality(piece as int + 1, other as int, piece_length as int);
        lemma_mul_is_distributive_add_other_way(piece_length as int, piece as int, 1);
        assert(piece * piece_length + piece_length <= other * piece_length);
        assert(spec_piece_bytes(written, piece_length, other) =~= spec_piece_bytes(
            bytes,
            piece_length,
            other,
        ));
    }
}

/// The content being put together, piece by piece. A piece is taken in only
/// if its bytes have the digest the metadata declares for it.
pub struct Assembler {
    piece_length: usize,
    hashes: Vec<[u8; 20]>,
    files: Vec<File>,
    bytes: Vec<u8>,
    accepted: Vec<bool>,
    missing: usize,
}

impl Assembler {
    /// The length of a piece other than the last.
    pub closed spec fn spec_piece_length(&self) -> nat {
        self.piece_length as nat
    }

    /// The digests declared for the pieces.
    pub closed spec fn spec_hashes(&self) -> Seq<[u8; 20]> {
        self.hashes@
    }

    /// The files of the content.
    pub closed spec fn spec_files(&self) -> Seq<File> {
        self.files@
    }

    /// The content as far as it has been put together; zero where no piece
    /// has been taken in yet.
    pub closed spec fn spec_bytes(&self) -> Seq<u8> {
        self.bytes@
    }

    /// For each piece, whether it has been taken in.
    pub closed spec fn spec_accepted(&self) -> Seq<bool> {
        self.accepted@
    }

    /// The length piece `piece` must have.
    pub open spec fn spec_piece_size(&self, piece: nat) -> nat {
        spec_piece_size(self.spec_bytes().len(), self.spec_piece_length(), piece)
    }

    /// There is a digest and a mark for each piece of the content, the files
    /// add up to the content, and every piece taken in has its declared
    /// digest.
    pub closed spec fn wf(&self) -> bool {
        &&& 0 < self.piece_length
        &&& self.hashes@.len() == spec_piece_count(self.bytes@.len(), self.piece_length as nat)
        &&& self.hashes@.len() <= u32::MAX
        &&& self.accepted@.len() == self.hashes@.len()
        &&& self.missing == spec_count_missing(self.accepted@)
        &&& spec_files_length(self.files@) == self.bytes@.len()
        &&& forall|piece: int|
            0 <= piece < self.accepted@.len() && #[trigger] self.accepted@[piece] ==> spec_sha1(
                spec_piece_bytes(self.bytes@, self.piece_length as nat, piece as nat),
            ) == self.hashes@[piece]@
    }

    /// Whether every piece has been taken in.
    pub open spec fn spec_complete(&self) -> bool {
        forall|piece: int|
            0 <= piece < self.spec_accepted().len() ==> #[trigger] self.spec_accepted()[piece]
    }

    /// Every piece taken in has the digest declared for it.
    pub proof fn lemma_accepted_pieces_verified(&self)
        requires
            self.wf(),
        ensures
            self.spec_accepted().len() == self.spec_hashes().len(),
            self.spec_hashes().len() == spec_piece_count(
                self.spec_bytes().len(),
                self.spec_piece_length(),
            ),
            forall|piece: int|
                0 <= piece < self.spec_accepted().len() && #[trigger] self.spec_accepted()[piece]
                    ==> spec_sha1(
                    spec_piece_bytes(self.spec_bytes(), self.spec_piece_length(), piece as nat),
                ) == self.spec_hashes()[piece]@,
    {
    }

    /// An assembler for the content of `t`: as many zero bytes as the content
    /// is long, and no piece taken in.
    pub fn new(t: Torrent) -> (assembler: Self)
        requires
            t.well_formed(),
        ensures
            assembler.wf(),
            assembler.spec_piece_length() == t.info.piece_length,
            assembler.spec_hashes() == t.info.pieces.0@,
            assembler.spec_bytes() == Seq::new(t.spec_length(), |j: int| 0u8),
            assembler.spec_accepted() == Seq::new(t.info.pieces.0@.len(), |piece: int| false),
            spec_files_length(assembler.spec_files()) == t.spec_length(),
            match t.info.keys {
                Keys::SingleFile { length } => {
                    &&& assembler.spec_files().len() == 1
                    &&& assembler.spec_files()[0].length == length
                    &&& assembler.spec_files()[0].path@ == seq![t.info.name]
                },
                Keys::MultiFile { files } => assembler.spec_files() == files@,
            },
    {
        let total: usize = t.length();
        let piece_length: usize = t.info.piece_length;
        let count: usize = t.info.pieces.0.len();
        let bytes: Vec<u8> = vec![0u8; total];
        let accepted: Vec<bool> = vec![false; count];
        proof {
            assert(bytes@ =~= Seq::new(total as nat, |j: int| 0u8));
            assert(accepted@ =~= Seq::new(count as nat, |piece: int| false));
            lemma_all_missing(accepted@);
        }
        let Torrent { announce: _, info } = t;
        let Info { name, piece_length: _, pieces, keys } = info;
        let files: Vec<File> = keys.into_files(name);
        Self { piece_length, hashes: pieces.0, files, bytes, accepted, missing: count }
    }

    /// Number of pieces of the content.
    pub fn piece_count(&self) -> (count: usize)
        requires
            self.wf(),
        ensures
            count == self.spec_hashes().len(),
            count == spec_piece_count(self.spec_bytes().len(), self.spec_piece_length()),
    {
        self.hashes.len()
    }

    /// The length piece `index` must have; zero for a piece the content
    /// does not have.
    pub fn piece_size(&self, index: u32) -> (size: usize)
        requires
            self.wf(),
        ensures
            index < self.spec_hashes().len() ==> size == self.spec_piece_size(index as nat),
            index >= self.spec_hashes().len() ==> size == 0,
    {
        if index as usize >= self.hashes.len() {
            return 0;
        }
        proof {
            lemma_pieces_cover_content(
                self.bytes@.len(),
                self.piece_length as nat,
                index as nat,
            );
        }
        let total: usize = self.bytes.len();
        let begin: usize = index as usize * self.piece_length;
        let left: usize = total - begin;
        if left >= self.piece_length {
            self.piece_length
        } else {
            left
        }
    }

    /// Takes piece `index` into the content if `found`, the digest of
    /// `data`, is the digest declared for the piece: then `data` is written
    /// at the piece's place. Otherwise the content stays as it is.
    pub fn place_checked(&mut self, index: u32, data: &[u8], found: &[u8; 20]) -> (result: Result<
        (),
        DownloadError,
    >)
        requires
            old(self).wf(),
            index < old(self).spec_hashes().len(),
            data@.len() == old(self).spec_piece_size(index as nat),
            found@ == spec_sha1(data@),
        ensures
            final(self).wf(),
            final(self).spec_piece_length() == old(self).spec_piece_length(),
            final(self).spec_hashes() == old(self).spec_hashes(),
            final(self).spec_files() == old(self).spec_files(),
            final(self).spec_bytes().len() == old(self).spec_bytes().len(),
            found@ != old(self).spec_hashes()[index as int]@ ==> {
                &&& result == Err::<(), DownloadError>(DownloadError::HashMismatch { piece: index })
                &&& final(self).spec_bytes() == old(self).spec_bytes()
                &&& final(self).spec_accepted() == old(self).spec_accepted()
            },
            found@ == old(self).spec_hashes()[index as int]@ ==> {
                &&& result == Ok::<(), DownloadError>(())
                &&& final(self).spec_bytes() == spec_write_at(
                    old(self).spec_bytes(),
                    index * old(self).spec_piece_length(),
                    data@,
                )
                &&& final(self).spec_accepted() == old(self).spec_accepted().update(
                    index as int,
                    true,
                )
            },
    {
        if !digest_matches(found, &self.hashes[index as usize]) {
            return Err(DownloadError::HashMismatch { piece: index });
        }
        proof {
            lemma_pieces_cover_content(
                self.bytes@.len(),
                self.piece_length as nat,
                index as nat,
            );
            lemma_mark_received(self.accepted@, index as int);
            lemma_none_missing(self.accepted@);
            assert forall|piece: int|
                0 <= piece < self.accepted@.len() && #[trigger] self.accepted@.update(
                    index as int,
                    true,
                )[piece] implies spec_sha1(
                spec_piece_bytes(
                    spec_write_at(self.bytes@, index * self.piece_length, data@),
                    self.piece_length as nat,
                    piece as nat,
                ),
            ) == self.hashes@[piece]@ by {
                lemma_write_piece(
                    self.bytes@,
                    self.piece_length as nat,
                    index as nat,
                    data@,
                    piece as nat,
                );
                if piece != index {
                    assert(self.accepted@[piece]);
                }
            }
            lemma_write_piece(
                self.bytes@,
                self.piece_length as nat,
                index as nat,
                data@,
                index as nat,
            );
        }
        let total: usize = self.bytes.len();
        let begin: usize = index as usize * self.piece_length;
        write_at(&mut self.bytes, begin, data);
        if !self.accepted[index as usize] {
            self.accepted[index as usize] = true;
            self.missing = self.missing - 1;
        } else {
            proof {
                assert(self.accepted@ =~= old(self).accepted@.update(index as int, true));
            }
        }
        Ok(())
    }

    /// Verifies and takes in piece `index`: `data` is hashed, and written at
    /// the piece's place if its digest is the one declared for the piece.
    /// On a mismatch the content stays as it is.
    pub fn place(&mut self, index: u32, data: &[u8]) -> (result: Result<(), DownloadError>)
        requires
            old(self).wf(),
            index < old(self).spec_hashes().len(),
            data@.len() == old(self).spec_piece_size(index as nat),
        ensures
            final(self).wf(),
            final(self).spec_piece_length() == old(self).spec_piece_length(),
            final(self).spec_hashes() == old(self).spec_hashes(),
            final(self).spec_files() == old(self).spec_files(),
            final(self).spec_bytes().len() == old(self).spec_bytes().len(),
            spec_sha1(data@) != old(self).spec_hashes()[index as int]@ ==> {
                &&& result == Err::<(), DownloadError>(DownloadError::HashMismatch { piece: index })
                &&& final(self).spec_bytes() == old(self).spec_bytes()
                &&& final(self).spec_accepted() == old(self).spec_accepted()
            },
            spec_sha1(data@) == old(self).spec_hashes()[index as int]@ ==> {
                &&& result == Ok::<(), DownloadError>(())
                &&& final(self).spec_bytes() == spec_write_at(
                    old(self).spec_bytes(),
                    index * old(self).spec_piece_length(),
                    data@,
                )
                &&& final(self).spec_accepted() == old(self).spec_accepted().update(
                    index as int,
                    true,
                )
            },
    {
        let found: [u8; 20] = digest(data);
        self.place_checked(index, data, &found)
    }

    /// Whether every piece has been taken in.
    pub fn is_complete(&self) -> (complete: bool)
        requires
            self.wf(),
        ensures
            complete == self.spec_complete(),
    {
        proof {
            lemma_none_missing(self.accepted@);
            assert(self.spec_accepted() == self.accepted@);
            assert(self.spec_complete() == (forall|piece: int|
                0 <= piece < self.accepted@.len() ==> #[trigger] self.accepted@[piece]));
        }
        self.missing == 0
    }

    /// The content, once every piece has been taken in; none before. Each
    /// piece of the content given has the digest declared for it.
    pub fn finish(self) -> (downloaded: Option<Downloaded>)
        requires
            self.wf(),
        ensures
            downloaded.is_some() == self.spec_complete(),
            downloaded matches Some(d) ==> {
                &&& d.wf()
                &&& d.spec_bytes() == self.spec_bytes()
                &&& d.spec_files() == self.spec_files()
                &&& forall|piece: int|
                    0 <= piece < self.spec_hashes().len() ==> spec_sha1(
                        spec_piece_bytes(d.spec_bytes(), self.spec_piece_length(), piece as nat),
                    ) == (#[trigger] self.spec_hashes()[piece])@
            },
    {
        if !self.is_complete() {
            return None;
        }
        proof {
            assert forall|piece: int| 0 <= piece < self.hashes@.len() implies spec_sha1(
                spec_piece_bytes(self.bytes@, self.piece_length as nat, piece as nat),
            ) == (#[trigger] self.hashes@[piece])@ by {
                assert(self.spec_accepted()[piece]);
            }
        }
        Some(Downloaded { bytes: self.bytes, files: self.files })
    }
}

/// Where file `i` begins in the content: the lengths of the files before it,
/// added up.
pub open spec fn spec_file_offset(files: Seq<File>, i: int) -> nat {
    spec_files_length(files.take(i))
}

/// The files tile the content: the first begins at offset zero, each begins
/// where the one before it ends, and the last ends where the content ends.
pub proof fn lemma_files_tile_content(files: Seq<File>)
    ensures
        spec_file_offset(files, 0) == 0,
        forall|i: int|
            0 <= i < files.len() ==> #[trigger] spec_file_offset(files, i + 1) == spec_file_offset(
                files,
                i,
            ) + files[i].length,
        spec_file_offset(files, files.len() as int) == spec_files_length(files),
{
    assert(files.take(files.len() as int) =~= files);
    assert forall|i: int| 0 <= i < files.len() implies #[trigger] spec_file_offset(files, i + 1)
        == spec_file_offset(files, i) + files[i].length by {
        assert(files.take(i + 1).drop_last() =~= files.take(i));
    }
}

/// The content of a torrent, whole and verified, with the list of its files.
pub struct Downloaded {
    bytes: Vec<u8>,
    files: Vec<File>,
}

impl Downloaded {
    /// The bytes of the content.
    pub closed spec fn spec_bytes(&self) -> Seq<u8> {
        self.bytes@
    }

    /// The files of the content, in order.
    pub closed spec fn spec_files(&self) -> Seq<File> {
        self.files@
    }

    /// The lengths of the files add up to the length of the content.
    pub open spec fn wf(&self) -> bool {
        spec_files_length(self.spec_files()) == self.spec_bytes().len()
    }

    /// The content `bytes` as the files `files`, if the lengths of the files
    /// add up to the length of the content.
    pub fn new(bytes: Vec<u8>, files: Vec<File>) -> (downloaded: Option<Self>)
        ensures
            downloaded.is_some() == (spec_files_length(files@) == bytes@.len()),
            downloaded matches Some(d) ==> {
                &&& d.wf()
                &&& d.spec_bytes() == bytes@
                &&& d.spec_files() == files@
            },
    {
        let size: usize = bytes.len();
        let mut total: usize = 0;
        let mut i: usize = 0;
        while i < files.len()
            invariant
                i <= files@.len(),
                size == bytes@.len(),
                total == spec_files_length(files@.take(i as int)),
            decreases files@.len() - i,
        {
            proof {
                assert(files@.take(i + 1).drop_last() =~= files@.take(i as int));
                assert(spec_files_length(files@.take(i + 1)) == total + files@[i as int].length);
                lemma_files_length_grows(files@, i + 1);
            }
            total = match total.checked_add(files[i].length) {
                Some(sum) => sum,
                None => {
                    return None;
                },
            };
            i += 1;
        }
        proof {
            assert(files@.take(i as int) =~= files@);
        }
        if total == size {
            Some(Self { bytes, files })
        } else {
            None
        }
    }

    /// The bytes of the content.
    pub fn bytes(&self) -> (bytes: &[u8])
        ensures
            bytes@ == self.spec_bytes(),
    {
        self.bytes.as_slice()
    }

    /// The files of the content, in order.
    pub fn files(&self) -> (files: &Vec<File>)
        ensures
            files@ == self.spec_files(),
    {
        &self.files
    }

    /// A walk over the files, from the first.
    pub fn iter<'a>(&'a self) -> (iter: DownloadedIter<'a>)
        requires
            self.wf(),
        ensures
            iter.wf(),
            iter.spec_downloaded() == self,
            iter.spec_position() == 0,
    {
        DownloadedIter::new(self)
    }
}

/// A walk over the files of a content, each with its bytes.
pub struct DownloadedIter<'a> {
    downloaded: &'a Downloaded,
    position: usize,
    offset: usize,
}

impl<'a> DownloadedIter<'a> {
    /// The content walked over.
    pub closed spec fn spec_downloaded(&self) -> &'a Downloaded {
        self.downloaded
    }

    /// How many files the walk has passed.
    pub closed spec fn spec_position(&self) -> nat {
        self.position as nat
    }

    /// The walk stands at a file of a well-formed content, or past the
    /// last, and knows where that file begins.
    pub closed spec fn wf(&self) -> bool {
        &&& self.downloaded.wf()
        &&& self.position <= self.downloaded.files@.len()
        &&& self.offset == spec_file_offset(self.downloaded.files@, self.position as int)
    }

    /// A walk over the files of `downloaded`, from the first.
    pub fn new(downloaded: &'a Downloaded) -> (iter: Self)
        requires
            downloaded.wf(),
        ensures
            iter.wf(),
            iter.spec_downloaded() == downloaded,
            iter.spec_position() == 0,
    {
        proof {
            lemma_files_tile_content(downloaded.files@);
        }
        Self { downloaded, position: 0, offset: 0 }
    }

    /// The next file with its bytes: those from where the files before it
    /// end, as many as the file is long. None once every file has been
    /// given.
    pub fn next(&mut self) -> (item: Option<DownloadFile<'a>>)
        requires
            old(self).wf(),
        ensures
            final(self).wf(),
            final(self).spec_downloaded() == old(self).spec_downloaded(),
            item.is_none() == (old(self).spec_position()
                == old(self).spec_downloaded().spec_files().len()),
            item.is_none() ==> final(self).spec_position() == old(self).spec_position(),
            item matches Some(file) ==> {
                let files = old(self).spec_downloaded().spec_files();
                let at = old(self).spec_position() as int;
                &&& final(self).spec_position() == at + 1
                &&& *file.spec_file() == files[at]
                &&& spec_file_offset(files, at + 1)
                    <= old(self).spec_downloaded().spec_bytes().len()
                &&& file.spec_bytes() == old(self).spec_downloaded().spec_bytes().subrange(
                    spec_file_offset(files, at) as int,
                    spec_file_offset(files, at + 1) as int,
                )
            },
    {
        let downloaded: &'a Downloaded = self.downloaded;
        if self.position >= downloaded.files.len() {
            return None;
        }
        let file: &'a File = &downloaded.files[self.position];
        let content: &'a [u8] = downloaded.bytes.as_slice();
        let size: usize = content.len();
        proof {
            let files = downloaded.files@;
            let at = self.position as int;
            lemma_files_tile_content(files);
            lemma_files_length_grows(files, at + 1);
            assert(spec_file_offset(files, at + 1) == spec_file_offset(files, at)
                + files[at].length);
            assert(spec_file_offset(files, at + 1) <= size);
        }
        let end: usize = self.offset + file.length;
        let bytes: &'a [u8] = vstd::slice::slice_subrange(content, self.offset, end);
        self.position = self.position + 1;
        self.offset = end;
        Some(DownloadFile { file, bytes })
    }
}

/// One file of a content: what the metadata says of it, and its bytes.
pub struct DownloadFile<'a> {
    file: &'a File,
    bytes: &'a [u8],
}

impl<'a> DownloadFile<'a> {
    /// What the metadata says of the file.
    pub closed spec fn spec_file(&self) -> &'a File {
        self.file
    }

    /// The bytes of the file.
    pub closed spec fn spec_bytes(&self) -> Seq<u8> {
        self.bytes@
    }

    /// The components of the file's path.
    pub fn path(&self) -> (path: &'a [String])
        ensures
            path@ == self.spec_file().path@,
    {
        self.file.path.as_slice()
    }

    /// The bytes of the file.
    pub fn bytes(&self) -> (bytes: &'a [u8])
        ensures
            bytes@ == self.spec_bytes(),
    {
        self.bytes
    }
}

} // verus!
