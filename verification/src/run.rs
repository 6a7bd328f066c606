//! The run of a download, piece after piece: which piece is fetched next,
//! what becomes of the blocks that arrive, and what becomes of the piece
//! when its fetch ends.
//!
//! The run decides; its caller connects, sends and waits. The caller asks
//! for the next piece, hands the requests of that piece out to the peers
//! that hold it, hands in every block that comes back, and says when the
//! peers have finished.

use crate::blocks::{block_requests, spec_block_count, spec_is_block_request};
use crate::download::{
    spec_check_block, spec_piece_bytes, spec_write_at, Assembler, BlockError, DownloadError,
    Downloaded, PieceBuffer,
};
use crate::hash::spec_sha1;
use crate::peer::bitfield::BitField;
use crate::peer::message::{Piece, Request};
use crate::piece::{spec_holders, spec_is_next, spec_task_of, PieceScheduler, PieceTask};
use crate::torrent::Torrent;
use vstd::prelude::*;

verus! {

/// What is to be done for one piece: the requests to hand out, and the peers
/// to hand them to.
#[derive(Debug, Clone)]
pub struct Fetch {
    /// The index of the piece.
    pub index: u32,
    /// The length of the piece in bytes.
    pub length: u32,
    /// The peers that hold the piece, by their position among the peers the
    /// run was planned with.
    pub peers: Vec<usize>,
    /// One request for each block of the piece, in ascending order of
    /// offset.
    pub requests: Vec<Request>,
}

/// A download in progress.
pub struct Download {
    scheduler: PieceScheduler,
    assembler: Assembler,
    current: Option<PieceBuffer>,
    failed: bool,
}

impl Download {
    /// The pieces that wait to be fetched.
    pub closed spec fn spec_pending(&self) -> Seq<PieceTask> {
        self.scheduler@
    }

    /// The content as far as it has been put together.
    pub closed spec fn spec_assembler(&self) -> Assembler {
        self.assembler
    }

    /// The piece that is being fetched, if one is.
    pub closed spec fn spec_current(&self) -> Option<PieceBuffer> {
        self.current
    }

    /// Whether the fetch of a piece has failed.
    pub closed spec fn spec_failed(&self) -> bool {
        self.failed
    }

    /// Whether piece `piece` waits to be fetched.
    pub open spec fn spec_waits(&self, piece: int) -> bool {
        exists|j: int|
            0 <= j < self.spec_pending().len() && (#[trigger] self.spec_pending()[j]).spec_index()
                == piece
    }

    /// Whether no piece has been lost: unless a fetch has failed, every piece
    /// of the content has been taken in, or is being fetched, or waits.
    pub open spec fn spec_accounted(&self) -> bool {
        self.spec_failed() || forall|piece: int|
            0 <= piece < self.spec_assembler().spec_accepted().len() ==> {
                ||| #[trigger] self.spec_assembler().spec_accepted()[piece]
                ||| self.spec_waits(piece)
                ||| (self.spec_current() matches Some(buffer) && buffer.spec_index() == piece)
            }
    }

    /// Whether `task` is a piece of the content that `assembler` puts
    /// together, and can be fetched: the content has such a piece, of that
    /// length, and some peer holds it.
    pub open spec fn spec_fits(task: PieceTask, assembler: Assembler) -> bool {
        &&& task.spec_index() < assembler.spec_hashes().len()
        &&& task.spec_length() == assembler.spec_piece_size(task.spec_index() as nat)
        &&& task.spec_peers().len() > 0
    }

    /// The content being put together is well formed, every piece that waits
    /// is a piece of it that some peer holds, the piece being fetched is a
    /// piece of it, and no piece has been lost.
    pub open spec fn wf(&self) -> bool {
        &&& self.spec_assembler().wf()
        &&& self.spec_accounted()
        &&& forall|i: int|
            0 <= i < self.spec_pending().len() ==> Self::spec_fits(
                #[trigger] self.spec_pending()[i],
                self.spec_assembler(),
            )
        &&& self.spec_current() matches Some(buffer) ==> {
            &&& buffer.wf()
            &&& buffer.spec_index() < self.spec_assembler().spec_hashes().len()
            &&& buffer.spec_length() == self.spec_assembler().spec_piece_size(
                buffer.spec_index() as nat,
            )
        }
    }

    /// Plans the download of `t` from the peers whose bitmaps are
    /// `bit_fields`. A piece that no peer holds fails the run before
    /// anything is fetched.
    pub fn start(t: Torrent, bit_fields: &[BitField]) -> (result: Result<Self, DownloadError>)
        requires
            t.well_formed(),
        ensures
            match result {
                Ok(run) => {
                    &&& run.wf()
                    &&& run.spec_current() is None
                    &&& !run.spec_failed()
                    &&& run.spec_pending().len() == t.info.pieces.0@.len()
                    &&& forall|piece: int|
                        0 <= piece < run.spec_pending().len() ==> {
                            &&& spec_task_of(
                                #[trigger] run.spec_pending()[piece],
                                t,
                                bit_fields@,
                                piece as nat,
                            )
                            &&& run.spec_pending()[piece].spec_peers().len() > 0
                        }
                    &&& run.spec_assembler().spec_hashes() == t.info.pieces.0@
                    &&& run.spec_assembler().spec_piece_length() == t.info.piece_length
                    &&& run.spec_assembler().spec_bytes() == Seq::new(t.spec_length(), |j: int| 0u8)
                    &&& run.spec_assembler().spec_accepted() == Seq::new(
                        t.info.pieces.0@.len(),
                        |piece: int| false,
                    )
                },
                Err(error) => exists|piece: u32|
                    {
                        &&& error == (DownloadError::NoPeers { piece })
                        &&& piece < t.info.pieces.0@.len()
                        &&& (#[trigger] spec_holders(bit_fields@, piece as nat)).len() == 0
                        &&& forall|earlier: nat|
                            earlier < piece ==> (#[trigger] spec_holders(
                                bit_fields@,
                                earlier,
                            )).len() > 0
                    },
            },
    {
        let scheduler: PieceScheduler = match PieceScheduler::plan(&t, bit_fields) {
            Ok(scheduler) => scheduler,
            Err(error) => {
                return Err(error);
            },
        };
        let assembler: Assembler = Assembler::new(t);
        let run = Self { scheduler, assembler, current: None, failed: false };
        proof {
            assert forall|piece: int|
                0 <= piece < run.spec_assembler().spec_accepted().len() implies run.spec_waits(
                piece,
            ) by {
                assert(run.spec_pending()[piece].spec_index() == piece);
            }
        }
        Ok(run)
    }

    /// Whether the fetch of a piece has failed.
    pub fn has_failed(&self) -> (failed: bool)
        ensures
            failed == self.spec_failed(),
    {
        self.failed
    }

    /// A run in which no fetch has failed, no piece waits and none is being
    /// fetched has taken in every piece: a run ends with the whole content
    /// or with a failure, never with a part of the content.
    pub proof fn lemma_run_ends_complete(&self)
        requires
            self.wf(),
            !self.spec_failed(),
            self.spec_pending().len() == 0,
            self.spec_current() is None,
        ensures
            self.spec_assembler().spec_complete(),
    {
        let accepted = self.spec_assembler().spec_accepted();
        assert forall|piece: int| 0 <= piece < accepted.len() implies accepted[piece] by {
            assert(!self.spec_waits(piece));
        }
    }

    /// Whether a piece is being fetched.
    pub fn is_fetching(&self) -> (fetching: bool)
        ensures
            fetching == self.spec_current().is_some(),
    {
        self.current.is_some()
    }

    /// Number of pieces that wait to be fetched.
    pub fn pending(&self) -> (pending: usize)
        ensures
            pending == self.spec_pending().len(),
    {
        self.scheduler.len()
    }

    /// Begins the fetch of the next piece: the one that the fewest peers
    /// hold, and of several such the one with the lowest index. None when no
    /// piece waits, or while a piece is being fetched; the run then stays as
    /// it is.
    pub fn next_piece(&mut self) -> (next: Option<Fetch>)
        requires
            old(self).wf(),
        ensures
            final(self).wf(),
            final(self).spec_assembler() == old(self).spec_assembler(),
            final(self).spec_failed() == old(self).spec_failed(),
            next.is_none() == (old(self).spec_pending().len() == 0
                || old(self).spec_current().is_some()),
            next.is_none() ==> {
                &&& final(self).spec_pending() == old(self).spec_pending()
                &&& final(self).spec_current() == old(self).spec_current()
            },
            next matches Some(fetch) ==> exists|at: int|
                {
                    let task = old(self).spec_pending()[at];
                    &&& #[trigger] spec_is_next(old(self).spec_pending(), at)
                    &&& final(self).spec_pending() == old(self).spec_pending().remove(at)
                    &&& fetch.index == task.spec_index()
                    &&& fetch.length == task.spec_length()
                    &&& fetch.peers@ == task.spec_peers()
                    &&& fetch.peers@.len() > 0
                    &&& fetch.requests@.len() == spec_block_count(fetch.length as nat)
                    &&& forall|block: int|
                        0 <= block < fetch.requests@.len() ==> spec_is_block_request(
                            #[trigger] fetch.requests@[block],
                            fetch.index,
                            fetch.length,
                            block as nat,
                        )
                    &&& final(self).spec_current() matches Some(buffer)
                    &&& buffer.spec_index() == fetch.index
                    &&& buffer.spec_length() == fetch.length
                    &&& buffer.spec_bytes() == Seq::new(fetch.length as nat, |j: int| 0u8)
                    &&& buffer.spec_received() == Seq::new(
                        spec_block_count(fetch.length as nat),
                        |b: int| false,
                    )
                },
    {
        if self.current.is_some() {
            return None;
        }
        let task: PieceTask = match self.scheduler.pop() {
            Some(task) => task,
            None => {
                return None;
            },
        };
        let ghost before = old(self).spec_pending();
        let ghost at = choose|at: int|
            #[trigger] spec_is_next(before, at) && task == before[at] && self.spec_pending()
                == before.remove(at);
        let index: u32 = task.index();
        let length: u32 = task.length();
        let requests: Vec<Request> = block_requests(index, length);
        let peers: Vec<usize> = task.peers().clone();
        self.current = Some(PieceBuffer::new(index, length));
        proof {
            assert(Self::spec_fits(before[at], self.spec_assembler()));
            assert forall|i: int| 0 <= i < self.spec_pending().len() implies Self::spec_fits(
                #[trigger] self.spec_pending()[i],
                self.spec_assembler(),
            ) by {
                if i < at {
                    assert(self.spec_pending()[i] == before[i]);
                } else {
                    assert(self.spec_pending()[i] == before[i + 1]);
                }
            }
            if !self.spec_failed() {
                assert forall|piece: int|
                    0 <= piece < self.spec_assembler().spec_accepted().len() implies {
                    ||| #[trigger] self.spec_assembler().spec_accepted()[piece]
                    ||| self.spec_waits(piece)
                    ||| (self.spec_current() matches Some(buffer) && buffer.spec_index() == piece)
                } by {
                    if !old(self).spec_assembler().spec_accepted()[piece] {
                        assert(old(self).spec_waits(piece));
                        let j = choose|j: int|
                            0 <= j < before.len() && (#[trigger] before[j]).spec_index() == piece;
                        if j < at {
                            assert(self.spec_pending()[j] == before[j]);
                        } else if j > at {
                            assert(self.spec_pending()[j - 1] == before[j]);
                        }
                    }
                }
            }
        }
        Some(Fetch { index, length, peers, requests })
    }

    /// Takes in a block that a peer has delivered for the piece being
    /// fetched. A block that does not belong to that piece, or that arrives
    /// when no piece is being fetched, is refused and changes nothing.
    pub fn block_arrived(&mut self, piece: &Piece) -> (result: Result<(), BlockError>)
        requires
            old(self).wf(),
        ensures
            final(self).wf(),
            final(self).spec_assembler() == old(self).spec_assembler(),
            final(self).spec_pending() == old(self).spec_pending(),
            final(self).spec_failed() == old(self).spec_failed(),
            match old(self).spec_current() {
                None => {
                    &&& result == Err::<(), BlockError>(BlockError::NotFetching)
                    &&& final(self).spec_current() is None
                },
                Some(before) => {
                    &&& final(self).spec_current() matches Some(after)
                    &&& after.spec_index() == before.spec_index()
                    &&& after.spec_length() == before.spec_length()
                    &&& match spec_check_block(
                        before.spec_index(),
                        before.spec_length(),
                        piece.spec_index(),
                        piece.spec_begin(),
                        piece.spec_block().len(),
                    ) {
                        Err(error) => {
                            &&& result == Err::<(), BlockError>(error)
                            &&& after.spec_bytes() == before.spec_bytes()
                            &&& after.spec_received() == before.spec_received()
                        },
                        Ok(block) => {
                            &&& result == Ok::<(), BlockError>(())
                            &&& after.spec_bytes() == spec_write_at(
                                before.spec_bytes(),
                                piece.spec_begin() as int,
                                piece.spec_block(),
                            )
                            &&& after.spec_received() == before.spec_received().update(
                                block as int,
                                true,
                            )
                        },
                    }
                },
            },
    {
        match self.current.take() {
            None => Err(BlockError::NotFetching),
            Some(mut buffer) => {
                let result: Result<(), BlockError> = buffer.accept(piece);
                self.current = Some(buffer);
                proof {
                    self.lemma_pending_still_fits(*old(self));
                    if !self.spec_failed() {
                        assert forall|piece: int|
                            0 <= piece < self.spec_assembler().spec_accepted().len() implies {
                            ||| #[trigger] self.spec_assembler().spec_accepted()[piece]
                            ||| self.spec_waits(piece)
                            ||| (self.spec_current() matches Some(b) && b.spec_index() == piece)
                        } by {
                            if !old(self).spec_assembler().spec_accepted()[piece] {
                                if old(self).spec_waits(piece) {
                                    assert(self.spec_waits(piece));
                                }
                            }
                        }
                    }
                }
                result
            },
        }
    }

    /// Ends the fetch of the piece being fetched, when the peers that took
    /// part have all finished or every block has arrived. The piece is taken
    /// into the content if every block of it has arrived and its bytes have
    /// the digest declared for it. Otherwise the run has failed, and the
    /// content stays as it is. Where no piece is being fetched, nothing
    /// happens.
    pub fn piece_done(&mut self) -> (result: Result<(), DownloadError>)
        requires
            old(self).wf(),
        ensures
            final(self).wf(),
            final(self).spec_pending() == old(self).spec_pending(),
            final(self).spec_current() is None,
            final(self).spec_assembler().spec_hashes() == old(self).spec_assembler().spec_hashes(),
            final(self).spec_assembler().spec_piece_length()
                == old(self).spec_assembler().spec_piece_length(),
            final(self).spec_assembler().spec_files() == old(self).spec_assembler().spec_files(),
            final(self).spec_failed() == (old(self).spec_failed() || result.is_err()),
            ({
                let before = old(self).spec_assembler();
                let after = final(self).spec_assembler();
                match old(self).spec_current() {
                    None => {
                        &&& result == Ok::<(), DownloadError>(())
                        &&& after == before
                    },
                    Some(buffer) => {
                        let index = buffer.spec_index();
                        if !buffer.spec_complete() {
                            &&& result == Err::<(), DownloadError>(
                                DownloadError::MissingBlocks { piece: index },
                            )
                            &&& after.spec_bytes() == before.spec_bytes()
                            &&& after.spec_accepted() == before.spec_accepted()
                        } else if spec_sha1(buffer.spec_bytes())
                            != before.spec_hashes()[index as int]@ {
                            &&& result == Err::<(), DownloadError>(
                                DownloadError::HashMismatch { piece: index },
                            )
                            &&& after.spec_bytes() == before.spec_bytes()
                            &&& after.spec_accepted() == before.spec_accepted()
                        } else {
                            &&& result == Ok::<(), DownloadError>(())
                            &&& after.spec_bytes() == spec_write_at(
                                before.spec_bytes(),
                                index * before.spec_piece_length(),
                                buffer.spec_bytes(),
                            )
                            &&& after.spec_accepted() == before.spec_accepted().update(
                                index as int,
                                true,
                            )
                        }
                    },
                }
            }),
    {
        let buffer: PieceBuffer = match self.current.take() {
            Some(buffer) => buffer,
            None => {
                return Ok(());
            },
        };
        let index: u32 = buffer.index();
        let data: Vec<u8> = match buffer.finish() {
            Ok(data) => data,
            Err(error) => {
                self.failed = true;
                proof {
                    self.lemma_pending_still_fits(*old(self));
                }
                return Err(error);
            },
        };
        let result: Result<(), DownloadError> = self.assembler.place(index, data.as_slice());
        if result.is_err() {
            self.failed = true;
        }
        proof {
            self.lemma_pending_still_fits(*old(self));
            old(self).spec_assembler().lemma_accepted_pieces_verified();
            if !self.spec_failed() {
                assert forall|piece: int|
                    0 <= piece < self.spec_assembler().spec_accepted().len() implies {
                    ||| #[trigger] self.spec_assembler().spec_accepted()[piece]
                    ||| self.spec_waits(piece)
                    ||| (self.spec_current() matches Some(b) && b.spec_index() == piece)
                } by {
                    if !old(self).spec_assembler().spec_accepted()[piece] && piece != index {
                        assert(old(self).spec_waits(piece));
                        assert(self.spec_waits(piece));
                    }
                }
            }
        }
        result
    }

    /// Pieces that waited for a content wait for it still, as long as the
    /// content keeps its size and its pieces.
    proof fn lemma_pending_still_fits(&self, before: Self)
        requires
            before.wf(),
            self.spec_pending() == before.spec_pending(),
            self.spec_assembler().spec_hashes() == before.spec_assembler().spec_hashes(),
            self.spec_assembler().spec_piece_length()
                == before.spec_assembler().spec_piece_length(),
            self.spec_assembler().spec_bytes().len() == before.spec_assembler().spec_bytes().len(),
        ensures
            forall|i: int|
                0 <= i < self.spec_pending().len() ==> Self::spec_fits(
                    #[trigger] self.spec_pending()[i],
                    self.spec_assembler(),
                ),
    {
        assert forall|i: int| 0 <= i < self.spec_pending().len() implies Self::spec_fits(
            #[trigger] self.spec_pending()[i],
            self.spec_assembler(),
        ) by {
            assert(Self::spec_fits(before.spec_pending()[i], before.spec_assembler()));
        }
    }

    /// Whether every piece has been taken into the content.
    pub fn is_complete(&self) -> (complete: bool)
        requires
            self.wf(),
        ensures
            complete == self.spec_assembler().spec_complete(),
    {
        self.assembler.is_complete()
    }

    /// The content, once every piece has been taken in; none before. Each
    /// piece of the content given has the digest declared for it.
    pub fn finish(self) -> (downloaded: Option<Downloaded>)
        requires
            self.wf(),
        ensures
            downloaded.is_some() == self.spec_assembler().spec_complete(),
            downloaded matches Some(d) ==> {
                &&& d.wf()
                &&& d.spec_bytes() == self.spec_assembler().spec_bytes()
                &&& d.spec_files() == self.spec_assembler().spec_files()
                &&& forall|piece: int|
                    0 <= piece < self.spec_assembler().spec_hashes().len() ==> spec_sha1(
                        spec_piece_bytes(
                            d.spec_bytes(),
                            self.spec_assembler().spec_piece_length(),
                            piece as nat,
                        ),
                    ) == (#[trigger] self.spec_assembler().spec_hashes()[piece])@
            },
    {
        self.assembler.finish()
    }
}

} // verus!
