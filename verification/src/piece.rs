//! The pieces still to be fetched, and the order in which they are served:
//! the piece fewest peers hold goes first.

use crate::download::DownloadError;
use crate::peer::bitfield::{spec_has_piece, BitField};
use crate::torrent::{spec_piece_size, Torrent};
use vstd::prelude::*;

verus! {

/// The peers, by their position in `bit_fields` and below `bound`, whose
/// bitmap marks piece `piece`, in ascending order.
pub open spec fn spec_holders_below(bit_fields: Seq<BitField>, piece: nat, bound: nat) -> Seq<usize>
    decreases bound,
{
    if bound == 0 {
        Seq::empty()
    } else if spec_has_piece(bit_fields[bound - 1]@, piece) {
        spec_holders_below(bit_fields, piece, (bound - 1) as nat).push((bound - 1) as usize)
    } else {
        spec_holders_below(bit_fields, piece, (bound - 1) as nat)
    }
}

/// The peers, by their position in `bit_fields`, that hold piece `piece`,
/// in ascending order.
pub open spec fn spec_holders(bit_fields: Seq<BitField>, piece: nat) -> Seq<usize> {
    spec_holders_below(bit_fields, piece, bit_fields.len())
}

/// `spec_holders_below` lists exactly the peers under the bound that hold
/// the piece, in strictly ascending order.
pub proof fn lemma_holders_below(bit_fields: Seq<BitField>, piece: nat, bound: nat)
    requires
        bound <= usize::MAX,
    ensures
        forall|k: int|
            0 <= k < spec_holders_below(bit_fields, piece, bound).len() ==> {
                &&& (#[trigger] spec_holders_below(bit_fields, piece, bound)[k]) < bound
                &&& spec_has_piece(
                    bit_fields[spec_holders_below(bit_fields, piece, bound)[k] as int]@,
                    piece,
                )
            },
        forall|j: int, k: int|
            0 <= j < k < spec_holders_below(bit_fields, piece, bound).len() ==> (
            #[trigger] spec_holders_below(bit_fields, piece, bound)[j]) < (
            #[trigger] spec_holders_below(bit_fields, piece, bound)[k]),
        forall|peer: nat|
            peer < bound && spec_has_piece(bit_fields[peer as int]@, piece)
                ==> #[trigger] spec_holders_below(bit_fields, piece, bound).contains(peer as usize),
        spec_holders_below(bit_fields, piece, bound).len() <= bound,
    decreases bound,
{
    if bound > 0 {
        let below = spec_holders_below(bit_fields, piece, (bound - 1) as nat);
        let all = spec_holders_below(bit_fields, piece, bound);
        lemma_holders_below(bit_fields, piece, (bound - 1) as nat);
        assert forall|peer: nat|
            peer < bound && spec_has_piece(bit_fields[peer as int]@, piece) implies all.contains(
            peer as usize,
        ) by {
            if peer == bound - 1 {
                assert(all[all.len() - 1] == peer as usize);
            } else {
                assert(below.contains(peer as usize));
                let k = choose|k: int| 0 <= k < below.len() && below[k] == peer as usize;
                assert(all[k] == peer as usize);
            }
        }
    }
}

/// A piece to fetch: its index, its length, the digest its bytes must have,
/// and the peers known to hold it.
#[derive(Debug, Clone)]
pub struct PieceTask {
    index: u32,
    length: u32,
    hash: [u8; 20],
    peers: Vec<usize>,
}

impl PieceTask {
    /// The index of the piece.
    pub closed spec fn spec_index(&self) -> u32 {
        self.index
    }

    /// The length of the piece in bytes.
    pub closed spec fn spec_length(&self) -> u32 {
        self.length
    }

    /// The digest the piece's bytes must have.
    pub closed spec fn spec_hash(&self) -> Seq<u8> {
        self.hash@
    }

    /// The candidate peers, by their position among the connected peers.
    pub closed spec fn spec_peers(&self) -> Seq<usize> {
        self.peers@
    }

    /// The task for piece `piece_i` of `t`, with the peers that hold it:
    /// those, by their position in `bit_fields`, whose bitmap marks it.
    pub fn new(piece_i: usize, t: &Torrent, bit_fields: &[BitField]) -> (task: Self)
        requires
            t.well_formed(),
            piece_i < t.info.pieces.0@.len(),
        ensures
            task.spec_index() == piece_i,
            task.spec_length() == spec_piece_size(
                t.spec_length(),
                t.info.piece_length as nat,
                piece_i as nat,
            ),
            task.spec_hash() == t.info.pieces.0@[piece_i as int]@,
            task.spec_peers() == spec_holders(bit_fields@, piece_i as nat),
    {
        let index: u32 = piece_i as u32;
        let length: u32 = t.piece_size(piece_i) as u32;
        let hash: [u8; 20] = t.info.pieces.0[piece_i];
        let mut peers: Vec<usize> = Vec::new();
        let mut peer_i: usize = 0;
        while peer_i < bit_fields.len()
            invariant
                peer_i <= bit_fields@.len(),
                index == piece_i,
                peers@ == spec_holders_below(bit_fields@, piece_i as nat, peer_i as nat),
            decreases bit_fields@.len() - peer_i,
        {
            if bit_fields[peer_i].has_piece(index) {
                peers.push(peer_i);
            }
            peer_i += 1;
        }
        Self { index, length, hash, peers }
    }

    /// The candidate peers, by their position among the connected peers.
    pub fn peers(&self) -> (peers: &Vec<usize>)
        ensures
            peers@ == self.spec_peers(),
    {
        &self.peers
    }

    /// The index of the piece.
    pub fn index(&self) -> (index: u32)
        ensures
            index == self.spec_index(),
    {
        self.index
    }

    /// The length of the piece in bytes.
    pub fn length(&self) -> (length: u32)
        ensures
            length == self.spec_length(),
    {
        self.length
    }

    /// The digest the piece's bytes must have.
    pub fn hash(&self) -> (hash: &[u8; 20])
        ensures
            hash@ == self.spec_hash(),
    {
        &self.hash
    }
}

/// Whether `task` is the task for piece `piece` of `t`, with the peers whose
/// bitmap, in `bit_fields`, marks the piece.
pub open spec fn spec_task_of(
    task: PieceTask,
    t: Torrent,
    bit_fields: Seq<BitField>,
    piece: nat,
) -> bool {
    &&& task.spec_index() == piece
    &&& task.spec_length() == spec_piece_size(t.spec_length(), t.info.piece_length as nat, piece)
    &&& task.spec_hash() == t.info.pieces.0@[piece as int]@
    &&& task.spec_peers() == spec_holders(bit_fields, piece)
}

/// Whether `a` is served no later than `b`: it has fewer candidate peers,
/// or as many and no greater an index.
pub open spec fn spec_precedes(a: PieceTask, b: PieceTask) -> bool {
    ||| a.spec_peers().len() < b.spec_peers().len()
    ||| (a.spec_peers().len() == b.spec_peers().len() && a.spec_index() <= b.spec_index())
}

/// Whether position `at` holds the task that `pending` serves next: no
/// task precedes it strictly, and of those that tie with it, it stands
/// first.
pub open spec fn spec_is_next(pending: Seq<PieceTask>, at: int) -> bool {
    &&& 0 <= at < pending.len()
    &&& forall|j: int| 0 <= j < pending.len() ==> spec_precedes(pending[at], #[trigger] pending[j])
    &&& forall|j: int| 0 <= j < at ==> !spec_precedes(#[trigger] pending[j], pending[at])
}

/// At most one position holds the task served next.
pub proof fn lemma_next_is_unique(pending: Seq<PieceTask>, a: int, b: int)
    requires
        spec_is_next(pending, a),
        spec_is_next(pending, b),
    ensures
        a == b,
{
    if a < b {
        assert(spec_precedes(pending[a], pending[b]));
    } else if b < a {
        assert(spec_precedes(pending[b], pending[a]));
    }
}

/// Tasks leave in order: the task served after another never precedes it
/// strictly. So pieces come out rarest first, and among equally rare ones by
/// ascending index.
pub proof fn lemma_served_in_order(pending: Seq<PieceTask>, first: int, second: int)
    requires
        spec_is_next(pending, first),
        spec_is_next(pending.remove(first), second),
    ensures
        spec_precedes(pending[first], pending.remove(first)[second]),
{
    let later = if second < first {
        second
    } else {
        second + 1
    };
    assert(pending.remove(first)[second] == pending[later]);
}

/// The pieces waiting to be fetched.
pub struct PieceScheduler {
    pending: Vec<PieceTask>,
}

impl View for PieceScheduler {
    type V = Seq<PieceTask>;

    closed spec fn view(&self) -> Seq<PieceTask> {
        self.pending@
    }
}

impl PieceScheduler {
    /// The pieces of `t`, each with the peers that hold it, ready to be
    /// served. A piece that no peer holds cannot be fetched: the first such
    /// piece, if there is one, is named and nothing is scheduled.
    pub fn plan(t: &Torrent, bit_fields: &[BitField]) -> (result: Result<Self, DownloadError>)
        requires
            t.well_formed(),
        ensures
            match result {
                Ok(scheduler) => {
                    &&& scheduler@.len() == t.info.pieces.0@.len()
                    &&& forall|piece: int|
                        0 <= piece < scheduler@.len() ==> {
                            &&& spec_task_of(
                                #[trigger] scheduler@[piece],
                                *t,
                                bit_fields@,
                                piece as nat,
                            )
                            &&& scheduler@[piece].spec_peers().len() > 0
                        }
                },
                Err(error) => exists|piece: u32|
                    {
                        &&& error == (DownloadError::NoPeers { piece })
                        &&& piece < t.info.pieces.0@.len()
                        &&& (#[trigger] spec_holders(bit_fields@, piece as nat)).len() == 0
                        &&& forall|earlier: nat|
                            earlier < piece ==> (#[trigger] spec_holders(
                                bit_fields@,
                                earlier,
                            )).len() > 0
                    },
            },
    {
        let count: usize = t.info.pieces.0.len();
        let mut pending: Vec<PieceTask> = Vec::new();
        let mut piece_i: usize = 0;
        while piece_i < count
            invariant
                piece_i <= count,
                count == t.info.pieces.0@.len(),
                t.well_formed(),
                pending@.len() == piece_i,
                forall|piece: int|
                    0 <= piece < piece_i ==> {
                        &&& spec_task_of(#[trigger] pending@[piece], *t, bit_fields@, piece as nat)
                        &&& pending@[piece].spec_peers().len() > 0
                    },
                forall|earlier: nat|
                    earlier < piece_i ==> (#[trigger] spec_holders(bit_fields@, earlier)).len() > 0,
            decreases count - piece_i,
        {
            let task: PieceTask = PieceTask::new(piece_i, t, bit_fields);
            if task.peers.len() == 0 {
                return Err(DownloadError::NoPeers { piece: task.index });
            }
            pending.push(task);
            piece_i += 1;
        }
        Ok(Self { pending })
    }

    /// A scheduler with nothing to serve.
    pub fn new() -> (scheduler: Self)
        ensures
            scheduler@ == Seq::<PieceTask>::empty(),
    {
        Self { pending: Vec::new() }
    }

    /// Number of pieces waiting.
    pub fn len(&self) -> (len: usize)
        ensures
            len == self@.len(),
    {
        self.pending.len()
    }

    /// Whether no piece is waiting.
    pub fn is_empty(&self) -> (empty: bool)
        ensures
            empty == (self@.len() == 0),
    {
        self.pending.len() == 0
    }

    /// Adds a piece to those waiting.
    pub fn push(&mut self, task: PieceTask)
        ensures
            final(self)@ == old(self)@.push(task),
    {
        self.pending.push(task);
    }

    /// Takes out the piece to fetch next: the one with the fewest candidate
    /// peers, and of several such the one with the lowest index. The others
    /// stay, in the order they were in.
    pub fn pop(&mut self) -> (next: Option<PieceTask>)
        ensures
            next.is_none() == (old(self)@.len() == 0),
            next.is_none() ==> final(self)@ == old(self)@,
            next matches Some(task) ==> exists|at: int|
                {
                    &&& #[trigger] spec_is_next(old(self)@, at)
                    &&& task == old(self)@[at]
                    &&& final(self)@ == old(self)@.remove(at)
                },
    {
        if self.pending.len() == 0 {
            return None;
        }
        let mut best: usize = 0;
        let mut i: usize = 1;
        while i < self.pending.len()
            invariant
                1 <= i <= self.pending@.len(),
                best < i,
                self.pending@ == old(self).pending@,
                forall|j: int|
                    0 <= j < i ==> spec_precedes(
                        self.pending@[best as int],
                        #[trigger] self.pending@[j],
                    ),
                forall|j: int|
                    0 <= j < best ==> !spec_precedes(
                        #[trigger] self.pending@[j],
                        self.pending@[best as int],
                    ),
            decreases self.pending@.len() - i,
        {
            let candidate: &PieceTask = &self.pending[i];
            let current: &PieceTask = &self.pending[best];
            let fewer: bool = candidate.peers.len() < current.peers.len();
            let tie: bool = candidate.peers.len() == current.peers.len();
            if fewer || (tie && candidate.index < current.index) {
                best = i;
            }
            i += 1;
        }
        assert(spec_is_next(old(self)@, best as int));
        let task: PieceTask = self.pending.remove(best);
        Some(task)
    }
}

} // verus!
