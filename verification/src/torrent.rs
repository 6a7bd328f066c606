//! What a torrent's metadata says of its content: the piece hashes, the
//! piece length, and the files with their lengths.

use vstd::arithmetic::div_mod::{lemma_fundamental_div_mod, lemma_mod_bound};
use vstd::arithmetic::mul::{
    lemma_mul_inequality, lemma_mul_is_commutative, lemma_mul_is_distributive_add,
};
use crate::hash::{digest, spec_sha1};
use crate::wire::read_array;
use vstd::prelude::*;

verus! {

/// One file of the content: its length and the components of its path.
#[derive(Debug, Clone)]
pub struct File {
    pub length: usize,
    pub path: Vec<String>,
}

/// The two shapes of a torrent: a single file, whose name is the torrent's
/// name, or a list of files.
#[derive(Debug, Clone)]
pub enum Keys {
    SingleFile { length: usize },
    MultiFile { files: Vec<File> },
}

/// The SHA-1 digests of the pieces, in piece order.
#[derive(Debug, Clone)]
pub struct Hashes(pub Vec<[u8; 20]>);

/// The info dictionary of a torrent.
#[derive(Debug, Clone)]
pub struct Info {
    pub name: String,
    pub piece_length: usize,
    pub pieces: Hashes,
    pub keys: Keys,
}

/// A torrent: where its tracker is, and what it holds.
#[derive(Debug, Clone)]
pub struct Torrent {
    pub announce: String,
    pub info: Info,
}

/// The lengths of `files` added up.
pub open spec fn spec_files_length(files: Seq<File>) -> nat
    decreases files.len(),
{
    if files.len() == 0 {
        0
    } else {
        spec_files_length(files.drop_last()) + files.last().length as nat
    }
}

/// Number of pieces of a content of `total` bytes cut into pieces of
/// `piece_length` bytes: the quotient, rounded up.
pub open spec fn spec_piece_count(total: nat, piece_length: nat) -> nat {
    if piece_length == 0 {
        0
    } else if total % piece_length == 0 {
        total / piece_length
    } else {
        total / piece_length + 1
    }
}

/// Length of piece `piece`: a whole piece length as long as that much of
/// the content is left, else what is left.
pub open spec fn spec_piece_size(total: nat, piece_length: nat, piece: nat) -> nat {
    if total >= piece * piece_length + piece_length {
        piece_length
    } else {
        (total - piece * piece_length) as nat
    }
}

/// The digests laid end to end.
pub open spec fn spec_hashes_bytes(hashes: Seq<[u8; 20]>) -> Seq<u8> {
    Seq::new(20 * hashes.len(), |j: int| hashes[j / 20]@[j % 20])
}

/// Digests laid end to end are cut back into the same digests: they take up
/// twenty bytes each, and the twenty bytes of each are its own.
pub proof fn lemma_hashes_cut_back(hashes: Seq<[u8; 20]>, i: int)
    requires
        0 <= i < hashes.len(),
    ensures
        spec_hashes_bytes(hashes).len() == 20 * hashes.len(),
        spec_hashes_bytes(hashes).subrange(20 * i, 20 * i + 20) == hashes[i]@,
{
    assert(spec_hashes_bytes(hashes).subrange(20 * i, 20 * i + 20) =~= hashes[i]@);
}

/// The pieces cover the content: each piece before the last is a whole piece
/// length, the last is what is left and is not empty, and no piece reaches
/// beyond the end.
pub proof fn lemma_pieces_cover_content(total: nat, piece_length: nat, piece: nat)
    requires
        piece_length > 0,
        piece < spec_piece_count(total, piece_length),
    ensures
        0 < spec_piece_size(total, piece_length, piece) <= piece_length,
        piece * piece_length + spec_piece_size(total, piece_length, piece) <= total,
        piece + 1 < spec_piece_count(total, piece_length) ==> spec_piece_size(
            total,
            piece_length,
            piece,
        ) == piece_length,
        piece + 1 == spec_piece_count(total, piece_length) ==> {
            &&& piece * piece_length + spec_piece_size(total, piece_length, piece) == total
            &&& spec_piece_size(total, piece_length, piece) == if total % piece_length == 0 {
                piece_length
            } else {
                total % piece_length
            }
        },
{
    let q = total / piece_length;
    let r = total % piece_length;
    lemma_fundamental_div_mod(total as int, piece_length as int);
    lemma_mod_bound(total as int, piece_length as int);
    lemma_mul_is_commutative(piece_length as int, q as int);
    assert(total == q * piece_length + r);
    if piece < q {
        lemma_mul_inequality(piece as int + 1, q as int, piece_length as int);
        lemma_mul_is_distributive_add(piece_length as int, piece as int, 1);
        lemma_mul_is_commutative(piece_length as int, piece as int + 1);
        lemma_mul_is_commutative(piece_length as int, piece as int);
        assert((piece + 1) * piece_length == piece * piece_length + piece_length);
        assert(piece * piece_length + piece_length <= q * piece_length);
        if piece + 1 == spec_piece_count(total, piece_length) {
            assert(r == 0);
            assert(piece + 1 == q);
        }
    } else {
        assert(piece == q);
        assert(r != 0);
    }
}

impl Hashes {
    /// Cuts a byte string into twenty-byte digests. The string is well
    /// formed exactly when its length is a multiple of twenty.
    pub fn from_bytes(v: &[u8]) -> (parsed: Option<Self>)
        ensures
            parsed.is_some() == (v@.len() % 20 == 0),
            parsed matches Some(hashes) ==> {
                &&& hashes.0@.len() * 20 == v@.len()
                &&& forall|i: int|
                    0 <= i < hashes.0@.len() ==> (#[trigger] hashes.0@[i])@ == v@.subrange(
                        20 * i,
                        20 * i + 20,
                    )
            },
    {
        if v.len() % 20 != 0 {
            return None;
        }
        let size: usize = v.len();
        let count: usize = size / 20;
        let mut hashes: Vec<[u8; 20]> = Vec::new();
        let mut i: usize = 0;
        while i < count
            invariant
                i <= count,
                count * 20 == size,
                size == v@.len(),
                hashes@.len() == i,
                forall|h: int|
                    0 <= h < i ==> (#[trigger] hashes@[h])@ == v@.subrange(20 * h, 20 * h + 20),
            decreases count - i,
        {
            hashes.push(read_array::<20>(v, 20 * i));
            i += 1;
        }
        Some(Hashes(hashes))
    }

    /// The digests laid end to end.
    pub fn to_bytes(&self) -> (bytes: Vec<u8>)
        ensures
            bytes@ == spec_hashes_bytes(self.0@),
    {
        let mut bytes: Vec<u8> = Vec::new();
        let mut i: usize = 0;
        while i < self.0.len()
            invariant
                i <= self.0@.len(),
                bytes@.len() == 20 * i,
                forall|j: int| 0 <= j < 20 * i ==> bytes@[j] == self.0@[j / 20]@[j % 20],
            decreases self.0@.len() - i,
        {
            let hash: &[u8; 20] = &self.0[i];
            let mut k: usize = 0;
            while k < 20
                invariant
                    k <= 20,
                    i < self.0@.len(),
                    *hash == self.0@[i as int],
                    bytes@.len() == 20 * i + k,
                    forall|j: int| 0 <= j < 20 * i + k ==> bytes@[j] == self.0@[j / 20]@[j % 20],
                decreases 20 - k,
            {
                bytes.push(hash[k]);
                k += 1;
            }
            i += 1;
        }
        proof {
            assert(bytes@ =~= spec_hashes_bytes(self.0@));
        }
        bytes
    }
}

impl Keys {
    /// The length of the whole content.
    pub open spec fn spec_length(&self) -> nat {
        match self {
            Keys::SingleFile { length } => *length as nat,
            Keys::MultiFile { files } => spec_files_length(files@),
        }
    }

    /// The files of the content, in order: the declared list, or for a
    /// single file one file of that length whose path is `name`.
    pub fn into_files(self, name: String) -> (files: Vec<File>)
        ensures
            spec_files_length(files@) == self.spec_length(),
            match self {
                Keys::SingleFile { length } => {
                    &&& files@.len() == 1
                    &&& files@[0].length == length
                    &&& files@[0].path@ == seq![name]
                },
                Keys::MultiFile { files: declared } => files == declared,
            },
    {
        match self {
            Keys::SingleFile { length } => {
                let mut path: Vec<String> = Vec::new();
                path.push(name);
                let mut files: Vec<File> = Vec::new();
                files.push(File { length, path });
                proof {
                    assert(files@.drop_last() =~= Seq::<File>::empty());
                    assert(spec_files_length(files@) == spec_files_length(files@.drop_last())
                        + files@.last().length as nat);
                }
                files
            },
            Keys::MultiFile { files } => files,
        }
    }
}

impl Torrent {
    /// The length of the whole content.
    pub open spec fn spec_length(&self) -> nat {
        self.info.keys.spec_length()
    }

    /// Whether the metadata describes a content that can be fetched: the
    /// piece length is positive and fits the wire's 32-bit offsets, the
    /// total length fits the machine, and there is one digest for each piece
    /// of the content, with indices that fit the wire's 32 bits.
    pub open spec fn well_formed(&self) -> bool {
        &&& 0 < self.info.piece_length <= u32::MAX
        &&& self.spec_length() <= usize::MAX
        &&& self.info.pieces.0@.len() <= u32::MAX
        &&& self.info.pieces.0@.len() == spec_piece_count(
            self.spec_length(),
            self.info.piece_length as nat,
        )
    }

    /// The length of the whole content, when it fits the machine's integers.
    pub fn checked_length(&self) -> (length: Option<usize>)
        ensures
            length.is_some() == (self.spec_length() <= usize::MAX),
            length matches Some(n) ==> n == self.spec_length(),
    {
        match &self.info.keys {
            Keys::SingleFile { length } => Some(*length),
            Keys::MultiFile { files } => {
                let mut total: usize = 0;
                let mut i: usize = 0;
                while i < files.len()
                    invariant
                        i <= files@.len(),
                        self.spec_length() == spec_files_length(files@),
                        total == spec_files_length(files@.take(i as int)),
                    decreases files@.len() - i,
                {
                    proof {
                        assert(files@.take(i + 1).drop_last() =~= files@.take(i as int));
                        assert(spec_files_length(files@.take(i + 1)) == total
                            + files@[i as int].length);
                    }
                    total = match total.checked_add(files[i].length) {
                        Some(sum) => sum,
                        None => {
                            proof {
                                lemma_files_length_grows(files@, i + 1);
                            }
                            return None;
                        },
                    };
                    i += 1;
                }
                proof {
                    assert(files@.take(i as int) =~= files@);
                }
                Some(total)
            },
        }
    }

    /// The length of the whole content.
    pub fn length(&self) -> (length: usize)
        requires
            self.spec_length() <= usize::MAX,
        ensures
            length == self.spec_length(),
    {
        match self.checked_length() {
            Some(length) => length,
            None => 0,
        }
    }

    /// Checks the metadata: see `well_formed`.
    pub fn is_well_formed(&self) -> (ok: bool)
        ensures
            ok == self.well_formed(),
    {
        let piece_length: usize = self.info.piece_length;
        if piece_length == 0 || piece_length > u32::MAX as usize {
            return false;
        }
        if self.info.pieces.0.len() > u32::MAX as usize {
            return false;
        }
        match self.checked_length() {
            None => false,
            Some(total) => {
                let whole: usize = total / piece_length;
                if total % piece_length == 0 {
                    self.info.pieces.0.len() == whole
                } else {
                    whole < usize::MAX && self.info.pieces.0.len() == whole + 1
                }
            },
        }
    }

    /// The length of piece `piece_i`: the piece length, but for the last
    /// piece, which holds what is left of the content.
    pub fn piece_size(&self, piece_i: usize) -> (size: usize)
        requires
            self.well_formed(),
            piece_i < self.info.pieces.0@.len(),
        ensures
            size == spec_piece_size(
                self.spec_length(),
                self.info.piece_length as nat,
                piece_i as nat,
            ),
            0 < size <= self.info.piece_length,
            piece_i * self.info.piece_length + size <= self.spec_length(),
    {
        proof {
            lemma_pieces_cover_content(
                self.spec_length(),
                self.info.piece_length as nat,
                piece_i as nat,
            );
        }
        if piece_i == self.info.pieces.0.len() - 1 {
            let md: usize = self.length() % self.info.piece_length;
            if md == 0 {
                self.info.piece_length
            } else {
                md
            }
        } else {
            self.info.piece_length
        }
    }

    /// The hash that names the torrent: the SHA-1 digest of its info
    /// dictionary as the torrent file spells it, `encoded_info`.
    pub fn info_hash(encoded_info: &[u8]) -> (hash: [u8; 20])
        ensures
            hash@ == spec_sha1(encoded_info@),
    {
        digest(encoded_info)
    }

    /// The paths of the files, each as the list of its components: for a
    /// single-file torrent the torrent's name alone, else the declared path
    /// of each file in order.
    pub fn tree(&self) -> (paths: Vec<Vec<String>>)
        ensures
            match self.info.keys {
                Keys::SingleFile { length } => {
                    &&& paths@.len() == 1
                    &&& paths@[0]@ == seq![self.info.name]
                },
                Keys::MultiFile { files } => {
                    &&& paths@.len() == files@.len()
                    &&& forall|i: int|
                        0 <= i < files@.len() ==> (#[trigger] paths@[i])@ == files@[i].path@
                },
            },
    {
        let mut paths: Vec<Vec<String>> = Vec::new();
        match &self.info.keys {
            Keys::SingleFile { length: _ } => {
                let mut path: Vec<String> = Vec::new();
                path.push(self.info.name.clone());
                paths.push(path);
            },
            Keys::MultiFile { files } => {
                let mut i: usize = 0;
                while i < files.len()
                    invariant
                        i <= files@.len(),
                        paths@.len() == i,
                        forall|f: int| 0 <= f < i ==> (#[trigger] paths@[f])@ == files@[f].path@,
                    decreases files@.len() - i,
                {
                    let declared: &Vec<String> = &files[i].path;
                    let mut path: Vec<String> = Vec::new();
                    let mut k: usize = 0;
                    while k < declared.len()
                        invariant
                            k <= declared@.len(),
                            path@ == declared@.take(k as int),
                        decreases declared@.len() - k,
                    {
                        path.push(declared[k].clone());
                        k += 1;
                        proof {
                            assert(path@ =~= declared@.take(k as int));
                        }
                    }
                    proof {
                        assert(declared@.take(k as int) =~= declared@);
                    }
                    paths.push(path);
                    i += 1;
                }
            },
        }
        paths
    }

    /// The files of the content, in order: the declared list, or for a
    /// single-file torrent one file named as the torrent is.
    pub fn into_files(self) -> (files: Vec<File>)
        ensures
            spec_files_length(files@) == self.spec_length(),
            match self.info.keys {
                Keys::SingleFile { length } => {
                    &&& files@.len() == 1
                    &&& files@[0].length == length
                    &&& files@[0].path@ == seq![self.info.name]
                },
                Keys::MultiFile { files: declared } => files == declared,
            },
    {
        self.info.keys.into_files(self.info.name)
    }
}

/// The sum of the lengths of the first `n` files is no more than the sum of
/// them all.
pub proof fn lemma_files_length_grows(files: Seq<File>, n: int)
    requires
        0 <= n <= files.len(),
    ensures
        spec_files_length(files.take(n)) <= spec_files_length(files),
    decreases files.len() - n,
{
    if n == files.len() {
        assert(files.take(n) =~= files);
    } else {
        lemma_files_length_grows(files, n + 1);
        assert(files.take(n + 1).drop_last() =~= files.take(n));
    }
}

} // verus!
