use vstd::prelude::*;

use crate::piece::{spec_total_pieces, lemma_ceil_div};

verus! {

/// A DHT bootstrap node: host and port, as the descriptor lists them.
pub struct Node(pub String, pub i64);

/// One file of a multi-file torrent: its path components and byte length.
pub struct File {
    pub path: Vec<String>,
    pub length: u64,
    pub md5sum: Option<String>,
}

/// The info dictionary: the torrent's name, the shared piece length, the
/// concatenated 20-byte piece digests, and either a single length or a file
/// list.
pub struct Info {
    pub name: String,
    pub pieces: Vec<u8>,
    pub piece_length: u64,
    pub md5sum: Option<String>,
    pub length: u64,
    pub files: Option<Vec<File>>,
    pub private: Option<u8>,
    pub root_hash: Option<String>,
}

/// The whole torrent descriptor, as handed over by the metadata collaborator.
pub struct Metainfo {
    pub info: Info,
    pub announce: Option<String>,
    pub nodes: Option<Vec<Node>>,
    pub encoding: Option<String>,
    pub httpseeds: Option<Vec<String>>,
    pub announce_list: Option<Vec<Vec<String>>>,
    pub creation_date: Option<i64>,
    pub comment: Option<String>,
    pub created_by: Option<String>,
}

/// One backing file for storage: path components, its byte offset within the
/// concatenated piece stream, and its length.
pub struct FileInfo {
    pub path: Vec<String>,
    pub offset: u64,
    pub length: u64,
}

/// The total byte length of the first `n` files.
pub open spec fn sum_len(files: Seq<File>, n: int) -> int
    decreases n,
{
    if n <= 0 {
        0
    } else {
        sum_len(files, n - 1) + files[n - 1].length
    }
}

/// Partial sums of file lengths are non-negative and monotone.
pub proof fn lemma_sum_len_mono(files: Seq<File>, i: int, j: int)
    requires
        0 <= i <= j,
    ensures
        0 <= sum_len(files, i) <= sum_len(files, j),
    decreases j,
{
    if j > 0 {
        if i == j {
            lemma_sum_len_mono(files, i - 1, j - 1);
        } else {
            lemma_sum_len_mono(files, i, j - 1);
        }
    }
}

/// The concatenated content length of the torrent: the sum of the file
/// lengths in a multi-file torrent, the single declared length otherwise.
pub open spec fn spec_total_len(m: Metainfo) -> int {
    match m.info.files {
        Some(files) => sum_len(files@, files@.len() as int),
        None => m.info.length as int,
    }
}

impl Metainfo {
    /// How many pieces the torrent has. The final piece is counted even when
    /// the content length is not an exact multiple of the piece length and it
    /// is therefore shorter.
    pub fn total_pieces(&self) -> (r: u64)
        requires
            self.info.piece_length >= 1,
            spec_total_len(*self) <= u64::MAX,
        ensures
            r as int == spec_total_pieces(spec_total_len(*self), self.info.piece_length as int),
    {
        let total: u64 = match &self.info.files {
            Some(files) => {
                let mut acc: u64 = 0;
                let mut i: usize = 0;
                let n: usize = files.len();
                while i < n
                    invariant
                        i <= n,
                        n == files@.len(),
                        acc as int == sum_len(files@, i as int),
                        sum_len(files@, n as int) <= u64::MAX,
                    decreases n - i,
                {
                    proof {
                        lemma_sum_len_mono(files@, i + 1, n as int);
                    }
                    acc = acc + files[i].length;
                    i = i + 1;
                }
                acc
            },
            None => self.info.length,
        };
        let plen: u64 = self.info.piece_length;
        let q: u64 = total / plen;
        let rem: u64 = total % plen;
        proof {
            lemma_ceil_div(total as int, plen as int);
            if rem != 0 {
                vstd::arithmetic::div_mod::lemma_fundamental_div_mod(total as int, plen as int);
                assert(2 * (q as int) <= (plen as int) * (q as int)) by (nonlinear_arith)
                    requires
                        plen >= 2,
                        q >= 0,
                ;
            }
        }
        if rem == 0 {
            q
        } else {
            q + 1
        }
    }

    /// The storage layout: one `FileInfo` per file, each offset the sum of
    /// the lengths before it; a single-file torrent maps its name to one file
    /// at offset zero.
    pub fn get_files(&self) -> (r: Vec<FileInfo>)
        requires
            spec_total_len(*self) <= u64::MAX,
        ensures
            match self.info.files {
                Some(files) => r@.len() == files@.len() && forall|i: int|
                    0 <= i < files@.len() ==> {
                        &&& (#[trigger] r@[i]).offset as int == sum_len(files@, i)
                        &&& r@[i].length == files@[i].length
                        &&& r@[i].path@ == files@[i].path@
                    },
                None => r@.len() == 1 && r@[0].offset == 0 && r@[0].length == self.info.length
                    && r@[0].path@.len() == 1 && r@[0].path@[0] == self.info.name,
            },
    {
        match &self.info.files {
            Some(files) => {
                let mut out: Vec<FileInfo> = Vec::new();
                let mut offset: u64 = 0;
                let mut i: usize = 0;
                let n: usize = files.len();
                while i < n
                    invariant
                        i <= n,
                        n == files@.len(),
                        offset as int == sum_len(files@, i as int),
                        sum_len(files@, n as int) <= u64::MAX,
                        out@.len() == i,
                        forall|j: int|
                            0 <= j < i ==> {
                                &&& (#[trigger] out@[j]).offset as int == sum_len(files@, j)
                                &&& out@[j].length == files@[j].length
                                &&& out@[j].path@ == files@[j].path@
                            },
                    decreases n - i,
                {
                    proof {
                        lemma_sum_len_mono(files@, i + 1, n as int);
                    }
                    let path = clone_strings(&files[i].path);
                    out.push(FileInfo { path, offset, length: files[i].length });
                    offset = offset + files[i].length;
                    i = i + 1;
                }
                out
            },
            None => {
                let mut path: Vec<String> = Vec::new();
                path.push(clone_string(&self.info.name));
                let mut out: Vec<FileInfo> = Vec::new();
                out.push(FileInfo { path, offset: 0, length: self.info.length });
                out
            },
        }
    }
}

/// A deep copy of a string.
fn clone_string(s: &String) -> (r: String)
    ensures
        r == *s,
{
    s.clone()
}

/// A deep copy of a path's components.
fn clone_strings(v: &Vec<String>) -> (r: Vec<String>)
    ensures
        r@ == v@,
{
    let mut r: Vec<String> = Vec::new();
    let mut i: usize = 0;
    while i < v.len()
        invariant
            i <= v@.len(),
            r@ == v@.subrange(0, i as int),
        decreases v@.len() - i,
    {
        r.push(v[i].clone());
        i = i + 1;
        proof {
            assert(r@ =~= v@.subrange(0, i as int));
        }
    }
    proof {
        assert(r@ =~= v@);
    }
    r
}

} // verus!
