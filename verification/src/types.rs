//! Torrents and their files.

use vstd::prelude::*;

verus! {

/// The number by which Transmission knows a torrent.
#[derive(Debug, Clone, Copy, PartialEq, Eq, Structural)]
pub struct TorrentId(pub i64);

/// A file of a torrent: its path within the torrent, and its size in bytes.
#[derive(Debug)]
pub struct TorrentFile {
    pub name: String,
    pub length: u64,
}

impl Clone for TorrentFile {
    fn clone(&self) -> (r: Self)
        ensures
            r == *self,
    {
        TorrentFile { name: self.name.clone(), length: self.length }
    }
}

/// A torrent that has been downloaded.
#[derive(Debug)]
pub struct TorrentInfo {
    pub id: TorrentId,
    /// The name under which Transmission shows the torrent.
    pub name: String,
    pub download_dir: String,
    pub files: Vec<TorrentFile>,
}

/// A copy of a list of files.
pub fn copy_files(files: &[TorrentFile]) -> (r: Vec<TorrentFile>)
    ensures
        r@ == files@,
{
    let mut r: Vec<TorrentFile> = Vec::new();
    let mut i: usize = 0;
    while i < files.len()
        invariant
            i <= files.len(),
            r@ == files@.take(i as int),
        decreases files.len() - i,
    {
        r.push(files[i].clone());
        i += 1;
        assert(r@ == files@.take(i as int));
    }
    r
}

} // verus!
