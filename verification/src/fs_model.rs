//! A mathematical model of the filesystem, for stating what the write
//! and create protocols do to it.
//!
//! A filesystem is a map from paths to entries; each operation of this
//! library corresponds to a transformation of that map, and the
//! protocol laws are proved over these transformations.

use vstd::prelude::*;

verus! {

/// One filesystem entry: a regular file with its bytes, or a directory.
pub enum FsNode {
    File(Seq<u8>),
    Dir,
}

/// A filesystem state: the entries it holds, by path.
pub type FsMap = Map<Seq<char>, FsNode>;

/// The filesystem after a path is created as an empty file (or
/// truncated to one).
pub open spec fn fs_create(fs: FsMap, p: Seq<char>) -> FsMap {
    fs.insert(p, FsNode::File(Seq::empty()))
}

/// The filesystem after the file at a path is replaced with the given
/// bytes.
pub open spec fn fs_write(fs: FsMap, p: Seq<char>, data: Seq<u8>) -> FsMap {
    fs.insert(p, FsNode::File(data))
}

/// The filesystem after one path is renamed onto another, replacing
/// whatever the destination held.
pub open spec fn fs_rename(fs: FsMap, from: Seq<char>, to: Seq<char>) -> FsMap {
    fs.remove(from).insert(to, fs[from])
}

/// The filesystem after a path is removed.
pub open spec fn fs_remove(fs: FsMap, p: Seq<char>) -> FsMap {
    fs.remove(p)
}

/// True when two filesystem states agree about one path: present in
/// both or in neither, and with the same entry when present.
pub open spec fn same_at(fs1: FsMap, fs2: FsMap, p: Seq<char>) -> bool {
    &&& fs1.dom().contains(p) == fs2.dom().contains(p)
    &&& fs1.dom().contains(p) ==> fs1[p] == fs2[p]
}

} // verus!
