//! The entry creator: new empty files, and directory paths with all
//! their missing ancestors.
//!
//! The application checks for an existing entry and performs the
//! creation calls; the decision and the effect on the filesystem model
//! are stated and proved here.

use vstd::prelude::*;

use crate::errors::FsError;
use crate::fs_model::{fs_create, same_at, FsMap, FsNode};

verus! {

/// The file-creation decision: a file may be created only where no
/// entry exists, and an occupied path is reported as `AlreadyExists`
/// without touching the filesystem.
pub fn create_file_check(exists: bool) -> (r: Result<(), FsError>)
    ensures
        r is Ok <==> !exists,
        r is Err ==> r->Err_0 is AlreadyExists,
{
    if exists {
        Err(FsError::AlreadyExists)
    } else {
        Ok(())
    }
}

/// Every ancestor directory path of `p`, and `p` itself: the prefixes
/// of `p` that end just before a separator, plus the whole of `p`.
pub open spec fn dir_prefixes(p: Seq<char>) -> Set<Seq<char>> {
    Set::new(
        |q: Seq<char>|
            exists|i: int|
                0 < i <= p.len() && q == #[trigger] p.subrange(0, i) && (i == p.len() || p[i]
                    == '/'),
    )
}

/// True when recursive directory creation at `p` must succeed: no
/// ancestor of `p`, nor `p` itself, is occupied by a non-directory.
pub open spec fn can_create_dir_all(fs: FsMap, p: Seq<char>) -> bool {
    forall|q: Seq<char>|
        dir_prefixes(p).contains(q) ==> (fs.dom().contains(q) ==> fs[q] is Dir)
}

/// The filesystem after recursive directory creation at `p`: every
/// ancestor of `p` and `p` itself is a directory; everything else is
/// untouched.
pub open spec fn fs_create_dir_all(fs: FsMap, p: Seq<char>) -> FsMap {
    Map::new(
        |q: Seq<char>| fs.dom().contains(q) || dir_prefixes(p).contains(q),
        |q: Seq<char>|
            if dir_prefixes(p).contains(q) {
                FsNode::Dir
            } else {
                fs[q]
            },
    )
}

/// Law: creating a file at a free path puts an empty file there and
/// touches nothing else; a second creation attempt then finds the path
/// occupied, so the decision reports `AlreadyExists` and no filesystem
/// call is made — the file's content is unaffected.
pub proof fn lemma_create_file_twice(fs: FsMap, p: Seq<char>)
    requires
        !fs.dom().contains(p),
    ensures
        ({
            let fs1 = fs_create(fs, p);
            &&& fs1.dom().contains(p)
            &&& fs1[p] == FsNode::File(Seq::<u8>::empty())
            &&& forall|q: Seq<char>| q != p ==> same_at(fs, fs1, q)
        }),
{
}

/// Law: where no ancestor is occupied by a non-directory, recursive
/// directory creation makes a directory of every ancestor of the path
/// and of the path itself, touches no other path, and doing it again
/// succeeds and changes nothing.
pub proof fn lemma_create_dir_all(fs: FsMap, p: Seq<char>)
    requires
        can_create_dir_all(fs, p),
    ensures
        ({
            let fs1 = fs_create_dir_all(fs, p);
            &&& p.len() > 0 ==> fs1.dom().contains(p) && fs1[p] is Dir
            &&& forall|q: Seq<char>|
                dir_prefixes(p).contains(q) ==> fs1.dom().contains(q) && fs1[q] is Dir
            &&& forall|q: Seq<char>| !dir_prefixes(p).contains(q) ==> same_at(fs, fs1, q)
            &&& can_create_dir_all(fs1, p)
            &&& fs_create_dir_all(fs1, p) == fs1
        }),
{
    let fs1 = fs_create_dir_all(fs, p);
    if p.len() > 0 {
        let q = p.subrange(0, p.len() as int);
        assert(exists|i: int|
            0 < i <= p.len() && q == #[trigger] p.subrange(0, i) && (i == p.len() || p[i]
                == '/')) by {
            assert(0 < p.len() as int <= p.len() && q == p.subrange(0, p.len() as int));
        }
        assert(dir_prefixes(p).contains(q));
        assert(q =~= p);
    }
    assert(fs_create_dir_all(fs1, p) =~= fs1);
}

} // verus!
