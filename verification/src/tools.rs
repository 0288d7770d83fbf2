//! The external programs the installer runs, and where they are looked
//! for.

use vstd::prelude::*;
use crate::text::{chars_of, join_path, join_path_exec, split, split_ranges, string_of_range, Sep};

verus! {

/// The paths of the programs the installer runs, and the UEFI:NTFS
/// bridge image the build bundled (empty when it bundled none).
#[derive(Debug, Clone)]
pub struct Tools {
    pub wimlib: String,
    pub sfdisk: String,
    pub mkntfs: String,
    pub partprobe: String,
    pub efibootmgr: String,
    pub lsblk: String,
    pub fuser: String,
    pub bridge_image: Vec<u8>,
}

impl Tools {
    /// The bytes of the bundled `uefi-ntfs.img`, empty when the build
    /// bundled none.
    pub fn uefi_ntfs_img(&self) -> (img: &[u8])
        ensures
            img@ == self.bridge_image@,
    {
        self.bridge_image.as_slice()
    }
}

/// Where a program called `name` is looked for, in order: `name` under each
/// `':'`-separated entry of the `PATH` value `path_var`.
pub open spec fn spec_path_candidates(path_var: Seq<char>, name: Seq<char>) -> Seq<Seq<char>> {
    split(path_var, Sep::Char(':')).map_values(|dir: Seq<char>| join_path(dir, name))
}

/// Where a program called `name` is looked for (see
/// [`spec_path_candidates`]); the first that exists is used.
pub fn path_candidates(path_var: &str, name: &str) -> (r: Vec<String>)
    ensures
        r@.map_values(|p: String| p@) == spec_path_candidates(path_var@, name@),
{
    let cs = chars_of(path_var);
    let n = cs.len();
    let ranges = split_ranges(cs.as_slice(), 0, n, Sep::Char(':'));
    let ghost pieces = split(cs@.subrange(0, n as int), Sep::Char(':'));
    assert(cs@.subrange(0, n as int) =~= path_var@);
    let mut r: Vec<String> = Vec::new();
    let mut j: usize = 0;
    while j < ranges.len()
        invariant
            pieces == split(path_var@, Sep::Char(':')),
            ranges@.len() == pieces.len(),
            forall|k: int|
                0 <= k < ranges@.len() ==> 0 <= (#[trigger] ranges@[k]).0 <= ranges@[k].1 <= n
                    && cs@.subrange(ranges@[k].0 as int, ranges@[k].1 as int) == pieces[k],
            n == cs@.len(),
            j <= ranges@.len(),
            r@.len() == j,
            forall|k: int| 0 <= k < j ==> (#[trigger] r@[k])@ == join_path(pieces[k], name@),
        decreases ranges@.len() - j,
    {
        let (a, b) = ranges[j];
        let dir = string_of_range(cs.as_slice(), a, b);
        r.push(join_path_exec(dir.as_str(), name));
        j = j + 1;
    }
    assert(r@.map_values(|p: String| p@) =~= spec_path_candidates(path_var@, name@));
    r
}

} // verus!
