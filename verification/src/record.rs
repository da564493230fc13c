//! The cached payload type: one versioned file-history record.

use vstd::prelude::*;

verus! {

/// One file-history record: the owning path, the record's own revision
/// identifier, up to two parent revision identifiers, an optional copy/rename
/// origin, and the revision that introduced the record.  Paths are raw byte
/// sequences (the empty sequence stands for the repository root).
#[derive(Clone, Debug, PartialEq, Eq)]
pub struct FilenodeInfo {
    pub path: Vec<u8>,
    pub filenode: u64,
    pub p1: Option<u64>,
    pub p2: Option<u64>,
    pub copyfrom: Option<(Vec<u8>, u64)>,
    pub linknode: u64,
}

/// Mathematical model of a record.
pub struct FilenodeInfoView {
    pub path: Seq<u8>,
    pub filenode: u64,
    pub p1: Option<u64>,
    pub p2: Option<u64>,
    pub copyfrom: Option<(Seq<u8>, u64)>,
    pub linknode: u64,
}

impl View for FilenodeInfo {
    type V = FilenodeInfoView;

    open spec fn view(&self) -> FilenodeInfoView {
        FilenodeInfoView {
            path: self.path@,
            filenode: self.filenode,
            p1: self.p1,
            p2: self.p2,
            copyfrom: match self.copyfrom {
                None => None,
                Some((p, id)) => Some((p@, id)),
            },
            linknode: self.linknode,
        }
    }
}

impl FilenodeInfoView {
    /// Both byte paths of the record are short enough that their lengths fit
    /// in a 64-bit length prefix on the wire.  Every record held in a `Vec`
    /// satisfies this.
    pub open spec fn wf(self) -> bool {
        &&& self.path.len() <= u64::MAX
        &&& match self.copyfrom {
                None => true,
                Some((p, _)) => p.len() <= u64::MAX,
            }
    }
}

/// The model of an ordered record list.
pub open spec fn views_of(v: Seq<FilenodeInfo>) -> Seq<FilenodeInfoView> {
    v.map_values(|r: FilenodeInfo| r@)
}

/// Every record of `s` is well formed.
pub open spec fn all_wf(s: Seq<FilenodeInfoView>) -> bool {
    forall|i: int| 0 <= i < s.len() ==> #[trigger] s[i].wf()
}

} // verus!
