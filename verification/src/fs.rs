//! A value describing the filesystem contents the pipeline works against.
//!
//! The pipeline never touches the disk itself: the surrounding program
//! probes the directories below the configured roots and hands the result
//! in as a plain value.  A path is a list of name segments; the first
//! matching entry decides what a path is.  `Denied` stands for a path
//! that exists but cannot be read (permission or I/O trouble), which the
//! orchestrator must report differently from a missing path.

use vstd::prelude::*;

verus! {

/// What a filesystem path holds.
pub enum FsNode {
    /// A regular file with its contents and modification time.
    File { bytes: Vec<u8>, mtime: u64 },
    /// A directory.
    Dir,
    /// A path that exists but cannot be read.
    Denied,
}

/// Spec-level model of a node.
pub enum NodeModel {
    File { bytes: Seq<u8>, mtime: u64 },
    Dir,
    Denied,
}

impl View for FsNode {
    type V = NodeModel;

    open spec fn view(&self) -> NodeModel {
        match self {
            FsNode::File { bytes, mtime } => NodeModel::File { bytes: bytes@, mtime: *mtime },
            FsNode::Dir => NodeModel::Dir,
            FsNode::Denied => NodeModel::Denied,
        }
    }
}

/// One known path.
pub struct FsEntry {
    /// Path segments from the filesystem root, e.g. `["srv", "www", "a.txt"]`.
    pub path: Vec<Vec<u8>>,
    /// What the path holds.
    pub node: FsNode,
}

impl View for FsEntry {
    type V = (Seq<Seq<u8>>, NodeModel);

    open spec fn view(&self) -> (Seq<Seq<u8>>, NodeModel) {
        (self.path.deep_view(), self.node@)
    }
}

/// The filesystem contents the pipeline decides over.
pub struct Fs {
    pub entries: Vec<FsEntry>,
}

impl View for Fs {
    type V = Seq<(Seq<Seq<u8>>, NodeModel)>;

    open spec fn view(&self) -> Seq<(Seq<Seq<u8>>, NodeModel)> {
        Seq::new(self.entries@.len(), |i: int| self.entries@[i]@)
    }
}

/// The node at `path`: the first entry listed for it, if any.
pub open spec fn spec_lookup(fs: Seq<(Seq<Seq<u8>>, NodeModel)>, path: Seq<Seq<u8>>) -> Option<
    NodeModel,
>
    decreases fs.len(),
{
    if fs.len() == 0 {
        None
    } else if fs[0].0 == path {
        Some(fs[0].1)
    } else {
        spec_lookup(fs.drop_first(), path)
    }
}

/// `path` is a regular file in `fs`.
pub open spec fn spec_is_file(fs: Seq<(Seq<Seq<u8>>, NodeModel)>, path: Seq<Seq<u8>>) -> bool {
    spec_lookup(fs, path) matches Some(NodeModel::File { .. })
}

/// The bytes of the file at `path` (empty if `path` is no file).
pub open spec fn spec_file_bytes(fs: Seq<(Seq<Seq<u8>>, NodeModel)>, path: Seq<Seq<u8>>) -> Seq<
    u8,
> {
    match spec_lookup(fs, path) {
        Some(NodeModel::File { bytes, .. }) => bytes,
        _ => Seq::empty(),
    }
}

/// Compares two segment lists.
pub fn segs_eq(a: &Vec<Vec<u8>>, b: &Vec<Vec<u8>>) -> (r: bool)
    ensures
        r == (a.deep_view() == b.deep_view()),
{
    if a.len() != b.len() {
        assert(a.deep_view().len() != b.deep_view().len());
        return false;
    }
    let mut i: usize = 0;
    while i < a.len()
        invariant
            i <= a.len(),
            a.len() == b.len(),
            forall|j: int| 0 <= j < i ==> a.deep_view()[j] == b.deep_view()[j],
        decreases a.len() - i,
    {
        if !crate::bytes::bytes_eq(&a[i], &b[i]) {
            assert(a.deep_view()[i as int] =~= a@[i as int]@);
            assert(b.deep_view()[i as int] =~= b@[i as int]@);
            return false;
        }
        assert(a.deep_view()[i as int] =~= a@[i as int]@);
        assert(b.deep_view()[i as int] =~= b@[i as int]@);
        i += 1;
    }
    assert(a.deep_view() =~= b.deep_view());
    true
}

/// Copies a segment list.
pub fn copy_segs(v: &Vec<Vec<u8>>) -> (r: Vec<Vec<u8>>)
    ensures
        r.deep_view() == v.deep_view(),
{
    let mut r: Vec<Vec<u8>> = Vec::new();
    let mut i: usize = 0;
    while i < v.len()
        invariant
            i <= v.len(),
            r.deep_view() =~= v.deep_view().subrange(0, i as int),
        decreases v.len() - i,
    {
        let ghost pre = r.deep_view();
        r.push(crate::bytes::copy_bytes(&v[i]));
        assert(r.deep_view() =~~= pre + seq![v.deep_view()[i as int]]);
        assert(r.deep_view() =~= v.deep_view().subrange(0, i + 1));
        i += 1;
    }
    assert(r.deep_view() =~= v.deep_view());
    r
}

/// Copies a node.
pub fn copy_node(n: &FsNode) -> (r: FsNode)
    ensures
        r@ == n@,
{
    match n {
        FsNode::File { bytes, mtime } => FsNode::File {
            bytes: crate::bytes::copy_bytes(bytes),
            mtime: *mtime,
        },
        FsNode::Dir => FsNode::Dir,
        FsNode::Denied => FsNode::Denied,
    }
}

impl Fs {
    /// Finds the node recorded for `path`.
    pub fn lookup(&self, path: &Vec<Vec<u8>>) -> (r: Option<FsNode>)
        ensures
            match r {
                Some(n) => spec_lookup(self@, path.deep_view()) == Some(n@),
                None => spec_lookup(self@, path.deep_view()) is None,
            },
    {
        assert(self@.skip(0) =~~= self@);
        let mut i: usize = 0;
        while i < self.entries.len()
            invariant
                i <= self.entries.len(),
                self@.len() == self.entries@.len(),
                spec_lookup(self@, path.deep_view()) == spec_lookup(
                    self@.skip(i as int),
                    path.deep_view(),
                ),
            decreases self.entries.len() - i,
        {
            proof {
                assert(self@.skip(i as int)[0] == self@[i as int]);
                assert(self@.skip(i as int).drop_first() =~~= self@.skip(i + 1));
            }
            if segs_eq(&self.entries[i].path, path) {
                let n = copy_node(&self.entries[i].node);
                return Some(n);
            }
            i += 1;
        }
        None
    }
}

} // verus!
