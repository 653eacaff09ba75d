//! The decisions of the archive builder's walk over a candidate tree.
//!
//! The caller walks the tree without following symbolic links and reports
//! each entry here; the walk says whether to write it, whether to descend
//! into it, or whether to leave it out, and keeps the node count and the
//! paths of the device files that were left out.
use vstd::prelude::*;

verus! {

/// The kind of a filesystem entry.
#[derive(Clone, Copy, Debug, PartialEq, Eq, Structural)]
pub enum EntryKind {
    Regular,
    Directory,
    Symlink,
    CharDevice,
    BlockDevice,
    Fifo,
    Socket,
}

/// What the caller does with an entry.
#[derive(Clone, Copy, Debug, PartialEq, Eq, Structural)]
pub enum EntryAction {
    /// Write the entry; a symbolic link is written as a link, never followed.
    Append,
    /// Write the directory and walk its contents.
    AppendAndDescend,
    /// Leave the special file out of the archive.
    OmitDevice,
    /// The directory was already walked: a cycle, which ends here.
    SkipCycle,
}

pub open spec fn is_special(k: EntryKind) -> bool {
    k == EntryKind::CharDevice || k == EntryKind::BlockDevice || k == EntryKind::Fifo || k
        == EntryKind::Socket
}

/// The state of one archive walk.
pub struct ArchiveWalk {
    /// Entries written so far.
    pub nodes: usize,
    /// Paths, relative to the tree root, of the special files left out.
    pub removed_devices: Vec<String>,
    /// Identities (device, inode) of the directories walked so far.
    pub visited: Vec<(u64, u64)>,
}

impl ArchiveWalk {
    pub open spec fn wf(&self) -> bool {
        forall|i: int, j: int|
            0 <= i < j < self.visited@.len() ==> #[trigger] self.visited@[i] != #[trigger] self.visited@[j]
    }

    /// A walk that has seen nothing yet.
    pub fn new() -> (r: ArchiveWalk)
        ensures
            r.wf(),
            r.nodes == 0,
            r.removed_devices@.len() == 0,
            r.visited@.len() == 0,
    {
        ArchiveWalk { nodes: 0, removed_devices: Vec::new(), visited: Vec::new() }
    }

    /// Whether the directory `id` was walked already.
    fn was_visited(&self, id: (u64, u64)) -> (r: bool)
        ensures
            r == self.visited@.contains(id),
    {
        let mut i: usize = 0;
        while i < self.visited.len()
            invariant
                i <= self.visited@.len(),
                forall|j: int| 0 <= j < i ==> self.visited@[j] != id,
            decreases self.visited@.len() - i,
        {
            if self.visited[i].0 == id.0 && self.visited[i].1 == id.1 {
                return true;
            }
            i = i + 1;
        }
        false
    }

    /// Takes the entry at `tree_path`, of kind `kind` and identity `id`, and
    /// says what to do with it.
    pub fn visit(&mut self, kind: EntryKind, id: (u64, u64), tree_path: String) -> (a: EntryAction)
        requires
            old(self).wf(),
            old(self).nodes < usize::MAX,
        ensures
            final(self).wf(),
            is_special(kind) ==> a == EntryAction::OmitDevice && final(self).nodes == old(self).nodes
                && final(self).removed_devices@ == old(self).removed_devices@.push(tree_path)
                && final(self).visited@ == old(self).visited@,
            (kind == EntryKind::Regular || kind == EntryKind::Symlink) ==> a == EntryAction::Append
                && final(self).nodes == old(self).nodes + 1 && final(self).removed_devices@ == old(
                self,
            ).removed_devices@ && final(self).visited@ == old(self).visited@,
            kind == EntryKind::Directory && old(self).visited@.contains(id) ==> a
                == EntryAction::SkipCycle && final(self).nodes == old(self).nodes
                && final(self).removed_devices@ == old(self).removed_devices@ && final(self).visited@
                == old(self).visited@,
            kind == EntryKind::Directory && !old(self).visited@.contains(id) ==> a
                == EntryAction::AppendAndDescend && final(self).nodes == old(self).nodes + 1
                && final(self).removed_devices@ == old(self).removed_devices@ && final(self).visited@
                == old(self).visited@.push(id),
    {
        match kind {
            EntryKind::Regular | EntryKind::Symlink => {
                self.nodes = self.nodes + 1;
                EntryAction::Append
            },
            EntryKind::Directory => {
                if self.was_visited(id) {
                    EntryAction::SkipCycle
                } else {
                    let ghost before = self.visited@;
                    self.visited.push(id);
                    assert forall|i: int, j: int|
                        0 <= i < j < self.visited@.len() implies #[trigger] self.visited@[i]
                        != #[trigger] self.visited@[j] by {
                        if j == before.len() {
                            assert(before.contains(before[i]));
                        } else {
                            assert(before[i] != before[j]);
                        }
                    }
                    self.nodes = self.nodes + 1;
                    EntryAction::AppendAndDescend
                }
            },
            _ => {
                self.removed_devices.push(tree_path);
                EntryAction::OmitDevice
            },
        }
    }
}

} // verus!
