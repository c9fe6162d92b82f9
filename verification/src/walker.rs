use vstd::prelude::*;

verus! {

/// What kind of entry the walk came upon.
#[derive(Clone, Copy, Debug, PartialEq, Eq, Structural)]
pub enum EntryKind {
    /// A regular file.
    File,
    /// A directory.
    Directory,
    /// A symbolic link, which the walk does not follow.
    Symlink,
    /// A device, a socket, a pipe or the like.
    Other,
}

/// One step of the walk over the directory tree.
#[derive(Debug)]
pub enum WalkEvent {
    /// An entry was found.
    Entry { path: String, kind: EntryKind },
    /// An entry or a subtree could not be looked at.
    Inaccessible,
}

/// What a step of the walk is, mathematically.
pub enum WalkEventModel {
    Entry { path: Seq<char>, kind: EntryKind },
    Inaccessible,
}

impl View for WalkEvent {
    type V = WalkEventModel;

    open spec fn view(&self) -> WalkEventModel {
        match *self {
            WalkEvent::Entry { path, kind } => WalkEventModel::Entry { path: path@, kind },
            WalkEvent::Inaccessible => WalkEventModel::Inaccessible,
        }
    }
}

/// The path to hash for a step of the walk: that of a regular file. Any other
/// entry, and any step that failed, yields nothing.
pub open spec fn file_to_hash(event: WalkEventModel) -> Option<Seq<char>> {
    match event {
        WalkEventModel::Entry { path, kind } => if kind == EntryKind::File {
            Some(path)
        } else {
            None
        },
        WalkEventModel::Inaccessible => None,
    }
}

impl WalkEvent {
    /// Decides what the scan does with a step of the walk: a regular file is
    /// handed on to be hashed; directories, links, other entries and steps
    /// that failed are passed over in silence.
    pub fn regular_file(self) -> (found: Option<String>)
        ensures
            match found {
                Some(path) => file_to_hash(self@) == Some(path@),
                None => file_to_hash(self@) is None,
            },
    {
        match self {
            WalkEvent::Entry { path, kind } => match kind {
                EntryKind::File => Some(path),
                _ => None,
            },
            WalkEvent::Inaccessible => None,
        }
    }
}

} // verus!
