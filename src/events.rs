use vstd::prelude::*;

verus! {

/// What a native notification says the entry it concerns is.
#[derive(Clone, Copy, Debug, PartialEq, Eq, Structural)]
pub enum EntryKind {
    Any,
    File,
    Folder,
    Other,
}

/// The kind of a native file-system notification, as far as the tailer reads it.
#[derive(Clone, Copy, Debug, PartialEq, Eq, Structural)]
pub enum NativeKind {
    Any,
    Access,
    Create(EntryKind),
    ModifyAny,
    ModifyData,
    ModifyMetadata,
    ModifyName,
    ModifyOther,
    Remove(EntryKind),
    Other,
}

/// The closed set of changes that the tailer acts on.
#[derive(Clone, Copy, Debug, PartialEq, Eq, Structural)]
pub enum Change {
    Created,
    Modified,
    Removed,
}

/// One normalized notification: a change to one path.
#[derive(Debug)]
pub struct WatchEvent {
    pub change: Change,
    pub path: String,
}

/// The change that a native kind stands for, if the tailer acts on it: a file
/// (or an entry of unknown kind) created or removed, or its data modified.
pub open spec fn change_of(kind: NativeKind) -> Option<Change> {
    match kind {
        NativeKind::Create(EntryKind::File) | NativeKind::Create(EntryKind::Any) => Some(
            Change::Created,
        ),
        NativeKind::ModifyData | NativeKind::ModifyAny => Some(Change::Modified),
        NativeKind::Remove(EntryKind::File) | NativeKind::Remove(EntryKind::Any) => Some(
            Change::Removed,
        ),
        _ => None,
    }
}

pub fn classify(kind: NativeKind) -> (r: Option<Change>)
    ensures
        r == change_of(kind),
{
    match kind {
        NativeKind::Create(EntryKind::File) | NativeKind::Create(EntryKind::Any) => Some(
            Change::Created,
        ),
        NativeKind::ModifyData | NativeKind::ModifyAny => Some(Change::Modified),
        NativeKind::Remove(EntryKind::File) | NativeKind::Remove(EntryKind::Any) => Some(
            Change::Removed,
        ),
        _ => None,
    }
}

/// Turns one native notification about `paths` into watch events, one per path
/// and in the same order; a kind that the tailer does not act on gives none.
pub fn normalize(kind: NativeKind, paths: Vec<String>) -> (r: Vec<WatchEvent>)
    ensures
        change_of(kind) is None ==> r@.len() == 0,
        change_of(kind) is Some ==> {
            &&& r@.len() == paths@.len()
            &&& forall|i: int|
                0 <= i < r@.len() ==> r@[i].change == change_of(kind)->Some_0 && r@[i].path@
                    == paths@[i]@
        },
{
    let mut out: Vec<WatchEvent> = Vec::new();
    match classify(kind) {
        None => out,
        Some(change) => {
            let mut i: usize = 0;
            while i < paths.len()
                invariant
                    i <= paths@.len(),
                    change_of(kind) == Some(change),
                    out@.len() == i,
                    forall|k: int|
                        0 <= k < i ==> out@[k].change == change && out@[k].path@ == paths@[k]@,
                decreases paths.len() - i,
            {
                out.push(WatchEvent { change, path: paths[i].clone() });
                i = i + 1;
            }
            out
        },
    }
}

} // verus!
