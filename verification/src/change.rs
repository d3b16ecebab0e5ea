use vstd::prelude::*;
use crate::ids::ObjectId;

verus! {

/// The path separator byte, `/`.
pub const SLASH: u8 = 47;

/// The raw effect of one file in a diff, exactly as the version-control
/// layer reports it, before any filtering. Variants mirror the diff
/// statuses of the underlying library one for one.
#[derive(Debug, Clone, Copy, PartialEq, Eq, Structural)]
pub enum RawKind {
    Unmodified,
    Added,
    Deleted,
    Modified,
    Renamed,
    Copied,
    Ignored,
    Untracked,
    Typechange,
    Unreadable,
    Conflicted,
}

/// One raw diff entry: its status, the path on each side (absent where that
/// side of the diff has no file, or where the path is not representable),
/// and the identity of the content on the new side.
#[derive(Debug, Clone)]
pub struct RawChange {
    pub kind: RawKind,
    pub old_path: Option<Vec<u8>>,
    pub new_path: Option<Vec<u8>>,
    pub content_id: ObjectId,
}

/// The mathematical value of a raw diff entry.
pub ghost struct RawChangeModel {
    pub kind: RawKind,
    pub old_path: Option<Seq<u8>>,
    pub new_path: Option<Seq<u8>>,
    pub content_id: Seq<u8>,
}

impl View for RawChange {
    type V = RawChangeModel;

    open spec fn view(&self) -> RawChangeModel {
        RawChangeModel {
            kind: self.kind,
            old_path: match self.old_path {
                Some(p) => Some(p@),
                None => None,
            },
            new_path: match self.new_path {
                Some(p) => Some(p@),
                None => None,
            },
            content_id: self.content_id@,
        }
    }
}

/// The kind of a classified change, restricted to the effects the walk
/// reacts to. A deletion is never classified: a name deleted in the past
/// cannot belong to the live lineage, so deletions are dropped as no-ops.
#[derive(Debug, Clone, Copy, PartialEq, Eq, Structural)]
pub enum ChangeKind {
    Added,
    Modified,
    Renamed,
    Unmodified,
}

/// One file-level change of a revision against its first parent, restricted
/// to direct children of the tracked directory. `old_name` is present
/// exactly on a rename whose source is itself a direct child; `new_name`
/// and `old_name` are bare filenames, with the directory prefix removed.
#[derive(Debug, Clone)]
pub struct Change {
    pub kind: ChangeKind,
    pub old_name: Option<Vec<u8>>,
    pub new_name: Vec<u8>,
    pub content_id: ObjectId,
}

/// The mathematical value of a classified change.
pub ghost struct ChangeModel {
    pub kind: ChangeKind,
    pub old_name: Option<Seq<u8>>,
    pub new_name: Seq<u8>,
    pub content_id: Seq<u8>,
}

impl View for Change {
    type V = ChangeModel;

    open spec fn view(&self) -> ChangeModel {
        ChangeModel {
            kind: self.kind,
            old_name: match self.old_name {
                Some(p) => Some(p@),
                None => None,
            },
            new_name: self.new_name@,
            content_id: self.content_id@,
        }
    }
}

impl ChangeModel {
    /// An addition: either reported as one, or a rename degraded to one
    /// because its source is not observable inside the tracked lineage.
    pub open spec fn is_addition(self) -> bool {
        self.kind == ChangeKind::Added
    }
}

/// The bare filename under which `path` is a direct child of `dir`:
/// `path` is exactly `dir`, a separator, and one nonempty slash-free
/// segment (or, when `dir` is the repository root, one such segment on
/// its own). Anything else — a nested path, a path outside `dir`, or
/// `dir` itself — has no direct-child name.
pub open spec fn slash_free(s: Seq<u8>) -> bool {
    forall|i: int| 0 <= i < s.len() ==> s[i] != SLASH
}

pub open spec fn direct_child_of(dir: Seq<u8>, path: Seq<u8>) -> Option<Seq<u8>> {
    if dir.len() == 0 {
        if path.len() > 0 && slash_free(path) {
            Some(path)
        } else {
            None
        }
    } else if path.len() > dir.len() + 1 && path.take(dir.len() as int) == dir
        && path[dir.len() as int] == SLASH && slash_free(path.skip(dir.len() + 1 as int)) {
        Some(path.skip(dir.len() + 1 as int))
    } else {
        None
    }
}

/// The classification rule for one raw diff entry against the tracked
/// directory `dir`:
/// - an entry whose new path is missing or not a direct child of `dir` is
///   dropped;
/// - an addition (also an untracked live file, or a copy, whose source is
///   immaterial here) is kept as `Added`;
/// - a modification (also a change of file type, or a conflicted live
///   file) is kept as `Modified`;
/// - a rename is kept as `Renamed` only when its old path is a direct
///   child of `dir` too; otherwise its source is not observable inside the
///   tracked lineage and it degrades to `Added`;
/// - an unmodified entry is kept as `Unmodified`;
/// - a deletion, an ignored entry and an unreadable entry are dropped.
pub open spec fn classify_model(dir: Seq<u8>, raw: RawChangeModel) -> Option<ChangeModel> {
    match raw.new_path {
        None => None,
        Some(path) => match direct_child_of(dir, path) {
            None => None,
            Some(name) => match raw.kind {
                RawKind::Added | RawKind::Untracked | RawKind::Copied => Some(
                    ChangeModel {
                        kind: ChangeKind::Added,
                        old_name: None,
                        new_name: name,
                        content_id: raw.content_id,
                    },
                ),
                RawKind::Modified | RawKind::Typechange | RawKind::Conflicted => Some(
                    ChangeModel {
                        kind: ChangeKind::Modified,
                        old_name: None,
                        new_name: name,
                        content_id: raw.content_id,
                    },
                ),
                RawKind::Unmodified => Some(
                    ChangeModel {
                        kind: ChangeKind::Unmodified,
                        old_name: None,
                        new_name: name,
                        content_id: raw.content_id,
                    },
                ),
                RawKind::Renamed => match raw.old_path {
                    Some(old) => match direct_child_of(dir, old) {
                        Some(old_name) => Some(
                            ChangeModel {
                                kind: ChangeKind::Renamed,
                                old_name: Some(old_name),
                                new_name: name,
                                content_id: raw.content_id,
                            },
                        ),
                        None => Some(
                            ChangeModel {
                                kind: ChangeKind::Added,
                                old_name: None,
                                new_name: name,
                                content_id: raw.content_id,
                            },
                        ),
                    },
                    None => Some(
                        ChangeModel {
                            kind: ChangeKind::Added,
                            old_name: None,
                            new_name: name,
                            content_id: raw.content_id,
                        },
                    ),
                },
                RawKind::Deleted | RawKind::Ignored | RawKind::Unreadable => None,
            },
        },
    }
}

/// The bare filename under which `path` is a direct child of `dir`,
/// or `None` where there is no such name.
pub fn direct_child_name(dir: &Vec<u8>, path: &Vec<u8>) -> (r: Option<Vec<u8>>)
    ensures
        match r {
            Some(name) => direct_child_of(dir@, path@) == Some(name@),
            None => direct_child_of(dir@, path@) is None,
        },
{
    let start: usize = if dir.len() == 0 {
        0
    } else {
        // The path must strictly extend `dir` with a separator and a
        // nonempty segment.
        if path.len() < dir.len() || path.len() - dir.len() < 2 {
            return None;
        }
        let mut i: usize = 0;
        while i < dir.len()
            invariant
                i <= dir.len(),
                path@.len() > dir@.len() + 1,
                forall|j: int| 0 <= j < i ==> path@[j] == dir@[j],
            decreases dir.len() - i,
        {
            if path[i] != dir[i] {
                proof {
                    assert(path@.take(dir@.len() as int)[i as int] != dir@[i as int]);
                }
                return None;
            }
            i = i + 1;
        }
        proof {
            assert(path@.take(dir@.len() as int) =~= dir@);
        }
        if path[dir.len()] != SLASH {
            return None;
        }
        dir.len() + 1
    };
    let mut name: Vec<u8> = Vec::new();
    let mut i: usize = start;
    while i < path.len()
        invariant
            start <= i <= path@.len(),
            name@ == path@.subrange(start as int, i as int),
            forall|j: int| 0 <= j < name@.len() ==> name@[j] != SLASH,
            dir@.len() == 0 ==> start == 0,
            dir@.len() > 0 ==> start == dir@.len() + 1 && path@.len() > dir@.len() + 1
                && path@.take(dir@.len() as int) == dir@ && path@[dir@.len() as int] == SLASH,
        decreases path.len() - i,
    {
        let b = path[i];
        if b == SLASH {
            proof {
                if dir@.len() == 0 {
                    assert(path@[i as int] == SLASH);
                    assert(!slash_free(path@));
                } else {
                    assert(path@.skip(dir@.len() + 1 as int)[i - start] == path@[i as int]);
                    assert(!slash_free(path@.skip(dir@.len() + 1 as int)));
                }
            }
            return None;
        }
        name.push(b);
        proof {
            assert(name@ =~= path@.subrange(start as int, i + 1 as int));
        }
        i = i + 1;
    }
    if name.len() == 0 {
        return None;
    }
    proof {
        if dir@.len() == 0 {
            assert(name@ =~= path@);
        } else {
            assert(name@ =~= path@.skip(dir@.len() + 1 as int));
        }
    }
    Some(name)
}

/// Classifies one raw diff entry per the classification rule.
pub fn classify_change(dir: &Vec<u8>, raw: &RawChange) -> (r: Option<Change>)
    ensures
        match r {
            Some(c) => classify_model(dir@, raw@) == Some(c@),
            None => classify_model(dir@, raw@) is None,
        },
{
    let path = match &raw.new_path {
        None => {
            return None;
        },
        Some(p) => p,
    };
    let name = match direct_child_name(dir, path) {
        None => {
            return None;
        },
        Some(n) => n,
    };
    match raw.kind {
        RawKind::Added | RawKind::Untracked | RawKind::Copied => Some(
            Change {
                kind: ChangeKind::Added,
                old_name: None,
                new_name: name,
                content_id: raw.content_id.duplicate(),
            },
        ),
        RawKind::Modified | RawKind::Typechange | RawKind::Conflicted => Some(
            Change {
                kind: ChangeKind::Modified,
                old_name: None,
                new_name: name,
                content_id: raw.content_id.duplicate(),
            },
        ),
        RawKind::Unmodified => Some(
            Change {
                kind: ChangeKind::Unmodified,
                old_name: None,
                new_name: name,
                content_id: raw.content_id.duplicate(),
            },
        ),
        RawKind::Renamed => {
            let old_name = match &raw.old_path {
                Some(old) => direct_child_name(dir, old),
                None => None,
            };
            match old_name {
                Some(o) => Some(
                    Change {
                        kind: ChangeKind::Renamed,
                        old_name: Some(o),
                        new_name: name,
                        content_id: raw.content_id.duplicate(),
                    },
                ),
                None => Some(
                    Change {
                        kind: ChangeKind::Added,
                        old_name: None,
                        new_name: name,
                        content_id: raw.content_id.duplicate(),
                    },
                ),
            }
        },
        RawKind::Deleted | RawKind::Ignored | RawKind::Unreadable => None,
    }
}

} // verus!
