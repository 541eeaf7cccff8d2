//! Changes seen in watched folders, and which of them the index hears about.
use vstd::prelude::*;
use crate::paths::extension;
use crate::text;
use crate::text::ascii_lower;

verus! {

/// A change to a media file under a watched folder.
#[derive(Debug, Clone)]
pub enum WatchEvent {
    Added(String),
    Modified(String),
    Removed(String),
}

/// The kind of change the file-system watcher reports.
#[derive(Debug, Clone, Copy, PartialEq, Eq, Structural)]
pub enum FsChange {
    Create,
    Modify,
    Remove,
    Other,
}

/// A path whose extension is `pdf` or `mp4`, in any case.
pub open spec fn watched_media(path: Seq<char>) -> bool {
    match extension(path) {
        Some(e) => ascii_lower(e) == "pdf"@ || ascii_lower(e) == "mp4"@,
        None => false,
    }
}

pub open spec fn event_view(e: WatchEvent) -> (FsChange, Seq<char>) {
    match e {
        WatchEvent::Added(p) => (FsChange::Create, p@),
        WatchEvent::Modified(p) => (FsChange::Modify, p@),
        WatchEvent::Removed(p) => (FsChange::Remove, p@),
    }
}

/// Created and modified files are reported when they are PDF or MP4 files; every
/// removal is reported; other changes are not.
pub open spec fn reported(kind: FsChange, path: Seq<char>) -> bool {
    match kind {
        FsChange::Create => watched_media(path),
        FsChange::Modify => watched_media(path),
        FsChange::Remove => true,
        FsChange::Other => false,
    }
}

pub fn is_watched_media(path: &str) -> (r: bool)
    ensures
        r == watched_media(path@),
{
    let v = text::chars_of(path);
    match crate::paths::extension_exec(v.as_slice()) {
        Some(e) => {
            let l = text::lower_all(e.as_slice());
            text::lit_eq(l.as_slice(), "pdf") || text::lit_eq(l.as_slice(), "mp4")
        },
        None => false,
    }
}

pub fn watch_event_for(kind: FsChange, path: &str) -> (r: Option<WatchEvent>)
    ensures
        match r {
            Some(e) => reported(kind, path@) && event_view(e) == (kind, path@),
            None => !reported(kind, path@),
        },
{
    let owned = text::string_of(text::chars_of(path).as_slice());
    match kind {
        FsChange::Create => if is_watched_media(path) {
            Some(WatchEvent::Added(owned))
        } else {
            None
        },
        FsChange::Modify => if is_watched_media(path) {
            Some(WatchEvent::Modified(owned))
        } else {
            None
        },
        FsChange::Remove => Some(WatchEvent::Removed(owned)),
        FsChange::Other => None,
    }
}

} // verus!
