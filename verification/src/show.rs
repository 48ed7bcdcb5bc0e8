//! The show file: everything that restores a session (the patch, the cue
//! stack, the venue model's path and a name), and how a session or an older
//! cue-only file becomes one. Reading and writing the JSON is left to the
//! caller.
use vstd::prelude::*;
use crate::cue::CueStack;
use crate::patch::Patch;
use crate::text::push_str;

verus! {

/// The format version written into show files.
pub const SHOW_FILE_VERSION: u32 = 1;

/// A complete show.
pub struct ShowFile<S> {
    pub version: u32,
    pub patch: Patch,
    pub cue_stack: CueStack<S>,
    pub venue_path: Option<String>,
    pub name: String,
}

fn text(s: &str) -> (r: String)
    ensures
        r@ == s@,
{
    let mut r = String::new();
    push_str(&mut r, s);
    r
}

impl<S> Default for ShowFile<S> {
    /// An empty show named "Untitled Show".
    fn default() -> (f: Self)
        ensures
            f.version == SHOW_FILE_VERSION,
            f.patch.wf(),
            f.patch@ == Map::<u32, crate::patch::FixtureInstance>::empty(),
            f.patch.next() == 0,
            f.cue_stack.cues@.len() == 0,
            f.venue_path is None,
            f.name@ == "Untitled Show"@,
    {
        ShowFile {
            version: SHOW_FILE_VERSION,
            patch: Patch::new(),
            cue_stack: CueStack::new(),
            venue_path: None,
            name: text("Untitled Show"),
        }
    }
}

impl<S> ShowFile<S> {
    /// The show of a session: its patch and cues, the venue path where one
    /// was imported (an empty path means none), named "show".
    pub fn from_session(patch: Patch, cue_stack: CueStack<S>, venue_import_path: &str) -> (f: Self)
        ensures
            f.version == SHOW_FILE_VERSION,
            f.patch == patch,
            f.cue_stack == cue_stack,
            venue_import_path@.len() == 0 ==> f.venue_path is None,
            venue_import_path@.len() > 0 ==> (f.venue_path matches Some(p) && p@ == venue_import_path@),
            f.name@ == "show"@,
    {
        let venue_path = if venue_import_path.unicode_len() == 0 {
            None
        } else {
            Some(text(venue_import_path))
        };
        ShowFile { version: SHOW_FILE_VERSION, patch, cue_stack, venue_path, name: text("show") }
    }

    /// A show made from an older file that held only the cue stack: an
    /// empty patch, no venue, named "Migrated Show".
    pub fn from_legacy(cue_stack: CueStack<S>) -> (f: Self)
        ensures
            f.version == SHOW_FILE_VERSION,
            f.patch.wf(),
            f.patch@ == Map::<u32, crate::patch::FixtureInstance>::empty(),
            f.patch.next() == 0,
            f.cue_stack == cue_stack,
            f.venue_path is None,
            f.name@ == "Migrated Show"@,
    {
        ShowFile { version: SHOW_FILE_VERSION, patch: Patch::new(), cue_stack, venue_path: None, name: text("Migrated Show") }
    }
}

} // verus!
