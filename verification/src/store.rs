//! Where the session store keeps what a harvest reads.
//!
//! Below the store's root stands one directory for each working directory;
//! the one that holds the parent session holds the subagent's session too.

use vstd::prelude::*;
use vstd::string::*;

use crate::spawn::Harvest;

verus! {

/// A path: `base`, with each of `below` under the one before it.
#[derive(Debug, PartialEq)]
pub struct StorePath<P> {
    pub base: P,
    pub below: Vec<String>,
}

/// The components of a path, as texts.
pub open spec fn components(path: Seq<String>) -> Seq<Seq<char>> {
    path.map_values(|c: String| c@)
}

/// The root of the session store: the directory that `configured` names or,
/// without one, its place below the home directory. Without either there is no
/// store.
pub fn sessions_root<P>(configured: Option<P>, home: Option<P>) -> (r: Option<StorePath<P>>)
    ensures
        match (configured, home) {
            (Some(dir), _) => {
                &&& r matches Some(root)
                &&& root.base == dir
                &&& root.below@.len() == 0
            },
            (None, Some(home)) => {
                &&& r matches Some(root)
                &&& root.base == home
                &&& components(root.below@) == seq![".grok"@, "sessions"@]
            },
            (None, None) => r is None,
        },
{
    match configured {
        Some(dir) => Some(StorePath { base: dir, below: Vec::new() }),
        None => {
            let base: P = home?;
            let mut below: Vec<String> = Vec::new();
            below.push(".grok".to_owned());
            below.push("sessions".to_owned());
            assert(components(below@) =~= seq![".grok"@, "sessions"@]);
            Some(StorePath { base, below })
        },
    }
}

/// The directory that holds the parent session, among those below the store's
/// root: the first of which `holds_session` says so. `None` where none does.
/// Looking for it sidesteps how the store encodes a working directory.
pub fn find_cwd_dir(holds_session: &[bool]) -> (r: Option<usize>)
    ensures
        match r {
            Some(i) => {
                &&& i < holds_session@.len()
                &&& holds_session@[i as int]
                &&& forall|j: int| 0 <= j < i ==> !(#[trigger] holds_session@[j])
            },
            None => !holds_session@.contains(true),
        },
{
    for i in 0..holds_session.len()
        invariant
            forall|j: int| 0 <= j < i ==> !(#[trigger] holds_session@[j]),
    {
        if holds_session[i] {
            return Some(i);
        }
    }
    None
}

/// The subagent's directories, below the directory that holds the parent
/// session: the one of its own session, and the one that the parent session
/// keeps of it.
pub fn subagent_dirs(harvest: &Harvest) -> (r: (Vec<String>, Vec<String>))
    ensures
        components(r.0@) == seq![harvest.subagent_id@],
        components(r.1@) == seq![
            harvest.parent_session_id@,
            "subagents"@,
            harvest.subagent_id@,
        ],
{
    let mut own: Vec<String> = Vec::new();
    own.push(harvest.subagent_id.clone());
    assert(components(own@) =~= seq![harvest.subagent_id@]);
    let mut kept: Vec<String> = Vec::new();
    kept.push(harvest.parent_session_id.clone());
    kept.push("subagents".to_owned());
    kept.push(harvest.subagent_id.clone());
    assert(components(kept@) =~= seq![
        harvest.parent_session_id@,
        "subagents"@,
        harvest.subagent_id@,
    ]);
    (own, kept)
}

/// The subagent's transcript, below the directory that holds the parent
/// session.
pub fn transcript_path(harvest: &Harvest) -> (r: Vec<String>)
    ensures
        components(r@) == seq![harvest.subagent_id@, "chat_history.jsonl"@],
{
    let mut path: Vec<String> = Vec::new();
    path.push(harvest.subagent_id.clone());
    path.push("chat_history.jsonl".to_owned());
    assert(components(path@) =~= seq![harvest.subagent_id@, "chat_history.jsonl"@]);
    path
}

/// The file `name` that the parent session keeps of the subagent, below the
/// directory that holds the parent session.
pub fn lifecycle_path(harvest: &Harvest, name: &str) -> (r: Vec<String>)
    ensures
        components(r@) == seq![
            harvest.parent_session_id@,
            "subagents"@,
            harvest.subagent_id@,
            name@,
        ],
{
    let mut path: Vec<String> = Vec::new();
    path.push(harvest.parent_session_id.clone());
    path.push("subagents".to_owned());
    path.push(harvest.subagent_id.clone());
    path.push(name.to_owned());
    assert(components(path@) =~= seq![
        harvest.parent_session_id@,
        "subagents"@,
        harvest.subagent_id@,
        name@,
    ]);
    path
}

/// The components of a path are its texts, each in its place.
pub proof fn lemma_components_are_the_texts(path: Seq<String>, i: int)
    requires
        0 <= i < path.len(),
    ensures
        components(path).len() == path.len(),
        components(path)[i] == path[i]@,
{
}

} // verus!
