//! Finding the one file of a given name under a search root.

use vstd::prelude::*;
use crate::paths::{file_name_is, names_file, path_bytes};
use crate::text::{decimal, decimal_text};

verus! {

/// One entry under a search root.
#[derive(Clone, Debug)]
pub struct RootEntry {
    /// The full path of the entry.
    pub path: String,
    /// What the entry holds as text; `None` where it cannot be read as
    /// text.
    pub content: Option<String>,
}

/// A directory and all that lies beneath it, to any depth.
#[derive(Clone, Debug)]
pub struct SearchRoot {
    /// The directory that was searched.
    pub dir: String,
    /// Every entry beneath the directory.
    pub entries: Vec<RootEntry>,
}

/// Why a name did not lead to a file.
#[derive(Debug)]
pub enum ResolveError {
    /// No entry under the root bears the name.
    NotFound { root: String, name: String },
    /// More than one entry under the root bears the name.
    Ambiguous { root: String, name: String, matches: usize },
}

/// Whether an entry bears the file name `name`.
pub open spec fn bears_name(entry: RootEntry, name: Seq<char>) -> bool {
    names_file(path_bytes(entry.path@), path_bytes(name))
}

/// The entries that bear the file name `name`, in the order of the root.
pub open spec fn matching(entries: Seq<RootEntry>, name: Seq<char>) -> Seq<RootEntry> {
    entries.filter(|entry: RootEntry| bears_name(entry, name))
}

/// What looking for `name` under a root must give: the one entry that
/// bears the name, or the reason why there is no such one.
pub open spec fn resolves_to(
    root: SearchRoot,
    name: Seq<char>,
    outcome: Result<RootEntry, ResolveError>,
) -> bool {
    let found = matching(root.entries@, name);
    match outcome {
        Ok(entry) => found.len() == 1 && entry == found[0],
        Err(ResolveError::NotFound { root: dir, name: wanted }) => found.len() == 0 && dir@
            == root.dir@ && wanted@ == name,
        Err(ResolveError::Ambiguous { root: dir, name: wanted, matches }) => found.len() >= 2
            && matches == found.len() && dir@ == root.dir@ && wanted@ == name,
    }
}

/// Finds the index of the one entry under the root whose file name is
/// `name`.
///
/// Fails with `NotFound` where no entry bears the name and with
/// `Ambiguous` where several do; both name the root and the name.
pub fn find_index(root: &SearchRoot, name: &str) -> (r: Result<usize, ResolveError>)
    ensures
        match r {
            Ok(i) => i < root.entries@.len() && resolves_to(*root, name@, Ok(root.entries@[i as int])),
            Err(e) => resolves_to(*root, name@, Err(e)),
        },
{
    let ghost keep = |entry: RootEntry| bears_name(entry, name@);
    let n = root.entries.len();
    let mut first: usize = 0;
    let mut count: usize = 0;
    let mut i: usize = 0;
    while i < n
        invariant
            i <= n,
            n == root.entries@.len(),
            keep == |entry: RootEntry| bears_name(entry, name@),
            count == root.entries@.take(i as int).filter(keep).len(),
            count <= i,
            count > 0 ==> first < i && root.entries@.take(i as int).filter(keep)[0]
                == root.entries@[first as int],
        decreases n - i,
    {
        let ghost seen = root.entries@.take(i as int);
        proof {
            assert(root.entries@.take(i + 1) == seen.push(root.entries@[i as int]));
            seen.lemma_filter_push(root.entries@[i as int], keep);
        }
        if file_name_is(root.entries[i].path.as_str(), name) {
            if count == 0 {
                first = i;
            }
            count += 1;
        }
        i += 1;
    }
    assert(root.entries@.take(n as int) == root.entries@);
    if count == 1 {
        Ok(first)
    } else if count == 0 {
        Err(ResolveError::NotFound { root: root.dir.clone(), name: String::from_str(name) })
    } else {
        Err(
            ResolveError::Ambiguous {
                root: root.dir.clone(),
                name: String::from_str(name),
                matches: count,
            },
        )
    }
}

/// Finds the one file under the root whose file name is `name` and
/// returns its full path.
///
/// Fails with `NotFound` where no entry bears the name and with
/// `Ambiguous` where several do; both name the root and the name.
pub fn find_unique(root: &SearchRoot, name: &str) -> (r: Result<String, ResolveError>)
    ensures
        match r {
            Ok(path) => matching(root.entries@, name@).len() == 1 && path@ == matching(
                root.entries@,
                name@,
            )[0].path@,
            Err(e) => resolves_to(*root, name@, Err(e)),
        },
{
    match find_index(root, name) {
        Ok(i) => Ok(root.entries[i].path.clone()),
        Err(e) => Err(e),
    }
}

/// What a resolve error says: how many files bear the name, the name,
/// and the root that was searched.
pub open spec fn resolve_message(e: ResolveError) -> Seq<char> {
    match e {
        ResolveError::NotFound { root, name } => "Found zero files with name "@ + name@
            + " below "@ + root@,
        ResolveError::Ambiguous { root, name, matches } => "Found "@ + decimal_text(matches as nat)
            + " files with name "@ + name@ + " below "@ + root@,
    }
}

impl ResolveError {
    /// The error in words, for the user.
    pub fn message(&self) -> (text: String)
        ensures
            text@ == resolve_message(*self),
    {
        match self {
            ResolveError::NotFound { root, name } => {
                let mut text = String::from_str("Found zero files with name ");
                text.append(name.as_str());
                text.append(" below ");
                text.append(root.as_str());
                text
            },
            ResolveError::Ambiguous { root, name, matches } => {
                let mut text = String::from_str("Found ");
                text.append(decimal(*matches).as_str());
                text.append(" files with name ");
                text.append(name.as_str());
                text.append(" below ");
                text.append(root.as_str());
                text
            },
        }
    }
}

} // verus!
