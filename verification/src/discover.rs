//! Discovery: the files that a pattern found, put in processing order.

use vstd::prelude::*;
use crate::order::{in_order, lemma_order_is_unique, locations, sort_located, Located};
use crate::paths::path_bytes;

verus! {

/// A discovered file: its path, which is also its identity, and the
/// template text read from it.
#[derive(Debug)]
pub struct SourceFile {
    pub path: String,
    pub text: String,
}

impl Located for SourceFile {
    open spec fn location(&self) -> Seq<u8> {
        path_bytes(self.path@)
    }

    fn path(&self) -> (p: &str) {
        self.path.as_str()
    }
}

/// A pattern that is not a well-formed glob.
#[derive(Debug)]
pub struct GlobError {
    /// Roughly the index of the character at which the pattern goes wrong.
    pub position: usize,
    /// What is wrong with it.
    pub reason: String,
}

/// What `glob::glob` finds wrong with a pattern before it looks for any
/// file: the position and the message of its error, or `None` for a
/// pattern that it accepts.
pub uninterp spec fn pattern_fault(pattern: Seq<char>) -> Option<(usize, Seq<char>)>;

/// The fault as the functions below look at it: by position and text.
pub open spec fn fault_view(fault: Option<(usize, String)>) -> Option<(usize, Seq<char>)> {
    match fault {
        Some((position, reason)) => Some((position, reason@)),
        None => None,
    }
}

/// Calls `glob::glob` and hands back the position and message of its
/// error if there is one; the iterator that it gives for a good pattern
/// is dropped unused, so no file system is touched (it is read only when
/// the iterator is advanced). `glob::glob` compiles the whole pattern and
/// then each of its path components. The claim is that the answer depends
/// on the pattern alone, on one platform: it reads nothing but its
/// argument and what the platform takes for a path separator.
#[verifier::external_body]
fn pattern_check(pattern: &str) -> (fault: Option<(usize, String)>)
    ensures
        fault_view(fault) == pattern_fault(pattern@),
{
    match glob::glob(pattern) {
        Ok(_) => None,
        Err(e) => Some((e.pos, e.msg.to_string())),
    }
}

/// What a compiled pattern comes to: no fault is fine, and a fault is a
/// `GlobError` with the same position and reason.
pub fn pattern_result(fault: Option<(usize, String)>) -> (r: Result<(), GlobError>)
    ensures
        match fault {
            None => r is Ok,
            Some((position, reason)) => r matches Err(e) && e.position == position && e.reason@
                == reason@,
        },
{
    match fault {
        None => Ok(()),
        Some((position, reason)) => Err(GlobError { position, reason }),
    }
}

/// Checks that a pattern is one that can be expanded: a well-formed glob,
/// as a whole and in each of its path components.
pub fn check_pattern(pattern: &str) -> (r: Result<(), GlobError>)
    ensures
        match pattern_fault(pattern@) {
            None => r is Ok,
            Some((position, reason)) => r matches Err(e) && e.position == position && e.reason@
                == reason,
        },
{
    pattern_result(pattern_check(pattern))
}

/// The discovered files in processing order: shallow paths first, and
/// paths of one depth by their segments in dictionary order.
#[derive(Debug)]
pub struct OrderedFileList {
    files: Vec<SourceFile>,
}

impl View for OrderedFileList {
    type V = Seq<SourceFile>;

    closed spec fn view(&self) -> Seq<SourceFile> {
        self.files@
    }
}

impl OrderedFileList {
    /// The list is in processing order.
    #[verifier::type_invariant]
    pub closed spec fn ordered(self) -> bool {
        in_order(locations(self.files@))
    }

    /// The files, in order.
    pub fn files(&self) -> (files: &Vec<SourceFile>)
        ensures
            files@ == self@,
            in_order(locations(files@)),
    {
        proof {
            use_type_invariant(self);
        }
        &self.files
    }

    /// How many files there are.
    pub fn len(&self) -> (n: usize)
        ensures
            n == self@.len(),
    {
        self.files.len()
    }

    /// Gives the files up, in order.
    pub fn into_files(self) -> (files: Vec<SourceFile>)
        ensures
            files@ == self@,
            in_order(locations(files@)),
    {
        proof {
            use_type_invariant(&self);
        }
        self.files
    }
}

/// Puts discovered files in processing order. No files give the empty
/// list.
pub fn order_files(found: Vec<SourceFile>) -> (list: OrderedFileList)
    ensures
        list@.to_multiset() == found@.to_multiset(),
        locations(list@).to_multiset() == locations(found@).to_multiset(),
        in_order(locations(list@)),
{
    let mut files = found;
    sort_located(&mut files);
    OrderedFileList { files }
}

/// Takes what expanding `pattern` found and puts it in processing order.
///
/// Fails with a `GlobError` where the pattern is not a well-formed glob;
/// that nothing was found is no error.
pub fn discover(pattern: &str, found: Vec<SourceFile>) -> (r: Result<OrderedFileList, GlobError>)
    ensures
        match pattern_fault(pattern@) {
            None => r matches Ok(list) && list@.to_multiset() == found@.to_multiset() && locations(
                list@,
            ).to_multiset() == locations(found@).to_multiset() && in_order(locations(list@)),
            Some((position, reason)) => r matches Err(e) && e.position == position && e.reason@
                == reason,
        },
{
    match check_pattern(pattern) {
        Ok(()) => Ok(order_files(found)),
        Err(e) => Err(e),
    }
}

/// Two discoveries of the same paths come out in the same order, however
/// each was enumerated.
pub proof fn lemma_discovery_order_independent(first: Seq<SourceFile>, second: Seq<SourceFile>)
    requires
        in_order(locations(first)),
        in_order(locations(second)),
        locations(first).to_multiset() == locations(second).to_multiset(),
    ensures
        locations(first) == locations(second),
{
    lemma_order_is_unique(locations(first), locations(second));
}

} // verus!
