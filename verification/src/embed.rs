//! The embedding directive: inlining a file, found by name, into a
//! template.

use vstd::prelude::*;
use crate::resolve::{find_index, matching, resolve_message, resolves_to, ResolveError, SearchRoot};
use crate::text::same_text;

verus! {

/// The name under which templates call the embedding directive.
pub const DIRECTIVE: &'static str = "embed_file";

/// The value of one argument of a directive.
#[derive(Clone, Debug)]
pub enum ArgValue {
    /// A string.
    Text(String),
    /// Anything that is not a string.
    Other,
}

/// One named argument of a directive.
#[derive(Clone, Debug)]
pub struct DirectiveArg {
    pub name: String,
    pub value: ArgValue,
}

/// Why a directive could not be carried out.
#[derive(Debug)]
pub enum EmbedError {
    /// The arguments hold no `path`, or one that is not a string.
    InvalidArgument,
    /// The name did not lead to one file.
    Unresolved(ResolveError),
    /// The file was found but cannot be read as text.
    Unreadable { path: String },
}

/// The name of the argument that carries the file name.
pub open spec fn path_key() -> Seq<char> {
    "path"@
}

/// The value of the first argument called `name`, if there is one.
pub open spec fn arg_named(args: Seq<DirectiveArg>, name: Seq<char>) -> Option<ArgValue>
    decreases args.len(),
{
    if args.len() == 0 {
        None
    } else if args[0].name@ == name {
        Some(args[0].value)
    } else {
        arg_named(args.drop_first(), name)
    }
}

/// The file name that the arguments ask for, if they are well formed.
pub open spec fn target_of(args: Seq<DirectiveArg>) -> Option<Seq<char>> {
    match arg_named(args, path_key()) {
        Some(ArgValue::Text(name)) => Some(name@),
        _ => None,
    }
}

/// Reads the file name out of the arguments of a directive.
///
/// The arguments must hold a `path` whose value is a string; any other
/// shape is an invalid argument.
pub fn directive_target(args: &Vec<DirectiveArg>) -> (r: Result<String, EmbedError>)
    ensures
        match r {
            Ok(name) => target_of(args@) == Some(name@),
            Err(e) => e is InvalidArgument && target_of(args@) is None,
        },
{
    let mut i: usize = 0;
    assert(args@.skip(0) == args@);
    while i < args.len()
        invariant
            i <= args@.len(),
            arg_named(args@, path_key()) == arg_named(args@.skip(i as int), path_key()),
        decreases args@.len() - i,
    {
        let ghost rest = args@.skip(i as int);
        assert(rest[0] == args@[i as int]);
        assert(rest.drop_first() == args@.skip(i + 1));
        if same_text(args[i].name.as_str(), "path") {
            return match &args[i].value {
                ArgValue::Text(name) => Ok(name.clone()),
                ArgValue::Other => Err(EmbedError::InvalidArgument),
            };
        }
        i += 1;
    }
    Err(EmbedError::InvalidArgument)
}

/// What embedding the file called `name` must give: the content of the
/// one entry that bears the name, unchanged, or the reason why there is
/// none to give.
pub open spec fn embeds_as(root: SearchRoot, name: Seq<char>, outcome: Result<String, EmbedError>) -> bool {
    let found = matching(root.entries@, name);
    match outcome {
        Ok(text) => found.len() == 1 && found[0].content is Some && text@ == (found[0].content->0)@,
        Err(EmbedError::Unresolved(e)) => resolves_to(root, name, Err(e)),
        Err(EmbedError::Unreadable { path }) => found.len() == 1 && found[0].content is None
            && path@ == found[0].path@,
        Err(EmbedError::InvalidArgument) => false,
    }
}

/// The capability handed to the template engine: it inlines files found
/// by name under its search root.
#[derive(Clone, Debug)]
pub struct FileEmbedder {
    pub root: SearchRoot,
}

impl FileEmbedder {
    /// An embedder that looks files up under `root`.
    pub fn new(root: SearchRoot) -> (embedder: FileEmbedder)
        ensures
            embedder.root == root,
    {
        FileEmbedder { root }
    }

    /// The content of the one file called `name` under the root, as it is.
    pub fn resolve(&self, name: &str) -> (r: Result<String, EmbedError>)
        ensures
            embeds_as(self.root, name@, r),
    {
        match find_index(&self.root, name) {
            Ok(i) => {
                let entry = &self.root.entries[i];
                match &entry.content {
                    Some(content) => Ok(content.clone()),
                    None => Err(EmbedError::Unreadable { path: entry.path.clone() }),
                }
            },
            Err(e) => Err(EmbedError::Unresolved(e)),
        }
    }

    /// Carries out the directive with the given arguments: the content of
    /// the file that `path` names, or why it cannot be had.
    pub fn call(&self, args: &Vec<DirectiveArg>) -> (r: Result<String, EmbedError>)
        ensures
            match target_of(args@) {
                Some(name) => embeds_as(self.root, name, r),
                None => r matches Err(e) && e is InvalidArgument,
            },
    {
        match directive_target(args) {
            Ok(name) => self.resolve(name.as_str()),
            Err(e) => Err(e),
        }
    }
}

/// What an embed error says.
pub open spec fn embed_message(e: EmbedError) -> Seq<char> {
    match e {
        EmbedError::InvalidArgument => "The directive needs a `path` argument that is a string"@,
        EmbedError::Unresolved(inner) => resolve_message(inner),
        EmbedError::Unreadable { path } => "Could not read "@ + path@ + " as text"@,
    }
}

impl EmbedError {
    /// The error in words, for the user.
    pub fn message(&self) -> (text: String)
        ensures
            text@ == embed_message(*self),
    {
        match self {
            EmbedError::InvalidArgument => String::from_str(
                "The directive needs a `path` argument that is a string",
            ),
            EmbedError::Unresolved(inner) => inner.message(),
            EmbedError::Unreadable { path } => {
                let mut text = String::from_str("Could not read ");
                text.append(path.as_str());
                text.append(" as text");
                text
            },
        }
    }
}

} // verus!
