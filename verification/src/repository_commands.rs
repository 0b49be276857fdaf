//! The Git commands that a source is read with and that a target is made with: their arguments, the
//! longest output that is read of each, and what a failure is called.

use crate::errors::RepositoryGitOperation;
use crate::namespace::{saturated, saturating_total};
use vstd::prelude::*;
use vstd::string::*;

verus! {

/// Longest output that is read of a command that lists, in bytes.
pub const MAX_GIT_OUTPUT: usize = 67_108_864;

/// The texts of arguments.
pub open spec fn argument_views(arguments: Seq<&str>) -> Seq<Seq<char>> {
    arguments.map_values(|argument: &str| argument@)
}

/// A command on a source.
#[derive(Clone, Copy)]
pub enum SourceCommand<'a> {
    Version,
    /// The commit that is checked out.
    Head,
    /// All files of a commit.
    Tree { commit: &'a str },
    /// All files of the index.
    Index,
    /// The tags of the files in the index.
    Tags,
    /// The same, with the tags that a file monitor sets.
    MonitorTags,
    /// The attributes that change content, of the paths that are given as input.
    Attributes,
    /// The id that the input would have as a blob.
    HashBody,
    /// The body of a blob that has a known size.
    ReadBlob { oid: &'a str, size: usize },
}

impl<'a> SourceCommand<'a> {
    /// The arguments of the command.
    pub open spec fn argument_texts(self) -> Seq<Seq<char>> {
        match self {
            SourceCommand::Version => seq!["version"@],
            SourceCommand::Head => seq!["rev-parse"@, "--verify"@, "HEAD^{commit}"@],
            SourceCommand::Tree { commit } => seq!["ls-tree"@, "-r"@, "-z"@, "--full-tree"@, "-l"@, commit@],
            SourceCommand::Index => seq!["ls-files"@, "-s"@, "-z"@, "--full-name"@],
            SourceCommand::Tags => seq!["ls-files"@, "-v"@, "-z"@, "--full-name"@],
            SourceCommand::MonitorTags => seq!["ls-files"@, "-f"@, "-z"@, "--full-name"@],
            SourceCommand::Attributes => seq![
                "check-attr"@,
                "--cached"@,
                "-z"@,
                "--stdin"@,
                "filter"@,
                "working-tree-encoding"@,
                "ident"@,
            ],
            SourceCommand::HashBody => seq!["hash-object"@, "--stdin"@, "--no-filters"@],
            SourceCommand::ReadBlob { oid, .. } => seq!["cat-file"@, "blob"@, oid@],
        }
    }

    /// The arguments of the command.
    pub fn arguments(self) -> (arguments: Vec<&'a str>)
        ensures
            argument_views(arguments@) == self.argument_texts(),
    {
        let arguments: Vec<&'a str> = match self {
            SourceCommand::Version => vec!["version"],
            SourceCommand::Head => vec!["rev-parse", "--verify", "HEAD^{commit}"],
            SourceCommand::Tree { commit } => vec!["ls-tree", "-r", "-z", "--full-tree", "-l", commit],
            SourceCommand::Index => vec!["ls-files", "-s", "-z", "--full-name"],
            SourceCommand::Tags => vec!["ls-files", "-v", "-z", "--full-name"],
            SourceCommand::MonitorTags => vec!["ls-files", "-f", "-z", "--full-name"],
            SourceCommand::Attributes => vec![
                "check-attr",
                "--cached",
                "-z",
                "--stdin",
                "filter",
                "working-tree-encoding",
                "ident",
            ],
            SourceCommand::HashBody => vec!["hash-object", "--stdin", "--no-filters"],
            SourceCommand::ReadBlob { oid, .. } => vec!["cat-file", "blob", oid],
        };
        assert(argument_views(arguments@) =~= self.argument_texts());
        arguments
    }

    /// Longest output that is read, in bytes. Of a blob one byte more than its size is read.
    pub fn maximum_output(self) -> (maximum: usize)
        ensures
            maximum == match self {
                SourceCommand::Version => 256usize,
                SourceCommand::Head | SourceCommand::HashBody => 128,
                SourceCommand::ReadBlob { size, .. } => saturated(size, 1),
                _ => MAX_GIT_OUTPUT,
            },
    {
        match self {
            SourceCommand::Version => 256,
            SourceCommand::Head | SourceCommand::HashBody => 128,
            SourceCommand::ReadBlob { size, .. } => saturating_total(size, 1),
            _ => MAX_GIT_OUTPUT,
        }
    }

    /// What a failure of the command is called.
    pub fn operation(self) -> (operation: RepositoryGitOperation)
        ensures
            operation == match self {
                SourceCommand::Version | SourceCommand::Head => RepositoryGitOperation::DiscoverSource,
                SourceCommand::Tree { .. } => RepositoryGitOperation::ReadSourceTree,
                SourceCommand::Index | SourceCommand::Tags | SourceCommand::MonitorTags => RepositoryGitOperation::ReadSourceIndex,
                SourceCommand::Attributes => RepositoryGitOperation::InspectConfiguration,
                SourceCommand::HashBody | SourceCommand::ReadBlob { .. } => RepositoryGitOperation::ReadSourceObject,
            },
    {
        match self {
            SourceCommand::Version | SourceCommand::Head => RepositoryGitOperation::DiscoverSource,
            SourceCommand::Tree { .. } => RepositoryGitOperation::ReadSourceTree,
            SourceCommand::Index | SourceCommand::Tags | SourceCommand::MonitorTags => RepositoryGitOperation::ReadSourceIndex,
            SourceCommand::Attributes => RepositoryGitOperation::InspectConfiguration,
            SourceCommand::HashBody | SourceCommand::ReadBlob { .. } => RepositoryGitOperation::ReadSourceObject,
        }
    }
}

/// A command on a target that is being made.
#[derive(Clone, Copy)]
pub enum TargetCommand<'a> {
    /// Write the input as a blob.
    WriteBlob,
    /// Fill the index from the input.
    FillIndex,
    /// Write the tree of the index.
    WriteTree,
    /// Write the one commit of a tree, with the input as its message.
    WriteCommit { tree: &'a str },
}

impl<'a> TargetCommand<'a> {
    /// The arguments of the command.
    pub open spec fn argument_texts(self) -> Seq<Seq<char>> {
        match self {
            TargetCommand::WriteBlob => seq!["hash-object"@, "-w"@, "--stdin"@, "--no-filters"@],
            TargetCommand::FillIndex => seq!["update-index"@, "-z"@, "--index-info"@],
            TargetCommand::WriteTree => seq!["write-tree"@],
            TargetCommand::WriteCommit { tree } => seq!["commit-tree"@, tree@],
        }
    }

    /// The arguments of the command.
    pub fn arguments(self) -> (arguments: Vec<&'a str>)
        ensures
            argument_views(arguments@) == self.argument_texts(),
    {
        let arguments: Vec<&'a str> = match self {
            TargetCommand::WriteBlob => vec!["hash-object", "-w", "--stdin", "--no-filters"],
            TargetCommand::FillIndex => vec!["update-index", "-z", "--index-info"],
            TargetCommand::WriteTree => vec!["write-tree"],
            TargetCommand::WriteCommit { tree } => vec!["commit-tree", tree],
        };
        assert(argument_views(arguments@) =~= self.argument_texts());
        arguments
    }

    /// Longest output that is read, in bytes.
    pub fn maximum_output(self) -> (maximum: usize)
        ensures
            maximum == match self {
                TargetCommand::FillIndex => 1024usize,
                _ => 128,
            },
    {
        match self {
            TargetCommand::FillIndex => 1024,
            _ => 128,
        }
    }

    /// What a failure of the command is called.
    pub fn operation(self) -> (operation: RepositoryGitOperation)
        ensures
            operation == RepositoryGitOperation::ConstructTarget,
    {
        RepositoryGitOperation::ConstructTarget
    }
}

} // verus!
