//! Where a source repository keeps its parts, as Git itself sees it.

use crate::bytes::{bytes_equal, slices_view, split_bytes, split_pieces};
use crate::errors::RepositoryImportError;
use crate::git_object::NEWLINE;
use crate::git_output::{dot, is_one_line, one_line, without_line_end, CARRIAGE_RETURN};
use crate::portable_path::{DOT, SLASH};
use crate::source_checks::CommandOutput;
use vstd::prelude::*;
use vstd::string::*;
use vstd::utf8::encode_utf8;

verus! {

/// One question about a source, in the order in which they are asked.
#[derive(Clone, Copy, Debug, PartialEq, Eq, Structural)]
pub enum EndpointQuery {
    ObjectFormat,
    InsideWorkTree,
    Prefix,
    TopLevel,
    GitDirectory,
    CommonDirectory,
    IndexPath,
    ObjectsPath,
    SplitIndex,
    SparseIndex,
    SharedIndex,
}

/// The texts of a list.
pub open spec fn texts(list: Seq<&'static str>) -> Seq<Seq<char>> {
    list.map_values(|text: &'static str| text@)
}

impl EndpointQuery {
    /// The arguments of the Git command that answers the question.
    pub open spec fn argument_texts(self) -> Seq<Seq<char>> {
        match self {
            EndpointQuery::ObjectFormat => seq!["rev-parse"@, "--show-object-format"@],
            EndpointQuery::InsideWorkTree => seq!["rev-parse"@, "--is-inside-work-tree"@],
            EndpointQuery::Prefix => seq!["rev-parse"@, "--show-prefix"@],
            EndpointQuery::TopLevel => seq!["rev-parse"@, "--show-toplevel"@],
            EndpointQuery::GitDirectory => seq!["rev-parse"@, "--absolute-git-dir"@],
            EndpointQuery::CommonDirectory => seq!["rev-parse"@, "--path-format=absolute"@, "--git-common-dir"@],
            EndpointQuery::IndexPath => seq!["rev-parse"@, "--path-format=absolute"@, "--git-path"@, "index"@],
            EndpointQuery::ObjectsPath => seq!["rev-parse"@, "--path-format=absolute"@, "--git-path"@, "objects"@],
            EndpointQuery::SplitIndex => seq![
                "config"@,
                "--type=bool"@,
                "--default=false"@,
                "--get"@,
                "core.splitIndex"@,
            ],
            EndpointQuery::SparseIndex => seq!["config"@, "--type=bool"@, "--default=false"@, "--get"@, "index.sparse"@],
            EndpointQuery::SharedIndex => seq!["rev-parse"@, "--shared-index-path"@],
        }
    }

    /// The arguments of the Git command that answers the question.
    pub fn arguments(self) -> (arguments: Vec<&'static str>)
        ensures
            texts(arguments@) == self.argument_texts(),
    {
        let arguments: Vec<&'static str> = match self {
            EndpointQuery::ObjectFormat => vec!["rev-parse", "--show-object-format"],
            EndpointQuery::InsideWorkTree => vec!["rev-parse", "--is-inside-work-tree"],
            EndpointQuery::Prefix => vec!["rev-parse", "--show-prefix"],
            EndpointQuery::TopLevel => vec!["rev-parse", "--show-toplevel"],
            EndpointQuery::GitDirectory => vec!["rev-parse", "--absolute-git-dir"],
            EndpointQuery::CommonDirectory => vec!["rev-parse", "--path-format=absolute", "--git-common-dir"],
            EndpointQuery::IndexPath => vec!["rev-parse", "--path-format=absolute", "--git-path", "index"],
            EndpointQuery::ObjectsPath => vec!["rev-parse", "--path-format=absolute", "--git-path", "objects"],
            EndpointQuery::SplitIndex => vec!["config", "--type=bool", "--default=false", "--get", "core.splitIndex"],
            EndpointQuery::SparseIndex => vec!["config", "--type=bool", "--default=false", "--get", "index.sparse"],
            EndpointQuery::SharedIndex => vec!["rev-parse", "--shared-index-path"],
        };
        assert(texts(arguments@) =~= self.argument_texts());
        arguments
    }

    /// Longest answer that is read, in bytes.
    pub fn maximum_output(self) -> (maximum: usize)
        ensures
            maximum == match self {
                EndpointQuery::ObjectFormat => 32usize,
                EndpointQuery::InsideWorkTree | EndpointQuery::SplitIndex | EndpointQuery::SparseIndex => 16,
                EndpointQuery::Prefix | EndpointQuery::SharedIndex => 4096,
                _ => 16_384,
            },
    {
        match self {
            EndpointQuery::ObjectFormat => 32,
            EndpointQuery::InsideWorkTree | EndpointQuery::SplitIndex | EndpointQuery::SparseIndex => 16,
            EndpointQuery::Prefix | EndpointQuery::SharedIndex => 4096,
            _ => 16_384,
        }
    }
}

/// Require the answer to a question to be one given line.
pub open spec fn line_error(output: CommandOutput, expected: Seq<char>) -> Option<RepositoryImportError> {
    match output {
        Err(error) => Some(error),
        Ok(bytes) => if !is_one_line(bytes@) {
            Some(RepositoryImportError::MalformedGitOutput)
        } else if without_line_end(bytes@) != encode_utf8(expected) {
            Some(RepositoryImportError::UnsupportedSourceRepository)
        } else {
            None
        },
    }
}

fn require_line(output: &CommandOutput, expected: &str) -> (r: Result<(), RepositoryImportError>)
    ensures
        match line_error(*output, expected@) {
            Some(error) => r matches Err(e) && e == error,
            None => r is Ok,
        },
{
    match output {
        Err(error) => Err(*error),
        Ok(bytes) => {
            let line = one_line(bytes.as_slice())?;
            if bytes_equal(line.as_bytes(), expected.as_bytes()) {
                Ok(())
            } else {
                Err(RepositoryImportError::UnsupportedSourceRepository)
            }
        },
    }
}

/// An output is an empty line.
pub open spec fn empty_line(output: Seq<u8>) -> bool {
    output == seq![NEWLINE] || output == seq![CARRIAGE_RETURN, NEWLINE]
}

fn is_empty_line(output: &[u8]) -> (r: bool)
    ensures
        r == empty_line(output@),
{
    let r = (output.len() == 1 && output[0] == NEWLINE) || (output.len() == 2 && output[0] == CARRIAGE_RETURN && output[1]
        == NEWLINE);
    proof {
        if output@.len() == 1 && output@[0] == NEWLINE {
            assert(output@ =~= seq![NEWLINE]);
        }
        if output@.len() == 2 && output@[0] == CARRIAGE_RETURN && output@[1] == NEWLINE {
            assert(output@ =~= seq![CARRIAGE_RETURN, NEWLINE]);
        }
    }
    r
}

/// Why the answer to a question for a path is refused, if it is.
pub open spec fn path_answer_error(output: CommandOutput) -> Option<RepositoryImportError> {
    match output {
        Err(error) => Some(error),
        Ok(bytes) => if !is_one_line(bytes@) || without_line_end(bytes@).len() == 0 {
            Some(RepositoryImportError::MalformedGitOutput)
        } else {
            None
        },
    }
}

/// The path in the answer to a question.
pub fn command_path(output: &CommandOutput) -> (r: Result<&str, RepositoryImportError>)
    ensures
        match path_answer_error(*output) {
            Some(error) => r matches Err(e) && e == error,
            None => r matches Ok(path) && path.spec_bytes() == without_line_end(output->Ok_0@),
        },
{
    match output {
        Err(error) => Err(*error),
        Ok(bytes) => {
            let line = one_line(bytes.as_slice())?;
            if line.as_bytes().len() == 0 {
                return Err(RepositoryImportError::MalformedGitOutput);
            }
            Ok(line)
        },
    }
}

/// The components of a path: what stands between slashes, but for empty parts and `.`. A
/// leading `.` of a relative path counts.
pub open spec fn path_parts(path: Seq<u8>) -> Seq<Seq<u8>> {
    kept_parts(split_pieces(path, SLASH), split_pieces(path, SLASH).len() as int)
}

/// The components among the first `n` parts.
pub open spec fn kept_parts(pieces: Seq<Seq<u8>>, n: int) -> Seq<Seq<u8>>
    decreases n,
{
    if n <= 0 {
        Seq::empty()
    } else if pieces[n - 1].len() == 0 || (pieces[n - 1] == dot() && n > 1) {
        kept_parts(pieces, n - 1)
    } else {
        kept_parts(pieces, n - 1).push(pieces[n - 1])
    }
}

/// Both paths begin at the root or neither does, and they have the same components.
pub open spec fn same_location(a: Seq<u8>, b: Seq<u8>) -> bool {
    (a.len() > 0 && a[0] == SLASH) == (b.len() > 0 && b[0] == SLASH) && path_parts(a) == path_parts(b)
}

fn parts_of<'a>(path: &'a [u8]) -> (parts: Vec<&'a [u8]>)
    ensures
        slices_view(parts@) == path_parts(path@),
{
    let pieces = split_bytes(path, SLASH);
    let ghost all = split_pieces(path@, SLASH);
    let mut parts: Vec<&'a [u8]> = Vec::new();
    let mut i: usize = 0;
    assert(slices_view(parts@) =~= Seq::<Seq<u8>>::empty());
    while i < pieces.len()
        invariant
            slices_view(pieces@) == all,
            all == split_pieces(path@, SLASH),
            i <= pieces@.len(),
            slices_view(parts@) == kept_parts(all, i as int),
        decreases pieces@.len() - i,
    {
        let piece = pieces[i];
        assert(all[i as int] == piece@);
        let single_dot = piece.len() == 1 && piece[0] == DOT;
        proof {
            if single_dot {
                assert(piece@ =~= dot());
            }
        }
        if piece.len() != 0 && !(single_dot && i > 0) {
            let ghost before = parts@;
            parts.push(piece);
            assert(slices_view(parts@) =~= slices_view(before).push(piece@));
        }
        i = i + 1;
    }
    parts
}

/// Whether two paths name the same location.
pub fn is_same_location(a: &[u8], b: &[u8]) -> (r: bool)
    ensures
        r == same_location(a@, b@),
{
    let rooted_a = a.len() > 0 && a[0] == SLASH;
    let rooted_b = b.len() > 0 && b[0] == SLASH;
    if rooted_a != rooted_b {
        return false;
    }
    let left = parts_of(a);
    let right = parts_of(b);
    let ghost parts_a = path_parts(a@);
    let ghost parts_b = path_parts(b@);
    assert(parts_a.len() == left@.len() && parts_b.len() == right@.len());
    if left.len() != right.len() {
        return false;
    }
    let mut i: usize = 0;
    while i < left.len()
        invariant
            slices_view(left@) == parts_a,
            slices_view(right@) == parts_b,
            parts_a == path_parts(a@),
            parts_b == path_parts(b@),
            left@.len() == right@.len(),
            i <= left@.len(),
            forall|k: int| 0 <= k < i ==> #[trigger] parts_a[k] == parts_b[k],
        decreases left@.len() - i,
    {
        assert(parts_a[i as int] == left@[i as int]@);
        assert(parts_b[i as int] == right@[i as int]@);
        if !bytes_equal(left[i], right[i]) {
            return false;
        }
        i = i + 1;
    }
    assert(parts_a =~= parts_b);
    true
}

/// The answers to all questions, and where the paths in three of them lead.
pub struct EndpointAnswers {
    pub object_format: CommandOutput,
    pub inside_work_tree: CommandOutput,
    pub prefix: CommandOutput,
    pub top_level: CommandOutput,
    pub git_directory: CommandOutput,
    pub common_directory: CommandOutput,
    pub index_path: CommandOutput,
    pub objects_path: CommandOutput,
    pub split_index: CommandOutput,
    pub sparse_index: CommandOutput,
    pub shared_index: CommandOutput,
    /// The canonical form of the top level, where it has one.
    pub top_level_canonical: Option<String>,
    /// The canonical form of the Git directory, where it has one.
    pub git_directory_canonical: Option<String>,
    /// The canonical form of the common directory, where it has one.
    pub common_directory_canonical: Option<String>,
}

/// A canonical path is a given location.
pub open spec fn leads_to(canonical: Option<String>, location: Seq<char>) -> bool {
    canonical matches Some(path) && same_location(encode_utf8(path@), encode_utf8(location))
}

fn is_leading_to(canonical: &Option<String>, location: &str) -> (r: bool)
    ensures
        r == leads_to(*canonical, location@),
{
    match canonical {
        Some(path) => is_same_location(path.as_str().as_bytes(), location.as_bytes()),
        None => false,
    }
}

/// All parts of the repository stand where they belong.
pub open spec fn parts_in_place(answers: EndpointAnswers, root: Seq<char>, git: Seq<char>, index: Seq<char>, objects: Seq<char>) -> bool {
    &&& leads_to(answers.top_level_canonical, root)
    &&& leads_to(answers.git_directory_canonical, git)
    &&& leads_to(answers.common_directory_canonical, git)
    &&& same_location(without_line_end(answers.index_path->Ok_0@), encode_utf8(index))
    &&& same_location(without_line_end(answers.objects_path->Ok_0@), encode_utf8(objects))
}

/// Why the answers about the layout are refused, if they are.
pub open spec fn layout_error(
    answers: EndpointAnswers,
    root: Seq<char>,
    git: Seq<char>,
    index: Seq<char>,
    objects: Seq<char>,
) -> Option<RepositoryImportError> {
    if path_answer_error(answers.top_level) is Some {
        path_answer_error(answers.top_level)
    } else if path_answer_error(answers.git_directory) is Some {
        path_answer_error(answers.git_directory)
    } else if path_answer_error(answers.common_directory) is Some {
        path_answer_error(answers.common_directory)
    } else if path_answer_error(answers.index_path) is Some {
        path_answer_error(answers.index_path)
    } else if path_answer_error(answers.objects_path) is Some {
        path_answer_error(answers.objects_path)
    } else if !parts_in_place(answers, root, git, index, objects) {
        Some(RepositoryImportError::UnsupportedSourceRepository)
    } else {
        None
    }
}

/// Why the answers about the index are refused, if they are.
pub open spec fn index_mode_error(answers: EndpointAnswers) -> Option<RepositoryImportError> {
    if answers.split_index is Err {
        Some(answers.split_index->Err_0)
    } else if answers.sparse_index is Err {
        Some(answers.sparse_index->Err_0)
    } else if answers.shared_index is Err {
        Some(answers.shared_index->Err_0)
    } else if line_error(answers.split_index, "false"@) is Some {
        line_error(answers.split_index, "false"@)
    } else if line_error(answers.sparse_index, "false"@) is Some {
        line_error(answers.sparse_index, "false"@)
    } else if answers.shared_index->Ok_0@.len() != 0 && !empty_line(answers.shared_index->Ok_0@) {
        Some(RepositoryImportError::UnsupportedSourceRepository)
    } else {
        None
    }
}

/// Why a source is refused for where it keeps its parts, if it is.
pub open spec fn endpoints_error(
    answers: EndpointAnswers,
    root: Seq<char>,
    git: Seq<char>,
    index: Seq<char>,
    objects: Seq<char>,
) -> Option<RepositoryImportError> {
    if line_error(answers.object_format, "sha1"@) is Some {
        line_error(answers.object_format, "sha1"@)
    } else if line_error(answers.inside_work_tree, "true"@) is Some {
        line_error(answers.inside_work_tree, "true"@)
    } else if answers.prefix is Err {
        Some(answers.prefix->Err_0)
    } else if !empty_line(answers.prefix->Ok_0@) {
        Some(RepositoryImportError::UnsupportedSourceRepository)
    } else if layout_error(answers, root, git, index, objects) is Some {
        layout_error(answers, root, git, index, objects)
    } else {
        index_mode_error(answers)
    }
}

fn check_layout(answers: &EndpointAnswers, root: &str, git: &str, index: &str, objects: &str) -> (r: Result<
    (),
    RepositoryImportError,
>)
    ensures
        match layout_error(*answers, root@, git@, index@, objects@) {
            Some(error) => r matches Err(e) && e == error,
            None => r is Ok,
        },
{
    command_path(&answers.top_level)?;
    command_path(&answers.git_directory)?;
    command_path(&answers.common_directory)?;
    let own_index = command_path(&answers.index_path)?;
    let own_objects = command_path(&answers.objects_path)?;
    if !is_leading_to(&answers.top_level_canonical, root) || !is_leading_to(&answers.git_directory_canonical, git)
        || !is_leading_to(&answers.common_directory_canonical, git) || !is_same_location(
        own_index.as_bytes(),
        index.as_bytes(),
    ) || !is_same_location(own_objects.as_bytes(), objects.as_bytes()) {
        return Err(RepositoryImportError::UnsupportedSourceRepository);
    }
    Ok(())
}

fn check_index_mode(answers: &EndpointAnswers) -> (r: Result<(), RepositoryImportError>)
    ensures
        match index_mode_error(*answers) {
            Some(error) => r matches Err(e) && e == error,
            None => r is Ok,
        },
{
    if let Err(error) = &answers.split_index {
        return Err(*error);
    }
    if let Err(error) = &answers.sparse_index {
        return Err(*error);
    }
    let shared = match &answers.shared_index {
        Err(error) => {
            return Err(*error);
        },
        Ok(shared) => shared,
    };
    require_line(&answers.split_index, "false")?;
    require_line(&answers.sparse_index, "false")?;
    if shared.len() != 0 && !is_empty_line(shared.as_slice()) {
        return Err(RepositoryImportError::UnsupportedSourceRepository);
    }
    Ok(())
}

/// Judge where a source keeps its parts: it is the top level of an ordinary SHA-1 worktree with
/// one undivided index, and its Git directory, index and objects are its own. The last three
/// paths are those that the Git directory, the index and the objects must have.
pub fn prove_source_endpoints(answers: &EndpointAnswers, root: &str, git: &str, index: &str, objects: &str) -> (r: Result<
    (),
    RepositoryImportError,
>)
    ensures
        match endpoints_error(*answers, root@, git@, index@, objects@) {
            Some(error) => r matches Err(e) && e == error,
            None => r is Ok,
        },
{
    require_line(&answers.object_format, "sha1")?;
    require_line(&answers.inside_work_tree, "true")?;
    match &answers.prefix {
        Err(error) => {
            return Err(*error);
        },
        Ok(prefix) => {
            if !is_empty_line(prefix.as_slice()) {
                return Err(RepositoryImportError::UnsupportedSourceRepository);
            }
        },
    }
    check_layout(answers, root, git, index, objects)?;
    check_index_mode(answers)
}

} // verus!
