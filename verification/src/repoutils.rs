//! Reading a repository: the log of commits, the blobs of a commit and the
//! lines of a blob.

use vstd::prelude::*;
use vstd::slice::slice_subrange;
use vstd::string::*;
use vstd::utf8::{decode_utf8, encode_utf8_decode_utf8, valid_utf8};
use crate::args::Args;
use crate::error::TrendsError;
use crate::git;
use crate::timestamp::{is_valid_seconds, Timestamp};

verus! {

/// The byte `.`, which starts an extension.
pub const DOT: u8 = 0x2E;

/// The byte that ends a line.
pub const NEWLINE: u8 = 0x0A;

/// Index of the last `byte` in `bytes`, or `-1` if there is none.
pub open spec fn last_index_of(bytes: Seq<u8>, byte: u8) -> int
    decreases bytes.len(),
{
    if bytes.len() == 0 {
        -1
    } else if bytes.last() == byte {
        bytes.len() - 1
    } else {
        last_index_of(bytes.drop_last(), byte)
    }
}

/// The bytes of a file name from its last dot to its end, if it has a dot.
pub open spec fn raw_extension(name: Seq<u8>) -> Option<Seq<u8>> {
    let dot = last_index_of(name, DOT);
    if dot >= 0 {
        Some(name.subrange(dot, name.len() as int))
    } else {
        None
    }
}

/// The extension of a file name: the text from its last dot to its end.
/// A name without a dot has none, and neither has a name whose bytes from
/// the last dot on are not UTF-8.
pub open spec fn extension_of(name: Seq<u8>) -> Option<Seq<char>> {
    match raw_extension(name) {
        Some(bytes) => if valid_utf8(bytes) {
            Some(decode_utf8(bytes))
        } else {
            None
        },
        None => None,
    }
}

/// Whether `ext` is the extension of some file name.
pub open spec fn is_extension(ext: Seq<char>) -> bool {
    exists|name: Seq<u8>| #[trigger] extension_of(name) == Some(ext)
}

/// Number of line terminators in `content`: bytes equal to `NEWLINE`.
pub open spec fn newline_count(content: Seq<u8>) -> nat
    decreases content.len(),
{
    if content.len() == 0 {
        0
    } else {
        newline_count(content.drop_last()) + if content.last() == NEWLINE {
            1nat
        } else {
            0nat
        }
    }
}

/// `last_index_of` is `k` once `k` holds the byte and nothing after it does.
pub proof fn lemma_last_index_of(bytes: Seq<u8>, byte: u8, k: int)
    requires
        -1 <= k < bytes.len(),
        k >= 0 ==> bytes[k] == byte,
        forall|j: int| k < j < bytes.len() ==> bytes[j] != byte,
    ensures
        last_index_of(bytes, byte) == k,
    decreases bytes.len(),
{
    if bytes.len() > 0 && k < bytes.len() - 1 {
        let front = bytes.drop_last();
        assert forall|j: int| k < j < front.len() implies front[j] != byte by {
            assert(front[j] == bytes[j]);
        }
        lemma_last_index_of(front, byte, k);
    }
}

/// `last_index_of` is `-1` or an index that holds the byte.
pub proof fn lemma_last_index_holds_byte(bytes: Seq<u8>, byte: u8)
    ensures
        -1 <= last_index_of(bytes, byte) < bytes.len(),
        last_index_of(bytes, byte) >= 0 ==> bytes[last_index_of(bytes, byte)] == byte,
    decreases bytes.len(),
{
    if bytes.len() > 0 && bytes.last() != byte {
        lemma_last_index_holds_byte(bytes.drop_last(), byte);
    }
}

/// What `is_extension` means for the text: an extension begins with a dot.
pub proof fn lemma_extension_begins_with_dot(ext: Seq<char>)
    requires
        is_extension(ext),
    ensures
        ext.len() >= 1,
        ext[0] == '.',
{
    let name = choose|name: Seq<u8>| #[trigger] extension_of(name) == Some(ext);
    lemma_last_index_holds_byte(name, DOT);
    let dot = last_index_of(name, DOT);
    let bytes = name.subrange(dot, name.len() as int);
    assert(bytes[0] == DOT);
    assert(valid_utf8(bytes));
    assert(ext == decode_utf8(bytes));
    assert(0x2Eu8 & 0x7F == 0x2Eu8) by (bit_vector);
    assert(vstd::utf8::decode_first_scalar(bytes) == 0x2Eu32);
    assert(ext[0] == vstd::utf8::decode_first_scalar(bytes) as char);
}

/// `std::str::from_utf8`, with the error dropped.
///
/// Trusted: the call succeeds exactly on the byte sequences that are valid
/// UTF-8, and the string it gives then consists of these bytes.
#[verifier::external_body]
fn str_from_utf8(bytes: &[u8]) -> (r: Option<&str>)
    ensures
        r is Some <==> valid_utf8(bytes@),
        r is Some ==> r.unwrap().spec_bytes() == bytes@,
{
    std::str::from_utf8(bytes).ok()
}

/// The extension of the file name `raw_name`.
pub fn extension_for_raw_name(raw_name: &[u8]) -> (ext: Option<&str>)
    ensures
        match ext {
            Some(text) => extension_of(raw_name@) == Some(text@),
            None => extension_of(raw_name@) is None,
        },
{
    let mut i: usize = raw_name.len();
    while i > 0 && raw_name[i - 1] != DOT
        invariant
            i <= raw_name@.len(),
            forall|j: int| i <= j < raw_name@.len() ==> raw_name@[j] != DOT,
        decreases i,
    {
        i -= 1;
    }
    proof {
        lemma_last_index_of(raw_name@, DOT, i - 1);
    }
    if i == 0 {
        return None;
    }
    let raw_ext = slice_subrange(raw_name, i - 1, raw_name.len());
    match str_from_utf8(raw_ext) {
        Some(text) => {
            proof {
                encode_utf8_decode_utf8(text@);
            }
            Some(text)
        },
        None => None,
    }
}

/// Counts the line terminators in `content`. A last line without a
/// terminator is not counted.
pub fn count_lines(content: &[u8]) -> (lines: usize)
    ensures
        lines == newline_count(content@),
{
    let mut lines: usize = 0;
    let mut i: usize = 0;
    while i < content.len()
        invariant
            i <= content@.len(),
            lines == newline_count(content@.take(i as int)),
            lines <= i,
        decreases content@.len() - i,
    {
        proof {
            assert(content@.take(i + 1).drop_last() =~= content@.take(i as int));
        }
        if content[i] == NEWLINE {
            lines += 1;
        }
        i += 1;
    }
    assert(content@.take(content@.len() as int) =~= content@);
    lines
}

/// What an entry of a tree is.
#[derive(Clone, Copy, Debug, PartialEq, Eq, Structural)]
pub enum EntryKind {
    /// A file, or a symbolic link.
    Blob,
    /// A directory.
    Tree,
    /// A link to a commit of another repository.
    Commit,
    /// An annotated tag.
    Tag,
    /// Any kind of object.
    Any,
    /// A kind that is not known.
    Unknown,
}

/// One entry met on a walk through the tree of a commit.
pub struct TreeEntry {
    /// What the entry is.
    pub kind: EntryKind,
    /// The file name, without the directories above it, as the tree holds it.
    pub name: Vec<u8>,
    /// The id of the object that the entry names.
    pub id: git2::Oid,
}

/// A file of a commit: the id of its content, and its extension.
pub struct Blob {
    /// The id of the content.
    pub id: git2::Oid,
    /// The extension of the file name.
    pub ext: String,
}

/// The files with an extension among `entries`, each as the id of its
/// content with its extension, in the order of the entries.
pub open spec fn blobs_of(entries: Seq<TreeEntry>) -> Seq<(git2::Oid, Seq<char>)>
    decreases entries.len(),
{
    if entries.len() == 0 {
        Seq::empty()
    } else {
        let rest = blobs_of(entries.drop_last());
        let last = entries.last();
        match extension_of(last.name@) {
            Some(ext) => if last.kind == EntryKind::Blob {
                rest.push((last.id, ext))
            } else {
                rest
            },
            None => rest,
        }
    }
}

/// The blobs as pairs of id and extension.
pub open spec fn blobs_view(blobs: Seq<Blob>) -> Seq<(git2::Oid, Seq<char>)> {
    Seq::new(blobs.len(), |i: int| (blobs[i].id, blobs[i].ext@))
}

/// Picks the files with an extension from the entries of a tree walk.
/// Directories and links to other repositories are left out, and so is a
/// file whose name has no dot or whose extension is not UTF-8.
pub fn blobs_in_entries(entries: &Vec<TreeEntry>) -> (blobs: Vec<Blob>)
    ensures
        blobs_view(blobs@) == blobs_of(entries@),
        forall|i: int| 0 <= i < blobs@.len() ==> is_extension((#[trigger] blobs@[i]).ext@),
{
    let mut blobs: Vec<Blob> = Vec::new();
    let mut i: usize = 0;
    assert(blobs_view(blobs@) =~= blobs_of(entries@.take(0)));
    while i < entries.len()
        invariant
            i <= entries@.len(),
            blobs_view(blobs@) == blobs_of(entries@.take(i as int)),
            forall|k: int| 0 <= k < blobs@.len() ==> is_extension((#[trigger] blobs@[k]).ext@),
        decreases entries@.len() - i,
    {
        let entry = &entries[i];
        let ghost before = blobs_view(blobs@);
        proof {
            assert(entries@.take(i + 1).drop_last() =~= entries@.take(i as int));
            assert(entries@.take(i + 1).last() == entries@[i as int]);
        }
        if entry.kind == EntryKind::Blob {
            match extension_for_raw_name(entry.name.as_slice()) {
                Some(ext) => {
                    assert(extension_of(entry.name@) == Some(ext@));
                    blobs.push(Blob { id: entry.id, ext: ext.to_owned() });
                    assert(blobs_view(blobs@) =~= before.push((entry.id, ext@)));
                },
                None => {},
            }
        }
        i += 1;
    }
    assert(entries@.take(entries@.len() as int) =~= entries@);
    blobs
}

/// Whether a walked commit with the given number of parents and commit time
/// enters the log. A commit with more than one parent is a merge, and is
/// left out unless all parents are followed. A commit whose time lies
/// outside the years that have a calendar date has no date for its row, and
/// is left out.
pub open spec fn enters_log(all_parents: bool, parents: nat, seconds: int) -> bool {
    (all_parents || parents <= 1) && is_valid_seconds(seconds)
}

/// The time under which a walked commit enters the log, or `None` if it is left out.
pub fn log_time(all_parents: bool, parents: usize, seconds: i64) -> (time: Option<Timestamp>)
    ensures
        time is Some <==> enters_log(all_parents, parents as nat, seconds as int),
        time is Some ==> time.unwrap()@ == seconds,
{
    if !all_parents && parents > 1 {
        return None;
    }
    Timestamp::from_seconds(seconds)
}

/// The time under which a commit of the walk enters the log. `found` holds
/// the number of parents and the commit time of a commit that could be
/// opened, and is `None` for one that could not: such a commit is skipped.
pub fn walked_time(all_parents: bool, found: Option<(usize, i64)>) -> (time: Option<Timestamp>)
    ensures
        time is Some <==> found is Some && enters_log(
            all_parents,
            found.unwrap().0 as nat,
            found.unwrap().1 as int,
        ),
        time is Some ==> time.unwrap()@ == found.unwrap().1,
{
    match found {
        Some((parents, seconds)) => log_time(all_parents, parents, seconds),
        None => None,
    }
}

/// The number of line terminators in the content of an object: `content`
/// holds the bytes of a blob, and is `None` for an object that is no blob,
/// which has no lines to count.
pub fn lines_in_content(content: Option<&[u8]>) -> (r: Result<usize, TrendsError>)
    ensures
        match content {
            Some(bytes) => r is Ok && r.unwrap() == newline_count(bytes@),
            None => r is Err && r->Err_0 is ContentNotFound,
        },
{
    match content {
        Some(bytes) => Ok(count_lines(bytes)),
        None => Err(TrendsError::ContentNotFound("the blob was not a blob".to_owned())),
    }
}

/// A commit of the log.
pub struct LogEntry<'repo> {
    /// The commit time.
    pub time: Timestamp,
    /// The number of parents that the commit had when it was walked.
    pub parents: usize,
    /// The commit.
    pub commit: git2::Commit<'repo>,
}

/// A git repository.
pub struct Repo {
    /// The open repository.
    pub repo: git2::Repository,
}

impl Repo {
    /// Opens the repository at `path`.
    pub fn from_path(path: &str) -> (r: Result<Repo, TrendsError>)
        ensures
            r is Err ==> r->Err_0 is RepositoryUnavailable,
    {
        match git::open_repository(path) {
            Ok(repo) => Ok(Repo { repo }),
            Err(e) => Err(TrendsError::RepositoryUnavailable(git::error_text(&e))),
        }
    }

    /// The commits reachable from `args.start_commit`, newest first. Unless
    /// `args.all_parents` is set, only first parents are followed and merges
    /// are left out. A commit that cannot be read is skipped.
    pub fn git_log<'a>(&'a self, args: &Args) -> (r: Result<Vec<LogEntry<'a>>, TrendsError>)
        ensures
            match r {
                Ok(log) => forall|i: int|
                    0 <= i < log@.len() ==> enters_log(
                        args.all_parents,
                        (#[trigger] log@[i]).parents as nat,
                        log@[i].time@,
                    ),
                Err(e) => e is ReferenceNotFound || e is RepositoryUnavailable,
            },
    {
        let mut revwalk = match git::new_revwalk(&self.repo) {
            Ok(revwalk) => revwalk,
            Err(e) => {
                return Err(TrendsError::RepositoryUnavailable(git::error_text(&e)));
            },
        };
        let rev = match git::revparse_single(&self.repo, args.start_commit.as_str()) {
            Ok(rev) => rev,
            Err(e) => {
                return Err(TrendsError::ReferenceNotFound(git::error_text(&e)));
            },
        };
        let start = git::object_id(&rev);
        match git::revwalk_push(&mut revwalk, &start) {
            Ok(()) => {},
            Err(e) => {
                return Err(TrendsError::ReferenceNotFound(git::error_text(&e)));
            },
        }
        if !args.all_parents {
            match git::revwalk_simplify_first_parent(&mut revwalk) {
                Ok(()) => {},
                Err(e) => {
                    return Err(TrendsError::RepositoryUnavailable(git::error_text(&e)));
                },
            }
        }
        let ids = git::revwalk_ids(revwalk);
        let mut log: Vec<LogEntry<'a>> = Vec::new();
        let mut i: usize = 0;
        while i < ids.len()
            invariant
                i <= ids@.len(),
                forall|k: int|
                    0 <= k < log@.len() ==> enters_log(
                        args.all_parents,
                        (#[trigger] log@[k]).parents as nat,
                        log@[k].time@,
                    ),
            decreases ids@.len() - i,
        {
            // A commit that cannot be opened, as in a shallow clone, is none.
            let commit = match &ids[i] {
                Ok(id) => match git::find_commit(&self.repo, id) {
                    Ok(commit) => Some(commit),
                    Err(_) => None,
                },
                Err(_) => None,
            };
            let found = match &commit {
                Some(commit) => Some((git::commit_parent_count(commit), git::commit_committer_seconds(commit))),
                None => None,
            };
            match (walked_time(args.all_parents, found), found, commit) {
                (Some(time), Some((parents, _)), Some(commit)) => {
                    log.push(LogEntry { time, parents, commit });
                },
                _ => {},
            }
            i += 1;
        }
        Ok(log)
    }

    /// The files with an extension in the tree of `commit`, in post-order.
    /// Whatever the tree holds, each blob has the extension of a file name.
    pub fn get_blobs_in_commit(&self, commit: &git2::Commit<'_>) -> (r: Result<Vec<Blob>, TrendsError>)
        ensures
            match r {
                Ok(blobs) => forall|i: int| 0 <= i < blobs@.len() ==> is_extension((#[trigger] blobs@[i]).ext@),
                Err(e) => e is RepositoryUnavailable,
            },
    {
        let tree = match git::commit_tree(commit) {
            Ok(tree) => tree,
            Err(e) => {
                return Err(TrendsError::RepositoryUnavailable(git::error_text(&e)));
            },
        };
        match git::tree_walk_post_order(&tree) {
            Ok(entries) => Ok(blobs_in_entries(&entries)),
            Err(e) => Err(TrendsError::RepositoryUnavailable(git::error_text(&e))),
        }
    }

    /// The number of line terminators in the blob `blobid`.
    pub fn get_lines_in_blob(&self, blobid: &git2::Oid) -> (r: Result<usize, TrendsError>)
        ensures
            r is Err ==> r->Err_0 is ContentNotFound,
    {
        let object = match git::find_blob_object(&self.repo, blobid) {
            Ok(object) => object,
            Err(e) => {
                return Err(TrendsError::ContentNotFound(git::error_text(&e)));
            },
        };
        lines_in_content(git::object_blob_content(&object))
    }
}

} // verus!
