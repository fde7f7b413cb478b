//! The calls into `git2`. What they return depends on the repository on
//! disk, so none of them promises anything about its result.

use vstd::prelude::*;
use crate::repoutils::{EntryKind, TreeEntry};

verus! {

#[verifier::external_type_specification]
#[verifier::external_body]
pub struct ExRepository(git2::Repository);

#[verifier::external_type_specification]
#[verifier::external_body]
pub struct ExOid(git2::Oid);

#[verifier::external_type_specification]
#[verifier::external_body]
pub struct ExError(git2::Error);

#[verifier::external_type_specification]
#[verifier::external_body]
pub struct ExObjectType(git2::ObjectType);

#[verifier::external_type_specification]
#[verifier::external_body]
pub struct ExCommit<'repo>(git2::Commit<'repo>);

#[verifier::external_type_specification]
#[verifier::external_body]
pub struct ExTree<'repo>(git2::Tree<'repo>);

#[verifier::external_type_specification]
#[verifier::external_body]
pub struct ExObject<'repo>(git2::Object<'repo>);

#[verifier::external_type_specification]
#[verifier::external_body]
pub struct ExRevwalk<'repo>(git2::Revwalk<'repo>);

/// `git2::Repository::open`.
#[verifier::external_body]
pub(crate) fn open_repository(path: &str) -> Result<git2::Repository, git2::Error> {
    git2::Repository::open(path)
}

/// `git2::Repository::revwalk`.
#[verifier::external_body]
pub(crate) fn new_revwalk<'a>(repo: &'a git2::Repository) -> Result<git2::Revwalk<'a>, git2::Error> {
    repo.revwalk()
}

/// `git2::Repository::revparse_single`.
#[verifier::external_body]
pub(crate) fn revparse_single<'a>(repo: &'a git2::Repository, spec: &str) -> Result<
    git2::Object<'a>,
    git2::Error,
> {
    repo.revparse_single(spec)
}

/// `git2::Object::id`.
#[verifier::external_body]
pub(crate) fn object_id(object: &git2::Object<'_>) -> git2::Oid {
    object.id()
}

/// `git2::Object::peel_to_commit`.
#[verifier::external_body]
pub(crate) fn object_peel_to_commit<'a>(object: &git2::Object<'a>) -> Result<git2::Commit<'a>, git2::Error> {
    object.peel_to_commit()
}

/// `git2::Revwalk::push`.
#[verifier::external_body]
pub(crate) fn revwalk_push(revwalk: &mut git2::Revwalk<'_>, id: &git2::Oid) -> Result<(), git2::Error> {
    revwalk.push(*id)
}

/// `git2::Revwalk::simplify_first_parent`.
#[verifier::external_body]
pub(crate) fn revwalk_simplify_first_parent(revwalk: &mut git2::Revwalk<'_>) -> Result<(), git2::Error> {
    revwalk.simplify_first_parent()
}

/// `git2::Revwalk` as an iterator, run to its end: what each call of `next`
/// gave, in order.
#[verifier::external_body]
pub(crate) fn revwalk_ids(revwalk: git2::Revwalk<'_>) -> Vec<Result<git2::Oid, git2::Error>> {
    revwalk.collect()
}

/// `git2::Repository::find_commit`.
#[verifier::external_body]
pub(crate) fn find_commit<'a>(repo: &'a git2::Repository, id: &git2::Oid) -> Result<
    git2::Commit<'a>,
    git2::Error,
> {
    repo.find_commit(*id)
}

/// `git2::Commit::parent_count`.
#[verifier::external_body]
pub(crate) fn commit_parent_count(commit: &git2::Commit<'_>) -> usize {
    commit.parent_count()
}

/// `git2::Commit::committer`, and of that signature `when` and `seconds`:
/// the commit time in seconds since the Unix epoch.
#[verifier::external_body]
pub(crate) fn commit_committer_seconds(commit: &git2::Commit<'_>) -> i64 {
    commit.committer().when().seconds()
}

/// `git2::Commit::tree`.
#[verifier::external_body]
pub(crate) fn commit_tree<'a>(commit: &git2::Commit<'a>) -> Result<git2::Tree<'a>, git2::Error> {
    commit.tree()
}

/// Tells the variants of `git2::ObjectType` apart.
#[verifier::external_body]
pub(crate) fn entry_kind_of(kind: Option<git2::ObjectType>) -> EntryKind {
    match kind {
        Some(git2::ObjectType::Blob) => EntryKind::Blob,
        Some(git2::ObjectType::Tree) => EntryKind::Tree,
        Some(git2::ObjectType::Commit) => EntryKind::Commit,
        Some(git2::ObjectType::Tag) => EntryKind::Tag,
        Some(git2::ObjectType::Any) => EntryKind::Any,
        None => EntryKind::Unknown,
    }
}

/// `git2::Tree::walk` in post-order: the kind, the raw name and the id of
/// each entry that the walk visits, in the order of the visits.
#[verifier::external_body]
pub(crate) fn tree_walk_post_order(tree: &git2::Tree<'_>) -> Result<Vec<TreeEntry>, git2::Error> {
    let mut entries = Vec::new();
    tree.walk(git2::TreeWalkMode::PostOrder, |_, entry| {
        entries.push(TreeEntry {
            kind: entry_kind_of(entry.kind()),
            name: entry.name_bytes().to_vec(),
            id: entry.id(),
        });
        git2::TreeWalkResult::Ok
    })?;
    Ok(entries)
}

/// `git2::Repository::find_object`, asked for a blob.
#[verifier::external_body]
pub(crate) fn find_blob_object<'a>(repo: &'a git2::Repository, id: &git2::Oid) -> Result<
    git2::Object<'a>,
    git2::Error,
> {
    repo.find_object(*id, Some(git2::ObjectType::Blob))
}

/// `git2::Object::as_blob`, and of the blob it gives `content`: the bytes
/// of the object, if the object is a blob.
#[verifier::external_body]
pub(crate) fn object_blob_content<'a>(object: &'a git2::Object<'_>) -> Option<&'a [u8]> {
    object.as_blob().map(|blob| blob.content())
}

/// The text of a `git2::Error`, as its `Display` gives it.
#[verifier::external_body]
pub(crate) fn error_text(error: &git2::Error) -> String {
    error.to_string()
}

} // verus!
