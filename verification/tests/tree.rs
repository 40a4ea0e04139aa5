use fixtures::tree::{BulkRepoBuilder, TreeNode};
use git2::{FileMode, Oid, Repository, Signature, Time};
use tempfile::TempDir;

fn init_repo() -> (TempDir, Repository) {
    let tmp = TempDir::new().unwrap();
    let repo = Repository::init(tmp.path()).unwrap();
    (tmp, repo)
}

/// Writes every stale directory of `root`, deepest first, and returns the
/// root tree's id.
fn write(root: &mut TreeNode, repo: &Repository) -> Oid {
    while let Some(job) = root.pending_tree() {
        let mut builder = repo.treebuilder(None).unwrap();
        for item in &job.items {
            let mode = if item.is_tree { FileMode::Tree } else { FileMode::Blob };
            builder.insert(&item.name, item.id, mode.into()).unwrap();
        }
        let written = builder.write().unwrap();
        root.record_tree(&job.dir, written);
    }
    root.cached_oid().unwrap()
}

fn builder_set_file(b: &mut BulkRepoBuilder, repo: &Repository, path: &str, content: &[u8]) {
    let blob = repo.blob(content).unwrap();
    b.set_file(path, blob).unwrap();
}

fn builder_append_dummy(b: &mut BulkRepoBuilder, repo: &Repository, path: &str) {
    let content = b.append_dummy(path);
    let blob = repo.blob(&content).unwrap();
    b.set_file(path, blob).unwrap();
}

fn builder_commit(
    b: &mut BulkRepoBuilder,
    repo: &Repository,
    parent: Option<Oid>,
    msg: &str,
    time: &Time,
) -> Oid {
    while let Some(job) = b.pending_tree() {
        let mut tb = repo.treebuilder(None).unwrap();
        for item in &job.items {
            let mode = if item.is_tree { FileMode::Tree } else { FileMode::Blob };
            tb.insert(&item.name, item.id, mode.into()).unwrap();
        }
        let written = tb.write().unwrap();
        b.record_tree(&job.dir, written);
    }
    let tree = repo.find_tree(b.root_tree().unwrap()).unwrap();
    let s = Signature::new("Test", "test@test.com", time).unwrap();
    match parent {
        Some(pid) => {
            let p = repo.find_commit(pid).unwrap();
            repo.commit(Some("HEAD"), &s, &s, msg, &tree, &[&p]).unwrap()
        }
        None => repo.commit(Some("HEAD"), &s, &s, msg, &tree, &[]).unwrap(),
    }
}

#[test]
fn insert_blob_flat() {
    let (_tmp, repo) = init_repo();
    let blob = repo.blob(b"hello").unwrap();

    let mut root = TreeNode::new();
    root.insert_blob("file.txt", blob).unwrap();

    let tree_oid = write(&mut root, &repo);
    let tree = repo.find_tree(tree_oid).unwrap();
    assert!(tree.get_name("file.txt").is_some());
}

#[test]
fn insert_blob_nested() {
    let (_tmp, repo) = init_repo();
    let blob = repo.blob(b"data").unwrap();

    let mut root = TreeNode::new();
    root.insert_blob("a/b/c.txt", blob).unwrap();

    let tree_oid = write(&mut root, &repo);
    let tree = repo.find_tree(tree_oid).unwrap();

    let a_entry = tree.get_name("a").unwrap();
    let a_tree = repo.find_tree(a_entry.id()).unwrap();
    let b_entry = a_tree.get_name("b").unwrap();
    let b_tree = repo.find_tree(b_entry.id()).unwrap();
    assert!(b_tree.get_name("c.txt").is_some());
}

#[test]
fn insert_blob_overwrites_same_path() {
    let (_tmp, repo) = init_repo();
    let blob1 = repo.blob(b"v1").unwrap();
    let blob2 = repo.blob(b"v2").unwrap();

    let mut root = TreeNode::new();
    root.insert_blob("f.txt", blob1).unwrap();
    root.insert_blob("f.txt", blob2).unwrap();

    let tree_oid = write(&mut root, &repo);
    let tree = repo.find_tree(tree_oid).unwrap();
    let entry = tree.get_name("f.txt").unwrap();
    let obj = repo.find_blob(entry.id()).unwrap();
    assert_eq!(obj.content(), b"v2");
}

#[test]
fn cached_oid_invalidated_on_insert() {
    let (_tmp, repo) = init_repo();
    let blob1 = repo.blob(b"first").unwrap();
    let blob2 = repo.blob(b"second").unwrap();

    let mut root = TreeNode::new();
    root.insert_blob("a.txt", blob1).unwrap();
    let oid1 = write(&mut root, &repo);

    root.insert_blob("b.txt", blob2).unwrap();
    let oid2 = write(&mut root, &repo);

    assert_ne!(oid1, oid2);
}

#[test]
fn insert_blob_conflicts_with_existing_blob() {
    let (_tmp, repo) = init_repo();
    let blob = repo.blob(b"x").unwrap();

    let mut root = TreeNode::new();
    root.insert_blob("f", blob).unwrap();
    // Try to insert a nested path where "f" is already a blob
    let err = root.insert_blob("f/g.txt", blob).unwrap_err();
    assert!(err.message().contains("path conflict"));
}

#[test]
fn conflict_message_names_the_blocking_file() {
    let (_tmp, repo) = init_repo();
    let blob = repo.blob(b"x").unwrap();
    let mut root = TreeNode::new();
    root.insert_blob("a/f", blob).unwrap();
    let err = root.insert_blob("a/f/g/h.txt", blob).unwrap_err();
    assert_eq!(
        err.message(),
        "path conflict: 'f' is a blob, not a tree (while inserting 'f/g/h.txt')"
    );
}

#[test]
fn writing_twice_reuses_the_tree() {
    let (_tmp, repo) = init_repo();
    let blob = repo.blob(b"x").unwrap();
    let mut root = TreeNode::new();
    root.insert_blob("a/b.txt", blob).unwrap();
    let first = write(&mut root, &repo);
    assert!(root.pending_tree().is_none());
    assert_eq!(write(&mut root, &repo), first);
}

#[test]
fn a_file_replaces_a_directory() {
    let (_tmp, repo) = init_repo();
    let blob = repo.blob(b"x").unwrap();
    let mut root = TreeNode::new();
    root.insert_blob("d/inner.txt", blob).unwrap();
    root.insert_blob("d", blob).unwrap();
    let tree = repo.find_tree(write(&mut root, &repo)).unwrap();
    let entry = tree.get_name("d").unwrap();
    assert_eq!(entry.kind(), Some(git2::ObjectType::Blob));
}

#[test]
fn empty_tree_is_written() {
    let (_tmp, repo) = init_repo();
    let mut root = TreeNode::new();
    let tree = repo.find_tree(write(&mut root, &repo)).unwrap();
    assert_eq!(tree.len(), 0);
}

#[test]
fn builder_set_file_and_commit() {
    let (_tmp, repo) = init_repo();
    let mut builder = BulkRepoBuilder::new();
    let time = Time::new(1_700_000_000, 0);

    builder_set_file(&mut builder, &repo, "README.md", b"# hello");
    let oid = builder_commit(&mut builder, &repo, None, "initial commit", &time);

    let commit = repo.find_commit(oid).unwrap();
    assert_eq!(commit.message().ok(), Some("initial commit"));

    let tree = commit.tree().unwrap();
    assert!(tree.get_name("README.md").is_some());
}

#[test]
fn builder_append_dummy_accumulates() {
    let (_tmp, repo) = init_repo();
    let mut builder = BulkRepoBuilder::new();
    let time = Time::new(1_700_000_000, 0);

    builder_append_dummy(&mut builder, &repo, "src/main.rs");
    let c1 = builder_commit(&mut builder, &repo, None, "first", &time);

    builder_append_dummy(&mut builder, &repo, "src/main.rs");
    let c2 = builder_commit(&mut builder, &repo, Some(c1), "second", &time);

    // The two commits should have different trees (file content changed)
    let t1 = repo.find_commit(c1).unwrap().tree_id();
    let t2 = repo.find_commit(c2).unwrap().tree_id();
    assert_ne!(t1, t2);
}

#[test]
fn builder_commit_chain() {
    let (_tmp, repo) = init_repo();
    let mut builder = BulkRepoBuilder::new();
    let time = Time::new(1_700_000_000, 0);

    builder_set_file(&mut builder, &repo, "f.txt", b"a");
    let c1 = builder_commit(&mut builder, &repo, None, "c1", &time);

    builder_set_file(&mut builder, &repo, "f.txt", b"b");
    let c2 = builder_commit(&mut builder, &repo, Some(c1), "c2", &time);

    let commit2 = repo.find_commit(c2).unwrap();
    assert_eq!(commit2.parent_count(), 1);
    assert_eq!(commit2.parent_id(0).unwrap(), c1);
}

#[test]
fn dummy_content_grows_by_one_line() {
    let mut builder = BulkRepoBuilder::new();
    assert_eq!(builder.append_dummy("x"), b"change\n".to_vec());
    assert_eq!(builder.append_dummy("y"), b"change\n".to_vec());
    assert_eq!(builder.append_dummy("x"), b"change\nchange\n".to_vec());
}

/// Writes every stale directory of `root` and returns the directories in the
/// order they were written.
fn written_dirs(root: &mut TreeNode, repo: &Repository) -> Vec<Vec<String>> {
    let mut dirs = Vec::new();
    while let Some(job) = root.pending_tree() {
        let mut builder = repo.treebuilder(None).unwrap();
        for item in &job.items {
            let mode = if item.is_tree { FileMode::Tree } else { FileMode::Blob };
            builder.insert(&item.name, item.id, mode.into()).unwrap();
        }
        let written = builder.write().unwrap();
        root.record_tree(&job.dir, written);
        dirs.push(job.dir.clone());
    }
    dirs
}

#[test]
fn writing_takes_one_round_per_stale_directory() {
    let (_tmp, repo) = init_repo();
    let blob = repo.blob(b"x").unwrap();
    let mut root = TreeNode::new();
    root.insert_blob("a/b/c.txt", blob).unwrap();
    root.insert_blob("x/z.txt", blob).unwrap();
    root.insert_blob("d.txt", blob).unwrap();
    let dirs = written_dirs(&mut root, &repo);
    assert_eq!(dirs.len(), 4);
    assert_eq!(dirs.last().unwrap(), &Vec::<String>::new());

    // Only the directories on the path of a new file become stale again.
    root.insert_blob("x/y.txt", blob).unwrap();
    let dirs = written_dirs(&mut root, &repo);
    assert_eq!(dirs, vec![vec!["x".to_string()], Vec::<String>::new()]);
}

#[test]
fn failed_insert_leaves_the_written_tree_unchanged() {
    let (_tmp, repo) = init_repo();
    let blob = repo.blob(b"x").unwrap();
    let mut root = TreeNode::new();
    root.insert_blob("f", blob).unwrap();
    let before = write(&mut root, &repo);
    assert!(root.insert_blob("f/g.txt", blob).is_err());
    assert_eq!(write(&mut root, &repo), before);
    let tree = repo.find_tree(before).unwrap();
    assert_eq!(tree.len(), 1);
}

#[test]
fn nested_insert_writes_only_the_directories_on_its_path() {
    let (_tmp, repo) = init_repo();
    let blob = repo.blob(b"data").unwrap();
    let mut root = TreeNode::new();
    root.insert_blob("a/b/c.txt", blob).unwrap();
    let tree = repo.find_tree(write(&mut root, &repo)).unwrap();
    assert_eq!(tree.len(), 1);
    let a = repo.find_tree(tree.get_name("a").unwrap().id()).unwrap();
    assert_eq!(a.len(), 1);
    let b = repo.find_tree(a.get_name("b").unwrap().id()).unwrap();
    assert_eq!(b.len(), 1);
    assert_eq!(b.get_name("c.txt").unwrap().id(), blob);
}
