//! An incremental git tree: files are inserted by slash-separated path, and
//! each directory remembers the id of its tree object until an insert below it
//! makes it stale. A repository writer asks for the stale directories one by
//! one, deepest first, writes their tree objects and records the ids.
use vstd::prelude::*;

use crate::text::find_char;
use git2::Oid;

verus! {

/// `git2::Oid`, the id of a git object. The tree only carries ids from the
/// repository to the tree objects written there and compares them for
/// equality in its contracts; it never looks inside one.
#[verifier::external_type_specification]
#[verifier::external_body]
pub struct ExOid(git2::Oid);

/// A directory entry: a file's blob, or a subdirectory.
#[derive(Debug)]
pub enum TreeEntry {
    Blob(Oid),
    Tree(TreeNode),
}

/// A directory: named entries, and the id of its tree object while that is
/// still current.
#[derive(Debug)]
pub struct TreeNode {
    entries: Vec<(String, TreeEntry)>,
    cached_oid: Option<Oid>,
}

/// Why a file could not be inserted.
#[derive(Debug)]
pub enum TreeError {
    /// Directory `dir` on the way is a file; `path` is what remained to insert
    /// below the directory that holds it.
    PathConflict { dir: String, path: String },
}

/// Model of a `TreeError`.
pub enum TreeErrorModel {
    PathConflict { dir: Seq<char>, path: Seq<char> },
}

impl DeepView for TreeError {
    type V = TreeErrorModel;

    open spec fn deep_view(&self) -> TreeErrorModel {
        match self {
            TreeError::PathConflict { dir, path } => TreeErrorModel::PathConflict {
                dir: dir@,
                path: path@,
            },
        }
    }
}

/// The text shown for a tree error.
pub open spec fn tree_error_message(e: TreeErrorModel) -> Seq<char> {
    match e {
        TreeErrorModel::PathConflict { dir, path } => "path conflict: '"@ + dir
            + "' is a blob, not a tree (while inserting '"@ + path + "')"@,
    }
}

impl TreeError {
    /// The text shown for this error.
    pub fn message(&self) -> (m: String)
        ensures
            m@ == tree_error_message(self.deep_view()),
    {
        match self {
            TreeError::PathConflict { dir, path } => {
                let mut m = String::from_str("path conflict: '");
                m.append(dir.as_str());
                m.append("' is a blob, not a tree (while inserting '");
                m.append(path.as_str());
                m.append("')");
                m
            },
        }
    }
}

/// `p` holds a slash.
pub open spec fn has_slash(p: Seq<char>) -> bool {
    exists|k: int| 0 <= k < p.len() && p[k] == '/'
}

/// The index of the first slash of `p` (meaningful when it has one).
pub open spec fn first_slash(p: Seq<char>) -> int {
    choose|k: int| 0 <= k < p.len() && p[k] == '/' && forall|j: int| 0 <= j < k ==> p[j] != '/'
}

/// The components of a slash-separated path, empty components included.
pub open spec fn path_components(p: Seq<char>) -> Seq<Seq<char>>
    decreases p.len(),
{
    if has_slash(p) {
        let k = first_slash(p);
        if 0 <= k < p.len() {
            seq![p.take(k)] + path_components(p.skip(k + 1))
        } else {
            seq![p]
        }
    } else {
        seq![p]
    }
}

/// The entry named `name`, if any.
pub open spec fn entry_of(entries: Seq<(String, TreeEntry)>, name: Seq<char>) -> Option<TreeEntry> {
    if exists|k: int| 0 <= k < entries.len() && entries[k].0@ == name {
        Some(entries[choose|k: int| 0 <= k < entries.len() && entries[k].0@ == name].1)
    } else {
        None
    }
}

/// No two entries share a name.
pub open spec fn names_unique(entries: Seq<(String, TreeEntry)>) -> bool {
    forall|i: int, j: int|
        0 <= i < entries.len() && 0 <= j < entries.len() && i != j ==> #[trigger] entries[i].0@
            != #[trigger] entries[j].0@
}

impl TreeNode {
    /// No directory holds two entries of one name.
    pub closed spec fn wf(self) -> bool
        decreases self,
    {
        &&& names_unique(self.entries@)
        &&& forall|i: int|
            0 <= i < self.entries@.len() ==> match #[trigger] self.entries@[i].1 {
                TreeEntry::Tree(c) => c.wf(),
                _ => true,
            }
    }

    /// The id of this directory's tree object, while it is current.
    pub closed spec fn cached(self) -> Option<Oid> {
        self.cached_oid
    }

    /// The entries of this directory.
    pub closed spec fn entries(self) -> Seq<(String, TreeEntry)> {
        self.entries@
    }

    /// The blob of the file at path `p` (its components), if there is one.
    pub closed spec fn file_at(self, p: Seq<Seq<char>>) -> Option<Oid>
        decreases p.len(),
    {
        if p.len() == 0 {
            None
        } else {
            match entry_of(self.entries@, p[0]) {
                Some(TreeEntry::Blob(o)) => if p.len() == 1 {
                    Some(o)
                } else {
                    None
                },
                Some(TreeEntry::Tree(c)) => c.file_at(p.drop_first()),
                None => None,
            }
        }
    }

    /// The directory at path `d` (its components), if there is one.
    pub closed spec fn dir_at(self, d: Seq<Seq<char>>) -> Option<TreeNode>
        decreases d.len(),
    {
        if d.len() == 0 {
            Some(self)
        } else {
            match entry_of(self.entries@, d[0]) {
                Some(TreeEntry::Tree(c)) => c.dir_at(d.drop_first()),
                _ => None,
            }
        }
    }

    /// Where inserting at `p` fails: the first directory on the way that is
    /// a file, with the rest of the path at the level that holds it.
    pub closed spec fn conflict(self, p: Seq<char>) -> Option<(Seq<char>, Seq<char>)>
        decreases p.len(),
    {
        if has_slash(p) && 0 <= first_slash(p) < p.len() {
            let k = first_slash(p);
            match entry_of(self.entries@, p.take(k)) {
                Some(TreeEntry::Blob(_)) => Some((p.take(k), p)),
                Some(TreeEntry::Tree(c)) => c.conflict(p.skip(k + 1)),
                None => None,
            }
        } else {
            None
        }
    }

    /// An empty directory.
    pub fn new() -> (n: TreeNode)
        ensures
            n.wf(),
            n.cached() is None,
            n.entries().len() == 0,
            forall|d: Seq<Seq<char>>| d.len() > 0 ==> n.dir_at(d) is None,
            forall|p: Seq<Seq<char>>| n.file_at(p) is None,
            forall|p: Seq<char>| n.conflict(p) is None,
    {
        let n = TreeNode { entries: Vec::new(), cached_oid: None };
        assert forall|d: Seq<Seq<char>>| d.len() > 0 implies n.dir_at(d) is None by {
            assert(entry_of(n.entries@, d[0]) is None);
        }
        assert forall|p: Seq<Seq<char>>| n.file_at(p) is None by {
            if p.len() > 0 {
                assert(entry_of(n.entries@, p[0]) is None);
            }
        }
        assert forall|p: Seq<char>| n.conflict(p) is None by {
            if has_slash(p) && 0 <= first_slash(p) < p.len() {
                assert(entry_of(n.entries@, p.take(first_slash(p))) is None);
            }
        }
        n
    }

    /// The index of the entry named `name`, if any.
    fn position_of(&self, name: &str) -> (r: Option<usize>)
        ensures
            match r {
                Some(k) => k < self.entries@.len() && self.entries@[k as int].0@ == name@,
                None => forall|k: int|
                    0 <= k < self.entries@.len() ==> self.entries@[k].0@ != name@,
            },
    {
        let mut k: usize = 0;
        while k < self.entries.len()
            invariant
                k <= self.entries@.len(),
                forall|j: int| 0 <= j < k ==> self.entries@[j].0@ != name@,
            decreases self.entries.len() - k,
        {
            if crate::text::same_text(self.entries[k].0.as_str(), name) {
                return Some(k);
            }
            k = k + 1;
        }
        None
    }
}

/// `c` is a prefix of `q`.
pub open spec fn prefix_of(c: Seq<Seq<char>>, q: Seq<Seq<char>>) -> bool {
    c.len() <= q.len() && forall|i: int| 0 <= i < c.len() ==> c[i] == q[i]
}

/// The file at `q` after a blob was stored at `c`: the blob at `c`, nothing
/// below `c`, anything else as before.
pub open spec fn after_insert(before: Option<Oid>, q: Seq<Seq<char>>, c: Seq<Seq<char>>, blob: Oid) -> Option<Oid> {
    if q == c {
        Some(blob)
    } else if prefix_of(c, q) {
        None
    } else {
        before
    }
}

/// Whether there is a directory at `q` after a blob was stored at `c`: the
/// directories on the way to `c` are there, `c` and everything below it are
/// not, anything else as before.
pub open spec fn dir_after_insert(before: bool, q: Seq<Seq<char>>, c: Seq<Seq<char>>) -> bool {
    if prefix_of(q, c) && q.len() < c.len() {
        true
    } else if prefix_of(c, q) {
        false
    } else {
        before
    }
}

/// `q` is neither on the way to `c` nor at or below it.
pub open spec fn off_path(q: Seq<Seq<char>>, c: Seq<Seq<char>>) -> bool {
    !prefix_of(q, c) && !prefix_of(c, q)
}

/// The directory and rest of path that a conflict error names.
pub open spec fn conflict_parts(e: TreeErrorModel) -> (Seq<char>, Seq<char>) {
    match e {
        TreeErrorModel::PathConflict { dir, path } => (dir, path),
    }
}

impl TreeNode {
    /// Stores `blob` as the file at slash-separated `path`, creating the
    /// directories on the way; a file already at `path` (or a directory, with
    /// everything in it) is replaced. Fails, changing no file, when a directory
    /// on the way is a file. Either way every directory on the way (this one
    /// included) loses its tree object id.
    pub fn insert_blob(&mut self, path: &str, blob: Oid) -> (r: Result<(), TreeError>)
        requires
            old(self).wf(),
        ensures
            final(self).wf(),
            final(self).cached() is None,
            r is Err <==> old(self).conflict(path@) is Some,
            r matches Err(e) ==> old(self).conflict(path@) == Some(conflict_parts(e.deep_view())),
            r is Err ==> forall|q: Seq<Seq<char>>| #[trigger] final(self).file_at(q) == old(self).file_at(q),
            r is Ok ==> forall|q: Seq<Seq<char>>|
                #[trigger] final(self).file_at(q) == after_insert(
                    old(self).file_at(q),
                    q,
                    path_components(path@),
                    blob,
                ),
            forall|t: int|
                0 <= t < path_components(path@).len() ==> match #[trigger] final(self).dir_at(
                    path_components(path@).take(t),
                ) {
                    Some(m) => m.cached() is None,
                    None => true,
                },
            r is Ok ==> forall|q: Seq<Seq<char>>|
                (#[trigger] final(self).dir_at(q) is Some) == dir_after_insert(
                    old(self).dir_at(q) is Some,
                    q,
                    path_components(path@),
                ),
            r is Err ==> forall|q: Seq<Seq<char>>|
                (#[trigger] final(self).dir_at(q) is Some) == (old(self).dir_at(q) is Some),
            forall|q: Seq<Seq<char>>|
                off_path(q, path_components(path@)) ==> #[trigger] cache_at(*final(self), q)
                    == cache_at(*old(self), q),
        decreases path@.len(),
    {
        let ghost pre = *self;
        self.cached_oid = None;
        let ghost mid = *self;
        proof {
            lemma_same_entries(pre, *self);
        }
        let r = match find_char(path, '/') {
            Some(slash) => self.insert_below(path, slash, blob),
            None => {
                proof {
                    assert(!has_slash(path@));
                    assert(path_components(path@) == seq![path@]);
                }
                self.store_file(path, blob);
                Ok(())
            },
        };
        proof {
            let c = path_components(path@);
            assert forall|q: Seq<Seq<char>>|
                (#[trigger] mid.dir_at(q) is Some) == (pre.dir_at(q) is Some) && (off_path(q, c)
                    ==> cache_at(mid, q) == cache_at(pre, q)) by {
                if q.len() == 0 {
                    assert(prefix_of(q, c));
                } else {
                    assert(mid.dir_at(q) == pre.dir_at(q));
                }
            }
            if r is Ok {
                assert forall|q: Seq<Seq<char>>|
                    (#[trigger] self.dir_at(q) is Some) == dir_after_insert(
                        pre.dir_at(q) is Some,
                        q,
                        c,
                    ) by {
                    assert((mid.dir_at(q) is Some) == (pre.dir_at(q) is Some));
                }
            } else {
                assert forall|q: Seq<Seq<char>>|
                    (#[trigger] self.dir_at(q) is Some) == (pre.dir_at(q) is Some) by {
                    assert((mid.dir_at(q) is Some) == (pre.dir_at(q) is Some));
                }
            }
            assert forall|q: Seq<Seq<char>>| off_path(q, c) implies #[trigger] cache_at(*self, q)
                == cache_at(pre, q) by {
                assert(cache_at(mid, q) == cache_at(pre, q));
            }
        }
        r
    }

    /// `insert_blob` of a path whose first slash is at `slash`, in a
    /// directory that has already lost its tree object id.
    #[verifier::spinoff_prover]
    #[verifier::rlimit(40)]
    fn insert_below(&mut self, path: &str, slash: usize, blob: Oid) -> (r: Result<(), TreeError>)
        requires
            old(self).wf(),
            old(self).cached() is None,
            slash < path@.len(),
            path@[slash as int] == '/',
            forall|j: int| 0 <= j < slash ==> path@[j] != '/',
        ensures
            final(self).wf(),
            final(self).cached() is None,
            r is Err <==> old(self).conflict(path@) is Some,
            r matches Err(e) ==> old(self).conflict(path@) == Some(conflict_parts(e.deep_view())),
            r is Err ==> forall|q: Seq<Seq<char>>| #[trigger] final(self).file_at(q) == old(self).file_at(q),
            r is Ok ==> forall|q: Seq<Seq<char>>|
                #[trigger] final(self).file_at(q) == after_insert(
                    old(self).file_at(q),
                    q,
                    path_components(path@),
                    blob,
                ),
            forall|t: int|
                0 <= t < path_components(path@).len() ==> match #[trigger] final(self).dir_at(
                    path_components(path@).take(t),
                ) {
                    Some(m) => m.cached() is None,
                    None => true,
                },
            r is Ok ==> forall|q: Seq<Seq<char>>|
                (#[trigger] final(self).dir_at(q) is Some) == dir_after_insert(
                    old(self).dir_at(q) is Some,
                    q,
                    path_components(path@),
                ),
            r is Err ==> forall|q: Seq<Seq<char>>|
                (#[trigger] final(self).dir_at(q) is Some) == (old(self).dir_at(q) is Some),
            forall|q: Seq<Seq<char>>|
                off_path(q, path_components(path@)) ==> #[trigger] cache_at(*final(self), q)
                    == cache_at(*old(self), q),
        decreases path@.len(), 0nat,
    {
        let ghost pre = *self;
        let ghost c = path_components(path@);
        let len = path.unicode_len();
        let dir = path.substring_char(0, slash);
        let rest = path.substring_char(slash + 1, len);
        proof {
            assert(dir@ =~= path@.take(slash as int));
            assert(rest@ =~= path@.skip(slash + 1));
            lemma_split_at_slash(pre, path@, slash as int);
        }
        match self.position_of(dir) {
            Some(k) => {
                let (name, entry) = self.entries.remove(k);
                match entry {
                    TreeEntry::Blob(o) => {
                        self.entries.insert(k, (name, TreeEntry::Blob(o)));
                        proof {
                            assert(self.entries@ =~= pre.entries@);
                            lemma_entry_of_at(pre.entries@, k as int);
                            lemma_same_entries(pre, *self);
                            lemma_blocked_dirs(*self, c, dir@);
                            assert forall|q: Seq<Seq<char>>|
                                (#[trigger] self.dir_at(q) is Some) == (pre.dir_at(q) is Some)
                                    && cache_at(*self, q) == cache_at(pre, q) by {
                                if q.len() > 0 {
                                    assert(self.dir_at(q) == pre.dir_at(q));
                                }
                            }
                        }
                        Err(
                            TreeError::PathConflict {
                                dir: String::from_str(dir),
                                path: String::from_str(path),
                            },
                        )
                    },
                    TreeEntry::Tree(node) => {
                        let mut node = node;
                        proof {
                            lemma_entry_of_at(pre.entries@, k as int);
                        }
                        let ghost child = node;
                        let r = node.insert_blob(rest, blob);
                        let ghost x = (name, TreeEntry::Tree(node));
                        self.entries.insert(k, (name, TreeEntry::Tree(node)));
                        proof {
                            assert(self.entries@ =~= pre.entries@.update(k as int, x));
                            lemma_entry_of_update(pre.entries@, k as int, x);
                            lemma_wf_update(pre, *self, k as int);
                            lemma_insert_step(pre, *self, child, node, dir@, c, r is Ok, blob);
                            lemma_components_nonempty(rest@);
                            lemma_insert_dirs(pre, *self, child, node, dir@, c, r is Ok, true);
                        }
                        r
                    },
                }
            },
            None => {
                let mut node = TreeNode::new();
                let ghost child = node;
                let r = node.insert_blob(rest, blob);
                let dir_name = String::from_str(dir);
                let ghost x = (dir_name, TreeEntry::Tree(node));
                self.entries.push((dir_name, TreeEntry::Tree(node)));
                proof {
                    assert(self.entries@ =~= pre.entries@.push(x));
                    lemma_entry_of_push(pre.entries@, x);
                    lemma_wf_push(pre, *self);
                    lemma_insert_step(pre, *self, child, node, dir@, c, true, blob);
                    lemma_components_nonempty(rest@);
                    assert(entry_of(pre.entries@, dir@) is None);
                    lemma_insert_dirs(pre, *self, child, node, dir@, c, true, false);
                }
                Ok(())
            },
        }
    }

    /// Stores `blob` under `name` directly in a directory that has already
    /// lost its tree object id.
    fn store_file(&mut self, name: &str, blob: Oid)
        requires
            old(self).wf(),
            old(self).cached() is None,
        ensures
            final(self).wf(),
            final(self).cached() is None,
            forall|q: Seq<Seq<char>>|
                #[trigger] final(self).file_at(q) == after_insert(
                    old(self).file_at(q),
                    q,
                    seq![name@],
                    blob,
                ),
            forall|t: int|
                0 <= t < 1 ==> match #[trigger] final(self).dir_at(seq![name@].take(t)) {
                    Some(m) => m.cached() is None,
                    None => true,
                },
            forall|q: Seq<Seq<char>>|
                (#[trigger] final(self).dir_at(q) is Some) == dir_after_insert(
                    old(self).dir_at(q) is Some,
                    q,
                    seq![name@],
                ),
            forall|q: Seq<Seq<char>>|
                off_path(q, seq![name@]) ==> #[trigger] cache_at(*final(self), q) == cache_at(
                    *old(self),
                    q,
                ),
    {
        let ghost pre = *self;
        match self.position_of(name) {
            Some(k) => {
                let (old_name, _previous) = self.entries.remove(k);
                let ghost x = (old_name, TreeEntry::Blob(blob));
                self.entries.insert(k, (old_name, TreeEntry::Blob(blob)));
                proof {
                    assert(self.entries@ =~= pre.entries@.update(k as int, x));
                    lemma_entry_of_update(pre.entries@, k as int, x);
                    lemma_wf_update(pre, *self, k as int);
                    lemma_store_leaf(pre, *self, name@, blob);
                }
            },
            None => {
                let file_name = String::from_str(name);
                let ghost x = (file_name, TreeEntry::Blob(blob));
                self.entries.push((file_name, TreeEntry::Blob(blob)));
                proof {
                    assert(self.entries@ =~= pre.entries@.push(x));
                    lemma_entry_of_push(pre.entries@, x);
                    lemma_wf_push(pre, *self);
                    lemma_store_leaf(pre, *self, name@, blob);
                }
            },
        }
    }
}

/// Every path has at least one component.
proof fn lemma_components_nonempty(p: Seq<char>)
    ensures
        path_components(p).len() >= 1,
{
    if has_slash(p) && 0 <= first_slash(p) < p.len() {
        assert(path_components(p) == seq![p.take(first_slash(p))] + path_components(
            p.skip(first_slash(p) + 1),
        ));
    }
}

/// Splitting a path at its first slash: the components and the conflict.
proof fn lemma_split_at_slash(n: TreeNode, p: Seq<char>, slash: int)
    requires
        0 <= slash < p.len(),
        p[slash] == '/',
        forall|j: int| 0 <= j < slash ==> p[j] != '/',
    ensures
        path_components(p) == seq![p.take(slash)] + path_components(p.skip(slash + 1)),
        path_components(p).drop_first() == path_components(p.skip(slash + 1)),
        path_components(p)[0] == p.take(slash),
        n.conflict(p) == match entry_of(n.entries@, p.take(slash)) {
            Some(TreeEntry::Blob(_)) => Some((p.take(slash), p)),
            Some(TreeEntry::Tree(c)) => c.conflict(p.skip(slash + 1)),
            None => None,
        },
{
    assert(has_slash(p));
    let f = first_slash(p);
    assert(f == slash) by {
        if f < slash {
        } else if f > slash {
        }
    }
    let c = path_components(p);
    assert(c.drop_first() =~= path_components(p.skip(slash + 1)));
}

/// When the first directory on the way is a file, only the directory itself
/// lies on the way.
proof fn lemma_blocked_dirs(n: TreeNode, c: Seq<Seq<char>>, d: Seq<char>)
    requires
        n.cached() is None,
        c.len() >= 1,
        c[0] == d,
        entry_of(n.entries@, d) matches Some(TreeEntry::Blob(_)),
    ensures
        forall|t: int|
            0 <= t < c.len() ==> match #[trigger] n.dir_at(c.take(t)) {
                Some(m) => m.cached() is None,
                None => true,
            },
{
    assert forall|t: int| 0 <= t < c.len() implies match #[trigger] n.dir_at(c.take(t)) {
        Some(m) => m.cached() is None,
        None => true,
    } by {
        if t > 0 {
            assert(c.take(t)[0] == d);
        }
    }
}

/// Two directories with the same entries hold the same files and conflicts.
proof fn lemma_same_entries(a: TreeNode, b: TreeNode)
    requires
        a.entries@ == b.entries@,
    ensures
        forall|q: Seq<Seq<char>>| #[trigger] b.file_at(q) == a.file_at(q),
        forall|p: Seq<char>| #[trigger] b.conflict(p) == a.conflict(p),
        forall|q: Seq<Seq<char>>| q.len() > 0 ==> #[trigger] b.dir_at(q) == a.dir_at(q),
        a.wf() ==> b.wf(),
{
}

/// Replacing entry `k` by one whose directory (if any) is well formed keeps
/// the directory well formed.
proof fn lemma_wf_update(pre: TreeNode, post: TreeNode, k: int)
    requires
        pre.wf(),
        0 <= k < pre.entries@.len(),
        post.entries@ == pre.entries@.update(k, post.entries@[k]),
        post.entries@[k].0@ == pre.entries@[k].0@,
        match post.entries@[k].1 {
            TreeEntry::Tree(c) => c.wf(),
            _ => true,
        },
    ensures
        post.wf(),
{
    lemma_entry_of_update(pre.entries@, k, post.entries@[k]);
    assert forall|i: int| 0 <= i < post.entries@.len() implies match #[trigger] post.entries@[i].1 {
        TreeEntry::Tree(c) => c.wf(),
        _ => true,
    } by {
        if i != k {
            assert(post.entries@[i] == pre.entries@[i]);
        }
    }
}

/// Adding a new-named entry whose directory (if any) is well formed keeps the
/// directory well formed.
proof fn lemma_wf_push(pre: TreeNode, post: TreeNode)
    requires
        pre.wf(),
        post.entries@.len() == pre.entries@.len() + 1,
        post.entries@ == pre.entries@.push(post.entries@.last()),
        forall|k: int| 0 <= k < pre.entries@.len() ==> pre.entries@[k].0@ != post.entries@.last().0@,
        match post.entries@.last().1 {
            TreeEntry::Tree(c) => c.wf(),
            _ => true,
        },
    ensures
        post.wf(),
{
    lemma_entry_of_push(pre.entries@, post.entries@.last());
    assert forall|i: int| 0 <= i < post.entries@.len() implies match #[trigger] post.entries@[i].1 {
        TreeEntry::Tree(c) => c.wf(),
        _ => true,
    } by {
        if i < pre.entries@.len() {
            assert(post.entries@[i] == pre.entries@[i]);
        }
    }
}

/// One level of `insert_blob` through directory `d`: files and stale
/// directories of `post` follow from those of the updated subdirectory.
proof fn lemma_insert_step(
    pre: TreeNode,
    post: TreeNode,
    child: TreeNode,
    node: TreeNode,
    d: Seq<char>,
    c: Seq<Seq<char>>,
    ok: bool,
    blob: Oid,
)
    requires
        post.cached() is None,
        c.len() >= 1,
        c[0] == d,
        forall|n: Seq<char>|
            #[trigger] entry_of(post.entries@, n) == if n == d {
                Some(TreeEntry::Tree(node))
            } else {
                entry_of(pre.entries@, n)
            },
        forall|q: Seq<Seq<char>>|
            q.len() > 0 && q[0] == d ==> #[trigger] pre.file_at(q) == child.file_at(q.drop_first()),
        ok ==> forall|q: Seq<Seq<char>>|
            #[trigger] node.file_at(q) == after_insert(child.file_at(q), q, c.drop_first(), blob),
        !ok ==> forall|q: Seq<Seq<char>>| #[trigger] node.file_at(q) == child.file_at(q),
        forall|t: int|
            0 <= t < c.drop_first().len() ==> match #[trigger] node.dir_at(c.drop_first().take(t)) {
                Some(m) => m.cached() is None,
                None => true,
            },
    ensures
        ok ==> forall|q: Seq<Seq<char>>|
            #[trigger] post.file_at(q) == after_insert(pre.file_at(q), q, c, blob),
        !ok ==> forall|q: Seq<Seq<char>>| #[trigger] post.file_at(q) == pre.file_at(q),
        forall|t: int|
            0 <= t < c.len() ==> match #[trigger] post.dir_at(c.take(t)) {
                Some(m) => m.cached() is None,
                None => true,
            },
{
    let c1 = c.drop_first();
    assert forall|q: Seq<Seq<char>>| #[trigger] post.file_at(q) == (if ok {
        after_insert(pre.file_at(q), q, c, blob)
    } else {
        pre.file_at(q)
    }) by {
        if q.len() == 0 {
        } else if q[0] != d {
            assert(entry_of(post.entries@, q[0]) == entry_of(pre.entries@, q[0]));
            if q == c {
                assert(q[0] == c[0]);
            }
            assert(!prefix_of(c, q));
        } else {
            let q1 = q.drop_first();
            assert(entry_of(post.entries@, q[0]) == Some(TreeEntry::Tree(node)));
            assert(post.file_at(q) == node.file_at(q1));
            assert(pre.file_at(q) == child.file_at(q1));
            if ok {
                assert(node.file_at(q1) == after_insert(child.file_at(q1), q1, c1, blob));
                if q1 == c1 {
                    assert forall|i: int| 0 <= i < q.len() implies q[i] == c[i] by {
                        if i > 0 {
                            assert(q[i] == q1[i - 1]);
                            assert(c[i] == c1[i - 1]);
                        }
                    }
                    assert(q =~= c);
                }
                if q == c {
                    assert(q1 =~= c1);
                }
                if prefix_of(c1, q1) {
                    assert forall|i: int| 0 <= i < c.len() implies c[i] == q[i] by {
                        if i > 0 {
                            assert(c[i] == c1[i - 1]);
                            assert(q[i] == q1[i - 1]);
                        }
                    }
                }
                if prefix_of(c, q) {
                    assert forall|i: int| 0 <= i < c1.len() implies c1[i] == q1[i] by {
                        assert(c[i + 1] == q[i + 1]);
                    }
                }
            }
        }
    }
    assert forall|t: int| 0 <= t < c.len() implies match #[trigger] post.dir_at(c.take(t)) {
        Some(m) => m.cached() is None,
        None => true,
    } by {
        if t > 0 {
            let ct = c.take(t);
            assert(ct[0] == d);
            assert(entry_of(post.entries@, ct[0]) == Some(TreeEntry::Tree(node)));
            assert(ct.drop_first() =~= c1.take(t - 1));
            assert(post.dir_at(ct) == node.dir_at(c1.take(t - 1)));
        }
    }
}

/// Two paths with the same first component are on the way to, or below, one
/// another exactly as their tails are.
proof fn lemma_prefix_tail(q: Seq<Seq<char>>, c: Seq<Seq<char>>)
    requires
        q.len() > 0,
        c.len() > 0,
        q[0] == c[0],
    ensures
        prefix_of(q, c) == prefix_of(q.drop_first(), c.drop_first()),
        prefix_of(c, q) == prefix_of(c.drop_first(), q.drop_first()),
        (q.len() < c.len()) == (q.drop_first().len() < c.drop_first().len()),
{
    let q1 = q.drop_first();
    let c1 = c.drop_first();
    if prefix_of(q1, c1) {
        assert forall|i: int| 0 <= i < q.len() implies q[i] == c[i] by {
            if i > 0 {
                assert(q[i] == q1[i - 1] && c[i] == c1[i - 1]);
            }
        }
    }
    if prefix_of(q, c) {
        assert forall|i: int| 0 <= i < q1.len() implies q1[i] == c1[i] by {
            assert(q[i + 1] == c[i + 1]);
        }
    }
    if prefix_of(c1, q1) {
        assert forall|i: int| 0 <= i < c.len() implies c[i] == q[i] by {
            if i > 0 {
                assert(q[i] == q1[i - 1] && c[i] == c1[i - 1]);
            }
        }
    }
    if prefix_of(c, q) {
        assert forall|i: int| 0 <= i < c1.len() implies c1[i] == q1[i] by {
            assert(q[i + 1] == c[i + 1]);
        }
    }
}

/// One level of `insert_blob` through directory `d`: the directories of
/// `post`, and the tree object ids of those off the path, follow from those
/// of the updated subdirectory. `existed` tells whether `d` was a directory
/// before; if not, the subdirectory started empty.
proof fn lemma_insert_dirs(
    pre: TreeNode,
    post: TreeNode,
    child: TreeNode,
    node: TreeNode,
    d: Seq<char>,
    c: Seq<Seq<char>>,
    ok: bool,
    existed: bool,
)
    requires
        c.len() >= 2,
        c[0] == d,
        forall|n: Seq<char>|
            #[trigger] entry_of(post.entries@, n) == if n == d {
                Some(TreeEntry::Tree(node))
            } else {
                entry_of(pre.entries@, n)
            },
        existed ==> entry_of(pre.entries@, d) == Some(TreeEntry::Tree(child)),
        !existed ==> entry_of(pre.entries@, d) is None,
        !existed ==> forall|q: Seq<Seq<char>>| q.len() > 0 ==> #[trigger] child.dir_at(q) is None,
        !existed ==> ok,
        ok ==> forall|q: Seq<Seq<char>>|
            (#[trigger] node.dir_at(q) is Some) == dir_after_insert(
                child.dir_at(q) is Some,
                q,
                c.drop_first(),
            ),
        !ok ==> forall|q: Seq<Seq<char>>|
            (#[trigger] node.dir_at(q) is Some) == (child.dir_at(q) is Some),
        forall|q: Seq<Seq<char>>|
            off_path(q, c.drop_first()) ==> #[trigger] cache_at(node, q) == cache_at(child, q),
    ensures
        ok ==> forall|q: Seq<Seq<char>>|
            (#[trigger] post.dir_at(q) is Some) == dir_after_insert(pre.dir_at(q) is Some, q, c),
        !ok ==> forall|q: Seq<Seq<char>>|
            (#[trigger] post.dir_at(q) is Some) == (pre.dir_at(q) is Some),
        forall|q: Seq<Seq<char>>|
            off_path(q, c) ==> #[trigger] cache_at(post, q) == cache_at(pre, q),
{
    let c1 = c.drop_first();
    assert forall|q: Seq<Seq<char>>|
        (ok ==> ((#[trigger] post.dir_at(q) is Some) == dir_after_insert(pre.dir_at(q) is Some, q, c)))
        && (!ok ==> ((post.dir_at(q) is Some) == (pre.dir_at(q) is Some)))
        && (off_path(q, c) ==> cache_at(post, q) == cache_at(pre, q)) by {
        if q.len() == 0 {
            assert(prefix_of(q, c));
        } else if q[0] != d {
            assert(entry_of(post.entries@, q[0]) == entry_of(pre.entries@, q[0]));
            assert(post.dir_at(q) == pre.dir_at(q));
            assert(!prefix_of(c, q));
            assert(!prefix_of(q, c));
        } else {
            let q1 = q.drop_first();
            assert(entry_of(post.entries@, q[0]) == Some(TreeEntry::Tree(node)));
            assert(post.dir_at(q) == node.dir_at(q1));
            lemma_prefix_tail(q, c);
            if ok {
                assert((node.dir_at(q1) is Some) == dir_after_insert(
                    child.dir_at(q1) is Some,
                    q1,
                    c1,
                ));
            } else {
                assert((node.dir_at(q1) is Some) == (child.dir_at(q1) is Some));
            }
            if off_path(q, c) {
                assert(off_path(q1, c1));
                assert(cache_at(node, q1) == cache_at(child, q1));
                assert(cache_at(post, q) == cache_at(node, q1));
            }
            if existed {
                assert(pre.dir_at(q) == child.dir_at(q1));
            } else {
                assert(pre.dir_at(q) is None);
                if q1.len() == 0 {
                    assert(prefix_of(q1, c1));
                    assert(prefix_of(q, c));
                } else {
                    assert(child.dir_at(q1) is None);
                }
            }
        }
    }
}

/// Storing a blob under `name` directly in a directory.
proof fn lemma_store_leaf(pre: TreeNode, post: TreeNode, name: Seq<char>, blob: Oid)
    requires
        post.cached() is None,
        forall|n: Seq<char>|
            #[trigger] entry_of(post.entries@, n) == if n == name {
                Some(TreeEntry::Blob(blob))
            } else {
                entry_of(pre.entries@, n)
            },
    ensures
        forall|q: Seq<Seq<char>>|
            #[trigger] post.file_at(q) == after_insert(pre.file_at(q), q, seq![name], blob),
        forall|t: int|
            0 <= t < 1 ==> match #[trigger] post.dir_at(seq![name].take(t)) {
                Some(m) => m.cached() is None,
                None => true,
            },
        forall|q: Seq<Seq<char>>|
            (#[trigger] post.dir_at(q) is Some) == dir_after_insert(
                pre.dir_at(q) is Some,
                q,
                seq![name],
            ),
        forall|q: Seq<Seq<char>>|
            off_path(q, seq![name]) ==> #[trigger] cache_at(post, q) == cache_at(pre, q),
{
    let c = seq![name];
    assert forall|q: Seq<Seq<char>>| (#[trigger] post.dir_at(q) is Some) == dir_after_insert(
        pre.dir_at(q) is Some,
        q,
        c,
    ) && (off_path(q, c) ==> cache_at(post, q) == cache_at(pre, q)) by {
        if q.len() == 0 {
            assert(prefix_of(q, c));
        } else if q[0] != name {
            assert(entry_of(post.entries@, q[0]) == entry_of(pre.entries@, q[0]));
            assert(post.dir_at(q) == pre.dir_at(q));
            assert(!prefix_of(c, q));
            assert(!prefix_of(q, c));
        } else {
            assert(entry_of(post.entries@, q[0]) == Some(TreeEntry::Blob(blob)));
            assert(post.dir_at(q) is None);
            assert(prefix_of(c, q));
        }
    }
    assert forall|q: Seq<Seq<char>>| #[trigger]
        post.file_at(q) == after_insert(pre.file_at(q), q, c, blob) by {
        if q.len() == 0 {
        } else if q[0] != name {
            assert(entry_of(post.entries@, q[0]) == entry_of(pre.entries@, q[0]));
            assert(!prefix_of(c, q));
            assert(q != c);
        } else {
            assert(entry_of(post.entries@, q[0]) == Some(TreeEntry::Blob(blob)));
            if q.len() == 1 {
                assert(c[0] == name);
                assert(c.len() == 1);
                assert(q[0] == c[0]);
                assert(q =~= c);
            } else {
                assert(q != c);
                assert(prefix_of(c, q));
            }
        }
    }
    assert(c.take(0) =~= Seq::<Seq<char>>::empty());
}

/// The entry at a unique name is the one found by `entry_of`.
proof fn lemma_entry_of_at(es: Seq<(String, TreeEntry)>, k: int)
    requires
        names_unique(es),
        0 <= k < es.len(),
    ensures
        entry_of(es, es[k].0@) == Some(es[k].1),
{
    let j = choose|j: int| 0 <= j < es.len() && es[j].0@ == es[k].0@;
    assert(j == k);
}

/// Replacing an entry by one of the same name changes only that name's entry.
proof fn lemma_entry_of_update(es: Seq<(String, TreeEntry)>, k: int, x: (String, TreeEntry))
    requires
        names_unique(es),
        0 <= k < es.len(),
        x.0@ == es[k].0@,
    ensures
        names_unique(es.update(k, x)),
        forall|name: Seq<char>|
            #[trigger] entry_of(es.update(k, x), name) == if name == x.0@ {
                Some(x.1)
            } else {
                entry_of(es, name)
            },
{
    let u = es.update(k, x);
    assert forall|i: int, j: int|
        0 <= i < u.len() && 0 <= j < u.len() && i != j implies #[trigger] u[i].0@
        != #[trigger] u[j].0@ by {
        assert(u[i].0@ == es[i].0@ && u[j].0@ == es[j].0@);
    }
    assert forall|name: Seq<char>| #[trigger]
        entry_of(u, name) == if name == x.0@ {
            Some(x.1)
        } else {
            entry_of(es, name)
        } by {
        if name == x.0@ {
            lemma_entry_of_at(u, k);
        } else {
            if exists|j: int| 0 <= j < es.len() && es[j].0@ == name {
                let j = choose|j: int| 0 <= j < es.len() && es[j].0@ == name;
                lemma_entry_of_at(es, j);
                lemma_entry_of_at(u, j);
                assert(u[j].0@ == name);
            } else {
                assert forall|j: int| 0 <= j < u.len() implies u[j].0@ != name by {
                    assert(u[j].0@ == es[j].0@);
                }
            }
        }
    }
}

/// Adding an entry of a new name changes only that name's entry.
proof fn lemma_entry_of_push(es: Seq<(String, TreeEntry)>, x: (String, TreeEntry))
    requires
        names_unique(es),
        forall|k: int| 0 <= k < es.len() ==> es[k].0@ != x.0@,
    ensures
        names_unique(es.push(x)),
        forall|name: Seq<char>|
            #[trigger] entry_of(es.push(x), name) == if name == x.0@ {
                Some(x.1)
            } else {
                entry_of(es, name)
            },
{
    let u = es.push(x);
    assert forall|i: int, j: int|
        0 <= i < u.len() && 0 <= j < u.len() && i != j implies #[trigger] u[i].0@
        != #[trigger] u[j].0@ by {
        if i < es.len() && j < es.len() {
            assert(u[i] == es[i] && u[j] == es[j]);
        } else if i < es.len() {
            assert(u[i] == es[i]);
        } else if j < es.len() {
            assert(u[j] == es[j]);
        }
    }
    assert forall|name: Seq<char>| #[trigger]
        entry_of(u, name) == if name == x.0@ {
            Some(x.1)
        } else {
            entry_of(es, name)
        } by {
        if name == x.0@ {
            lemma_entry_of_at(u, es.len() as int);
        } else {
            if exists|j: int| 0 <= j < es.len() && es[j].0@ == name {
                let j = choose|j: int| 0 <= j < es.len() && es[j].0@ == name;
                lemma_entry_of_at(es, j);
                lemma_entry_of_at(u, j);
            } else {
                assert forall|j: int| 0 <= j < u.len() implies u[j].0@ != name by {
                    if j < es.len() {
                        assert(u[j] == es[j]);
                    }
                }
            }
        }
    }
}

/// An entry of a tree object to write: a name, and the id of a blob
/// (`is_tree` false) or of a subdirectory's tree object (`is_tree` true).
#[derive(Debug)]
pub struct TreeItem {
    pub name: String,
    pub id: Oid,
    pub is_tree: bool,
}

/// A directory whose tree object is to be written next: its path (components)
/// and its entries.
#[derive(Debug)]
pub struct PendingTree {
    pub dir: Vec<String>,
    pub items: Vec<TreeItem>,
}

/// Model of a `PendingTree`.
pub struct PendingTreeModel {
    pub dir: Seq<Seq<char>>,
    pub items: Seq<(Seq<char>, Oid, bool)>,
}

impl DeepView for TreeItem {
    type V = (Seq<char>, Oid, bool);

    open spec fn deep_view(&self) -> (Seq<char>, Oid, bool) {
        (self.name@, self.id, self.is_tree)
    }
}

impl DeepView for PendingTree {
    type V = PendingTreeModel;

    open spec fn deep_view(&self) -> PendingTreeModel {
        PendingTreeModel { dir: self.dir.deep_view(), items: self.items.deep_view() }
    }
}

/// The tree item of a directory entry: a file's blob, or a subdirectory's
/// tree object id.
pub open spec fn item_of(e: (String, TreeEntry)) -> (Seq<char>, Oid, bool) {
    match e.1 {
        TreeEntry::Blob(o) => (e.0@, o, false),
        TreeEntry::Tree(c) => (e.0@, c.cached()->Some_0, true),
    }
}

/// A directory that has no current tree object while all its subdirectories do.
pub open spec fn ready(m: TreeNode) -> bool {
    &&& m.cached() is None
    &&& forall|k: int|
        0 <= k < m.entries().len() ==> match #[trigger] m.entries()[k].1 {
            TreeEntry::Tree(c) => c.cached() is Some,
            _ => true,
        }
}

/// How many directories of `t` (itself included) have no current tree object.
pub closed spec fn stale_count(t: TreeNode) -> nat
    decreases t, 1nat,
{
    (if t.cached_oid is None {
        1nat
    } else {
        0nat
    }) + stale_sum(t.entries@, t.entries@.len())
}

/// How many stale directories lie in the first `k` entries.
closed spec fn stale_sum(es: Seq<(String, TreeEntry)>, k: nat) -> nat
    decreases es, k,
{
    if k == 0 || k > es.len() {
        0
    } else {
        stale_sum(es, (k - 1) as nat) + match es[k - 1].1 {
            TreeEntry::Tree(c) => stale_count(c),
            TreeEntry::Blob(_) => 0,
        }
    }
}

/// The stale directories in one entry.
closed spec fn entry_stale(e: (String, TreeEntry)) -> nat {
    match e.1 {
        TreeEntry::Tree(c) => stale_count(c),
        TreeEntry::Blob(_) => 0,
    }
}

/// Replacing entry `i` changes the stale count of the first `k` entries by
/// the difference of the two entries, when `i` is among them.
proof fn lemma_stale_sum_update(es: Seq<(String, TreeEntry)>, i: int, x: (String, TreeEntry), k: nat)
    requires
        0 <= i < es.len(),
        k <= es.len(),
    ensures
        stale_sum(es.update(i, x), k) + (if i < k {
            entry_stale(es[i])
        } else {
            0
        }) == stale_sum(es, k) + (if i < k {
            entry_stale(x)
        } else {
            0
        }),
    decreases k,
{
    if k > 0 {
        lemma_stale_sum_update(es, i, x, (k - 1) as nat);
        let u = es.update(i, x);
        assert(stale_sum(u, k) == stale_sum(u, (k - 1) as nat) + entry_stale(u[k - 1]));
        assert(stale_sum(es, k) == stale_sum(es, (k - 1) as nat) + entry_stale(es[k - 1]));
    }
}

/// The directory at `d` exists and has no current tree object.
pub open spec fn stale_at(t: TreeNode, d: Seq<Seq<char>>) -> bool {
    t.dir_at(d) matches Some(m) && m.cached() is None
}

/// A subdirectory of a well-formed directory is well formed.
proof fn lemma_child_wf(t: TreeNode, name: Seq<char>, c: TreeNode)
    requires
        t.wf(),
        entry_of(t.entries@, name) == Some(TreeEntry::Tree(c)),
    ensures
        c.wf(),
{
    let k = choose|k: int| 0 <= k < t.entries@.len() && t.entries@[k].0@ == name;
    assert(t.entries@[k].1 == TreeEntry::Tree(c));
}

/// What a tree holds is exactly its files and directories: in the directory
/// at `d`, which names its entries uniquely, the entry named `n` is the blob
/// of the file at `d` + `n` when there is one, else the directory at `d` + `n`
/// when there is one, else there is none. So the tree objects written from
/// the entries (see `pending_tree`) mirror `file_at` and `dir_at`, and nothing
/// more.
pub proof fn lemma_entries_mirror(t: TreeNode, d: Seq<Seq<char>>, n: Seq<char>)
    requires
        t.wf(),
        t.dir_at(d) is Some,
    ensures
        names_unique(t.dir_at(d)->Some_0.entries()),
        entry_of(t.dir_at(d)->Some_0.entries(), n) == match t.file_at(d.push(n)) {
            Some(o) => Some(TreeEntry::Blob(o)),
            None => match t.dir_at(d.push(n)) {
                Some(c) => Some(TreeEntry::Tree(c)),
                None => None,
            },
        },
    decreases d.len(),
{
    let dn = d.push(n);
    if d.len() == 0 {
        assert(dn =~= seq![n]);
        let e = Seq::<Seq<char>>::empty();
        assert(dn.drop_first() =~= e);
        assert(dn[0] == n);
        match entry_of(t.entries@, n) {
            Some(TreeEntry::Tree(c)) => {
                assert(c.file_at(e) is None);
                assert(c.dir_at(e) == Some(c));
                assert(t.file_at(dn) == c.file_at(e));
                assert(t.dir_at(dn) == c.dir_at(e));
            },
            Some(TreeEntry::Blob(o)) => {
                assert(t.file_at(dn) == Some(o));
            },
            None => {
                assert(t.file_at(dn) is None);
                assert(t.dir_at(dn) is None);
            },
        }
    } else {
        let c = match entry_of(t.entries@, d[0]) {
            Some(TreeEntry::Tree(c)) => c,
            _ => t,
        };
        assert(entry_of(t.entries@, d[0]) == Some(TreeEntry::Tree(c)));
        lemma_child_wf(t, d[0], c);
        assert(dn[0] == d[0]);
        assert(dn.drop_first() =~= d.drop_first().push(n));
        assert(t.dir_at(d) == c.dir_at(d.drop_first()));
        assert(t.file_at(dn) == c.file_at(d.drop_first().push(n)));
        assert(t.dir_at(dn) == c.dir_at(d.drop_first().push(n)));
        lemma_entries_mirror(c, d.drop_first(), n);
    }
}

/// A tree whose root has no current tree object is stale at its root, and so
/// counts at least one stale directory. With `pending_tree`, which names a
/// stale directory until the root is current, and `record_tree`, which leaves
/// one stale directory fewer when it records one, this bounds the rounds of
/// writing tree objects by `stale_count`.
pub proof fn lemma_stale_root(t: TreeNode)
    ensures
        t.cached() is None <==> stale_at(t, Seq::empty()),
        stale_at(t, Seq::empty()) ==> stale_count(t) > 0,
{
}

/// The tree object id of the directory at `q`, when there is such a directory.
pub open spec fn cache_at(t: TreeNode, q: Seq<Seq<char>>) -> Option<Option<Oid>> {
    match t.dir_at(q) {
        Some(m) => Some(m.cached()),
        None => None,
    }
}

impl TreeNode {
    /// The id of this directory's tree object, while it is current.
    pub fn cached_oid(&self) -> (r: Option<Oid>)
        ensures
            r == self.cached(),
    {
        self.cached_oid
    }

    /// The next directory whose tree object must be written: one without a
    /// current id whose subdirectories all have one; none once this directory
    /// has a current id.
    pub fn pending_tree(&self) -> (r: Option<PendingTree>)
        requires
            self.wf(),
        ensures
            r is None <==> self.cached() is Some,
            r matches Some(t) ==> (self.dir_at(t.deep_view().dir) matches Some(m) && ready(m)
                && t.deep_view().items == m.entries().map_values(|e: (String, TreeEntry)| item_of(e))),
        decreases self,
    {
        if self.cached_oid.is_some() {
            return None;
        }
        let mut k: usize = 0;
        while k < self.entries.len()
            invariant
                self.wf(),
                self.cached() is None,
                k <= self.entries@.len(),
                forall|j: int| 0 <= j < k ==> match #[trigger] self.entries@[j].1 {
                    TreeEntry::Tree(c) => c.cached() is Some,
                    _ => true,
                },
            decreases self.entries.len() - k,
        {
            match &self.entries[k].1 {
                TreeEntry::Tree(c) => {
                    if c.cached_oid.is_none() {
                        assert(c.wf());
                        match c.pending_tree() {
                            Some(t) => {
                                let mut t = t;
                                let ghost sub = t.dir.deep_view();
                                let name = self.entries[k].0.clone();
                                let ghost nm = name@;
                                t.dir.insert(0, name);
                                proof {
                                    assert(t.dir.deep_view() =~= seq![nm] + sub);
                                    lemma_entry_of_at(self.entries@, k as int);
                                    assert(t.dir.deep_view().drop_first() =~= sub);
                                }
                                return Some(t);
                            },
                            None => {},
                        }
                    }
                },
                TreeEntry::Blob(_) => {},
            }
            k = k + 1;
        }
        let mut items: Vec<TreeItem> = Vec::new();
        let mut k: usize = 0;
        while k < self.entries.len()
            invariant
                k <= self.entries@.len(),
                forall|j: int| 0 <= j < self.entries@.len() ==> match #[trigger] self.entries@[j].1 {
                    TreeEntry::Tree(c) => c.cached() is Some,
                    _ => true,
                },
                items.deep_view() == self.entries@.take(k as int).map_values(
                    |e: (String, TreeEntry)| item_of(e),
                ),
            decreases self.entries.len() - k,
        {
            let item = match &self.entries[k].1 {
                TreeEntry::Blob(o) => TreeItem { name: self.entries[k].0.clone(), id: *o, is_tree: false },
                TreeEntry::Tree(c) => {
                    assert(c.cached() is Some);
                    let id = c.cached_oid.unwrap();
                    TreeItem { name: self.entries[k].0.clone(), id, is_tree: true }
                },
            };
            crate::text::push_deep(&mut items, item);
            assert(self.entries@.take(k + 1) =~= self.entries@.take(k as int).push(self.entries@[k as int]));
            assert(items.deep_view() =~= self.entries@.take(k + 1).map_values(
                |e: (String, TreeEntry)| item_of(e),
            ));
            k = k + 1;
        }
        assert(self.entries@.take(self.entries@.len() as int) =~= self.entries@);
        let t = PendingTree { dir: Vec::new(), items };
        assert(t.deep_view().dir =~= Seq::<Seq<char>>::empty());
        Some(t)
    }

    /// Records `id` as the tree object of the directory at `dir`, from
    /// component `i` on. Files are unchanged.
    fn record_from(&mut self, dir: &Vec<String>, i: usize, id: Oid)
        requires
            old(self).wf(),
            i <= dir@.len(),
        ensures
            final(self).wf(),
            forall|q: Seq<Seq<char>>| #[trigger] final(self).file_at(q) == old(self).file_at(q),
            old(self).dir_at(dir.deep_view().skip(i as int)) is Some ==> (final(self).dir_at(
                dir.deep_view().skip(i as int),
            ) matches Some(m) && m.cached() == Some(id) && m.entries() == old(self).dir_at(
                dir.deep_view().skip(i as int),
            )->Some_0.entries()),
            forall|q: Seq<Seq<char>>|
                q != dir.deep_view().skip(i as int) ==> #[trigger] cache_at(*final(self), q)
                    == cache_at(*old(self), q),
            stale_count(*final(self)) + (if stale_at(*old(self), dir.deep_view().skip(i as int)) {
                1nat
            } else {
                0nat
            }) == stale_count(*old(self)),
            old(self).dir_at(dir.deep_view().skip(i as int)) is None ==> final(self).dir_at(
                dir.deep_view().skip(i as int),
            ) is None,
        decreases dir@.len() - i,
    {
        let ghost pre = *self;
        let ghost d = dir.deep_view().skip(i as int);
        if i == dir.len() {
            self.cached_oid = Some(id);
            proof {
                lemma_same_entries(pre, *self);
                assert(d.len() == 0);
                assert forall|q: Seq<Seq<char>>| q != d implies #[trigger] cache_at(*self, q)
                    == cache_at(pre, q) by {
                    if q.len() == 0 {
                        assert(q =~= d);
                    }
                    assert(self.dir_at(q) == pre.dir_at(q));
                }
            }
            return;
        }
        assert(d[0] == dir@[i as int]@);
        match self.position_of(dir[i].as_str()) {
            Some(k) => {
                let (name, entry) = self.entries.remove(k);
                match entry {
                    TreeEntry::Blob(o) => {
                        self.entries.insert(k, (name, TreeEntry::Blob(o)));
                        proof {
                            assert(self.entries@ =~= pre.entries@);
                            lemma_same_entries(pre, *self);
                            lemma_entry_of_at(pre.entries@, k as int);
                            assert forall|q: Seq<Seq<char>>| q != d implies #[trigger] cache_at(
                                *self,
                                q,
                            ) == cache_at(pre, q) by {
                                assert(self.dir_at(q) == if q.len() == 0 {
                                    Some(*self)
                                } else {
                                    pre.dir_at(q)
                                });
                            }
                        }
                    },
                    TreeEntry::Tree(node) => {
                        let mut node = node;
                        proof {
                            lemma_entry_of_at(pre.entries@, k as int);
                        }
                        let ghost child = node;
                        node.record_from(dir, i + 1, id);
                        let ghost x = (name, TreeEntry::Tree(node));
                        self.entries.insert(k, (name, TreeEntry::Tree(node)));
                        proof {
                            assert(self.entries@ =~= pre.entries@.update(k as int, x));
                            lemma_stale_sum_update(
                                pre.entries@,
                                k as int,
                                x,
                                pre.entries@.len(),
                            );
                            assert(entry_stale(pre.entries@[k as int]) == stale_count(child));
                            assert(entry_stale(x) == stale_count(node));
                            assert(d.drop_first() =~= dir.deep_view().skip(i + 1));
                            assert(pre.dir_at(d) == child.dir_at(d.drop_first()));
                            lemma_entry_of_update(pre.entries@, k as int, x);
                            lemma_wf_update(pre, *self, k as int);
                            assert(d.drop_first() =~= dir.deep_view().skip(i + 1));
                            assert forall|q: Seq<Seq<char>>| #[trigger] self.file_at(q) == pre.file_at(q) by {
                                if q.len() > 0 && q[0] == d[0] {
                                    assert(self.file_at(q) == node.file_at(q.drop_first()));
                                    assert(pre.file_at(q) == child.file_at(q.drop_first()));
                                }
                            }
                            assert forall|q: Seq<Seq<char>>| q != d implies #[trigger] cache_at(
                                *self,
                                q,
                            ) == cache_at(pre, q) by {
                                if q.len() > 0 && q[0] == d[0] {
                                    assert(self.dir_at(q) == node.dir_at(q.drop_first()));
                                    assert(pre.dir_at(q) == child.dir_at(q.drop_first()));
                                    if q.drop_first() == d.drop_first() {
                                        assert(q =~= seq![q[0]] + q.drop_first());
                                        assert(d =~= seq![d[0]] + d.drop_first());
                                    }
                                    assert(cache_at(node, q.drop_first()) == cache_at(
                                        child,
                                        q.drop_first(),
                                    ));
                                } else if q.len() > 0 {
                                    assert(self.dir_at(q) == pre.dir_at(q));
                                }
                            }
                        }
                    },
                }
            },
            None => {
                proof {
                    assert(entry_of(self.entries@, d[0]) is None);
                    assert(*self == pre);
                }
            },
        }
    }

    /// Records `id` as the tree object of the directory at `dir` (the one that
    /// `pending_tree` named). Files are unchanged.
    pub fn record_tree(&mut self, dir: &Vec<String>, id: Oid)
        requires
            old(self).wf(),
        ensures
            final(self).wf(),
            forall|q: Seq<Seq<char>>| #[trigger] final(self).file_at(q) == old(self).file_at(q),
            old(self).dir_at(dir.deep_view()) is Some ==> (final(self).dir_at(dir.deep_view()) matches Some(m)
                && m.cached() == Some(id) && m.entries() == old(self).dir_at(
                dir.deep_view(),
            )->Some_0.entries()),
            forall|q: Seq<Seq<char>>|
                q != dir.deep_view() ==> #[trigger] cache_at(*final(self), q) == cache_at(
                    *old(self),
                    q,
                ),
            stale_count(*final(self)) + (if stale_at(*old(self), dir.deep_view()) {
                1nat
            } else {
                0nat
            }) == stale_count(*old(self)),
            forall|q: Seq<Seq<char>>|
                (#[trigger] final(self).dir_at(q) is Some) == (old(self).dir_at(q) is Some),
    {
        assert(dir.deep_view().skip(0) =~= dir.deep_view());
        let ghost pre = *self;
        self.record_from(dir, 0, id);
        proof {
            assert forall|q: Seq<Seq<char>>|
                (#[trigger] self.dir_at(q) is Some) == (pre.dir_at(q) is Some) by {
                if q != dir.deep_view() {
                    assert(cache_at(*self, q) == cache_at(pre, q));
                }
            }
        }
    }
}

/// The bytes appended to a dummy file at each synthetic commit: `change\n`.
pub open spec fn change_line() -> Seq<u8> {
    seq![99u8, 104u8, 97u8, 110u8, 103u8, 101u8, 10u8]
}

/// `change\n` repeated `k` times: a dummy file after `k` synthetic commits.
pub open spec fn change_lines(k: nat) -> Seq<u8>
    decreases k,
{
    if k == 0 {
        Seq::empty()
    } else {
        change_lines((k - 1) as nat) + change_line()
    }
}

/// The content of the dummy file at `path`, empty if it has none yet.
pub open spec fn dummy_of(dummies: Seq<(String, Vec<u8>)>, path: Seq<char>) -> Seq<u8> {
    if exists|k: int| 0 <= k < dummies.len() && dummies[k].0@ == path {
        dummies[choose|k: int| 0 <= k < dummies.len() && dummies[k].0@ == path].1@
    } else {
        Seq::empty()
    }
}

/// A tree being built commit by commit, with the growing dummy files of
/// synthetic commits.
#[derive(Debug)]
pub struct BulkRepoBuilder {
    root: TreeNode,
    dummy_content: Vec<(String, Vec<u8>)>,
}

impl BulkRepoBuilder {
    /// The tree is well formed and each dummy file is kept once.
    #[verifier::type_invariant]
    spec fn well_formed(self) -> bool {
        &&& self.root.wf()
        &&& dummies_unique(self.dummy_content@)
    }

    /// The root directory.
    pub closed spec fn tree(self) -> TreeNode {
        self.root
    }

    /// The content of the dummy file at `path`.
    pub closed spec fn dummy(self, path: Seq<char>) -> Seq<u8> {
        dummy_of(self.dummy_content@, path)
    }

    /// An empty tree with no dummy files.
    pub fn new() -> (b: BulkRepoBuilder)
        ensures
            b.tree().wf(),
            b.tree().cached() is None,
            b.tree().entries().len() == 0,
            forall|d: Seq<Seq<char>>| d.len() > 0 ==> b.tree().dir_at(d) is None,
            forall|p: Seq<Seq<char>>| b.tree().file_at(p) is None,
            forall|p: Seq<char>| b.dummy(p) == Seq::<u8>::empty(),
    {
        BulkRepoBuilder { root: TreeNode::new(), dummy_content: Vec::new() }
    }

    /// Stores `blob` as the file at `path` (see `TreeNode::insert_blob`).
    pub fn set_file(&mut self, path: &str, blob: Oid) -> (r: Result<(), TreeError>)
        ensures
            final(self).tree().wf(),
            final(self).tree().cached() is None,
            r is Err <==> old(self).tree().conflict(path@) is Some,
            r matches Err(e) ==> old(self).tree().conflict(path@) == Some(
                conflict_parts(e.deep_view()),
            ),
            r is Err ==> forall|q: Seq<Seq<char>>| #[trigger] final(self).tree().file_at(q) == old(
                self,
            ).tree().file_at(q),
            r is Ok ==> forall|q: Seq<Seq<char>>|
                #[trigger] final(self).tree().file_at(q) == after_insert(
                    old(self).tree().file_at(q),
                    q,
                    path_components(path@),
                    blob,
                ),
            r is Ok ==> forall|q: Seq<Seq<char>>|
                (#[trigger] final(self).tree().dir_at(q) is Some) == dir_after_insert(
                    old(self).tree().dir_at(q) is Some,
                    q,
                    path_components(path@),
                ),
            r is Err ==> forall|q: Seq<Seq<char>>|
                (#[trigger] final(self).tree().dir_at(q) is Some) == (old(self).tree().dir_at(
                    q,
                ) is Some),
            forall|q: Seq<Seq<char>>|
                off_path(q, path_components(path@)) ==> #[trigger] cache_at(final(self).tree(), q)
                    == cache_at(old(self).tree(), q),
            forall|t: int|
                0 <= t < path_components(path@).len() ==> match #[trigger] final(self).tree().dir_at(
                    path_components(path@).take(t),
                ) {
                    Some(m) => m.cached() is None,
                    None => true,
                },
            forall|p: Seq<char>| #[trigger] final(self).dummy(p) == old(self).dummy(p),
    {
        proof {
            use_type_invariant(&*self);
        }
        let mut root = TreeNode::new();
        core::mem::swap(&mut root, &mut self.root);
        let r = root.insert_blob(path, blob);
        self.root = root;
        r
    }

    /// Appends `change\n` to the dummy file at `path` and returns its new
    /// content, which the caller stores with `set_file`.
    pub fn append_dummy(&mut self, path: &str) -> (content: Vec<u8>)
        ensures
            final(self).tree() == old(self).tree(),
            content@ == old(self).dummy(path@) + change_line(),
            final(self).dummy(path@) == content@,
            forall|p: Seq<char>| p != path@ ==> #[trigger] final(self).dummy(p) == old(self).dummy(p),
    {
        proof {
            use_type_invariant(&*self);
        }
        let mut dummies: Vec<(String, Vec<u8>)> = Vec::new();
        core::mem::swap(&mut dummies, &mut self.dummy_content);
        let ghost pre = dummies@;
        let mut k: usize = 0;
        while k < dummies.len() && !crate::text::same_text(dummies[k].0.as_str(), path)
            invariant
                k <= dummies@.len(),
                dummies@ == pre,
                forall|j: int| 0 <= j < k ==> dummies@[j].0@ != path@,
            decreases dummies.len() - k,
        {
            k = k + 1;
        }
        let found = k < dummies.len();
        let (name, mut content) = if found {
            dummies.remove(k)
        } else {
            (String::from_str(path), Vec::new())
        };
        let ghost before = content@;
        content.push(99u8);
        content.push(104u8);
        content.push(97u8);
        content.push(110u8);
        content.push(103u8);
        content.push(101u8);
        content.push(10u8);
        assert(content@ =~= before + change_line());
        let out = content.clone();
        assert(out@ =~= content@);
        let ghost entry = (name, content);
        if found {
            dummies.insert(k, (name, content));
            assert(dummies@ =~= pre.update(k as int, entry));
        } else {
            dummies.push((name, content));
            assert(dummies@ =~= pre.push(entry));
        }
        proof {
            lemma_dummy_update(pre, dummies@, k as int, entry, path@, before);
        }
        self.dummy_content = dummies;
        out
    }

    /// The next directory whose tree object must be written (see
    /// `TreeNode::pending_tree`).
    pub fn pending_tree(&self) -> (r: Option<PendingTree>)
        ensures
            r is None <==> self.tree().cached() is Some,
            r matches Some(t) ==> (self.tree().dir_at(t.deep_view().dir) matches Some(m) && ready(m)
                && t.deep_view().items == m.entries().map_values(|e: (String, TreeEntry)| item_of(e))),
    {
        proof {
            use_type_invariant(self);
        }
        self.root.pending_tree()
    }

    /// Records the tree object id of the directory at `dir`.
    pub fn record_tree(&mut self, dir: &Vec<String>, id: Oid)
        ensures
            final(self).tree().wf(),
            forall|q: Seq<Seq<char>>| #[trigger] final(self).tree().file_at(q) == old(self).tree().file_at(q),
            old(self).tree().dir_at(dir.deep_view()) is Some ==> (final(self).tree().dir_at(dir.deep_view()) matches Some(m)
                && m.cached() == Some(id) && m.entries() == old(self).tree().dir_at(
                dir.deep_view(),
            )->Some_0.entries()),
            forall|q: Seq<Seq<char>>|
                q != dir.deep_view() ==> #[trigger] cache_at(final(self).tree(), q) == cache_at(
                    old(self).tree(),
                    q,
                ),
            stale_count(final(self).tree()) + (if stale_at(old(self).tree(), dir.deep_view()) {
                1nat
            } else {
                0nat
            }) == stale_count(old(self).tree()),
            forall|q: Seq<Seq<char>>|
                (#[trigger] final(self).tree().dir_at(q) is Some) == (old(self).tree().dir_at(
                    q,
                ) is Some),
            forall|p: Seq<char>| #[trigger] final(self).dummy(p) == old(self).dummy(p),
    {
        proof {
            use_type_invariant(&*self);
        }
        let mut root = TreeNode::new();
        core::mem::swap(&mut root, &mut self.root);
        root.record_tree(dir, id);
        self.root = root;
    }

    /// The id of the root tree object, while it is current.
    pub fn root_tree(&self) -> (r: Option<Oid>)
        ensures
            r == self.tree().cached(),
    {
        self.root.cached_oid()
    }
}

/// A dummy file holds one `change\n` per append: a new builder holds no
/// dummy content (`change_lines(0)`), and `append_dummy` turns a dummy file
/// holding `change_lines(k)` into one holding `change_lines(k + 1)`, which it
/// also returns. So after `k` appends to a path, and no other write to its
/// dummy, the file holds `change\n` repeated `k` times.
pub proof fn lemma_dummy_appends(before: Seq<u8>, after: Seq<u8>, k: nat)
    requires
        before == change_lines(k),
        after == before + change_line(),
    ensures
        change_lines(0) == Seq::<u8>::empty(),
        after == change_lines(k + 1),
        after.len() == 7 * (k + 1),
    decreases k,
{
    if k > 0 {
        lemma_dummy_appends(
            change_lines((k - 1) as nat),
            change_lines((k - 1) as nat) + change_line(),
            (k - 1) as nat,
        );
    }
}

/// No two dummy entries share a path.
spec fn dummies_unique(dummies: Seq<(String, Vec<u8>)>) -> bool {
    forall|i: int, j: int|
        0 <= i < dummies.len() && 0 <= j < dummies.len() && i != j ==> #[trigger] dummies[i].0@
            != #[trigger] dummies[j].0@
}

/// Replacing or adding the dummy entry of `path` with grown content.
proof fn lemma_dummy_update(
    pre: Seq<(String, Vec<u8>)>,
    post: Seq<(String, Vec<u8>)>,
    k: int,
    entry: (String, Vec<u8>),
    path: Seq<char>,
    before: Seq<u8>,
)
    requires
        forall|i: int, j: int|
            0 <= i < pre.len() && 0 <= j < pre.len() && i != j ==> #[trigger] pre[i].0@
                != #[trigger] pre[j].0@,
        0 <= k <= pre.len(),
        forall|j: int| 0 <= j < k ==> pre[j].0@ != path,
        k < pre.len() ==> pre[k].0@ == path && post == pre.update(k, entry) && before == pre[k].1@,
        k == pre.len() ==> post == pre.push(entry) && before == Seq::<u8>::empty(),
        entry.0@ == path,
        entry.1@ == before + change_line(),
    ensures
        forall|i: int, j: int|
            0 <= i < post.len() && 0 <= j < post.len() && i != j ==> #[trigger] post[i].0@
                != #[trigger] post[j].0@,
        before == dummy_of(pre, path),
        dummy_of(post, path) == entry.1@,
        forall|p: Seq<char>| p != path ==> #[trigger] dummy_of(post, p) == dummy_of(pre, p),
{
    assert forall|i: int, j: int|
        0 <= i < post.len() && 0 <= j < post.len() && i != j implies #[trigger] post[i].0@
        != #[trigger] post[j].0@ by {
        if i < pre.len() && j < pre.len() {
            if i != k && j != k {
                assert(post[i] == pre[i] && post[j] == pre[j]);
            } else if i == k {
                assert(post[j] == pre[j]);
            } else {
                assert(post[i] == pre[i]);
            }
        } else if i < pre.len() {
            assert(post[i] == pre[i]);
        } else if j < pre.len() {
            assert(post[j] == pre[j]);
        }
    }
    if k < pre.len() {
        let j = choose|j: int| 0 <= j < pre.len() && pre[j].0@ == path;
        assert(j == k);
        let j2 = choose|j: int| 0 <= j < post.len() && post[j].0@ == path;
        assert(post[k].0@ == path);
        assert(j2 == k);
    } else {
        assert(post[k].0@ == path);
        let j2 = choose|j: int| 0 <= j < post.len() && post[j].0@ == path;
        assert(j2 == k);
    }
    assert forall|p: Seq<char>| p != path implies #[trigger] dummy_of(post, p) == dummy_of(pre, p) by {
        if exists|j: int| 0 <= j < pre.len() && pre[j].0@ == p {
            let j = choose|j: int| 0 <= j < pre.len() && pre[j].0@ == p;
            assert(post[j] == pre[j]);
            let j2 = choose|j: int| 0 <= j < post.len() && post[j].0@ == p;
            assert(j2 == j);
        } else {
            assert forall|j: int| 0 <= j < post.len() implies post[j].0@ != p by {
                if j != k {
                    assert(post[j] == pre[j]);
                }
            }
        }
    }
}

} // verus!
