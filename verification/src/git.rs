//! Status and history of a set of tracked git repositories.
//!
//! The repository access itself goes through a version-control library behind
//! trusted wrappers; the counting of working-tree states, the assembly of the
//! per-repository summary and the ordering of the commit feed are verified.

use vstd::prelude::*;
use vstd::string::StrSliceExecFns;

use crate::text::first_idx;

verus! {

/// Working-tree status of one tracked repository.
#[derive(Debug, Clone)]
pub struct RepoStatus {
    pub name: String,
    pub path: String,
    pub branch: String,
    pub is_clean: bool,
    pub ahead: usize,
    pub behind: usize,
    pub modified: usize,
    pub staged: usize,
    pub untracked: usize,
}

/// One commit of the combined history feed.
#[derive(Debug, Clone)]
pub struct CommitInfo {
    pub hash: String,
    pub message: String,
    pub author: String,
    pub time: i64,
    pub repo_name: String,
}

/// Tracks a fixed set of repository paths.
pub struct GitTracker {
    repos: Vec<String>,
}

#[verifier::external_type_specification]
#[verifier::external_body]
pub struct ExRepository(git2::Repository);

/// Status bit of a new file in the index.
pub const STATUS_INDEX_NEW: u32 = 1;

/// Status bit of a modified file in the index.
pub const STATUS_INDEX_MODIFIED: u32 = 2;

/// Status bit of a deleted file in the index.
pub const STATUS_INDEX_DELETED: u32 = 4;

/// Status bit of an untracked file in the working tree.
pub const STATUS_WT_NEW: u32 = 128;

/// Status bit of a modified file in the working tree.
pub const STATUS_WT_MODIFIED: u32 = 256;

/// Status bit of a deleted file in the working tree.
pub const STATUS_WT_DELETED: u32 = 512;

/// Status bit of a renamed file in the working tree.
pub const STATUS_WT_RENAMED: u32 = 2048;

/// The entry counts as modified: changed, deleted or renamed in the working
/// tree.
pub open spec fn is_modified_entry(b: u32) -> bool {
    b & STATUS_WT_MODIFIED != 0 || b & STATUS_WT_DELETED != 0 || b & STATUS_WT_RENAMED != 0
}

/// The entry counts as staged: new, changed or deleted in the index.
pub open spec fn is_staged_entry(b: u32) -> bool {
    b & STATUS_INDEX_NEW != 0 || b & STATUS_INDEX_MODIFIED != 0 || b & STATUS_INDEX_DELETED != 0
}

/// The entry counts as untracked: new in the working tree.
pub open spec fn is_untracked_entry(b: u32) -> bool {
    b & STATUS_WT_NEW != 0
}

/// How many of the first `m` entries count as modified.
pub open spec fn count_modified(s: Seq<u32>, m: int) -> int
    decreases m,
{
    if m <= 0 {
        0
    } else {
        count_modified(s, m - 1) + if is_modified_entry(s[m - 1]) {
            1int
        } else {
            0int
        }
    }
}

/// How many of the first `m` entries count as staged.
pub open spec fn count_staged(s: Seq<u32>, m: int) -> int
    decreases m,
{
    if m <= 0 {
        0
    } else {
        count_staged(s, m - 1) + if is_staged_entry(s[m - 1]) {
            1int
        } else {
            0int
        }
    }
}

/// How many of the first `m` entries count as untracked.
pub open spec fn count_untracked(s: Seq<u32>, m: int) -> int
    decreases m,
{
    if m <= 0 {
        0
    } else {
        count_untracked(s, m - 1) + if is_untracked_entry(s[m - 1]) {
            1int
        } else {
            0int
        }
    }
}

/// Counts are bounded by the number of entries.
proof fn lemma_counts_bounded(s: Seq<u32>, m: int)
    requires
        0 <= m,
    ensures
        0 <= count_modified(s, m) <= m,
        0 <= count_staged(s, m) <= m,
        0 <= count_untracked(s, m) <= m,
    decreases m,
{
    if m > 0 {
        lemma_counts_bounded(s, m - 1);
    }
}

/// Tallies the status entries of one repository: how many files count as
/// modified, staged and untracked.
pub fn count_statuses(bits: &Vec<u32>) -> (r: (usize, usize, usize))
    ensures
        r.0 == count_modified(bits@, bits@.len() as int),
        r.1 == count_staged(bits@, bits@.len() as int),
        r.2 == count_untracked(bits@, bits@.len() as int),
{
    let len = bits.len();
    let mut modified: usize = 0;
    let mut staged: usize = 0;
    let mut untracked: usize = 0;
    let mut i: usize = 0;
    while i < len
        invariant
            i <= len,
            len == bits@.len(),
            modified == count_modified(bits@, i as int),
            staged == count_staged(bits@, i as int),
            untracked == count_untracked(bits@, i as int),
        decreases len - i,
    {
        proof {
            lemma_counts_bounded(bits@, i as int);
        }
        let b = bits[i];
        if b & STATUS_WT_MODIFIED != 0 || b & STATUS_WT_DELETED != 0 || b & STATUS_WT_RENAMED
            != 0 {
            modified = modified + 1;
        }
        if b & STATUS_INDEX_NEW != 0 || b & STATUS_INDEX_MODIFIED != 0 || b & STATUS_INDEX_DELETED
            != 0 {
            staged = staged + 1;
        }
        if b & STATUS_WT_NEW != 0 {
            untracked = untracked + 1;
        }
        i = i + 1;
    }
    (modified, staged, untracked)
}

/// Relies on shellexpand::tilde: expands a leading `~` to the home
/// directory and returns any other string unchanged.
#[verifier::external_body]
fn expand_tilde(path: &String) -> (r: String)
    ensures
        path@.len() == 0 || path@[0] != '~' ==> r@ == path@,
{
    shellexpand::tilde(path.as_str()).into_owned()
}

/// Relies on git2's Repository::open: opens the repository at the path, or
/// reports that it cannot be opened.
#[verifier::external_body]
fn repo_open(path: &String) -> Option<git2::Repository> {
    match git2::Repository::open(path.as_str()) {
        Ok(r) => Some(r),
        Err(_) => None,
    }
}

/// Relies on git2's Repository::head and Reference::shorthand: the short
/// name of the checked-out branch, when there is one.
#[verifier::external_body]
fn repo_branch_name(repo: &git2::Repository) -> Option<String> {
    match repo.head() {
        Ok(h) => h.shorthand().ok().map(|s| s.to_string()),
        Err(_) => None,
    }
}

/// Relies on git2's Repository::statuses (untracked files included): one raw
/// status bit set per file, converted to its bits.
#[verifier::external_body]
fn repo_status_bits(repo: &git2::Repository) -> Option<Vec<u32>> {
    let mut opts = git2::StatusOptions::new();
    opts.include_untracked(true);
    match repo.statuses(Some(&mut opts)) {
        Ok(list) => Some(list.iter().map(|e| e.status().bits()).collect()),
        Err(_) => None,
    }
}

/// Relies on git2's Repository::head, Reference::target,
/// Repository::find_reference and Repository::graph_ahead_behind: how many
/// commits the branch is ahead of and behind its origin upstream; zero on
/// any missing piece.
#[verifier::external_body]
fn repo_ahead_behind(repo: &git2::Repository) -> (usize, usize) {
    let counts = repo.head().ok().and_then(|head| {
        let local = head.target()?;
        let branch = head.shorthand().ok()?;
        let upstream = repo.find_reference(&format!("refs/remotes/origin/{}", branch)).ok()?;
        repo.graph_ahead_behind(local, upstream.target()?).ok()
    });
    counts.unwrap_or((0, 0))
}

/// Relies on git2's Repository::revwalk (from head) and find_commit: at most
/// `max` commits from the head, each as (hash, full message, author, epoch
/// seconds).
#[verifier::external_body]
fn repo_commit_log(repo: &git2::Repository, max: usize) -> (r: Vec<(String, String, String, i64)>)
    ensures
        r@.len() <= max,
{
    let mut out = Vec::new();
    if let Ok(mut walk) = repo.revwalk() {
        if walk.push_head().is_ok() {
            for c in walk.take(max).flatten().flat_map(|oid| repo.find_commit(oid)) {
                let author = c.author().name().unwrap_or("Unknown").to_string();
                let message = c.message().unwrap_or_default().to_string();
                out.push((c.id().to_string(), message, author, c.time().seconds()));
            }
        }
    }
    out
}

/// The last path segment of a Unix-style path: everything after the final
/// slash, or the whole path when it has none.
pub fn path_display_name(path: &String) -> (r: String)
    ensures
        exists|cut: int|
            {
                &&& 0 <= cut <= path@.len()
                &&& r@ == path@.subrange(cut, path@.len() as int)
                &&& forall|j: int| cut <= j < path@.len() ==> path@[j] != '/'
                &&& (cut > 0 ==> path@[cut - 1] == '/')
            },
{
    let chars = crate::text::str_to_chars(path.as_str());
    let len = chars.len();
    let mut cut: usize = len;
    while cut > 0 && chars[cut - 1] != '/'
        invariant
            cut <= len,
            len == chars@.len(),
            forall|j: int| cut <= j < len ==> chars@[j] != '/',
        decreases cut,
    {
        cut = cut - 1;
    }
    let tail = crate::text::subvec(&chars, cut, len);
    let r = crate::text::chars_to_string(&tail);
    proof {
        assert(0 <= cut <= path@.len() && r@ == path@.subrange(cut as int, path@.len() as int)
            && (forall|j: int| cut <= j < path@.len() ==> path@[j] != '/') && (cut > 0
            ==> path@[cut - 1] == '/'));
    }
    r
}

/// First line of a commit message.
pub fn first_line(message: &String) -> (r: String)
    ensures
        r@ == message@.take(first_idx(message@, '\n')),
{
    let chars = crate::text::str_to_chars(message.as_str());
    let len = chars.len();
    let nl = crate::text::find_char_from(&chars, '\n', 0, len);
    proof {
        assert(chars@.subrange(0, len as int) =~= chars@);
        crate::text::lemma_first_idx(chars@, '\n');
    }
    let head = crate::text::subvec(&chars, 0, nl);
    crate::text::chars_to_string(&head)
}

/// Commits are in non-increasing time order: newest first.
pub open spec fn commits_sorted_desc(cs: Seq<CommitInfo>) -> bool {
    forall|i: int, j: int| 0 <= i <= j < cs.len() ==> #[trigger] cs[i].time >= #[trigger] cs[j].time
}

/// Sorts commits by time, newest first (insertion sort).
fn sort_commits_desc(v: &mut Vec<CommitInfo>)
    ensures
        final(v)@.len() == old(v)@.len(),
        commits_sorted_desc(final(v)@),
{
    let len = v.len();
    if len <= 1 {
        return ;
    }
    let mut i: usize = 1;
    while i < len
        invariant
            1 <= i <= len,
            len == v@.len(),
            commits_sorted_desc(v@.take(i as int)),
        decreases len - i,
    {
        let ghost before = v@;
        let x = v.remove(i);
        let mut j: usize = 0;
        while j < i && v[j].time >= x.time
            invariant
                j <= i,
                i < len,
                len == v@.len() + 1,
                forall|q: int| 0 <= q < j ==> #[trigger] v@[q].time >= x.time,
            decreases i - j,
        {
            j = j + 1;
        }
        let ghost removed = v@;
        let ghost xl = x;
        v.insert(j, x);
        proof {
            before.remove_ensures(i as int);
            removed.insert_ensures(j as int, xl);
            assert(forall|q: int| 0 <= q < i ==> #[trigger] removed[q] == before[q]);
            assert forall|a: int, b: int|
                0 <= a <= b < i + 1 implies #[trigger] v@.take(i + 1)[a].time >= #[trigger] v@.take(
                i + 1,
            )[b].time by {
                assert(forall|q: int| 0 <= q < j ==> #[trigger] v@[q] == before[q]);
                assert(v@[j as int] == xl);
                assert(forall|q: int| j < q <= i ==> #[trigger] v@[q] == before[q - 1]);
                assert forall|q: int| 0 <= q < j implies #[trigger] before[q].time >= xl.time by {
                    assert(removed[q].time >= xl.time);
                }
                if j < i {
                    assert(before[j as int].time < xl.time);
                }
            }
        }
        i = i + 1;
    }
    proof {
        assert(v@.take(len as int) =~= v@);
    }
}

impl GitTracker {
    /// The tracked repository paths, tilde-expanded.
    pub closed spec fn spec_repos(&self) -> Seq<String> {
        self.repos@
    }

    /// A tracker for the given repository paths; each path gets its leading
    /// `~` expanded.
    pub fn new(repo_paths: &Vec<String>) -> (r: Self)
        ensures
            r.spec_repos().len() == repo_paths@.len(),
    {
        let mut repos: Vec<String> = Vec::new();
        let mut i: usize = 0;
        let count = repo_paths.len();
        while i < count
            invariant
                i <= count,
                count == repo_paths@.len(),
                repos@.len() == i,
            decreases count - i,
        {
            repos.push(expand_tilde(&repo_paths[i]));
            i = i + 1;
        }
        Self { repos }
    }

    /// The summary of one repository, when it can be read: the counts come
    /// from the repository's status entries, and the cleanliness flag holds
    /// exactly when all three counts are zero.
    fn repo_status(path: &String) -> (r: Option<RepoStatus>)
        ensures
            match r {
                Some(st) => st.is_clean == (st.modified == 0 && st.staged == 0 && st.untracked
                    == 0),
                None => true,
            },
    {
        let repo = match repo_open(path) {
            Some(x) => x,
            None => {
                return None;
            },
        };
        let name = path_display_name(path);
        let branch = match repo_branch_name(&repo) {
            Some(b) => b,
            None => String::from_str("HEAD"),
        };
        let bits = match repo_status_bits(&repo) {
            Some(b) => b,
            None => {
                return None;
            },
        };
        let counts = count_statuses(&bits);
        let ab = repo_ahead_behind(&repo);
        let is_clean = counts.0 == 0 && counts.1 == 0 && counts.2 == 0;
        Some(
            RepoStatus {
                name,
                path: path.clone(),
                branch,
                is_clean,
                ahead: ab.0,
                behind: ab.1,
                modified: counts.0,
                staged: counts.1,
                untracked: counts.2,
            },
        )
    }

    /// The status of every tracked repository that can be read, in tracking
    /// order. A repository that cannot be read is skipped, never an error.
    pub fn get_status(&self) -> (r: Vec<RepoStatus>)
        ensures
            r@.len() <= self.spec_repos().len(),
            forall|i: int|
                0 <= i < r@.len() ==> (#[trigger] r@[i].is_clean == (r@[i].modified == 0
                    && r@[i].staged == 0 && r@[i].untracked == 0)),
    {
        let mut statuses: Vec<RepoStatus> = Vec::new();
        let count = self.repos.len();
        let mut i: usize = 0;
        while i < count
            invariant
                i <= count,
                count == self.repos@.len(),
                statuses@.len() <= i,
                forall|p: int|
                    0 <= p < statuses@.len() ==> (#[trigger] statuses@[p].is_clean == (
                    statuses@[p].modified == 0 && statuses@[p].staged == 0 && statuses@[p].untracked
                        == 0)),
            decreases count - i,
        {
            match Self::repo_status(&self.repos[i]) {
                Some(st) => {
                    statuses.push(st);
                },
                None => {},
            }
            i = i + 1;
        }
        statuses
    }

    /// The most recent commits across every tracked repository: each
    /// message cut to its first line, the whole feed ordered newest first and
    /// cut to `max_commits` entries.
    pub fn get_recent_commits(&self, max_commits: usize) -> (r: Vec<CommitInfo>)
        ensures
            r@.len() <= max_commits,
            commits_sorted_desc(r@),
    {
        let mut all: Vec<CommitInfo> = Vec::new();
        let count = self.repos.len();
        let mut i: usize = 0;
        while i < count
            invariant
                i <= count,
                count == self.repos@.len(),
            decreases count - i,
        {
            let path = &self.repos[i];
            match repo_open(path) {
                Some(repo) => {
                    let repo_name = path_display_name(path);
                    let entries = repo_commit_log(&repo, max_commits);
                    let n = entries.len();
                    let mut j: usize = 0;
                    while j < n
                        invariant
                            j <= n,
                            n == entries@.len(),
                        decreases n - j,
                    {
                        let e = &entries[j];
                        all.push(
                            CommitInfo {
                                hash: e.0.clone(),
                                message: first_line(&e.1),
                                author: e.2.clone(),
                                time: e.3,
                                repo_name: repo_name.clone(),
                            },
                        );
                        j = j + 1;
                    }
                },
                None => {},
            }
            i = i + 1;
        }
        sort_commits_desc(&mut all);
        let ghost sorted = all@;
        all.truncate(max_commits);
        proof {
            if max_commits < sorted.len() {
                assert(all@ =~= sorted.take(max_commits as int));
            } else {
                assert(all@ =~= sorted);
            }
        }
        all
    }
}

} // verus!
