//! The RAM file system: inodes, directories, path resolution and snapshots.
use vstd::prelude::*;
use vstd::string::*;
use crate::util::{push_dec, dec_of};
use crate::snapshot::{InodeView, inodes_view, parse_snapshot, snapshot_enc, snapshot_fits, ids_unique,
    read_snapshot, write_snapshot, lemma_parse_inodes_unique, lemma_snapshot_roundtrip,
    counter_after, restored_next, le_at, read_le};

verus! {

pub type InodeId = u64;

/// The inode of `/`.
pub const ROOT_INODE: InodeId = 1;

/// The kind of a node.
#[derive(Debug, Clone, Copy, PartialEq, Eq, Structural)]
pub enum InodeKind {
    Directory,
    File,
    Symlink,
}

/// Access rights.
#[derive(Debug, Clone, Copy, PartialEq, Eq, Structural)]
pub struct Permissions {
    pub read: bool,
    pub write: bool,
    pub execute: bool,
}

impl Permissions {
    pub fn read_write() -> (p: Permissions)
        ensures
            p == (Permissions { read: true, write: true, execute: false }),
    {
        Permissions { read: true, write: true, execute: false }
    }

    pub fn read_only() -> (p: Permissions)
        ensures
            p == (Permissions { read: true, write: false, execute: false }),
    {
        Permissions { read: true, write: false, execute: false }
    }

    pub fn read_execute() -> (p: Permissions)
        ensures
            p == (Permissions { read: true, write: false, execute: true }),
    {
        Permissions { read: true, write: false, execute: true }
    }

    pub fn full() -> (p: Permissions)
        ensures
            p == (Permissions { read: true, write: true, execute: true }),
    {
        Permissions { read: true, write: true, execute: true }
    }
}

/// The content of a node.
#[derive(Debug)]
pub enum InodeContent {
    FileData(Vec<u8>),
    DirEntries(Vec<(String, InodeId)>),
    SymlinkTarget(String),
}

/// A node of the file system.
#[derive(Debug)]
pub struct Inode {
    pub id: InodeId,
    pub name: String,
    pub kind: InodeKind,
    pub perms: Permissions,
    pub created_at: u64,
    pub modified_at: u64,
    pub content: InodeContent,
}

/// The size a node reports: file length, 32 bytes per directory entry, or target length.
pub open spec fn inode_size(i: Inode) -> int {
    match i.content {
        InodeContent::FileData(d) => d@.len() as int,
        InodeContent::DirEntries(m) => (m@.len() * 32) as int,
        InodeContent::SymlinkTarget(s) => s@.len() as int,
    }
}

impl Inode {
    /// The size of the node (see `inode_size`).
    pub fn size(&self) -> (n: usize)
        requires
            inode_size(*self) <= usize::MAX,
        ensures
            n == inode_size(*self),
    {
        match &self.content {
            InodeContent::FileData(d) => d.len(),
            InodeContent::DirEntries(m) => m.len() * 32,
            InodeContent::SymlinkTarget(s) => s.as_str().unicode_len(),
        }
    }
}

/// Errors of the file system.
#[derive(Debug)]
pub enum FsError {
    NotFound(String),
    NotADirectory(String),
    NotAFile(String),
    AlreadyExists(String),
    PermissionDenied(String),
    InvalidPath(String),
    DirectoryNotEmpty(String),
    OutOfMemory,
}

/// The first entry named `name` in a list of directory entries.
pub open spec fn entry_lookup(es: Seq<(String, InodeId)>, name: Seq<char>) -> Option<InodeId>
    decreases es.len(),
{
    if es.len() == 0 {
        None
    } else if es[0].0@ == name {
        Some(es[0].1)
    } else {
        entry_lookup(es.drop_first(), name)
    }
}

/// The position of the node with id `id`.
pub open spec fn find_spec(s: Seq<Inode>, id: InodeId) -> Option<int> {
    if exists|i: int| 0 <= i < s.len() && s[i].id == id {
        Some(choose|i: int| 0 <= i < s.len() && s[i].id == id)
    } else {
        None
    }
}

/// Summary counts of the file system.
#[derive(Debug)]
pub struct TmpFsStats {
    pub total_inodes: usize,
    pub total_bytes: usize,
    pub files: usize,
    pub dirs: usize,
}

/// The `stat` of a node.
#[derive(Debug)]
pub struct FsStat {
    pub id: InodeId,
    pub name: String,
    pub kind: InodeKind,
    pub size: usize,
    pub perms: Permissions,
}

/// The RAM file system.
pub struct TmpFs {
    inodes: Vec<Inode>,
    current_tick: u64,
    next_inode: u64,
}

/// The text of an inode id.
fn id_text(id: u64) -> (s: String)
    ensures
        s@ == dec_of(id as nat),
{
    let mut s = String::new();
    push_dec(&mut s, id);
    s
}

/// Whether `name` names a real entry (not `.` or `..`).
pub open spec fn visible(name: Seq<char>) -> bool {
    name != seq!['.'] && name != seq!['.', '.']
}

/// What a fresh file system lists at its root: the standard directories with
/// the ids they are made with, in order.
pub open spec fn root_listing() -> Seq<(Seq<char>, InodeId)> {
    seq![
        (seq!['b', 'i', 'n'], 2u64),
        (seq!['d', 'e', 'v'], 3u64),
        (seq!['e', 't', 'c'], 4u64),
        (seq!['m', 'o', 'd'], 5u64),
        (seq!['p', 'r', 'o', 'c'], 6u64),
        (seq!['t', 'm', 'p'], 7u64),
        (seq!['v', 'a', 'r'], 8u64),
    ]
}

/// A directory: of kind Directory, holding entries.
pub open spec fn is_dir_node(n: Inode) -> bool {
    n.kind == InodeKind::Directory && n.content is DirEntries
}

/// The entries of a directory without `.` and `..`, in stored order.
pub open spec fn visible_entries(es: Seq<(String, InodeId)>) -> Seq<(Seq<char>, InodeId)>
    decreases es.len(),
{
    if es.len() == 0 {
        Seq::empty()
    } else if visible(es.last().0@) {
        visible_entries(es.drop_last()).push((es.last().0@, es.last().1))
    } else {
        visible_entries(es.drop_last())
    }
}

/// Name `a` comes before name `b`: compared character by character, by code
/// point, a name before its extensions.
pub open spec fn name_lt(a: Seq<char>, b: Seq<char>) -> bool
    decreases a.len(),
{
    if a.len() == 0 {
        b.len() > 0
    } else if b.len() == 0 {
        false
    } else if a[0] != b[0] {
        (a[0] as int) < (b[0] as int)
    } else {
        name_lt(a.drop_first(), b.drop_first())
    }
}

/// `s` with `e` put before the first entry whose name comes after its own.
pub open spec fn insert_by_name(s: Seq<(Seq<char>, InodeId)>, e: (Seq<char>, InodeId)) -> Seq<(Seq<char>, InodeId)>
    decreases s.len(),
{
    if s.len() == 0 {
        seq![e]
    } else if name_lt(e.0, s[0].0) {
        seq![e] + s
    } else {
        seq![s[0]] + insert_by_name(s.drop_first(), e)
    }
}

/// The entries of `s` ordered by name.
pub open spec fn by_name(s: Seq<(Seq<char>, InodeId)>) -> Seq<(Seq<char>, InodeId)>
    decreases s.len(),
{
    if s.len() == 0 { Seq::empty() } else { insert_by_name(by_name(s.drop_last()), s.last()) }
}

/// Putting `e` by name is putting it at the first entry whose name comes
/// after its own.
proof fn lemma_insert_by_name_at(s: Seq<(Seq<char>, InodeId)>, e: (Seq<char>, InodeId), i: int)
    requires
        0 <= i <= s.len(),
        forall|j: int| 0 <= j < i ==> !name_lt(e.0, #[trigger] s[j].0),
        i < s.len() ==> name_lt(e.0, s[i].0),
    ensures
        insert_by_name(s, e) == s.take(i) + seq![e] + s.skip(i),
    decreases s.len(),
{
    if s.len() == 0 {
        assert(s.take(i) + seq![e] + s.skip(i) =~= seq![e]);
    } else if i == 0 {
        assert(s.take(0) + seq![e] + s.skip(0) =~= seq![e] + s);
    } else {
        let t = s.drop_first();
        assert forall|j: int| 0 <= j < i - 1 implies !name_lt(e.0, #[trigger] t[j].0) by {
            assert(t[j] == s[j + 1]);
        }
        lemma_insert_by_name_at(t, e, i - 1);
        assert(seq![s[0]] + (t.take(i - 1) + seq![e] + t.skip(i - 1)) =~= s.take(i) + seq![e] + s.skip(i));
    }
}

/// `name_lt` is a strict order, and total: of two different names one
/// comes before the other.
proof fn lemma_name_order(a: Seq<char>, b: Seq<char>, c: Seq<char>)
    ensures
        !(name_lt(a, b) && name_lt(b, a)),
        a != b ==> name_lt(a, b) || name_lt(b, a),
        name_lt(a, b) && name_lt(b, c) ==> name_lt(a, c),
    decreases a.len(),
{
    if a.len() > 0 && b.len() > 0 && c.len() > 0 && a[0] == b[0] && b[0] == c[0] {
        lemma_name_order(a.drop_first(), b.drop_first(), c.drop_first());
    } else if a.len() > 0 && b.len() > 0 && a[0] == b[0] {
        lemma_name_order(a.drop_first(), b.drop_first(), c);
    }
    if a.len() > 0 && b.len() > 0 && a[0] == b[0] && a != b {
        assert(a =~= seq![a[0]] + a.drop_first());
        assert(b =~= seq![b[0]] + b.drop_first());
    }
    if a.len() == 0 && b.len() == 0 {
        assert(a =~= b);
    }
}

/// Entries no later one of which has a name before an earlier one.
pub open spec fn ordered_by_name(s: Seq<(Seq<char>, InodeId)>) -> bool {
    forall|i: int, j: int| 0 <= i < j < s.len() ==> !name_lt(#[trigger] s[j].0, #[trigger] s[i].0)
}

proof fn lemma_insert_keeps(s: Seq<(Seq<char>, InodeId)>, e: (Seq<char>, InodeId), p: spec_fn((Seq<char>, InodeId)) -> bool)
    requires
        forall|k: int| 0 <= k < s.len() ==> p(#[trigger] s[k]),
        p(e),
    ensures
        insert_by_name(s, e).len() == s.len() + 1,
        forall|k: int| 0 <= k < insert_by_name(s, e).len() ==> p(#[trigger] insert_by_name(s, e)[k]),
    decreases s.len(),
{
    if s.len() > 0 && !name_lt(e.0, s[0].0) {
        let t = s.drop_first();
        assert forall|k: int| 0 <= k < t.len() implies p(#[trigger] t[k]) by {
            assert(t[k] == s[k + 1]);
        }
        lemma_insert_keeps(t, e, p);
        let r = insert_by_name(s, e);
        assert forall|k: int| 0 <= k < r.len() implies p(#[trigger] r[k]) by {
            if k > 0 {
                assert(r[k] == insert_by_name(t, e)[k - 1]);
            }
        }
    } else if s.len() > 0 {
        let r = insert_by_name(s, e);
        assert forall|k: int| 0 <= k < r.len() implies p(#[trigger] r[k]) by {
            if k > 0 {
                assert(r[k] == s[k - 1]);
            }
        }
    }
}

proof fn lemma_insert_ordered(s: Seq<(Seq<char>, InodeId)>, e: (Seq<char>, InodeId))
    requires
        ordered_by_name(s),
    ensures
        ordered_by_name(insert_by_name(s, e)),
    decreases s.len(),
{
    let r = insert_by_name(s, e);
    if s.len() == 0 {
    } else if name_lt(e.0, s[0].0) {
        assert forall|i: int, j: int| 0 <= i < j < r.len() implies !name_lt(#[trigger] r[j].0, #[trigger] r[i].0) by {
            if i == 0 {
                assert(r[j] == s[j - 1]);
                lemma_name_order(s[j - 1].0, e.0, s[0].0);
                if j - 1 > 0 {
                    assert(!name_lt(s[j - 1].0, s[0].0));
                }
                lemma_name_order(e.0, s[0].0, e.0);
            } else {
                assert(r[i] == s[i - 1] && r[j] == s[j - 1]);
            }
        }
    } else {
        let t = s.drop_first();
        assert(ordered_by_name(t)) by {
            assert forall|i: int, j: int| 0 <= i < j < t.len() implies !name_lt(#[trigger] t[j].0, #[trigger] t[i].0) by {
                assert(t[i] == s[i + 1] && t[j] == s[j + 1]);
            }
        }
        lemma_insert_ordered(t, e);
        let s0 = s[0];
        let p = |x: (Seq<char>, InodeId)| !name_lt(x.0, s0.0);
        assert forall|k: int| 0 <= k < t.len() implies p(#[trigger] t[k]) by {
            assert(t[k] == s[k + 1]);
        }
        lemma_insert_keeps(t, e, p);
        let ti = insert_by_name(t, e);
        assert forall|i: int, j: int| 0 <= i < j < r.len() implies !name_lt(#[trigger] r[j].0, #[trigger] r[i].0) by {
            assert(r[j] == ti[j - 1]);
            if i == 0 {
                assert(p(ti[j - 1]));
            } else {
                assert(r[i] == ti[i - 1]);
            }
        }
    }
}

/// A directory listing comes out ordered by name.
pub proof fn lemma_listing_ordered(s: Seq<(Seq<char>, InodeId)>)
    ensures
        ordered_by_name(by_name(s)),
        by_name(s).len() == s.len(),
    decreases s.len(),
{
    if s.len() > 0 {
        lemma_listing_ordered(s.drop_last());
        lemma_insert_ordered(by_name(s.drop_last()), s.last());
        lemma_insert_keeps(by_name(s.drop_last()), s.last(), |x: (Seq<char>, InodeId)| true);
    }
}

/// Whether name `a` comes before name `b`.
fn chars_before(a: &Vec<char>, b: &Vec<char>) -> (r: bool)
    ensures
        r == name_lt(a@, b@),
{
    let mut i: usize = 0;
    assert(a@.subrange(0, a@.len() as int) =~= a@);
    assert(b@.subrange(0, b@.len() as int) =~= b@);
    while i < a.len() && i < b.len() && a[i] == b[i]
        invariant
            i <= a@.len() && i <= b@.len(),
            name_lt(a@, b@) == name_lt(a@.subrange(i as int, a@.len() as int), b@.subrange(i as int, b@.len() as int)),
        decreases a@.len() - i,
    {
        assert(a@.subrange(i as int, a@.len() as int).drop_first() =~= a@.subrange(i + 1, a@.len() as int));
        assert(b@.subrange(i as int, b@.len() as int).drop_first() =~= b@.subrange(i + 1, b@.len() as int));
        i = i + 1;
    }
    let ghost ra = a@.subrange(i as int, a@.len() as int);
    let ghost rb = b@.subrange(i as int, b@.len() as int);
    if i == a.len() {
        i < b.len()
    } else if i == b.len() {
        false
    } else {
        assert(ra[0] == a@[i as int] && rb[0] == b@[i as int]);
        a[i] < b[i]
    }
}

/// `v` ordered by name, as a directory listing shows it.
fn order_by_name(v: &Vec<(String, InodeId)>) -> (r: Vec<(String, InodeId)>)
    ensures
        r@.map_values(|e: (String, InodeId)| (e.0@, e.1)) == by_name(v@.map_values(|e: (String, InodeId)| (e.0@, e.1))),
{
    let ghost vs = v@.map_values(|e: (String, InodeId)| (e.0@, e.1));
    let mut r: Vec<(String, InodeId)> = Vec::new();
    let mut k: usize = 0;
    assert(vs.take(0) =~= Seq::<(Seq<char>, InodeId)>::empty());
    assert(r@.map_values(|e: (String, InodeId)| (e.0@, e.1)) =~= Seq::<(Seq<char>, InodeId)>::empty());
    while k < v.len()
        invariant
            k <= v@.len(),
            vs == v@.map_values(|e: (String, InodeId)| (e.0@, e.1)),
            r@.map_values(|e: (String, InodeId)| (e.0@, e.1)) == by_name(vs.take(k as int)),
        decreases v@.len() - k,
    {
        let ghost cur = r@.map_values(|e: (String, InodeId)| (e.0@, e.1));
        let name = crate::discovery::chars_of(v[k].0.as_str());
        let mut i: usize = 0;
        let mut found = false;
        while i < r.len() && !found
            invariant
                i <= r@.len(),
                cur == r@.map_values(|e: (String, InodeId)| (e.0@, e.1)),
                name@ == v@[k as int].0@,
                forall|j: int| 0 <= j < i ==> !name_lt(name@, #[trigger] cur[j].0),
                found ==> i < r@.len() && name_lt(name@, cur[i as int].0),
            decreases r@.len() - i + (if found { 0int } else { 1int }),
        {
            let other = crate::discovery::chars_of(r[i].0.as_str());
            assert(other@ == cur[i as int].0);
            if chars_before(&name, &other) {
                found = true;
            } else {
                i = i + 1;
            }
        }
        let ghost e = vs[k as int];
        assert(e == (name@, v@[k as int].1));
        proof {
            lemma_insert_by_name_at(cur, e, i as int);
            assert(vs.take(k + 1).drop_last() =~= vs.take(k as int));
            assert(vs.take(k + 1).last() == e);
        }
        r.insert(i, (v[k].0.clone(), v[k].1));
        assert(r@.map_values(|e: (String, InodeId)| (e.0@, e.1)) =~= cur.take(i as int) + seq![e] + cur.skip(i as int));
        k = k + 1;
    }
    assert(vs.take(v@.len() as int) =~= vs);
    r
}

/// One path segment applied to the current node.
pub open spec fn seg_step(fs: Seq<Inode>, cur: Option<InodeId>, seg: Seq<char>) -> Option<InodeId> {
    match cur {
        None => None,
        Some(c) => if seg.len() == 0 || seg == seq!['.'] {
            Some(c)
        } else if seg == seq!['.', '.'] {
            match find_spec(fs, c) {
                Some(i) => match fs[i].content {
                    InodeContent::DirEntries(es) => match entry_lookup(es@, seq!['.', '.']) {
                        Some(p) => Some(p),
                        None => Some(ROOT_INODE),
                    },
                    _ => Some(c),
                },
                None => Some(c),
            }
        } else {
            lookup_in(fs, c, seg)
        },
    }
}

/// The entry `name` of directory `dir`.
pub open spec fn lookup_in(fs: Seq<Inode>, dir: InodeId, name: Seq<char>) -> Option<InodeId> {
    match find_spec(fs, dir) {
        Some(i) => match fs[i].content {
            InodeContent::DirEntries(es) => entry_lookup(es@, name),
            _ => None,
        },
        None => None,
    }
}

/// The state after reading the characters of a path: the node reached so far and the segment
/// being read.
pub open spec fn walk(fs: Seq<Inode>, p: Seq<char>) -> (Option<InodeId>, Seq<char>)
    decreases p.len(),
{
    if p.len() == 0 {
        (Some(ROOT_INODE), Seq::empty())
    } else {
        let (cur, seg) = walk(fs, p.drop_last());
        if p.last() == '/' {
            (seg_step(fs, cur, seg), Seq::empty())
        } else {
            (cur, seg.push(p.last()))
        }
    }
}

/// The node a path names: `/` is the root; otherwise segments are separated by `/`, empty and
/// `.` segments are skipped, `..` follows the directory's parent entry.
pub open spec fn resolve_spec(fs: Seq<Inode>, p: Seq<char>) -> Option<InodeId> {
    if p == seq!['/'] {
        Some(ROOT_INODE)
    } else {
        let (cur, seg) = walk(fs, p);
        seg_step(fs, cur, seg)
    }
}

/// `..` goes up one level: from a directory whose `..` entry names `p`, the
/// path one `/..` longer names `p` (for a directory made by `mkdir`, its
/// parent; the root only when that is the parent).
pub proof fn lemma_dotdot_goes_up(fs: Seq<Inode>, q: Seq<char>, d: InodeId, p: InodeId)
    requires
        resolve_spec(fs, q) == Some(d),
        lookup_in(fs, d, seq!['.', '.']) == Some(p),
    ensures
        resolve_spec(fs, q + seq!['/', '.', '.']) == Some(p),
{
    let q1 = q + seq!['/'];
    let q2 = q1 + seq!['.'];
    let q3 = q2 + seq!['.'];
    assert(q + seq!['/', '.', '.'] =~= q3);
    assert(q1.drop_last() =~= q);
    assert(q2.drop_last() =~= q1);
    assert(q3.drop_last() =~= q2);
    assert(q3 != seq!['/']) by {
        assert(q3.len() >= 3);
    }
    if q == seq!['/'] {
        assert(q.drop_last() =~= Seq::<char>::empty());
        assert(q.last() == '/');
        assert(walk(fs, q.drop_last()) == (Some(ROOT_INODE), Seq::<char>::empty()));
        assert(walk(fs, q) == (seg_step(fs, Some(ROOT_INODE), Seq::<char>::empty()), Seq::<char>::empty()));
    }
    let w = walk(fs, q);
    assert(walk(fs, q1) == (seg_step(fs, w.0, w.1), Seq::<char>::empty()));
    assert(walk(fs, q2).1 =~= seq!['.']);
    assert(walk(fs, q3).1 =~= seq!['.', '.']);
}

/// Reading characters other than `/` only lengthens the segment being read.
proof fn lemma_walk_append(fs: Seq<Inode>, x: Seq<char>, n: Seq<char>)
    requires
        !n.contains('/'),
    ensures
        walk(fs, x + n) == (walk(fs, x).0, walk(fs, x).1 + n),
    decreases n.len(),
{
    if n.len() == 0 {
        assert(x + n =~= x);
        assert(walk(fs, x).1 + n =~= walk(fs, x).1);
    } else {
        let n0 = n.drop_last();
        assert(!n0.contains('/')) by {
            if n0.contains('/') {
                let i = choose|i: int| 0 <= i < n0.len() && n0[i] == '/';
                assert(n[i] == '/');
            }
        }
        lemma_walk_append(fs, x, n0);
        assert((x + n).drop_last() =~= x + n0);
        assert((x + n).last() == n.last());
        assert(n.last() != '/') by {
            assert(n[n.len() - 1] == n.last());
        }
        assert(walk(fs, x).1 + n0.push(n.last()) =~= walk(fs, x).1 + n);
        assert(n0.push(n.last()) =~= n);
    }
}

/// A path one name longer names that entry of the directory the shorter path
/// names: `q/name` is the entry `name` of what `q` names (for a name that is
/// not empty, `.` or `..`, and has no `/`).
pub proof fn lemma_resolve_child(fs: Seq<Inode>, q: Seq<char>, name: Seq<char>)
    requires
        name.len() > 0,
        !name.contains('/'),
        name != seq!['.'],
        name != seq!['.', '.'],
    ensures
        resolve_spec(fs, q + seq!['/'] + name) == match resolve_spec(fs, q) {
            Some(d) => lookup_in(fs, d, name),
            None => None,
        },
{
    let q1 = q + seq!['/'];
    assert(q1.drop_last() =~= q);
    assert(q1.last() == '/');
    if q == seq!['/'] {
        assert(q.drop_last() =~= Seq::<char>::empty());
        assert(q.last() == '/');
        assert(walk(fs, q.drop_last()) == (Some(ROOT_INODE), Seq::<char>::empty()));
    }
    lemma_walk_append(fs, q1, name);
    assert(walk(fs, q1).1 + name =~= name) by {
        assert(walk(fs, q1).1 =~= Seq::<char>::empty());
    }
    assert(q + seq!['/'] + name != seq!['/']) by {
        assert((q + seq!['/'] + name).len() >= 2);
    }
}

/// `.` names the same node as the path before it.
pub proof fn lemma_resolve_dot(fs: Seq<Inode>, q: Seq<char>)
    ensures
        resolve_spec(fs, q + seq!['/', '.']) == resolve_spec(fs, q),
{
    let q1 = q + seq!['/'];
    let q2 = q1 + seq!['.'];
    assert(q + seq!['/', '.'] =~= q2);
    assert(q1.drop_last() =~= q);
    assert(q2.drop_last() =~= q1);
    if q == seq!['/'] {
        assert(q.drop_last() =~= Seq::<char>::empty());
        assert(q.last() == '/');
        assert(walk(fs, q.drop_last()) == (Some(ROOT_INODE), Seq::<char>::empty()));
    }
    let w = walk(fs, q);
    assert(walk(fs, q1) == (seg_step(fs, w.0, w.1), Seq::<char>::empty()));
    assert(walk(fs, q2).1 =~= seq!['.']);
    assert(q2 != seq!['/']) by {
        assert(q2.len() >= 2);
    }
}

/// With unique ids, the position of an id is the one that holds it.
pub proof fn lemma_find_unique(s: Seq<Inode>, id: InodeId, i: int)
    requires
        forall|a: int, b: int| 0 <= a < b < s.len() ==> s[a].id != s[b].id,
        0 <= i < s.len(),
        s[i].id == id,
    ensures
        find_spec(s, id) == Some(i),
{
    let k = choose|k: int| 0 <= k < s.len() && s[k].id == id;
    assert(s[k].id == s[i].id);
}

proof fn lemma_seg_none(fs: Seq<Inode>, seg: Seq<char>)
    ensures
        seg_step(fs, None, seg).is_none(),
{
}

proof fn lemma_walk_none(fs: Seq<Inode>, p: Seq<char>, k: int)
    requires
        0 <= k <= p.len(),
        walk(fs, p.subrange(0, k)).0.is_none(),
    ensures
        resolve_spec(fs, p).is_none() || p == seq!['/'],
    decreases p.len() - k,
{
    if k == p.len() {
        assert(p.subrange(0, k) =~= p);
    } else {
        assert(p.subrange(0, k + 1).drop_last() =~= p.subrange(0, k));
        lemma_walk_none(fs, p, k + 1);
    }
}

impl TmpFs {
    /// Ids are unique, below `next_inode`, and every directory names each entry once.
    pub closed spec fn wf(&self) -> bool {
        &&& forall|i: int, j: int| 0 <= i < j < self.inodes@.len() ==> self.inodes@[i].id != self.inodes@[j].id
        &&& forall|i: int| 0 <= i < self.inodes@.len() ==> self.inodes@[i].id < self.next_inode
            || self.next_inode == u64::MAX
        &&& self.next_inode >= 2
    }

    /// The nodes of the file system.
    pub closed spec fn view(&self) -> Seq<Inode> {
        self.inodes@
    }

    /// The id the next node gets.
    pub closed spec fn next_id(&self) -> u64 {
        self.next_inode
    }

    /// The tick stamped on changes.
    pub closed spec fn tick(&self) -> u64 {
        self.current_tick
    }

    /// The node with id `id`.
    pub open spec fn get(&self, id: InodeId) -> Option<Inode> {
        match find_spec(self@, id) {
            Some(i) => Some(self@[i]),
            None => None,
        }
    }

    /// The bytes of a file node.
    pub open spec fn file_data(&self, id: InodeId) -> Option<Seq<u8>> {
        match self.get(id) {
            Some(n) => match n.content {
                InodeContent::FileData(d) => Some(d@),
                _ => None,
            },
            None => None,
        }
    }

    /// An empty file system with no nodes; ids start at 2 (1 is the root).
    pub fn empty() -> (fs: TmpFs)
        ensures
            fs.wf(),
            fs@.len() == 0,
            fs.next_id() == 2,
            fs.tick() == 0,
    {
        TmpFs { inodes: Vec::new(), current_tick: 0, next_inode: 2 }
    }


    /// The standard tree: `/` with bin, dev, etc, mod, proc, tmp and var; `/etc/version`,
    /// `/etc/hostname`; `/proc/uptime`, `/proc/meminfo`, `/proc/modules`.
    pub fn new() -> (fs: TmpFs)
        ensures
            fs.wf(),
            fs.get(ROOT_INODE).is_some(),
            fs.get(ROOT_INODE).unwrap().kind == InodeKind::Directory,
            fs.get(ROOT_INODE).unwrap().content matches InodeContent::DirEntries(es)
                && visible_entries(es@) == root_listing(),
            forall|k: int| 0 <= k < 7 ==> {
                &&& fs.get(#[trigger] root_listing()[k].1).is_some()
                &&& fs.get(root_listing()[k].1).unwrap().kind == InodeKind::Directory
                &&& fs.get(root_listing()[k].1).unwrap().name@ == root_listing()[k].0
            },
    {
        let mut fs = TmpFs::empty();
        fs.init_root_structure();
        proof {
            lemma_find_unique(fs@, ROOT_INODE, 0);
            assert forall|k: int| 0 <= k < 7 implies {
                &&& fs.get(#[trigger] root_listing()[k].1).is_some()
                &&& fs.get(root_listing()[k].1).unwrap().kind == InodeKind::Directory
                &&& fs.get(root_listing()[k].1).unwrap().name@ == root_listing()[k].0
            } by {
                lemma_find_unique(fs@, root_listing()[k].1, k + 1);
            }
        }
        fs
    }

    fn init_root_structure(&mut self)
        requires
            old(self)@.len() == 0,
            old(self).wf(),
            old(self).next_id() == 2,
        ensures
            final(self).wf(),
            final(self)@.len() >= 8,
            final(self)@[0].id == ROOT_INODE,
            final(self)@[0].kind == InodeKind::Directory,
            final(self)@[0].content matches InodeContent::DirEntries(es)
                && visible_entries(es@) == root_listing(),
            forall|k: int| 0 <= k < 7 ==> {
                &&& final(self)@[k + 1].id == (#[trigger] root_listing()[k]).1
                &&& final(self)@[k + 1].kind == InodeKind::Directory
                &&& final(self)@[k + 1].name@ == root_listing()[k].0
            },
    {
        self.create_dir_inode(ROOT_INODE, "/", 0);
        proof {
            lemma_find_unique(self@, ROOT_INODE, 0);
            reveal_strlit(".");
        }
        let names = ["bin", "dev", "etc", "mod", "proc", "tmp", "var"];
        proof {
            reveal_strlit("bin");
            reveal_strlit("dev");
            reveal_strlit("etc");
            reveal_strlit("mod");
            reveal_strlit("proc");
            reveal_strlit("tmp");
            reveal_strlit("var");
        }
        let mut k: usize = 0;
        while k < 7
            invariant
                k <= 7,
                self.wf(),
                self@.len() == 1 + k,
                self.next_id() == 2 + k,
                self@[0].id == ROOT_INODE,
                self@[0].kind == InodeKind::Directory,
                forall|j: int| 0 <= j < 7 ==> names[j]@ == #[trigger] root_listing()[j].0,
                self@[0].content matches InodeContent::DirEntries(es)
                    && visible_entries(es@) == root_listing().take(k as int),
                forall|j: int| 0 <= j < k ==> {
                    &&& self@[j + 1].id == (#[trigger] root_listing()[j]).1
                    &&& self@[j + 1].kind == InodeKind::Directory
                    &&& self@[j + 1].name@ == root_listing()[j].0
                },
            decreases 7 - k,
        {
            let id = self.alloc_inode_id();
            proof {
                if find_spec(self@, id).is_some() {
                    let j = find_spec(self@, id).unwrap();
                    assert(self@[j].id < id);
                }
                lemma_find_unique(self@, ROOT_INODE, 0);
            }
            let ghost before = self@;
            self.create_dir_inode(id, names[k], ROOT_INODE);
            proof {
                assert(root_listing()[k as int].0 == names[k as int]@);
                let es = before[0].content->DirEntries_0;
                let nes = self@[0].content->DirEntries_0;
                assert(nes@.drop_last() == es@);
                assert(visible(nes@.last().0@));
                assert(root_listing().take(k + 1).drop_last() =~= root_listing().take(k as int));
                assert(visible_entries(nes@) =~= root_listing().take(k + 1));
                assert forall|j: int| 0 <= j < k + 1 implies {
                    &&& self@[j + 1].id == (#[trigger] root_listing()[j]).1
                    &&& self@[j + 1].kind == InodeKind::Directory
                    &&& self@[j + 1].name@ == root_listing()[j].0
                } by {
                    if j < k {
                        assert(before[j + 1].id != ROOT_INODE);
                    }
                }
            }
            k = k + 1;
        }
        proof {
            assert(root_listing().take(7) =~= root_listing());
        }
        let etc_id = match self.find_in_dir(ROOT_INODE, "etc") { Some(i) => i, None => 0 };
        if etc_id > ROOT_INODE {
            self.add_root_file(etc_id, "version", "SOC-D Kernel v0.1.0-alpha\nFase 1 - Kernel Base\n".as_bytes());
            self.add_root_file(etc_id, "hostname", "socd-node-1\n".as_bytes());
        }
        let proc_id = match self.find_in_dir(ROOT_INODE, "proc") { Some(i) => i, None => 0 };
        if proc_id > ROOT_INODE {
            self.add_root_file(proc_id, "uptime", "0\n".as_bytes());
            self.add_root_file(proc_id, "meminfo", "MemTotal: 262144 kB\n".as_bytes());
            self.add_root_file(proc_id, "modules", "(nenhum modulo externo carregado)\n".as_bytes());
        }
    }

    /// Adds one of the files of a fresh file system under a directory other
    /// than the root; the root and its directories stay as they are.
    fn add_root_file(&mut self, dir_id: InodeId, name: &str, data: &[u8])
        requires
            old(self).wf(),
            old(self).next_id() < u64::MAX,
            dir_id != ROOT_INODE,
            old(self)@.len() >= 8,
            old(self)@[0].id == ROOT_INODE,
        ensures
            final(self).wf(),
            final(self).next_id() <= old(self).next_id() + 1,
            final(self)@.len() >= old(self)@.len(),
            forall|k: int| 0 <= k < old(self)@.len() ==> final(self)@[k].id == old(self)@[k].id
                && final(self)@[k].kind == old(self)@[k].kind && final(self)@[k].name == old(self)@[k].name,
            final(self)@[0] == old(self)@[0],
    {
        let _ = self.create_file(dir_id, name, data);
    }

    /// Restores the id counter (after loading a snapshot).
    pub fn set_next_inode(&mut self, next: u64)
        requires
            old(self).wf(),
            next >= old(self).next_id(),
        ensures
            final(self).wf(),
            final(self)@ == old(self)@,
            final(self).next_id() == next,
            final(self).tick() == old(self).tick(),
    {
        self.next_inode = next;
    }

    fn find(&self, id: InodeId) -> (r: Option<usize>)
        requires
            self.wf(),
        ensures
            match r {
                Some(i) => i < self@.len() && self@[i as int].id == id && find_spec(self@, id) == Some(i as int),
                None => find_spec(self@, id).is_none(),
            },
    {
        let mut i: usize = 0;
        while i < self.inodes.len()
            invariant
                self.wf(),
                i <= self.inodes@.len(),
                forall|j: int| 0 <= j < i ==> self.inodes@[j].id != id,
            decreases self.inodes@.len() - i,
        {
            if self.inodes[i].id == id {
                proof {
                    let k = choose|k: int| 0 <= k < self@.len() && self@[k].id == id;
                    assert(k == i);
                }
                return Some(i);
            }
            i = i + 1;
        }
        None
    }

    fn alloc_inode_id(&mut self) -> (id: InodeId)
        requires
            old(self).wf(),
            old(self).next_id() < u64::MAX,
        ensures
            final(self).wf(),
            id == old(self).next_id(),
            final(self).next_id() == id + 1,
            final(self)@ == old(self)@,
            final(self).tick() == old(self).tick(),
    {
        let id = self.next_inode;
        self.next_inode = self.next_inode + 1;
        id
    }

    /// Looks `name` up in directory `dir_id`.
    pub fn find_in_dir(&self, dir_id: InodeId, name: &str) -> (r: Option<InodeId>)
        requires
            self.wf(),
        ensures
            r == lookup_in(self@, dir_id, name@),
    {
        match self.find(dir_id) {
            None => None,
            Some(i) => match &self.inodes[i].content {
                InodeContent::DirEntries(es) => lookup_entries(es, name),
                _ => None,
            },
        }
    }

    fn add_entry(&mut self, dir_id: InodeId, name: &str, id: InodeId)
        requires
            old(self).wf(),
        ensures
            final(self).wf(),
            final(self).next_id() == old(self).next_id(),
            final(self).tick() == old(self).tick(),
            final(self)@.len() == old(self)@.len(),
            forall|k: int| 0 <= k < old(self)@.len() ==> final(self)@[k].id == old(self)@[k].id && final(self)@[k].kind == old(self)@[k].kind,
            forall|k: int| 0 <= k < old(self)@.len() && old(self)@[k].id != dir_id ==> final(self)@[k] == old(self)@[k],
            match find_spec(old(self)@, dir_id) {
                Some(i) => match old(self)@[i].content {
                    InodeContent::DirEntries(es) => {
                        &&& final(self)@[i].content matches InodeContent::DirEntries(nes)
                        &&& nes@ == es@.push((nes@.last().0, id)) && nes@.last().0@ == name@
                        &&& final(self)@[i].name == old(self)@[i].name && final(self)@[i].kind == old(self)@[i].kind
                        &&& final(self)@[i].perms == old(self)@[i].perms
                        &&& final(self)@[i].created_at == old(self)@[i].created_at
                        &&& final(self)@[i].modified_at == old(self).tick()
                    },
                    _ => final(self)@ == old(self)@,
                },
                None => final(self)@ == old(self)@,
            },
    {
        match self.find(dir_id) {
            None => {},
            Some(i) => {
                let is_dir = match &self.inodes[i].content {
                    InodeContent::DirEntries(_) => true,
                    _ => false,
                };
                if is_dir {
                    let mut node = self.inodes.remove(i);
                    match node.content {
                        InodeContent::DirEntries(mut es) => {
                            es.push((String::from_str(name), id));
                            node.content = InodeContent::DirEntries(es);
                        },
                        other => {
                            node.content = other;
                        },
                    }
                    node.modified_at = self.current_tick;
                    self.inodes.insert(i, node);
                    proof {
                        assert forall|k: int| 0 <= k < self.inodes@.len() implies self.inodes@[k].id == old(self).inodes@[k].id && self.inodes@[k].kind == old(self).inodes@[k].kind by {
                            if k != i {
                                assert(self.inodes@[k] == old(self).inodes@[k]);
                            }
                        }
                    }
                }
            },
        }
    }

    fn create_dir_inode(&mut self, id: InodeId, name: &str, parent: InodeId)
        requires
            old(self).wf(),
            id < old(self).next_id(),
            find_spec(old(self)@, id).is_none(),
        ensures
            final(self).wf(),
            final(self).next_id() == old(self).next_id(),
            final(self).tick() == old(self).tick(),
            final(self)@.len() == old(self)@.len() + 1,
            final(self).get(id).is_some(),
            final(self).get(id).unwrap().kind == InodeKind::Directory,
            final(self).get(id).unwrap().name@ == name@,
            lookup_in(final(self)@, id, seq!['.']) == Some(id),
            forall|k: int| 0 <= k < old(self)@.len() ==> final(self)@[k].id == old(self)@[k].id && final(self)@[k].kind == old(self)@[k].kind,
            parent != 0 ==> lookup_in(final(self)@, id, seq!['.', '.']) == Some(parent),
            final(self)@[old(self)@.len() as int].id == id,
            final(self)@[old(self)@.len() as int].kind == InodeKind::Directory,
            final(self)@[old(self)@.len() as int].name@ == name@,
            final(self)@[old(self)@.len() as int].content matches InodeContent::DirEntries(es)
                && visible_entries(es@) == Seq::<(Seq<char>, InodeId)>::empty(),
            forall|k: int| 0 <= k < old(self)@.len() && (old(self)@[k].id != parent || parent == 0)
                ==> final(self)@[k] == old(self)@[k],
            parent != 0 ==> match find_spec(old(self)@, parent) {
                Some(i) => match old(self)@[i].content {
                    InodeContent::DirEntries(es) => {
                        &&& final(self)@[i].content matches InodeContent::DirEntries(nes)
                        &&& nes@ == es@.push((nes@.last().0, id)) && nes@.last().0@ == name@
                        &&& final(self)@[i].name == old(self)@[i].name && final(self)@[i].kind == old(self)@[i].kind
                    },
                    _ => true,
                },
                None => true,
            },
    {
        let mut entries: Vec<(String, InodeId)> = Vec::new();
        entries.push((String::from_str("."), id));
        if parent != 0 {
            entries.push((String::from_str(".."), parent));
        }
        proof {
            reveal_with_fuel(entry_lookup, 3);
            reveal_with_fuel(visible_entries, 3);
            reveal_strlit(".");
            reveal_strlit("..");
            assert(entries@[0].0@ == seq!['.']);
            if parent != 0 {
                assert(entries@[1].0@ == seq!['.', '.']);
                assert(entries@.drop_first()[0].0@ == seq!['.', '.']);
            }
        }
        let inode = Inode {
            id,
            name: String::from_str(name),
            kind: InodeKind::Directory,
            perms: Permissions::full(),
            created_at: self.current_tick,
            modified_at: self.current_tick,
            content: InodeContent::DirEntries(entries),
        };
        let ghost before = self.inodes@;
        self.inodes.push(inode);
        proof {
            let n = before.len() as int;
            assert(self.inodes@[n].id == id);
            lemma_find_unique(self.inodes@, id, n);
        }
        if parent != 0 && parent != id {
            self.add_entry(parent, name, id);
            proof {
                let n = before.len() as int;
                assert(self.inodes@[n] == inode) by {
                    assert(old(self)@.len() + 1 == self.inodes@.len());
                }
                lemma_find_unique(self.inodes@, id, n);
            }
        }
    }

    /// Creates file `name` holding `data` in directory `dir_id`.
    pub fn create_file(&mut self, dir_id: InodeId, name: &str, data: &[u8]) -> (r: Result<InodeId, FsError>)
        requires
            old(self).wf(),
            old(self).next_id() < u64::MAX,
        ensures
            final(self).wf(),
            final(self).tick() == old(self).tick(),
            final(self)@.len() >= old(self)@.len(),
            forall|k: int| 0 <= k < old(self)@.len() ==> final(self)@[k].id == old(self)@[k].id && final(self)@[k].kind == old(self)@[k].kind
                && final(self)@[k].name == old(self)@[k].name,
            forall|k: int| 0 <= k < old(self)@.len() && old(self)@[k].id != dir_id ==> final(self)@[k] == old(self)@[k],
            match r {
                Err(FsError::NotFound(s)) => old(self).get(dir_id).is_none() && s@ == dec_of(dir_id as nat)
                    && final(self)@ == old(self)@ && final(self).next_id() == old(self).next_id(),
                Err(FsError::NotADirectory(s)) => old(self).get(dir_id).is_some()
                    && !is_dir_node(old(self).get(dir_id).unwrap())
                    && s@ == old(self).get(dir_id).unwrap().name@
                    && final(self)@ == old(self)@ && final(self).next_id() == old(self).next_id(),
                Err(FsError::AlreadyExists(s)) => old(self).get(dir_id).is_some()
                    && is_dir_node(old(self).get(dir_id).unwrap())
                    && lookup_in(old(self)@, dir_id, name@).is_some() && s@ == name@
                    && final(self)@ == old(self)@ && final(self).next_id() == old(self).next_id(),
                Err(_) => false,
                Ok(id) => {
                    &&& old(self).get(dir_id).is_some() && is_dir_node(old(self).get(dir_id).unwrap())
                    &&& lookup_in(old(self)@, dir_id, name@).is_none()
                    &&& id == old(self).next_id() && final(self).next_id() == id + 1
                    &&& final(self).file_data(id) == Some(data@)
                    &&& final(self).get(id).unwrap().name@ == name@
                    &&& final(self).get(id).unwrap().kind == InodeKind::File
                    &&& final(self).get(id).unwrap().perms == (Permissions { read: true, write: true, execute: false })
                    &&& lookup_in(final(self)@, dir_id, name@) == Some(id)
                },
            },
    {
        match self.find(dir_id) {
            None => return Err(FsError::NotFound(id_text(dir_id))),
            Some(i) => {
                let is_dir = self.inodes[i].kind == InodeKind::Directory && match &self.inodes[i].content {
                    InodeContent::DirEntries(_) => true,
                    _ => false,
                };
                if !is_dir {
                    return Err(FsError::NotADirectory(self.inodes[i].name.clone()));
                }
            },
        }
        if self.find_in_dir(dir_id, name).is_some() {
            return Err(FsError::AlreadyExists(String::from_str(name)));
        }
        let file_id = self.alloc_inode_id();
        let mut bytes: Vec<u8> = Vec::new();
        crate::util::push_all(&mut bytes, data);
        let inode = Inode {
            id: file_id,
            name: String::from_str(name),
            kind: InodeKind::File,
            perms: Permissions::read_write(),
            created_at: self.current_tick,
            modified_at: self.current_tick,
            content: InodeContent::FileData(bytes),
        };
        let ghost before = self.inodes@;
        self.inodes.push(inode);
        proof {
            let n = before.len() as int;
            assert(self.inodes@[n].id == file_id);
            lemma_find_unique(self.inodes@, file_id, n);
            let di = find_spec(before, dir_id).unwrap();
            assert(self.inodes@[di] == before[di]);
            lemma_find_unique(self.inodes@, dir_id, di);
        }
        let ghost mid = self.inodes@;
        self.add_entry(dir_id, name, file_id);
        proof {
            let n = before.len() as int;
            assert(self.inodes@[n] == mid[n]);
            lemma_find_unique(self.inodes@, file_id, n);
            let i = find_spec(mid, dir_id).unwrap();
            lemma_find_unique(self.inodes@, dir_id, i);
            match mid[i].content {
                InodeContent::DirEntries(es) => {
                    if let InodeContent::DirEntries(nes) = self.inodes@[i].content {
                        lemma_lookup_push(es@, nes@.last(), name@);
                    }
                },
                _ => {},
            }
        }
        Ok(file_id)
    }

    /// Creates directory `name` under `parent_id`.
    pub fn mkdir(&mut self, parent_id: InodeId, name: &str) -> (r: Result<InodeId, FsError>)
        requires
            old(self).wf(),
            old(self).next_id() < u64::MAX,
        ensures
            final(self).wf(),
            match r {
                Err(FsError::AlreadyExists(s)) => lookup_in(old(self)@, parent_id, name@).is_some()
                    && s@ == name@ && final(self)@ == old(self)@,
                Err(_) => false,
                Ok(id) => {
                    &&& lookup_in(old(self)@, parent_id, name@).is_none()
                    &&& id == old(self).next_id() && final(self).next_id() == id + 1
                    &&& final(self).get(id).is_some()
                    &&& final(self).get(id).unwrap().kind == InodeKind::Directory
                    &&& final(self).get(id).unwrap().name@ == name@
                    &&& parent_id != 0 ==> lookup_in(final(self)@, id, seq!['.', '.']) == Some(parent_id)
                    &&& parent_id != 0 ==> seg_step(final(self)@, Some(id), seq!['.', '.']) == Some(parent_id)
                },
            },
    {
        if self.find_in_dir(parent_id, name).is_some() {
            return Err(FsError::AlreadyExists(String::from_str(name)));
        }
        let id = self.alloc_inode_id();
        proof {
            if find_spec(self@, id).is_some() {
                let k = find_spec(self@, id).unwrap();
                assert(self@[k].id < id);
            }
        }
        self.create_dir_inode(id, name, parent_id);
        Ok(id)
    }

    /// The bytes of file `inode_id`.
    pub fn read_file(&self, inode_id: InodeId) -> (r: Result<&[u8], FsError>)
        requires
            self.wf(),
        ensures
            match r {
                Ok(d) => self.file_data(inode_id) == Some(d@),
                Err(FsError::NotFound(s)) => self.get(inode_id).is_none() && s@ == dec_of(inode_id as nat),
                Err(FsError::NotAFile(s)) => self.get(inode_id).is_some() && self.file_data(inode_id).is_none()
                    && s@ == self.get(inode_id).unwrap().name@,
                Err(_) => false,
            },
    {
        match self.find(inode_id) {
            None => Err(FsError::NotFound(id_text(inode_id))),
            Some(i) => match &self.inodes[i].content {
                InodeContent::FileData(d) => Ok(d.as_slice()),
                _ => Err(FsError::NotAFile(self.inodes[i].name.clone())),
            },
        }
    }

    /// Replaces the bytes of file `inode_id`.
    pub fn write_file(&mut self, inode_id: InodeId, data: &[u8]) -> (r: Result<(), FsError>)
        requires
            old(self).wf(),
        ensures
            final(self).wf(),
            final(self).next_id() == old(self).next_id(),
            final(self).tick() == old(self).tick(),
            match r {
                Ok(()) => {
                    &&& old(self).file_data(inode_id).is_some()
                    &&& old(self).get(inode_id).unwrap().perms.write
                    &&& final(self).file_data(inode_id) == Some(data@)
                    &&& final(self)@.len() == old(self)@.len()
                    &&& forall|k: int| 0 <= k < old(self)@.len() && old(self)@[k].id != inode_id ==> final(self)@[k] == old(self)@[k]
                },
                Err(FsError::NotFound(s)) => old(self).get(inode_id).is_none() && final(self)@ == old(self)@
                    && s@ == dec_of(inode_id as nat),
                Err(FsError::PermissionDenied(s)) => old(self).get(inode_id).is_some()
                    && !old(self).get(inode_id).unwrap().perms.write && final(self)@ == old(self)@
                    && s@ == old(self).get(inode_id).unwrap().name@,
                Err(FsError::NotAFile(s)) => old(self).get(inode_id).is_some()
                    && old(self).get(inode_id).unwrap().perms.write && old(self).file_data(inode_id).is_none()
                    && final(self)@ == old(self)@ && s@ == old(self).get(inode_id).unwrap().name@,
                Err(_) => false,
            },
    {
        match self.find(inode_id) {
            None => Err(FsError::NotFound(id_text(inode_id))),
            Some(i) => {
                if !self.inodes[i].perms.write {
                    return Err(FsError::PermissionDenied(self.inodes[i].name.clone()));
                }
                let is_file = match &self.inodes[i].content {
                    InodeContent::FileData(_) => true,
                    _ => false,
                };
                if !is_file {
                    return Err(FsError::NotAFile(self.inodes[i].name.clone()));
                }
                let mut node = self.inodes.remove(i);
                let mut bytes: Vec<u8> = Vec::new();
                crate::util::push_all(&mut bytes, data);
                node.content = InodeContent::FileData(bytes);
                node.modified_at = self.current_tick;
                self.inodes.insert(i, node);
                proof {
                    assert(self.inodes@ =~= old(self).inodes@.update(i as int, node));
                    lemma_find_unique(self.inodes@, inode_id, i as int);
                }
                Ok(())
            },
        }
    }

    /// The visible entries of directory `dir_id`, ordered by name.
    pub fn list_dir(&self, dir_id: InodeId) -> (r: Result<Vec<(String, InodeId)>, FsError>)
        requires
            self.wf(),
        ensures
            match r {
                Ok(v) => self.get(dir_id).is_some() && (self.get(dir_id).unwrap().content matches InodeContent::DirEntries(es)
                    && v@.map_values(|e: (String, InodeId)| (e.0@, e.1)) == by_name(visible_entries(es@))),
                Err(FsError::NotFound(s)) => self.get(dir_id).is_none() && s@ == dec_of(dir_id as nat),
                Err(FsError::NotADirectory(s)) => self.get(dir_id).is_some()
                    && !(self.get(dir_id).unwrap().content is DirEntries) && s@ == self.get(dir_id).unwrap().name@,
                Err(_) => false,
            },
    {
        match self.find(dir_id) {
            None => Err(FsError::NotFound(id_text(dir_id))),
            Some(i) => match &self.inodes[i].content {
                InodeContent::DirEntries(es) => {
                    let dot = String::from_str(".");
                    let dotdot = String::from_str("..");
                    proof {
                        reveal_strlit(".");
                        reveal_strlit("..");
                    }
                    let mut out: Vec<(String, InodeId)> = Vec::new();
                    let mut k: usize = 0;
                    while k < es.len()
                        invariant
                            k <= es@.len(),
                            dot@ == seq!['.'],
                            dotdot@ == seq!['.', '.'],
                            out@.map_values(|e: (String, InodeId)| (e.0@, e.1)) == visible_entries(es@.subrange(0, k as int)),
                        decreases es@.len() - k,
                    {
                        assert(es@.subrange(0, k + 1).drop_last() =~= es@.subrange(0, k as int));
                        let e = &es[k];
                        if !(e.0 == dot) && !(e.0 == dotdot) {
                            out.push((e.0.clone(), e.1));
                            assert(out@.map_values(|e: (String, InodeId)| (e.0@, e.1)) =~= visible_entries(es@.subrange(0, k + 1)));
                        }
                        k = k + 1;
                    }
                    assert(es@.subrange(0, es@.len() as int) =~= es@);
                    Ok(order_by_name(&out))
                },
                _ => Err(FsError::NotADirectory(self.inodes[i].name.clone())),
            },
        }
    }

    fn apply_segment(&self, cur: InodeId, seg: &String) -> (r: Option<InodeId>)
        requires
            self.wf(),
        ensures
            r == seg_step(self@, Some(cur), seg@),
    {
        let dot = String::from_str(".");
        let dotdot = String::from_str("..");
        proof {
            reveal_strlit(".");
            reveal_strlit("..");
            assert(dot@ =~= seq!['.']);
            assert(dotdot@ =~= seq!['.', '.']);
        }
        if seg.as_str().unicode_len() == 0 || *seg == dot {
            return Some(cur);
        }
        if *seg == dotdot {
            return match self.find(cur) {
                Some(i) => match &self.inodes[i].content {
                    InodeContent::DirEntries(es) => match lookup_entries(es, "..") {
                        Some(p) => Some(p),
                        None => Some(ROOT_INODE),
                    },
                    _ => Some(cur),
                },
                None => Some(cur),
            };
        }
        self.find_in_dir(cur, seg.as_str())
    }

    /// The node a path names (see `resolve_spec`); `NotFound` with the path otherwise.
    pub fn resolve_path(&self, path: &str) -> (r: Result<InodeId, FsError>)
        requires
            self.wf(),
        ensures
            match r {
                Ok(id) => resolve_spec(self@, path@) == Some(id),
                Err(FsError::NotFound(s)) => resolve_spec(self@, path@).is_none() && s@ == path@,
                Err(_) => false,
            },
    {
        let ghost p = path@;
        let n = path.unicode_len();
        if n == 1 && path.get_char(0) == '/' {
            assert(p =~= seq!['/']);
            return Ok(ROOT_INODE);
        }
        let mut cur: InodeId = ROOT_INODE;
        let mut seg = String::new();
        let mut i: usize = 0;
        while i < n
            invariant
                i <= n,
                n == p.len(),
                p == path@,
                self.wf(),
                walk(self@, p.subrange(0, i as int)) == (Some(cur), seg@),
                p != seq!['/'],
            decreases n - i,
        {
            let c = path.get_char(i);
            assert(p.subrange(0, i + 1).drop_last() =~= p.subrange(0, i as int));
            if c == '/' {
                match self.apply_segment(cur, &seg) {
                    Some(next) => {
                        cur = next;
                    },
                    None => {
                        proof {
                            lemma_walk_none(self@, p, i + 1);
                        }
                        return Err(FsError::NotFound(String::from_str(path)));
                    },
                }
                seg = String::new();
            } else {
                crate::util::string_push(&mut seg, c);
            }
            i = i + 1;
        }
        assert(p.subrange(0, n as int) =~= p);
        match self.apply_segment(cur, &seg) {
            Some(id) => Ok(id),
            None => Err(FsError::NotFound(String::from_str(path))),
        }
    }

    /// The stat of a node.
    pub fn stat(&self, inode_id: InodeId) -> (r: Option<FsStat>)
        requires
            self.wf(),
            forall|k: int| 0 <= k < self@.len() ==> inode_size(self@[k]) <= usize::MAX,
        ensures
            match r {
                Some(st) => self.get(inode_id).is_some() && ({
                    let n = self.get(inode_id).unwrap();
                    st.id == n.id && st.name@ == n.name@ && st.kind == n.kind && st.size == inode_size(n) && st.perms == n.perms
                }),
                None => self.get(inode_id).is_none(),
            },
    {
        match self.find(inode_id) {
            None => None,
            Some(i) => {
                let n = &self.inodes[i];
                Some(FsStat { id: n.id, name: n.name.clone(), kind: n.kind, size: n.size(), perms: n.perms })
            },
        }
    }

    /// Node count, total size, and the numbers of files and directories.
    pub fn fs_stats(&self) -> (st: TmpFsStats)
        requires
            total_size(self@) <= usize::MAX,
        ensures
            st.total_inodes == self@.len(),
            st.total_bytes == total_size(self@),
            st.files == count_kind(self@, InodeKind::File),
            st.dirs == count_kind(self@, InodeKind::Directory),
    {
        let mut bytes: usize = 0;
        let mut files: usize = 0;
        let mut dirs: usize = 0;
        let mut k: usize = 0;
        while k < self.inodes.len()
            invariant
                k <= self.inodes@.len(),
                total_size(self@) <= usize::MAX,
                bytes == total_size(self@.subrange(0, k as int)),
                files == count_kind(self@.subrange(0, k as int), InodeKind::File),
                dirs == count_kind(self@.subrange(0, k as int), InodeKind::Directory),
                files <= k && dirs <= k,
            decreases self.inodes@.len() - k,
        {
            assert(self@.subrange(0, k + 1).drop_last() =~= self@.subrange(0, k as int));
            proof {
                lemma_total_prefix(self@, k + 1);
            }
            let n = &self.inodes[k];
            bytes = bytes + n.size();
            if n.kind == InodeKind::File {
                files = files + 1;
            }
            if n.kind == InodeKind::Directory {
                dirs = dirs + 1;
            }
            k = k + 1;
        }
        assert(self@.subrange(0, self@.len() as int) =~= self@);
        TmpFsStats { total_inodes: self.inodes.len(), total_bytes: bytes, files, dirs }
    }
}

impl TmpFs {
    /// The snapshot of this file system, with the id counter `next_inode`.
    pub fn serialize(&self, next_inode: u64) -> (r: Vec<u8>)
        ensures
            r@ == snapshot_enc(inodes_view(self@), next_inode, self.tick()),
    {
        write_snapshot(&self.inodes, next_inode, self.current_tick)
    }

    /// The file system a snapshot holds, with the id counter it saved. The
    /// restored file system counts ids from `restored_next`.
    pub fn deserialize(data: &[u8]) -> (r: Option<(TmpFs, u64)>)
        ensures
            match r {
                None => parse_snapshot(data@).is_none(),
                Some((fs, next)) => {
                    &&& parse_snapshot(data@) == Some((inodes_view(fs@), fs.tick(), next))
                    &&& fs.wf()
                    &&& fs.next_id() == restored_next(inodes_view(fs@), next)
                },
            },
    {
        match read_snapshot(data) {
            None => None,
            Some((ns, tick, next)) => {
                proof {
                    lemma_parse_inodes_unique(data@, 36, le_at(data@, 32, 4), Seq::empty());
                }
                let ghost iv = inodes_view(ns@);
                assert forall|a: int, b: int| 0 <= a < b < ns@.len() implies ns@[a].id != ns@[b].id by {
                    assert(iv[a].id == ns@[a].id && iv[b].id == ns@[b].id);
                }
                let start: u64 = if next < 2 { 2 } else { next };
                let mut c: u64 = start;
                let mut i: usize = 0;
                assert(iv.take(0) =~= Seq::<InodeView>::empty());
                while i < ns.len()
                    invariant
                        iv == inodes_view(ns@),
                        i <= ns@.len(),
                        c >= 2,
                        c == counter_after(iv.take(i as int), start),
                        forall|j: int| 0 <= j < i ==> ns@[j].id < c || c == u64::MAX,
                    decreases ns@.len() - i,
                {
                    assert(iv.take(i + 1).drop_last() =~= iv.take(i as int));
                    assert(iv.take(i + 1).last() == iv[i as int]);
                    let id = ns[i].id;
                    if id >= c {
                        c = if id == u64::MAX { u64::MAX } else { id + 1 };
                    }
                    i = i + 1;
                }
                assert(iv.take(ns@.len() as int) =~= iv);
                let fs = TmpFs { inodes: ns, current_tick: tick, next_inode: c };
                Some((fs, next))
            },
        }
    }
}

/// Where a snapshot on disk ends, read from its first block: its length and
/// that length rounded up to whole 512-byte sectors. `None` when the magic is
/// missing, or the length is 0 or over 64 MiB.
pub fn snapshot_extent(header: &[u8]) -> (r: Option<(usize, usize)>)
    requires
        header@.len() >= 16,
    ensures
        match r {
            Some((total, padded)) => {
                &&& header@.subrange(0, 8) == crate::snapshot::magic()
                &&& total == le_at(header@, 8, 8)
                &&& 0 < total <= 64 * 1024 * 1024
                &&& padded == (total + 511) / 512 * 512
            },
            None => header@.subrange(0, 8) != crate::snapshot::magic() || le_at(header@, 8, 8) == 0
                || le_at(header@, 8, 8) > 64 * 1024 * 1024,
        },
{
    let h = vstd::slice::slice_subrange(header, 0, 8);
    if !(h[0] == 0x53 && h[1] == 0x4f && h[2] == 0x43 && h[3] == 0x44 && h[4] == 0x46 && h[5] == 0x53
        && h[6] == 0x30 && h[7] == 0x31) {
        proof {
            if h@ == crate::snapshot::magic() {
                assert(h@[0] == 0x53 && h@[1] == 0x4f && h@[2] == 0x43 && h@[3] == 0x44);
                assert(h@[4] == 0x46 && h@[5] == 0x53 && h@[6] == 0x30 && h@[7] == 0x31);
            }
        }
        return None;
    }
    assert(h@ =~= crate::snapshot::magic());
    let total = read_le(header, 8, 8);
    if total == 0 || total > 64 * 1024 * 1024 {
        return None;
    }
    let total = total as usize;
    let padded = (total + 511) / 512 * 512;
    Some((total, padded))
}

/// Restores the file system from the first `total` bytes read off the disk.
pub fn restore(data: &[u8], total: usize) -> (r: Option<(TmpFs, u64)>)
    requires
        total <= data@.len(),
    ensures
        match r {
            None => parse_snapshot(data@.subrange(0, total as int)).is_none(),
            Some((fs, next)) => {
                &&& parse_snapshot(data@.subrange(0, total as int)) == Some((inodes_view(fs@), fs.tick(), next))
                &&& fs.wf()
                &&& fs.next_id() == restored_next(inodes_view(fs@), next)
            },
        },
{
    TmpFs::deserialize(vstd::slice::slice_subrange(data, 0, total))
}

/// Writing a snapshot and reading it back gives the same nodes, tick and id
/// counter, for every file system whose names, contents and size fit the format.
pub proof fn lemma_restore_after_save(fs: TmpFs, next_inode: u64)
    requires
        fs.wf(),
        inodes_view(fs@).len() < 0x1_0000_0000,
        forall|i: int| 0 <= i < inodes_view(fs@).len() ==> crate::snapshot::inode_fits(#[trigger] inodes_view(fs@)[i]),
        16 + crate::snapshot::snapshot_body(inodes_view(fs@), next_inode, fs.tick()).len() < 0x1_0000_0000_0000_0000,
    ensures
        parse_snapshot(snapshot_enc(inodes_view(fs@), next_inode, fs.tick()))
            == Some((inodes_view(fs@), fs.tick(), next_inode)),
{
    let iv = inodes_view(fs@);
    assert forall|a: int, b: int| 0 <= a < b < iv.len() implies iv[a].id != iv[b].id by {
        assert(iv[a].id == fs@[a].id && iv[b].id == fs@[b].id);
        fs.lemma_ids_unique(a, b);
    }
    lemma_snapshot_roundtrip(iv, next_inode, fs.tick());
}

impl TmpFs {
    /// Two nodes of a well-formed file system have different ids.
    pub proof fn lemma_ids_unique(&self, a: int, b: int)
        requires
            self.wf(),
            0 <= a < b < self@.len(),
        ensures
            self@[a].id != self@[b].id,
    {
    }
}

/// The sum of node sizes.
pub open spec fn total_size(s: Seq<Inode>) -> int
    decreases s.len(),
{
    if s.len() == 0 { 0 } else { total_size(s.drop_last()) + inode_size(s.last()) }
}

/// The number of nodes of a kind.
pub open spec fn count_kind(s: Seq<Inode>, k: InodeKind) -> nat
    decreases s.len(),
{
    if s.len() == 0 { 0 } else { count_kind(s.drop_last(), k) + if s.last().kind == k { 1nat } else { 0 } }
}

proof fn lemma_total_prefix(s: Seq<Inode>, k: int)
    requires
        0 <= k <= s.len(),
    ensures
        total_size(s.subrange(0, k)) <= total_size(s),
        inode_size(s[k - 1]) <= total_size(s) || k == 0,
    decreases s.len(),
{
    lemma_size_nonneg_all(s);
    if k == s.len() {
        assert(s.subrange(0, k) =~= s);
        if k > 0 {
            lemma_size_nonneg_all(s.drop_last());
        }
    } else {
        assert(s.drop_last().subrange(0, k) =~= s.subrange(0, k));
        lemma_total_prefix(s.drop_last(), k);
    }
}

proof fn lemma_size_nonneg_all(s: Seq<Inode>)
    ensures
        total_size(s) >= 0,
    decreases s.len(),
{
    if s.len() > 0 {
        lemma_size_nonneg_all(s.drop_last());
    }
}

/// Looking a name up after an entry was appended: an earlier entry of that name still wins,
/// otherwise the new entry is found.
proof fn lemma_lookup_push(es: Seq<(String, InodeId)>, e: (String, InodeId), name: Seq<char>)
    requires
        e.0@ == name,
        entry_lookup(es, name).is_none(),
    ensures
        entry_lookup(es.push(e), name) == Some(e.1),
    decreases es.len(),
{
    if es.len() > 0 {
        assert(es.push(e).drop_first() =~= es.drop_first().push(e));
        lemma_lookup_push(es.drop_first(), e, name);
    }
}

fn lookup_entries(es: &Vec<(String, InodeId)>, name: &str) -> (r: Option<InodeId>)
    ensures
        r == entry_lookup(es@, name@),
{
    let key = String::from_str(name);
    let mut i: usize = 0;
    assert(es@.subrange(0, es@.len() as int) =~= es@);
    while i < es.len()
        invariant
            i <= es@.len(),
            key@ == name@,
            entry_lookup(es@, name@) == entry_lookup(es@.subrange(i as int, es@.len() as int), name@),
        decreases es@.len() - i,
    {
        let ghost rest = es@.subrange(i as int, es@.len() as int);
        assert(rest.drop_first() =~= es@.subrange(i + 1, es@.len() as int));
        if es[i].0 == key {
            return Some(es[i].1);
        }
        i = i + 1;
    }
    None
}


/// Reads the file a path names.
pub fn read(fs: &TmpFs, path: &str) -> (r: Result<Vec<u8>, FsError>)
    requires
        fs.wf(),
    ensures
        match r {
            Ok(d) => resolve_spec(fs@, path@).is_some() && fs.file_data(resolve_spec(fs@, path@).unwrap()) == Some(d@),
            Err(FsError::NotFound(_)) => resolve_spec(fs@, path@).is_none()
                || fs.get(resolve_spec(fs@, path@).unwrap()).is_none(),
            Err(FsError::NotAFile(_)) => resolve_spec(fs@, path@).is_some()
                && fs.file_data(resolve_spec(fs@, path@).unwrap()).is_none(),
            Err(_) => false,
        },
{
    let id = match fs.resolve_path(path) {
        Ok(id) => id,
        Err(e) => return Err(e),
    };
    match fs.read_file(id) {
        Ok(d) => {
            let mut v: Vec<u8> = Vec::new();
            crate::util::push_all(&mut v, d);
            Ok(v)
        },
        Err(e) => Err(e),
    }
}

/// Replaces the content of the file a path names.
pub fn write(fs: &mut TmpFs, path: &str, data: &[u8]) -> (r: Result<(), FsError>)
    requires
        old(fs).wf(),
    ensures
        final(fs).wf(),
        match r {
            Ok(()) => resolve_spec(old(fs)@, path@).is_some()
                && final(fs).file_data(resolve_spec(old(fs)@, path@).unwrap()) == Some(data@),
            Err(FsError::NotFound(_)) => final(fs)@ == old(fs)@,
            Err(FsError::NotAFile(_)) => final(fs)@ == old(fs)@,
            Err(FsError::PermissionDenied(_)) => final(fs)@ == old(fs)@,
            Err(_) => false,
        },
{
    let id = match fs.resolve_path(path) {
        Ok(id) => id,
        Err(e) => return Err(e),
    };
    fs.write_file(id, data)
}

/// Lists the directory a path names.
pub fn ls(fs: &TmpFs, path: &str) -> (r: Result<Vec<(String, InodeId)>, FsError>)
    requires
        fs.wf(),
    ensures
        match r {
            Ok(v) => resolve_spec(fs@, path@).is_some() && ({
                let d = fs.get(resolve_spec(fs@, path@).unwrap());
                d.is_some() && (d.unwrap().content matches InodeContent::DirEntries(es)
                    && v@.map_values(|e: (String, InodeId)| (e.0@, e.1)) == by_name(visible_entries(es@)))
            }),
            Err(FsError::NotFound(_)) => resolve_spec(fs@, path@).is_none()
                || fs.get(resolve_spec(fs@, path@).unwrap()).is_none(),
            Err(FsError::NotADirectory(_)) => resolve_spec(fs@, path@).is_some(),
            Err(_) => false,
        },
{
    let id = match fs.resolve_path(path) {
        Ok(id) => id,
        Err(e) => return Err(e),
    };
    fs.list_dir(id)
}


} // verus!
