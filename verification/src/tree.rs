//! Directory trees as values.
//!
//! What is decided about files is decided on a snapshot of the tree; the
//! files themselves are touched elsewhere.

use vstd::prelude::*;
use vstd::string::*;

use crate::text::{same, texts};

verus! {

/// A file or directory with what lies below it.
pub enum Node {
    File { len: u64, modified: u64 },
    Dir { modified: u64, entries: Vec<(String, Node)> },
    /// Neither a file nor a directory, such as a link.
    Other { len: u64, modified: u64 },
}

/// The bytes of all files in the first `n` entries and below.
pub open spec fn entries_size(entries: Seq<(String, Node)>, n: int) -> nat
    decreases entries, n,
{
    if n <= 0 || n > entries.len() {
        0
    } else {
        entries_size(entries, n - 1) + node_size(entries[n - 1].1)
    }
}

/// The bytes of a file, or of all files below a directory.
pub open spec fn node_size(node: Node) -> nat
    decreases node,
{
    match node {
        Node::File { len, .. } => len as nat,
        Node::Dir { entries, .. } => entries_size(entries@, entries@.len() as int),
        Node::Other { .. } => 0,
    }
}

/// The number of files in the first `n` entries and below.
pub open spec fn entries_files(entries: Seq<(String, Node)>, n: int) -> nat
    decreases entries, n,
{
    if n <= 0 || n > entries.len() {
        0
    } else {
        entries_files(entries, n - 1) + node_files(entries[n - 1].1)
    }
}

/// One for a file, or the number of files below a directory.
pub open spec fn node_files(node: Node) -> nat
    decreases node,
{
    match node {
        Node::File { .. } => 1,
        Node::Dir { entries, .. } => entries_files(entries@, entries@.len() as int),
        Node::Other { .. } => 0,
    }
}

proof fn lemma_entries_size_grows(entries: Seq<(String, Node)>, m: int, n: int)
    requires
        0 <= m <= n <= entries.len(),
    ensures
        entries_size(entries, m) <= entries_size(entries, n),
    decreases n - m,
{
    if m < n {
        lemma_entries_size_grows(entries, m, n - 1);
    }
}

proof fn lemma_entries_files_grow(entries: Seq<(String, Node)>, m: int, n: int)
    requires
        0 <= m <= n <= entries.len(),
    ensures
        entries_files(entries, m) <= entries_files(entries, n),
    decreases n - m,
{
    if m < n {
        lemma_entries_files_grow(entries, m, n - 1);
    }
}

/// The bytes of a file, or of all files below a directory.
pub fn dir_size(node: &Node) -> (r: u64)
    requires
        node_size(*node) <= u64::MAX,
    ensures
        r == node_size(*node),
    decreases node,
{
    match node {
        Node::File { len, .. } => *len,
        Node::Dir { entries, .. } => {
            let mut total: u64 = 0;
            let mut i: usize = 0;
            while i < entries.len()
                invariant
                    i <= entries.len(),
                    entries_size(entries@, entries@.len() as int) <= u64::MAX,
                    total == entries_size(entries@, i as int),
                    decreases_to!(node => entries),
                decreases entries.len() - i,
            {
                proof {
                    lemma_entries_size_grows(entries@, i + 1, entries@.len() as int);
                }
                let part: u64 = dir_size(&entries[i].1);
                total = total + part;
                i = i + 1;
            }
            total
        },
        Node::Other { .. } => 0,
    }
}

/// The bytes of something that is counted for itself: all files below a
/// directory, or the length of anything else, a link included.
pub open spec fn own_size(node: Node) -> nat {
    match node {
        Node::Other { len, .. } => len as nat,
        _ => node_size(node),
    }
}

/// The bytes of something that is counted for itself.
pub fn size_by_itself(node: &Node) -> (r: u64)
    requires
        own_size(*node) <= u64::MAX,
    ensures
        r == own_size(*node),
{
    match node {
        Node::Other { len, .. } => *len,
        _ => dir_size(node),
    }
}

/// One for a file, or the number of files below a directory.
pub fn file_count(node: &Node) -> (r: u64)
    requires
        node_files(*node) <= u64::MAX,
    ensures
        r == node_files(*node),
    decreases node,
{
    match node {
        Node::File { .. } => 1,
        Node::Dir { entries, .. } => {
            let mut total: u64 = 0;
            let mut i: usize = 0;
            while i < entries.len()
                invariant
                    i <= entries.len(),
                    entries_files(entries@, entries@.len() as int) <= u64::MAX,
                    total == entries_files(entries@, i as int),
                    decreases_to!(node => entries),
                decreases entries.len() - i,
            {
                proof {
                    lemma_entries_files_grow(entries@, i + 1, entries@.len() as int);
                }
                let part: u64 = file_count(&entries[i].1);
                total = total + part;
                i = i + 1;
            }
            total
        },
        Node::Other { .. } => 0,
    }
}

/// The sum of lengths.
pub open spec fn sum_of(lens: Seq<u64>) -> nat
    decreases lens.len(),
{
    if lens.len() == 0 {
        0
    } else {
        sum_of(lens.drop_last()) + lens.last() as nat
    }
}

/// The lengths of all files in the first `n` entries and below.
pub open spec fn entries_lens(entries: Seq<(String, Node)>, n: int) -> Seq<u64>
    decreases entries, n,
{
    if n <= 0 || n > entries.len() {
        Seq::<u64>::empty()
    } else {
        entries_lens(entries, n - 1) + node_lens(entries[n - 1].1)
    }
}

/// The length of a file, or those of all files below a directory.
pub open spec fn node_lens(node: Node) -> Seq<u64>
    decreases node,
{
    match node {
        Node::File { len, .. } => seq![len],
        Node::Dir { entries, .. } => entries_lens(entries@, entries@.len() as int),
        Node::Other { .. } => Seq::<u64>::empty(),
    }
}

/// Lengths of two lists together.
pub proof fn lemma_sum_of_both(a: Seq<u64>, b: Seq<u64>)
    ensures
        sum_of(a + b) == sum_of(a) + sum_of(b),
    decreases b.len(),
{
    if b.len() == 0 {
        assert(a + b =~= a);
    } else {
        lemma_sum_of_both(a, b.drop_last());
        assert((a + b).drop_last() =~= a + b.drop_last());
        assert((a + b).last() == b.last());
    }
}

proof fn lemma_sum_of_others(a: Seq<u64>, at: int)
    requires
        0 <= at < a.len(),
    ensures
        sum_of(a) == sum_of(a.remove(at)) + a[at],
    decreases a.len(),
{
    if at == a.len() - 1 {
        assert(a.remove(at) =~= a.drop_last());
    } else {
        lemma_sum_of_others(a.drop_last(), at);
        assert(a.remove(at).drop_last() =~= a.drop_last().remove(at));
        assert(a.remove(at).last() == a.last());
    }
}

/// The order of lengths does not matter to their sum.
pub proof fn lemma_sum_of_reordered(a: Seq<u64>, b: Seq<u64>)
    requires
        a.to_multiset() == b.to_multiset(),
    ensures
        sum_of(a) == sum_of(b),
    decreases a.len(),
{
    broadcast use vstd::seq_lib::group_to_multiset_ensures;

    assert(a.to_multiset().len() == a.len());
    assert(b.to_multiset().len() == b.len());
    if a.len() > 0 {
        let x = a.last();
        assert(a.contains(x));
        assert(b.to_multiset().count(x) > 0);
        assert(b.contains(x));
        let at = choose|i: int| 0 <= i < b.len() && b[i] == x;
        lemma_sum_of_others(b, at);
        assert(a.remove(a.len() - 1) =~= a.drop_last());
        assert(a.drop_last().to_multiset() =~= a.to_multiset().remove(x));
        assert(b.remove(at).to_multiset() =~= b.to_multiset().remove(x));
        lemma_sum_of_reordered(a.drop_last(), b.remove(at));
    }
}

/// The lengths of all files sum up to the size.
pub proof fn lemma_lens_sum_to_size(node: Node)
    ensures
        sum_of(node_lens(node)) == node_size(node),
    decreases node,
{
    match node {
        Node::File { len, .. } => {
            assert(seq![len].drop_last() =~= Seq::<u64>::empty());
            assert(sum_of(seq![len].drop_last()) == 0);
        },
        Node::Dir { entries, .. } => {
            lemma_entries_lens_sum(entries@, entries@.len() as int);
        },
        Node::Other { .. } => {},
    }
}

proof fn lemma_entries_lens_sum(entries: Seq<(String, Node)>, n: int)
    requires
        0 <= n <= entries.len(),
    ensures
        sum_of(entries_lens(entries, n)) == entries_size(entries, n),
    decreases entries, n,
{
    if n > 0 {
        lemma_entries_lens_sum(entries, n - 1);
        lemma_lens_sum_to_size(entries[n - 1].1);
        lemma_sum_of_both(entries_lens(entries, n - 1), node_lens(entries[n - 1].1));
    }
}

/// The later of two times, of which either may be missing.
pub open spec fn later(a: Option<u64>, b: Option<u64>) -> Option<u64> {
    match (a, b) {
        (Some(x), Some(y)) => Some(
            if y > x {
                y
            } else {
                x
            },
        ),
        (Some(x), None) => Some(x),
        (None, y) => y,
    }
}

/// The newest time of a file in the first `n` entries and below.
pub open spec fn entries_newest(entries: Seq<(String, Node)>, n: int) -> Option<u64>
    decreases entries, n,
{
    if n <= 0 || n > entries.len() {
        None
    } else {
        later(entries_newest(entries, n - 1), newest_file(entries[n - 1].1))
    }
}

/// The newest time of a file, or of the files below a directory.
pub open spec fn newest_file(node: Node) -> Option<u64>
    decreases node,
{
    match node {
        Node::File { modified, .. } => Some(modified),
        Node::Dir { entries, .. } => entries_newest(entries@, entries@.len() as int),
        Node::Other { modified, .. } => Some(modified),
    }
}

/// The time at which something was last touched: that of the newest file in
/// it. The time of a directory itself is not reliable and counts only where
/// there is no file.
pub open spec fn node_newest(node: Node) -> u64 {
    match (newest_file(node), node) {
        (Some(newest), _) => newest,
        (None, Node::Dir { modified, .. }) => modified,
        (None, _) => 0,
    }
}

fn find_newest(node: &Node) -> (r: Option<u64>)
    ensures
        r == newest_file(*node),
    decreases node,
{
    match node {
        Node::File { modified, .. } => Some(*modified),
        Node::Dir { entries, .. } => {
            let mut newest: Option<u64> = None;
            let mut i: usize = 0;
            while i < entries.len()
                invariant
                    i <= entries.len(),
                    newest == entries_newest(entries@, i as int),
                    decreases_to!(node => entries),
                decreases entries.len() - i,
            {
                let here: Option<u64> = find_newest(&entries[i].1);
                newest = match (newest, here) {
                    (Some(x), Some(y)) => if y > x {
                        Some(y)
                    } else {
                        Some(x)
                    },
                    (Some(x), None) => Some(x),
                    (None, y) => y,
                };
                i = i + 1;
            }
            newest
        },
        Node::Other { modified, .. } => Some(*modified),
    }
}

/// The time at which something was last touched.
pub fn newest_mtime(node: &Node) -> (r: u64)
    ensures
        r == node_newest(*node),
{
    match find_newest(node) {
        Some(newest) => newest,
        None => match node {
            Node::Dir { modified, .. } => *modified,
            _ => 0,
        },
    }
}

/// The position of the entry with this name, if there is one.
pub open spec fn named_at(entries: Seq<(String, Node)>, i: int, name: Seq<char>) -> bool {
    0 <= i < entries.len() && entries[i].0@ == name && forall|j: int|
        0 <= j < i ==> (#[trigger] entries[j]).0@ != name
}

/// Whether there is an entry with this name.
pub open spec fn has_entry(entries: Seq<(String, Node)>, name: Seq<char>) -> bool {
    exists|i: int| named_at(entries, i, name)
}

/// Finds the entry with this name.
pub fn find_entry(entries: &Vec<(String, Node)>, name: &str) -> (r: Option<usize>)
    ensures
        match r {
            Some(i) => named_at(entries@, i as int, name@),
            None => !has_entry(entries@, name@) && forall|j: int|
                0 <= j < entries@.len() ==> (#[trigger] entries@[j]).0@ != name@,
        },
{
    let mut i: usize = 0;
    while i < entries.len()
        invariant
            i <= entries.len(),
            forall|j: int| 0 <= j < i ==> (#[trigger] entries@[j]).0@ != name@,
        decreases entries.len() - i,
    {
        if same(entries[i].0.as_str(), name) {
            return Some(i);
        }
        i = i + 1;
    }
    None
}

// ------------------------------------------------------------------
// Emptying a directory
// ------------------------------------------------------------------

/// Whether emptying a directory removes this entry: files and directories
/// go, with all that lies below them; anything else stays.
pub open spec fn is_removable(node: Node) -> bool {
    node is File || node is Dir
}

/// The names of the first `n` entries that emptying removes.
pub open spec fn removable_names(entries: Seq<(String, Node)>, n: int) -> Seq<Seq<char>>
    decreases n,
{
    if n <= 0 || n > entries.len() {
        Seq::<Seq<char>>::empty()
    } else if is_removable(entries[n - 1].1) {
        removable_names(entries, n - 1).push(entries[n - 1].0@)
    } else {
        removable_names(entries, n - 1)
    }
}

/// What emptying a directory removes from it, and the bytes that this frees.
pub struct ClearPlan {
    pub remove: Vec<String>,
    pub freed: u64,
}

/// The entries of a directory; none where it does not exist.
pub open spec fn entries_of(dir: Option<Node>) -> Seq<(String, Node)> {
    match dir {
        Some(Node::Dir { entries, .. }) => entries@,
        _ => Seq::<(String, Node)>::empty(),
    }
}

/// The bytes below a directory; none where it does not exist.
pub open spec fn contents_size(dir: Option<Node>) -> nat {
    entries_size(entries_of(dir), entries_of(dir).len() as int)
}

/// Plans to empty a directory and to keep the directory itself.
pub fn remove_dir_contents(dir: &Option<Node>) -> (r: ClearPlan)
    requires
        contents_size(*dir) <= u64::MAX,
    ensures
        texts(r.remove@) == removable_names(entries_of(*dir), entries_of(*dir).len() as int),
        r.freed == contents_size(*dir),
{
    let mut remove: Vec<String> = Vec::new();
    let mut freed: u64 = 0;
    assert(texts(remove@) =~= Seq::<Seq<char>>::empty());
    match dir {
        Some(Node::Dir { entries, .. }) => {
            let mut i: usize = 0;
            while i < entries.len()
                invariant
                    i <= entries.len(),
                    entries_size(entries@, entries@.len() as int) <= u64::MAX,
                    freed == entries_size(entries@, i as int),
                    texts(remove@) == removable_names(entries@, i as int),
                decreases entries.len() - i,
            {
                proof {
                    lemma_entries_size_grows(entries@, i + 1, entries@.len() as int);
                }
                let part: u64 = dir_size(&entries[i].1);
                freed = freed + part;
                match &entries[i].1 {
                    Node::Other { .. } => {},
                    _ => {
                        let ghost before = remove@;
                        remove.push(entries[i].0.clone());
                        assert(texts(remove@) =~= texts(before).push(entries@[i as int].0@));
                    },
                }
                i = i + 1;
            }
        },
        _ => {},
    }
    ClearPlan { remove, freed }
}

// ------------------------------------------------------------------
// Paths
// ------------------------------------------------------------------

/// A path, taken apart: what it starts from (such as a drive), and the names
/// below that.
pub struct PathParts {
    pub anchor: String,
    pub names: Vec<String>,
}

impl PathParts {
    /// Whether this path is `prefix` or lies below it.
    pub open spec fn within(&self, prefix: PathParts) -> bool {
        &&& self.anchor@ == prefix.anchor@
        &&& prefix.names@.len() <= self.names@.len()
        &&& texts(self.names@).take(prefix.names@.len() as int) == texts(prefix.names@)
    }

    /// Whether the path names no directory below what it starts from.
    pub open spec fn is_disk_root(&self) -> bool {
        self.names@.len() == 0
    }

    /// Whether this path is `prefix` or lies below it.
    pub fn starts_with(&self, prefix: &PathParts) -> (r: bool)
        ensures
            r == self.within(*prefix),
    {
        if !same(self.anchor.as_str(), prefix.anchor.as_str()) || prefix.names.len()
            > self.names.len() {
            return false;
        }
        let mut i: usize = 0;
        while i < prefix.names.len()
            invariant
                i <= prefix.names@.len() <= self.names@.len(),
                forall|j: int| 0 <= j < i ==> texts(self.names@)[j] == texts(prefix.names@)[j],
            decreases prefix.names@.len() - i,
        {
            if !same(self.names[i].as_str(), prefix.names[i].as_str()) {
                assert(texts(self.names@).take(prefix.names@.len() as int)[i as int] != texts(
                    prefix.names@,
                )[i as int]);
                return false;
            }
            assert(texts(self.names@)[i as int] == texts(prefix.names@)[i as int]);
            i = i + 1;
        }
        assert(texts(self.names@).take(prefix.names@.len() as int) =~= texts(prefix.names@));
        true
    }

    /// Whether `self` is the child `name` of `parent`, or contains it.
    pub open spec fn covers_child(&self, parent: PathParts, name: Seq<char>) -> bool {
        &&& self.anchor@ == parent.anchor@
        &&& parent.names@.len() + 1 <= self.names@.len()
        &&& texts(self.names@).take(parent.names@.len() as int + 1) == texts(parent.names@).push(name)
    }

    /// Whether this path is the child `name` of `parent` or lies below it.
    pub fn in_child(&self, parent: &PathParts, name: &str) -> (r: bool)
        ensures
            r == self.covers_child(*parent, name@),
    {
        if self.names.len() <= parent.names.len() {
            return false;
        }
        let inside = self.starts_with(parent);
        let n: usize = parent.names.len();
        let ghost whole = texts(self.names@).take(n + 1);
        let ghost head = texts(self.names@).take(n as int);
        assert(whole =~= head.push(self.names@[n as int]@));
        assert(whole.drop_last() =~= head);
        if !inside {
            assert(texts(parent.names@).push(name@).drop_last() =~= texts(parent.names@));
            return false;
        }
        let r = same(self.names[n].as_str(), name);
        assert(whole.last() == self.names@[n as int]@);
        assert(texts(parent.names@).push(name@).last() == name@);
        r
    }
}

// ------------------------------------------------------------------
// Laws
// ------------------------------------------------------------------

/// A directory is as large as what it held and what was put behind it; a
/// file as long as it is, and anything else takes nothing below a directory.
pub proof fn law_sizes_add_up(
    entries: Seq<(String, Node)>,
    name: String,
    node: Node,
    len: u64,
    modified: u64,
)
    ensures
        entries_size(entries.push((name, node)), (entries.len() + 1) as int) == entries_size(
            entries,
            entries.len() as int,
        ) + node_size(node),
        entries_files(entries.push((name, node)), (entries.len() + 1) as int) == entries_files(
            entries,
            entries.len() as int,
        ) + node_files(node),
        node_size(Node::File { len, modified }) == len,
        node_size(Node::Other { len, modified }) == 0,
        own_size(Node::Other { len, modified }) == len,
        node_files(Node::File { len, modified }) == 1,
        node_files(Node::Other { len, modified }) == 0,
        !(node is Other) ==> own_size(node) == node_size(node),
{
    let more = entries.push((name, node));
    lemma_first_entries(more, entries, entries.len() as int);
    assert(more[entries.len() as int] == (name, node));
}

proof fn lemma_first_entries(a: Seq<(String, Node)>, b: Seq<(String, Node)>, n: int)
    requires
        0 <= n <= a.len(),
        n <= b.len(),
        forall|i: int| 0 <= i < n ==> a[i] == #[trigger] b[i],
    ensures
        entries_size(a, n) == entries_size(b, n),
        entries_files(a, n) == entries_files(b, n),
    decreases n,
{
    if n > 0 {
        lemma_first_entries(a, b, n - 1);
        assert(a[n - 1] == b[n - 1]);
    }
}

/// Something was last touched when the newest file in it was; a directory
/// without files when it was itself.
pub proof fn law_newest_file_counts(entries: Seq<(String, Node)>, n: int, i: int)
    requires
        0 <= n <= entries.len(),
    ensures
        0 <= i < n && newest_file(entries[i].1) is Some ==> entries_newest(entries, n) is Some
            && newest_file(entries[i].1)->0 <= entries_newest(entries, n)->0,
        entries_newest(entries, n) is Some ==> exists|k: int|
            0 <= k < n && newest_file((#[trigger] entries[k]).1) == entries_newest(entries, n),
    decreases n,
{
    if n > 0 {
        law_newest_file_counts(entries, n - 1, i);
        if entries_newest(entries, n - 1) is Some {
            let k = choose|k: int|
                0 <= k < n - 1 && newest_file((#[trigger] entries[k]).1) == entries_newest(
                    entries,
                    n - 1,
                );
            assert(newest_file(entries[k].1) == entries_newest(entries, n - 1));
        }
        assert(newest_file(entries[n - 1].1) == newest_file(entries[n - 1].1));
    }
}

/// The time of a directory counts only where no file is in it.
pub proof fn law_directories_are_as_new_as_their_files(
    len: u64,
    modified: u64,
    entries: Vec<(String, Node)>,
)
    ensures
        node_newest(Node::File { len, modified }) == modified,
        node_newest(Node::Other { len, modified }) == modified,
        ({
            let dir = Node::Dir { modified, entries };
            &&& newest_file(dir) matches Some(t) ==> node_newest(dir) == t
            &&& newest_file(dir) is None ==> node_newest(dir) == modified
        }),
{
}

/// Emptying a directory removes its files and directories, all of them, and
/// nothing else.
pub proof fn law_emptying_removes_files_and_directories(
    entries: Seq<(String, Node)>,
    n: int,
    name: Seq<char>,
)
    requires
        0 <= n <= entries.len(),
    ensures
        removable_names(entries, n).contains(name) <==> exists|i: int|
            0 <= i < n && (#[trigger] entries[i]).0@ == name && (entries[i].1 is File
                || entries[i].1 is Dir),
    decreases n,
{
    if n > 0 {
        law_emptying_removes_files_and_directories(entries, n - 1, name);
        let before = removable_names(entries, n - 1);
        let now = removable_names(entries, n);
        if before.contains(name) {
            let k = choose|k: int| 0 <= k < before.len() && before[k] == name;
            assert(now[k] == name);
            let i = choose|i: int|
                0 <= i < n - 1 && (#[trigger] entries[i]).0@ == name && (entries[i].1 is File
                    || entries[i].1 is Dir);
            assert(entries[i].0@ == name);
        }
        if is_removable(entries[n - 1].1) {
            assert(now[before.len() as int] == entries[n - 1].0@);
            if now.contains(name) && !before.contains(name) {
                let k = choose|k: int| 0 <= k < now.len() && now[k] == name;
                if k < before.len() {
                    assert(before[k] == name);
                }
                assert(entries[n - 1].0@ == name);
            }
        }
        if exists|i: int|
            0 <= i < n && (#[trigger] entries[i]).0@ == name && (entries[i].1 is File
                || entries[i].1 is Dir) {
            let i = choose|i: int|
                0 <= i < n && (#[trigger] entries[i]).0@ == name && (entries[i].1 is File
                    || entries[i].1 is Dir);
            if i < n - 1 {
                assert(entries[i].0@ == name);
                assert(before.contains(name));
            }
        }
    }
}

/// A path lies within another where it starts from the same place and its
/// first names are those of the other; below a child where the name of the
/// child comes next.
pub proof fn law_paths_lie_within_their_beginnings(
    path: PathParts,
    prefix: PathParts,
    name: Seq<char>,
)
    ensures
        path.within(prefix) <==> path.anchor@ == prefix.anchor@ && prefix.names@.len()
            <= path.names@.len() && forall|i: int|
            0 <= i < prefix.names@.len() ==> (#[trigger] path.names@[i])@ == prefix.names@[i]@,
        path.covers_child(prefix, name) <==> path.within(prefix) && prefix.names@.len()
            < path.names@.len() && path.names@[prefix.names@.len() as int]@ == name,
        path.is_disk_root() <==> path.names@.len() == 0,
{
    let n = prefix.names@.len() as int;
    let a = texts(path.names@);
    let b = texts(prefix.names@);
    if path.within(prefix) {
        assert forall|i: int| 0 <= i < n implies (#[trigger] path.names@[i])@
            == prefix.names@[i]@ by {
            assert(a.take(n)[i] == b[i]);
        }
    }
    if n <= a.len() && (forall|i: int|
        0 <= i < n ==> (#[trigger] path.names@[i])@ == prefix.names@[i]@) {
        assert forall|i: int| 0 <= i < n implies a.take(n)[i] == b[i] by {
            assert(path.names@[i]@ == prefix.names@[i]@);
        }
        assert(a.take(n) =~= b);
    }
    if path.covers_child(prefix, name) {
        assert(a.take(n + 1)[n] == name);
        assert(a.take(n) =~= a.take(n + 1).take(n));
        assert(b.push(name).take(n) =~= b);
    }
    if n < a.len() && a.take(n) == b && a[n] == name {
        assert(a.take(n + 1) =~= b.push(name));
    }
}

} // verus!
