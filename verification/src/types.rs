//! The inode tree: files and directories as a recursively nested ownership
//! tree with size accounting and unique serial numbers.
//!
//! An `Inode` is either a `File` (a leaf holding textual content) or a
//! `Directory` (holding an ordered sequence of owned child inodes). Every
//! inode carries a size, a permission pair, optional timestamps and a
//! globally unique serial number. A directory's size always equals its
//! fixed overhead plus the sum of its children's sizes.

use vstd::prelude::*;
use vstd::string::StringExecFns;

use crate::errors::VfsError;
use crate::serial::SerialAllocator;
use crate::utils::str_eq;

verus! {

/// Mode tag of a directory inode.
pub const DIR_MODE: u8 = 0;

/// Mode tag of a file inode.
pub const FILE_MODE: u8 = 1;

/// Fixed structural overhead, in bytes, that a directory inode contributes
/// to its own size beyond its children.
pub const DIR_OVERHEAD: u64 = 64;

/// Fixed structural overhead, in bytes, that a file inode contributes to
/// its own size beyond its content.
pub const FILE_OVERHEAD: u64 = 48;

/// The payload of an inode: file content or directory children.
pub enum InodeData {
    File(File),
    Directory(Directory),
}

/// A node of the virtual filesystem tree.
pub struct Inode {
    /// `FILE_MODE` or `DIR_MODE`; immutable after creation.
    pub mode: u8,
    /// Aggregate byte size: overhead plus content length for a file,
    /// overhead plus the sum of the children's sizes for a directory.
    pub size: u64,
    /// `(readable, writable)`; defaults to `(true, true)`.
    pub permissions: (bool, bool),
    pub created_at: Option<u64>,
    pub updated_at: Option<u64>,
    pub accessed_at: Option<u64>,
    /// Globally unique, assigned at creation, never reused.
    pub serial_number: u64,
    pub data: InodeData,
}

/// A leaf node: a name and textual content.
pub struct File {
    pub name: String,
    pub data: String,
}

/// An interior node: a name and an ordered sequence of owned children.
/// Insertion order is preserved and is the iteration order.
pub struct Directory {
    pub name: String,
    pub files: Vec<Inode>,
}

/// Mathematical model of an inode's payload.
#[verifier::ext_equal]
pub enum InodeDataView {
    File { name: Seq<char>, content: Seq<char> },
    Directory { name: Seq<char>, children: Seq<InodeView> },
}

/// Mathematical model of an inode.
#[verifier::ext_equal]
pub struct InodeView {
    pub size: u64,
    pub readable: bool,
    pub writable: bool,
    pub created_at: Option<u64>,
    pub updated_at: Option<u64>,
    pub accessed_at: Option<u64>,
    pub serial: u64,
    pub data: InodeDataView,
}

/// The model of an inode: sizes, permissions, timestamps and serial are
/// copied, names and content become character sequences, and children
/// become a sequence of models.
pub open spec fn inode_view(i: Inode) -> InodeView
    decreases i,
{
    InodeView {
        size: i.size,
        readable: i.permissions.0,
        writable: i.permissions.1,
        created_at: i.created_at,
        updated_at: i.updated_at,
        accessed_at: i.accessed_at,
        serial: i.serial_number,
        data: match i.data {
            InodeData::File(f) => InodeDataView::File { name: f.name@, content: f.data@ },
            InodeData::Directory(d) => InodeDataView::Directory {
                name: d.name@,
                children: inode_views(d.files@),
            },
        },
    }
}

/// The models of a sequence of inodes, in order.
pub open spec fn inode_views(s: Seq<Inode>) -> Seq<InodeView>
    decreases s,
{
    if s.len() == 0 {
        Seq::empty()
    } else {
        inode_views(s.drop_last()).push(inode_view(s.last()))
    }
}

/// A sequence of inodes and its sequence of models have the same length.
pub broadcast proof fn lemma_inode_views_len(s: Seq<Inode>)
    ensures
        #[trigger] inode_views(s).len() == s.len(),
    decreases s,
{
    if s.len() > 0 {
        lemma_inode_views_len(s.drop_last());
    }
}

/// The model sequence is the element-wise model: position by position.
pub broadcast proof fn lemma_inode_views_index(s: Seq<Inode>, j: int)
    requires
        0 <= j < s.len(),
    ensures
        #[trigger] inode_views(s)[j] == inode_view(s[j]),
    decreases s,
{
    lemma_inode_views_len(s);
    if j < s.len() - 1 {
        lemma_inode_views_index(s.drop_last(), j);
    }
}

impl View for Inode {
    type V = InodeView;

    open spec fn view(&self) -> InodeView {
        inode_view(*self)
    }
}

impl InodeView {
    /// The node's name within its parent.
    pub open spec fn name(self) -> Seq<char> {
        match self.data {
            InodeDataView::File { name, .. } => name,
            InodeDataView::Directory { name, .. } => name,
        }
    }

    pub open spec fn is_dir(self) -> bool {
        self.data is Directory
    }

    pub open spec fn is_file(self) -> bool {
        self.data is File
    }

    /// The children of a directory node.
    pub open spec fn children(self) -> Seq<InodeView>
        recommends
            self.is_dir(),
    {
        self.data->Directory_children
    }

    /// The content of a file node.
    pub open spec fn content(self) -> Seq<char>
        recommends
            self.is_file(),
    {
        self.data->File_content
    }

    /// The size invariant of the tree: a file's size is its overhead plus
    /// its content length, a directory's size is its overhead plus the sum
    /// of its children's sizes, recursively at every node.
    pub open spec fn inv(self) -> bool
        decreases self,
    {
        match self.data {
            InodeDataView::File { content, .. } => self.size == FILE_OVERHEAD + content.len(),
            InodeDataView::Directory { children, .. } => {
                &&& self.size == DIR_OVERHEAD + sum_sizes(children)
                &&& forall|j: int| 0 <= j < children.len() ==> #[trigger] children[j].inv()
            },
        }
    }

    /// All serial numbers reachable in this subtree, the node's own
    /// included.
    pub open spec fn serials(self) -> Set<u64>
        decreases self,
    {
        match self.data {
            InodeDataView::File { .. } => Set::empty().insert(self.serial),
            InodeDataView::Directory { children, .. } => serials_of(children).insert(self.serial),
        }
    }

    /// No serial number is reachable twice in this subtree.
    pub open spec fn serials_distinct(self) -> bool
        decreases self,
    {
        match self.data {
            InodeDataView::File { .. } => true,
            InodeDataView::Directory { children, .. } => {
                &&& !serials_of(children).contains(self.serial)
                &&& forall|j: int, k: int|
                    0 <= j < children.len() && 0 <= k < children.len() && j != k
                        ==> #[trigger] children[j].serials().disjoint(#[trigger] children[k].serials())
                &&& forall|j: int| 0 <= j < children.len() ==> #[trigger] children[j].serials_distinct()
            },
        }
    }

    /// Every serial number in this subtree is below `bound`; a tree built
    /// with an allocator whose `next` is `bound` cannot collide with a
    /// serial the allocator has yet to issue.
    pub open spec fn serials_below(self, bound: u64) -> bool {
        forall|s: u64| self.serials().contains(s) ==> s < bound
    }
}

/// The model of a freshly created file inode: full permissions, all three
/// timestamps set to `now`, size equal to the overhead plus the content
/// length.
pub open spec fn new_file_view(name: Seq<char>, content: Seq<char>, serial: u64, now: u64) -> InodeView {
    InodeView {
        size: (FILE_OVERHEAD + content.len()) as u64,
        readable: true,
        writable: true,
        created_at: Some(now),
        updated_at: Some(now),
        accessed_at: Some(now),
        serial: serial,
        data: InodeDataView::File { name: name, content: content },
    }
}

/// The model of a freshly created directory inode: full permissions, all
/// three timestamps set to `now`, no children, size equal to the overhead.
pub open spec fn new_dir_view(name: Seq<char>, serial: u64, now: u64) -> InodeView {
    InodeView {
        size: DIR_OVERHEAD,
        readable: true,
        writable: true,
        created_at: Some(now),
        updated_at: Some(now),
        accessed_at: Some(now),
        serial: serial,
        data: InodeDataView::Directory { name: name, children: Seq::empty() },
    }
}

/// Insertion of a child into a directory: the child is appended to the
/// children, the directory's size grows by the child's size, and the
/// modification timestamp becomes `now`. Nothing else changes.
pub open spec fn add_spec(d: InodeView, c: InodeView, now: u64) -> InodeView
    recommends
        d.is_dir(),
{
    InodeView {
        size: (d.size + c.size) as u64,
        updated_at: Some(now),
        data: InodeDataView::Directory { name: d.name(), children: d.children().push(c) },
        ..d
    }
}

/// The position of the first child whose name is `name`, or -1 when no
/// child has that name. Lookup is a linear scan and the first match wins.
pub open spec fn lookup_index(s: Seq<InodeView>, name: Seq<char>) -> int
    decreases s.len(),
{
    if s.len() == 0 {
        -1
    } else if s[0].name() == name {
        0
    } else {
        let r = lookup_index(s.drop_first(), name);
        if r < 0 {
            -1
        } else {
            1 + r
        }
    }
}

/// Removal of the first child named `name` from a directory: that child
/// leaves the children, the directory's size shrinks by the child's size,
/// and the modification timestamp becomes `now`. Nothing else changes.
pub open spec fn remove_spec(d: InodeView, name: Seq<char>, now: u64) -> InodeView
    recommends
        d.is_dir(),
        lookup_index(d.children(), name) >= 0,
{
    let j = lookup_index(d.children(), name);
    InodeView {
        size: (d.size - d.children()[j].size) as u64,
        updated_at: Some(now),
        data: InodeDataView::Directory { name: d.name(), children: d.children().remove(j) },
        ..d
    }
}

/// The sum of the stored sizes of a sequence of nodes.
pub open spec fn sum_sizes(s: Seq<InodeView>) -> int
    decreases s.len(),
{
    if s.len() == 0 {
        0
    } else {
        sum_sizes(s.drop_last()) + s.last().size
    }
}

/// The union of the serial numbers reachable in a sequence of subtrees.
pub open spec fn serials_of(s: Seq<InodeView>) -> Set<u64>
    decreases s,
{
    if s.len() == 0 {
        Set::empty()
    } else {
        serials_of(s.drop_last()).union(s.last().serials())
    }
}

/// Appending an inode appends its model.
pub broadcast proof fn lemma_inode_views_push(s: Seq<Inode>, x: Inode)
    ensures
        #[trigger] inode_views(s.push(x)) == inode_views(s).push(inode_view(x)),
{
    assert(s.push(x).drop_last() =~= s);
    assert(s.push(x).last() == x);
}

impl Inode {
    /// Well-formed: the mode byte agrees with the payload, at every node
    /// of the tree.
    pub open spec fn wf(self) -> bool
        decreases self,
    {
        match self.data {
            InodeData::File(_) => self.mode == FILE_MODE,
            InodeData::Directory(d) => {
                &&& self.mode == DIR_MODE
                &&& forall|j: int| 0 <= j < d.files@.len() ==> (#[trigger] d.files@[j]).wf()
            },
        }
    }

    /// Creates a new empty inode of the given mode. Never fails: the
    /// allocator supplies a fresh serial number, the timestamps are all
    /// set to `now`, and the size is the mode's fixed overhead.
    pub fn new(mode: u8, name: String, alloc: &mut SerialAllocator, now: u64) -> (r: Inode)
        requires
            mode == DIR_MODE || mode == FILE_MODE,
            old(alloc).next < u64::MAX,
        ensures
            final(alloc).next == old(alloc).next + 1,
            r@ == if mode == DIR_MODE {
                new_dir_view(name@, old(alloc).next, now)
            } else {
                new_file_view(name@, Seq::empty(), old(alloc).next, now)
            },
            r.mode == mode,
            r.wf(),
            r@.inv(),
            r@.serials() == Set::empty().insert(old(alloc).next),
            r@.serials_distinct(),
    {
        let serial_number = alloc.fresh();
        if mode == DIR_MODE {
            let r = Inode {
                mode,
                size: DIR_OVERHEAD,
                permissions: (true, true),
                created_at: Some(now),
                updated_at: Some(now),
                accessed_at: Some(now),
                serial_number,
                data: InodeData::Directory(Directory::new(name)),
            };
            proof {
                assert(r@ =~= new_dir_view(name@, serial_number, now));
                assert(r@.serials() =~= Set::empty().insert(serial_number));
            }
            r
        } else {
            let r = Inode {
                mode,
                size: FILE_OVERHEAD,
                permissions: (true, true),
                created_at: Some(now),
                updated_at: Some(now),
                accessed_at: Some(now),
                serial_number,
                data: InodeData::File(File::new(name)),
            };
            proof {
                assert(r@ =~= new_file_view(name@, Seq::empty(), serial_number, now));
                assert(r@.serials() =~= Set::empty().insert(serial_number));
            }
            r
        }
    }

    /// Creates a new file inode that already holds `data`; its size is the
    /// file overhead plus the content length.
    pub fn new_file_with_data(name: String, data: String, alloc: &mut SerialAllocator, now: u64) -> (r: Inode)
        requires
            old(alloc).next < u64::MAX,
            FILE_OVERHEAD + data@.len() <= u64::MAX,
        ensures
            final(alloc).next == old(alloc).next + 1,
            r@ == new_file_view(name@, data@, old(alloc).next, now),
            r.mode == FILE_MODE,
            r.wf(),
            r@.inv(),
            r@.serials() == Set::empty().insert(old(alloc).next),
            r@.serials_distinct(),
    {
        let len = data.as_str().unicode_len();
        let serial_number = alloc.fresh();
        let r = Inode {
            mode: FILE_MODE,
            size: FILE_OVERHEAD + (len as u64),
            permissions: (true, true),
            created_at: Some(now),
            updated_at: Some(now),
            accessed_at: Some(now),
            serial_number,
            data: InodeData::File(File::new_with_data(name, data)),
        };
        proof {
            assert(r@ =~= new_file_view(r.data->File_0.name@, r.data->File_0.data@, serial_number, now));
            assert(r@.serials() =~= Set::empty().insert(serial_number));
        }
        r
    }

    /// The inode's name within its parent.
    pub fn get_name(&self) -> (n: &String)
        ensures
            n@ == self@.name(),
    {
        match &self.data {
            InodeData::File(file) => &file.name,
            InodeData::Directory(directory) => &directory.name,
        }
    }

    /// The inode's aggregate size in bytes.
    pub fn get_size(&self) -> (s: u64)
        ensures
            s == self@.size,
    {
        self.size
    }

    /// Whether this inode is a file, judged by its mode byte.
    pub fn is_file(&self) -> (r: bool)
        ensures
            r == (self.mode == FILE_MODE),
            self.wf() ==> r == self@.is_file(),
    {
        self.mode == FILE_MODE
    }

    /// Whether this inode is a directory, judged by its mode byte.
    pub fn is_directory(&self) -> (r: bool)
        ensures
            r == (self.mode == DIR_MODE),
            self.wf() ==> r == self@.is_dir(),
    {
        self.mode == DIR_MODE
    }
}

/// Removing an inode removes its model at the same position.
pub broadcast proof fn lemma_inode_views_remove(s: Seq<Inode>, i: int)
    requires
        0 <= i < s.len(),
    ensures
        #[trigger] inode_views(s.remove(i)) == inode_views(s).remove(i),
    decreases s,
{
    lemma_inode_views_len(s);
    if i == s.len() - 1 {
        assert(s.remove(i) =~= s.drop_last());
        assert(inode_views(s).remove(i) =~= inode_views(s).drop_last());
    } else {
        lemma_inode_views_remove(s.drop_last(), i);
        lemma_inode_views_len(s.drop_last());
        assert(s.remove(i).drop_last() =~= s.drop_last().remove(i));
        assert(s.remove(i).last() == s.last());
        assert(inode_views(s.remove(i))
            == inode_views(s.drop_last()).remove(i).push(inode_view(s.last())));
        assert(inode_views(s).remove(i)
            =~= inode_views(s.drop_last()).remove(i).push(inode_view(s.last())));
    }
}

/// Every summand is at most the whole sum: sizes are unsigned.
pub proof fn lemma_sum_sizes_nonneg(s: Seq<InodeView>)
    ensures
        sum_sizes(s) >= 0,
    decreases s.len(),
{
    if s.len() > 0 {
        lemma_sum_sizes_nonneg(s.drop_last());
    }
}

/// A single child's size never exceeds the sum of all children's sizes.
pub proof fn lemma_sum_sizes_le(s: Seq<InodeView>, j: int)
    requires
        0 <= j < s.len(),
    ensures
        s[j].size <= sum_sizes(s),
    decreases s.len(),
{
    if j == s.len() - 1 {
        lemma_sum_sizes_nonneg(s.drop_last());
    } else {
        lemma_sum_sizes_le(s.drop_last(), j);
    }
}

/// What `lookup_index` returns: either -1 and no child carries the name,
/// or the first position whose child carries the name.
pub proof fn lemma_lookup_index_props(s: Seq<InodeView>, name: Seq<char>)
    ensures
        -1 <= lookup_index(s, name) < s.len(),
        lookup_index(s, name) >= 0 ==> s[lookup_index(s, name)].name() == name,
        lookup_index(s, name) >= 0 ==> forall|j: int|
            0 <= j < lookup_index(s, name) ==> (#[trigger] s[j]).name() != name,
        lookup_index(s, name) == -1 ==> forall|j: int|
            0 <= j < s.len() ==> (#[trigger] s[j]).name() != name,
    decreases s.len(),
{
    if s.len() > 0 && s[0].name() != name {
        lemma_lookup_index_props(s.drop_first(), name);
        assert(forall|j: int|
            1 <= j < s.len() ==> (#[trigger] s[j]).name() == s.drop_first()[j - 1].name());
    }
}

/// `lookup_index` returns exactly the first matching position.
pub proof fn lemma_lookup_index_is_first(s: Seq<InodeView>, name: Seq<char>, i: int)
    requires
        0 <= i < s.len(),
        s[i].name() == name,
        forall|j: int| 0 <= j < i ==> (#[trigger] s[j]).name() != name,
    ensures
        lookup_index(s, name) == i,
    decreases s.len(),
{
    if i > 0 {
        lemma_lookup_index_is_first(s.drop_first(), name, i - 1);
    }
}

/// Removing one child takes exactly that child's size out of the sum.
pub proof fn lemma_sum_sizes_remove(s: Seq<InodeView>, j: int)
    requires
        0 <= j < s.len(),
    ensures
        sum_sizes(s.remove(j)) == sum_sizes(s) - s[j].size,
    decreases s.len(),
{
    if j == s.len() - 1 {
        assert(s.remove(j) =~= s.drop_last());
    } else {
        lemma_sum_sizes_remove(s.drop_last(), j);
        assert(s.remove(j).drop_last() =~= s.drop_last().remove(j));
        assert(s.remove(j).last() == s.last());
    }
}

/// Appending one child adds exactly that child's size to the sum.
pub proof fn lemma_sum_sizes_push(s: Seq<InodeView>, c: InodeView)
    ensures
        sum_sizes(s.push(c)) == sum_sizes(s) + c.size,
{
    assert(s.push(c).drop_last() =~= s);
}

/// Insertion preserves the size invariant of the tree.
pub proof fn lemma_add_spec_inv(d: InodeView, c: InodeView, now: u64)
    requires
        d.is_dir(),
        d.inv(),
        c.inv(),
        d.size + c.size <= u64::MAX,
    ensures
        add_spec(d, c, now).inv(),
{
    lemma_sum_sizes_push(d.children(), c);
    let r = add_spec(d, c, now);
    assert(r.children() == d.children().push(c));
    assert(forall|j: int| 0 <= j < d.children().len()
        ==> r.children()[j] == #[trigger] d.children()[j]);
}

/// Removal preserves the size invariant of the tree.
pub proof fn lemma_remove_spec_inv(d: InodeView, name: Seq<char>, now: u64)
    requires
        d.is_dir(),
        d.inv(),
        lookup_index(d.children(), name) >= 0,
    ensures
        remove_spec(d, name, now).inv(),
{
    let j = lookup_index(d.children(), name);
    lemma_lookup_index_props(d.children(), name);
    lemma_sum_sizes_remove(d.children(), j);
    lemma_sum_sizes_le(d.children(), j);
    lemma_sum_sizes_nonneg(d.children().remove(j));
    let r = remove_spec(d, name, now);
    assert(r.children() == d.children().remove(j));
    assert(forall|k: int| 0 <= k < r.children().len()
        ==> #[trigger] r.children()[k] == d.children()[if k < j { k } else { k + 1 }]);
}

/// Inserting a child whose name no current child carries and then removing
/// that name returns the directory to its baseline: the same children and
/// the same size as before the insertion. Only the modification timestamp
/// keeps the value of the later operation.
pub proof fn lemma_insert_remove_restores(d: InodeView, c: InodeView, t1: u64, t2: u64)
    requires
        d.is_dir(),
        d.size + c.size <= u64::MAX,
        forall|j: int| 0 <= j < d.children().len()
            ==> (#[trigger] d.children()[j]).name() != c.name(),
    ensures
        remove_spec(add_spec(d, c, t1), c.name(), t2)
            == (InodeView { updated_at: Some(t2), ..d }),
{
    let added = add_spec(d, c, t1);
    let n = d.children().len() as int;
    assert(added.children() == d.children().push(c));
    assert(forall|j: int| 0 <= j < n
        ==> (#[trigger] added.children()[j]).name() != c.name());
    lemma_lookup_index_is_first(added.children(), c.name(), n);
    assert(added.children().remove(n) =~= d.children());
    assert(remove_spec(added, c.name(), t2) =~= InodeView { updated_at: Some(t2), ..d });
}

/// Removing a child whose name no sibling shares takes exactly that
/// child, wherever it stands, and gives exactly its size back; so any
/// sequence of such removals, in any order, undoes the matching
/// insertions.
pub proof fn lemma_remove_named_child(d: InodeView, k: int, now: u64)
    requires
        d.is_dir(),
        0 <= k < d.children().len(),
        forall|j: int| 0 <= j < d.children().len() && j != k
            ==> (#[trigger] d.children()[j]).name() != d.children()[k].name(),
    ensures
        remove_spec(d, d.children()[k].name(), now) == (InodeView {
            size: (d.size - d.children()[k].size) as u64,
            updated_at: Some(now),
            data: InodeDataView::Directory {
                name: d.name(),
                children: d.children().remove(k),
            },
            ..d
        }),
{
    lemma_lookup_index_is_first(d.children(), d.children()[k].name(), k);
}

/// The names of a sequence of nodes, in order.
pub open spec fn names_of(cs: Seq<InodeView>) -> Seq<Seq<char>> {
    cs.map_values(|c: InodeView| c.name())
}

/// Insertion of a sequence of children one after the other, all stamped
/// `now`.
pub open spec fn add_all_spec(d: InodeView, cs: Seq<InodeView>, now: u64) -> InodeView
    decreases cs.len(),
{
    if cs.len() == 0 {
        d
    } else {
        add_spec(add_all_spec(d, cs.drop_last(), now), cs.last(), now)
    }
}

/// Removal by name of each of `names`, from the last back to the first,
/// all stamped `now`.
pub open spec fn remove_all_rev_spec(d: InodeView, names: Seq<Seq<char>>, now: u64) -> InodeView
    decreases names.len(),
{
    if names.len() == 0 {
        d
    } else {
        remove_all_rev_spec(remove_spec(d, names.last(), now), names.drop_last(), now)
    }
}

/// What inserting a sequence of children yields: the children appended in
/// order and the size grown by the sum of their sizes.
pub proof fn lemma_add_all_spec_shape(d: InodeView, cs: Seq<InodeView>, t1: u64)
    requires
        d.is_dir(),
        d.size + sum_sizes(cs) <= u64::MAX,
    ensures
        add_all_spec(d, cs, t1) == (InodeView {
            size: (d.size + sum_sizes(cs)) as u64,
            updated_at: if cs.len() > 0 { Some(t1) } else { d.updated_at },
            data: InodeDataView::Directory { name: d.name(), children: d.children() + cs },
            ..d
        }),
    decreases cs.len(),
{
    if cs.len() == 0 {
        assert(d.children() + cs =~= d.children());
        assert(add_all_spec(d, cs, t1) =~= InodeView {
            size: (d.size + sum_sizes(cs)) as u64,
            updated_at: d.updated_at,
            data: InodeDataView::Directory { name: d.name(), children: d.children() + cs },
            ..d
        });
    } else {
        lemma_sum_sizes_nonneg(cs.drop_last());
        lemma_add_all_spec_shape(d, cs.drop_last(), t1);
        let prev = add_all_spec(d, cs.drop_last(), t1);
        assert((d.children() + cs.drop_last()).push(cs.last()) =~= d.children() + cs);
        assert(add_spec(prev, cs.last(), t1) =~= InodeView {
            size: (d.size + sum_sizes(cs)) as u64,
            updated_at: Some(t1),
            data: InodeDataView::Directory { name: d.name(), children: d.children() + cs },
            ..d
        });
    }
}

/// Removing, from the back, the names of children that sit appended after
/// `base` peels exactly those children off and gives their sizes back.
pub proof fn lemma_remove_all_rev(e: InodeView, base: Seq<InodeView>, cs: Seq<InodeView>, t2: u64)
    requires
        e.is_dir(),
        e.children() == base + cs,
        e.size - sum_sizes(cs) >= 0,
        forall|j: int, k: int|
            0 <= j < cs.len() && 0 <= k < cs.len() && j != k
                ==> (#[trigger] cs[j]).name() != (#[trigger] cs[k]).name(),
        forall|j: int, k: int|
            0 <= j < base.len() && 0 <= k < cs.len()
                ==> (#[trigger] base[j]).name() != (#[trigger] cs[k]).name(),
    ensures
        remove_all_rev_spec(e, names_of(cs), t2) == (InodeView {
            size: (e.size - sum_sizes(cs)) as u64,
            updated_at: if cs.len() > 0 { Some(t2) } else { e.updated_at },
            data: InodeDataView::Directory { name: e.name(), children: base },
            ..e
        }),
    decreases cs.len(),
{
    if cs.len() == 0 {
        assert(base + cs =~= base);
        assert(remove_all_rev_spec(e, names_of(cs), t2) =~= InodeView {
            size: (e.size - sum_sizes(cs)) as u64,
            updated_at: e.updated_at,
            data: InodeDataView::Directory { name: e.name(), children: base },
            ..e
        });
    } else {
        let last = cs.last();
        let n = base.len() + cs.len() - 1;
        assert(e.children()[n as int] == last);
        assert(forall|j: int| 0 <= j < n
            ==> (#[trigger] e.children()[j]).name() != last.name());
        lemma_lookup_index_is_first(e.children(), last.name(), n as int);
        lemma_sum_sizes_nonneg(cs.drop_last());
        assert(sum_sizes(cs) == sum_sizes(cs.drop_last()) + last.size);
        let e1 = remove_spec(e, last.name(), t2);
        assert(e1.size == e.size - last.size);
        assert(e1.children() =~= base + cs.drop_last());
        assert(names_of(cs).last() == last.name());
        assert(names_of(cs).drop_last() =~= names_of(cs.drop_last()));
        lemma_remove_all_rev(e1, base, cs.drop_last(), t2);
        assert(remove_all_rev_spec(e, names_of(cs), t2) =~= InodeView {
            size: (e.size - sum_sizes(cs)) as u64,
            updated_at: Some(t2),
            data: InodeDataView::Directory { name: e.name(), children: base },
            ..e
        });
    }
}

/// For any sequence of inserted children with fresh, pairwise different
/// names, removing every one of them again returns the directory to its
/// baseline: the same children and the same size as before the first
/// insertion. Only the modification timestamp keeps the value of the last
/// removal.
pub proof fn lemma_insert_all_remove_all_restores(
    d: InodeView,
    cs: Seq<InodeView>,
    t1: u64,
    t2: u64,
)
    requires
        d.is_dir(),
        d.size + sum_sizes(cs) <= u64::MAX,
        forall|j: int, k: int|
            0 <= j < cs.len() && 0 <= k < cs.len() && j != k
                ==> (#[trigger] cs[j]).name() != (#[trigger] cs[k]).name(),
        forall|j: int, k: int|
            0 <= j < d.children().len() && 0 <= k < cs.len()
                ==> (#[trigger] d.children()[j]).name() != (#[trigger] cs[k]).name(),
    ensures
        cs.len() > 0 ==> remove_all_rev_spec(add_all_spec(d, cs, t1), names_of(cs), t2)
            == (InodeView { updated_at: Some(t2), ..d }),
        cs.len() == 0 ==> remove_all_rev_spec(add_all_spec(d, cs, t1), names_of(cs), t2) == d,
{
    lemma_add_all_spec_shape(d, cs, t1);
    let e = add_all_spec(d, cs, t1);
    lemma_sum_sizes_nonneg(cs);
    lemma_remove_all_rev(e, d.children(), cs, t2);
    if cs.len() > 0 {
        assert(remove_all_rev_spec(e, names_of(cs), t2)
            =~= InodeView { updated_at: Some(t2), ..d });
    } else {
        assert(remove_all_rev_spec(e, names_of(cs), t2) =~= d);
    }
}

/// Each subtree's serials are contained in the serials of the sequence it
/// belongs to.
pub proof fn lemma_serials_of_subset(s: Seq<InodeView>, j: int)
    requires
        0 <= j < s.len(),
    ensures
        s[j].serials().subset_of(serials_of(s)),
    decreases s.len(),
{
    if j < s.len() - 1 {
        lemma_serials_of_subset(s.drop_last(), j);
    }
}

/// Every serial in a sequence's union comes from one of its subtrees.
pub proof fn lemma_serials_of_elem(s: Seq<InodeView>, x: u64)
    requires
        serials_of(s).contains(x),
    ensures
        exists|j: int| 0 <= j < s.len() && (#[trigger] s[j]).serials().contains(x),
    decreases s.len(),
{
    if s.len() > 0 {
        if s.last().serials().contains(x) {
            assert(s[s.len() - 1].serials().contains(x));
        } else {
            lemma_serials_of_elem(s.drop_last(), x);
            let j = choose|j: int|
                0 <= j < s.drop_last().len() && (#[trigger] s.drop_last()[j]).serials().contains(x);
            assert(s[j].serials().contains(x));
        }
    }
}

/// Insertion unions the child's serials into the directory's serials.
pub proof fn lemma_add_spec_serials(d: InodeView, c: InodeView, now: u64)
    requires
        d.is_dir(),
    ensures
        add_spec(d, c, now).serials() == d.serials().union(c.serials()),
{
    assert(add_spec(d, c, now).children().drop_last() =~= d.children());
    assert(add_spec(d, c, now).serials() =~= d.serials().union(c.serials()));
}

/// Insertion of a subtree with disjoint serials keeps all serials in the
/// tree distinct.
pub proof fn lemma_add_spec_distinct(d: InodeView, c: InodeView, now: u64)
    requires
        d.is_dir(),
        d.serials_distinct(),
        c.serials_distinct(),
        d.serials().disjoint(c.serials()),
    ensures
        add_spec(d, c, now).serials_distinct(),
{
    let r = add_spec(d, c, now);
    let cs = d.children();
    assert(r.children() == cs.push(c));
    assert(r.children().drop_last() =~= cs);
    assert(serials_of(r.children()) == serials_of(cs).union(c.serials()));
    assert(serials_of(cs).subset_of(d.serials()));
    assert(!serials_of(r.children()).contains(d.serial));
    assert forall|j: int, k: int|
        0 <= j < r.children().len() && 0 <= k < r.children().len() && j != k implies (
        #[trigger] r.children()[j].serials()).disjoint(#[trigger] r.children()[k].serials()) by {
        if j < cs.len() && k < cs.len() {
            assert(d.children()[j] == r.children()[j]);
            assert(d.children()[k] == r.children()[k]);
        } else if j == cs.len() {
            lemma_serials_of_subset(cs, k);
        } else {
            lemma_serials_of_subset(cs, j);
        }
    }
}

/// Removing a directory child removes every descendant: with all serials
/// in the tree distinct, no serial of the removed subtree remains
/// reachable in the directory afterwards.
pub proof fn lemma_remove_erases_subtree_serials(d: InodeView, name: Seq<char>, now: u64)
    requires
        d.is_dir(),
        d.serials_distinct(),
        lookup_index(d.children(), name) >= 0,
    ensures
        forall|x: u64|
            (#[trigger] d.children()[lookup_index(d.children(), name)].serials().contains(x))
                ==> !remove_spec(d, name, now).serials().contains(x),
{
    let cs = d.children();
    let j = lookup_index(cs, name);
    lemma_lookup_index_props(cs, name);
    let removed = cs[j];
    let r = remove_spec(d, name, now);
    assert(r.children() == cs.remove(j));
    assert forall|x: u64| removed.serials().contains(x) implies !r.serials().contains(x) by {
        lemma_serials_of_subset(cs, j);
        assert(x != d.serial);
        if serials_of(cs.remove(j)).contains(x) {
            lemma_serials_of_elem(cs.remove(j), x);
            let k = choose|k: int|
                0 <= k < cs.remove(j).len()
                    && (#[trigger] cs.remove(j)[k]).serials().contains(x);
            let orig = if k < j { k } else { k + 1 };
            assert(cs[orig] == cs.remove(j)[k]);
            assert(cs[orig].serials().disjoint(cs[j].serials()));
        }
    }
}

impl Inode {
    /// An exact deep copy of the whole subtree.
    pub fn clone(&self) -> (r: Inode)
        ensures
            r@ == self@,
            r.mode == self.mode,
            self.wf() ==> r.wf(),
        decreases self,
    {
        let r = Inode {
            mode: self.mode,
            size: self.size,
            permissions: self.permissions,
            created_at: self.created_at,
            updated_at: self.updated_at,
            accessed_at: self.accessed_at,
            serial_number: self.serial_number,
            data: match &self.data {
                InodeData::File(file) => InodeData::File(file.clone()),
                InodeData::Directory(directory) => InodeData::Directory(directory.clone()),
            },
        };
        proof {
            assert(r@ =~= self@);
        }
        r
    }
}

impl Inode {
    /// Inserts `inode` as the last child of this directory: the size grows
    /// by the child's size and the modification timestamp becomes `now`.
    /// Fails with `NotADirectory`, changing nothing, when this inode is a
    /// file. The size delta is not propagated to any ancestor: trees are
    /// built bottom-up, so the size invariant still holds globally.
    pub fn add_inode(&mut self, inode: Inode, now: u64) -> (r: Result<(), VfsError>)
        requires
            old(self).wf(),
            inode.wf(),
            old(self)@.is_dir() ==> old(self).size + inode.size <= u64::MAX,
        ensures
            final(self).wf(),
            final(self).mode == old(self).mode,
            old(self)@.is_dir() ==> r is Ok
                && final(self)@ == add_spec(old(self)@, inode@, now),
            !old(self)@.is_dir() ==> r == Err::<(), VfsError>(VfsError::NotADirectory)
                && final(self)@ == old(self)@,
            old(self)@.inv() && inode@.inv() ==> final(self)@.inv(),
    {
        let ghost ghost_child = inode;
        if self.is_file() {
            return Err(VfsError::NotADirectory);
        }
        self.size = self.size + inode.size;
        self.updated_at = Some(now);
        match &mut self.data {
            InodeData::Directory(directory) => directory.add_inode(inode),
            InodeData::File(_) => {
                proof {
                    assert(false);
                }
            },
        }
        proof {
            lemma_inode_views_push(old(self).data->Directory_0.files@, ghost_child);
            assert(self@ =~= add_spec(old(self)@, ghost_child@, now));
            if old(self)@.inv() && ghost_child@.inv() {
                lemma_add_spec_inv(old(self)@, ghost_child@, now);
            }
        }
        Ok(())
    }

    /// Looks the given name up among the children of this directory:
    /// a case-sensitive linear scan in which the first match wins. Returns
    /// a deep copy of the first child of that name, or `None` when this
    /// inode is not a directory or no child has the name.
    pub fn get_inode_by_name(&self, name: &str) -> (r: Option<Inode>)
        requires
            self.wf(),
        ensures
            match r {
                Some(inode) => self@.is_dir()
                    && lookup_index(self@.children(), name@) >= 0
                    && inode@ == self@.children()[lookup_index(self@.children(), name@)]
                    && inode.wf(),
                None => !self@.is_dir() || lookup_index(self@.children(), name@) == -1,
            },
    {
        if !self.is_directory() {
            return None;
        }
        match &self.data {
            InodeData::Directory(directory) => {
                let ghost children = self@.children();
                proof {
                    lemma_inode_views_len(directory.files@);
                    assert forall|j: int| 0 <= j < children.len() implies (#[trigger] children[j])
                        == directory.files@[j]@ by {
                        lemma_inode_views_index(directory.files@, j);
                    }
                }
                let n = directory.files.len();
                let mut i: usize = 0;
                while i < n
                    invariant
                        i <= n,
                        self.wf(),
                        self@.is_dir(),
                        self.data == InodeData::Directory(*directory),
                        children == self@.children(),
                        n == directory.files@.len(),
                        children == inode_views(directory.files@),
                        children.len() == n,
                        forall|j: int| 0 <= j < children.len()
                            ==> (#[trigger] children[j]) == directory.files@[j]@,
                        forall|j: int| 0 <= j < i ==> (#[trigger] children[j]).name() != name@,
                    decreases n - i,
                {
                    if str_eq(directory.files[i].get_name().as_str(), name) {
                        let found = directory.files[i].clone();
                        proof {
                            lemma_lookup_index_is_first(children, name@, i as int);
                        }
                        return Some(found);
                    }
                    i = i + 1;
                }
                proof {
                    lemma_lookup_index_props(children, name@);
                }
                None
            },
            InodeData::File(_) => {
                proof {
                    assert(false);
                }
                None
            },
        }
    }

    /// Removes the first child named `target_name` from this directory:
    /// the whole subtree below that child is destroyed with it, the
    /// directory's size shrinks by the removed child's size, and the
    /// modification timestamp becomes `now`. Fails with `NotADirectory`
    /// on a file inode and with `NotFound` when no child has the name,
    /// changing nothing in either case.
    pub fn remove_inode(&mut self, target_name: &str, now: u64) -> (r: Result<(), VfsError>)
        requires
            old(self).wf(),
            old(self)@.inv(),
        ensures
            final(self).wf(),
            final(self).mode == old(self).mode,
            !old(self)@.is_dir() ==> r == Err::<(), VfsError>(VfsError::NotADirectory)
                && final(self)@ == old(self)@,
            old(self)@.is_dir() && lookup_index(old(self)@.children(), target_name@) == -1
                ==> r == Err::<(), VfsError>(VfsError::NotFound) && final(self)@ == old(self)@,
            old(self)@.is_dir() && lookup_index(old(self)@.children(), target_name@) >= 0
                ==> r is Ok && final(self)@ == remove_spec(old(self)@, target_name@, now),
            final(self)@.inv(),
            old(self)@.is_dir() && lookup_index(old(self)@.children(), target_name@) >= 0
                && old(self)@.serials_distinct() ==> forall|x: u64|
                old(self)@.children()[lookup_index(old(self)@.children(), target_name@)]
                    .serials().contains(x) ==> !final(self)@.serials().contains(x),
    {
        if self.is_file() {
            return Err(VfsError::NotADirectory);
        }
        let removed_size: u64;
        match &mut self.data {
            InodeData::Directory(directory) => {
                let ghost children = old(self)@.children();
                proof {
                    lemma_inode_views_len(directory.files@);
                    assert forall|j: int| 0 <= j < children.len() implies (#[trigger] children[j])
                        == directory.files@[j]@ by {
                        lemma_inode_views_index(directory.files@, j);
                    }
                }
                let n = directory.files.len();
                let mut i: usize = 0;
                let mut found = false;
                while i < n && !found
                    invariant
                        i <= n,
                        n == directory.files@.len(),
                        children == inode_views(directory.files@),
                        children.len() == n,
                        forall|j: int| 0 <= j < children.len()
                            ==> (#[trigger] children[j]) == directory.files@[j]@,
                        forall|j: int| 0 <= j < i ==> (#[trigger] children[j]).name() != target_name@,
                        found ==> i < n && children[i as int].name() == target_name@,
                    decreases n - i + (if found { 0int } else { 1int }),
                {
                    if str_eq(directory.files[i].get_name().as_str(), target_name) {
                        found = true;
                    } else {
                        i = i + 1;
                    }
                }
                if !found {
                    proof {
                        lemma_lookup_index_props(children, target_name@);
                    }
                    return Err(VfsError::NotFound);
                }
                proof {
                    lemma_lookup_index_is_first(children, target_name@, i as int);
                    lemma_sum_sizes_le(children, i as int);
                    lemma_sum_sizes_nonneg(children);
                }
                removed_size = directory.files[i].size;
                let ghost files_before = directory.files@;
                let _removed = directory.files.remove(i);
                proof {
                    lemma_inode_views_remove(files_before, i as int);
                }
            },
            InodeData::File(_) => {
                proof {
                    assert(false);
                }
                removed_size = 0;
            },
        }
        self.size = self.size - removed_size;
        self.updated_at = Some(now);
        proof {
            assert(self@ =~= remove_spec(old(self)@, target_name@, now));
            lemma_remove_spec_inv(old(self)@, target_name@, now);
            if old(self)@.serials_distinct() {
                lemma_remove_erases_subtree_serials(old(self)@, target_name@, now);
            }
        }
        Ok(())
    }
}

/// The root directory inode, named "/", created once at startup with no
/// parent.
pub fn create_root(alloc: &mut SerialAllocator, now: u64) -> (r: Inode)
    requires
        old(alloc).next < u64::MAX,
    ensures
        final(alloc).next == old(alloc).next + 1,
        r@ == new_dir_view("/"@, old(alloc).next, now),
        r.mode == DIR_MODE,
        r.wf(),
        r@.inv(),
        r@.serials() == Set::empty().insert(old(alloc).next),
        r@.serials_distinct(),
{
    Inode::new(DIR_MODE, String::from_str("/"), alloc, now)
}

impl File {
    /// A new file payload with empty content.
    pub fn new(name: String) -> (r: File)
        ensures
            r.name@ == name@,
            r.data@ == Seq::<char>::empty(),
    {
        File { name, data: String::new() }
    }

    /// A new file payload that already holds `data`.
    pub fn new_with_data(name: String, data: String) -> (r: File)
        ensures
            r.name@ == name@,
            r.data@ == data@,
    {
        File { name, data }
    }

    /// An exact copy: same name, same content.
    pub fn clone(&self) -> (r: File)
        ensures
            r.name@ == self.name@,
            r.data@ == self.data@,
    {
        File { name: self.name.clone(), data: self.data.clone() }
    }
}

impl Directory {
    /// A new directory payload with no children.
    pub fn new(name: String) -> (r: Directory)
        ensures
            r.name@ == name@,
            r.files@ == Seq::<Inode>::empty(),
    {
        Directory { name, files: Vec::new() }
    }

    /// An exact copy of the name and of every child subtree.
    pub fn clone(&self) -> (r: Directory)
        ensures
            r.name@ == self.name@,
            r.files@.len() == self.files@.len(),
            inode_views(r.files@) == inode_views(self.files@),
            forall|j: int| 0 <= j < self.files@.len() && self.files@[j].wf()
                ==> (#[trigger] r.files@[j]).wf(),
        decreases self,
    {
        let mut files: Vec<Inode> = Vec::new();
        let mut i: usize = 0;
        while i < self.files.len()
            invariant
                i <= self.files.len(),
                files@.len() == i,
                forall|j: int| 0 <= j < i ==> (#[trigger] files@[j])@ == self.files@[j]@,
                forall|j: int| 0 <= j < i && self.files@[j].wf()
                    ==> (#[trigger] files@[j]).wf(),
            decreases self.files.len() - i,
        {
            let child = self.files[i].clone();
            files.push(child);
            i = i + 1;
        }
        proof {
            broadcast use lemma_inode_views_len, lemma_inode_views_index;

            assert(inode_views(files@) =~= inode_views(self.files@));
        }
        Directory { name: self.name.clone(), files }
    }

    /// Appends a child inode; insertion order is preserved.
    pub fn add_inode(&mut self, inode: Inode)
        ensures
            final(self).name@ == old(self).name@,
            final(self).files@ == old(self).files@.push(inode),
    {
        self.files.push(inode);
    }

    /// Removes every child. Dropping the owned children releases every
    /// descendant transitively, so clearing the sequence performs the
    /// whole post-order destruction of the subtrees.
    pub fn recursive_remove(&mut self)
        ensures
            final(self).name@ == old(self).name@,
            final(self).files@ == Seq::<Inode>::empty(),
    {
        self.files.clear();
    }
}

} // verus!
