//! A node of the virtual tree, and what can be asked of its children.

use crate::disk::Disk;
use crate::error::{ErrorKind, TreeError};
use crate::name::{is_valid_item_name, split_nth, split_nth_item, valid_name};
use crate::text::push_decimal;
use vstd::prelude::*;
use vstd::string::StringExecFns;

verus! {

/// What a node holds, as plain mathematical values.
pub ghost struct ItemView {
    pub name: Seq<char>,
    pub children: Seq<ItemView>,
    pub desc: Option<Seq<char>>,
    pub entity: Option<Seq<char>>,
}

/// A named node of the tree. It owns its children, in the order in which they
/// were added, and may point at a real file through `entity`.
#[derive(Debug)]
pub struct TreeItem {
    /// The name; siblings may share it.
    pub name: String,
    children: Vec<TreeItem>,
    /// A free annotation.
    pub desc: Option<String>,
    /// The path of the real file that this node stands for.
    pub entity: Option<String>,
}

/// The view of an optional string.
pub open spec fn text_view(t: Option<String>) -> Option<Seq<char>> {
    match t {
        Some(s) => Some(s@),
        None => None,
    }
}

/// The view of a node: its own fields and, in order, the views of its
/// children.
pub closed spec fn item_view(t: TreeItem) -> ItemView
    decreases t,
{
    ItemView {
        name: t.name@,
        children: Seq::new(
            t.children@.len(),
            |i: int|
                if 0 <= i < t.children@.len() {
                    item_view(t.children@[i])
                } else {
                    arbitrary()
                },
        ),
        desc: text_view(t.desc),
        entity: text_view(t.entity),
    }
}

impl View for TreeItem {
    type V = ItemView;

    closed spec fn view(&self) -> ItemView {
        item_view(*self)
    }
}

/// A node without children, description or entity.
pub open spec fn leaf(name: Seq<char>) -> ItemView {
    ItemView { name, children: Seq::empty(), desc: None, entity: None }
}

/// A node without children or description that stands for the file at `path`.
pub open spec fn file_leaf(name: Seq<char>, path: Seq<char>) -> ItemView {
    ItemView { name, children: Seq::empty(), desc: None, entity: Some(path) }
}

/// `n` with its `i`-th child replaced by `c`.
pub open spec fn with_child(n: ItemView, i: int, c: ItemView) -> ItemView {
    ItemView { children: n.children.update(i, c), ..n }
}

/// `n` with `c` added behind its children.
pub open spec fn with_pushed(n: ItemView, c: ItemView) -> ItemView {
    ItemView { children: n.children.push(c), ..n }
}

/// `n` without its `i`-th child.
pub open spec fn with_removed(n: ItemView, i: int) -> ItemView {
    ItemView { children: n.children.remove(i), ..n }
}

/// A node is a file where it has an entity at which the disk holds a regular
/// file. Children do not enter into it.
pub open spec fn is_file(n: ItemView, files: Set<Seq<char>>) -> bool {
    n.entity matches Some(p) && files.contains(p)
}

/// A node is a directory where it is no file.
pub open spec fn is_dir(n: ItemView, files: Set<Seq<char>>) -> bool {
    !is_file(n, files)
}

/// How many of the nodes of `s` bear the name `name`.
pub open spec fn count_named(s: Seq<ItemView>, name: Seq<char>) -> nat
    decreases s.len(),
{
    if s.len() == 0 {
        0
    } else {
        count_named(s.drop_last(), name) + if s.last().name == name {
            1nat
        } else {
            0nat
        }
    }
}

/// Whether `s[i]` bears the name `name` and exactly `n` nodes before it do.
pub open spec fn is_nth_named(s: Seq<ItemView>, name: Seq<char>, n: int, i: int) -> bool {
    &&& 0 <= i < s.len()
    &&& s[i].name == name
    &&& count_named(s.take(i), name) == n
}

/// The place of the `n`-th node named `name`, counted from 0 in the order of
/// `s`.
pub open spec fn nth_named(s: Seq<ItemView>, name: Seq<char>, n: int) -> Option<int> {
    if exists|i: int| is_nth_named(s, name, n, i) {
        Some(choose|i: int| is_nth_named(s, name, n, i))
    } else {
        None
    }
}

/// Whether `s[i]` is a directory named `name` and no node before it is.
pub open spec fn is_first_dir(
    s: Seq<ItemView>,
    name: Seq<char>,
    files: Set<Seq<char>>,
    i: int,
) -> bool {
    &&& 0 <= i < s.len()
    &&& s[i].name == name
    &&& is_dir(s[i], files)
    &&& forall|j: int| 0 <= j < i ==> !((#[trigger] s[j]).name == name && is_dir(s[j], files))
}

/// The place of the first directory named `name`.
pub open spec fn first_dir_named(s: Seq<ItemView>, name: Seq<char>, files: Set<Seq<char>>) -> Option<
    int,
> {
    if exists|i: int| is_first_dir(s, name, files, i) {
        Some(choose|i: int| is_first_dir(s, name, files, i))
    } else {
        None
    }
}

/// The child of `n` that `name` selects.
///
/// A name without a `#n` suffix selects the first child of that name. With
/// the suffix it selects the `n`-th child of the name before the `#`; where
/// fewer children bear it, the failure says how many do.
pub open spec fn find_child(n: ItemView, name: Seq<char>) -> Result<int, ErrorKind> {
    let (base, nth) = split_nth(name);
    if nth < 0 {
        match nth_named(n.children, base, 0) {
            Some(i) => Ok(i),
            None => Err(ErrorKind::NotFound),
        }
    } else {
        match nth_named(n.children, base, nth) {
            Some(i) => Ok(i),
            None => if count_named(n.children, base) > 0 {
                Err(ErrorKind::Ambiguous(count_named(n.children, base) as usize))
            } else {
                Err(ErrorKind::NotFound)
            },
        }
    }
}

/// The child of `n` that `name` selects among the directories: the first
/// child of exactly that name that is no file.
pub open spec fn find_dir(n: ItemView, name: Seq<char>, files: Set<Seq<char>>) -> Result<
    int,
    ErrorKind,
> {
    match first_dir_named(n.children, name, files) {
        Some(i) => Ok(i),
        None => Err(ErrorKind::NotFound),
    }
}

/// Counting one node further adds one where that node bears the name.
pub proof fn lemma_count_take(s: Seq<ItemView>, name: Seq<char>, i: int)
    requires
        0 <= i < s.len(),
    ensures
        count_named(s.take(i + 1), name) == count_named(s.take(i), name) + if s[i].name == name {
            1nat
        } else {
            0nat
        },
{
    assert(s.take(i + 1).drop_last() == s.take(i));
}

/// A longer beginning holds no fewer nodes of a name.
pub proof fn lemma_count_grows(s: Seq<ItemView>, name: Seq<char>, i: int, j: int)
    requires
        0 <= i <= j <= s.len(),
    ensures
        count_named(s.take(i), name) <= count_named(s.take(j), name),
    decreases j - i,
{
    if i < j {
        lemma_count_grows(s, name, i, j - 1);
        lemma_count_take(s, name, j - 1);
    }
}

/// At most one place is the `n`-th of a name.
pub proof fn lemma_nth_unique(s: Seq<ItemView>, name: Seq<char>, n: int, i: int, j: int)
    requires
        is_nth_named(s, name, n, i),
        is_nth_named(s, name, n, j),
    ensures
        i == j,
{
    if i < j {
        lemma_count_take(s, name, i);
        lemma_count_grows(s, name, i + 1, j);
    } else if j < i {
        lemma_count_take(s, name, j);
        lemma_count_grows(s, name, j + 1, i);
    }
}

/// A place that is the `n`-th of a name is the one that `nth_named` gives.
pub proof fn lemma_nth_found(s: Seq<ItemView>, name: Seq<char>, n: int, i: int)
    requires
        is_nth_named(s, name, n, i),
    ensures
        nth_named(s, name, n) == Some(i),
{
    let k = choose|k: int| is_nth_named(s, name, n, k);
    lemma_nth_unique(s, name, n, i, k);
}

/// Where at most `n` nodes bear a name, none is the `n`-th.
pub proof fn lemma_nth_missing(s: Seq<ItemView>, name: Seq<char>, n: int)
    requires
        count_named(s, name) <= n,
    ensures
        nth_named(s, name, n) is None,
{
    if exists|i: int| is_nth_named(s, name, n, i) {
        let i = choose|i: int| is_nth_named(s, name, n, i);
        lemma_count_take(s, name, i);
        lemma_count_grows(s, name, i + 1, s.len() as int);
        assert(s.take(s.len() as int) == s);
    }
}

impl TreeItem {
    /// The view of the `i`-th child, read off the node itself.
    proof fn lemma_child(&self, i: int)
        requires
            0 <= i < self.children@.len(),
        ensures
            self@.children.len() == self.children@.len(),
            self@.children[i] == self.children@[i]@,
            self@.children[i].name == self.children@[i].name@,
            self@.children[i].entity == text_view(self.children@[i].entity),
            self@.children[i].desc == text_view(self.children@[i].desc),
    {
    }

    /// The name.
    pub fn label(&self) -> (r: &str)
        ensures
            r@ == self@.name,
    {
        self.name.as_str()
    }

    /// The description, if the node has one.
    pub fn description(&self) -> (r: Option<&str>)
        ensures
            match r {
                Some(d) => self@.desc == Some(d@),
                None => self@.desc is None,
            },
    {
        match &self.desc {
            Some(d) => Some(d.as_str()),
            None => None,
        }
    }

    /// Gives the node the description `desc`, or takes its description
    /// away.
    pub fn set_desc(&mut self, desc: Option<String>)
        ensures
            final(self)@ == (ItemView { desc: text_view(desc), ..old(self)@ }),
    {
        self.desc = desc;
        assert(self@.children =~= old(self)@.children);
    }

    /// The path of the real file that the node stands for, if it has one.
    pub fn entity_path(&self) -> (r: Option<&str>)
        ensures
            match r {
                Some(p) => self@.entity == Some(p@),
                None => self@.entity is None,
            },
    {
        match &self.entity {
            Some(p) => Some(p.as_str()),
            None => None,
        }
    }

    /// A new node named `name`, without children, description or entity.
    pub fn new(name: String) -> (r: Self)
        ensures
            r@ == leaf(name@),
    {
        let r = TreeItem { name, children: Vec::new(), desc: None, entity: None };
        assert(r@.children =~= Seq::empty());
        r
    }

    /// A new node named `name` that stands for the real file at `path`.
    pub fn new_file(name: String, path: String) -> (r: Self)
        ensures
            r@ == file_leaf(name@, path@),
    {
        let r = TreeItem { name, children: Vec::new(), desc: None, entity: Some(path) };
        assert(r@.children =~= Seq::empty());
        r
    }

    /// Whether the node is a file: it has an entity, and the disk holds a
    /// regular file there.
    pub fn is_file(&self, disk: &Disk) -> (r: bool)
        ensures
            r == is_file(self@, disk@.files),
            r ==> self@.entity is Some && disk@.files.contains(self@.entity->0),
    {
        match &self.entity {
            Some(path) => disk.is_file(path),
            None => false,
        }
    }

    /// Whether the node is a directory: any node that is no file.
    pub fn is_dir(&self, disk: &Disk) -> (r: bool)
        ensures
            r == is_dir(self@, disk@.files),
            r == !is_file(self@, disk@.files),
    {
        !self.is_file(disk)
    }

    /// The number of children.
    pub fn child_count(&self) -> (n: usize)
        ensures
            n == self@.children.len(),
    {
        self.children.len()
    }

    /// The `i`-th child.
    pub fn child(&self, i: usize) -> (c: &TreeItem)
        requires
            i < self@.children.len(),
        ensures
            c@ == self@.children[i as int],
    {
        &self.children[i]
    }

    /// The `i`-th child, to be changed in place.
    pub fn child_mut(&mut self, i: usize) -> (c: &mut TreeItem)
        requires
            i < old(self)@.children.len(),
        ensures
            c@ == old(self)@.children[i as int],
            final(self)@ == with_child(old(self)@, i as int, final(c)@),
    {
        proof {
            assert forall|t: TreeItem|
                t.name == self.name && t.desc == self.desc && t.entity == self.entity
                    && t.children@.len() == self.children@.len() && t.children@
                    == self.children@.update(i as int, t.children@[i as int]) implies #[trigger] item_view(
                t,
            ) == with_child(self@, i as int, item_view(t.children@[i as int])) by {
                assert(item_view(t).children =~= self@.children.update(
                    i as int,
                    item_view(t.children@[i as int]),
                ));
            }
        }
        &mut self.children[i]
    }

    /// The node itself, to be changed in place.
    pub fn as_mut(&mut self) -> (r: &mut TreeItem)
        ensures
            *r == *old(self),
            *final(self) == *final(r),
    {
        self
    }

    /// The children, in order.
    pub fn iter_children(&self) -> (r: Vec<&TreeItem>)
        ensures
            r@.len() == self@.children.len(),
            forall|i: int| 0 <= i < r@.len() ==> (#[trigger] r@[i])@ == self@.children[i],
    {
        let mut out: Vec<&TreeItem> = Vec::new();
        let mut i: usize = 0;
        while i < self.children.len()
            invariant
                i <= self.children.len(),
                out@.len() == i,
                forall|j: int| 0 <= j < i ==> (#[trigger] out@[j])@ == self@.children[j],
            decreases self.children.len() - i,
        {
            out.push(&self.children[i]);
            i += 1;
        }
        out
    }

    /// The names of the children, in order.
    pub fn iter_children_names(&self) -> (r: Vec<&String>)
        ensures
            r@.len() == self@.children.len(),
            forall|i: int| 0 <= i < r@.len() ==> (#[trigger] r@[i])@ == self@.children[i].name,
    {
        let mut out: Vec<&String> = Vec::new();
        let mut i: usize = 0;
        while i < self.children.len()
            invariant
                i <= self.children.len(),
                out@.len() == i,
                forall|j: int| 0 <= j < i ==> (#[trigger] out@[j])@ == self@.children[j].name,
            decreases self.children.len() - i,
        {
            proof {
                self.lemma_child(i as int);
            }
            out.push(&self.children[i].name);
            i += 1;
        }
        out
    }

    /// The names of the children, in order, as strings of their own.
    pub fn children_names(&self) -> (r: Vec<String>)
        ensures
            r@.len() == self@.children.len(),
            forall|i: int| 0 <= i < r@.len() ==> (#[trigger] r@[i])@ == self@.children[i].name,
    {
        let mut out: Vec<String> = Vec::new();
        let mut i: usize = 0;
        while i < self.children.len()
            invariant
                i <= self.children.len(),
                out@.len() == i,
                forall|j: int| 0 <= j < i ==> (#[trigger] out@[j])@ == self@.children[j].name,
            decreases self.children.len() - i,
        {
            proof {
                self.lemma_child(i as int);
            }
            out.push(self.children[i].name.clone());
            i += 1;
        }
        out
    }

    /// Whether a child bears exactly the name `name`; a `#n` suffix is not
    /// read as one.
    pub fn has(&self, name: &String) -> (r: bool)
        ensures
            r == (count_named(self@.children, name@) > 0),
    {
        let mut i: usize = 0;
        proof {
            assert(self@.children.take(0) == Seq::<ItemView>::empty());
        }
        while i < self.children.len()
            invariant
                i <= self.children.len(),
                count_named(self@.children.take(i as int), name@) == 0,
            decreases self.children.len() - i,
        {
            proof {
                self.lemma_child(i as int);
                lemma_count_take(self@.children, name@, i as int);
            }
            if self.children[i].name == *name {
                proof {
                    lemma_count_grows(
                        self@.children,
                        name@,
                        i + 1,
                        self@.children.len() as int,
                    );
                    assert(self@.children.take(self@.children.len() as int) == self@.children);
                }
                return true;
            }
            i += 1;
        }
        proof {
            assert(self@.children.take(self@.children.len() as int) == self@.children);
        }
        false
    }

    /// Whether a child that is a directory bears exactly the name `name`.
    pub fn has_dir(&self, name: &String, disk: &Disk) -> (r: bool)
        ensures
            r == first_dir_named(self@.children, name@, disk@.files).is_some(),
    {
        self.find_dir_index(name, disk).is_ok()
    }

    /// The place of the child that `name` selects.
    fn find_child_index(&self, name: &String) -> (r: Result<usize, TreeError>)
        ensures
            match r {
                Ok(i) => find_child(self@, name@) == Ok::<int, ErrorKind>(i as int) && i
                    < self@.children.len(),
                Err(e) => find_child(self@, name@) == Err::<int, ErrorKind>(e.kind),
            },
    {
        let (base, nth) = split_nth_item(name);
        let wanted: usize = if nth < 0 {
            0
        } else {
            nth as usize
        };
        let ghost s = self@.children;
        let mut count: usize = 0;
        let mut i: usize = 0;
        proof {
            assert(s.take(0) == Seq::<ItemView>::empty());
        }
        while i < self.children.len()
            invariant
                i <= self.children.len(),
                s == self@.children,
                base@ == split_nth(name@).0,
                nth as int == split_nth(name@).1,
                wanted as int == if nth < 0 { 0 } else { nth as int },
                count == count_named(s.take(i as int), base@),
                count <= wanted,
                count <= i,
            decreases self.children.len() - i,
        {
            proof {
                self.lemma_child(i as int);
                lemma_count_take(s, base@, i as int);
            }
            if self.children[i].name == base {
                if count == wanted {
                    proof {
                        lemma_nth_found(s, base@, wanted as int, i as int);
                    }
                    return Ok(i);
                }
                count += 1;
            }
            i += 1;
        }
        proof {
            assert(s.take(s.len() as int) == s);
            lemma_nth_missing(s, base@, wanted as int);
        }
        if nth >= 0 && count > 0 {
            let mut msg = String::from_str("There are only ");
            push_decimal(&mut msg, count);
            msg.append(" items with name ");
            msg.append(base.as_str());
            Err(TreeError { kind: ErrorKind::Ambiguous(count), msg })
        } else {
            Err(TreeError::about(ErrorKind::NotFound, "No such file or directory: ", base.as_str()))
        }
    }

    /// The place of the first child named `name` that is a directory.
    fn find_dir_index(&self, name: &String, disk: &Disk) -> (r: Result<usize, TreeError>)
        ensures
            match r {
                Ok(i) => find_dir(self@, name@, disk@.files) == Ok::<int, ErrorKind>(i as int) && i
                    < self@.children.len(),
                Err(e) => find_dir(self@, name@, disk@.files) == Err::<int, ErrorKind>(e.kind),
            },
    {
        let ghost s = self@.children;
        let ghost files = disk@.files;
        let mut i: usize = 0;
        while i < self.children.len()
            invariant
                i <= self.children.len(),
                s == self@.children,
                files == disk@.files,
                forall|j: int| 0 <= j < i ==> !((#[trigger] s[j]).name == name@ && is_dir(s[j], files)),
            decreases self.children.len() - i,
        {
            proof {
                self.lemma_child(i as int);
            }
            if self.children[i].name == *name && self.children[i].is_dir(disk) {
                proof {
                    assert(is_first_dir(s, name@, files, i as int));
                    let k = choose|k: int| is_first_dir(s, name@, files, k);
                    assert(k == i);
                }
                return Ok(i);
            }
            i += 1;
        }
        let mut msg = String::from_str("No directory named ");
        msg.append(name.as_str());
        msg.append(" under ");
        msg.append(self.name.as_str());
        Err(TreeError { kind: ErrorKind::NotFound, msg })
    }

    /// The child that `name` selects.
    ///
    /// Fails with `NotFound` where no child bears the name, and with
    /// `Ambiguous` where a `#n` suffix asks for more children of the name
    /// than there are.
    pub fn get_child(&self, name: &String) -> (r: Result<&TreeItem, TreeError>)
        ensures
            match r {
                Ok(c) => find_child(self@, name@) matches Ok(i) && c@ == self@.children[i],
                Err(e) => find_child(self@, name@) == Err::<int, ErrorKind>(e.kind),
            },
    {
        match self.find_child_index(name) {
            Ok(i) => Ok(&self.children[i]),
            Err(e) => Err(e),
        }
    }

    /// The child that `name` selects, to be changed in place.
    pub fn get_child_mut(&mut self, name: &String) -> (r: Result<&mut TreeItem, TreeError>)
        ensures
            match r {
                Ok(c) => find_child(old(self)@, name@) matches Ok(i) && c@ == old(self)@.children[i]
                    && final(self)@ == with_child(old(self)@, i, final(c)@),
                Err(e) => find_child(old(self)@, name@) == Err::<int, ErrorKind>(e.kind)
                    && final(self)@ == old(self)@,
            },
    {
        match self.find_child_index(name) {
            Ok(i) => Ok(self.child_mut(i)),
            Err(e) => Err(e),
        }
    }

    /// The first child named `name` that is a directory.
    ///
    /// Fails with `NotFound` where there is none, also where a file bears
    /// the name.
    pub fn get_child_dir(&self, name: &String, disk: &Disk) -> (r: Result<&TreeItem, TreeError>)
        ensures
            match r {
                Ok(c) => find_dir(self@, name@, disk@.files) matches Ok(i) && c@
                    == self@.children[i],
                Err(e) => find_dir(self@, name@, disk@.files) == Err::<int, ErrorKind>(e.kind),
            },
    {
        match self.find_dir_index(name, disk) {
            Ok(i) => Ok(&self.children[i]),
            Err(e) => Err(e),
        }
    }

    /// The first child named `name` that is a directory, to be changed in
    /// place.
    pub fn get_child_dir_mut(&mut self, name: &String, disk: &Disk) -> (r: Result<
        &mut TreeItem,
        TreeError,
    >)
        ensures
            match r {
                Ok(c) => find_dir(old(self)@, name@, disk@.files) matches Ok(i) && c@ == old(
                    self,
                )@.children[i] && final(self)@ == with_child(old(self)@, i, final(c)@),
                Err(e) => find_dir(old(self)@, name@, disk@.files) == Err::<int, ErrorKind>(e.kind)
                    && final(self)@ == old(self)@,
            },
    {
        match self.find_dir_index(name, disk) {
            Ok(i) => Ok(self.child_mut(i)),
            Err(e) => Err(e),
        }
    }

    /// Adds `item` behind the children. A child of the same name does not
    /// stand in the way: who wants names to be unique looks before adding.
    pub fn add_item(&mut self, item: TreeItem) -> (r: Result<(), TreeError>)
        ensures
            r is Ok,
            final(self)@ == with_pushed(old(self)@, item@),
    {
        self.children.push(item);
        assert(self@.children =~= old(self)@.children.push(item@));
        Ok(())
    }

    /// Adds a child named `name` that stands for the real file at `path`.
    pub fn add_new_child(&mut self, name: &String, path: String) -> (r: Result<(), TreeError>)
        ensures
            r is Ok,
            final(self)@ == with_pushed(old(self)@, file_leaf(name@, path@)),
    {
        let item = TreeItem::new_file(name.clone(), path);
        self.add_item(item)
    }

    /// Adds an empty directory named `name`.
    ///
    /// Fails with `AlreadyExists` where a child directory bears the name (a
    /// file of that name does not count), and with `InvalidName` where the
    /// name holds a reserved character.
    pub fn make_directory(&mut self, name: &String, disk: &Disk) -> (r: Result<(), TreeError>)
        ensures
            match r {
                Ok(_) => make_directory_result(old(self)@, name@, disk@.files) == Ok::<
                    ItemView,
                    ErrorKind,
                >(final(self)@),
                Err(e) => make_directory_result(old(self)@, name@, disk@.files) == Err::<
                    ItemView,
                    ErrorKind,
                >(e.kind) && final(self)@ == old(self)@,
            },
    {
        if self.has_dir(name, disk) {
            let mut msg = String::from_str("Directory ");
            msg.append(name.as_str());
            msg.append(" already exists.");
            return Err(TreeError { kind: ErrorKind::AlreadyExists, msg });
        }
        if !is_valid_item_name(name) {
            let mut msg = String::from_str("Name ");
            msg.append(name.as_str());
            msg.append(
                " is not a valid directory name. Must not contain \\, /, #, |, \", *, ?, <, > or :",
            );
            return Err(TreeError { kind: ErrorKind::InvalidName, msg });
        }
        self.add_item(TreeItem::new(name.clone()))
    }

    /// Removes the first child that bears exactly the name `name`; a `#n`
    /// suffix is not read as one. Fails with `NotFound` where no child does.
    pub fn remove_child(&mut self, name: &String) -> (r: Result<(), TreeError>)
        ensures
            match r {
                Ok(_) => remove_child_result(old(self)@, name@) == Ok::<ItemView, ErrorKind>(
                    final(self)@,
                ),
                Err(e) => remove_child_result(old(self)@, name@) == Err::<ItemView, ErrorKind>(
                    e.kind,
                ) && final(self)@ == old(self)@,
            },
    {
        let ghost s = self@.children;
        let mut i: usize = 0;
        proof {
            assert(s.take(0) == Seq::<ItemView>::empty());
        }
        while i < self.children.len()
            invariant
                i <= self.children.len(),
                s == self@.children,
                *self == *old(self),
                count_named(s.take(i as int), name@) == 0,
            decreases self.children.len() - i,
        {
            proof {
                self.lemma_child(i as int);
                lemma_count_take(s, name@, i as int);
            }
            if self.children[i].name == *name {
                proof {
                    lemma_nth_found(s, name@, 0, i as int);
                }
                self.children.remove(i);
                assert(self@.children =~= s.remove(i as int));
                return Ok(());
            }
            i += 1;
        }
        proof {
            assert(s.take(s.len() as int) == s);
            lemma_nth_missing(s, name@, 0);
        }
        Err(TreeError::about(ErrorKind::NotFound, "No such file or directory: ", name.as_str()))
    }
}

/// What `make_directory` makes of a node: the node with an empty directory
/// added, or the reason why none is added.
pub open spec fn make_directory_result(n: ItemView, name: Seq<char>, files: Set<Seq<char>>) -> Result<
    ItemView,
    ErrorKind,
> {
    if first_dir_named(n.children, name, files) is Some {
        Err(ErrorKind::AlreadyExists)
    } else if !valid_name(name) {
        Err(ErrorKind::InvalidName)
    } else {
        Ok(with_pushed(n, leaf(name)))
    }
}

/// What `remove_child` makes of a node: the node without the first child of
/// the name, or `NotFound`.
pub open spec fn remove_child_result(n: ItemView, name: Seq<char>) -> Result<ItemView, ErrorKind> {
    match nth_named(n.children, name, 0) {
        Some(i) => Ok(with_removed(n, i)),
        None => Err(ErrorKind::NotFound),
    }
}

/// The nodes below the nodes of `s` that stand for a real file, in the order
/// of the tree. A node with an entity is listed itself and not looked into; a
/// node without one is looked into.
pub open spec fn entities_in(s: Seq<ItemView>) -> Seq<ItemView>
    decreases s,
{
    if s.len() == 0 {
        Seq::empty()
    } else {
        let head = entities_in(s.drop_last());
        if s.last().entity is Some {
            head.push(s.last())
        } else {
            head + entities_in(s.last().children)
        }
    }
}

/// Whether `n` or a node below it stands for the real file at `path`.
pub open spec fn mentions(n: ItemView, path: Seq<char>) -> bool
    decreases n,
{
    n.entity == Some(path) || exists|i: int|
        0 <= i < n.children.len() && mentions(#[trigger] n.children[i], path)
}

impl TreeItem {
    /// The nodes below this one that stand for a real file: what has to go
    /// from the disk when the whole subtree goes.
    pub fn entities(&self) -> (r: Vec<&TreeItem>)
        ensures
            r@.len() == entities_in(self@.children).len(),
            forall|i: int| 0 <= i < r@.len() ==> (#[trigger] r@[i])@ == entities_in(self@.children)[i],
        decreases self,
    {
        let ghost s = self@.children;
        let mut values: Vec<&TreeItem> = Vec::new();
        let mut i: usize = 0;
        proof {
            assert(s.take(0) == Seq::<ItemView>::empty());
        }
        while i < self.children.len()
            invariant
                i <= self.children.len(),
                s == self@.children,
                values@.len() == entities_in(s.take(i as int)).len(),
                forall|j: int|
                    0 <= j < values@.len() ==> (#[trigger] values@[j])@ == entities_in(
                        s.take(i as int),
                    )[j],
            decreases self.children.len() - i,
        {
            proof {
                self.lemma_child(i as int);
                assert(s.take(i + 1).drop_last() == s.take(i as int));
                assert(s.take(i + 1).last() == s[i as int]);
            }
            let each = &self.children[i];
            if each.entity.is_some() {
                values.push(each);
            } else {
                let sub = each.entities();
                let mut k: usize = 0;
                let ghost before = values@;
                while k < sub.len()
                    invariant
                        k <= sub.len(),
                        values@.len() == before.len() + k,
                        forall|j: int| 0 <= j < before.len() ==> values@[j] == before[j],
                        forall|j: int|
                            before.len() <= j < values@.len() ==> values@[j] == sub@[j
                                - before.len()],
                    decreases sub.len() - k,
                {
                    values.push(sub[k]);
                    k += 1;
                }
                proof {
                    let whole = entities_in(s.take(i + 1));
                    assert(whole == entities_in(s.take(i as int)) + entities_in(
                        s[i as int].children,
                    ));
                    assert forall|j: int| 0 <= j < values@.len() implies (#[trigger] values@[j])@
                        == whole[j] by {
                        if j < before.len() {
                            assert(values@[j] == before[j]);
                        } else {
                            assert(values@[j] == sub@[j - before.len()]);
                        }
                    }
                }
            }
            i += 1;
        }
        proof {
            assert(s.take(s.len() as int) == s);
        }
        values
    }

    /// Looks at the real file system for every node of this subtree that has
    /// an entity, and records in `disk` what stands there. The record learns
    /// of no path that the subtree does not mention, and forgets none.
    pub fn probe_entities(&self, disk: &mut Disk)
        ensures
            old(disk)@.files.subset_of(final(disk)@.files),
            old(disk)@.present.subset_of(final(disk)@.present),
            forall|p: Seq<char>| #[trigger]
                final(disk)@.present.contains(p) ==> old(disk)@.present.contains(p) || mentions(
                    self@,
                    p,
                ),
            forall|p: Seq<char>| #[trigger]
                final(disk)@.files.contains(p) ==> old(disk)@.files.contains(p) || mentions(
                    self@,
                    p,
                ),
        decreases self,
    {
        match &self.entity {
            Some(path) => {
                disk.probe(path);
            },
            None => {},
        }
        let mut i: usize = 0;
        while i < self.children.len()
            invariant
                i <= self.children.len(),
                old(disk)@.files.subset_of(disk@.files),
                old(disk)@.present.subset_of(disk@.present),
                forall|p: Seq<char>| #[trigger]
                    disk@.present.contains(p) ==> old(disk)@.present.contains(p) || mentions(
                        self@,
                        p,
                    ),
                forall|p: Seq<char>| #[trigger]
                    disk@.files.contains(p) ==> old(disk)@.files.contains(p) || mentions(self@, p),
            decreases self.children.len() - i,
        {
            proof {
                self.lemma_child(i as int);
            }
            self.children[i].probe_entities(disk);
            proof {
                assert forall|p: Seq<char>| mentions(self@.children[i as int], p) implies mentions(
                    self@,
                    p,
                ) by {}
            }
            i += 1;
        }
    }
}

impl TreeItem {
    /// A record of what the real file system holds, right now, at the
    /// entities of this subtree. It knows of no other path.
    pub fn look(&self) -> (disk: Disk)
        ensures
            disk@.files.subset_of(disk@.present),
            forall|p: Seq<char>| #[trigger] disk@.present.contains(p) ==> mentions(self@, p),
    {
        let mut disk = Disk::new();
        self.probe_entities(&mut disk);
        proof {
            disk.lemma_files_present();
        }
        disk
    }
}

impl Clone for TreeItem {
    /// A copy of the node with all that is below it.
    fn clone(&self) -> (r: Self)
        ensures
            r@ == self@,
        decreases self,
    {
        let mut children: Vec<TreeItem> = Vec::new();
        let mut i: usize = 0;
        while i < self.children.len()
            invariant
                i <= self.children.len(),
                children@.len() == i,
                forall|j: int| 0 <= j < i ==> (#[trigger] children@[j])@ == self@.children[j],
            decreases self.children.len() - i,
        {
            proof {
                self.lemma_child(i as int);
            }
            children.push(self.children[i].clone());
            i += 1;
        }
        let r = TreeItem {
            name: self.name.clone(),
            children,
            desc: self.desc.clone(),
            entity: self.entity.clone(),
        };
        proof {
            assert(r@.children =~= self@.children);
        }
        r
    }
}

} // verus!
