//! The operations of the tree that stand behind the commands of a session:
//! listing, making and removing nodes, and finding the real file of a node.

use crate::disk::Disk;
use crate::error::{ErrorKind, TreeError};
use crate::item::{
    file_leaf, is_file, make_directory_result, remove_child_result, with_pushed, ItemView,
    TreeItem,
};
use crate::model::{resolve, TreeModel};
use crate::realpath::{absolute, alternative, first_free, resolve_path, unique_backing_path};
use crate::text::{join, join_text, split, split_text, texts};
use crate::walk::{dir_trail, lemma_replace_at_same, node_at, replace_at, trail};
use vstd::prelude::*;
use vstd::string::StringExecFns;

verus! {

/// The path that a listing reads: the one given, or `.` for none.
pub open spec fn listed_path(arg: Option<Seq<char>>) -> Seq<char> {
    match arg {
        Some(p) => p,
        None => seq!['.'],
    }
}

/// The directory that a listing shows: the one at the position that the
/// path names, reached through directories only.
pub open spec fn listed_dir(
    root: ItemView,
    cur: Seq<Seq<char>>,
    arg: Option<Seq<char>>,
    files: Set<Seq<char>>,
) -> Result<ItemView, ErrorKind> {
    match dir_trail(root, resolve(cur, listed_path(arg)), files) {
        Ok(idx) => Ok(node_at(root, idx)),
        Err(k) => Err(k),
    }
}

/// The names of the nodes of `s`, in order.
pub open spec fn names_of(s: Seq<ItemView>) -> Seq<Seq<char>> {
    Seq::new(s.len(), |i: int| s[i].name)
}

/// The length of the longest name among the nodes of `s`.
pub open spec fn longest_name(s: Seq<ItemView>) -> nat
    decreases s.len(),
{
    if s.len() == 0 {
        0
    } else {
        let before = longest_name(s.drop_last());
        if s.last().name.len() > before {
            s.last().name.len()
        } else {
            before
        }
    }
}

/// What stands for a description that is not there.
pub open spec fn no_description() -> Seq<char> {
    seq!['<', 'n', 'o', ' ', 'd', 'e', 's', 'c', 'r', 'i', 'p', 't', 'i', 'o', 'n', '>']
}

/// The line of a detailed listing for `n`: the name, with spaces before it up
/// to `width`, a space, and the description.
pub open spec fn detail_line(n: ItemView, width: nat) -> Seq<char> {
    Seq::new((width - n.name.len()) as nat, |i: int| ' ') + n.name + seq![' '] + match n.desc {
        Some(d) => d,
        None => no_description(),
    }
}

/// The lines of a detailed listing of the nodes of `s`, in order, each name
/// aligned to the right at the length of the longest.
pub open spec fn detail_lines(s: Seq<ItemView>) -> Seq<Seq<char>> {
    Seq::new(s.len(), |i: int| detail_line(s[i], longest_name(s)))
}

/// The tree after `make_directory`, or the reason why it stays as it is.
///
/// The last segment of the resolved path is the name of the new directory.
/// It is made in the directory at the segments before it; where these do not
/// lead through directories, in the current directory.
pub open spec fn make_directory_outcome(
    root: ItemView,
    cur: Seq<Seq<char>>,
    path: Seq<char>,
    files: Set<Seq<char>>,
) -> Result<ItemView, ErrorKind> {
    let segs = resolve(cur, path);
    if segs.len() == 0 {
        Err(ErrorKind::NotFound)
    } else {
        let place = match dir_trail(root, segs.drop_last(), files) {
            Ok(idx) => Ok(idx),
            Err(_) => dir_trail(root, cur, files),
        };
        match place {
            Ok(idx) => match make_directory_result(node_at(root, idx), segs.last(), files) {
                Ok(n) => Ok(replace_at(root, idx, n)),
                Err(k) => Err(k),
            },
            Err(k) => Err(k),
        }
    }
}

/// The tree after `remove_child`, or the reason why it stays as it is.
///
/// The last segment of the resolved path is the name to remove, from the
/// directory at the segments before it.
pub open spec fn remove_child_outcome(
    root: ItemView,
    cur: Seq<Seq<char>>,
    path: Seq<char>,
    files: Set<Seq<char>>,
) -> Result<ItemView, ErrorKind> {
    let segs = resolve(cur, path);
    if segs.len() == 0 {
        Err(ErrorKind::NotFound)
    } else {
        match dir_trail(root, segs.drop_last(), files) {
            Ok(idx) => match remove_child_result(node_at(root, idx), segs.last()) {
                Ok(n) => Ok(replace_at(root, idx, n)),
                Err(k) => Err(k),
            },
            Err(k) => Err(k),
        }
    }
}

/// The absolute path of the real file of the node that `path` names.
pub open spec fn entity_abspath_result(
    root: ItemView,
    cur: Seq<Seq<char>>,
    path: Seq<char>,
    curdir: Seq<char>,
) -> Result<Seq<char>, ErrorKind> {
    match trail(root, resolve(cur, path)) {
        Ok(idx) => match node_at(root, idx).entity {
            Some(e) => Ok(absolute(e, curdir)),
            None => Err(ErrorKind::NotFound),
        },
        Err(k) => Err(k),
    }
}

/// The absolute path from which the node that `path` names can be read: the
/// node has to be a file.
pub open spec fn readable_path_result(
    root: ItemView,
    cur: Seq<Seq<char>>,
    path: Seq<char>,
    files: Set<Seq<char>>,
    curdir: Seq<char>,
) -> Result<Seq<char>, ErrorKind> {
    match trail(root, resolve(cur, path)) {
        Ok(idx) => if is_file(node_at(root, idx), files) {
            Ok(absolute(node_at(root, idx).entity->0, curdir))
        } else {
            Err(ErrorKind::NotFound)
        },
        Err(k) => Err(k),
    }
}

/// What an outside command is handed in place of the argument `arg`: the
/// absolute path of the real file where `arg` names a node that has one, else
/// `arg` itself, made absolute where it looks like a relative path.
pub open spec fn command_argument(
    root: ItemView,
    cur: Seq<Seq<char>>,
    arg: Seq<char>,
    curdir: Seq<char>,
) -> Seq<char> {
    match entity_abspath_result(root, cur, arg, curdir) {
        Ok(p) => p,
        Err(_) => absolute(arg, curdir),
    }
}

/// The last segment of `segs` that is not empty.
pub open spec fn last_nonempty(segs: Seq<Seq<char>>) -> Option<Seq<char>>
    decreases segs.len(),
{
    if segs.len() == 0 {
        None
    } else if segs.last().len() > 0 {
        Some(segs.last())
    } else {
        last_nonempty(segs.drop_last())
    }
}

/// Where an alias goes and what it is called: the directory and the name
/// that the typed path gives, or, without one, the current directory and the
/// base name of the real file.
pub open spec fn alias_target(cur: Seq<Seq<char>>, path: Option<Seq<char>>, target: Seq<char>) -> Option<
    (Seq<Seq<char>>, Seq<char>),
> {
    match path {
        Some(p) => {
            let segs = resolve(cur, p);
            if segs.len() == 0 {
                None
            } else {
                Some((segs.drop_last(), segs.last()))
            }
        },
        None => match last_nonempty(split(target, true)) {
            Some(name) => Some((cur, name)),
            None => None,
        },
    }
}

/// The tree with a new node named `name` for the real file `target` added to
/// the node at `parent`, or the reason why it cannot be added: a node stands
/// at that position already, or the parent is not there.
pub open spec fn insert_file(
    root: ItemView,
    parent: Seq<Seq<char>>,
    name: Seq<char>,
    target: Seq<char>,
) -> Result<ItemView, ErrorKind> {
    if trail(root, parent.push(name)) is Ok {
        Err(ErrorKind::AlreadyExists)
    } else {
        match trail(root, parent) {
            Ok(idx) => Ok(
                replace_at(root, idx, with_pushed(node_at(root, idx), file_leaf(name, target))),
            ),
            Err(k) => Err(k),
        }
    }
}

/// The tree after `add_alias`, or the reason why it stays as it is.
pub open spec fn add_alias_outcome(
    root: ItemView,
    cur: Seq<Seq<char>>,
    path: Option<Seq<char>>,
    target: Seq<char>,
    present: Set<Seq<char>>,
) -> Result<ItemView, ErrorKind> {
    if !present.contains(target) {
        Err(ErrorKind::NotFound)
    } else {
        match alias_target(cur, path, target) {
            Some((parent, name)) => insert_file(root, parent, name, target),
            None => Err(ErrorKind::InvalidName),
        }
    }
}

/// The tree after `create_new_file` together with the path of the backing
/// file, or the reason why nothing is made.
pub open spec fn create_new_file_outcome(
    root: ItemView,
    cur: Seq<Seq<char>>,
    path: Seq<char>,
    candidate: Seq<char>,
    present: Set<Seq<char>>,
) -> Result<(ItemView, Seq<char>), ErrorKind> {
    let segs = resolve(cur, path);
    if trail(root, segs) is Ok {
        Err(ErrorKind::AlreadyExists)
    } else {
        match first_free(candidate, present, 0, usize::MAX as nat) {
            Some(k) => match insert_file(
                root,
                segs.drop_last(),
                segs.last(),
                alternative(candidate, k),
            ) {
                Ok(n) => Ok((n, alternative(candidate, k))),
                Err(e) => Err(e),
            },
            None => Err(ErrorKind::AlreadyExists),
        }
    }
}

impl TreeModel {
    /// Adds a node named `name` for the real file `target` to the node at
    /// `parent`, unless a node stands at that position already.
    fn insert_file_at(&mut self, parent: &Vec<String>, name: String, target: String) -> (r: Result<
        (),
        TreeError,
    >)
        ensures
            final(self).path == old(self).path,
            match r {
                Ok(_) => insert_file(old(self).root@, texts(parent@), name@, target@) == Ok::<
                    ItemView,
                    ErrorKind,
                >(final(self).root@),
                Err(e) => insert_file(old(self).root@, texts(parent@), name@, target@) == Err::<
                    ItemView,
                    ErrorKind,
                >(e.kind) && final(self).root@ == old(self).root@,
            },
    {
        let mut full = crate::path::clone_texts(parent);
        proof {
            crate::text::lemma_texts_push(full@, name);
        }
        full.push(name.clone());
        if self.root.descend(&full).is_ok() {
            let p = join_text(&full, "/");
            let mut msg = p;
            msg.append(" already exists.");
            return Err(TreeError { kind: ErrorKind::AlreadyExists, msg });
        }
        match self.root.descend_mut(parent) {
            Ok(item) => item.add_new_child(&name, target),
            Err(e) => Err(e),
        }
    }

    /// Makes a directory at the typed path `path`.
    ///
    /// Fails with `NotFound` where the path names no position below the root
    /// or the current directory is gone, with `AlreadyExists` where a
    /// directory of the name is there, and with `InvalidName` where the name
    /// holds a reserved character.
    pub fn make_directory(&mut self, path: &String, disk: &Disk) -> (r: Result<(), TreeError>)
        ensures
            final(self).path == old(self).path,
            match r {
                Ok(_) => make_directory_outcome(
                    old(self).root@,
                    old(self).path@,
                    path@,
                    disk@.files,
                ) == Ok::<ItemView, ErrorKind>(final(self).root@),
                Err(e) => make_directory_outcome(
                    old(self).root@,
                    old(self).path@,
                    path@,
                    disk@.files,
                ) == Err::<ItemView, ErrorKind>(e.kind) && final(self).root@ == old(self).root@,
            },
    {
        let mut pathvec = match self.resolve_virtual_path(path) {
            Ok(v) => v,
            Err(e) => {
                return Err(e);
            },
        };
        let ghost segs = texts(pathvec@);
        let name = match pathvec.pop() {
            Some(name) => name,
            None => {
                return Err(
                    TreeError::about(ErrorKind::NotFound, "Path could not be resolved", ""),
                );
            },
        };
        proof {
            assert(texts(pathvec@) =~= segs.drop_last());
            assert(segs.last() == name@);
        }
        let direct = self.root.descend_dirs(&pathvec, disk).is_ok();
        let place = if direct {
            self.root.descend_dirs_mut(&pathvec, disk)
        } else {
            self.root.descend_dirs_mut(&self.path.path, disk)
        };
        match place {
            Ok(item) => {
                let ghost idx = if direct {
                    dir_trail(old(self).root@, segs.drop_last(), disk@.files)->Ok_0
                } else {
                    dir_trail(old(self).root@, old(self).path@, disk@.files)->Ok_0
                };
                proof {
                    lemma_replace_at_same(old(self).root@, idx);
                }
                item.make_directory(&name, disk)
            },
            Err(e) => Err(e),
        }
    }

    /// Removes the node at the typed path `path` from its directory: the
    /// first child of that exact name. The real file of the node, if it has
    /// one, is not touched.
    ///
    /// Fails with `NotFound` where the path names the root, where the
    /// segments before the last do not lead through directories, and where
    /// no child bears the name.
    pub fn remove_child(&mut self, path: &String, disk: &Disk) -> (r: Result<(), TreeError>)
        ensures
            final(self).path == old(self).path,
            match r {
                Ok(_) => remove_child_outcome(
                    old(self).root@,
                    old(self).path@,
                    path@,
                    disk@.files,
                ) == Ok::<ItemView, ErrorKind>(final(self).root@),
                Err(e) => remove_child_outcome(
                    old(self).root@,
                    old(self).path@,
                    path@,
                    disk@.files,
                ) == Err::<ItemView, ErrorKind>(e.kind) && final(self).root@ == old(self).root@,
            },
    {
        let mut pathvec = match self.resolve_virtual_path(path) {
            Ok(v) => v,
            Err(e) => {
                return Err(e);
            },
        };
        let ghost segs = texts(pathvec@);
        let name = match pathvec.pop() {
            Some(name) => name,
            None => {
                return Err(TreeError::about(ErrorKind::NotFound, "Cannot remove root", ""));
            },
        };
        proof {
            assert(texts(pathvec@) =~= segs.drop_last());
            assert(segs.last() == name@);
        }
        match self.root.descend_dirs_mut(&pathvec, disk) {
            Ok(item) => {
                proof {
                    let idx = dir_trail(old(self).root@, segs.drop_last(), disk@.files)->Ok_0;
                    lemma_replace_at_same(old(self).root@, idx);
                }
                item.remove_child(&name)
            },
            Err(e) => Err(e),
        }
    }

    /// The names of the children of the directory at `path`, or of the
    /// current directory, in the order in which they were added and with a
    /// space between each two.
    pub fn ls_simple(&self, path: Option<String>, disk: &Disk) -> (r: Result<String, TreeError>)
        ensures
            match r {
                Ok(s) => listed_dir(self.root@, self.path@, text_arg(path), disk@.files) matches Ok(
                    n,
                ) && s@ == join(names_of(n.children), seq![' ']),
                Err(e) => listed_dir(self.root@, self.path@, text_arg(path), disk@.files) == Err::<
                    ItemView,
                    ErrorKind,
                >(e.kind),
            },
    {
        proof {
            reveal_strlit(".");
            reveal_strlit(" ");
            assert("."@ =~= seq!['.']);
            assert(" "@ =~= seq![' ']);
        }
        let path = match path {
            Some(path) => path,
            None => String::from_str("."),
        };
        let pathvec = match self.resolve_virtual_path(&path) {
            Ok(v) => v,
            Err(e) => {
                return Err(e);
            },
        };
        match self.root.descend_dirs(&pathvec, disk) {
            Ok(item) => {
                let children = item.children_names();
                proof {
                    assert(texts(children@) =~= names_of(item@.children));
                }
                Ok(join_text(&children, " "))
            },
            Err(e) => Err(e),
        }
    }

    /// The children of the directory at `path`, or of the current directory,
    /// one per line: the name, aligned to the right at the length of the
    /// longest name, and the description.
    pub fn ls_detailed(&self, path: Option<String>, disk: &Disk) -> (r: Result<String, TreeError>)
        ensures
            match r {
                Ok(s) => listed_dir(self.root@, self.path@, text_arg(path), disk@.files) matches Ok(
                    n,
                ) && s@ == join(detail_lines(n.children), seq!['\n']),
                Err(e) => listed_dir(self.root@, self.path@, text_arg(path), disk@.files) == Err::<
                    ItemView,
                    ErrorKind,
                >(e.kind),
            },
    {
        proof {
            reveal_strlit(".");
            reveal_strlit("\n");
            assert("."@ =~= seq!['.']);
            assert("\n"@ =~= seq!['\n']);
        }
        let path = match path {
            Some(path) => path,
            None => String::from_str("."),
        };
        let pathvec = match self.resolve_virtual_path(&path) {
            Ok(v) => v,
            Err(e) => {
                return Err(e);
            },
        };
        match self.root.descend_dirs(&pathvec, disk) {
            Ok(item) => {
                let lines = detail_texts(item);
                Ok(join_text(&lines, "\n"))
            },
            Err(e) => Err(e),
        }
    }

    /// The absolute path of the real file of the node at the typed path
    /// `path`, while the working directory is `curdir`.
    ///
    /// Fails as the lookup of the node fails, and with `NotFound` where the
    /// node has no entity.
    pub fn entity_abspath(&self, path: &String, curdir: &str) -> (r: Result<String, TreeError>)
        ensures
            match r {
                Ok(p) => entity_abspath_result(self.root@, self.path@, path@, curdir@) == Ok::<
                    Seq<char>,
                    ErrorKind,
                >(p@),
                Err(e) => entity_abspath_result(self.root@, self.path@, path@, curdir@) == Err::<
                    Seq<char>,
                    ErrorKind,
                >(e.kind),
            },
    {
        let item = match self.get_item(path) {
            Ok(item) => item,
            Err(e) => {
                return Err(e);
            },
        };
        match item.entity_path() {
            Some(rpath) => Ok(resolve_path(rpath, curdir)),
            None => Err(TreeError::about(ErrorKind::NotFound, "No entity found", "")),
        }
    }

    /// The absolute path from which the content of the node at the typed
    /// path `path` can be read, while the working directory is `curdir`.
    ///
    /// Fails as the lookup of the node fails, and with `NotFound` where the
    /// node is no file.
    pub fn readable_path(&self, path: &String, disk: &Disk, curdir: &str) -> (r: Result<
        String,
        TreeError,
    >)
        ensures
            match r {
                Ok(p) => readable_path_result(
                    self.root@,
                    self.path@,
                    path@,
                    disk@.files,
                    curdir@,
                ) == Ok::<Seq<char>, ErrorKind>(p@),
                Err(e) => readable_path_result(
                    self.root@,
                    self.path@,
                    path@,
                    disk@.files,
                    curdir@,
                ) == Err::<Seq<char>, ErrorKind>(e.kind),
            },
    {
        let item = match self.get_item(path) {
            Ok(item) => item,
            Err(e) => {
                return Err(e);
            },
        };
        if item.is_file(disk) {
            match item.entity_path() {
                Some(rpath) => Ok(resolve_path(rpath, curdir)),
                None => Err(TreeError::about(ErrorKind::NotFound, path.as_str(), " is not a file.")),
            }
        } else {
            Err(TreeError::about(ErrorKind::NotFound, path.as_str(), " is not a file."))
        }
    }

    /// The arguments that an outside command is handed for `inputs`: where
    /// an argument names a node with a real file, the absolute path of that
    /// file; else the argument, made absolute where it looks like a relative
    /// path.
    pub fn command_arguments(&self, inputs: &Vec<String>, curdir: &str) -> (r: Vec<String>)
        ensures
            r@.len() == inputs@.len(),
            forall|i: int|
                0 <= i < r@.len() ==> (#[trigger] r@[i])@ == command_argument(
                    self.root@,
                    self.path@,
                    inputs@[i]@,
                    curdir@,
                ),
    {
        let mut output: Vec<String> = Vec::new();
        let mut i: usize = 0;
        while i < inputs.len()
            invariant
                i <= inputs.len(),
                output@.len() == i,
                forall|j: int|
                    0 <= j < i ==> (#[trigger] output@[j])@ == command_argument(
                        self.root@,
                        self.path@,
                        inputs@[j]@,
                        curdir@,
                    ),
            decreases inputs.len() - i,
        {
            let arg = &inputs[i];
            let out = match self.entity_abspath(arg, curdir) {
                Ok(p) => p,
                Err(_) => resolve_path(arg.as_str(), curdir),
            };
            output.push(out);
            i += 1;
        }
        output
    }

    /// Adds a node that stands for the real file `filepath`, which stays
    /// where it is. With a typed path the node goes where the path says,
    /// under its last segment as name; without one it goes into the current
    /// directory under the base name of the file.
    ///
    /// Fails with `NotFound` where nothing stands at `filepath` on the disk
    /// or the directory for the node is not there, with `InvalidName` where
    /// no name is left for the node, and with `AlreadyExists` where a node
    /// stands at the position already.
    pub fn add_alias(&mut self, path: Option<&String>, filepath: String, disk: &Disk) -> (r: Result<
        (),
        TreeError,
    >)
        ensures
            final(self).path == old(self).path,
            match r {
                Ok(_) => add_alias_outcome(
                    old(self).root@,
                    old(self).path@,
                    text_ref_arg(path),
                    filepath@,
                    disk@.present,
                ) == Ok::<ItemView, ErrorKind>(final(self).root@),
                Err(e) => add_alias_outcome(
                    old(self).root@,
                    old(self).path@,
                    text_ref_arg(path),
                    filepath@,
                    disk@.present,
                ) == Err::<ItemView, ErrorKind>(e.kind) && final(self).root@ == old(self).root@,
            },
    {
        if !disk.is_present(&filepath) {
            return Err(TreeError::about(ErrorKind::NotFound, filepath.as_str(), " does not exist."));
        }
        let (dirvec, filename) = match path {
            Some(path) => {
                let mut pathvec = match self.resolve_virtual_path(path) {
                    Ok(v) => v,
                    Err(e) => {
                        return Err(e);
                    },
                };
                let ghost segs = texts(pathvec@);
                match pathvec.pop() {
                    Some(name) => {
                        proof {
                            assert(texts(pathvec@) =~= segs.drop_last());
                            assert(segs.last() == name@);
                        }
                        (pathvec, name)
                    },
                    None => {
                        return Err(
                            TreeError::about(ErrorKind::InvalidName, "No name in ", path.as_str()),
                        );
                    },
                }
            },
            None => {
                let pathvec = crate::path::clone_texts(&self.path.path);
                match base_name(&filepath) {
                    Some(name) => (pathvec, name),
                    None => {
                        return Err(
                            TreeError::about(
                                ErrorKind::InvalidName,
                                "No file name in ",
                                filepath.as_str(),
                            ),
                        );
                    },
                }
            },
        };
        self.insert_file_at(&dirvec, filename, filepath)
    }

    /// Adds a node at the typed path `path` for a new, empty backing file,
    /// and returns the path at which that file is to be made: the first of
    /// `stem-0.ext`, `stem-1.ext` and so on, in the directory of `candidate`,
    /// at which the disk holds nothing.
    ///
    /// Fails with `AlreadyExists` where a node stands at the position
    /// already or every such path is taken, and as the lookup of the parent
    /// fails.
    pub fn create_new_file(&mut self, path: &String, candidate: &String, disk: &Disk) -> (r: Result<
        String,
        TreeError,
    >)
        ensures
            final(self).path == old(self).path,
            match r {
                Ok(p) => create_new_file_outcome(
                    old(self).root@,
                    old(self).path@,
                    path@,
                    candidate@,
                    disk@.present,
                ) == Ok::<(ItemView, Seq<char>), ErrorKind>((final(self).root@, p@)),
                Err(e) => create_new_file_outcome(
                    old(self).root@,
                    old(self).path@,
                    path@,
                    candidate@,
                    disk@.present,
                ) == Err::<(ItemView, Seq<char>), ErrorKind>(e.kind) && final(self).root@ == old(
                    self,
                ).root@,
            },
    {
        let mut pathvec = match self.resolve_virtual_path(path) {
            Ok(v) => v,
            Err(e) => {
                return Err(e);
            },
        };
        if self.check_path_exists(&pathvec) {
            return Err(TreeError::about(ErrorKind::AlreadyExists, path.as_str(), " already exists."));
        }
        let ghost segs = texts(pathvec@);
        let filename = match pathvec.pop() {
            Some(name) => name,
            None => {
                // The empty position is the root, which exists.
                return Err(
                    TreeError::about(ErrorKind::AlreadyExists, path.as_str(), " already exists."),
                );
            },
        };
        proof {
            assert(texts(pathvec@) =~= segs.drop_last());
            assert(segs.last() == filename@);
        }
        let backing = match unique_backing_path(candidate, disk) {
            Some(p) => p,
            None => {
                return Err(
                    TreeError::about(
                        ErrorKind::AlreadyExists,
                        candidate.as_str(),
                        " already exists.",
                    ),
                );
            },
        };
        match self.insert_file_at(&pathvec, filename, backing.clone()) {
            Ok(_) => Ok(backing),
            Err(e) => Err(e),
        }
    }
}

/// The view of an optional path.
pub open spec fn text_arg(path: Option<String>) -> Option<Seq<char>> {
    match path {
        Some(p) => Some(p@),
        None => None,
    }
}

/// The view of an optional borrowed path.
pub open spec fn text_ref_arg(path: Option<&String>) -> Option<Seq<char>> {
    match path {
        Some(p) => Some(p@),
        None => None,
    }
}

/// The base name of the real path `target`: its last segment that is not
/// empty.
pub fn base_name(target: &String) -> (r: Option<String>)
    ensures
        match r {
            Some(name) => last_nonempty(split(target@, true)) == Some(name@),
            None => last_nonempty(split(target@, true)) is None,
        },
{
    let segs = split_text(target.as_str(), true);
    let ghost all = texts(segs@);
    let mut k: usize = segs.len();
    proof {
        assert(all.take(k as int) =~= all);
    }
    while k > 0
        invariant
            k <= segs.len(),
            all == texts(segs@),
            all == split(target@, true),
            last_nonempty(all) == last_nonempty(all.take(k as int)),
        decreases k,
    {
        proof {
            assert(all.take(k as int).drop_last() =~= all.take(k - 1));
            assert(all.take(k as int).last() == segs@[k - 1]@);
        }
        if !segs[k - 1].as_str().is_empty() {
            return Some(segs[k - 1].clone());
        }
        k -= 1;
    }
    None
}

/// The lines of a detailed listing of the children of `item`.
fn detail_texts(item: &TreeItem) -> (r: Vec<String>)
    ensures
        texts(r@) == detail_lines(item@.children),
{
    let n = item.child_count();
    let ghost s = item@.children;
    let mut width: usize = 0;
    let mut lens: Vec<usize> = Vec::new();
    let mut i: usize = 0;
    proof {
        assert(s.take(0) =~= Seq::<ItemView>::empty());
    }
    while i < n
        invariant
            i <= n,
            n == s.len(),
            s == item@.children,
            width == longest_name(s.take(i as int)),
            lens@.len() == i,
            forall|j: int| 0 <= j < i ==> (#[trigger] lens@[j]) == s[j].name.len(),
            forall|j: int| 0 <= j < i ==> s[j].name.len() <= width,
        decreases n - i,
    {
        proof {
            assert(s.take(i + 1).drop_last() =~= s.take(i as int));
            assert(s.take(i + 1).last() == s[i as int]);
        }
        let len = item.child(i).label().unicode_len();
        if len > width {
            width = len;
        }
        lens.push(len);
        i += 1;
    }
    proof {
        assert(s.take(n as int) =~= s);
        reveal_strlit("<no description>");
        assert("<no description>"@ =~= crate::commands::no_description());
        reveal_strlit(" ");
        assert(" "@ =~= seq![' ']);
    }
    let mut lines: Vec<String> = Vec::new();
    let mut i: usize = 0;
    while i < n
        invariant
            i <= n,
            n == s.len(),
            s == item@.children,
            width == longest_name(s),
            lens@.len() == n,
            "<no description>"@ == crate::commands::no_description(),
            " "@ == seq![' '],
            forall|j: int| 0 <= j < n ==> (#[trigger] lens@[j]) == s[j].name.len(),
            forall|j: int| 0 <= j < n ==> s[j].name.len() <= width,
            lines@.len() == i,
            forall|j: int| 0 <= j < i ==> (#[trigger] lines@[j])@ == detail_line(s[j], width as nat),
        decreases n - i,
    {
        let child = item.child(i);
        let mut line = String::new();
        let pad: usize = width - lens[i];
        let mut k: usize = 0;
        while k < pad
            invariant
                k <= pad,
                line@ == Seq::new(k as nat, |t: int| ' '),
            decreases pad - k,
        {
            line.push(' ');
            k += 1;
            assert(line@ =~= Seq::new(k as nat, |t: int| ' '));
        }
        line.append(child.label());
        line.append(" ");
        match child.description() {
            Some(d) => line.append(d),
            None => line.append("<no description>"),
        }
        proof {
            assert(line@ =~= detail_line(s[i as int], width as nat));
        }
        lines.push(line);
        i += 1;
    }
    proof {
        assert(texts(lines@) =~= detail_lines(s));
    }
    lines
}

} // verus!
