//! What is known of the real file system at one moment.
//!
//! Whether a node of the tree is a file depends on the disk, which may change
//! between two looks. The operations of the tree therefore do not look
//! themselves: they are handed a [`Disk`], a record of what was found, and
//! are exact about what they do with it. [`Disk::probe`] is the one place
//! that looks.

use vstd::prelude::*;

verus! {

/// The paths that a [`Disk`] knows of.
pub ghost struct DiskView {
    /// The paths at which a regular file was found.
    pub files: Set<Seq<char>>,
    /// The paths at which anything was found, regular files included.
    pub present: Set<Seq<char>>,
}

/// A record of paths that were found on the real file system. A path that it
/// does not hold counts as absent.
pub struct Disk {
    files: Vec<String>,
    others: Vec<String>,
}

/// Whether one of the strings of `v` reads `path`.
pub open spec fn holds(v: Seq<String>, path: Seq<char>) -> bool {
    exists|i: int| 0 <= i < v.len() && #[trigger] v[i]@ == path
}

impl View for Disk {
    type V = DiskView;

    closed spec fn view(&self) -> DiskView {
        DiskView {
            files: Set::new(|p: Seq<char>| holds(self.files@, p)),
            present: Set::new(|p: Seq<char>| holds(self.files@, p) || holds(self.others@, p)),
        }
    }
}

/// `Path::is_file` looks at the disk, so nothing is claimed of the answer.
#[verifier::external_body]
fn path_is_file(path: &str) -> (r: bool) {
    std::path::Path::new(path).is_file()
}

/// `Path::exists` looks at the disk, so nothing is claimed of the answer.
#[verifier::external_body]
fn path_exists(path: &str) -> (r: bool) {
    std::path::Path::new(path).exists()
}

/// Whether one of the strings of `v` reads as `path` does.
fn contains_text(v: &Vec<String>, path: &String) -> (r: bool)
    ensures
        r == holds(v@, path@),
{
    let mut i: usize = 0;
    while i < v.len()
        invariant
            i <= v.len(),
            forall|j: int| 0 <= j < i ==> (#[trigger] v@[j]@) != path@,
        decreases v.len() - i,
    {
        if v[i] == *path {
            return true;
        }
        i += 1;
    }
    false
}

impl Disk {
    /// A record that knows of no path.
    pub fn new() -> (r: Self)
        ensures
            r@.files == Set::<Seq<char>>::empty(),
            r@.present == Set::<Seq<char>>::empty(),
    {
        let r = Disk { files: Vec::new(), others: Vec::new() };
        assert(r@.files =~= Set::<Seq<char>>::empty());
        assert(r@.present =~= Set::<Seq<char>>::empty());
        r
    }

    /// Records that a regular file stands at `path`.
    pub fn add_file(&mut self, path: String)
        ensures
            final(self)@.files == old(self)@.files.insert(path@),
            final(self)@.present == old(self)@.present.insert(path@),
    {
        self.files.push(path);
        proof {
            let before = old(self).files@;
            let after = self.files@;
            assert forall|p: Seq<char>| holds(after, p) <==> (holds(before, p) || p == path@) by {
                if holds(before, p) {
                    let i = choose|i: int| 0 <= i < before.len() && #[trigger] before[i]@ == p;
                    assert(after[i]@ == p);
                }
                if p == path@ {
                    assert(after[after.len() - 1]@ == p);
                }
                if holds(after, p) {
                    let i = choose|i: int| 0 <= i < after.len() && #[trigger] after[i]@ == p;
                    if i < before.len() {
                        assert(before[i]@ == p);
                    }
                }
            }
            assert(self@.files =~= old(self)@.files.insert(path@));
            assert(self@.present =~= old(self)@.present.insert(path@));
        }
    }

    /// Records that something other than a regular file stands at `path`: a
    /// directory, say.
    pub fn add_other(&mut self, path: String)
        ensures
            final(self)@.files == old(self)@.files,
            final(self)@.present == old(self)@.present.insert(path@),
    {
        self.others.push(path);
        proof {
            let before = old(self).others@;
            let after = self.others@;
            assert forall|p: Seq<char>| holds(after, p) <==> (holds(before, p) || p == path@) by {
                if holds(before, p) {
                    let i = choose|i: int| 0 <= i < before.len() && #[trigger] before[i]@ == p;
                    assert(after[i]@ == p);
                }
                if p == path@ {
                    assert(after[after.len() - 1]@ == p);
                }
                if holds(after, p) {
                    let i = choose|i: int| 0 <= i < after.len() && #[trigger] after[i]@ == p;
                    if i < before.len() {
                        assert(before[i]@ == p);
                    }
                }
            }
            assert(self@.files =~= old(self)@.files);
            assert(self@.present =~= old(self)@.present.insert(path@));
        }
    }

    /// Whether a regular file was found at `path`.
    pub fn is_file(&self, path: &String) -> (r: bool)
        ensures
            r == self@.files.contains(path@),
    {
        contains_text(&self.files, path)
    }

    /// Whether anything was found at `path`.
    pub fn is_present(&self, path: &String) -> (r: bool)
        ensures
            r == self@.present.contains(path@),
    {
        contains_text(&self.files, path) || contains_text(&self.others, path)
    }

    /// Looks at the real file system and records what stands at `path`. The
    /// record learns of no other path, and forgets none.
    pub fn probe(&mut self, path: &String)
        ensures
            old(self)@.files.subset_of(final(self)@.files),
            old(self)@.present.subset_of(final(self)@.present),
            final(self)@.files.subset_of(old(self)@.files.insert(path@)),
            final(self)@.present.subset_of(old(self)@.present.insert(path@)),
            final(self)@.files.subset_of(final(self)@.present),
    {
        proof {
            self.lemma_files_present();
        }
        let is_file = path_is_file(path.as_str());
        let present = is_file || path_exists(path.as_str());
        self.record(path.clone(), is_file, present);
    }

    /// A regular file that was found is something that was found.
    pub proof fn lemma_files_present(&self)
        ensures
            self@.files.subset_of(self@.present),
    {
    }

    /// Records what a look at `path` gave: `is_file` says whether a regular
    /// file stands there, `present` whether anything does. A regular file is
    /// something that stands there, whatever `present` says.
    pub fn record(&mut self, path: String, is_file: bool, present: bool)
        ensures
            final(self)@ == recorded(old(self)@, path@, is_file, present),
    {
        if is_file {
            self.add_file(path);
        } else if present {
            self.add_other(path);
        }
    }
}

/// The record `d` after a look at `path` that gave `is_file` and `present`:
/// a regular file is recorded as a file and as present, anything else that
/// stands there as present only, and nothing where nothing stands.
pub open spec fn recorded(d: DiskView, path: Seq<char>, is_file: bool, present: bool) -> DiskView {
    DiskView {
        files: if is_file {
            d.files.insert(path)
        } else {
            d.files
        },
        present: if is_file || present {
            d.present.insert(path)
        } else {
            d.present
        },
    }
}

} // verus!
