//! A picture of the files of a workspace.

use crate::collections::{StringMap, StringSet};
use crate::paths;
use crate::paths::{absolute, climbed, path_of, place, segments};
use crate::text::Text;
use vstd::prelude::*;

verus! {

/// The files of a workspace: paths and contents. A path stands for the place that it leads to.
pub struct FileTree {
    files: StringMap<Option<String>>,
    dirs: StringSet,
}

/// The directory that takes `k` segments of where the path leads.
pub open spec fn dir_above(p: Text, k: int) -> Text {
    path_of(absolute(p), climbed(absolute(p), segments(p)).take(k))
}

/// The directories that hold the path: the root or the starting point, and all on the way.
pub open spec fn dirs_holding(p: Text) -> Set<Text> {
    Set::new(
        |d: Text| exists|k: int| 0 <= k < climbed(absolute(p), segments(p)).len() && d == #[trigger] dir_above(p, k),
    )
}

impl FileTree {
    /// The files, with their contents where these are readable texts.
    pub closed spec fn files(&self) -> Map<Text, Option<Text>> {
        self.files@.map_values(|c: Option<String>| c.deep_view())
    }

    /// The paths of the files in the order in which they were added.
    pub closed spec fn listing(&self) -> Seq<Text> {
        self.files.order()
    }

    /// The directories.
    pub closed spec fn dirs(&self) -> Set<Text> {
        self.dirs@
    }

    /// The path is that of a file.
    pub open spec fn has_file(&self, p: Text) -> bool {
        self.files().contains_key(place(p))
    }

    /// The path is that of a directory.
    pub open spec fn has_dir(&self, p: Text) -> bool {
        self.dirs().contains(place(p))
    }

    /// There is a file or a directory at the path.
    pub open spec fn present(&self, p: Text) -> bool {
        self.has_file(p) || self.has_dir(p)
    }

    /// The content of the file at the path, where there is one and it can be read.
    pub open spec fn content(&self, p: Text) -> Option<Text> {
        if self.has_file(p) {
            self.files()[place(p)]
        } else {
            None
        }
    }

    /// The tree without files.
    pub fn new() -> (r: Self)
        ensures
            r.files() == Map::<Text, Option<Text>>::empty(),
            r.listing() == Seq::<Text>::empty(),
            r.dirs() == Set::<Text>::empty(),
    {
        let r = FileTree { files: StringMap::new(), dirs: StringSet::new() };
        assert(r.files() =~= Map::<Text, Option<Text>>::empty());
        r
    }

    /// Adds the directories that hold the path.
    fn add_dirs_holding(&mut self, path: &str)
        ensures
            final(self).files() == old(self).files(),
            final(self).listing() == old(self).listing(),
            final(self).dirs() == old(self).dirs().union(dirs_holding(path@)),
    {
        let segs = paths::climb_path(path);
        let ghost p = path@;
        let ghost before = self.dirs();
        assert(segs.deep_view().len() == segs.len());
        let mut k: usize = 0;
        while k < segs.len()
            invariant
                p == path@,
                k <= segs.len(),
                segs.deep_view() == climbed(absolute(p), segments(p)),
                segs.deep_view().len() == segs.len(),
                self.files() == old(self).files(),
                self.listing() == old(self).listing(),
                forall|d: Text| #[trigger]
                    self.dirs().contains(d) <==> before.contains(d) || exists|j: int|
                        0 <= j < k && d == #[trigger] dir_above(p, j),
            decreases segs.len() - k,
        {
            let dir = paths::make_path(paths::is_absolute(path), &paths::first_texts(&segs, k));
            assert(dir@ == dir_above(p, k as int));
            let ghost mid = self.dirs();
            self.dirs.insert(dir);
            proof {
                assert forall|d: Text| #[trigger] self.dirs().contains(d) implies before.contains(d)
                    || exists|j: int| 0 <= j < k + 1 && d == #[trigger] dir_above(p, j) by {
                    if d != dir_above(p, k as int) {
                        assert(mid.contains(d));
                    }
                }
                assert forall|j: int| 0 <= j < k + 1 implies self.dirs().contains(
                    #[trigger] dir_above(p, j),
                ) by {
                    if j < k {
                        assert(mid.contains(dir_above(p, j)));
                    }
                }
                assert forall|d: Text| before.contains(d) implies #[trigger] self.dirs().contains(
                    d,
                ) by {
                    assert(mid.contains(d));
                }
            }
            k += 1;
        }
        assert(self.dirs() =~= before.union(dirs_holding(p)));
    }

    /// Adds a directory, with those that hold it.
    pub fn add_dir(&mut self, path: &str)
        ensures
            final(self).files() == old(self).files(),
            final(self).listing() == old(self).listing(),
            final(self).dirs() == old(self).dirs().union(dirs_holding(path@)).insert(place(path@)),
    {
        self.add_dirs_holding(path);
        self.dirs.insert(paths::place_of(path));
    }

    /// Adds a file with its content, and the directories that hold it; `None` stands for a
    /// content that is no readable text.
    pub fn add_file(&mut self, path: &str, content: Option<String>)
        ensures
            final(self).files() == old(self).files().insert(place(path@), content.deep_view()),
            final(self).listing() == if old(self).files().contains_key(place(path@)) {
                old(self).listing()
            } else {
                old(self).listing().push(place(path@))
            },
            final(self).dirs() == old(self).dirs().union(dirs_holding(path@)),
    {
        self.add_dirs_holding(path);
        let ghost before = self.files();
        self.files.insert(paths::place_of(path), content);
        assert(self.files() =~= before.insert(place(path@), content.deep_view()));
    }

    /// Whether the path is that of a file.
    pub fn is_file(&self, path: &str) -> (r: bool)
        ensures
            r == self.has_file(path@),
    {
        self.files.contains_key(paths::place_of(path).as_str())
    }

    /// Whether the path is that of a directory.
    pub fn is_dir(&self, path: &str) -> (r: bool)
        ensures
            r == self.has_dir(path@),
    {
        self.dirs.contains(paths::place_of(path).as_str())
    }

    /// Whether there is a file or a directory at the path.
    pub fn is_present(&self, path: &str) -> (r: bool)
        ensures
            r == self.present(path@),
    {
        self.is_file(path) || self.is_dir(path)
    }

    /// The content of the file at the path, where there is one and it can be read.
    pub fn read(&self, path: &str) -> (r: Option<&str>)
        ensures
            r.deep_view() == self.content(path@),
    {
        match self.files.get(paths::place_of(path).as_str()) {
            Some(Some(s)) => Some(s.as_str()),
            _ => None,
        }
    }

    /// The directories in the order in which they were added.
    pub closed spec fn dir_listing(&self) -> Seq<Text> {
        self.dirs.order()
    }

    /// The number of directories.
    pub fn dir_count(&self) -> (r: usize)
        ensures
            r == self.dir_listing().len(),
    {
        self.dirs.len()
    }

    /// The path of the directory that was added `i`-th.
    pub fn dir_at(&self, i: usize) -> (r: &str)
        requires
            i < self.dir_listing().len(),
        ensures
            r@ == self.dir_listing()[i as int],
            self.dirs().contains(r@),
    {
        self.dirs.at(i)
    }

    /// The listing of the files holds each of them, and nothing else.
    pub fn check_files(&self)
        ensures
            forall|p: Text|
                self.files().contains_key(p) <==> #[trigger] self.listing().contains(p),
            self.listing().no_duplicates(),
    {
        self.files.check_order();
    }

    /// The number of files.
    pub fn count(&self) -> (r: usize)
        ensures
            r == self.listing().len(),
    {
        self.files.len()
    }

    /// The path of the file that was added `i`-th.
    pub fn path_at(&self, i: usize) -> (r: &str)
        requires
            i < self.listing().len(),
        ensures
            r@ == self.listing()[i as int],
            self.files().contains_key(r@),
    {
        self.files.key_at(i)
    }

    /// The content of the file that was added `i`-th, where it can be read.
    pub fn content_at(&self, i: usize) -> (r: Option<&str>)
        requires
            i < self.listing().len(),
        ensures
            self.files().contains_key(self.listing()[i as int]),
            r.deep_view() == self.files()[self.listing()[i as int]],
    {
        match self.files.value_at(i) {
            Some(s) => Some(s.as_str()),
            None => None,
        }
    }
}

} // verus!
