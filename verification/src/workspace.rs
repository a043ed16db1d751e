//! The working directory: which of the things found in it are snapshotted.

use vstd::prelude::*;

verus! {

/// Something found in a directory: its path relative to the directory, and
/// whether it is a directory itself.
pub struct Found {
    pub path: String,
    pub is_dir: bool,
}

/// A [`Found`] as a mathematical value.
pub struct FoundView {
    pub path: Seq<char>,
    pub is_dir: bool,
}

impl View for Found {
    type V = FoundView;

    open spec fn view(&self) -> FoundView {
        FoundView { path: self.path@, is_dir: self.is_dir }
    }
}

impl DeepView for Found {
    type V = FoundView;

    open spec fn deep_view(&self) -> FoundView {
        self@
    }
}

/// The paths that are always ignored, before those of the ignore file.
pub open spec fn ignored_paths(gitignore: Seq<Seq<char>>) -> Seq<Seq<char>> {
    seq![".git"@] + gitignore
}

/// What is found is a file to snapshot: not ignored, and no directory.
pub open spec fn is_listed(found: FoundView, ignores: Seq<Seq<char>>) -> bool {
    !ignores.contains(found.path) && !found.is_dir
}

/// The paths of the files to snapshot among what was found, in the order
/// in which they were found.
pub open spec fn listed_files(found: Seq<FoundView>, ignores: Seq<Seq<char>>) -> Seq<Seq<char>>
    decreases found.len(),
{
    if found.len() == 0 {
        Seq::empty()
    } else if is_listed(found.last(), ignores) {
        listed_files(found.drop_last(), ignores).push(found.last().path)
    } else {
        listed_files(found.drop_last(), ignores)
    }
}

/// A working directory and the paths ignored in it.
pub struct Workspace {
    pathname: String,
    ignores: Vec<String>,
}

impl Workspace {
    /// The working directory.
    pub closed spec fn root(&self) -> Seq<char> {
        self.pathname@
    }

    /// The ignored paths.
    pub closed spec fn ignored(&self) -> Seq<Seq<char>> {
        self.ignores.deep_view()
    }

    /// The working directory `path`, in which `.git` and the paths in
    /// `gitignore`, the lines of its ignore file, are ignored.
    pub fn new(path: String, gitignore: Vec<String>) -> (workspace: Workspace)
        ensures
            workspace.root() == path@,
            workspace.ignored() == ignored_paths(gitignore.deep_view()),
    {
        let ghost lines = gitignore.deep_view();
        let mut gitignore = gitignore;
        let mut ignores: Vec<String> = Vec::new();
        ignores.push(String::from_str(".git"));
        ignores.append(&mut gitignore);
        assert(ignores.deep_view() =~= ignored_paths(lines));
        Workspace { pathname: path, ignores }
    }

    /// The directory to list: the one given, or the working directory.
    pub fn listing_root<'a>(&'a self, root_path: Option<&'a String>) -> (root: &'a String)
        ensures
            root@ == match root_path {
                Some(path) => path@,
                None => self.root(),
            },
    {
        match root_path {
            Some(path) => path,
            None => &self.pathname,
        }
    }

    /// Whether `path` is ignored.
    pub fn is_ignored(&self, path: &String) -> (ignored: bool)
        ensures
            ignored == self.ignored().contains(path@),
    {
        let mut i: usize = 0;
        while i < self.ignores.len()
            invariant
                i <= self.ignores.len(),
                forall|k: int| 0 <= k < i ==> self.ignored()[k] != path@,
            decreases self.ignores.len() - i,
        {
            if self.ignores[i] == *path {
                assert(self.ignored()[i as int] == path@);
                return true;
            }
            i += 1;
        }
        false
    }

    /// The files to snapshot among what was found in the directory: what
    /// is neither ignored nor a directory, in the order found.
    pub fn list_files(&self, found: &Vec<Found>) -> (files: Vec<String>)
        ensures
            files.deep_view() == listed_files(found.deep_view(), self.ignored()),
    {
        let mut files: Vec<String> = Vec::new();
        let mut i: usize = 0;
        assert(found.deep_view().take(0) =~= Seq::empty());
        assert(files.deep_view() =~= Seq::empty());
        while i < found.len()
            invariant
                i <= found.len(),
                files.deep_view() == listed_files(found.deep_view().take(i as int), self.ignored()),
            decreases found.len() - i,
        {
            let ghost before = files.deep_view();
            let ghost next = found.deep_view().take(i + 1);
            assert(next.drop_last() =~= found.deep_view().take(i as int));
            assert(next.last() == found[i as int]@);
            let entry = &found[i];
            if !self.is_ignored(&entry.path) && !entry.is_dir {
                files.push(entry.path.clone());
                assert(files.deep_view() =~= before.push(entry.path@));
            }
            i += 1;
        }
        assert(found.deep_view().take(i as int) =~= found.deep_view());
        files
    }
}

} // verus!
