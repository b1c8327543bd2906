//! Where the library keeps its files: a starting directory and the names below it.
use vstd::prelude::*;
use std::path::{Path, PathBuf};

verus! {

#[verifier::external_type_specification]
#[verifier::external_body]
pub struct ExPathBuf(PathBuf);

#[verifier::external_type_specification]
#[verifier::external_body]
pub struct ExPath(Path);

/// The directory a stored file's path starts from.
pub enum StorageRoot<'a> {
    /// A directory the caller chose.
    Given(&'a Path),
    /// The platform's directory for application data.
    DataDir(PathBuf),
    /// The working directory, written `.`.
    Dot,
    /// No directory at all: the path is its names alone, relative to the working directory.
    Bare,
}

/// A path to a stored file or directory: where it starts, then the names below it.
pub struct StoragePath<'a> {
    root: StorageRoot<'a>,
    names: Vec<String>,
}

/// A storage path as plain values.
pub struct StoragePathView<'a> {
    pub root: StorageRoot<'a>,
    pub names: Seq<Seq<char>>,
}

impl<'a> View for StoragePath<'a> {
    type V = StoragePathView<'a>;

    closed spec fn view(&self) -> StoragePathView<'a> {
        StoragePathView { root: self.root, names: self.names@.map_values(|n: String| n@) }
    }
}

impl<'a> StoragePath<'a> {
    #[verifier::type_invariant]
    spec fn has_names(self) -> bool {
        self.names.len() > 0
    }

    /// A path from `root` through the one name `name`.
    pub fn new(root: StorageRoot<'a>, name: &str) -> (p: StoragePath<'a>)
        ensures
            p@.root == root,
            p@.names == seq![name@],
    {
        let names = vec![String::from_str(name)];
        let p = StoragePath { root, names };
        assert(p@.names =~= seq![name@]);
        p
    }

    /// The same path, one name deeper.
    pub fn join(self, name: &str) -> (p: StoragePath<'a>)
        ensures
            p@.root == self@.root,
            p@.names == self@.names.push(name@),
    {
        proof {
            use_type_invariant(&self);
        }
        let StoragePath { root, mut names } = self;
        let ghost old_names = names@;
        names.push(String::from_str(name));
        let p = StoragePath { root, names };
        assert(p@.names =~= old_names.map_values(|n: String| n@).push(name@));
        p
    }

    /// The path as the operating system takes it: the root, then each name joined on with
    /// `Path::join`.
    pub fn to_path_buf(&self) -> (p: PathBuf)
        ensures
            p == rendered(self@),
    {
        proof {
            use_type_invariant(self);
        }
        let mut acc = match &self.root {
            StorageRoot::Given(d) => join_path(d, self.names[0].as_str()),
            StorageRoot::DataDir(d) => join_path(path_buf_as_path(d), self.names[0].as_str()),
            StorageRoot::Dot => join_path(path_buf_as_path(&path_from_str(".")), self.names[0].as_str()),
            StorageRoot::Bare => path_from_str(self.names[0].as_str()),
        };
        let mut i: usize = 1;
        assert(acc == rendered_through(self@, 1));
        while i < self.names.len()
            invariant
                1 <= i <= self.names.len(),
                acc == rendered_through(self@, i as nat),
            decreases self.names.len() - i,
        {
            acc = join_path(path_buf_as_path(&acc), self.names[i].as_str());
            i += 1;
        }
        acc
    }
}

/// The path of `root` with the name `first` joined on; a bare path is the name alone.
pub open spec fn rendered_root<'a>(root: StorageRoot<'a>, first: Seq<char>) -> PathBuf {
    match root {
        StorageRoot::Given(d) => joined_path(d, first),
        StorageRoot::DataDir(d) => joined_path(borrowed_path(&d), first),
        StorageRoot::Dot => joined_path(borrowed_path(&path_named("."@)), first),
        StorageRoot::Bare => path_named(first),
    }
}

/// The path of `v` through its first `k` names.
pub open spec fn rendered_through<'a>(v: StoragePathView<'a>, k: nat) -> PathBuf
    decreases k,
{
    if k <= 1 {
        rendered_root(v.root, v.names[0])
    } else {
        joined_path(borrowed_path(&rendered_through(v, (k - 1) as nat)), v.names[k - 1])
    }
}

/// The path that a storage path stands for.
pub open spec fn rendered<'a>(v: StoragePathView<'a>) -> PathBuf {
    rendered_through(v, v.names.len())
}

/// What `Path::join` gives for `base` and `name`, on the platform the crate is built for.
pub uninterp spec fn joined_path(base: &Path, name: Seq<char>) -> PathBuf;

/// What `PathBuf::from` gives for the text `text`.
pub uninterp spec fn path_named(text: Seq<char>) -> PathBuf;

/// What `PathBuf::as_path` gives for `p`.
pub uninterp spec fn borrowed_path(p: &PathBuf) -> &Path;

/// `dirs::data_dir`: the platform's directory for application data, if the platform and
/// the environment name one. What it returns rests on the operating system and the
/// environment, so nothing is stated of it.
#[verifier::external_body]
pub(crate) fn platform_data_dir() -> Option<PathBuf> {
    dirs::data_dir()
}

/// `Path::exists`: whether something is found at the path on disk. What it returns rests on
/// the disk, so nothing is stated of it.
#[verifier::external_body]
pub(crate) fn path_exists(p: &Path) -> bool {
    p.exists()
}

/// `Path::join`: the path one name deeper. Its result is named, not described: how the
/// name is attached (the separator, an absolute name replacing the path) is fixed by the
/// platform the crate is built for.
#[verifier::external_body]
fn join_path(base: &Path, name: &str) -> (p: PathBuf)
    ensures
        p == joined_path(base, name@),
{
    base.join(name)
}

/// `PathBuf::from` on a string: the path that the text names, named by the text.
#[verifier::external_body]
fn path_from_str(s: &str) -> (p: PathBuf)
    ensures
        p == path_named(s@),
{
    PathBuf::from(s)
}

/// `PathBuf::as_path`: the borrowed form of an owned path, named by the path.
#[verifier::external_body]
pub(crate) fn path_buf_as_path(p: &PathBuf) -> (r: &Path)
    ensures
        r == borrowed_path(p),
{
    p.as_path()
}

/// A path below the platform's data directory, in the library's own `scriba` folder,
/// starting from `.` where the platform names no data directory.
pub fn app_data_path<'a>(platform: Option<PathBuf>, name: &str) -> (p: StoragePath<'a>)
    ensures
        p@.names == seq!["scriba"@, name@],
        match platform {
            Some(d) => p@.root == StorageRoot::<'a>::DataDir(d),
            None => p@.root == StorageRoot::<'a>::Dot,
        },
{
    let root = match platform {
        Some(d) => StorageRoot::DataDir(d),
        None => StorageRoot::Dot,
    };
    StoragePath::new(root, "scriba").join(name)
}

} // verus!
