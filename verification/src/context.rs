//! Where the running program comes from, and which modules it has loaded.
use vstd::prelude::*;
use crate::text::str_equal;

verus! {

/// What the standard library's `Path::parent` gives for a path: the path
/// without its last component, or nothing for a root or an empty path.
pub uninterp spec fn path_parent_of(path: Seq<char>) -> Option<Seq<char>>;

/// A non-empty path with no separator and no drive prefix: a single
/// relative component, whose parent is the empty path.
pub open spec fn single_component(path: Seq<char>) -> bool {
    path.len() > 0 && forall|i: int| 0 <= i < path.len() ==> path[i] != '/' && path[i] != '\\' && path[i] != ':'
}

/// The text of an optional string.
pub open spec fn opt_text(o: Option<String>) -> Option<Seq<char>> {
    match o {
        Some(s) => Some(s@),
        None => None,
    }
}

/// `std::path::Path::parent`, with the parent written back as text. The
/// contract names the result and claims two things of it, which the
/// documentation states: an empty path has no parent, and a relative path
/// of one component has the empty path as its parent. Which prefix is the
/// parent otherwise depends on the platform's separators and prefixes, and
/// is left unsaid.
#[verifier::external_body]
fn path_parent(path: &str) -> (r: Option<String>)
    ensures
        opt_text(r) == path_parent_of(path@),
        path@.len() == 0 ==> r is None,
        single_component(path@) ==> opt_text(r) == Some(Seq::<char>::empty()),
{
    match std::path::Path::new(path).parent() {
        Some(p) => Some(p.to_string_lossy().into_owned()),
        None => None,
    }
}

/// The file that is running and the directory it lies in.
#[derive(Debug, Clone)]
pub struct ExecutionContext {
    current_file: Option<String>,
    current_directory: Option<String>,
}

/// The model of an [`ExecutionContext`].
pub struct ContextView {
    pub file: Option<Seq<char>>,
    pub directory: Option<Seq<char>>,
}

impl View for ExecutionContext {
    type V = ContextView;

    closed spec fn view(&self) -> ContextView {
        ContextView { file: opt_text(self.current_file), directory: opt_text(self.current_directory) }
    }
}

impl ExecutionContext {
    /// No file is running yet.
    pub fn new() -> (r: Self)
        ensures
            r@.file is None,
            r@.directory is None,
    {
        Self { current_file: None, current_directory: None }
    }

    /// Records the running file and the directory that `Path::parent` gives for it.
    pub fn set_current_file(&mut self, path: String)
        ensures
            final(self)@.file == Some(path@),
            final(self)@.directory == path_parent_of(path@),
            path@.len() == 0 ==> final(self)@.directory is None,
            single_component(path@) ==> final(self)@.directory == Some(Seq::<char>::empty()),
    {
        let directory = path_parent(path.as_str());
        self.set_location(path, directory);
    }

    /// Records a running file and its directory as given.
    pub fn set_location(&mut self, file: String, directory: Option<String>)
        ensures
            final(self)@.file == Some(file@),
            final(self)@.directory == opt_text(directory),
    {
        self.current_directory = directory;
        self.current_file = Some(file);
    }

    /// The running file, if one was set.
    pub fn current_file(&self) -> (r: Option<&String>)
        ensures
            match r {
                Some(s) => self@.file == Some(s@),
                None => self@.file is None,
            },
    {
        match &self.current_file {
            Some(s) => Some(s),
            None => None,
        }
    }

    /// The directory of the running file, if it has one.
    pub fn current_directory(&self) -> (r: Option<&String>)
        ensures
            match r {
                Some(s) => self@.directory == Some(s@),
                None => self@.directory is None,
            },
    {
        match &self.current_directory {
            Some(s) => Some(s),
            None => None,
        }
    }

    /// Forgets the running file and its directory.
    pub fn clear(&mut self)
        ensures
            final(self)@.file is None,
            final(self)@.directory is None,
    {
        self.current_file = None;
        self.current_directory = None;
    }
}

/// The names of the modules loaded so far, in the order they were added.
#[derive(Debug)]
pub struct ModuleContext {
    loaded_modules: Vec<String>,
}

/// The names, as texts, of a list of strings.
pub open spec fn texts(s: Seq<String>) -> Seq<Seq<char>> {
    Seq::new(s.len(), |i: int| s[i]@)
}

impl View for ModuleContext {
    type V = Seq<Seq<char>>;

    closed spec fn view(&self) -> Seq<Seq<char>> {
        texts(self.loaded_modules@)
    }
}

impl Default for ModuleContext {
    fn default() -> (r: Self)
        ensures
            r@ == Seq::<Seq<char>>::empty(),
    {
        Self::new()
    }
}

impl ModuleContext {
    /// No module loaded.
    pub fn new() -> (r: Self)
        ensures
            r@ == Seq::<Seq<char>>::empty(),
    {
        let r = Self { loaded_modules: Vec::new() };
        assert(r@ =~= Seq::<Seq<char>>::empty());
        r
    }

    /// Records one more loaded module (a name may be recorded twice).
    pub fn add(&mut self, module: String)
        ensures
            final(self)@ == old(self)@.push(module@),
    {
        let ghost m = module@;
        self.loaded_modules.push(module);
        assert(self@ =~= old(self)@.push(m));
    }

    /// Whether a module of that name was recorded.
    pub fn contains(&self, module: &str) -> (r: bool)
        ensures
            r == self@.contains(module@),
    {
        let mut i: usize = 0;
        while i < self.loaded_modules.len()
            invariant
                i <= self.loaded_modules@.len(),
                forall|j: int| 0 <= j < i ==> self.loaded_modules@[j]@ != module@,
            decreases self.loaded_modules@.len() - i,
        {
            if str_equal(self.loaded_modules[i].as_str(), module) {
                assert(self@[i as int] == module@);
                return true;
            }
            i = i + 1;
        }
        assert forall|x: Seq<char>| #[trigger] self@.contains(x) implies x != module@ by {
            let j = choose|j: int| 0 <= j < self@.len() && self@[j] == x;
            assert(self@[j] == self.loaded_modules@[j]@);
        }
        false
    }

    /// Forgets every loaded module.
    pub fn clear(&mut self)
        ensures
            final(self)@ == Seq::<Seq<char>>::empty(),
    {
        self.loaded_modules.clear();
        assert(self@ =~= Seq::<Seq<char>>::empty());
    }
}

} // verus!
