//! Module names: which are built in, where a module's file lies, and which
//! modules were loaded.
use vstd::prelude::*;
use crate::text::{push_char, str_equal};

verus! {

/// The names of the built-in modules.
pub open spec fn builtin_module(name: Seq<char>) -> bool {
    ||| name == "math"@
    ||| name == "string"@
    ||| name == "array"@
    ||| name == "dictionary"@
    ||| name == "io"@
    ||| name == "system"@
}

/// Whether a name is one of the built-in modules.
fn is_builtin_name(name: &str) -> (r: bool)
    ensures
        r == builtin_module(name@),
{
    str_equal(name, "math") || str_equal(name, "string") || str_equal(name, "array") || str_equal(name, "dictionary")
        || str_equal(name, "io") || str_equal(name, "system")
}

/// The file name of a module: its name with the `.gn` extension.
pub open spec fn module_file(module: Seq<char>) -> Seq<char> {
    module + seq!['.', 'g', 'n']
}

/// What the standard library's `PathBuf::push` makes of a directory and a
/// relative file name, written as text.
pub uninterp spec fn joined_path(directory: Seq<char>, file: Seq<char>) -> Seq<char>;

/// `std::path::PathBuf::push` on a copy of `directory`, with the result
/// written back as text. The contract names the result and claims nothing
/// else of it: the separator and the handling of absolute names depend on
/// the platform.
#[verifier::external_body]
fn path_join(directory: &str, file: &str) -> (r: String)
    ensures
        r@ == joined_path(directory@, file@),
{
    let mut path = std::path::Path::new(directory).to_path_buf();
    path.push(file);
    path.to_string_lossy().into_owned()
}

/// Keeps track of the modules that were loaded.
pub struct ModuleLoader {
    loaded: Vec<String>,
}

impl View for ModuleLoader {
    type V = Set<Seq<char>>;

    closed spec fn view(&self) -> Set<Seq<char>> {
        Set::new(|m: Seq<char>| exists|i: int| 0 <= i < self.loaded@.len() && #[trigger] self.loaded@[i]@ == m)
    }
}

impl ModuleLoader {
    /// No module loaded.
    pub fn new() -> (r: Self)
        ensures
            r@ == Set::<Seq<char>>::empty(),
    {
        let r = Self { loaded: Vec::new() };
        assert(r@ =~= Set::<Seq<char>>::empty());
        r
    }

    /// Whether a module of that name was loaded.
    pub fn is_loaded(&self, module: &str) -> (r: bool)
        ensures
            r == self@.contains(module@),
    {
        let mut i: usize = 0;
        while i < self.loaded.len()
            invariant
                i <= self.loaded@.len(),
                forall|j: int| 0 <= j < i ==> self.loaded@[j]@ != module@,
            decreases self.loaded@.len() - i,
        {
            if str_equal(self.loaded[i].as_str(), module) {
                return true;
            }
            i = i + 1;
        }
        false
    }

    /// Records a module as loaded.
    pub fn mark_loaded(&mut self, module: &str)
        ensures
            final(self)@ == old(self)@.insert(module@),
    {
        if !self.is_loaded(module) {
            let name = String::from_str(module);
            self.loaded.push(name);
            assert forall|m: Seq<char>| #[trigger] self@.contains(m) == old(self)@.insert(module@).contains(m) by {
                if old(self)@.contains(m) {
                    let j = choose|j: int| 0 <= j < old(self).loaded@.len() && #[trigger] old(self).loaded@[j]@ == m;
                    assert(self.loaded@[j] == old(self).loaded@[j]);
                }
                if self@.contains(m) && m != module@ {
                    let j = choose|j: int| 0 <= j < self.loaded@.len() && #[trigger] self.loaded@[j]@ == m;
                    assert(j < old(self).loaded@.len());
                    assert(self.loaded@[j] == old(self).loaded@[j]);
                }
                if m == module@ {
                    assert(self.loaded@[self.loaded@.len() - 1]@ == m);
                }
            }
            assert(self@ =~= old(self)@.insert(module@));
        } else {
            assert(old(self)@.insert(module@) =~= old(self)@);
        }
    }

    /// Whether a name is one of the built-in modules.
    pub fn is_builtin(module: &str) -> (r: bool)
        ensures
            r == builtin_module(module@),
    {
        is_builtin_name(module)
    }

    /// The file of a module in the working directory.
    pub fn resolve_path(&self, module: &str) -> (r: String)
        ensures
            r@ == module_file(module@),
    {
        let mut path = String::from_str(module);
        push_char(&mut path, '.');
        push_char(&mut path, 'g');
        push_char(&mut path, 'n');
        assert(path@ =~= module_file(module@));
        path
    }

    /// The file of a module in `directory`.
    pub fn resolve_from_directory(&self, directory: &str, module: &str) -> (r: String)
        ensures
            r@ == joined_path(directory@, module_file(module@)),
    {
        let file = self.resolve_path(module);
        path_join(directory, file.as_str())
    }
}

/// The registry of built-in modules.
pub struct ModuleRegistry;

impl ModuleRegistry {
    /// Whether a name is one of the built-in modules.
    pub fn is_registered(name: &str) -> (r: bool)
        ensures
            r == builtin_module(name@),
    {
        is_builtin_name(name)
    }
}

} // verus!
