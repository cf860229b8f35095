use gnc::builtin::string::init;
use gnc::context::{ExecutionContext, ModuleContext};
use gnc::module::{ModuleLoader, ModuleRegistry};

#[test]
fn execution_context_records_file_and_directory() {
    let mut c = ExecutionContext::new();
    assert_eq!(c.current_file(), None);
    assert_eq!(c.current_directory(), None);
    c.set_current_file("lib/util.gn".to_string());
    assert_eq!(c.current_file(), Some(&"lib/util.gn".to_string()));
    assert_eq!(c.current_directory(), Some(&"lib".to_string()));
    c.clear();
    assert_eq!(c.current_file(), None);
    assert_eq!(c.current_directory(), None);
}

#[test]
fn execution_context_of_an_empty_path_has_no_directory() {
    let mut c = ExecutionContext::new();
    c.set_current_file(String::new());
    assert_eq!(c.current_file(), Some(&String::new()));
    assert_eq!(c.current_directory(), None);
}

#[test]
fn execution_context_nested_directory() {
    let mut c = ExecutionContext::new();
    c.set_current_file("a/b/c.gn".to_string());
    assert_eq!(c.current_directory(), Some(&"a/b".to_string()));
}

#[test]
fn execution_context_set_location() {
    let mut c = ExecutionContext::new();
    c.set_location("x.gn".to_string(), Some("here".to_string()));
    assert_eq!(c.current_file(), Some(&"x.gn".to_string()));
    assert_eq!(c.current_directory(), Some(&"here".to_string()));
}

#[test]
fn module_context_add_contains_clear() {
    let mut m = ModuleContext::new();
    assert!(!m.contains("math"));
    m.add("math".to_string());
    m.add("io".to_string());
    assert!(m.contains("math"));
    assert!(m.contains("io"));
    assert!(!m.contains("string"));
    m.clear();
    assert!(!m.contains("math"));
    let d = ModuleContext::default();
    assert!(!d.contains("io"));
}

#[test]
fn module_loader_marks_modules() {
    let mut l = ModuleLoader::new();
    assert!(!l.is_loaded("util"));
    l.mark_loaded("util");
    assert!(l.is_loaded("util"));
    l.mark_loaded("util");
    assert!(l.is_loaded("util"));
    assert!(!l.is_loaded("other"));
}

#[test]
fn builtin_modules_are_known() {
    for name in ["math", "string", "array", "dictionary", "io", "system"] {
        assert!(ModuleLoader::is_builtin(name));
        assert!(ModuleRegistry::is_registered(name));
    }
    assert!(!ModuleLoader::is_builtin("util"));
    assert!(!ModuleRegistry::is_registered("Math"));
    assert!(!ModuleRegistry::is_registered(""));
}

#[test]
fn module_paths() {
    let l = ModuleLoader::new();
    assert_eq!(l.resolve_path("util"), "util.gn");
    assert_eq!(l.resolve_from_directory("lib", "util"), "lib/util.gn");
    assert_eq!(l.resolve_from_directory("lib/", "util"), "lib/util.gn");
    assert_eq!(l.resolve_from_directory("", "util"), "util.gn");
}

#[test]
fn string_module_init_does_nothing() {
    init();
}

#[test]
fn single_component_paths_have_the_empty_directory() {
    for name in ["main.gn", "..", ".", "a-b_c"] {
        let mut c = ExecutionContext::new();
        c.set_current_file(name.to_string());
        assert_eq!(c.current_directory(), Some(&String::new()));
    }
}
