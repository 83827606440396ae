use gl_renderer::script_cache::{LoadOutcome, ScriptCache};
use gl_renderer::script_pass::{CachePass, PassAction, PassEvent};
use gl_renderer::scripting::Scripted;
use std::path::Path;

fn parts(path: &str) -> Vec<String> {
    Scripted::new(0, path.to_string()).parts
}

#[test]
fn components_of_paths() {
    let none: Vec<String> = Vec::new();
    assert_eq!(parts(""), none);
    assert_eq!(parts("/"), vec!["/"]);
    assert_eq!(parts("a"), vec!["a"]);
    assert_eq!(parts("scripts//orbit.py"), vec!["scripts", "orbit.py"]);
    assert_eq!(parts("scripts/./orbit.py"), vec!["scripts", "orbit.py"]);
    assert_eq!(parts("./a/."), vec![".", "a"]);
    assert_eq!(parts("/./a//b/"), vec!["/", "a", "b"]);
    assert_eq!(parts("../a"), vec!["..", "a"]);
    assert_eq!(parts("a/.b/..c"), vec!["a", ".b", "..c"]);
    assert_eq!(parts("\u{e9}/\u{fc}"), vec!["\u{e9}", "\u{fc}"]);
}

#[test]
fn paths_are_compared_by_components() {
    let spellings = [
        "", ".", "./", "/", "//", "/.", "a", "a/", "a/.", "./a", "././a", "/a", "//a", "/./a",
        "a/b", "a//b", "a/./b", "a/b/", "./a/b", "/a/b", "ab", "..", "../a", "a/..", "a/../a", "...",
        "a/...", "a.", ".a", "a /b", "a\\b", "a\\b/", "a\\\\b", "\\a", "\\\\a\\b", "//a/b", "C:/a", "c:/a",
        "C:\\a", "C:a", "C:", "C:/", "\\\\?\\C:\\a", "Disk(67)/a",
    ];
    for p in spellings {
        for q in spellings {
            assert_eq!(parts(p) == parts(q), Path::new(p) == Path::new(q), "{p:?} {q:?}");
        }
    }
}

#[test]
fn spellings_share_a_script() {
    let mut cache = ScriptCache::new();
    let list: Vec<Scripted> = ["scripts/a.py", "scripts//a.py", "scripts/./a.py/", "./scripts/a.py"]
        .iter()
        .map(|p| Scripted::new(0, p.to_string()))
        .collect();
    let mut pass = CachePass::new();
    assert_eq!(pass.step(&mut cache, &list, PassEvent::Now(0)), PassAction::Look);
    assert_eq!(pass.step(&mut cache, &list, PassEvent::Modified(Some(1))), PassAction::Load);
    let loaded = PassEvent::Outcome(LoadOutcome::Loaded(7));
    assert_eq!(pass.step(&mut cache, &list, loaded), PassAction::Tell);
    assert_eq!(pass.step(&mut cache, &list, PassEvent::Now(1)), PassAction::Tell);
    assert_eq!(pass.step(&mut cache, &list, PassEvent::Now(2)), PassAction::Tell);
    assert_eq!(pass.step(&mut cache, &list, PassEvent::Now(3)), PassAction::Look);
    assert_eq!(pass.callables, vec![Some(7), Some(7), Some(7)]);
}
