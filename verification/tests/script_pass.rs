use gl_renderer::script_cache::{LoadOutcome, ScriptCache, SCRIPT_CACHE_CAP};
use gl_renderer::script_pass::{CachePass, PassAction, PassEvent};
use gl_renderer::scripting::Scripted;

fn scripted(paths: &[&str]) -> Vec<Scripted> {
    paths
        .iter()
        .enumerate()
        .map(|(i, p)| Scripted::new(i as u64, p.to_string()))
        .collect()
}

#[test]
fn shared_script_is_loaded_once() {
    let mut cache = ScriptCache::new();
    let list = scripted(&["a.py", "a.py", "b.py"]);
    let mut pass = CachePass::new();
    let mut step = |pass: &mut CachePass, event: PassEvent| pass.step(&mut cache, &list, event);
    assert_eq!(step(&mut pass, PassEvent::Now(10)), PassAction::Look);
    assert_eq!(step(&mut pass, PassEvent::Modified(Some(1))), PassAction::Load);
    assert_eq!(step(&mut pass, PassEvent::Outcome(LoadOutcome::Loaded(7))), PassAction::Tell);
    assert_eq!(step(&mut pass, PassEvent::Now(11)), PassAction::Tell);
    assert_eq!(step(&mut pass, PassEvent::Now(12)), PassAction::Look);
    assert_eq!(step(&mut pass, PassEvent::Modified(None)), PassAction::Load);
    assert_eq!(step(&mut pass, PassEvent::Outcome(LoadOutcome::Unreadable)), PassAction::Tell);
    assert_eq!(step(&mut pass, PassEvent::Now(13)), PassAction::Finish);
    assert_eq!(pass.callables, vec![Some(7), Some(7), None]);
    assert_eq!(pass.released, vec![]);
}

#[test]
fn nothing_scripted_is_finished_at_once() {
    let mut cache = ScriptCache::new();
    let mut pass = CachePass::new();
    assert_eq!(pass.step(&mut cache, &vec![], PassEvent::Now(0)), PassAction::Finish);
}

#[test]
fn changed_script_releases_the_old_callback() {
    let mut cache = ScriptCache::new();
    let list = scripted(&["a.py"]);
    for (now, mtime, f) in [(0, 1, 7), (200_000_000, 2, 8)] {
        let mut pass = CachePass::new();
        pass.step(&mut cache, &list, PassEvent::Now(now));
        pass.step(&mut cache, &list, PassEvent::Modified(Some(mtime)));
        pass.step(&mut cache, &list, PassEvent::Outcome(LoadOutcome::Loaded(f)));
        assert_eq!(pass.callables, vec![Some(f)]);
        assert_eq!(pass.released, if f == 8 { vec![7] } else { vec![] });
    }
}

#[test]
fn unchanged_file_keeps_the_callback() {
    let mut cache = ScriptCache::new();
    let list = scripted(&["a.py"]);
    let mut pass = CachePass::new();
    pass.step(&mut cache, &list, PassEvent::Now(0));
    pass.step(&mut cache, &list, PassEvent::Modified(Some(1)));
    pass.step(&mut cache, &list, PassEvent::Outcome(LoadOutcome::Loaded(7)));
    let mut pass = CachePass::new();
    assert_eq!(pass.step(&mut cache, &list, PassEvent::Now(100_000_000)), PassAction::Look);
    assert_eq!(pass.step(&mut cache, &list, PassEvent::Modified(Some(1))), PassAction::Tell);
    assert_eq!(pass.callables, vec![Some(7)]);
}

#[test]
fn too_many_scripts_release_the_least_recent() {
    let mut cache = ScriptCache::new();
    let names: Vec<String> = (0..SCRIPT_CACHE_CAP + 1).map(|i| format!("{i}.py")).collect();
    let list = scripted(&names.iter().map(|s| s.as_str()).collect::<Vec<&str>>());
    let mut pass = CachePass::new();
    for i in 0..list.len() {
        assert_eq!(pass.step(&mut cache, &list, PassEvent::Now(0)), PassAction::Look);
        pass.step(&mut cache, &list, PassEvent::Modified(Some(1)));
        pass.step(&mut cache, &list, PassEvent::Outcome(LoadOutcome::Loaded(i as u64)));
    }
    assert_eq!(pass.released, vec![0]);
    assert_eq!(pass.callables[0], Some(0));
    assert_eq!(pass.callables.len(), SCRIPT_CACHE_CAP + 1);
}

#[test]
fn unchanged_script_is_loaded_once_in_many_ticks() {
    let mut cache = ScriptCache::new();
    let names: Vec<String> = (0..SCRIPT_CACHE_CAP).map(|i| format!("{i}.py")).collect();
    let mut paths: Vec<&str> = names.iter().map(|s| s.as_str()).collect();
    paths.push("0.py");
    paths.push("0.py/");
    let list = scripted(&paths);
    let mut loads: Vec<u64> = vec![0; SCRIPT_CACHE_CAP];
    for tick in 0..5i64 {
        let mut pass = CachePass::new();
        let mut action = PassAction::Tell;
        loop {
            let at = pass.at % SCRIPT_CACHE_CAP;
            let event = match action {
                PassAction::Tell => PassEvent::Now(tick * 90_000_000),
                PassAction::Look => PassEvent::Modified(Some(3)),
                PassAction::Load => {
                    loads[at] += 1;
                    PassEvent::Outcome(LoadOutcome::Loaded(1_000 + pass.at as u64))
                }
                PassAction::Finish => break,
            };
            action = pass.step(&mut cache, &list, event);
        }
        assert_eq!(pass.callables.len(), SCRIPT_CACHE_CAP + 2);
        assert_eq!(pass.callables[0], Some(1_000));
        assert_eq!(pass.callables[SCRIPT_CACHE_CAP], Some(1_000));
        assert_eq!(pass.callables[SCRIPT_CACHE_CAP + 1], Some(1_000));
        assert_eq!(pass.callables[5], Some(1_005));
    }
    assert_eq!(loads, vec![1; SCRIPT_CACHE_CAP]);
}
