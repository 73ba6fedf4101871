use rb::asset::ResolvedImport;
use rb::bundler::Bundler;

fn imp(specifier: &str, path: &str) -> ResolvedImport {
    ResolvedImport { specifier: specifier.to_string(), path: path.to_string() }
}

#[test]
fn entry_asset_gets_id_zero() {
    let b = Bundler::new("a.js".to_string());
    assert_eq!(b.assets.len(), 1);
    assert_eq!(b.assets[0].id, 0);
    assert_eq!(b.assets[0].path, "a.js");
    assert!(b.assets[0].compiled.is_none());
    assert_eq!(b.queue, vec![0]);
}

#[test]
fn entry_keeps_id_zero_across_the_run() {
    let mut b = Bundler::new("a.js".to_string());
    let (id, path) = b.next_pending().unwrap();
    assert_eq!((id, path.as_str()), (0, "a.js"));
    b.process_asset(0, vec![imp("./b.js", "b.js"), imp("./c.js", "c.js")], "ca".to_string());
    let (id, _) = b.next_pending().unwrap();
    b.process_asset(id, vec![imp("./d.js", "d.js")], "cx".to_string());
    assert_eq!(b.assets[0].id, 0);
    assert_eq!(b.assets[0].path, "a.js");
}

#[test]
fn same_resolved_path_shares_one_asset() {
    let mut b = Bundler::new("a.js".to_string());
    b.process_asset(
        0,
        vec![imp("./b.js", "/x/b.js"), imp("./b/index.js", "/x/b.js")],
        "ca".to_string(),
    );
    assert_eq!(b.assets.len(), 2);
    let deps = &b.assets[0].compiled.as_ref().unwrap().deps;
    assert_eq!(deps.len(), 2);
    assert_eq!(deps[0].specifier, "./b.js");
    assert_eq!(deps[0].asset_id, 1);
    assert_eq!(deps[1].specifier, "./b/index.js");
    assert_eq!(deps[1].asset_id, 1);
}

#[test]
fn cyclic_imports_terminate() {
    let mut b = Bundler::new("a.js".to_string());
    let (id, path) = b.next_pending().unwrap();
    assert_eq!((id, path.as_str()), (0, "a.js"));
    b.process_asset(id, vec![imp("./b.js", "b.js")], "ca".to_string());
    let (id, path) = b.next_pending().unwrap();
    assert_eq!((id, path.as_str()), (1, "b.js"));
    b.process_asset(id, vec![imp("./a.js", "a.js")], "cb".to_string());
    assert!(b.next_pending().is_none());
    assert_eq!(b.assets.len(), 2);
    let deps_a = &b.assets[0].compiled.as_ref().unwrap().deps;
    assert_eq!(deps_a.len(), 1);
    assert_eq!(deps_a[0].specifier, "./b.js");
    assert_eq!(deps_a[0].asset_id, 1);
    let deps_b = &b.assets[1].compiled.as_ref().unwrap().deps;
    assert_eq!(deps_b.len(), 1);
    assert_eq!(deps_b[0].specifier, "./a.js");
    assert_eq!(deps_b[0].asset_id, 0);
}

#[test]
fn ids_are_dense_in_discovery_order() {
    let mut b = Bundler::new("a.js".to_string());
    b.process_asset(0, vec![imp("./c.js", "c.js"), imp("./d.js", "d.js")], "ca".to_string());
    // the queue hands the most recently discovered asset out first
    let (id, path) = b.next_pending().unwrap();
    assert_eq!((id, path.as_str()), (2, "d.js"));
    b.process_asset(id, vec![imp("./e.js", "e.js")], "cd".to_string());
    let (id, path) = b.next_pending().unwrap();
    assert_eq!((id, path.as_str()), (3, "e.js"));
    b.process_asset(id, vec![], "ce".to_string());
    let (id, path) = b.next_pending().unwrap();
    assert_eq!((id, path.as_str()), (1, "c.js"));
    b.process_asset(id, vec![], "cc".to_string());
    assert!(b.next_pending().is_none());
    let paths: Vec<&str> = b.assets.iter().map(|a| a.path.as_str()).collect();
    assert_eq!(paths, vec!["a.js", "c.js", "d.js", "e.js"]);
    for (i, a) in b.assets.iter().enumerate() {
        assert_eq!(a.id, i as u64);
    }
}

#[test]
fn create_asset_is_idempotent() {
    let mut b = Bundler::new("a.js".to_string());
    let first = b.create_asset("b.js".to_string());
    assert_eq!(first, 1);
    assert_eq!(b.assets.len(), 2);
    assert_eq!(b.queue, vec![0, 1]);
    let again = b.create_asset("b.js".to_string());
    assert_eq!(again, 1);
    assert_eq!(b.assets.len(), 2);
    assert_eq!(b.queue, vec![0, 1]);
}

#[test]
fn find_asset_reports_known_paths_only() {
    let mut b = Bundler::new("a.js".to_string());
    b.create_asset("b.js".to_string());
    assert_eq!(b.find_asset(&"a.js".to_string()), Some(0));
    assert_eq!(b.find_asset(&"b.js".to_string()), Some(1));
    assert_eq!(b.find_asset(&"missing.js".to_string()), None);
}

#[test]
fn duplicate_specifier_overwrites_with_identical_target() {
    let mut b = Bundler::new("a.js".to_string());
    b.process_asset(0, vec![imp("./b.js", "b.js"), imp("./b.js", "b.js")], "ca".to_string());
    let deps = &b.assets[0].compiled.as_ref().unwrap().deps;
    assert_eq!(deps.len(), 1);
    assert_eq!(deps[0].specifier, "./b.js");
    assert_eq!(deps[0].asset_id, 1);
}

#[test]
fn processing_pops_the_handed_out_asset() {
    let mut b = Bundler::new("a.js".to_string());
    b.process_asset(0, vec![imp("./b.js", "b.js"), imp("./c.js", "c.js")], "ca".to_string());
    assert_eq!(b.queue, vec![1, 2]);
    let (id, _) = b.next_pending().unwrap();
    assert_eq!(id, 2);
    b.process_asset(2, vec![], "cc".to_string());
    assert_eq!(b.queue, vec![1]);
}
