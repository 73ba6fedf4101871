use rb::asset::ResolvedImport;
use rb::bundler::Bundler;
use rb::emit::u64_to_string;

fn imp(specifier: &str, path: &str) -> ResolvedImport {
    ResolvedImport { specifier: specifier.to_string(), path: path.to_string() }
}

const SHIM_HEAD: &str = "\n        (function(modules) {\n          function require(id) {\n            const [fn, mapping] = modules[id];\n  \n            function localRequire(name) {\n              return require(mapping[name]);\n            }\n  \n            const module = { exports : {} };\n  \n            fn(localRequire, module, module.exports);\n  \n            return module.exports;\n          }\n  \n          require(0);\n        })(";
const ENTRY_HEAD: &str = ": [\n                function (require, module, exports) {\n                  ";
const ENTRY_MID: &str = "\n                },\n                ";
const ENTRY_TAIL: &str = ",\n              ],";
const SHIM_TAIL: &str = ")\n        ";

#[test]
fn no_artifact_before_the_traversal_is_done() {
    let b = Bundler::new("a.js".to_string());
    assert!(b.bundle().is_none());
}

#[test]
fn single_module_artifact_is_exact() {
    let mut b = Bundler::new("a.js".to_string());
    b.process_asset(0, vec![], "var x = 1;".to_string());
    let artifact = b.bundle().unwrap();
    let mut expected = String::new();
    expected.push_str(SHIM_HEAD);
    expected.push_str("0");
    expected.push_str(ENTRY_HEAD);
    expected.push_str("var x = 1;");
    expected.push_str(ENTRY_MID);
    expected.push_str("{}");
    expected.push_str(ENTRY_TAIL);
    expected.push_str(SHIM_TAIL);
    assert_eq!(artifact, expected);
}

#[test]
fn two_module_artifact_lists_both_modules_by_id() {
    let mut b = Bundler::new("a.js".to_string());
    b.process_asset(0, vec![imp("./b.js", "b.js")], "var b = require('./b.js');".to_string());
    let (id, _) = b.next_pending().unwrap();
    b.process_asset(id, vec![], "exports.x = 1;".to_string());
    let artifact = b.bundle().unwrap();
    // module table entries stand in id order, each with its mapping
    let mut a_entry = String::new();
    a_entry.push_str("0");
    a_entry.push_str(ENTRY_HEAD);
    a_entry.push_str("var b = require('./b.js');");
    a_entry.push_str(ENTRY_MID);
    a_entry.push_str("{\"./b.js\":1}");
    a_entry.push_str(ENTRY_TAIL);
    let mut b_entry = String::new();
    b_entry.push_str("1");
    b_entry.push_str(ENTRY_HEAD);
    b_entry.push_str("exports.x = 1;");
    b_entry.push_str(ENTRY_MID);
    b_entry.push_str("{}");
    b_entry.push_str(ENTRY_TAIL);
    let pos_a = artifact.find(&a_entry).expect("entry module missing from the table");
    let pos_b = artifact.find(&b_entry).expect("dependency module missing from the table");
    assert!(pos_a < pos_b);
    assert!(artifact.starts_with(SHIM_HEAD));
    assert!(artifact.ends_with(SHIM_TAIL));
}

#[test]
fn mapping_renders_as_a_json_object_in_edge_order() {
    let mut b = Bundler::new("a.js".to_string());
    b.process_asset(
        0,
        vec![imp("./z.js", "z.js"), imp("./a.js", "x.js")],
        "ca".to_string(),
    );
    let (id, _) = b.next_pending().unwrap();
    b.process_asset(id, vec![], "cx".to_string());
    let (id, _) = b.next_pending().unwrap();
    b.process_asset(id, vec![], "cz".to_string());
    let artifact = b.bundle().unwrap();
    // "./z.js" was discovered first, so it holds id 1 and stands first; a
    // mapping handed back unchanged would show neither quotes nor ids
    assert!(artifact.contains("{\"./z.js\":1,\"./a.js\":2}"));
}

#[test]
fn artifact_requires_the_entry_module_first() {
    let mut b = Bundler::new("a.js".to_string());
    b.process_asset(0, vec![], "var x = 1;".to_string());
    let artifact = b.bundle().unwrap();
    assert!(artifact.contains("require(0);"));
}

#[test]
fn decimal_rendering_is_exact() {
    assert_eq!(u64_to_string(0), "0");
    assert_eq!(u64_to_string(7), "7");
    assert_eq!(u64_to_string(10), "10");
    assert_eq!(u64_to_string(105), "105");
    assert_eq!(u64_to_string(18446744073709551615), "18446744073709551615");
}
