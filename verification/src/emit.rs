use vstd::prelude::*;
use vstd::string::StringExecFns;

use crate::asset::{Asset, Dep};

verus! {

/// The decimal digit character for one digit value.
pub open spec fn dec_digit(d: nat) -> char {
    if d == 0 {
        '0'
    } else if d == 1 {
        '1'
    } else if d == 2 {
        '2'
    } else if d == 3 {
        '3'
    } else if d == 4 {
        '4'
    } else if d == 5 {
        '5'
    } else if d == 6 {
        '6'
    } else if d == 7 {
        '7'
    } else if d == 8 {
        '8'
    } else {
        '9'
    }
}

/// The decimal rendering of a number, without sign or leading zeros
/// (`0` renders as the one digit `0`).
pub open spec fn dec_of(n: nat) -> Seq<char>
    decreases n,
{
    if n < 10 {
        seq![dec_digit(n)]
    } else {
        dec_of(n / 10) + seq![dec_digit(n % 10)]
    }
}

/// The one-character text of a digit value.
fn digit_str(d: u64) -> (r: &'static str)
    requires
        d < 10,
    ensures
        r@ =~= seq![dec_digit(d as nat)],
{
    let r: &'static str = if d == 0 {
        "0"
    } else if d == 1 {
        "1"
    } else if d == 2 {
        "2"
    } else if d == 3 {
        "3"
    } else if d == 4 {
        "4"
    } else if d == 5 {
        "5"
    } else if d == 6 {
        "6"
    } else if d == 7 {
        "7"
    } else if d == 8 {
        "8"
    } else {
        "9"
    };
    proof {
        reveal_strlit("0");
        reveal_strlit("1");
        reveal_strlit("2");
        reveal_strlit("3");
        reveal_strlit("4");
        reveal_strlit("5");
        reveal_strlit("6");
        reveal_strlit("7");
        reveal_strlit("8");
        reveal_strlit("9");
    }
    r
}

/// Renders a number in decimal.
pub fn u64_to_string(n: u64) -> (r: String)
    ensures
        r@ == dec_of(n as nat),
    decreases n,
{
    if n < 10 {
        let r = digit_str(n).to_owned();
        proof {
            assert(r@ =~= dec_of(n as nat));
        }
        r
    } else {
        let mut r = u64_to_string(n / 10);
        r.append(digit_str(n % 10));
        proof {
            assert(r@ =~= dec_of(n as nat));
        }
        r
    }
}

/// The dependency edges as plain pairs of specifier text and asset id.
pub open spec fn dep_pairs_of(deps: Seq<Dep>) -> Seq<(Seq<char>, u64)> {
    deps.map_values(|d: Dep| (d.specifier@, d.asset_id))
}

/// The JSON object text pairing each specifier with its asset id.
pub uninterp spec fn json_mapping_of(pairs: Seq<(Seq<char>, u64)>) -> Seq<char>;

/// Relies on serde_json::to_string over a serde_json::Map built from the
/// edges in their stored order: the map keeps its keys in insertion order,
/// so the rendered JSON object text is a function of the sequence of
/// key-value pairs alone, and serializing a map with string keys and
/// unsigned integer values cannot fail.
#[verifier::external_body]
fn mapping_json(deps: &Vec<Dep>) -> (r: String)
    ensures
        r@ == json_mapping_of(dep_pairs_of(deps@)),
{
    let m: serde_json::Map<String, serde_json::Value> = deps
        .iter()
        .map(|d| (d.specifier.clone(), serde_json::Value::from(d.asset_id)))
        .collect();
    serde_json::to_string(&m).expect("serializing a string-keyed map cannot fail")
}

/// The text standing between a module's id and its compiled code.
pub open spec fn module_head() -> Seq<char> {
    ": [\n                function (require, module, exports) {\n                  "@
}

fn module_head_str() -> (r: &'static str)
    ensures
        r@ == module_head(),
{
    ": [\n                function (require, module, exports) {\n                  "
}

/// The text standing between a module's compiled code and its mapping.
pub open spec fn module_mid() -> Seq<char> {
    "\n                },\n                "@
}

fn module_mid_str() -> (r: &'static str)
    ensures
        r@ == module_mid(),
{
    "\n                },\n                "
}

/// The text closing one module entry.
pub open spec fn module_tail() -> Seq<char> {
    ",\n              ],"@
}

fn module_tail_str() -> (r: &'static str)
    ensures
        r@ == module_tail(),
{
    ",\n              ],"
}

/// The loader shim's text up to the module table. The shim defines
/// `require(id)`, which looks a module's factory and specifier-to-id
/// mapping up in the table, wires `localRequire`, a fresh module record and
/// its exports slot into the factory, and returns the exports; it starts
/// the program by requiring id 0, the entry module.
pub open spec fn bundle_head() -> Seq<char> {
    "\n        (function(modules) {\n          function require(id) {\n            const [fn, mapping] = modules[id];\n  \n            function localRequire(name) {\n              return require(mapping[name]);\n            }\n  \n            const module = { exports : {} };\n  \n            fn(localRequire, module, module.exports);\n  \n            return module.exports;\n          }\n  \n          require(0);\n        })("@
}

fn bundle_head_str() -> (r: &'static str)
    ensures
        r@ == bundle_head(),
{
    "\n        (function(modules) {\n          function require(id) {\n            const [fn, mapping] = modules[id];\n  \n            function localRequire(name) {\n              return require(mapping[name]);\n            }\n  \n            const module = { exports : {} };\n  \n            fn(localRequire, module, module.exports);\n  \n            return module.exports;\n          }\n  \n          require(0);\n        })("
}

/// The text closing the artifact after the module table.
pub open spec fn bundle_tail() -> Seq<char> {
    ")\n        "@
}

fn bundle_tail_str() -> (r: &'static str)
    ensures
        r@ == bundle_tail(),
{
    ")\n        "
}

/// One module table entry: the asset's id, a factory function wrapping its
/// compiled code, and the JSON mapping from its import specifiers to the
/// ids they resolved to.
pub open spec fn module_entry_text(a: Asset) -> Seq<char> {
    dec_of(a.id as nat) + module_head() + a.compiled->Some_0.code@ + module_mid()
        + json_mapping_of(dep_pairs_of(a.compiled->Some_0.deps@)) + module_tail()
}

/// The module table: every asset's entry, in id order.
pub open spec fn module_table_text(assets: Seq<Asset>) -> Seq<char>
    decreases assets.len(),
{
    if assets.len() == 0 {
        Seq::empty()
    } else {
        module_table_text(assets.drop_last()) + module_entry_text(assets.last())
    }
}

/// The whole artifact: the loader shim applied to the module table.
pub open spec fn bundle_text(assets: Seq<Asset>) -> Seq<char> {
    bundle_head() + module_table_text(assets) + bundle_tail()
}

/// Renders the artifact text for a finished graph: the module table holds
/// one entry per asset, in id order, and is wrapped in the loader shim.
pub fn render_bundle(assets: &Vec<Asset>) -> (r: String)
    requires
        forall|i: int| 0 <= i < assets@.len() ==> (#[trigger] assets@[i]).compiled is Some,
    ensures
        r@ == bundle_text(assets@),
{
    let mut s = bundle_head_str().to_owned();
    proof {
        assert(assets@.take(0) =~= Seq::<Asset>::empty());
        assert(s@ =~= bundle_head() + module_table_text(assets@.take(0)));
    }
    let mut i: usize = 0;
    while i < assets.len()
        invariant
            forall|j: int| 0 <= j < assets@.len() ==> (#[trigger] assets@[j]).compiled is Some,
            i <= assets@.len(),
            s@ == bundle_head() + module_table_text(assets@.take(i as int)),
        decreases assets@.len() - i,
    {
        let id_str = u64_to_string(assets[i].id);
        s.append(id_str.as_str());
        s.append(module_head_str());
        if let Some(c) = &assets[i].compiled {
            s.append(c.code.as_str());
            s.append(module_mid_str());
            let mj = mapping_json(&c.deps);
            s.append(mj.as_str());
            s.append(module_tail_str());
        }
        proof {
            assert(assets@.take(i + 1).drop_last() =~= assets@.take(i as int));
            assert(assets@.take(i + 1).last() == assets@[i as int]);
            assert(s@ =~= bundle_head() + module_table_text(assets@.take(i + 1)));
        }
        i += 1;
    }
    proof {
        assert(assets@.take(assets@.len() as int) =~= assets@);
    }
    s.append(bundle_tail_str());
    proof {
        assert(s@ =~= bundle_text(assets@));
    }
    s
}

} // verus!
