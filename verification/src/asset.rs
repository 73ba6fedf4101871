use vstd::prelude::*;

verus! {

/// One dependency edge of an asset: the literal specifier written in an
/// import statement, and the id of the asset that the specifier resolved to.
pub struct Dep {
    pub specifier: String,
    pub asset_id: u64,
}

/// What processing attaches to an asset, exactly once: the compiled source
/// text and the specifier-to-asset dependency map.
pub struct Compiled {
    pub code: String,
    pub deps: Vec<Dep>,
}

/// One source file discovered during the traversal: an immutable identity
/// (the id assigned at first discovery and the canonical path used for
/// deduplication) plus, once the file has been processed, its output.
pub struct Asset {
    pub id: u64,
    pub path: String,
    pub compiled: Option<Compiled>,
}

/// An import of one source file after resolution: the literal specifier and
/// the canonical path of the file it refers to.
pub struct ResolvedImport {
    pub specifier: String,
    pub path: String,
}

/// The dependency edges read as a mathematical map from specifier to asset
/// id; a later edge for the same specifier overwrites an earlier one.
pub open spec fn dep_map_of(deps: Seq<Dep>) -> Map<Seq<char>, u64>
    decreases deps.len(),
{
    if deps.len() == 0 {
        Map::empty()
    } else {
        dep_map_of(deps.drop_last()).insert(deps.last().specifier@, deps.last().asset_id)
    }
}

/// The resolved imports read as a mathematical map from specifier to
/// resolved path; a later import for the same specifier overwrites an
/// earlier one.
pub open spec fn resolved_map_of(imports: Seq<ResolvedImport>) -> Map<Seq<char>, Seq<char>>
    decreases imports.len(),
{
    if imports.len() == 0 {
        Map::empty()
    } else {
        resolved_map_of(imports.drop_last()).insert(
            imports.last().specifier@,
            imports.last().path@,
        )
    }
}

/// No two dependency edges carry the same specifier.
pub open spec fn specifiers_unique(deps: Seq<Dep>) -> bool {
    forall|k: int, l: int|
        0 <= k < l < deps.len() ==> deps[k].specifier@ != deps[l].specifier@
}

/// Appending one edge inserts its pair into the dependency map.
pub proof fn lemma_dep_map_push(deps: Seq<Dep>, d: Dep)
    ensures
        dep_map_of(deps.push(d)) == dep_map_of(deps).insert(d.specifier@, d.asset_id),
{
    assert(deps.push(d).drop_last() =~= deps);
    assert(deps.push(d).last() == d);
}

/// Overwriting the edge that already carries a specifier acts on the
/// dependency map as inserting the new pair for that specifier.
pub proof fn lemma_dep_map_update(deps: Seq<Dep>, j: int, d: Dep)
    requires
        specifiers_unique(deps),
        0 <= j < deps.len(),
        d.specifier@ == deps[j].specifier@,
    ensures
        dep_map_of(deps.update(j, d)) =~= dep_map_of(deps).insert(d.specifier@, d.asset_id),
    decreases deps.len(),
{
    if j == deps.len() - 1 {
        assert(deps.update(j, d).drop_last() =~= deps.drop_last());
        assert(deps.update(j, d).last() == d);
        assert(deps.drop_last() =~= deps.update(j, d).drop_last());
        assert(dep_map_of(deps.update(j, d)) =~= dep_map_of(deps.drop_last()).insert(
            d.specifier@,
            d.asset_id,
        ));
    } else {
        let prefix = deps.drop_last();
        let last = deps.last();
        assert(deps.update(j, d).drop_last() =~= prefix.update(j, d));
        assert(deps.update(j, d).last() == last);
        assert(specifiers_unique(prefix));
        lemma_dep_map_update(prefix, j, d);
        // the two inserted keys differ, so the inserts commute
        assert(last.specifier@ != d.specifier@);
        assert(dep_map_of(deps.update(j, d)) =~= dep_map_of(deps).insert(
            d.specifier@,
            d.asset_id,
        ));
    }
}

} // verus!
