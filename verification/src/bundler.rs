use vstd::prelude::*;

use crate::asset::{
    dep_map_of, lemma_dep_map_push, lemma_dep_map_update, resolved_map_of,
    specifiers_unique, Asset, Compiled, Dep, ResolvedImport,
};

verus! {

/// The state of one bundling run: the asset graph (a vector indexed by
/// asset id, so ids are dense and assigned in discovery order) and the
/// process queue of ids whose files still await processing.
pub struct Bundler {
    pub assets: Vec<Asset>,
    pub queue: Vec<u64>,
}

impl Bundler {
    /// Ids are dense: the asset stored at index `i` carries id `i`.
    pub open spec fn ids_dense(self) -> bool {
        forall|i: int|
            0 <= i < self.assets@.len() ==> (#[trigger] self.assets@[i]).id == i as u64
    }

    /// At most one asset per canonical path.
    pub open spec fn paths_unique(self) -> bool {
        forall|i: int, j: int|
            0 <= i < j < self.assets@.len()
                ==> self.assets@[i].path@ != self.assets@[j].path@
    }

    /// The queue holds exactly the pending assets' ids, each once.
    pub open spec fn queue_wf(self) -> bool {
        &&& forall|k: int|
            0 <= k < self.queue@.len() ==> (#[trigger] self.queue@[k]) < self.assets@.len()
        &&& forall|k: int|
            0 <= k < self.queue@.len()
                ==> self.assets@[#[trigger] self.queue@[k] as int].compiled is None
        &&& forall|k: int, l: int|
            0 <= k < l < self.queue@.len() ==> self.queue@[k] != self.queue@[l]
        &&& forall|i: int|
            0 <= i < self.assets@.len() && (#[trigger] self.assets@[i]).compiled is None
                ==> self.queue@.contains(i as u64)
    }

    /// Every recorded dependency edge points at an asset of the graph, and
    /// no asset maps one specifier twice.
    pub open spec fn deps_wf(self) -> bool {
        forall|i: int|
            0 <= i < self.assets@.len() && (#[trigger] self.assets@[i]).compiled is Some
                ==> {
                    &&& crate::asset::specifiers_unique(self.assets@[i].compiled->Some_0.deps@)
                    &&& forall|k: int|
                        0 <= k < self.assets@[i].compiled->Some_0.deps@.len()
                            ==> (#[trigger] self.assets@[i].compiled->Some_0.deps@[k]).asset_id
                                < self.assets@.len()
                }
    }

    /// Well-formedness of a bundling run; established by `new` and kept by
    /// every operation.
    pub open spec fn wf(self) -> bool {
        &&& self.assets@.len() >= 1
        &&& self.ids_dense()
        &&& self.paths_unique()
        &&& self.queue_wf()
        &&& self.deps_wf()
    }

    /// Some asset of the graph has this canonical path.
    pub open spec fn has_path(self, p: Seq<char>) -> bool {
        exists|i: int|
            0 <= i < self.assets@.len() && (#[trigger] self.assets@[i]).path@ == p
    }

    /// The index (equally, the id) of the asset with this canonical path.
    pub open spec fn id_of(self, p: Seq<char>) -> int {
        choose|i: int|
            0 <= i < self.assets@.len() && (#[trigger] self.assets@[i]).path@ == p
    }

    /// The traversal is finished: no asset awaits processing.
    pub open spec fn done(self) -> bool {
        self.queue@.len() == 0
    }

    /// Starts a bundling run on the given entry file: the entry asset is
    /// created first, so it receives id 0, and it is the one pending item.
    pub fn new(entry_file_path: String) -> (b: Bundler)
        ensures
            b.wf(),
            b.assets@.len() == 1,
            b.assets@[0].id == 0,
            b.assets@[0].path@ == entry_file_path@,
            b.assets@[0].compiled is None,
            b.queue@.len() == 1,
            b.queue@[0] == 0,
    {
        let mut assets: Vec<Asset> = Vec::new();
        assets.push(Asset { id: 0, path: entry_file_path, compiled: None });
        let mut queue: Vec<u64> = Vec::new();
        queue.push(0);
        proof {
            assert(queue@.contains(0u64)) by {
                assert(queue@[0] == 0u64);
            }
        }
        Bundler { assets, queue }
    }

    /// Looks the canonical path up in the graph; `Some(i)` names the one
    /// asset stored for it, `None` says no asset has it.
    pub fn find_asset(&self, path: &String) -> (r: Option<usize>)
        ensures
            match r {
                Some(i) => i < self.assets@.len() && self.assets@[i as int].path@ == path@,
                None => forall|i: int|
                    0 <= i < self.assets@.len() ==> (#[trigger] self.assets@[i]).path@ != path@,
            },
            r is Some <==> self.has_path(path@),
    {
        let mut i: usize = 0;
        while i < self.assets.len()
            invariant
                i <= self.assets@.len(),
                forall|j: int| 0 <= j < i ==> (#[trigger] self.assets@[j]).path@ != path@,
            decreases self.assets@.len() - i,
        {
            if self.assets[i].path == *path {
                return Some(i);
            }
            i += 1;
        }
        None
    }

    /// Obtains the asset for `path`, creating it if the graph holds none.
    ///
    /// An existing path returns its asset's id and changes nothing — this
    /// idempotence is what lets cyclic imports terminate. A new path is
    /// assigned the next sequential id (so ids stay dense, in order of first
    /// discovery), stored in the graph as pending, and enqueued.
    pub fn create_asset(&mut self, path: String) -> (id: u64)
        requires
            old(self).wf(),
        ensures
            final(self).wf(),
            // existing assets are untouched
            final(self).assets@.len() >= old(self).assets@.len(),
            forall|i: int|
                0 <= i < old(self).assets@.len()
                    ==> final(self).assets@[i] == old(self).assets@[i],
            // the returned id names the one asset carrying this path
            (id as int) < final(self).assets@.len(),
            final(self).assets@[id as int].path@ == path@,
            final(self).has_path(path@),
            // a known path: the run is left exactly as it was
            old(self).has_path(path@) ==> *final(self) == *old(self),
            // a new path: one pending asset is appended and enqueued
            !old(self).has_path(path@) ==> {
                &&& id == old(self).assets@.len()
                &&& final(self).assets@.len() == old(self).assets@.len() + 1
                &&& final(self).assets@[id as int].id == id
                &&& final(self).assets@[id as int].compiled is None
                &&& final(self).queue@ =~= old(self).queue@.push(id)
            },
    {
        match self.find_asset(&path) {
            Some(i) => {
                let id = self.assets[i].id;
                id
            },
            None => {
                let id = self.assets.len() as u64;
                self.assets.push(Asset { id, path, compiled: None });
                self.queue.push(id);
                proof {
                    let pre = *old(self);
                    assert forall|k: int|
                        0 <= k < self.queue@.len() implies (#[trigger] self.queue@[k])
                        < self.assets@.len() by {
                        if k < pre.queue@.len() {
                            assert(pre.queue@[k] < pre.assets@.len());
                        }
                    }
                    assert forall|i: int|
                        0 <= i < self.assets@.len() && (#[trigger] self.assets@[i]).compiled
                            is None implies self.queue@.contains(i as u64) by {
                        if i < pre.assets@.len() {
                            assert(pre.queue@.contains(i as u64));
                            let w = choose|k: int|
                                0 <= k < pre.queue@.len() && pre.queue@[k] == i as u64;
                            assert(self.queue@[w] == i as u64);
                        } else {
                            assert(self.queue@[self.queue@.len() - 1] == i as u64);
                        }
                    }
                }
                id
            },
        }
    }

    /// Hands out the asset to process next: its id and canonical path, or
    /// `None` once the traversal is done. The asset stays queued until
    /// `process_asset` commits its results.
    pub fn next_pending(&self) -> (r: Option<(u64, String)>)
        requires
            self.wf(),
        ensures
            r is Some <==> !self.done(),
            match r {
                Some(p) => {
                    &&& p.0 == self.queue@.last()
                    &&& (p.0 as int) < self.assets@.len()
                    &&& p.1@ == self.assets@[p.0 as int].path@
                    &&& self.assets@[p.0 as int].compiled is None
                },
                None => true,
            },
    {
        if self.queue.len() == 0 {
            None
        } else {
            let id = self.queue[self.queue.len() - 1];
            proof {
                assert(self.assets.len() == self.assets@.len());
                assert((self.queue@[self.queue@.len() - 1] as int) < self.assets@.len());
            }
            let path = self.assets[id as usize].path.clone();
            Some((id, path))
        }
    }

    /// Commits the processing results for the asset handed out last by
    /// `next_pending`: records one dependency edge per resolved import (a
    /// later import overwrites an earlier one with the same specifier),
    /// creating and enqueueing an asset for every resolved path the graph
    /// does not hold yet, attaches the compiled code, and removes the asset
    /// from the queue.
    pub fn process_asset(&mut self, id: u64, resolved: Vec<ResolvedImport>, code: String)
        requires
            old(self).wf(),
            !old(self).done(),
            id == old(self).queue@.last(),
        ensures
            final(self).wf(),
            // the graph only grows; every existing asset keeps its id and
            // path, and only this asset gains its output
            final(self).assets@.len() >= old(self).assets@.len(),
            forall|i: int|
                0 <= i < old(self).assets@.len() ==> {
                    &&& (#[trigger] final(self).assets@[i]).id == old(self).assets@[i].id
                    &&& final(self).assets@[i].path@ == old(self).assets@[i].path@
                },
            forall|i: int|
                0 <= i < old(self).assets@.len() && i != id as int
                    ==> (#[trigger] final(self).assets@[i]).compiled
                        == old(self).assets@[i].compiled,
            // the asset is now processed and carries this code
            final(self).assets@[id as int].compiled is Some,
            final(self).assets@[id as int].compiled->Some_0.code@ == code@,
            // its dependency map pairs each import's specifier with the id
            // of the one asset holding that import's resolved path
            ({
                let m = dep_map_of(final(self).assets@[id as int].compiled->Some_0.deps@);
                let rm = resolved_map_of(resolved@);
                &&& m.dom() =~= rm.dom()
                &&& forall|s: Seq<char>|
                    #[trigger] m.dom().contains(s) ==> {
                        &&& (m[s] as int) < final(self).assets@.len()
                        &&& final(self).assets@[m[s] as int].path@ == rm[s]
                    }
            }),
            // every resolved path now has an asset in the graph
            forall|k: int|
                0 <= k < resolved@.len()
                    ==> final(self).has_path((#[trigger] resolved@[k]).path@),
            // assets created now are pending dependencies discovered here
            forall|i: int|
                old(self).assets@.len() <= i < final(self).assets@.len() ==> {
                    &&& (#[trigger] final(self).assets@[i]).compiled is None
                    &&& exists|k: int|
                        0 <= k < resolved@.len() && (#[trigger] resolved@[k]).path@
                            == final(self).assets@[i].path@
                },
            // the processed id leaves the queue; the newly discovered ids
            // join it in discovery order
            final(self).queue@ =~= old(self).queue@.drop_last() + Seq::new(
                (final(self).assets@.len() - old(self).assets@.len()) as nat,
                |j: int| (old(self).assets@.len() + j) as u64,
            ),
            // each step strictly advances the traversal
            2 * final(self).assets@.len() - final(self).queue@.len() >= 2 * old(
                self,
            ).assets@.len() - old(self).queue@.len() + 1,
    {
        let ghost pre = *old(self);
        proof {
            assert(self.queue@[self.queue@.len() - 1] == pre.queue@.last());
            assert((id as int) < self.assets@.len());
        }
        let qpos = self.queue.len() - 1;
        let mut deps: Vec<Dep> = Vec::new();
        let mut k: usize = 0;
        proof {
            assert(self.queue@ =~= pre.queue@ + Seq::new(
                (self.assets@.len() - pre.assets@.len()) as nat,
                |j: int| (pre.assets@.len() + j) as u64,
            ));
            assert(resolved@.take(0) =~= Seq::<ResolvedImport>::empty());
        }
        while k < resolved.len()
            invariant
                self.wf(),
                pre.wf(),
                pre.queue@.len() >= 1,
                qpos == pre.queue@.len() - 1,
                id == pre.queue@.last(),
                (id as int) < pre.assets@.len(),
                k <= resolved@.len(),
                self.assets@.len() >= pre.assets@.len(),
                forall|i: int|
                    0 <= i < pre.assets@.len()
                        ==> #[trigger] self.assets@[i] == pre.assets@[i],
                self.queue@ =~= pre.queue@ + Seq::new(
                    (self.assets@.len() - pre.assets@.len()) as nat,
                    |j: int| (pre.assets@.len() + j) as u64,
                ),
                forall|i: int|
                    pre.assets@.len() <= i < self.assets@.len() ==> {
                        &&& (#[trigger] self.assets@[i]).compiled is None
                        &&& exists|k2: int|
                            0 <= k2 < k && (#[trigger] resolved@[k2]).path@
                                == self.assets@[i].path@
                    },
                specifiers_unique(deps@),
                forall|j: int|
                    0 <= j < deps@.len()
                        ==> ((#[trigger] deps@[j]).asset_id as int) < self.assets@.len(),
                dep_map_of(deps@).dom() =~= resolved_map_of(resolved@.take(k as int)).dom(),
                forall|s: Seq<char>|
                    #[trigger] dep_map_of(deps@).dom().contains(s) ==> {
                        &&& (dep_map_of(deps@)[s] as int) < self.assets@.len()
                        &&& self.assets@[dep_map_of(deps@)[s] as int].path@
                            == resolved_map_of(resolved@.take(k as int))[s]
                    },
                forall|k2: int|
                    0 <= k2 < k ==> self.has_path((#[trigger] resolved@[k2]).path@),
            decreases resolved@.len() - k,
        {
            let specifier = resolved[k].specifier.clone();
            let dep_path = resolved[k].path.clone();
            let ghost mid = *self;
            let ghost deps_pre = deps@;
            let dep_id = self.create_asset(dep_path);
            proof {
                // the graph kept every earlier asset, so earlier facts carry over
                assert forall|s: Seq<char>|
                    #[trigger] dep_map_of(deps@).dom().contains(s) implies {
                    &&& (dep_map_of(deps@)[s] as int) < self.assets@.len()
                    &&& self.assets@[dep_map_of(deps@)[s] as int].path@
                        == resolved_map_of(resolved@.take(k as int))[s]
                } by {
                    assert(self.assets@[dep_map_of(deps@)[s] as int]
                        == mid.assets@[dep_map_of(deps@)[s] as int]);
                }
                assert forall|k2: int| 0 <= k2 < k implies self.has_path(
                    (#[trigger] resolved@[k2]).path@,
                ) by {
                    let w = choose|i: int|
                        0 <= i < mid.assets@.len() && (#[trigger] mid.assets@[i]).path@
                            == resolved@[k2].path@;
                    assert(self.assets@[w].path@ == resolved@[k2].path@);
                }
                if !mid.has_path(resolved@[k as int].path@) {
                    assert(self.queue@ =~= pre.queue@ + Seq::new(
                        (self.assets@.len() - pre.assets@.len()) as nat,
                        |j: int| (pre.assets@.len() + j) as u64,
                    ));
                }
                assert(self.assets@[dep_id as int].path@ == resolved@[k as int].path@);
            }
            match find_dep(&deps, &specifier) {
                Some(j) => {
                    deps[j] = Dep { specifier, asset_id: dep_id };
                    proof {
                        lemma_dep_map_update(deps_pre, j as int, deps@[j as int]);
                    }
                },
                None => {
                    deps.push(Dep { specifier, asset_id: dep_id });
                    proof {
                        lemma_dep_map_push(deps_pre, deps@.last());
                    }
                },
            }
            proof {
                assert(deps@.last() == deps@[deps@.len() - 1]);
                assert(resolved@.take(k + 1).drop_last() =~= resolved@.take(k as int));
                assert(resolved@.take(k + 1).last() == resolved@[k as int]);
                assert(resolved_map_of(resolved@.take(k + 1)) == resolved_map_of(
                    resolved@.take(k as int),
                ).insert(resolved@[k as int].specifier@, resolved@[k as int].path@));
                assert(dep_map_of(deps@) =~= dep_map_of(deps_pre).insert(
                    resolved@[k as int].specifier@,
                    dep_id,
                ));
                assert(dep_map_of(deps@).dom() =~= resolved_map_of(
                    resolved@.take(k + 1),
                ).dom());
                assert forall|s: Seq<char>|
                    #[trigger] dep_map_of(deps@).dom().contains(s) implies {
                    &&& (dep_map_of(deps@)[s] as int) < self.assets@.len()
                    &&& self.assets@[dep_map_of(deps@)[s] as int].path@
                        == resolved_map_of(resolved@.take(k + 1))[s]
                } by {
                    if s != resolved@[k as int].specifier@ {
                        assert(dep_map_of(deps_pre).dom().contains(s));
                    }
                }
            }
            k += 1;
        }
        proof {
            assert(resolved@.take(resolved@.len() as int) =~= resolved@);
            assert(self.assets.len() == self.assets@.len());
            assert((id as int) < self.assets@.len());
        }
        let idu = id as usize;
        let path_copy = self.assets[idu].path.clone();
        let ghost grown = *self;
        self.assets[idu] = Asset { id, path: path_copy, compiled: Some(
            Compiled { code, deps },
        ) };
        proof {
            assert(self.queue@.len() == grown.queue@.len());
            assert(qpos < self.queue@.len());
        }
        self.queue.remove(qpos);
        proof {
            let post = *self;
            let fresh = Seq::new(
                (post.assets@.len() - pre.assets@.len()) as nat,
                |j: int| (pre.assets@.len() + j) as u64,
            );
            // shape of the final queue
            assert(grown.queue@[qpos as int] == id);
            assert forall|i: int| 0 <= i < post.queue@.len() implies #[trigger] post.queue@[i]
                == (pre.queue@.drop_last() + fresh)[i] by {
                if i < qpos {
                    assert(post.queue@[i] == grown.queue@[i]);
                } else {
                    assert(post.queue@[i] == grown.queue@[i + 1]);
                }
            }
            assert(post.queue@ =~= pre.queue@.drop_last() + fresh);
            // well-formedness of the finished state
            assert(self.assets.len() == self.assets@.len());
            assert(idu as int == id as int);
            assert forall|i: int|
                0 <= i < post.assets@.len() implies (#[trigger] post.assets@[i]).id
                == i as u64 by {
                if i != id as int {
                    assert(post.assets@[i] == grown.assets@[i]);
                }
            }
            assert(post.ids_dense());
            assert forall|i: int, j: int|
                0 <= i < j < post.assets@.len() implies post.assets@[i].path@
                != post.assets@[j].path@ by {
                assert(post.assets@[i].path@ == grown.assets@[i].path@);
                assert(post.assets@[j].path@ == grown.assets@[j].path@);
            }
            assert forall|w: int| 0 <= w < post.queue@.len() implies {
                &&& ((#[trigger] post.queue@[w]) as int) < post.assets@.len()
                &&& post.assets@[post.queue@[w] as int].compiled is None
            } by {
                if w < qpos {
                    assert(post.queue@[w] == grown.queue@[w]);
                } else {
                    assert(post.queue@[w] == grown.queue@[w + 1]);
                }
                assert(post.queue@[w] != id);
            }
            assert forall|w: int, x: int|
                0 <= w < x < post.queue@.len() implies post.queue@[w] != post.queue@[x] by {
                let w2: int = if w < qpos { w } else { w + 1 };
                let x2: int = if x < qpos { x } else { x + 1 };
                assert(post.queue@[w] == grown.queue@[w2]);
                assert(post.queue@[x] == grown.queue@[x2]);
            }
            assert forall|i: int|
                0 <= i < post.assets@.len() && (#[trigger] post.assets@[i]).compiled
                    is None implies post.queue@.contains(i as u64) by {
                assert(grown.assets@[i].compiled is None);
                assert(grown.queue@.contains(i as u64));
                let w = choose|w: int|
                    0 <= w < grown.queue@.len() && grown.queue@[w] == i as u64;
                assert(i != id as int);
                assert(w != qpos);
                if w < qpos {
                    assert(post.queue@[w] == i as u64);
                } else {
                    assert(post.queue@[w - 1] == grown.queue@[w]);
                }
            }
            assert forall|i: int|
                0 <= i < post.assets@.len() && (#[trigger] post.assets@[i]).compiled
                    is Some implies {
                &&& specifiers_unique(post.assets@[i].compiled->Some_0.deps@)
                &&& forall|kk: int|
                    0 <= kk < post.assets@[i].compiled->Some_0.deps@.len()
                        ==> ((#[trigger] post.assets@[i].compiled->Some_0.deps@[kk]).asset_id
                            as int) < post.assets@.len()
            } by {
                if i != id as int {
                    assert(post.assets@[i] == grown.assets@[i]);
                    assert(grown.assets@[i].compiled is Some);
                }
            }
            assert(post.wf());
            // the dependency map of the processed asset, over the final state
            assert forall|s: Seq<char>|
                #[trigger] dep_map_of(post.assets@[id as int].compiled->Some_0.deps@)
                    .dom().contains(s) implies {
                let m = dep_map_of(post.assets@[id as int].compiled->Some_0.deps@);
                let rm = resolved_map_of(resolved@);
                &&& (m[s] as int) < post.assets@.len()
                &&& post.assets@[m[s] as int].path@ == rm[s]
            } by {
                let m = dep_map_of(post.assets@[id as int].compiled->Some_0.deps@);
                assert(post.assets@[m[s] as int].path@ == grown.assets@[m[s] as int].path@);
            }
            // every resolved path still has its asset
            assert forall|kk: int| 0 <= kk < resolved@.len() implies post.has_path(
                (#[trigger] resolved@[kk]).path@,
            ) by {
                let w = choose|i: int|
                    0 <= i < grown.assets@.len() && (#[trigger] grown.assets@[i]).path@
                        == resolved@[kk].path@;
                assert(post.assets@[w].path@ == resolved@[kk].path@);
            }
        }
    }

    /// Packages a finished graph: the result holds the artifact text
    /// exactly when the traversal is done, and is `None` while an asset is
    /// still pending, so no artifact can come from an unfinished build.
    pub fn bundle(&self) -> (r: Option<String>)
        requires
            self.wf(),
        ensures
            r is Some <==> self.done(),
            r matches Some(s) ==> s@ == crate::emit::bundle_text(self.assets@),
    {
        if self.queue.len() == 0 {
            proof {
                assert(self.assets.len() == self.assets@.len());
                assert forall|i: int|
                    0 <= i < self.assets@.len() implies (#[trigger] self.assets@[i]).compiled
                    is Some by {
                    if self.assets@[i].compiled is None {
                        assert(self.queue@.contains(i as u64));
                    }
                }
            }
            Some(crate::emit::render_bundle(&self.assets))
        } else {
            None
        }
    }
}

/// Law: one asset per canonical path — two graph indices holding the same
/// path are the same index.
pub proof fn lemma_path_dedup(b: Bundler, i: int, j: int)
    requires
        b.wf(),
        0 <= i < b.assets@.len(),
        0 <= j < b.assets@.len(),
        b.assets@[i].path@ == b.assets@[j].path@,
    ensures
        i == j,
{
}

/// Law: any two dependency edges, in the same or in different assets, whose
/// target assets hold the same canonical path reference one and the same
/// asset id.
pub proof fn lemma_dep_dedup(b: Bundler, i: int, ki: int, j: int, kj: int)
    requires
        b.wf(),
        0 <= i < b.assets@.len(),
        b.assets@[i].compiled is Some,
        0 <= ki < b.assets@[i].compiled->Some_0.deps@.len(),
        0 <= j < b.assets@.len(),
        b.assets@[j].compiled is Some,
        0 <= kj < b.assets@[j].compiled->Some_0.deps@.len(),
        b.assets@[b.assets@[i].compiled->Some_0.deps@[ki].asset_id as int].path@
            == b.assets@[b.assets@[j].compiled->Some_0.deps@[kj].asset_id as int].path@,
    ensures
        b.assets@[i].compiled->Some_0.deps@[ki].asset_id
            == b.assets@[j].compiled->Some_0.deps@[kj].asset_id,
{
    lemma_path_dedup(
        b,
        b.assets@[i].compiled->Some_0.deps@[ki].asset_id as int,
        b.assets@[j].compiled->Some_0.deps@[kj].asset_id as int,
    );
}

/// Law: the entry file's asset carries id 0, however many assets the run
/// has discovered since — the entry is created first, ids are dense, and
/// every operation keeps the ids and paths of existing assets.
pub proof fn lemma_entry_id(b: Bundler)
    requires
        b.wf(),
    ensures
        b.assets@.len() >= 1,
        b.assets@[0].id == 0,
{
}

/// Law: the ids assigned across a run form the dense sequence 0..N-1, with
/// no repeats, in order of first discovery — the asset stored at graph
/// index `i` carries id `i`.
pub proof fn lemma_ids_dense(b: Bundler)
    requires
        b.wf(),
    ensures
        forall|i: int| 0 <= i < b.assets@.len() ==> (#[trigger] b.assets@[i]).id == i as u64,
        forall|i: int, j: int|
            0 <= i < j < b.assets@.len() ==> b.assets@[i].id != b.assets@[j].id,
{
    assert(b.assets.len() == b.assets@.len());
    assert forall|i: int, j: int|
        0 <= i < j < b.assets@.len() implies b.assets@[i].id != b.assets@[j].id by {
        assert(b.assets@[i].id == i as u64);
        assert(b.assets@[j].id == j as u64);
    }
}

/// Law: the queue never outgrows the graph. Together with the strict
/// progress guarantee of `process_asset` and the idempotence of
/// `create_asset` this bounds a run over finitely many reachable paths:
/// cyclic imports enqueue no asset twice, so the traversal terminates.
pub proof fn lemma_queue_bounded(b: Bundler)
    requires
        b.wf(),
    ensures
        b.queue@.len() <= b.assets@.len(),
{
    let ints = b.queue@.map_values(|x: u64| x as int);
    assert(ints.no_duplicates());
    ints.unique_seq_to_set();
    let range = vstd::set_lib::set_int_range(0, b.assets@.len() as int);
    vstd::set_lib::lemma_int_range(0, b.assets@.len() as int);
    assert forall|x: int| ints.to_set().contains(x) implies range.contains(x) by {
        let w = choose|w: int| 0 <= w < ints.len() && ints[w] == x;
        assert(b.queue@[w] == x as u64);
    }
    vstd::set_lib::lemma_len_subset(ints.to_set(), range);
}

/// Position of the dependency edge already carrying `specifier`, if any.
fn find_dep(deps: &Vec<Dep>, specifier: &String) -> (r: Option<usize>)
    ensures
        match r {
            Some(j) => j < deps@.len() && deps@[j as int].specifier@ == specifier@,
            None => forall|j: int|
                0 <= j < deps@.len() ==> (#[trigger] deps@[j]).specifier@ != specifier@,
        },
{
    let mut j: usize = 0;
    while j < deps.len()
        invariant
            j <= deps@.len(),
            forall|l: int| 0 <= l < j ==> (#[trigger] deps@[l]).specifier@ != specifier@,
        decreases deps@.len() - j,
    {
        if deps[j].specifier == *specifier {
            return Some(j);
        }
        j += 1;
    }
    None
}

} // verus!
