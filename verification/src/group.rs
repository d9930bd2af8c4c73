//! The tree differ adapter: the per-parent diff events are filtered (no-op
//! changes and removals dropped) and the surviving (old, new) pairs are
//! grouped by path across all parents. Groups appear in the order in which
//! their path is first seen, scanning parents in order and each parent's
//! events in order, so the grouping is a function of the diff inputs alone.

use vstd::prelude::*;

use crate::types::{DiffEvent, MemberV, ObjectId, TreeMember};

verus! {

/// Mathematical image of one (old, new) pair for a path under one parent.
pub ghost struct PairV {
    pub old: Option<MemberV>,
    pub new: MemberV,
}

/// One (old, new) pair: the parent's version of the object, absent when the
/// path was added, and the commit's version.
pub struct DiffPair {
    pub old: Option<TreeMember>,
    pub new: TreeMember,
}

impl View for DiffPair {
    type V = PairV;

    open spec fn view(&self) -> PairV {
        PairV {
            old: match self.old {
                Some(m) => Some(m@),
                None => None,
            },
            new: self.new@,
        }
    }
}

/// All (path, pair) records one parent's diff contributes, in event order:
/// additions keep no old side, changes whose two sides are the same object
/// are dropped, removals are dropped.
pub open spec fn filtered_pairs(events: Seq<DiffEvent>) -> Seq<(Seq<u8>, PairV)>
    decreases events.len(),
{
    if events.len() == 0 {
        Seq::empty()
    } else {
        let rest = filtered_pairs(events.drop_last());
        match events.last() {
            DiffEvent::Added { path, new } => rest.push((path@, PairV { old: None, new: new@ })),
            DiffEvent::Changed { path, old, new } => {
                if old.oid@ == new.oid@ {
                    rest
                } else {
                    rest.push((path@, PairV { old: Some(old@), new: new@ }))
                }
            },
            DiffEvent::Removed { .. } => rest,
        }
    }
}

/// All (path, pair) records of all parents, parents in order.
pub open spec fn all_pairs(diffs: Seq<Vec<DiffEvent>>) -> Seq<(Seq<u8>, PairV)>
    decreases diffs.len(),
{
    if diffs.len() == 0 {
        Seq::empty()
    } else {
        all_pairs(diffs.drop_last()) + filtered_pairs(diffs.last()@)
    }
}

/// Whether `p` occurs among `ps`.
pub open spec fn path_in(ps: Seq<Seq<u8>>, p: Seq<u8>) -> bool {
    exists|i: int| 0 <= i < ps.len() && ps[i] == p
}

/// The distinct paths of the records, in order of first occurrence.
pub open spec fn distinct_paths(s: Seq<(Seq<u8>, PairV)>) -> Seq<Seq<u8>>
    decreases s.len(),
{
    if s.len() == 0 {
        Seq::empty()
    } else {
        let rest = distinct_paths(s.drop_last());
        if path_in(rest, s.last().0) {
            rest
        } else {
            rest.push(s.last().0)
        }
    }
}

/// The pairs recorded for path `p`, in record order.
pub open spec fn pairs_for(s: Seq<(Seq<u8>, PairV)>, p: Seq<u8>) -> Seq<PairV>
    decreases s.len(),
{
    if s.len() == 0 {
        Seq::empty()
    } else {
        let rest = pairs_for(s.drop_last(), p);
        if s.last().0 == p {
            rest.push(s.last().1)
        } else {
            rest
        }
    }
}

/// A path stands among the distinct paths exactly when some record names it.
pub proof fn lemma_distinct_paths_complete(s: Seq<(Seq<u8>, PairV)>, p: Seq<u8>)
    ensures
        path_in(distinct_paths(s), p) <==> exists|i: int| 0 <= i < s.len() && s[i].0 == p,
    decreases s.len(),
{
    if s.len() > 0 {
        lemma_distinct_paths_complete(s.drop_last(), p);
        if path_in(distinct_paths(s), p) && s.last().0 != p {
            assert(path_in(distinct_paths(s.drop_last()), p)) by {
                let k = choose|k: int|
                    0 <= k < distinct_paths(s).len() && distinct_paths(s)[k] == p;
                if !path_in(distinct_paths(s.drop_last()), s.last().0) {
                    if k < distinct_paths(s.drop_last()).len() {
                        assert(distinct_paths(s.drop_last())[k] == p);
                    }
                }
            }
            let i = choose|i: int| 0 <= i < s.drop_last().len() && s.drop_last()[i].0 == p;
            assert(s[i].0 == p);
        }
        if exists|i: int| 0 <= i < s.len() && s[i].0 == p {
            let i = choose|i: int| 0 <= i < s.len() && s[i].0 == p;
            if i < s.len() - 1 {
                assert(s.drop_last()[i].0 == p);
                let rest = distinct_paths(s.drop_last());
                let k = choose|k: int| 0 <= k < rest.len() && rest[k] == p;
                assert(distinct_paths(s)[k] == p);
            } else {
                if !path_in(distinct_paths(s.drop_last()), p) {
                    assert(distinct_paths(s).last() == p);
                }
            }
        }
    }
}

/// No path occurs twice among the distinct paths.
pub proof fn lemma_distinct_paths_distinct(s: Seq<(Seq<u8>, PairV)>)
    ensures
        forall|i: int, j: int|
            0 <= i < j < distinct_paths(s).len() ==> distinct_paths(s)[i] != distinct_paths(s)[j],
    decreases s.len(),
{
    if s.len() > 0 {
        lemma_distinct_paths_distinct(s.drop_last());
        let d = distinct_paths(s);
        let rest = distinct_paths(s.drop_last());
        assert forall|i: int, j: int| 0 <= i < j < d.len() implies d[i] != d[j] by {
            if j == d.len() - 1 && d.len() == rest.len() + 1 {
                if d[i] == d[j] {
                    assert(rest[i] == s.last().0);
                    assert(path_in(rest, s.last().0));
                }
            }
        }
    }
}

/// Every recorded path has at least one recorded pair: a grouped path with
/// no pairs cannot arise.
pub proof fn lemma_pairs_for_nonempty(s: Seq<(Seq<u8>, PairV)>, p: Seq<u8>)
    requires
        exists|i: int| 0 <= i < s.len() && s[i].0 == p,
    ensures
        pairs_for(s, p).len() > 0,
    decreases s.len(),
{
    if s.len() > 0 {
        if s.last().0 != p {
            let i = choose|i: int| 0 <= i < s.len() && s[i].0 == p;
            assert(s.drop_last()[i].0 == p);
            lemma_pairs_for_nonempty(s.drop_last(), p);
        }
    }
}

/// One grouped path: the path and all its (old, new) pairs across parents.
pub struct PathGroup {
    pub path: Vec<u8>,
    pub pairs: Vec<DiffPair>,
}

/// The views of a sequence of byte vectors.
pub open spec fn views_of(s: Seq<Vec<u8>>) -> Seq<Seq<u8>> {
    Seq::new(s.len(), |i: int| s[i]@)
}

/// The views of a sequence of pairs.
pub open spec fn pair_views(s: Seq<DiffPair>) -> Seq<PairV> {
    Seq::new(s.len(), |i: int| s[i]@)
}

/// The views of a sequence of (path, pair) records.
pub open spec fn record_views(s: Seq<(Vec<u8>, DiffPair)>) -> Seq<(Seq<u8>, PairV)> {
    Seq::new(s.len(), |i: int| (s[i].0@, s[i].1@))
}

/// A fresh copy of a tree member.
pub fn clone_member(m: &TreeMember) -> (r: TreeMember)
    ensures
        r@ == m@,
{
    TreeMember { oid: ObjectId { bytes: crate::bytes::copy_bytes(&m.oid.bytes) }, kind: m.kind }
}

/// A fresh copy of a pair.
pub fn clone_pair(p: &DiffPair) -> (r: DiffPair)
    ensures
        r@ == p@,
{
    DiffPair {
        old: match &p.old {
            Some(m) => Some(clone_member(m)),
            None => None,
        },
        new: clone_member(&p.new),
    }
}

/// Flatten the per-parent diffs into (path, pair) records, parents in
/// order, dropping removals and no-op changes.
fn flatten_diffs(parent_diffs: &Vec<Vec<DiffEvent>>) -> (r: Vec<(Vec<u8>, DiffPair)>)
    ensures
        record_views(r@) == all_pairs(parent_diffs@),
{
    let mut flat: Vec<(Vec<u8>, DiffPair)> = Vec::new();
    let mut k: usize = 0;
    while k < parent_diffs.len()
        invariant
            k <= parent_diffs.len(),
            record_views(flat@) == all_pairs(parent_diffs@.take(k as int)),
        decreases parent_diffs.len() - k,
    {
        let events = &parent_diffs[k];
        let mut j: usize = 0;
        while j < events.len()
            invariant
                j <= events.len(),
                k < parent_diffs.len(),
                events@ == parent_diffs@[k as int]@,
                record_views(flat@) == all_pairs(parent_diffs@.take(k as int)) + filtered_pairs(
                    events@.take(j as int),
                ),
            decreases events.len() - j,
        {
            proof {
                assert(events@.take(j + 1).drop_last() =~= events@.take(j as int));
                assert(events@.take(j + 1).last() == events@[j as int]);
            }
            let ghost prior = flat@;
            match &events[j] {
                DiffEvent::Added { path, new } => {
                    proof {
                        assert(events@[j as int] == DiffEvent::Added { path: *path, new: *new });
                    }
                    flat.push(
                        (
                            crate::bytes::copy_bytes(path),
                            DiffPair { old: None, new: clone_member(new) },
                        ),
                    );
                    proof {
                        assert(record_views(flat@) =~= record_views(prior).push(
                            (path@, PairV { old: None, new: new@ }),
                        ));
                    }
                },
                DiffEvent::Changed { path, old, new } => {
                    proof {
                        assert(events@[j as int] == DiffEvent::Changed {
                            path: *path,
                            old: *old,
                            new: *new,
                        });
                    }
                    if !crate::bytes::bytes_eq(&old.oid.bytes, &new.oid.bytes) {
                        flat.push(
                            (
                                crate::bytes::copy_bytes(path),
                                DiffPair { old: Some(clone_member(old)), new: clone_member(new) },
                            ),
                        );
                        proof {
                            assert(record_views(flat@) =~= record_views(prior).push(
                                (path@, PairV { old: Some(old@), new: new@ }),
                            ));
                        }
                    }
                },
                DiffEvent::Removed { .. } => {
                    proof {
                        assert(events@[j as int] matches DiffEvent::Removed { .. });
                    }
                },
            }
            j += 1;
            proof {
                assert(record_views(flat@) =~= all_pairs(parent_diffs@.take(k as int))
                    + filtered_pairs(events@.take(j as int)));
            }
        }
        k += 1;
        proof {
            assert(events@.take(events@.len() as int) =~= events@);
            assert(parent_diffs@.take(k as int).drop_last() =~= parent_diffs@.take(k - 1));
            assert(parent_diffs@.take(k as int).last() == parent_diffs@[k - 1]);
        }
    }
    proof {
        assert(parent_diffs@.take(parent_diffs@.len() as int) =~= parent_diffs@);
    }
    flat
}

/// Diff records grouped by path: one group per distinct path, groups in
/// first-occurrence order, each carrying that path's pairs in record order.
pub fn group_diffs_by_path(parent_diffs: &Vec<Vec<DiffEvent>>) -> (r: Vec<PathGroup>)
    ensures
        views_of(r@.map_values(|g: PathGroup| g.path)) == distinct_paths(all_pairs(parent_diffs@)),
        forall|i: int|
            0 <= i < r@.len() ==> pair_views(#[trigger] r@[i].pairs@) == pairs_for(
                all_pairs(parent_diffs@),
                r@[i].path@,
            ),
{
    let flat = flatten_diffs(parent_diffs);
    let ghost ap = all_pairs(parent_diffs@);

    // first pass: the distinct paths in first-occurrence order
    let mut paths: Vec<Vec<u8>> = Vec::new();
    let mut j: usize = 0;
    while j < flat.len()
        invariant
            j <= flat.len(),
            record_views(flat@) == ap,
            views_of(paths@) == distinct_paths(record_views(flat@.take(j as int))),
        decreases flat.len() - j,
    {
        let ghost pre = record_views(flat@.take(j as int));
        proof {
            assert(record_views(flat@.take(j + 1)).drop_last() =~= pre);
            assert(record_views(flat@.take(j + 1)).last() == (flat@[j as int].0@, flat@[j
                as int].1@));
        }
        let mut seen = false;
        let mut t: usize = 0;
        while t < paths.len()
            invariant
                t <= paths.len(),
                j < flat.len(),
                seen <==> exists|u: int| 0 <= u < t && paths@[u]@ == flat@[j as int].0@,
            decreases paths.len() - t,
        {
            if crate::bytes::bytes_eq(&paths[t], &flat[j].0) {
                seen = true;
                proof {
                    assert(paths@[t as int]@ == flat@[j as int].0@);
                }
            }
            t += 1;
        }
        proof {
            if seen {
                let u = choose|u: int| 0 <= u < paths@.len() && paths@[u]@ == flat@[j as int].0@;
                assert(views_of(paths@)[u] == flat@[j as int].0@);
                assert(path_in(views_of(paths@), flat@[j as int].0@));
            } else {
                if path_in(views_of(paths@), flat@[j as int].0@) {
                    let u = choose|u: int|
                        0 <= u < views_of(paths@).len() && views_of(paths@)[u] == flat@[j
                            as int].0@;
                    assert(paths@[u]@ == flat@[j as int].0@);
                }
            }
        }
        if !seen {
            let ghost prior = paths@;
            paths.push(crate::bytes::copy_bytes(&flat[j].0));
            proof {
                assert(views_of(paths@) =~= views_of(prior).push(flat@[j as int].0@));
            }
        }
        j += 1;
    }
    proof {
        assert(flat@.take(flat@.len() as int) =~= flat@);
    }

    // second pass: collect each path's pairs in record order
    let mut groups: Vec<PathGroup> = Vec::new();
    let mut g: usize = 0;
    while g < paths.len()
        invariant
            g <= paths.len(),
            record_views(flat@) == ap,
            views_of(paths@) == distinct_paths(ap),
            groups@.len() == g,
            forall|i: int| 0 <= i < g ==> #[trigger] groups@[i].path@ == paths@[i]@,
            forall|i: int|
                0 <= i < g ==> pair_views(#[trigger] groups@[i].pairs@) == pairs_for(
                    ap,
                    groups@[i].path@,
                ),
        decreases paths.len() - g,
    {
        let mut pairs: Vec<DiffPair> = Vec::new();
        let mut j2: usize = 0;
        while j2 < flat.len()
            invariant
                j2 <= flat.len(),
                g < paths.len(),
                pair_views(pairs@) == pairs_for(
                    record_views(flat@.take(j2 as int)),
                    paths@[g as int]@,
                ),
            decreases flat.len() - j2,
        {
            proof {
                assert(record_views(flat@.take(j2 + 1)).drop_last() =~= record_views(
                    flat@.take(j2 as int),
                ));
                assert(record_views(flat@.take(j2 + 1)).last() == (flat@[j2 as int].0@, flat@[j2
                    as int].1@));
            }
            if crate::bytes::bytes_eq(&flat[j2].0, &paths[g]) {
                let ghost prior = pairs@;
                pairs.push(clone_pair(&flat[j2].1));
                proof {
                    assert(pair_views(pairs@) =~= pair_views(prior).push(flat@[j2 as int].1@));
                }
            }
            j2 += 1;
        }
        proof {
            assert(flat@.take(flat@.len() as int) =~= flat@);
        }
        groups.push(PathGroup { path: crate::bytes::copy_bytes(&paths[g]), pairs });
        g += 1;
    }
    proof {
        let gp = groups@.map_values(|gr: PathGroup| gr.path);
        assert(views_of(gp) =~= views_of(paths@));
    }
    groups
}

} // verus!
