//! The layering engine: assigns every target a height for layout ordering,
//! then re-sorts the list by ascending height.
//!
//! Height zero belongs to the targets with no recorded dependency list.
//! Layer by layer from height one on, a not-yet-placed target joins the
//! current layer when any of its edges ends at a target of the immediately
//! preceding layer — first match wins, deeper chains through other edges are
//! deliberately not considered — and the walk stops at the first empty
//! layer.

use vstd::multiset::Multiset;
use vstd::pervasive::VecAdditionalExecFns;
use vstd::prelude::*;

use crate::model::{deps_of, edge_ends_at, Dep, DepModel, Target, TargetModel};

verus! {

/// The bottom layer: targets with no recorded dependency list.
pub open spec fn layer0(ts: Seq<TargetModel>) -> Set<int> {
    Set::new(|i: int| 0 <= i < ts.len() && ts[i].dependencies is None)
}

/// The edge `d` ends at some target of the layer.
pub open spec fn dep_in_layer(ts: Seq<TargetModel>, d: DepModel, layer: Set<int>) -> bool {
    exists|j: int| 0 <= j < ts.len() && layer.contains(j) && edge_ends_at(#[trigger] ts[j], d)
}

/// Target `i` joins the next layer: one of its edges ends in the previous
/// one.
pub open spec fn qualifies(ts: Seq<TargetModel>, i: int, prev: Set<int>) -> bool {
    exists|k: int|
        0 <= k < deps_of(ts[i]).len() && dep_in_layer(ts, #[trigger] deps_of(ts[i])[k], prev)
}

proof fn lemma_qualifies_unfold(ts: Seq<TargetModel>, i: int, prev: Set<int>, ds: Seq<DepModel>)
    requires
        0 <= i < ts.len(),
        deps_of(ts[i]) == ds,
    ensures
        qualifies(ts, i, prev) == (exists|k: int|
            0 <= k < ds.len() && dep_in_layer(ts, #[trigger] ds[k], prev)),
{
}

/// The targets a round may still take: listed, not yet placed, and
/// qualified against the previous layer.
pub open spec fn round_member(
    ts: Seq<TargetModel>,
    prevset: Set<int>,
    placedset: Set<int>,
    x: int,
) -> bool {
    0 <= x < ts.len() && !placedset.contains(x) && qualifies(ts, x, prevset)
}

/// The layer of height `h` and everything placed up to and including it.
pub open spec fn layers(ts: Seq<TargetModel>, h: nat) -> (Set<int>, Set<int>)
    decreases h,
{
    if h == 0 {
        (layer0(ts), layer0(ts))
    } else {
        let p = layers(ts, (h - 1) as nat);
        let cur = Set::new(|i: int| round_member(ts, p.0, p.1, i));
        (cur, p.1.union(cur))
    }
}

/// Name, kind, version and edges agree; the heights may differ.
pub open spec fn shape_eq(a: TargetModel, b: TargetModel) -> bool {
    &&& a.name == b.name
    &&& a.kind == b.kind
    &&& a.version == b.version
    &&& a.dependencies == b.dependencies
}

/// No target joins the layer of height `h`.
pub open spec fn layer_empty(ts: Seq<TargetModel>, h: nat) -> bool {
    forall|i: int| !(#[trigger] layers(ts, h).0.contains(i))
}

/// `i` receives a height at some round.
pub open spec fn assigned(ts: Seq<TargetModel>, i: int) -> bool {
    exists|h: nat| 1 <= h && #[trigger] layers(ts, h).0.contains(i)
}

/// The list is ordered by ascending height.
pub open spec fn sorted_by_height(ts: Seq<TargetModel>) -> bool {
    forall|i: int, j: int| 0 <= i <= j < ts.len() ==> ts[i].height <= ts[j].height
}

/// How many flags are still unset.
pub open spec fn count_false(s: Seq<bool>) -> nat
    decreases s.len(),
{
    if s.len() == 0 {
        0
    } else {
        (if s[0] {
            0nat
        } else {
            1nat
        }) + count_false(s.drop_first())
    }
}

proof fn lemma_count_false_update(s: Seq<bool>, i: int)
    requires
        0 <= i < s.len(),
        !s[i],
    ensures
        count_false(s.update(i, true)) + 1 == count_false(s),
    decreases s.len(),
{
    let u = s.update(i, true);
    if i == 0 {
        assert(u.drop_first() =~= s.drop_first());
    } else {
        assert(u.drop_first() =~= s.drop_first().update(i - 1, true));
        lemma_count_false_update(s.drop_first(), i - 1);
    }
}

proof fn lemma_count_false_bound(s: Seq<bool>)
    ensures
        count_false(s) <= s.len(),
    decreases s.len(),
{
    if s.len() > 0 {
        lemma_count_false_bound(s.drop_first());
    }
}

/// Everything placed by round `h1` stays placed at any later round.
proof fn lemma_placed_upto(ts: Seq<TargetModel>, h1: nat, h2: nat)
    requires
        h1 <= h2,
    ensures
        layers(ts, h1).1.subset_of(layers(ts, h2).1),
    decreases h2,
{
    if h1 < h2 {
        lemma_placed_upto(ts, h1, (h2 - 1) as nat);
    }
}

/// Every layer lies inside what is placed at its own round.
proof fn lemma_layer_in_placed(ts: Seq<TargetModel>, h: nat)
    ensures
        layers(ts, h).0.subset_of(layers(ts, h).1),
{
}

/// Once a layer comes up empty, every later layer is empty too.
proof fn lemma_empty_stays(ts: Seq<TargetModel>, h0: nat, h2: nat)
    requires
        h0 <= h2,
        layer_empty(ts, h0),
    ensures
        layer_empty(ts, h2),
    decreases h2,
{
    if h0 < h2 {
        lemma_empty_stays(ts, h0, (h2 - 1) as nat);
        assert forall|i: int| !(#[trigger] layers(ts, h2).0.contains(i)) by {
            if layers(ts, h2).0.contains(i) {
                assert(qualifies(ts, i, layers(ts, (h2 - 1) as nat).0));
                assert(!layer_empty(ts, (h2 - 1) as nat));
            }
        }
    }
}

/// A target with no recorded edges is never assigned a height: it either
/// sits in the bottom layer or never qualifies.
pub proof fn lemma_leaf_never_assigned(ts: Seq<TargetModel>, i: int)
    requires
        0 <= i < ts.len(),
        deps_of(ts[i]).len() == 0,
    ensures
        !assigned(ts, i),
{
    assert forall|h: nat| 1 <= h implies !(#[trigger] layers(ts, h).0.contains(i)) by {
        if layers(ts, h).0.contains(i) {
            assert(qualifies(ts, i, layers(ts, (h - 1) as nat).0));
        }
    }
}

/// A target with an edge ending at a bottom-layer target is assigned at the
/// very first round.
pub proof fn lemma_first_layer(ts: Seq<TargetModel>, i: int, k: int, j: int)
    requires
        0 <= i < ts.len(),
        0 <= j < ts.len(),
        ts[i].dependencies is Some,
        0 <= k < deps_of(ts[i]).len(),
        edge_ends_at(ts[j], deps_of(ts[i])[k]),
        ts[j].dependencies is None,
    ensures
        layers(ts, 1).0.contains(i),
{
    assert(layer0(ts).contains(j));
    assert(dep_in_layer(ts, deps_of(ts[i])[k], layers(ts, 0).0));
    assert(qualifies(ts, i, layers(ts, 0).0));
    assert(!layers(ts, 0).1.contains(i));
    assert(round_member(ts, layers(ts, 0).0, layers(ts, 0).1, i));
}

/// The layer structure reads only names, kinds and edges: two lists of the
/// same shape have the same layers.
proof fn lemma_layers_shape(ts: Seq<TargetModel>, ts2: Seq<TargetModel>, h: nat)
    requires
        ts2.len() == ts.len(),
        forall|x: int| 0 <= x < ts.len() ==> shape_eq(#[trigger] ts2[x], ts[x]),
    ensures
        layers(ts2, h).0 =~= layers(ts, h).0,
        layers(ts2, h).1 =~= layers(ts, h).1,
    decreases h,
{
    assert forall|d: DepModel, layer: Set<int>|
        #[trigger] dep_in_layer(ts2, d, layer) == dep_in_layer(ts, d, layer) by {
        if dep_in_layer(ts2, d, layer) {
            let j = choose|j: int|
                0 <= j < ts2.len() && layer.contains(j) && edge_ends_at(ts2[j], d);
            assert(edge_ends_at(ts[j], d));
        }
        if dep_in_layer(ts, d, layer) {
            let j = choose|j: int|
                0 <= j < ts.len() && layer.contains(j) && edge_ends_at(ts[j], d);
            assert(edge_ends_at(ts2[j], d));
        }
    }
    assert forall|i: int, prev: Set<int>|
        0 <= i < ts.len() implies #[trigger] qualifies(ts2, i, prev) == qualifies(
        ts,
        i,
        prev,
    ) by {
        assert(shape_eq(ts2[i], ts[i]));
        assert(deps_of(ts2[i]) == deps_of(ts[i]));
    }
    if h == 0 {
    } else {
        lemma_layers_shape(ts, ts2, (h - 1) as nat);
    }
}

/// Running the layering again over its own output assigns every target the
/// height it already carries: heights do not change on a second pass.
pub proof fn lemma_layering_idempotent(ts: Seq<TargetModel>, ts2: Seq<TargetModel>)
    requires
        ts2.len() == ts.len(),
        forall|x: int| 0 <= x < ts.len() ==> shape_eq(#[trigger] ts2[x], ts[x]),
        forall|x: int, h: nat|
            0 <= x < ts.len() && 1 <= h && #[trigger] layers(ts, h).0.contains(x) ==> ts2[x].height
                == h,
        forall|x: int|
            0 <= x < ts.len() && !assigned(ts, x) ==> #[trigger] ts2[x].height == ts[x].height,
    ensures
        forall|x: int, h: nat|
            0 <= x < ts2.len() && 1 <= h && #[trigger] layers(ts2, h).0.contains(x) ==> ts2[x].height
                == h,
        forall|x: int|
            0 <= x < ts2.len() && !assigned(ts2, x) ==> #[trigger] ts2[x].height == ts2[x].height,
{
    assert forall|x: int, h: nat|
        0 <= x < ts2.len() && 1 <= h && #[trigger] layers(ts2, h).0.contains(x) implies ts2[x].height
        == h by {
        lemma_layers_shape(ts, ts2, h);
        assert(layers(ts, h).0.contains(x));
    }
}

/// Whether the edge `d` ends at a target of the previous layer, given by
/// its positions.
fn dep_matches_layer(
    targets: &Vec<Target>,
    prev: &Vec<usize>,
    d: &Dep,
    tsv: Ghost<Seq<TargetModel>>,
    layerset: Ghost<Set<int>>,
) -> (r: bool)
    requires
        targets.deep_view().len() == tsv@.len(),
        forall|x: int| 0 <= x < tsv@.len() ==> shape_eq(#[trigger] targets.deep_view()[x], tsv@[x]),
        forall|q: int|
            0 <= q < prev@.len() ==> (#[trigger] prev@[q] as int) < tsv@.len()
                && layerset@.contains(prev@[q] as int),
        forall|j: int|
            layerset@.contains(j) ==> 0 <= j < tsv@.len() && (exists|q: int|
                0 <= q < prev@.len() && #[trigger] prev@[q] as int == j),
    ensures
        r == dep_in_layer(tsv@, d@, layerset@),
{
    let mut q: usize = 0;
    while q < prev.len()
        invariant
            q <= prev.len(),
            targets.deep_view().len() == tsv@.len(),
            forall|x: int|
                0 <= x < tsv@.len() ==> shape_eq(#[trigger] targets.deep_view()[x], tsv@[x]),
            forall|q2: int|
                0 <= q2 < prev@.len() ==> (#[trigger] prev@[q2] as int) < tsv@.len()
                    && layerset@.contains(prev@[q2] as int),
            forall|q2: int|
                0 <= q2 < q ==> !edge_ends_at(tsv@[#[trigger] prev@[q2] as int], d@),
        decreases prev.len() - q,
    {
        let j = prev[q];
        if targets[j].matches_dep(d) {
            proof {
                assert(shape_eq(targets.deep_view()[j as int], tsv@[j as int]));
                assert(edge_ends_at(tsv@[j as int], d@));
            }
            return true;
        }
        proof {
            assert(shape_eq(targets.deep_view()[j as int], tsv@[j as int]));
        }
        q = q + 1;
    }
    proof {
        if dep_in_layer(tsv@, d@, layerset@) {
            let j = choose|j: int|
                0 <= j < tsv@.len() && layerset@.contains(j) && edge_ends_at(tsv@[j], d@);
            let q2 = choose|q2: int| 0 <= q2 < prev@.len() && prev@[q2] as int == j;
            assert(!edge_ends_at(tsv@[prev@[q2] as int], d@));
        }
    }
    false
}

/// Whether any edge of the list ends in the previous layer.
fn any_dep_in_layer(
    targets: &Vec<Target>,
    deps: &Vec<Dep>,
    prev: &Vec<usize>,
    tsv: Ghost<Seq<TargetModel>>,
    layerset: Ghost<Set<int>>,
) -> (r: bool)
    requires
        targets.deep_view().len() == tsv@.len(),
        forall|x: int| 0 <= x < tsv@.len() ==> shape_eq(#[trigger] targets.deep_view()[x], tsv@[x]),
        forall|q: int|
            0 <= q < prev@.len() ==> (#[trigger] prev@[q] as int) < tsv@.len()
                && layerset@.contains(prev@[q] as int),
        forall|j: int|
            layerset@.contains(j) ==> 0 <= j < tsv@.len() && (exists|q: int|
                0 <= q < prev@.len() && #[trigger] prev@[q] as int == j),
    ensures
        r == (exists|k: int|
            0 <= k < deps.deep_view().len() && dep_in_layer(
                tsv@,
                #[trigger] deps.deep_view()[k],
                layerset@,
            )),
{
    let mut k: usize = 0;
    while k < deps.len()
        invariant
            k <= deps.len(),
            targets.deep_view().len() == tsv@.len(),
            forall|x: int|
                0 <= x < tsv@.len() ==> shape_eq(#[trigger] targets.deep_view()[x], tsv@[x]),
            forall|q: int|
                0 <= q < prev@.len() ==> (#[trigger] prev@[q] as int) < tsv@.len()
                    && layerset@.contains(prev@[q] as int),
            forall|j: int|
                layerset@.contains(j) ==> 0 <= j < tsv@.len() && (exists|q: int|
                    0 <= q < prev@.len() && #[trigger] prev@[q] as int == j),
            forall|k2: int|
                0 <= k2 < k ==> !dep_in_layer(tsv@, #[trigger] deps.deep_view()[k2], layerset@),
        decreases deps.len() - k,
    {
        if dep_matches_layer(targets, prev, &deps[k], tsv, layerset) {
            proof {
                assert(dep_in_layer(tsv@, deps.deep_view()[k as int], layerset@));
            }
            return true;
        }
        k = k + 1;
    }
    false
}

/// Assign every target its height. A target of the bottom layer — no
/// recorded dependency list — keeps its height; layer by layer from height
/// one, every not-yet-placed target with an edge into the immediately
/// preceding layer receives the current height; the walk stops at the first
/// empty layer, and whatever was never placed keeps the height it came
/// with.
pub fn update_height(targets: &mut Vec<Target>)
    requires
        old(targets)@.len() <= usize::MAX - 2,
    ensures
        final(targets).deep_view().len() == old(targets).deep_view().len(),
        forall|x: int|
            0 <= x < old(targets).deep_view().len() ==> shape_eq(
                #[trigger] final(targets).deep_view()[x],
                old(targets).deep_view()[x],
            ),
        forall|x: int, h: nat|
            0 <= x < old(targets).deep_view().len() && 1 <= h && #[trigger] layers(
                old(targets).deep_view(),
                h,
            ).0.contains(x) ==> final(targets).deep_view()[x].height == h,
        forall|x: int|
            0 <= x < old(targets).deep_view().len() && !assigned(old(targets).deep_view(), x)
                ==> #[trigger] final(targets).deep_view()[x].height == old(
                targets,
            ).deep_view()[x].height,
{
    let ghost tsv = targets.deep_view();
    let mut placed: Vec<bool> = Vec::new();
    let mut prev: Vec<usize> = Vec::new();
    let mut x: usize = 0;
    while x < targets.len()
        invariant
            x <= targets.len(),
            tsv == targets.deep_view(),
            placed@.len() == x,
            forall|i: int| 0 <= i < x ==> #[trigger] placed@[i] == layer0(tsv).contains(i),
            forall|q: int|
                0 <= q < prev@.len() ==> (#[trigger] prev@[q] as int) < x && layer0(tsv).contains(
                    prev@[q] as int,
                ),
            forall|i: int|
                0 <= i < x && layer0(tsv).contains(i) ==> (exists|q: int|
                    0 <= q < prev@.len() && #[trigger] prev@[q] as int == i),
        decreases targets.len() - x,
    {
        let is_leaf = targets[x].dependencies.is_none();
        let ghost placed_pre = placed@;
        let ghost prev_pre = prev@;
        placed.push(is_leaf);
        if is_leaf {
            prev.push(x);
        }
        proof {
            assert(placed@ =~= placed_pre.push(is_leaf));
            assert(is_leaf == (tsv[x as int].dependencies is None));
            assert forall|i: int|
                0 <= i < x + 1 && layer0(tsv).contains(i) implies (exists|q: int|
                0 <= q < prev@.len() && #[trigger] prev@[q] as int == i) by {
                if i < x {
                    let q = choose|q: int| 0 <= q < prev_pre.len() && prev_pre[q] as int == i;
                    assert(prev@[q] as int == i);
                } else {
                    assert(prev@[prev_pre.len() as int] as int == i);
                }
            }
        }
        x = x + 1;
    }
    proof {
        assert forall|i: int| 0 <= i < tsv.len() implies #[trigger] placed@[i] == layers(
            tsv,
            0,
        ).1.contains(i) by {}
        lemma_count_false_bound(placed@);
    }
    let mut h: usize = 1;
    while prev.len() != 0
        invariant
            1 <= h,
            tsv.len() == targets.deep_view().len(),
            tsv.len() <= usize::MAX - 2,
            placed@.len() == tsv.len(),
            forall|x2: int|
                0 <= x2 < tsv.len() ==> shape_eq(#[trigger] targets.deep_view()[x2], tsv[x2]),
            forall|i: int|
                0 <= i < tsv.len() ==> #[trigger] placed@[i] == layers(
                    tsv,
                    (h - 1) as nat,
                ).1.contains(i),
            forall|q: int|
                0 <= q < prev@.len() ==> (#[trigger] prev@[q] as int) < tsv.len() && layers(
                    tsv,
                    (h - 1) as nat,
                ).0.contains(prev@[q] as int),
            forall|j: int|
                #[trigger] layers(tsv, (h - 1) as nat).0.contains(j) ==> 0 <= j < tsv.len() && (
                exists|q: int| 0 <= q < prev@.len() && #[trigger] prev@[q] as int == j),
            forall|x2: int, h2: nat|
                0 <= x2 < tsv.len() && 1 <= h2 < h && #[trigger] layers(tsv, h2).0.contains(x2)
                    ==> targets.deep_view()[x2].height == h2,
            forall|x2: int|
                0 <= x2 < tsv.len() && (forall|h2: nat|
                    1 <= h2 < h ==> !(#[trigger] layers(tsv, h2).0.contains(x2)))
                    ==> #[trigger] targets.deep_view()[x2].height == tsv[x2].height,
            h + count_false(placed@) <= tsv.len() + 1,
            prev@.len() == 0 ==> layer_empty(tsv, (h - 1) as nat),
        ensures
            exists|h0: nat| h0 <= h && #[trigger] layer_empty(tsv, h0),
        decreases count_false(placed@),
    {
        let ghost prevset = layers(tsv, (h - 1) as nat).0;
        let ghost placedset = layers(tsv, (h - 1) as nat).1;
        let ghost placed_head = placed@;
        let ghost dv_head = targets.deep_view();
        let mut current: Vec<usize> = Vec::new();
        let mut i: usize = 0;
        while i < targets.len()
            invariant
                i <= targets.len(),
                1 <= h,
                tsv.len() == targets.deep_view().len(),
                placed@.len() == tsv.len(),
                dv_head.len() == tsv.len(),
                prevset == layers(tsv, (h - 1) as nat).0,
                placedset == layers(tsv, (h - 1) as nat).1,
                forall|x2: int|
                    0 <= x2 < tsv.len() ==> shape_eq(#[trigger] targets.deep_view()[x2], tsv[x2]),
                forall|q: int|
                    0 <= q < prev@.len() ==> (#[trigger] prev@[q] as int) < tsv.len()
                        && prevset.contains(prev@[q] as int),
                forall|j: int|
                    prevset.contains(j) ==> 0 <= j < tsv.len() && (exists|q: int|
                        0 <= q < prev@.len() && #[trigger] prev@[q] as int == j),
                forall|x2: int|
                    0 <= x2 < tsv.len() ==> #[trigger] placed@[x2] == (placedset.contains(x2) || (
                    x2 < i && round_member(tsv, prevset, placedset, x2))),
                forall|q: int|
                    0 <= q < current@.len() ==> (#[trigger] current@[q] as int) < i
                        && round_member(tsv, prevset, placedset, current@[q] as int),
                forall|x2: int|
                    0 <= x2 < i && round_member(tsv, prevset, placedset, x2) ==> (exists|q: int|
                        0 <= q < current@.len() && #[trigger] current@[q] as int == x2),
                forall|x2: int|
                    0 <= x2 < tsv.len() && x2 < i && round_member(tsv, prevset, placedset, x2)
                        ==> #[trigger] targets.deep_view()[x2].height == h,
                forall|x2: int|
                    0 <= x2 < tsv.len() && !(x2 < i && round_member(tsv, prevset, placedset, x2))
                        ==> #[trigger] targets.deep_view()[x2].height == dv_head[x2].height,
                count_false(placed@) + current@.len() == count_false(placed_head),
            decreases targets.len() - i,
        {
            let mut took = false;
            if !placed[i] {
                match &targets[i].dependencies {
                    None => {
                        proof {
                            assert(targets.deep_view()[i as int].dependencies == tsv[i as int].dependencies);
                            assert(deps_of(tsv[i as int]).len() == 0);
                            assert(!qualifies(tsv, i as int, prevset));
                        }
                    },
                    Some(deps) => {
                        if any_dep_in_layer(targets, deps, &prev, Ghost(tsv), Ghost(prevset)) {
                            took = true;
                        }
                        proof {
                            assert(targets.deep_view()[i as int].dependencies == tsv[i as int].dependencies);
                            assert(tsv[i as int].dependencies == Some(deps.deep_view()));
                            assert(deps_of(tsv[i as int]) == deps.deep_view());
                            lemma_qualifies_unfold(tsv, i as int, prevset, deps.deep_view());
                            assert(took == qualifies(tsv, i as int, prevset));
                        }
                    },
                }
            }
            proof {
                assert(took == round_member(tsv, prevset, placedset, i as int));
            }
            if took {
                let ghost placed_pre = placed@;
                let ghost dv_pre = targets.deep_view();
                let ghost cur_pre = current@;
                let mut t = targets[i].duplicate();
                t.height = h;
                targets.set(i, t);
                placed.set(i, true);
                current.push(i);
                proof {
                    assert(!placed_pre[i as int]);
                    lemma_count_false_update(placed_pre, i as int);
                    assert(placed@ =~= placed_pre.update(i as int, true));
                    assert(targets.deep_view() =~= dv_pre.update(i as int, t@));
                    assert(current@ =~= cur_pre.push(i));
                    assert(t@.height == h);
                    assert(shape_eq(t@, tsv[i as int]));
                    assert forall|x2: int|
                        0 <= x2 < tsv.len() implies shape_eq(
                        #[trigger] targets.deep_view()[x2],
                        tsv[x2],
                    ) by {
                        if x2 != i {
                            assert(targets.deep_view()[x2] == dv_pre[x2]);
                        }
                    }
                    assert forall|x2: int|
                        0 <= x2 < i + 1 && round_member(tsv, prevset, placedset, x2) implies (
                    exists|q: int|
                        0 <= q < current@.len() && #[trigger] current@[q] as int == x2) by {
                        if x2 < i {
                            let q = choose|q: int|
                                0 <= q < cur_pre.len() && cur_pre[q] as int == x2;
                            assert(current@[q] as int == x2);
                        } else {
                            assert(current@[cur_pre.len() as int] as int == x2);
                        }
                    }
                }
            } else {
                proof {
                    assert forall|x2: int|
                        0 <= x2 < i + 1 && round_member(tsv, prevset, placedset, x2) implies (
                    exists|q: int|
                        0 <= q < current@.len() && #[trigger] current@[q] as int == x2) by {
                        if x2 < i {
                            let q = choose|q: int|
                                0 <= q < current@.len() && current@[q] as int == x2;
                            assert(current@[q] as int == x2);
                        }
                    }
                }
            }
            i = i + 1;
        }
        proof {
            assert(layers(tsv, h as nat).0 =~= Set::new(
                |x2: int| round_member(tsv, prevset, placedset, x2),
            ));
            assert(layers(tsv, h as nat).1 =~= placedset.union(layers(tsv, h as nat).0));
            assert forall|x2: int|
                0 <= x2 < tsv.len() implies #[trigger] placed@[x2] == layers(
                tsv,
                h as nat,
            ).1.contains(x2) by {}
            // earlier rounds' members were already placed, so this round
            // left their heights alone
            assert forall|x2: int, h2: nat|
                0 <= x2 < tsv.len() && 1 <= h2 < h + 1 && #[trigger] layers(tsv, h2).0.contains(
                    x2,
                ) implies targets.deep_view()[x2].height == h2 by {
                if h2 < h {
                    lemma_layer_in_placed(tsv, h2);
                    lemma_placed_upto(tsv, h2, (h - 1) as nat);
                    assert(placedset.contains(x2));
                    assert(!round_member(tsv, prevset, placedset, x2));
                    assert(targets.deep_view()[x2].height == dv_head[x2].height);
                } else {
                    assert(round_member(tsv, prevset, placedset, x2));
                }
            }
            assert forall|x2: int|
                0 <= x2 < tsv.len() && (forall|h2: nat|
                    1 <= h2 < h + 1 ==> !(#[trigger] layers(tsv, h2).0.contains(x2))) implies
                #[trigger] targets.deep_view()[x2].height == tsv[x2].height by {
                assert(!layers(tsv, h as nat).0.contains(x2));
                assert(!round_member(tsv, prevset, placedset, x2));
                assert(targets.deep_view()[x2].height == dv_head[x2].height);
                assert(forall|h2: nat| 1 <= h2 < h ==> !(#[trigger] layers(tsv, h2).0.contains(x2)));
            }
        }
        if current.len() == 0 {
            proof {
                assert forall|i2: int| !(#[trigger] layers(tsv, h as nat).0.contains(i2)) by {
                    if layers(tsv, h as nat).0.contains(i2) {
                        assert(round_member(tsv, prevset, placedset, i2));
                        let q = choose|q: int|
                            0 <= q < current@.len() && current@[q] as int == i2;
                    }
                }
                assert(layer_empty(tsv, h as nat));
            }
            break;
        }
        prev = current;
        h = h + 1;
    }
    proof {
        let h0 = choose|h0: nat| h0 <= h && #[trigger] layer_empty(tsv, h0);
        assert forall|x2: int, h2: nat|
            0 <= x2 < tsv.len() && 1 <= h2 && #[trigger] layers(tsv, h2).0.contains(x2) implies
            targets.deep_view()[x2].height == h2 by {
            if h2 >= h0 {
                lemma_empty_stays(tsv, h0, h2);
            }
        }
        assert forall|x2: int|
            0 <= x2 < tsv.len() && !assigned(tsv, x2) implies #[trigger] targets.deep_view()[x2].height
            == tsv[x2].height by {
            assert forall|h2: nat| 1 <= h2 < h implies !(#[trigger] layers(tsv, h2).0.contains(
                x2,
            )) by {
                if layers(tsv, h2).0.contains(x2) {
                    assert(assigned(tsv, x2));
                }
            }
        }
    }
}

/// Re-sort the list by ascending height. The result holds the same targets;
/// among equal heights no particular order is promised.
pub fn sort_by_height(targets: &mut Vec<Target>)
    ensures
        final(targets).deep_view().len() == old(targets).deep_view().len(),
        sorted_by_height(final(targets).deep_view()),
        final(targets).deep_view().to_multiset() == old(targets).deep_view().to_multiset(),
{
    let mut rest: Vec<Target> = Vec::new();
    core::mem::swap(targets, &mut rest);
    let ghost orig = rest.deep_view();
    proof {
        assert(targets.deep_view() =~= Seq::<TargetModel>::empty());
        orig.to_multiset_ensures();
        targets.deep_view().to_multiset_ensures();
        assert(targets.deep_view().to_multiset() =~= targets.deep_view().to_multiset().add(
            Multiset::empty(),
        ));
    }
    while rest.len() != 0
        invariant
            targets.deep_view().to_multiset().add(rest.deep_view().to_multiset())
                == orig.to_multiset(),
            targets.deep_view().len() + rest.deep_view().len() == orig.len(),
            sorted_by_height(targets.deep_view()),
            forall|a: int, b: int|
                0 <= a < targets.deep_view().len() && 0 <= b < rest.deep_view().len()
                    ==> #[trigger] targets.deep_view()[a].height
                    <= #[trigger] rest.deep_view()[b].height,
        decreases rest.len(),
    {
        let mut m: usize = 0;
        let mut q: usize = 1;
        while q < rest.len()
            invariant
                m < q <= rest.len() || (q <= rest.len() && m == 0),
                m < rest.deep_view().len(),
                q <= rest.deep_view().len(),
                forall|w: int|
                    0 <= w < q ==> rest.deep_view()[m as int].height
                        <= #[trigger] rest.deep_view()[w].height,
            decreases rest.len() - q,
        {
            if rest[q].height < rest[m].height {
                m = q;
            }
            q = q + 1;
        }
        let ghost restv = rest.deep_view();
        let ghost keptv = targets.deep_view();
        let t = rest.remove(m);
        targets.push(t);
        proof {
            restv.to_multiset_ensures();
            keptv.to_multiset_ensures();
            assert(rest.deep_view() =~= restv.remove(m as int));
            assert(targets.deep_view() =~= keptv.push(restv[m as int]));
            assert(targets.deep_view().to_multiset() =~= keptv.to_multiset().insert(
                restv[m as int],
            ));
            assert(rest.deep_view().to_multiset() =~= restv.to_multiset().remove(restv[m as int]));
            assert(restv.to_multiset().count(restv[m as int]) >= 1);
            assert(targets.deep_view().to_multiset().add(rest.deep_view().to_multiset())
                =~= keptv.to_multiset().add(restv.to_multiset()));
            assert forall|a: int, b: int|
                0 <= a < targets.deep_view().len() && 0 <= b < rest.deep_view().len() implies
                #[trigger] targets.deep_view()[a].height <= #[trigger] rest.deep_view()[b].height
                by {
                if b < m {
                    assert(rest.deep_view()[b] == restv[b]);
                } else {
                    assert(rest.deep_view()[b] == restv[b + 1]);
                }
            }
            assert(sorted_by_height(targets.deep_view()));
        }
    }
    proof {
        assert(rest.deep_view() =~= Seq::<TargetModel>::empty());
        rest.deep_view().to_multiset_ensures();
        assert(targets.deep_view().to_multiset().add(Multiset::empty()) =~= targets.deep_view().to_multiset());
    }
}

} // verus!
