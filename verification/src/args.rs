//! The run's request — input path, requested top-level targets, output
//! choices — and the closure filter that restricts a parsed graph to the
//! targets reachable from the requested roots.

use vstd::prelude::*;

use crate::errors::{parse_result_model, GraphError, GraphErrorModel};
use crate::langs::{spec_select, ConfigParser, LanguagesConfiguration, SourceTree};
use crate::model::{deps_of, edge_ends_at, same_node, Dep, DepModel, Target, TargetModel};

verus! {

/// The output formats a run may request from the rendering collaborator.
#[derive(Debug, Clone, Copy, PartialEq, Eq, Structural)]
pub enum FormatInt {
    Bmp,
    Cgimage,
    Canon,
    Dot,
    Gv,
    Xdot,
    Xdot12,
    Xdot14,
    Eps,
    Exr,
    Fig,
    Gd,
    Gd2,
    Gif,
    Gtk,
    Ico,
    Cmap,
    Ismap,
    Imap,
    Cmapx,
    ImapNp,
    CmapxNp,
    Jpg,
    Jpeg,
    Jpe,
    Jp2,
    Json,
    Json0,
    DotJson,
    XdotJson,
    Pdf,
    Pic,
    Pct,
    Pict,
    Plain,
    PlainExt,
    Png,
    Pov,
    Ps,
    Ps2,
    Psd,
    Sgi,
    Svg,
    Svgz,
    Tga,
    Tif,
    Tiff,
    Tk,
    Vml,
    Vmlz,
    Vrml,
    Vbmp,
    Webp,
    Xlib,
    X11,
}

/// The formats the rendering backend can actually produce.
pub open spec fn spec_backend_supported(f: FormatInt) -> bool {
    ||| f is Bmp
    ||| f is Dot
    ||| f is Xdot
    ||| f is Xdot12
    ||| f is Xdot14
    ||| f is Fig
    ||| f is Gif
    ||| f is Jpg
    ||| f is Jpeg
    ||| f is Json
    ||| f is Json0
    ||| f is DotJson
    ||| f is XdotJson
    ||| f is Pdf
    ||| f is Pic
    ||| f is Pct
    ||| f is Pict
    ||| f is Plain
    ||| f is PlainExt
    ||| f is Png
    ||| f is Svg
    ||| f is Svgz
}

impl FormatInt {
    /// Whether the rendering backend can produce this format; a request for
    /// any other format is an unsupported-render-format error.
    pub fn is_backend_supported(&self) -> (r: bool)
        ensures
            r == spec_backend_supported(*self),
    {
        match self {
            FormatInt::Bmp => true,
            FormatInt::Dot => true,
            FormatInt::Xdot => true,
            FormatInt::Xdot12 => true,
            FormatInt::Xdot14 => true,
            FormatInt::Fig => true,
            FormatInt::Gif => true,
            FormatInt::Jpg => true,
            FormatInt::Jpeg => true,
            FormatInt::Json => true,
            FormatInt::Json0 => true,
            FormatInt::DotJson => true,
            FormatInt::XdotJson => true,
            FormatInt::Pdf => true,
            FormatInt::Pic => true,
            FormatInt::Pct => true,
            FormatInt::Pict => true,
            FormatInt::Plain => true,
            FormatInt::PlainExt => true,
            FormatInt::Png => true,
            FormatInt::Svg => true,
            FormatInt::Svgz => true,
            _ => false,
        }
    }
}

/// One run's request: where to write, in which format, whether to dump
/// textually instead of rendering, which input to read, and which top-level
/// target names to restrict the graph to (none means the whole graph).
pub struct Args {
    pub output: Option<String>,
    pub format: FormatInt,
    pub debug: bool,
    pub path: String,
    pub top_level: Vec<String>,
}

/// No two targets of the list share a name.
pub open spec fn names_distinct(ts: Seq<TargetModel>) -> bool {
    forall|i: int, j: int|
        0 <= i < ts.len() && 0 <= j < ts.len() && i != j ==> ts[i].name != ts[j].name
}

/// `u` records a dependency edge ending at `t`.
pub open spec fn has_edge(u: TargetModel, t: TargetModel) -> bool {
    exists|k: int| 0 <= k < deps_of(u).len() && edge_ends_at(t, #[trigger] deps_of(u)[k])
}

/// `t` is reachable from the root names within `n` edge steps: it is a
/// listed target, and either carries a root name or is the endpoint of an
/// edge from a target reachable in fewer steps.
pub open spec fn reachable_in(
    ts: Seq<TargetModel>,
    roots: Set<Seq<char>>,
    t: TargetModel,
    n: nat,
) -> bool
    decreases n,
{
    ts.contains(t) && (roots.contains(t.name) || (n > 0 && exists|u: TargetModel|
        reachable_in(ts, roots, u, (n - 1) as nat) && #[trigger] has_edge(u, t)))
}

/// `t` is reachable from the root names in any number of steps.
pub open spec fn reachable(ts: Seq<TargetModel>, roots: Set<Seq<char>>, t: TargetModel) -> bool {
    exists|n: nat| reachable_in(ts, roots, t, n)
}

/// One edge step extends reachability.
proof fn lemma_reach_step(
    ts: Seq<TargetModel>,
    roots: Set<Seq<char>>,
    u: TargetModel,
    t: TargetModel,
    n: nat,
)
    requires
        reachable_in(ts, roots, u, n),
        has_edge(u, t),
        ts.contains(t),
    ensures
        reachable(ts, roots, t),
{
    let m: nat = n + 1;
    assert((m - 1) as nat == n);
    assert(reachable_in(ts, roots, u, (m - 1) as nat));
    assert(reachable_in(ts, roots, t, m));
}

/// Some remaining target is the endpoint of `d`.
pub open spec fn matched_in(bag: Seq<TargetModel>, d: DepModel) -> bool {
    exists|i: int| 0 <= i < bag.len() && edge_ends_at(#[trigger] bag[i], d)
}

/// No edge of an accumulated target still has an endpoint waiting in the
/// bag: every accumulated target has been fully processed.
pub open spec fn acc_settled(accv: Seq<TargetModel>, bagv: Seq<TargetModel>) -> bool {
    forall|i: int, k: int|
        0 <= i < accv.len() && 0 <= k < deps_of(accv[i]).len() ==> !matched_in(
            bagv,
            #[trigger] deps_of(accv[i])[k],
        )
}

/// Every target of `s` is reachable from the root names.
pub open spec fn all_reachable(
    ts: Seq<TargetModel>,
    roots: Set<Seq<char>>,
    s: Seq<TargetModel>,
) -> bool {
    forall|i: int| 0 <= i < s.len() ==> reachable(ts, roots, #[trigger] s[i])
}

/// Every member of `a` is a member of `b`.
pub open spec fn members_subset(a: Seq<TargetModel>, b: Seq<TargetModel>) -> bool {
    forall|t: TargetModel| #[trigger] a.contains(t) ==> b.contains(t)
}

/// `a` and `b` have the same members.
pub open spec fn same_members(a: Seq<TargetModel>, b: Seq<TargetModel>) -> bool {
    forall|t: TargetModel| #![trigger a.contains(t)] #![trigger b.contains(t)]
        a.contains(t) <==> b.contains(t)
}

/// The state the closure walk preserves. `ts` is the parsed target list,
/// `roots` the requested names, `accv` the processed targets, `keepv` the
/// frontier, `bagv` the untouched remainder. The clauses guarded by
/// `strict` hold when the target list has no duplicate names and no root
/// was requested twice; only they speak about completeness.
pub open spec fn closure_state(
    ts: Seq<TargetModel>,
    roots: Set<Seq<char>>,
    strict: bool,
    accv: Seq<TargetModel>,
    keepv: Seq<TargetModel>,
    bagv: Seq<TargetModel>,
) -> bool {
    &&& members_subset(accv + keepv + bagv, ts)
    &&& all_reachable(ts, roots, accv)
    &&& all_reachable(ts, roots, keepv)
    &&& (strict ==> same_members(accv + keepv + bagv, ts))
    &&& (strict ==> (forall|i: int|
        0 <= i < bagv.len() ==> !roots.contains(#[trigger] bagv[i].name)))
    &&& (strict ==> names_distinct(accv + keepv + bagv))
    &&& (strict ==> acc_settled(accv, bagv))
}

/// Moving the bag element at `p` onto the frontier keeps the members of the
/// whole state, keeps distinct names distinct, and leaves every dependency
/// matched only where it was matched before.
proof fn lemma_move_preserves(a: Seq<TargetModel>, ntk: Seq<TargetModel>, nbag: Seq<TargetModel>, p: int)
    requires
        0 <= p < nbag.len(),
    ensures
        same_members(a + ntk.push(nbag[p]) + nbag.remove(p), a + ntk + nbag),
        names_distinct(a + ntk + nbag) ==> names_distinct(a + ntk.push(nbag[p]) + nbag.remove(p)),
        forall|d: DepModel| #[trigger] matched_in(nbag.remove(p), d) ==> matched_in(nbag, d),
{
    let before = a + ntk + nbag;
    let after = a + ntk.push(nbag[p]) + nbag.remove(p);
    let base = a.len() + ntk.len();
    assert(after.len() == before.len());
    // every position of the new arrangement holds a value from a position
    // of the old one, and that mapping hits distinct old positions
    assert forall|i: int| 0 <= i < after.len() implies after[i] == before[seat(a, ntk, p, i)]
        && 0 <= seat(a, ntk, p, i) < before.len() by {
        if i < base {
        } else if i == base {
            assert(after[i] == nbag[p]);
        } else if i <= base + p {
            assert(after[i] == nbag[i - base - 1]);
        } else {
            assert(after[i] == nbag[i - base]);
        }
    }
    assert forall|i: int, j: int|
        0 <= i < after.len() && 0 <= j < after.len() && i != j implies seat(a, ntk, p, i) != seat(
        a,
        ntk,
        p,
        j,
    ) by {}
    assert forall|t: TargetModel| after.contains(t) implies before.contains(t) by {
        let i = choose|i: int| 0 <= i < after.len() && after[i] == t;
        assert(before[seat(a, ntk, p, i)] == t);
    }
    assert forall|t: TargetModel| before.contains(t) implies after.contains(t) by {
        let i = choose|i: int| 0 <= i < before.len() && before[i] == t;
        let back = unseat(a, ntk, p, i);
        assert(after[back] == before[i]);
    }
    if names_distinct(before) {
        assert forall|i: int, j: int|
            0 <= i < after.len() && 0 <= j < after.len() && i != j implies after[i].name
            != after[j].name by {
            assert(after[i] == before[seat(a, ntk, p, i)]);
            assert(after[j] == before[seat(a, ntk, p, j)]);
        }
    }
    assert forall|d: DepModel| #[trigger] matched_in(nbag.remove(p), d) implies matched_in(
        nbag,
        d,
    ) by {
        let i = choose|i: int| 0 <= i < nbag.remove(p).len() && edge_ends_at(nbag.remove(p)[i], d);
        if i < p {
            assert(edge_ends_at(nbag[i], d));
        } else {
            assert(edge_ends_at(nbag[i + 1], d));
        }
    }
}

/// Where position `i` of the rearranged state sat in the old one.
pub open spec fn seat(a: Seq<TargetModel>, ntk: Seq<TargetModel>, p: int, i: int) -> int {
    let base = a.len() + ntk.len();
    if i < base {
        i
    } else if i == base {
        base + p
    } else if i <= base + p {
        i - 1
    } else {
        i
    }
}

/// Where position `i` of the old state sits in the rearranged one.
pub open spec fn unseat(a: Seq<TargetModel>, ntk: Seq<TargetModel>, p: int, i: int) -> int {
    let base = a.len() + ntk.len() as int;
    if i < base {
        i
    } else if i == base + p {
        base
    } else if i < base + p {
        i + 1
    } else {
        i
    }
}

/// A processed state whose frontier is empty holds every reachable target:
/// roots cannot hide in the remainder, and a dependency of a processed
/// target never ends in the remainder, so an induction over the step count
/// stays inside the processed targets.
proof fn lemma_closure_complete_step(
    ts: Seq<TargetModel>,
    roots: Set<Seq<char>>,
    accv: Seq<TargetModel>,
    restv: Seq<TargetModel>,
    t: TargetModel,
    n: nat,
)
    requires
        same_members(accv + Seq::<TargetModel>::empty() + restv, ts),
        acc_settled(accv, restv),
        forall|i: int| 0 <= i < restv.len() ==> !roots.contains(#[trigger] restv[i].name),
        reachable_in(ts, roots, t, n),
    ensures
        accv.contains(t),
    decreases n,
{
    let whole = accv + Seq::<TargetModel>::empty() + restv;
    assert(whole.contains(t));
    let w = choose|w: int| 0 <= w < whole.len() && whole[w] == t;
    if roots.contains(t.name) {
        if w >= accv.len() + 1 {
        }
        if w >= accv.len() {
            assert(restv[w - accv.len() - 1] == t || restv[w - accv.len()] == t);
        }
        assert(accv.contains(t)) by {
            if !accv.contains(t) {
                assert(w >= accv.len());
            }
        }
    } else {
        let u = choose|u: TargetModel|
            reachable_in(ts, roots, u, (n - 1) as nat) && has_edge(u, t);
        lemma_closure_complete_step(ts, roots, accv, restv, u, (n - 1) as nat);
        let ui = choose|ui: int| 0 <= ui < accv.len() && accv[ui] == u;
        let k = choose|k: int| 0 <= k < deps_of(u).len() && edge_ends_at(t, deps_of(u)[k]);
        assert(!matched_in(restv, deps_of(accv[ui])[k]));
        assert(accv.contains(t)) by {
            if !accv.contains(t) {
                assert(w >= accv.len());
                if w == accv.len() {
                } else {
                    assert(restv[w - accv.len() - 1] == t);
                    assert(matched_in(restv, deps_of(u)[k]));
                }
            }
        }
    }
}

/// Position of the first remaining target that the edge `d` ends at.
fn position_of_match(bag: &Vec<Target>, d: &Dep) -> (r: Option<usize>)
    ensures
        match r {
            Some(p) => p < bag.len() && edge_ends_at(bag.deep_view()[p as int], d@) && (forall|
                q: int,
            |
                0 <= q < p ==> !edge_ends_at(#[trigger] bag.deep_view()[q], d@)),
            None => !matched_in(bag.deep_view(), d@),
        },
{
    let mut k: usize = 0;
    while k < bag.len()
        invariant
            k <= bag.len(),
            forall|q: int| 0 <= q < k ==> !edge_ends_at(#[trigger] bag.deep_view()[q], d@),
        decreases bag.len() - k,
    {
        if bag[k].matches_dep(d) {
            return Some(k);
        }
        k = k + 1;
    }
    None
}

/// The closure walk. `acc` holds the processed targets, `to_keep` the
/// frontier, `bag` the untouched remainder: for every dependency of every
/// frontier target, the first remaining endpoint moves onto the next
/// frontier; the frontier itself joins the processed targets; and the walk
/// repeats until a frontier comes up empty. The remainder that was never
/// reached is handed back.
pub fn iterate(
    acc: &mut Vec<Target>,
    to_keep: Vec<Target>,
    bag: Vec<Target>,
    ts: Ghost<Seq<TargetModel>>,
    roots: Ghost<Set<Seq<char>>>,
    strict: Ghost<bool>,
) -> (rest: Vec<Target>)
    requires
        closure_state(
            ts@,
            roots@,
            strict@,
            old(acc).deep_view(),
            to_keep.deep_view(),
            bag.deep_view(),
        ),
    ensures
        final(acc).deep_view().len() >= old(acc).deep_view().len() + to_keep.deep_view().len(),
        final(acc).deep_view().subrange(
            0,
            old(acc).deep_view().len() + to_keep.deep_view().len() as int,
        ) == old(acc).deep_view() + to_keep.deep_view(),
        closure_state(
            ts@,
            roots@,
            strict@,
            final(acc).deep_view(),
            Seq::<TargetModel>::empty(),
            rest.deep_view(),
        ),
    decreases to_keep@.len() + bag@.len(),
{
    let ghost accv = acc.deep_view();
    let ghost keepv = to_keep.deep_view();
    let ghost bagv = bag.deep_view();
    if to_keep.len() == 0 {
        proof {
            assert(keepv =~= Seq::<TargetModel>::empty());
            assert(accv + keepv + bagv =~= accv + Seq::<TargetModel>::empty() + bagv);
            assert(accv.subrange(0, accv.len() as int) =~= accv + keepv);
        }
        return bag;
    }
    let mut new_to_keep: Vec<Target> = Vec::new();
    let mut new_bag = bag;
    proof {
        assert(accv + keepv + new_to_keep.deep_view() + new_bag.deep_view() =~= accv + keepv
            + bagv);
    }
    let mut i: usize = 0;
    while i < to_keep.len()
        invariant
            i <= to_keep.len(),
            accv == acc.deep_view(),
            keepv == to_keep.deep_view(),
            new_to_keep.deep_view().len() + new_bag.deep_view().len() == bagv.len(),
            members_subset(accv + keepv + new_to_keep.deep_view() + new_bag.deep_view(), ts@),
            all_reachable(ts@, roots@, accv),
            all_reachable(ts@, roots@, keepv),
            all_reachable(ts@, roots@, new_to_keep.deep_view()),
            (strict@ ==> same_members(
                accv + keepv + new_to_keep.deep_view() + new_bag.deep_view(),
                ts@,
            )),
            (strict@ ==> (forall|q: int|
                0 <= q < new_bag.deep_view().len() ==> !roots@.contains(
                    #[trigger] new_bag.deep_view()[q].name,
                ))),
            (strict@ ==> names_distinct(
                accv + keepv + new_to_keep.deep_view() + new_bag.deep_view(),
            )),
            (strict@ ==> acc_settled(accv, new_bag.deep_view())),
            (strict@ ==> (forall|i2: int, k2: int|
                0 <= i2 < i && 0 <= k2 < deps_of(keepv[i2]).len() ==> !matched_in(
                    new_bag.deep_view(),
                    #[trigger] deps_of(keepv[i2])[k2],
                ))),
        decreases to_keep.len() - i,
    {
        match &to_keep[i].dependencies {
            None => {},
            Some(deps) => {
                let ghost depsv = deps.deep_view();
                proof {
                    assert(deps_of(keepv[i as int]) == depsv);
                }
                let mut k: usize = 0;
                while k < deps.len()
                    invariant
                        k <= deps.len(),
                        i < to_keep.len(),
                        accv == acc.deep_view(),
                        keepv == to_keep.deep_view(),
                        depsv == deps.deep_view(),
                        deps_of(keepv[i as int]) == depsv,
                        new_to_keep.deep_view().len() + new_bag.deep_view().len() == bagv.len(),
                        members_subset(
                            accv + keepv + new_to_keep.deep_view() + new_bag.deep_view(),
                            ts@,
                        ),
                        all_reachable(ts@, roots@, accv),
                        all_reachable(ts@, roots@, keepv),
                        all_reachable(ts@, roots@, new_to_keep.deep_view()),
                        (strict@ ==> same_members(
                            accv + keepv + new_to_keep.deep_view() + new_bag.deep_view(),
                            ts@,
                        )),
                        (strict@ ==> (forall|q: int|
                            0 <= q < new_bag.deep_view().len() ==> !roots@.contains(
                                #[trigger] new_bag.deep_view()[q].name,
                            ))),
                        (strict@ ==> names_distinct(
                            accv + keepv + new_to_keep.deep_view() + new_bag.deep_view(),
                        )),
                        (strict@ ==> acc_settled(accv, new_bag.deep_view())),
                        (strict@ ==> (forall|i2: int, k2: int|
                            0 <= i2 < i && 0 <= k2 < deps_of(keepv[i2]).len() ==> !matched_in(
                                new_bag.deep_view(),
                                #[trigger] deps_of(keepv[i2])[k2],
                            ))),
                        (strict@ ==> (forall|k2: int|
                            0 <= k2 < k ==> !matched_in(
                                new_bag.deep_view(),
                                #[trigger] depsv[k2],
                            ))),
                    decreases deps.len() - k,
                {
                    let ghost ntkv = new_to_keep.deep_view();
                    let ghost nbagv = new_bag.deep_view();
                    match position_of_match(&new_bag, &deps[k]) {
                        Some(p) => {
                            let moved_t = new_bag.remove(p);
                            new_to_keep.push(moved_t);
                            proof {
                                let x = nbagv[p as int];
                                lemma_move_preserves(accv + keepv, ntkv, nbagv, p as int);
                                assert(new_to_keep.deep_view() =~= ntkv.push(x));
                                assert(new_bag.deep_view() =~= nbagv.remove(p as int));
                                assert(accv + keepv + ntkv.push(x) + nbagv.remove(p as int)
                                    =~= (accv + keepv) + ntkv.push(x) + nbagv.remove(p as int));
                                assert(accv + keepv + ntkv + nbagv =~= (accv + keepv) + ntkv
                                    + nbagv);
                                // the moved target is reachable: the frontier
                                // target is, and one of its edges ends there
                                assert((accv + keepv + ntkv + nbagv).contains(x)) by {
                                    assert((accv + keepv + ntkv + nbagv)[accv.len() + keepv.len()
                                        + ntkv.len() + p] == x);
                                }
                                assert(ts@.contains(x));
                                let u = keepv[i as int];
                                assert(reachable(ts@, roots@, u));
                                let n = choose|n: nat| reachable_in(ts@, roots@, u, n);
                                assert(has_edge(u, x)) by {
                                    assert(edge_ends_at(x, deps_of(u)[k as int]));
                                }
                                lemma_reach_step(ts@, roots@, u, x, n);
                                assert forall|q: int|
                                    0 <= q < new_to_keep.deep_view().len() implies reachable(
                                    ts@,
                                    roots@,
                                    new_to_keep.deep_view()[q],
                                ) by {
                                    if q < ntkv.len() {
                                        assert(new_to_keep.deep_view()[q] == ntkv[q]);
                                    } else {
                                        assert(new_to_keep.deep_view()[q] == x);
                                    }
                                }
                                if strict@ {
                                    // no second endpoint of this edge stays in
                                    // the bag: names in the bag are distinct
                                    assert forall|q: int|
                                        0 <= q < new_bag.deep_view().len() implies !edge_ends_at(
                                        #[trigger] new_bag.deep_view()[q],
                                        depsv[k as int],
                                    ) by {
                                        if edge_ends_at(new_bag.deep_view()[q], depsv[k as int]) {
                                            let big = accv + keepv + ntkv + nbagv;
                                            let qq = if q < p { q } else { q + 1 };
                                            assert(new_bag.deep_view()[q] == nbagv[qq]);
                                            assert(big[accv.len() + keepv.len() + ntkv.len() + qq]
                                                == nbagv[qq]);
                                            assert(big[accv.len() + keepv.len() + ntkv.len() + p]
                                                == nbagv[p as int]);
                                            assert(nbagv[qq].name == depsv[k as int].name);
                                            assert(nbagv[p as int].name == depsv[k as int].name);
                                        }
                                    }
                                    assert(!matched_in(new_bag.deep_view(), depsv[k as int]));
                                }
                            }
                        },
                        None => {
                            proof {
                                assert(!matched_in(new_bag.deep_view(), depsv[k as int]));
                            }
                        },
                    }
                    k = k + 1;
                }
            },
        }
        i = i + 1;
    }
    let mut moved = to_keep;
    acc.append(&mut moved);
    proof {
        assert(acc.deep_view() =~= accv + keepv);
        assert((accv + keepv) + new_to_keep.deep_view() + new_bag.deep_view() =~= accv + keepv
            + new_to_keep.deep_view() + new_bag.deep_view());
        // every dependency of the newly processed frontier was handled
        assert forall|i2: int, k2: int|
            0 <= i2 < (accv + keepv).len() && 0 <= k2 < deps_of((accv + keepv)[i2]).len()
            && strict@ implies !matched_in(
            new_bag.deep_view(),
            deps_of((accv + keepv)[i2])[k2],
        ) by {
            if i2 < accv.len() {
                assert((accv + keepv)[i2] == accv[i2]);
            } else {
                assert((accv + keepv)[i2] == keepv[i2 - accv.len()]);
            }
        }
        assert(strict@ ==> acc_settled(accv + keepv, new_bag.deep_view()));
        assert forall|q: int| 0 <= q < (accv + keepv).len() implies reachable(
            ts@,
            roots@,
            (accv + keepv)[q],
        ) by {
            if q < accv.len() {
                assert((accv + keepv)[q] == accv[q]);
            } else {
                assert((accv + keepv)[q] == keepv[q - accv.len()]);
            }
        }
    }
    let rest = iterate(acc, new_to_keep, new_bag, ts, roots, strict);
    proof {
        assert(final(acc).deep_view().subrange(0, accv.len() + keepv.len() as int) =~= (
        final(acc).deep_view().subrange(0, (accv + keepv).len() as int)).subrange(
            0,
            accv.len() + keepv.len() as int,
        ));
    }
    rest
}

/// Index of the first target named `name`, scanning from `i`.
pub open spec fn spec_find_by_name(ts: Seq<TargetModel>, name: Seq<char>, i: int) -> Option<int>
    decreases ts.len() - i,
{
    if i < 0 || i >= ts.len() {
        None
    } else if ts[i].name == name {
        Some(i)
    } else {
        spec_find_by_name(ts, name, i + 1)
    }
}

/// The first requested root name with no matching target, scanning from
/// `i`.
pub open spec fn spec_missing_root(
    ts: Seq<TargetModel>,
    top: Seq<Seq<char>>,
    i: int,
) -> Option<Seq<char>>
    decreases top.len() - i,
{
    if i < 0 || i >= top.len() {
        None
    } else if spec_find_by_name(ts, top[i], 0) is None {
        Some(top[i])
    } else {
        spec_missing_root(ts, top, i + 1)
    }
}

/// The request is unambiguous: no two targets share a name and no root was
/// requested twice.
pub open spec fn well_formed_request(ts: Seq<TargetModel>, top: Seq<Seq<char>>) -> bool {
    names_distinct(ts) && top.no_duplicates()
}

/// Some listed target is the same graph node as `t`.
pub open spec fn same_node_any(s: Seq<TargetModel>, t: TargetModel) -> bool {
    exists|q: int| 0 <= q < s.len() && same_node(#[trigger] s[q], t)
}

/// Bag position `q` holds a list entry from a position below `bound` that
/// is no chosen root.
pub open spec fn bag_sourced(
    tsv: Seq<TargetModel>,
    keepv: Seq<TargetModel>,
    bagv: Seq<TargetModel>,
    bound: int,
    q: int,
) -> bool {
    exists|x: int| 0 <= x < bound && #[trigger] tsv[x] == bagv[q] && !same_node_any(keepv, tsv[x])
}

/// What the closure filter hands back for root names that all resolve: at
/// least the root targets, in request order, at the front; only reachable
/// targets; and, for an unambiguous request, exactly the reachable targets
/// with no name twice.
pub open spec fn closure_result(
    tsv: Seq<TargetModel>,
    top: Seq<Seq<char>>,
    resv: Seq<TargetModel>,
) -> bool {
    let roots = top.to_set();
    &&& resv.len() >= top.len()
    &&& (forall|ri: int|
        0 <= ri < top.len() ==> (match spec_find_by_name(tsv, #[trigger] top[ri], 0) {
            Some(j) => resv[ri] == tsv[j],
            None => false,
        }))
    &&& all_reachable(tsv, roots, resv)
    &&& (well_formed_request(tsv, top) ==> (forall|t: TargetModel|
        #[trigger] reachable(tsv, roots, t) ==> resv.contains(t)))
    &&& (well_formed_request(tsv, top) ==> names_distinct(resv))
}

proof fn lemma_find_by_name_props(ts: Seq<TargetModel>, name: Seq<char>, i: int)
    requires
        0 <= i,
    ensures
        spec_find_by_name(ts, name, i) matches Some(j) ==> i <= j < ts.len() && ts[j].name == name,
    decreases ts.len() - i,
{
    if i < ts.len() {
        lemma_find_by_name_props(ts, name, i + 1);
    }
}

/// Index of the first target named `name`.
fn find_by_name(ts: &Vec<Target>, name: &String) -> (r: Option<usize>)
    ensures
        match r {
            Some(i) => i < ts.len() && spec_find_by_name(ts.deep_view(), name@, 0) == Some(
                i as int,
            ),
            None => spec_find_by_name(ts.deep_view(), name@, 0) is None,
        },
{
    let mut k: usize = 0;
    while k < ts.len()
        invariant
            k <= ts.len(),
            spec_find_by_name(ts.deep_view(), name@, 0) == spec_find_by_name(
                ts.deep_view(),
                name@,
                k as int,
            ),
        decreases ts.len() - k,
    {
        if ts[k].name == *name {
            return Some(k);
        }
        k = k + 1;
    }
    None
}

/// Whether `t` is the same graph node as any chosen root target.
fn matches_any(tops: &Vec<Target>, t: &Target) -> (r: bool)
    ensures
        r == same_node_any(tops.deep_view(), t@),
{
    let mut k: usize = 0;
    while k < tops.len()
        invariant
            k <= tops.len(),
            forall|q: int| 0 <= q < k ==> !same_node(#[trigger] tops.deep_view()[q], t@),
        decreases tops.len() - k,
    {
        if tops[k] == *t {
            assert(same_node(tops.deep_view()[k as int], t@));
            return true;
        }
        k = k + 1;
    }
    false
}

impl Args {
    /// Parse the documents behind the requested input path with the adapter
    /// the selector chooses, and, when top-level target names were
    /// requested, restrict the parsed list to the closure reachable from
    /// those roots: the roots head the result in request order; a root name
    /// with no target is an error; no requested root leaves the list
    /// untouched.
    pub fn parse_input(&self, sources: &SourceTree) -> (r: Result<Vec<Target>, GraphError>)
        ensures
            (spec_select(self.path@) matches Err(e) ==> (r matches Err(e2) && e2@ == e)),
            (spec_select(self.path@) matches Ok(lang) ==> (match lang.spec_parse(
                sources@,
                self.path@,
            ) {
                Err(pe) => r matches Err(e2) && e2@ == pe,
                Ok(tsv) => {
                    if self.top_level.deep_view().len() == 0 {
                        parse_result_model(&r) == Ok::<Seq<TargetModel>, GraphErrorModel>(tsv)
                    } else {
                        match spec_missing_root(tsv, self.top_level.deep_view(), 0) {
                            Some(name) => r matches Err(e2) && e2@
                                == GraphErrorModel::TargetNotFound(name),
                            None => r matches Ok(res) && closure_result(
                                tsv,
                                self.top_level.deep_view(),
                                res.deep_view(),
                            ),
                        }
                    }
                },
            })),
    {
        let lang = match LanguagesConfiguration::for_path(&self.path) {
            Ok(l) => l,
            Err(e) => {
                return Err(e);
            },
        };
        let targets = match lang.parse(sources, &self.path) {
            Ok(ts) => ts,
            Err(e) => {
                return Err(e);
            },
        };
        if self.top_level.len() == 0 {
            return Ok(targets);
        }
        let ghost tsv = targets.deep_view();
        let ghost top = self.top_level.deep_view();
        let ghost roots = top.to_set();
        let ghost strict = well_formed_request(tsv, top);

        let mut top_levels: Vec<Target> = Vec::new();
        let mut ri: usize = 0;
        while ri < self.top_level.len()
            invariant
                ri <= self.top_level.len(),
                tsv == targets.deep_view(),
                top == self.top_level.deep_view(),
                spec_select(self.path@) == Ok::<LanguagesConfiguration, GraphErrorModel>(lang),
                lang.spec_parse(sources@, self.path@) == Ok::<Seq<TargetModel>, GraphErrorModel>(
                    tsv,
                ),
                spec_missing_root(tsv, top, 0) == spec_missing_root(tsv, top, ri as int),
                top_levels.deep_view().len() == ri,
                forall|q: int|
                    0 <= q < ri ==> (match spec_find_by_name(tsv, #[trigger] top[q], 0) {
                        Some(j) => top_levels.deep_view()[q] == tsv[j],
                        None => false,
                    }),
            decreases self.top_level.len() - ri,
        {
            match find_by_name(&targets, &self.top_level[ri]) {
                None => {
                    proof {
                        assert(spec_missing_root(tsv, top, ri as int) == Some(top[ri as int]));
                    }
                    return Err(GraphError::TargetNotFound(self.top_level[ri].clone()));
                },
                Some(ti) => {
                    let ghost prev = top_levels.deep_view();
                    top_levels.push(targets[ti].duplicate());
                    proof {
                        assert(top_levels.deep_view() =~= prev.push(tsv[ti as int]));
                    }
                },
            }
            ri = ri + 1;
        }
        let ghost keepv = top_levels.deep_view();

        let mut bag: Vec<Target> = Vec::new();
        let mut bi: usize = 0;
        while bi < targets.len()
            invariant
                bi <= targets.len(),
                tsv == targets.deep_view(),
                top == self.top_level.deep_view(),
                keepv == top_levels.deep_view(),
                forall|q: int|
                    0 <= q < bag.deep_view().len() ==> #[trigger] bag_sourced(
                        tsv,
                        keepv,
                        bag.deep_view(),
                        bi as int,
                        q,
                    ),
                forall|x: int|
                    0 <= x < bi ==> (same_node_any(keepv, #[trigger] tsv[x])
                        || bag.deep_view().contains(tsv[x])),
                names_distinct(tsv) ==> names_distinct(bag.deep_view()),
            decreases targets.len() - bi,
        {
            if !matches_any(&top_levels, &targets[bi]) {
                let ghost prev = bag.deep_view();
                bag.push(targets[bi].duplicate());
                proof {
                    let nbv = bag.deep_view();
                    assert(nbv =~= prev.push(tsv[bi as int]));
                    assert forall|q: int| 0 <= q < nbv.len() implies #[trigger] bag_sourced(
                        tsv,
                        keepv,
                        nbv,
                        bi + 1,
                        q,
                    ) by {
                        if q < prev.len() {
                            assert(bag_sourced(tsv, keepv, prev, bi as int, q));
                            let x = choose|x: int|
                                0 <= x < bi && tsv[x] == prev[q] && !same_node_any(keepv, tsv[x]);
                            assert(tsv[x] == nbv[q]);
                        } else {
                            assert(tsv[bi as int] == nbv[q]);
                        }
                    }
                    assert forall|x: int|
                        0 <= x < bi + 1 implies (same_node_any(keepv, #[trigger] tsv[x])
                        || nbv.contains(tsv[x])) by {
                        if x < bi && !same_node_any(keepv, tsv[x]) {
                            let q = choose|q: int|
                                0 <= q < prev.len() && prev[q] == tsv[x];
                            assert(nbv[q] == tsv[x]);
                        }
                        if x == bi {
                            assert(nbv[prev.len() as int] == tsv[x]);
                        }
                    }
                    if names_distinct(tsv) {
                        assert forall|q1: int, q2: int|
                            0 <= q1 < nbv.len() && 0 <= q2 < nbv.len() && q1 != q2 implies
                            nbv[q1].name != nbv[q2].name by {
                            if q1 < prev.len() && q2 < prev.len() {
                                assert(nbv[q1] == prev[q1]);
                                assert(nbv[q2] == prev[q2]);
                            } else {
                                let qo = if q1 < prev.len() { q1 } else { q2 };
                                let qn = if q1 < prev.len() { q2 } else { q1 };
                                assert(nbv[qn] == tsv[bi as int]);
                                assert(nbv[qo] == prev[qo]);
                                assert(bag_sourced(tsv, keepv, prev, bi as int, qo));
                                let x = choose|x: int|
                                    0 <= x < bi && tsv[x] == prev[qo] && !same_node_any(
                                        keepv,
                                        tsv[x],
                                    );
                                if prev[qo].name == tsv[bi as int].name {
                                    assert(tsv[x].name == tsv[bi as int].name);
                                    assert(x == bi);
                                }
                            }
                        }
                    }
                }
            } else {
                proof {
                    let nbv = bag.deep_view();
                    assert forall|q: int| 0 <= q < nbv.len() implies #[trigger] bag_sourced(
                        tsv,
                        keepv,
                        nbv,
                        bi + 1,
                        q,
                    ) by {
                        assert(bag_sourced(tsv, keepv, nbv, bi as int, q));
                        let x = choose|x: int|
                            0 <= x < bi && tsv[x] == nbv[q] && !same_node_any(keepv, tsv[x]);
                        assert(0 <= x < bi + 1 && tsv[x] == nbv[q] && !same_node_any(
                            keepv,
                            tsv[x],
                        ));
                    }
                }
            }
            bi = bi + 1;
        }
        let ghost bagv = bag.deep_view();

        proof {
            lemma_closure_entry(tsv, top, keepv, bagv);
        }
        let mut acc: Vec<Target> = Vec::new();
        proof {
            assert(acc.deep_view() =~= Seq::<TargetModel>::empty());
        }
        let rest = iterate(
            &mut acc,
            top_levels,
            bag,
            Ghost(tsv),
            Ghost(roots),
            Ghost(strict),
        );
        proof {
            let accv = acc.deep_view();
            let restv = rest.deep_view();
            assert(accv.subrange(0, top.len() as int) =~= (accv.subrange(
                0,
                0 + keepv.len() as int,
            )).subrange(0, top.len() as int));
            assert(Seq::<TargetModel>::empty() + keepv =~= keepv);
            assert forall|q: int| 0 <= q < top.len() implies accv[q] == keepv[q] by {
                assert(accv.subrange(0, top.len() as int)[q] == accv[q]);
            }
            if strict {
                assert forall|t: TargetModel| #[trigger] reachable(tsv, roots, t) implies
                    accv.contains(t) by {
                    let n = choose|n: nat| reachable_in(tsv, roots, t, n);
                    lemma_closure_complete_step(tsv, roots, accv, restv, t, n);
                }
                let whole = accv + Seq::<TargetModel>::empty() + restv;
                assert forall|i: int, j: int|
                    0 <= i < accv.len() && 0 <= j < accv.len() && i != j implies accv[i].name
                    != accv[j].name by {
                    assert(whole[i] == accv[i]);
                    assert(whole[j] == accv[j]);
                }
            }
        }
        Ok(acc)
    }
}

/// The state handed to the closure walk is sound: the chosen roots head the
/// frontier, the bag holds what was not chosen, and, for an unambiguous
/// request, the two together hold the whole list exactly once.
proof fn lemma_closure_entry(
    tsv: Seq<TargetModel>,
    top: Seq<Seq<char>>,
    keepv: Seq<TargetModel>,
    bagv: Seq<TargetModel>,
)
    requires
        keepv.len() == top.len(),
        forall|q: int|
            0 <= q < top.len() ==> (match spec_find_by_name(tsv, #[trigger] top[q], 0) {
                Some(j) => keepv[q] == tsv[j],
                None => false,
            }),
        forall|q: int|
            0 <= q < bagv.len() ==> #[trigger] bag_sourced(tsv, keepv, bagv, tsv.len() as int, q),
        forall|x: int|
            0 <= x < tsv.len() ==> (same_node_any(keepv, #[trigger] tsv[x]) || bagv.contains(
                tsv[x],
            )),
        names_distinct(tsv) ==> names_distinct(bagv),
    ensures
        closure_state(
            tsv,
            top.to_set(),
            well_formed_request(tsv, top),
            Seq::<TargetModel>::empty(),
            keepv,
            bagv,
        ),
{
    let roots = top.to_set();
    let strict = well_formed_request(tsv, top);
    let whole = Seq::<TargetModel>::empty() + keepv + bagv;
    assert forall|q: int| 0 <= q < top.len() implies keepv[q].name == top[q] && tsv.contains(
        keepv[q],
    ) by {
        lemma_find_by_name_props(tsv, top[q], 0);
    }
    assert forall|t: TargetModel| #[trigger] whole.contains(t) implies tsv.contains(t) by {
        let i = choose|i: int| 0 <= i < whole.len() && whole[i] == t;
        if i < keepv.len() {
            assert(keepv[i] == t);
            lemma_find_by_name_props(tsv, top[i], 0);
            let j = choose|j: int| spec_find_by_name(tsv, top[i], 0) == Some(j);
            assert(keepv[i] == tsv[j]);
            assert(tsv.contains(tsv[j]));
        } else {
            assert(bagv[i - keepv.len()] == t);
            assert(bag_sourced(tsv, keepv, bagv, tsv.len() as int, i - keepv.len()));
            let x = choose|x: int|
                0 <= x < tsv.len() && tsv[x] == bagv[i - keepv.len()] && !same_node_any(
                    keepv,
                    tsv[x],
                );
            assert(tsv[x] == t);
        }
    }
    assert forall|q: int| 0 <= q < keepv.len() implies reachable(tsv, roots, #[trigger] keepv[q])
        by {
        assert(top.contains(top[q]));
        assert(roots.contains(keepv[q].name));
        assert(reachable_in(tsv, roots, keepv[q], 0));
    }
    if strict {
        // a bag target never carries a root name: the root of that name is
        // the same list entry, and it was filtered out of the bag
        assert forall|q: int| 0 <= q < bagv.len() implies !roots.contains(
            #[trigger] bagv[q].name,
        ) by {
            assert(bag_sourced(tsv, keepv, bagv, tsv.len() as int, q));
            let x = choose|x: int|
                0 <= x < tsv.len() && tsv[x] == bagv[q] && !same_node_any(keepv, tsv[x]);
            if roots.contains(bagv[q].name) {
                let ri = choose|ri: int| 0 <= ri < top.len() && top[ri] == bagv[q].name;
                lemma_find_by_name_props(tsv, top[ri], 0);
                let j = choose|j: int| spec_find_by_name(tsv, top[ri], 0) == Some(j);
                assert(keepv[ri] == tsv[j]);
                assert(tsv[j].name == tsv[x].name);
                assert(j == x);
                assert(same_node(keepv[ri], tsv[x]));
            }
        }
        // each side is duplicate-free and the two sides never share a name
        assert forall|i: int, j: int|
            0 <= i < whole.len() && 0 <= j < whole.len() && i != j implies whole[i].name
            != whole[j].name by {
            if i < keepv.len() && j < keepv.len() {
                assert(whole[i] == keepv[i] && whole[j] == keepv[j]);
                assert(keepv[i].name == top[i] && keepv[j].name == top[j]);
            } else if i < keepv.len() && j >= keepv.len() {
                assert(whole[j] == bagv[j - keepv.len()]);
                assert(top.contains(top[i]));
                assert(roots.contains(keepv[i].name));
            } else if i >= keepv.len() && j < keepv.len() {
                assert(whole[i] == bagv[i - keepv.len()]);
                assert(top.contains(top[j]));
                assert(roots.contains(keepv[j].name));
            } else {
                let qi = i - keepv.len();
                let qj = j - keepv.len();
                assert(whole[i] == bagv[qi] && whole[j] == bagv[qj]);
            }
        }
        // every listed target stands somewhere: as the chosen root of its
        // name or in the bag
        assert forall|t: TargetModel| tsv.contains(t) implies whole.contains(t) by {
            let x = choose|x: int| 0 <= x < tsv.len() && tsv[x] == t;
            if same_node_any(keepv, tsv[x]) {
                let q = choose|q: int| 0 <= q < keepv.len() && same_node(keepv[q], tsv[x]);
                lemma_find_by_name_props(tsv, top[q], 0);
                let j = choose|j: int| spec_find_by_name(tsv, top[q], 0) == Some(j);
                assert(keepv[q] == tsv[j]);
                assert(tsv[j].name == tsv[x].name);
                assert(j == x);
                assert(whole[q] == t);
            } else {
                let q = choose|q: int| 0 <= q < bagv.len() && bagv[q] == tsv[x];
                assert(whole[keepv.len() + q] == t);
            }
        }
    }
}

} // verus!
