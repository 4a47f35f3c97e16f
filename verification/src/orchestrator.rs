//! The fetch orchestrator's decision core. The binary runs one concurrent
//! task per resolved request and delivers each task's result, tagged with its
//! slot, over a channel; completions arrive in whatever order scheduling
//! produces. This module decides everything order-sensitive: which requests
//! resolve to a task at all, and how the tagged completions are put back into
//! request order. The output is thereby independent of completion order.

use vstd::prelude::*;
use crate::modules::{ModuleKind, ModuleRegistry, module_for_name};

verus! {

/// The fetch plan of a request list: the module of every name the registry
/// resolves, in request order. An unregistered name contributes nothing — no
/// task, no output slot, no placeholder.
pub open spec fn plan_spec(reqs: Seq<Seq<char>>) -> Seq<ModuleKind>
    decreases reqs.len(),
{
    if reqs.len() == 0 {
        Seq::empty()
    } else {
        let rest = plan_spec(reqs.drop_first());
        match module_for_name(reqs[0]) {
            Some(k) => seq![k] + rest,
            None => rest,
        }
    }
}

proof fn lemma_plan_push(reqs: Seq<Seq<char>>, x: Seq<char>)
    ensures
        plan_spec(reqs.push(x)) == plan_spec(reqs) + (match module_for_name(x) {
            Some(k) => seq![k],
            None => Seq::<ModuleKind>::empty(),
        }),
    decreases reqs.len(),
{
    let tail = (match module_for_name(x) {
        Some(k) => seq![k],
        None => Seq::<ModuleKind>::empty(),
    });
    if reqs.len() == 0 {
        assert(reqs.push(x).drop_first() =~= Seq::<Seq<char>>::empty());
        assert(reqs.push(x)[0] == x);
        assert(plan_spec(Seq::<Seq<char>>::empty()) == Seq::<ModuleKind>::empty());
        assert(plan_spec(reqs.push(x)) =~= plan_spec(reqs) + tail);
    } else {
        lemma_plan_push(reqs.drop_first(), x);
        assert(reqs.push(x).drop_first() =~= reqs.drop_first().push(x));
        assert(reqs.push(x)[0] == reqs[0]);
        assert(plan_spec(reqs.push(x)) =~= plan_spec(reqs) + tail);
    }
}

/// Resolves a request list against the registry into the fetch plan: one
/// entry per registered name, in request order, unregistered names omitted.
/// The position of an entry in the plan is the output slot its task reports
/// under, so the plan's length — not the request count — sizes the output.
pub fn resolve_requests(requests: &Vec<String>, registry: &ModuleRegistry) -> (plan: Vec<
    ModuleKind,
>)
    ensures
        plan@ == plan_spec(requests@.map_values(|t: String| t@)),
        plan@.len() <= requests@.len(),
{
    let ghost gr = requests@.map_values(|t: String| t@);
    let mut plan: Vec<ModuleKind> = Vec::new();
    let mut i: usize = 0;
    proof {
        assert(gr.take(0) =~= Seq::<Seq<char>>::empty());
        assert(plan_spec(gr.take(0)).len() <= 0);
    }
    while i < requests.len()
        invariant
            gr == requests@.map_values(|t: String| t@),
            i <= gr.len(),
            plan@ == plan_spec(gr.take(i as int)),
            plan@.len() <= i,
        decreases gr.len() - i,
    {
        match registry.get(requests[i].as_str()) {
            Some(kind) => {
                plan.push(kind);
            },
            None => {},
        }
        proof {
            assert(gr.take(i + 1) =~= gr.take(i as int).push(gr[i as int]));
            lemma_plan_push(gr.take(i as int), gr[i as int]);
            assert(plan@ =~= plan_spec(gr.take(i + 1)));
        }
        i = i + 1;
    }
    proof {
        assert(gr.take(gr.len() as int) =~= gr);
    }
    plan
}

/// Slot `j` received a completion somewhere in `c`.
pub open spec fn slot_delivered(c: Seq<(usize, String)>, j: int) -> bool {
    exists|k: int| 0 <= k < c.len() && (#[trigger] c[k]).0 == j
}

/// Exactly one completion per slot of an `n`-task plan: one completion per
/// task, every tag a valid slot, no slot tagged twice. (With `n` distinct
/// tags below `n`, every slot is in fact covered.)
pub open spec fn delivery_ok(c: Seq<(usize, String)>, n: int) -> bool {
    &&& c.len() == n
    &&& forall|k: int| 0 <= k < c.len() ==> (#[trigger] c[k]).0 < n
    &&& forall|k1: int, k2: int|
        0 <= k1 < c.len() && 0 <= k2 < c.len() && k1 != k2 ==> (#[trigger] c[k1]).0 != (
        #[trigger] c[k2]).0
}

/// `r` is the in-order reading of the tagged completions `c`: every
/// completion's text stands at its tagged slot, and a slot nothing was
/// delivered for is empty.
pub open spec fn aggregated(r: Seq<Seq<char>>, c: Seq<(usize, String)>, n: int) -> bool {
    &&& r.len() == n
    &&& forall|k: int| 0 <= k < c.len() ==> r[(#[trigger] c[k]).0 as int] == c[k].1@
    &&& forall|j: int| 0 <= j < n && !slot_delivered(c, j) ==> (#[trigger] r[j]).len() == 0
}

/// Puts the tagged completions of an `n`-task plan back into plan order:
/// completion `(slot, text)` lands at index `slot`, whatever position it
/// arrived in. Returns the ordered texts, or `None` when the completions are
/// not exactly one per slot — a tag out of range, a slot delivered twice, or
/// a count other than `n`.
pub fn aggregate_results(n: usize, completions: &Vec<(usize, String)>) -> (r: Option<Vec<String>>)
    ensures
        r is Some <==> delivery_ok(completions@, n as int),
        r is Some ==> aggregated(r->Some_0@.map_values(|t: String| t@), completions@, n as int),
{
    let ghost c = completions@;
    if completions.len() != n {
        return None;
    }
    let mut results: Vec<String> = Vec::new();
    let mut seen: Vec<bool> = Vec::new();
    let mut i: usize = 0;
    while i < n
        invariant
            i <= n,
            results@.len() == i,
            seen@.len() == i,
            forall|j: int| 0 <= j < i ==> (#[trigger] results@[j])@.len() == 0,
            forall|j: int| 0 <= j < i ==> !(#[trigger] seen@[j]),
        decreases n - i,
    {
        results.push(String::new());
        seen.push(false);
        i = i + 1;
    }
    let mut k: usize = 0;
    while k < completions.len()
        invariant
            c == completions@,
            c.len() == n,
            k <= c.len(),
            results@.len() == n,
            seen@.len() == n,
            forall|k1: int| 0 <= k1 < k ==> (#[trigger] c[k1]).0 < n,
            forall|k1: int, k2: int|
                0 <= k1 < k && 0 <= k2 < k && k1 != k2 ==> (#[trigger] c[k1]).0 != (
                #[trigger] c[k2]).0,
            forall|j: int|
                0 <= j < n ==> ((#[trigger] seen@[j]) <==> slot_delivered(c.take(k as int), j)),
            forall|k1: int|
                0 <= k1 < k ==> results@[(#[trigger] c[k1]).0 as int]@ == c[k1].1@,
            forall|j: int|
                0 <= j < n && !slot_delivered(c.take(k as int), j) ==> (#[trigger] results@[j])@.len()
                    == 0,
        decreases c.len() - k,
    {
        let idx = completions[k].0;
        if idx >= n {
            proof {
                assert(!delivery_ok(c, n as int));
            }
            return None;
        }
        if seen[idx] {
            proof {
                let ghost k1 = choose|k1: int|
                    0 <= k1 < k && (#[trigger] c.take(k as int)[k1]).0 == idx;
                assert(c[k1] == c.take(k as int)[k1]);
                assert(!delivery_ok(c, n as int));
            }
            return None;
        }
        let text = completions[k].1.clone();
        let ghost old_results = results@;
        let ghost old_seen = seen@;
        results[idx] = text;
        seen[idx] = true;
        proof {
            assert(c.take(k + 1) =~= c.take(k as int).push(c[k as int]));
            assert forall|k1: int| 0 <= k1 < k implies (#[trigger] c[k1]).0 != idx by {
                if c[k1].0 == idx {
                    assert(c.take(k as int)[k1] == c[k1]);
                    assert(slot_delivered(c.take(k as int), idx as int));
                    assert(old_seen[idx as int]);
                }
            }
            assert forall|j: int| 0 <= j < n implies ((#[trigger] seen@[j]) <==> slot_delivered(
                c.take(k + 1),
                j,
            )) by {
                if j == idx as int {
                    assert(c.take(k + 1)[k as int].0 == idx);
                } else {
                    assert(seen@[j] == old_seen[j]);
                    if slot_delivered(c.take(k + 1), j) {
                        let k1 = choose|k1: int|
                            0 <= k1 < k + 1 && (#[trigger] c.take(k + 1)[k1]).0 == j;
                        assert(k1 < k);
                        assert(c.take(k as int)[k1] == c.take(k + 1)[k1]);
                    }
                    if slot_delivered(c.take(k as int), j) {
                        let k1 = choose|k1: int|
                            0 <= k1 < k && (#[trigger] c.take(k as int)[k1]).0 == j;
                        assert(c.take(k + 1)[k1] == c.take(k as int)[k1]);
                    }
                }
            }
            assert forall|k1: int| 0 <= k1 < k + 1 implies results@[(#[trigger] c[k1]).0 as int]@
                == c[k1].1@ by {
                if k1 < k {
                    assert(c[k1].0 != idx) by {
                        if c[k1].0 == idx {
                            assert(c.take(k as int)[k1] == c[k1]);
                            assert(slot_delivered(c.take(k as int), idx as int));
                            assert(old_seen[idx as int]);
                        }
                    }
                    assert(results@[c[k1].0 as int] == old_results[c[k1].0 as int]);
                }
            }
        }
        k = k + 1;
    }
    proof {
        assert(c.take(c.len() as int) =~= c);
        assert(delivery_ok(c, n as int));
        assert(aggregated(results@.map_values(|t: String| t@), c, n as int)) by {
            assert(results@.map_values(|t: String| t@).len() == results@.len());
            assert forall|k1: int| 0 <= k1 < c.len() implies results@.map_values(|t: String| t@)[(
            #[trigger] c[k1]).0 as int] == c[k1].1@ by {
                assert(results@[c[k1].0 as int]@ == c[k1].1@);
            }
            assert forall|j: int| #![auto]
                0 <= j < n && !slot_delivered(c, j) implies results@.map_values(
                |t: String| t@,
            )[j].len() == 0 by {
                assert(results@[j]@.len() == 0);
            }
        }
    }
    Some(results)
}

/// Order invariance: the aggregated output is a function of which tagged
/// results were delivered, never of the order they arrived in. Whatever
/// per-provider delays scheduling imposes, two complete deliveries of the
/// same tagged results aggregate to the same output, text for text.
pub proof fn lemma_order_invariance(
    r1: Seq<Seq<char>>,
    r2: Seq<Seq<char>>,
    c1: Seq<(usize, String)>,
    c2: Seq<(usize, String)>,
    n: int,
)
    requires
        delivery_ok(c1, n),
        delivery_ok(c2, n),
        c1.to_multiset() == c2.to_multiset(),
        aggregated(r1, c1, n),
        aggregated(r2, c2, n),
    ensures
        r1 == r2,
{
    c1.to_multiset_ensures();
    c2.to_multiset_ensures();
    assert forall|j: int| 0 <= j < n implies r1[j] == r2[j] by {
        if slot_delivered(c1, j) {
            let k1 = choose|k: int| 0 <= k < c1.len() && (#[trigger] c1[k]).0 == j;
            let x = c1[k1];
            assert(c1.contains(x));
            assert(c1.to_multiset().count(x) > 0);
            assert(c2.contains(x));
            let k2 = choose|k: int| 0 <= k < c2.len() && c2[k] == x;
            assert(c2[k2].0 == j);
            assert(r1[j] == x.1@);
            assert(r2[j] == x.1@);
        } else {
            assert(!slot_delivered(c2, j)) by {
                if slot_delivered(c2, j) {
                    let k2 = choose|k: int| 0 <= k < c2.len() && (#[trigger] c2[k]).0 == j;
                    let x = c2[k2];
                    assert(c2.contains(x));
                    assert(c2.to_multiset().count(x) > 0);
                    assert(c1.contains(x));
                    let k1 = choose|k: int| 0 <= k < c1.len() && c1[k] == x;
                    assert(c1[k1].0 == j);
                }
            }
            assert(r1[j].len() == 0);
            assert(r2[j].len() == 0);
            assert(r1[j] =~= r2[j]);
        }
    }
    assert(r1 =~= r2);
}

} // verus!
