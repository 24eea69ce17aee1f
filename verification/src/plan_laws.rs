//! Laws of pruning: what every plan from [`plan_prune`](crate::context::plan_prune)
//! and every context from [`prepare_context`](crate::context::prepare_context)
//! satisfies, stated over their contracts.
use vstd::prelude::*;
use crate::context::{
    additive, any_pinned, available_tokens, bounds_of, counted, counts_by, fault_message, first_turn_start,
    gather, law_every_template_fits_its_counts, law_kept_window_is_recent,
    law_latest_turn_kept, law_pinned_turns_kept, law_prompt_fits_window, law_turns_are_whole,
    lemma_sum_sel_one, lemma_sum_sel_split, lemma_sum_sel_union, lemma_sum_u32_nonneg, lemma_turn_order,
    lemma_turns_shape, lemma_user_starts, lemma_window_sum, observed, plan_keep, plan_matches,
    prepared_as, prepared_matches, pruned_as, select, spec_plan, sum_sel, sum_u32, turn_costs_of,
    turn_pinned_of, turns_of, user_starts, window_flags, ContextConfig, ContextFault, PreparedContext,
    PruneCounts, PrunePlan,
};
use crate::error::{CoreResult, ErrorView};
use crate::messages::{MessageView, Role, view_messages};
use crate::template::{BuiltinTemplate, ChatTemplate};
use crate::tools::ToolSchemaView;

verus! {

// --- The shape of a plan -----------------------------------------------------

/// `r` is one whole turn of `mv`: it starts at a user message and holds no
/// other user message.
pub open spec fn whole_turn(mv: Seq<MessageView>, r: (int, int)) -> bool {
    &&& 0 <= r.0 < r.1 <= mv.len()
    &&& mv[r.0].role == Role::User
    &&& forall|i: int| r.0 < i < r.1 ==> #[trigger] mv[i].role != Role::User
}

/// The ranges come in conversation order, without overlap.
pub open spec fn in_order(rs: Seq<(int, int)>) -> bool {
    forall|a: int, b: int| #![trigger rs[a], rs[b]] 0 <= a < b < rs.len() ==> rs[a].1 <= rs[b].0
}

/// No range of `xs` overlaps a range of `ys`.
pub open spec fn apart(xs: Seq<(int, int)>, ys: Seq<(int, int)>) -> bool {
    forall|a: int, b: int|
        #![trigger xs[a], ys[b]]
        0 <= a < xs.len() && 0 <= b < ys.len() ==> xs[a].1 <= ys[b].0 || ys[b].1 <= xs[a].0
}

/// Position `i` lies in one of the ranges.
pub open spec fn covered(rs: Seq<(int, int)>, i: int) -> bool {
    exists|a: int| 0 <= a < rs.len() && (#[trigger] rs[a]).0 <= i < rs[a].1
}

/// Each selected range is a turn whose flag is `want`.
proof fn lemma_select_flagged(ts: Seq<(int, int)>, keep: Seq<bool>, want: bool)
    ensures
        forall|j: int|
            #![trigger select(ts, keep, want)[j]]
            0 <= j < select(ts, keep, want).len() ==> exists|k: int|
                0 <= k < ts.len() && #[trigger] ts[k] == select(ts, keep, want)[j] && keep[k] == want,
    decreases ts.len(),
{
    if ts.len() > 0 {
        let d = ts.drop_last();
        lemma_select_flagged(d, keep, want);
        let p = select(d, keep, want);
        assert forall|j: int| #![trigger select(ts, keep, want)[j]] 0 <= j < select(ts, keep, want).len() implies exists|k: int|
            0 <= k < ts.len() && #[trigger] ts[k] == select(ts, keep, want)[j] && keep[k] == want by {
            if j < p.len() {
                let k = choose|k: int| 0 <= k < d.len() && #[trigger] d[k] == p[j] && keep[k] == want;
                assert(ts[k] == d[k]);
            } else {
                assert(ts[ts.len() - 1] == select(ts, keep, want)[j]);
            }
        }
    }
}

/// Every turn is selected under its own flag.
proof fn lemma_select_complete(ts: Seq<(int, int)>, keep: Seq<bool>, k: int)
    requires
        0 <= k < ts.len(),
    ensures
        exists|j: int|
            0 <= j < select(ts, keep, keep[k]).len() && #[trigger] select(ts, keep, keep[k])[j] == ts[k],
    decreases ts.len(),
{
    let d = ts.drop_last();
    let p = select(d, keep, keep[k]);
    if k == ts.len() - 1 {
        assert(select(ts, keep, keep[k])[p.len() as int] == ts[k]);
    } else {
        lemma_select_complete(d, keep, k);
        let j = choose|j: int| 0 <= j < p.len() && #[trigger] p[j] == d[k];
        assert(select(ts, keep, keep[k])[j] == ts[k]);
    }
}

/// Selection keeps ranges that come in order in order.
proof fn lemma_select_sorted(ts: Seq<(int, int)>, keep: Seq<bool>, want: bool)
    requires
        forall|j: int, k: int| #![trigger ts[j], ts[k]] 0 <= j < k < ts.len() ==> ts[j].1 <= ts[k].0,
    ensures
        in_order(select(ts, keep, want)),
    decreases ts.len(),
{
    if ts.len() > 0 {
        let d = ts.drop_last();
        assert forall|j: int, k: int| #![trigger d[j], d[k]] 0 <= j < k < d.len() implies d[j].1 <= d[k].0 by {
            assert(ts[j] == d[j] && ts[k] == d[k]);
        }
        lemma_select_sorted(d, keep, want);
        lemma_select_flagged(d, keep, want);
        let p = select(d, keep, want);
        let s = select(ts, keep, want);
        assert forall|a: int, b: int| #![trigger s[a], s[b]] 0 <= a < b < s.len() implies s[a].1 <= s[b].0 by {
            if b < p.len() {
                assert(s[a] == p[a] && s[b] == p[b]);
            } else {
                let k = choose|k: int| 0 <= k < d.len() && #[trigger] d[k] == p[a] && keep[k] == want;
                assert(s[a] == p[a]);
                assert(ts[k] == d[k]);
                assert(s[b] == ts[ts.len() - 1]);
            }
        }
    }
}

/// The last selected range is the latest turn with that flag: every later
/// turn has the other flag.
proof fn lemma_select_last(ts: Seq<(int, int)>, keep: Seq<bool>, want: bool)
    requires
        select(ts, keep, want).len() > 0,
    ensures
        exists|d: int|
            0 <= d < ts.len() && keep[d] == want && #[trigger] ts[d] == select(ts, keep, want).last()
                && forall|j: int| d < j < ts.len() ==> keep[j] != want,
    decreases ts.len(),
{
    let n = ts.len() as int;
    let dr = ts.drop_last();
    if keep[n - 1] == want {
        assert(ts[n - 1] == select(ts, keep, want).last());
    } else {
        assert(select(ts, keep, want) == select(dr, keep, want));
        lemma_select_last(dr, keep, want);
        let d = choose|d: int|
            0 <= d < dr.len() && keep[d] == want && #[trigger] dr[d] == select(dr, keep, want).last()
                && forall|j: int| d < j < dr.len() ==> keep[j] != want;
        assert(ts[d] == dr[d]);
    }
}

/// Contiguous turns cover every position from the first turn's start to the
/// last turn's end.
proof fn lemma_turn_covering(ts: Seq<(int, int)>, i: int)
    requires
        ts.len() > 0,
        forall|k: int| 0 <= k < ts.len() ==> (#[trigger] ts[k]).0 < ts[k].1,
        forall|k: int| 0 <= k < ts.len() - 1 ==> (#[trigger] ts[k]).1 == ts[k + 1].0,
        ts[0].0 <= i < ts.last().1,
    ensures
        exists|k: int| 0 <= k < ts.len() && (#[trigger] ts[k]).0 <= i < ts[k].1,
    decreases ts.len(),
{
    let n = ts.len() as int;
    if i >= ts[n - 1].0 {
        assert(ts[n - 1].0 <= i < ts[n - 1].1);
    } else {
        let d = ts.drop_last();
        assert(n > 1);
        assert(ts[n - 2].1 == ts[n - 1].0);
        assert forall|k: int| 0 <= k < d.len() implies (#[trigger] d[k]).0 < d[k].1 by {
            assert(d[k] == ts[k]);
        }
        assert forall|k: int| 0 <= k < d.len() - 1 implies (#[trigger] d[k]).1 == d[k + 1].0 by {
            assert(d[k] == ts[k] && d[k + 1] == ts[k + 1]);
        }
        lemma_turn_covering(d, i);
        let k = choose|k: int| 0 <= k < d.len() && (#[trigger] d[k]).0 <= i < d[k].1;
        assert(ts[k] == d[k]);
    }
}

/// Earlier turns end no later than later turns start.
proof fn lemma_turns_in_order(mv: Seq<MessageView>)
    ensures
        forall|j: int, k: int|
            #![trigger turns_of(mv)[j], turns_of(mv)[k]]
            0 <= j < k < turns_of(mv).len() ==> turns_of(mv)[j].1 <= turns_of(mv)[k].0,
{
    lemma_turns_shape(mv);
    let ts = turns_of(mv);
    assert forall|j: int, k: int| #![trigger ts[j], ts[k]] 0 <= j < k < ts.len() implies ts[j].1 <= ts[k].0 by {
        lemma_turn_order(ts, j, k);
    }
}

/// A plan is made of whole turns, taken apart in two: the kept and the
/// dropped ranges are each whole turns in conversation order, no message lies
/// in both, and together they cover every message from the first user message
/// on, which is every message when the conversation starts with one.
pub proof fn law_plan_shape<T: ChatTemplate, F: Fn(&str) -> u32>(
    f: F,
    t: T,
    system_prompt: Seq<char>,
    mv: Seq<MessageView>,
    tools: Seq<ToolSchemaView>,
    cfg: ContextConfig,
    r: CoreResult<PrunePlan>,
)
    requires
        pruned_as(f, t, system_prompt, mv, tools, cfg, r),
        r is Ok,
    ensures
        ({
            let kept = bounds_of(r->Ok_0.kept@);
            let dropped = bounds_of(r->Ok_0.dropped@);
            &&& forall|x: int| 0 <= x < kept.len() ==> whole_turn(mv, #[trigger] kept[x])
            &&& forall|y: int| 0 <= y < dropped.len() ==> whole_turn(mv, #[trigger] dropped[y])
            &&& in_order(kept)
            &&& in_order(dropped)
            &&& apart(kept, dropped)
            &&& forall|i: int| first_turn_start(mv) <= i < mv.len() ==> covered(kept, i) || covered(dropped, i)
            &&& (mv.len() == 0 || mv[0].role == Role::User) ==> first_turn_start(mv) == 0
        }),
{
    let c = choose|c: PruneCounts|
        #[trigger] observed(f, t, system_prompt, mv, tools, available_tokens(cfg), c) && plan_matches(
            mv,
            spec_plan::<T>(cfg, mv, c),
            r,
        );
    let keep = spec_plan::<T>(cfg, mv, c)->Ok_0;
    let ts = turns_of(mv);
    let kept = bounds_of(r->Ok_0.kept@);
    let dropped = bounds_of(r->Ok_0.dropped@);
    assert(kept == select(ts, keep, true) && dropped == select(ts, keep, false));
    lemma_turns_shape(mv);
    lemma_turns_in_order(mv);
    law_turns_are_whole(mv);
    lemma_select_flagged(ts, keep, true);
    lemma_select_flagged(ts, keep, false);
    assert forall|x: int| 0 <= x < kept.len() implies whole_turn(mv, #[trigger] kept[x]) by {
        let k = choose|k: int| 0 <= k < ts.len() && #[trigger] ts[k] == select(ts, keep, true)[x] && keep[k] == true;
    }
    assert forall|y: int| 0 <= y < dropped.len() implies whole_turn(mv, #[trigger] dropped[y]) by {
        let k = choose|k: int| 0 <= k < ts.len() && #[trigger] ts[k] == select(ts, keep, false)[y] && keep[k] == false;
    }
    lemma_select_sorted(ts, keep, true);
    lemma_select_sorted(ts, keep, false);
    assert forall|a: int, b: int| #![trigger kept[a], dropped[b]] 0 <= a < kept.len() && 0 <= b < dropped.len() implies kept[a].1
        <= dropped[b].0 || dropped[b].1 <= kept[a].0 by {
        let ka = choose|k: int| 0 <= k < ts.len() && #[trigger] ts[k] == select(ts, keep, true)[a] && keep[k] == true;
        let kb = choose|k: int| 0 <= k < ts.len() && #[trigger] ts[k] == select(ts, keep, false)[b] && keep[k] == false;
        if ka < kb {
            assert(ts[ka].1 <= ts[kb].0);
        } else {
            assert(ts[kb].1 <= ts[ka].0);
        }
    }
    assert forall|i: int| first_turn_start(mv) <= i < mv.len() implies covered(kept, i) || covered(dropped, i) by {
        lemma_turn_covering(ts, i);
        let k = choose|k: int| 0 <= k < ts.len() && (#[trigger] ts[k]).0 <= i < ts[k].1;
        lemma_select_complete(ts, keep, k);
        let j = choose|j: int| 0 <= j < select(ts, keep, keep[k]).len() && #[trigger] select(ts, keep, keep[k])[j] == ts[k];
        if keep[k] {
            assert(kept[j] == ts[k]);
        } else {
            assert(dropped[j] == ts[k]);
        }
    }
    if mv.len() > 0 && mv[0].role == Role::User {
        lemma_user_starts(mv);
        let s = user_starts(mv);
        let k = choose|k: int| 0 <= k < s.len() && #[trigger] s[k] == 0;
        if k > 0 {
            assert(s[0] < s[k]);
        }
    }
}

/// A plan keeps the latest turn, and drops no turn that holds a pinned
/// message.
pub proof fn law_plan_keeps_latest_and_pinned<T: ChatTemplate, F: Fn(&str) -> u32>(
    f: F,
    t: T,
    system_prompt: Seq<char>,
    mv: Seq<MessageView>,
    tools: Seq<ToolSchemaView>,
    cfg: ContextConfig,
    r: CoreResult<PrunePlan>,
)
    requires
        pruned_as(f, t, system_prompt, mv, tools, cfg, r),
        r is Ok,
    ensures
        ({
            let kept = bounds_of(r->Ok_0.kept@);
            let dropped = bounds_of(r->Ok_0.dropped@);
            &&& (exists|i: int| 0 <= i < mv.len() && #[trigger] mv[i].role == Role::User) ==> kept.len() > 0
                && kept.last().1 == mv.len()
            &&& forall|y: int, i: int|
                0 <= y < dropped.len() && (#[trigger] dropped[y]).0 <= i < dropped[y].1 ==> !(#[trigger] mv[i].pinned)
        }),
{
    let c = choose|c: PruneCounts|
        #[trigger] observed(f, t, system_prompt, mv, tools, available_tokens(cfg), c) && plan_matches(
            mv,
            spec_plan::<T>(cfg, mv, c),
            r,
        );
    let keep = spec_plan::<T>(cfg, mv, c)->Ok_0;
    let ts = turns_of(mv);
    let costs = turn_costs_of(mv, c.per_message);
    let pinned = turn_pinned_of(mv);
    let available = available_tokens(cfg);
    let overhead = c.system + c.prefix;
    let kept = bounds_of(r->Ok_0.kept@);
    let dropped = bounds_of(r->Ok_0.dropped@);
    lemma_turns_shape(mv);
    if exists|i: int| 0 <= i < mv.len() && #[trigger] mv[i].role == Role::User {
        let i = choose|i: int| 0 <= i < mv.len() && #[trigger] mv[i].role == Role::User;
        lemma_user_starts(mv);
        assert(user_starts(mv).len() > 0);
        law_latest_turn_kept(available, overhead, costs, pinned);
        assert(select(ts, keep, true) == select(ts.drop_last(), keep, true).push(ts.last()));
    }
    lemma_select_flagged(ts, keep, false);
    assert forall|y: int, i: int|
        0 <= y < dropped.len() && (#[trigger] dropped[y]).0 <= i < dropped[y].1 implies !(#[trigger] mv[i].pinned) by {
        let k = choose|k: int| 0 <= k < ts.len() && #[trigger] ts[k] == select(ts, keep, false)[y] && keep[k] == false;
        if pinned[k] {
            law_pinned_turns_kept(available, overhead, costs, pinned, k);
        }
        assert(!any_pinned(mv, ts[k].0, ts[k].1));
    }
}

// --- The budget of a plan ------------------------------------------------------

/// What the counter said for the messages of the range `r`.
pub open spec fn range_cost(per_message: Seq<u32>, r: (int, int)) -> int {
    sum_u32(per_message.subrange(r.0, r.1))
}

/// What the counter said for the messages of all the ranges.
pub open spec fn ranges_cost(per_message: Seq<u32>, rs: Seq<(int, int)>) -> int
    decreases rs.len(),
{
    if rs.len() == 0 {
        0
    } else {
        ranges_cost(per_message, rs.drop_last()) + range_cost(per_message, rs.last())
    }
}

/// The cost of the selected turns is the selected sum of the turn costs.
proof fn lemma_ranges_cost_select(mv: Seq<MessageView>, pm: Seq<u32>, keep: Seq<bool>, want: bool, m: int)
    requires
        0 <= m <= turns_of(mv).len(),
    ensures
        ranges_cost(pm, select(turns_of(mv).take(m), keep, want)) == sum_sel(
            turn_costs_of(mv, pm),
            keep,
            want,
            0,
            m,
        ),
    decreases m,
{
    let ts = turns_of(mv);
    let costs = turn_costs_of(mv, pm);
    if m == 0 {
        assert(ts.take(0) =~= Seq::<(int, int)>::empty());
    } else {
        lemma_ranges_cost_select(mv, pm, keep, want, m - 1);
        assert(ts.take(m).drop_last() =~= ts.take(m - 1));
        let p = select(ts.take(m - 1), keep, want);
        lemma_sum_sel_split(costs, keep, want, 0, m - 1, m);
        lemma_sum_sel_one(costs, keep, want, m - 1);
        assert(ts.take(m)[m - 1] == ts[m - 1]);
        if keep[m - 1] == want {
            assert(p.push(ts[m - 1]).drop_last() =~= p);
        }
    }
}

/// The turn costs are never negative.
proof fn lemma_turn_costs_nonneg(mv: Seq<MessageView>, pm: Seq<u32>)
    ensures
        forall|x: int| 0 <= x < turn_costs_of(mv, pm).len() ==> 0 <= #[trigger] turn_costs_of(mv, pm)[x],
{
    let ts = turns_of(mv);
    assert forall|x: int| 0 <= x < turn_costs_of(mv, pm).len() implies 0 <= #[trigger] turn_costs_of(mv, pm)[x] by {
        lemma_sum_u32_nonneg(pm.subrange(ts[x].0, ts[x].1));
    }
}

/// With costs that are never negative, a wider flag set sums to no less.
proof fn lemma_sum_sel_mono(costs: Seq<int>, a: Seq<bool>, b: Seq<bool>, lo: int, hi: int)
    requires
        0 <= lo,
        hi <= costs.len(),
        forall|k: int| 0 <= k < costs.len() ==> 0 <= #[trigger] costs[k],
        forall|k: int| lo <= k < hi && #[trigger] b[k] ==> a[k],
    ensures
        sum_sel(costs, b, true, lo, hi) <= sum_sel(costs, a, true, lo, hi),
    decreases hi - lo,
{
    if lo < hi {
        lemma_sum_sel_mono(costs, a, b, lo + 1, hi);
    }
}

/// Summing what is not flagged is summing what the negated flags flag.
proof fn lemma_sum_sel_negate(costs: Seq<int>, flags: Seq<bool>, neg: Seq<bool>, lo: int, hi: int)
    requires
        forall|k: int| lo <= k < hi ==> #[trigger] neg[k] == !flags[k],
    ensures
        sum_sel(costs, neg, true, lo, hi) == sum_sel(costs, flags, false, lo, hi),
    decreases hi - lo,
{
    if lo < hi {
        lemma_sum_sel_negate(costs, flags, neg, lo + 1, hi);
    }
}

/// The turns a successful plan keeps fit in the budget beside the overhead.
proof fn lemma_kept_within_budget(available: int, overhead: int, costs: Seq<int>, pinned: Seq<bool>)
    requires
        costs.len() == pinned.len(),
        forall|x: int| 0 <= x < costs.len() ==> 0 <= #[trigger] costs[x],
        plan_keep(available, overhead, costs, pinned) is Ok,
    ensures
        overhead + sum_sel(costs, plan_keep(available, overhead, costs, pinned)->Ok_0, true, 0, costs.len() as int)
            <= available,
{
    let keep = plan_keep(available, overhead, costs, pinned)->Ok_0;
    let n = costs.len() as int;
    if n > 0 {
        let last = n - 1;
        let b1 = available - overhead - costs[last];
        let pin = sum_sel(costs, pinned, true, 0, last);
        let b2 = b1 - pin;
        let w = window_flags(costs, pinned, last, b2);
        lemma_sum_sel_split(costs, keep, true, 0, last, n);
        lemma_sum_sel_one(costs, keep, true, last);
        lemma_sum_sel_union(costs, keep, pinned, w, 0, last);
        lemma_window_sum(costs, pinned, last, b2, 0);
    }
}

/// The budget of a plan, over what the counter said (`c`): the kept turns fit
/// in the prompt budget beside the system block and assistant prefix; every
/// kept turn that holds no pinned message comes after every dropped turn (the
/// kept unpinned turns are the most recent ones); and the newest dropped turn
/// did not fit in what the kept turns left.
pub proof fn law_plan_budget<T: ChatTemplate>(
    cfg: ContextConfig,
    mv: Seq<MessageView>,
    c: PruneCounts,
    r: CoreResult<PrunePlan>,
)
    requires
        plan_matches(mv, spec_plan::<T>(cfg, mv, c), r),
        r is Ok,
    ensures
        ({
            let kept = bounds_of(r->Ok_0.kept@);
            let dropped = bounds_of(r->Ok_0.dropped@);
            let budget = available_tokens(cfg) - (c.system + c.prefix);
            &&& ranges_cost(c.per_message, kept) <= budget
            &&& forall|x: int, y: int|
                0 <= x < kept.len() && 0 <= y < dropped.len() && !any_pinned(mv, (#[trigger] kept[x]).0, kept[x].1)
                    ==> (#[trigger] dropped[y]).1 <= kept[x].0
            &&& dropped.len() > 0 ==> range_cost(c.per_message, dropped.last()) > budget - ranges_cost(
                c.per_message,
                kept,
            )
        }),
{
    let keep = spec_plan::<T>(cfg, mv, c)->Ok_0;
    let ts = turns_of(mv);
    let pm = c.per_message;
    let costs = turn_costs_of(mv, pm);
    let pinned = turn_pinned_of(mv);
    let available = available_tokens(cfg);
    let overhead = c.system + c.prefix;
    let kept = bounds_of(r->Ok_0.kept@);
    let dropped = bounds_of(r->Ok_0.dropped@);
    let n = ts.len() as int;
    lemma_turns_shape(mv);
    lemma_turns_in_order(mv);
    lemma_turn_costs_nonneg(mv, pm);
    assert(ts.take(n) =~= ts);
    lemma_ranges_cost_select(mv, pm, keep, true, n);
    lemma_kept_within_budget(available, overhead, costs, pinned);
    lemma_select_flagged(ts, keep, true);
    lemma_select_flagged(ts, keep, false);
    assert forall|x: int, y: int|
        0 <= x < kept.len() && 0 <= y < dropped.len() && !any_pinned(mv, (#[trigger] kept[x]).0, kept[x].1)
            implies (#[trigger] dropped[y]).1 <= kept[x].0 by {
        let ka = choose|k: int| 0 <= k < ts.len() && #[trigger] ts[k] == select(ts, keep, true)[x] && keep[k] == true;
        let kb = choose|k: int| 0 <= k < ts.len() && #[trigger] ts[k] == select(ts, keep, false)[y] && keep[k] == false;
        assert(!pinned[ka]);
        if ka < kb {
            law_kept_window_is_recent(available, overhead, costs, pinned, ka, kb);
        }
        assert(ts[kb].1 <= ts[ka].0);
    }
    if dropped.len() > 0 {
        lemma_select_last(ts, keep, false);
        let d = choose|d: int|
            0 <= d < ts.len() && keep[d] == false && #[trigger] ts[d] == select(ts, keep, false).last()
                && forall|j: int| d < j < ts.len() ==> keep[j] != false;
        let last = n - 1;
        law_latest_turn_kept(available, overhead, costs, pinned);
        if pinned[d] {
            law_pinned_turns_kept(available, overhead, costs, pinned, d);
        }
        let b1 = available - overhead - costs[last];
        let pin = sum_sel(costs, pinned, true, 0, last);
        let b2 = b1 - pin;
        let neg = Seq::new(n as nat, |k: int| !pinned[k]);
        // The kept sum, split at the dropped turn and at the latest turn.
        lemma_sum_sel_split(costs, keep, true, 0, d + 1, n);
        lemma_sum_sel_split(costs, keep, true, d + 1, last, n);
        lemma_sum_sel_one(costs, keep, true, last);
        lemma_sum_sel_mono(costs, keep, pinned, 0, d + 1);
        lemma_sum_sel_union(costs, keep, pinned, neg, d + 1, last);
        lemma_sum_sel_negate(costs, pinned, neg, d + 1, last);
        lemma_sum_sel_split(costs, pinned, true, 0, d + 1, last);
        // The dropped turn did not fit the window.
        assert(sum_sel(costs, pinned, false, d, last) == costs[d] + sum_sel(costs, pinned, false, d + 1, last));
    }
}

// --- A counter that always answers the same ------------------------------------

/// `f` answers every text with `cnt` of it, so the same text always gets the
/// same count.
pub open spec fn answers_by<F: Fn(&str) -> u32>(f: F, cnt: spec_fn(Seq<char>) -> int) -> bool {
    forall|s: &str, n: u32| #[trigger] call_ensures(f, (s,), n) ==> n == cnt(s@)
}

/// The count of the formatted messages `ms`, added up.
pub open spec fn cost_by<T: ChatTemplate>(cnt: spec_fn(Seq<char>) -> int, t: T, ms: Seq<MessageView>) -> int
    decreases ms.len(),
{
    if ms.len() == 0 {
        0
    } else {
        cost_by(cnt, t, ms.drop_last()) + cnt(t.spec_format_message(ms.last()))
    }
}

/// Each turn's cost under `cnt`.
pub open spec fn turn_costs_by<T: ChatTemplate>(cnt: spec_fn(Seq<char>) -> int, t: T, mv: Seq<MessageView>) -> Seq<
    int,
> {
    turns_of(mv).map_values(|r: (int, int)| cost_by(cnt, t, mv.subrange(r.0, r.1)))
}

/// The overhead under `cnt`: the system block and the assistant prefix.
pub open spec fn overhead_by<T: ChatTemplate>(
    cnt: spec_fn(Seq<char>) -> int,
    t: T,
    system_prompt: Seq<char>,
    tools: Seq<ToolSchemaView>,
) -> int {
    cnt(t.spec_format_system(system_prompt, tools)) + cnt(t.spec_assistant_prefix())
}

/// The plan for a conversation when every text is counted by `cnt`.
pub open spec fn plan_by<T: ChatTemplate>(
    cnt: spec_fn(Seq<char>) -> int,
    t: T,
    system_prompt: Seq<char>,
    mv: Seq<MessageView>,
    tools: Seq<ToolSchemaView>,
    cfg: ContextConfig,
) -> Result<Seq<bool>, ContextFault> {
    plan_keep(
        available_tokens(cfg),
        overhead_by(cnt, t, system_prompt, tools),
        turn_costs_by(cnt, t, mv),
        turn_pinned_of(mv),
    )
}

/// A count the counter gave is `cnt` of the text.
proof fn lemma_counted_by<F: Fn(&str) -> u32>(f: F, cnt: spec_fn(Seq<char>) -> int, text: Seq<char>, n: u32)
    requires
        answers_by(f, cnt),
        counted(f, text, n),
    ensures
        n == cnt(text),
{
    let s = choose|s: &str| #[trigger] call_ensures(f, (s,), n) && s@ == text;
}

proof fn lemma_sum_u32_by<T: ChatTemplate>(cnt: spec_fn(Seq<char>) -> int, t: T, pm: Seq<u32>, ms: Seq<MessageView>)
    requires
        pm.len() == ms.len(),
        forall|i: int| 0 <= i < pm.len() ==> #[trigger] pm[i] == cnt(t.spec_format_message(ms[i])),
    ensures
        sum_u32(pm) == cost_by(cnt, t, ms),
    decreases pm.len(),
{
    if pm.len() > 0 {
        lemma_sum_u32_by(cnt, t, pm.drop_last(), ms.drop_last());
    }
}

/// With a counter that always answers the same, the plan made of what it
/// said is the plan under its count.
proof fn lemma_plan_by<T: ChatTemplate, F: Fn(&str) -> u32>(
    f: F,
    cnt: spec_fn(Seq<char>) -> int,
    t: T,
    system_prompt: Seq<char>,
    mv: Seq<MessageView>,
    tools: Seq<ToolSchemaView>,
    cfg: ContextConfig,
    c: PruneCounts,
)
    requires
        answers_by(f, cnt),
        observed(f, t, system_prompt, mv, tools, available_tokens(cfg), c),
    ensures
        spec_plan::<T>(cfg, mv, c) == plan_by(cnt, t, system_prompt, mv, tools, cfg),
        c.system + c.prefix == overhead_by(cnt, t, system_prompt, tools),
        c.system + c.prefix < available_tokens(cfg) ==> turn_costs_of(mv, c.per_message) == turn_costs_by(cnt, t, mv),
{
    lemma_counted_by(f, cnt, t.spec_format_system(system_prompt, tools), c.system);
    lemma_counted_by(f, cnt, t.spec_assistant_prefix(), c.prefix);
    if c.system + c.prefix < available_tokens(cfg) {
        let ts = turns_of(mv);
        lemma_turns_shape(mv);
        assert forall|k: int| 0 <= k < ts.len() implies #[trigger] turn_costs_of(mv, c.per_message)[k] == turn_costs_by(cnt, t, mv)[k] by {
            let a = ts[k].0;
            let b = ts[k].1;
            if k > 0 {
                lemma_turn_order(ts, 0, k);
            }
            let pm = c.per_message.subrange(a, b);
            let ms = mv.subrange(a, b);
            assert forall|i: int| 0 <= i < pm.len() implies #[trigger] pm[i] == cnt(t.spec_format_message(ms[i])) by {
                assert(pm[i] == c.per_message[a + i]);
                lemma_counted_by(f, cnt, t.spec_format_message(mv[a + i]), c.per_message[a + i]);
            }
            lemma_sum_u32_by(cnt, t, pm, ms);
        }
        assert(turn_costs_of(mv, c.per_message) =~= turn_costs_by(cnt, t, mv));
    }
}

/// With a counter that always answers the same, planning is a function of
/// the inputs: any two plans for the same conversation are the plan under its
/// count, so they keep and drop the same turns or fail with the same error.
pub proof fn law_plan_is_determined<T: ChatTemplate, F: Fn(&str) -> u32>(
    f: F,
    cnt: spec_fn(Seq<char>) -> int,
    t: T,
    system_prompt: Seq<char>,
    mv: Seq<MessageView>,
    tools: Seq<ToolSchemaView>,
    cfg: ContextConfig,
    r1: CoreResult<PrunePlan>,
    r2: CoreResult<PrunePlan>,
)
    requires
        answers_by(f, cnt),
        pruned_as(f, t, system_prompt, mv, tools, cfg, r1),
        pruned_as(f, t, system_prompt, mv, tools, cfg, r2),
    ensures
        plan_matches(mv, plan_by(cnt, t, system_prompt, mv, tools, cfg), r1),
        plan_matches(mv, plan_by(cnt, t, system_prompt, mv, tools, cfg), r2),
        r1 is Ok <==> r2 is Ok,
        r1 is Ok ==> bounds_of(r1->Ok_0.kept@) == bounds_of(r2->Ok_0.kept@) && bounds_of(r1->Ok_0.dropped@)
            == bounds_of(r2->Ok_0.dropped@),
        r1 is Err ==> r1->Err_0@ == r2->Err_0@,
{
    let c1 = choose|c: PruneCounts|
        #[trigger] observed(f, t, system_prompt, mv, tools, available_tokens(cfg), c) && plan_matches(
            mv,
            spec_plan::<T>(cfg, mv, c),
            r1,
        );
    let c2 = choose|c: PruneCounts|
        #[trigger] observed(f, t, system_prompt, mv, tools, available_tokens(cfg), c) && plan_matches(
            mv,
            spec_plan::<T>(cfg, mv, c),
            r2,
        );
    lemma_plan_by(f, cnt, t, system_prompt, mv, tools, cfg, c1);
    lemma_plan_by(f, cnt, t, system_prompt, mv, tools, cfg, c2);
}

/// With a counter that always answers the same, planning fails exactly when
/// one of its three checks fails, and with the first that does: the system
/// block and assistant prefix (`F`) must leave room in the budget (`A`); the
/// latest turn (`L`) must fit beside them; and the other turns that hold a
/// pinned message (`P`) must fit in what is left. Otherwise it succeeds.
pub proof fn law_plan_faults<T: ChatTemplate, F: Fn(&str) -> u32>(
    f: F,
    cnt: spec_fn(Seq<char>) -> int,
    t: T,
    system_prompt: Seq<char>,
    mv: Seq<MessageView>,
    tools: Seq<ToolSchemaView>,
    cfg: ContextConfig,
    r: CoreResult<PrunePlan>,
)
    requires
        answers_by(f, cnt),
        pruned_as(f, t, system_prompt, mv, tools, cfg, r),
    ensures
        ({
            let a = available_tokens(cfg);
            let o = overhead_by(cnt, t, system_prompt, tools);
            let costs = turn_costs_by(cnt, t, mv);
            let n = costs.len() as int;
            let l = costs[n - 1];
            let p = sum_sel(costs, turn_pinned_of(mv), true, 0, n - 1);
            &&& r is Err <==> (o >= a || (n > 0 && (l > a - o || p > a - o - l)))
            &&& o >= a ==> (r matches Err(e) && e@ == ErrorView::Context(
                fault_message(ContextFault::SystemTooLarge { overhead: o, available: a }),
            ))
            &&& o < a && n > 0 && l > a - o ==> (r matches Err(e) && e@ == ErrorView::Context(
                fault_message(ContextFault::LatestTooLarge { latest: l, overhead: o, available: a }),
            ))
            &&& o < a && n > 0 && l <= a - o && p > a - o - l ==> (r matches Err(e) && e@ == ErrorView::Context(
                fault_message(
                    ContextFault::PinnedTooLarge { pinned: sum_sel(costs, turn_pinned_of(mv), true, 0, n), available: a },
                ),
            ))
        }),
{
    let c = choose|c: PruneCounts|
        #[trigger] observed(f, t, system_prompt, mv, tools, available_tokens(cfg), c) && plan_matches(
            mv,
            spec_plan::<T>(cfg, mv, c),
            r,
        );
    lemma_plan_by(f, cnt, t, system_prompt, mv, tools, cfg, c);
}

/// With a counter that always answers the same, preparing the context agrees
/// with planning: both fail with the same error, or the prepared prompt is the
/// template's prompt for the messages of the kept turns in order, counted by
/// the counter, and the included and pruned messages add up to the whole
/// conversation.
pub proof fn law_prepare_follows_plan<T: ChatTemplate, F: Fn(&str) -> u32>(
    f: F,
    cnt: spec_fn(Seq<char>) -> int,
    t: T,
    system_prompt: Seq<char>,
    mv: Seq<MessageView>,
    tools: Seq<ToolSchemaView>,
    cfg: ContextConfig,
    planned: CoreResult<PrunePlan>,
    prepared: CoreResult<PreparedContext>,
)
    requires
        answers_by(f, cnt),
        pruned_as(f, t, system_prompt, mv, tools, cfg, planned),
        prepared_as(f, t, system_prompt, mv, tools, cfg, prepared),
    ensures
        planned is Err <==> prepared is Err,
        planned is Err ==> planned->Err_0@ == prepared->Err_0@,
        planned is Ok ==> ({
            let p = prepared->Ok_0;
            let kept = gather(mv, bounds_of(planned->Ok_0.kept@));
            &&& p.prompt@ == t.spec_format(system_prompt, kept, tools)
            &&& p.token_count == cnt(p.prompt@)
            &&& view_messages(p.messages@) == kept
            &&& p.messages_included == kept.len()
            &&& p.messages_included + p.messages_pruned == mv.len()
        }),
{
    let c1 = choose|c: PruneCounts|
        #[trigger] observed(f, t, system_prompt, mv, tools, available_tokens(cfg), c) && plan_matches(
            mv,
            spec_plan::<T>(cfg, mv, c),
            planned,
        );
    let (c2, n) = choose|c: PruneCounts, n: u32|
        #[trigger] observed(f, t, system_prompt, mv, tools, available_tokens(cfg), c) && #[trigger] prepared_matches(
            f,
            t,
            system_prompt,
            mv,
            tools,
            spec_plan::<T>(cfg, mv, c),
            n,
            prepared,
        );
    lemma_plan_by(f, cnt, t, system_prompt, mv, tools, cfg, c1);
    lemma_plan_by(f, cnt, t, system_prompt, mv, tools, cfg, c2);
    if planned is Ok {
        let p = prepared->Ok_0;
        lemma_counted_by(f, cnt, p.prompt@, n);
    }
}

/// With a counter that always answers the same and adds up over
/// concatenation (a byte or char count, say), the prompt prepared with any of
/// the built-in templates fits in the context window with the response
/// reserved.
pub proof fn law_prepared_prompt_fits<F: Fn(&str) -> u32>(
    f: F,
    cnt: spec_fn(Seq<char>) -> int,
    t: BuiltinTemplate,
    system_prompt: Seq<char>,
    mv: Seq<MessageView>,
    tools: Seq<ToolSchemaView>,
    cfg: ContextConfig,
    r: CoreResult<PreparedContext>,
)
    requires
        answers_by(f, cnt),
        additive(cnt),
        prepared_as(f, t, system_prompt, mv, tools, cfg, r),
        r is Ok,
    ensures
        r->Ok_0.token_count <= available_tokens(cfg) <= cfg.max_context_tokens,
{
    let (c, n) = choose|c: PruneCounts, n: u32|
        #[trigger] observed(f, t, system_prompt, mv, tools, available_tokens(cfg), c) && #[trigger] prepared_matches(
            f,
            t,
            system_prompt,
            mv,
            tools,
            spec_plan::<BuiltinTemplate>(cfg, mv, c),
            n,
            r,
        );
    let p = r->Ok_0;
    lemma_counted_by(f, cnt, p.prompt@, n);
    lemma_counted_by(f, cnt, t.spec_format_system(system_prompt, tools), c.system);
    lemma_counted_by(f, cnt, t.spec_assistant_prefix(), c.prefix);
    assert forall|i: int| first_turn_start(mv) <= i < mv.len() implies #[trigger] c.per_message[i] == cnt(
        t.spec_format_message(mv[i]),
    ) by {
        lemma_counted_by(f, cnt, t.spec_format_message(mv[i]), c.per_message[i]);
    }
    assert(counts_by(cnt, t, system_prompt, mv, tools, c));
    law_every_template_fits_its_counts(cnt, t);
    law_prompt_fits_window(cnt, t, cfg, system_prompt, mv, tools, c);
}

} // verus!
