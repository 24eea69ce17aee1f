//! Context-window management: turn grouping, pruning to a token budget, and
//! prompt formatting.
use vstd::prelude::*;
use crate::error::{CoreError, CoreResult, ErrorView};
use crate::messages::{Message, MessageView, Role, view_messages};
use crate::template::{
    AlpacaTemplate, ChatMLTemplate, ChatTemplate, CommandRTemplate, DeepSeekTemplate,
    Llama3Template, Phi3Template, TemplateFragments, VicunaTemplate, concat_format, joined_messages,
    render_tools, spec_render_tools, BuiltinTemplate, MergeStyle, merge_fold, merge_step, merged_system,
    merged_turns, user_turn, with_system,
};
use crate::text::{decimal, decimal_string};
use crate::tools::{ToolSchema, ToolSchemaView, view_schemas};

verus! {

broadcast use vstd::string::group_string_axioms;

/// Strategy for handling context overflow.
#[derive(Clone, Copy, Debug, PartialEq, Eq, Structural)]
pub enum PruneStrategy {
    /// Drop oldest turns (keep system + most recent turns).
    SlidingWindow,
    /// Summarize the oldest turns into a single pinned summary message instead
    /// of dropping them outright (performed by the agent, which needs the
    /// backend); the pipeline still prunes with a sliding window afterwards.
    Summarize,
}

/// Configuration for context management.
#[derive(Clone, Copy, Debug)]
pub struct ContextConfig {
    /// Total context window size in tokens (prompt + reserved response).
    pub max_context_tokens: u32,
    /// Tokens reserved for the response; deducted from the prune budget.
    pub max_response_tokens: u32,
    /// How to handle a conversation that overflows the budget.
    pub prune_strategy: PruneStrategy,
}

impl Default for ContextConfig {
    fn default() -> (c: Self)
        ensures
            c.max_context_tokens == 4096,
            c.max_response_tokens == 2048,
            c.prune_strategy == PruneStrategy::SlidingWindow,
    {
        ContextConfig {
            max_context_tokens: 4096,
            max_response_tokens: 2048,
            prune_strategy: PruneStrategy::SlidingWindow,
        }
    }
}

/// Result of context preparation.
#[derive(Clone, Debug)]
pub struct PreparedContext {
    /// The fully formatted prompt string to feed the backend.
    pub prompt: String,
    /// Total token count of `prompt`.
    pub token_count: u32,
    /// Number of conversation messages kept in the prompt.
    pub messages_included: u32,
    /// Number of conversation messages dropped to fit the budget.
    pub messages_pruned: u32,
    /// The system prompt with the tool instructions folded in, without any
    /// template markup: what a message-native backend takes as its system text.
    pub system: String,
    /// The messages that survived pruning, in conversation order.
    pub messages: Vec<Message>,
}

/// Which turns survive pruning and which are dropped, as index ranges into the
/// messages slice (in conversation order).
#[derive(Clone, Debug)]
pub struct PrunePlan {
    /// Turns that survive pruning, as index ranges into the messages slice.
    pub kept: Vec<std::ops::Range<usize>>,
    /// Turns that are dropped to fit the budget, as index ranges.
    pub dropped: Vec<std::ops::Range<usize>>,
}

/// The bounds of a range.
pub open spec fn bounds(r: std::ops::Range<usize>) -> (int, int) {
    (r.start as int, r.end as int)
}

/// The bounds of each range.
pub open spec fn bounds_of(rs: Seq<std::ops::Range<usize>>) -> Seq<(int, int)> {
    rs.map_values(|r: std::ops::Range<usize>| bounds(r))
}

// --- Turns -----------------------------------------------------------------

/// The positions of the user messages, in order.
pub open spec fn user_starts(msgs: Seq<MessageView>) -> Seq<int>
    decreases msgs.len(),
{
    if msgs.len() == 0 {
        seq![]
    } else {
        let p = user_starts(msgs.drop_last());
        if msgs.last().role == Role::User {
            p.push(msgs.len() - 1)
        } else {
            p
        }
    }
}

/// The turns of a conversation, as index ranges: a turn starts at a user
/// message and runs up to the next user message (or the end). Messages before
/// the first user message belong to no turn.
pub open spec fn turns_of(msgs: Seq<MessageView>) -> Seq<(int, int)> {
    let s = user_starts(msgs);
    Seq::new(
        s.len(),
        |k: int|
            (
                s[k],
                if k + 1 < s.len() {
                    s[k + 1]
                } else {
                    msgs.len() as int
                },
            ),
    )
}

/// The user positions are increasing, in bounds, exactly the user messages.
pub proof fn lemma_user_starts(msgs: Seq<MessageView>)
    ensures
        forall|k: int|
            0 <= k < user_starts(msgs).len() ==> 0 <= #[trigger] user_starts(msgs)[k] < msgs.len()
                && msgs[user_starts(msgs)[k]].role == Role::User,
        forall|k: int, l: int|
            0 <= k < l < user_starts(msgs).len() ==> user_starts(msgs)[k] < user_starts(msgs)[l],
        forall|i: int|
            0 <= i < msgs.len() && msgs[i].role == Role::User ==> exists|k: int|
                0 <= k < user_starts(msgs).len() && #[trigger] user_starts(msgs)[k] == i,
    decreases msgs.len(),
{
    if msgs.len() > 0 {
        let d = msgs.drop_last();
        lemma_user_starts(d);
        let p = user_starts(d);
        assert forall|k: int| 0 <= k < p.len() implies d[p[k]] == msgs[p[k]] by {}
        if msgs.last().role == Role::User {
            let q = p.push(msgs.len() - 1);
            assert forall|i: int| 0 <= i < msgs.len() && msgs[i].role == Role::User implies exists|k: int|
                0 <= k < q.len() && #[trigger] q[k] == i by {
                if i == msgs.len() - 1 {
                    assert(q[p.len() as int] == i);
                } else {
                    assert(d[i] == msgs[i]);
                    let k = choose|k: int| 0 <= k < p.len() && p[k] == i;
                    assert(q[k] == i);
                }
            }
        } else {
            assert forall|i: int| 0 <= i < msgs.len() && msgs[i].role == Role::User implies exists|k: int|
                0 <= k < p.len() && #[trigger] p[k] == i by {
                assert(d[i] == msgs[i]);
            }
        }
    }
}

/// Group conversation messages into turns for pair-wise pruning.
///
/// A turn starts with a User message and includes all subsequent non-User
/// messages (Assistant, ToolCall, ToolResult) until the next User message.
pub fn group_into_turns(messages: &[Message]) -> (turns: Vec<std::ops::Range<usize>>)
    ensures
        bounds_of(turns@) == turns_of(view_messages(messages@)),
{
    let ghost mv = view_messages(messages@);
    let mut turns: Vec<std::ops::Range<usize>> = Vec::new();
    let mut turn_start: Option<usize> = None;
    let mut i: usize = 0;
    while i < messages.len()
        invariant
            i <= messages@.len(),
            mv == view_messages(messages@),
            ({
                let s = user_starts(mv.take(i as int));
                &&& turn_start is None <==> s.len() == 0
                &&& turn_start matches Some(t) ==> t == s.last()
                &&& turns@.len() + 1 == s.len() || (s.len() == 0 && turns@.len() == 0)
                &&& forall|k: int|
                    0 <= k < turns@.len() ==> bounds(#[trigger] turns@[k]) == (s[k], s[k + 1])
            }),
        decreases messages@.len() - i,
    {
        let ghost s0 = user_starts(mv.take(i as int));
        proof {
            assert(mv.take(i + 1).drop_last() =~= mv.take(i as int));
            assert(mv.take(i + 1).last() == messages@[i as int]@);
            lemma_user_starts(mv.take(i as int));
        }
        if messages[i].role == Role::User {
            if let Some(start) = turn_start {
                turns.push(start..i);
            }
            turn_start = Some(i);
        }
        i += 1;
    }
    let ghost s = user_starts(mv.take(i as int));
    proof {
        assert(mv.take(i as int) =~= mv);
    }
    if let Some(start) = turn_start {
        turns.push(start..messages.len());
    }
    proof {
        assert(bounds_of(turns@) =~= turns_of(mv));
    }
    turns
}


// --- Budget planning -------------------------------------------------------

/// Why a conversation cannot be fitted into the budget.
pub enum ContextFault {
    /// The system block and assistant prefix alone use the whole budget.
    SystemTooLarge { overhead: int, available: int },
    /// The latest turn does not fit beside the system block.
    LatestTooLarge { latest: int, overhead: int, available: int },
    /// The pinned turns do not fit beside the system block and latest turn.
    PinnedTooLarge { pinned: int, available: int },
}

/// The message a [`ContextFault`] is reported with.
pub open spec fn fault_message(f: ContextFault) -> Seq<char> {
    match f {
        ContextFault::SystemTooLarge { overhead, available } => "System prompt and tools ("@
            + decimal(overhead as nat) + " tokens) exceed available context budget ("@ + decimal(
            available as nat,
        ) + " tokens)"@,
        ContextFault::LatestTooLarge { latest, overhead, available } => "Latest message ("@
            + decimal(latest as nat) + " tokens) plus system prompt ("@ + decimal(overhead as nat)
            + " tokens) exceeds context budget ("@ + decimal(available as nat)
            + " tokens). Clear the conversation or increase context size."@,
        ContextFault::PinnedTooLarge { pinned, available } => "Pinned messages ("@ + decimal(
            pinned as nat,
        ) + " tokens) exceed the available context budget ("@ + decimal(available as nat)
            + " tokens). Unpin some messages or increase context size."@,
    }
}

/// The sum of the costs `costs[k]` for `lo <= k < hi` whose flag equals `want`.
pub open spec fn sum_sel(costs: Seq<int>, flags: Seq<bool>, want: bool, lo: int, hi: int) -> int
    decreases hi - lo,
{
    if hi <= lo {
        0
    } else {
        (if flags[lo] == want {
            costs[lo]
        } else {
            0
        }) + sum_sel(costs, flags, want, lo + 1, hi)
    }
}

/// The sum of all the costs.
pub open spec fn sum_all(costs: Seq<int>) -> int
    decreases costs.len(),
{
    if costs.len() == 0 {
        0
    } else {
        sum_all(costs.drop_last()) + costs.last()
    }
}

/// The prompt budget: the context window less the reserved response tokens
/// (zero when the reservation exceeds the window).
pub open spec fn available_tokens(cfg: ContextConfig) -> int {
    if cfg.max_response_tokens <= cfg.max_context_tokens {
        cfg.max_context_tokens - cfg.max_response_tokens
    } else {
        0
    }
}

/// Which turns survive, given the budget, the fixed overhead, and each turn's
/// cost and pinned flag:
/// - the overhead must leave room (else `SystemTooLarge`);
/// - the latest turn must fit (else `LatestTooLarge`) and is kept;
/// - the pinned turns must fit in what remains (else `PinnedTooLarge`) and are kept;
/// - a non-pinned earlier turn is kept exactly when it and every later
///   non-pinned turn fit together in what is left after that (a sliding window).
pub open spec fn plan_keep(available: int, overhead: int, costs: Seq<int>, pinned: Seq<bool>) -> Result<
    Seq<bool>,
    ContextFault,
> {
    if overhead >= available {
        Err(ContextFault::SystemTooLarge { overhead, available })
    } else if costs.len() == 0 {
        Ok(seq![])
    } else {
        let n = costs.len() as int;
        let last = n - 1;
        let budget = available - overhead;
        if costs[last] > budget {
            Err(ContextFault::LatestTooLarge { latest: costs[last], overhead, available })
        } else {
            let b1 = budget - costs[last];
            let pin = sum_sel(costs, pinned, true, 0, last);
            if pin > b1 {
                Err(
                    ContextFault::PinnedTooLarge {
                        pinned: sum_sel(costs, pinned, true, 0, n),
                        available,
                    },
                )
            } else {
                let b2 = b1 - pin;
                Ok(
                    Seq::new(
                        n as nat,
                        |k: int| k == last || pinned[k] || sum_sel(costs, pinned, false, k, last) <= b2,
                    ),
                )
            }
        }
    }
}

/// `sum_sel` over `[lo, hi)` splits at any `mid` in between.
pub proof fn lemma_sum_sel_split(costs: Seq<int>, flags: Seq<bool>, want: bool, lo: int, mid: int, hi: int)
    requires
        lo <= mid <= hi,
    ensures
        sum_sel(costs, flags, want, lo, hi) == sum_sel(costs, flags, want, lo, mid) + sum_sel(
            costs,
            flags,
            want,
            mid,
            hi,
        ),
    decreases mid - lo,
{
    if lo < mid {
        lemma_sum_sel_split(costs, flags, want, lo + 1, mid, hi);
    }
}

/// With non-negative costs, `sum_sel` is bounded by the total and grows as the
/// range widens.
pub proof fn lemma_sum_sel_bounds(costs: Seq<int>, flags: Seq<bool>, want: bool, lo: int, hi: int)
    requires
        0 <= lo <= hi <= costs.len(),
        forall|k: int| 0 <= k < costs.len() ==> 0 <= #[trigger] costs[k],
    ensures
        0 <= sum_sel(costs, flags, want, lo, hi) <= sum_sel(costs, flags, want, 0, costs.len() as int),
        sum_sel(costs, flags, want, 0, costs.len() as int) <= sum_all(costs),
    decreases hi - lo,
{
    lemma_sum_sel_nonneg(costs, flags, want, lo, hi);
    lemma_sum_sel_nonneg(costs, flags, want, 0, lo);
    lemma_sum_sel_nonneg(costs, flags, want, hi, costs.len() as int);
    lemma_sum_sel_split(costs, flags, want, 0, lo, costs.len() as int);
    lemma_sum_sel_split(costs, flags, want, lo, hi, costs.len() as int);
    lemma_sum_sel_le_all(costs, flags, want);
}

/// `sum_sel` over the one-element range `[i, i + 1)`.
pub proof fn lemma_sum_sel_one(costs: Seq<int>, flags: Seq<bool>, want: bool, i: int)
    ensures
        sum_sel(costs, flags, want, i, i + 1) == if flags[i] == want {
            costs[i]
        } else {
            0
        },
{
    assert(sum_sel(costs, flags, want, i + 1, i + 1) == 0);
}

proof fn lemma_sum_sel_nonneg(costs: Seq<int>, flags: Seq<bool>, want: bool, lo: int, hi: int)
    requires
        0 <= lo,
        hi <= costs.len(),
        forall|k: int| 0 <= k < costs.len() ==> 0 <= #[trigger] costs[k],
    ensures
        0 <= sum_sel(costs, flags, want, lo, hi),
    decreases hi - lo,
{
    if lo < hi {
        lemma_sum_sel_nonneg(costs, flags, want, lo + 1, hi);
    }
}

proof fn lemma_sum_sel_le_all(costs: Seq<int>, flags: Seq<bool>, want: bool)
    requires
        forall|k: int| 0 <= k < costs.len() ==> 0 <= #[trigger] costs[k],
    ensures
        sum_sel(costs, flags, want, 0, costs.len() as int) <= sum_all(costs),
    decreases costs.len(),
{
    if costs.len() > 0 {
        let n = costs.len() as int;
        let d = costs.drop_last();
        assert forall|k: int| 0 <= k < d.len() implies 0 <= #[trigger] d[k] by {
            assert(d[k] == costs[k]);
        }
        lemma_sum_sel_le_all(d, flags, want);
        lemma_sum_sel_split(costs, flags, want, 0, n - 1, n);
        lemma_sum_sel_one(costs, flags, want, n - 1);
        lemma_sum_sel_same_prefix(costs, d, flags, want, 0, n - 1);
    }
}

proof fn lemma_sum_sel_same_prefix(a: Seq<int>, b: Seq<int>, flags: Seq<bool>, want: bool, lo: int, hi: int)
    requires
        0 <= lo,
        hi <= a.len(),
        hi <= b.len(),
        forall|k: int| lo <= k < hi ==> a[k] == b[k],
    ensures
        sum_sel(a, flags, want, lo, hi) == sum_sel(b, flags, want, lo, hi),
    decreases hi - lo,
{
    if lo < hi {
        lemma_sum_sel_same_prefix(a, b, flags, want, lo + 1, hi);
    }
}

/// The exec costs as integers.
pub open spec fn ints_of(v: Seq<u64>) -> Seq<int> {
    v.map_values(|c: u64| c as int)
}

fn context_error(f: Ghost<ContextFault>, msg: String) -> (e: CoreError)
    requires
        msg@ == fault_message(f@),
    ensures
        e@ == ErrorView::Context(fault_message(f@)),
{
    CoreError::Context(msg)
}

/// Append the decimal rendering of `n`.
fn append_decimal(s: &mut String, n: u64)
    ensures
        final(s)@ == old(s)@ + decimal(n as nat),
{
    let d = decimal_string(n);
    s.append(d.as_str());
}

fn system_too_large_message(overhead: u64, available: u64) -> (m: String)
    ensures
        m@ == fault_message(ContextFault::SystemTooLarge { overhead: overhead as int, available: available as int }),
{
    let mut m = String::from_str("System prompt and tools (");
    append_decimal(&mut m, overhead);
    m.append(" tokens) exceed available context budget (");
    append_decimal(&mut m, available);
    m.append(" tokens)");
    m
}

fn latest_too_large_message(latest: u64, overhead: u64, available: u64) -> (m: String)
    ensures
        m@ == fault_message(
            ContextFault::LatestTooLarge {
                latest: latest as int,
                overhead: overhead as int,
                available: available as int,
            },
        ),
{
    let mut m = String::from_str("Latest message (");
    append_decimal(&mut m, latest);
    m.append(" tokens) plus system prompt (");
    append_decimal(&mut m, overhead);
    m.append(" tokens) exceeds context budget (");
    append_decimal(&mut m, available);
    m.append(" tokens). Clear the conversation or increase context size.");
    m
}

fn pinned_too_large_message(pinned: u64, available: u64) -> (m: String)
    ensures
        m@ == fault_message(ContextFault::PinnedTooLarge { pinned: pinned as int, available: available as int }),
{
    let mut m = String::from_str("Pinned messages (");
    append_decimal(&mut m, pinned);
    m.append(" tokens) exceed the available context budget (");
    append_decimal(&mut m, available);
    m.append(" tokens). Unpin some messages or increase context size.");
    m
}

/// Decide which turns survive from the budget, the fixed overhead, and each
/// turn's cost and pinned flag (see [`plan_keep`]). A fault is reported as a
/// `CoreError::Context` carrying the fault's message.
pub fn keep_turns(available: u32, overhead: u64, turn_costs: &[u64], turn_pinned: &[bool]) -> (r:
    CoreResult<Vec<bool>>)
    requires
        turn_costs@.len() == turn_pinned@.len(),
        sum_all(ints_of(turn_costs@)) <= u64::MAX,
    ensures
        match plan_keep(available as int, overhead as int, ints_of(turn_costs@), turn_pinned@) {
            Ok(keep) => r matches Ok(k) && k@ == keep,
            Err(f) => r matches Err(e) && e@ == ErrorView::Context(fault_message(f)),
        },
{
    let ghost costs = ints_of(turn_costs@);
    let ghost pinned = turn_pinned@;
    proof {
        assert forall|k: int| 0 <= k < costs.len() implies 0 <= #[trigger] costs[k] by {}
    }
    if overhead >= available as u64 {
        let m = system_too_large_message(overhead, available as u64);
        return Err(context_error(Ghost(ContextFault::SystemTooLarge { overhead: overhead as int, available: available as int }), m));
    }
    let n = turn_costs.len();
    if n == 0 {
        return Ok(Vec::new());
    }
    let last = n - 1;
    let mut budget: u64 = available as u64 - overhead;
    if turn_costs[last] > budget {
        let m = latest_too_large_message(turn_costs[last], overhead, available as u64);
        return Err(context_error(Ghost(ContextFault::LatestTooLarge {
            latest: costs[last as int],
            overhead: overhead as int,
            available: available as int,
        }), m));
    }
    budget = budget - turn_costs[last];
    let ghost b1 = budget as int;
    // Pinned turns always survive, regardless of recency.
    let mut i: usize = 0;
    while i < last
        invariant
            n == turn_costs@.len() == turn_pinned@.len(),
            last == n - 1,
            costs == ints_of(turn_costs@),
            pinned == turn_pinned@,
            forall|k: int| 0 <= k < costs.len() ==> 0 <= #[trigger] costs[k],
            sum_all(costs) <= u64::MAX,
            i <= last,
            overhead < available,
            costs[last as int] <= available - overhead,
            b1 == (available - overhead) - costs[last as int],
            sum_sel(costs, pinned, true, 0, i as int) <= b1,
            budget == b1 - sum_sel(costs, pinned, true, 0, i as int),
        decreases last - i,
    {
        proof {
            lemma_sum_sel_split(costs, pinned, true, 0, i as int, i + 1);
            lemma_sum_sel_one(costs, pinned, true, i as int);
        }
        if turn_pinned[i] {
            if turn_costs[i] > budget {
                proof {
                    lemma_sum_sel_split(costs, pinned, true, 0, i + 1, last as int);
                    lemma_sum_sel_bounds(costs, pinned, true, i + 1, last as int);
                    lemma_sum_sel_bounds(costs, pinned, true, 0, n as int);
                    assert(costs[i as int] > b1 - sum_sel(costs, pinned, true, 0, i as int));
                    assert(sum_sel(costs, pinned, true, 0, i + 1) > b1);
                    assert(sum_sel(costs, pinned, true, 0, last as int) > b1);
                    assert(b1 == (available - overhead) - costs[last as int]);
                }
                let total = pinned_total(turn_costs, turn_pinned);
                let m = pinned_too_large_message(total, available as u64);
                return Err(context_error(Ghost(ContextFault::PinnedTooLarge {
                    pinned: sum_sel(costs, pinned, true, 0, n as int),
                    available: available as int,
                }), m));
            }
            budget = budget - turn_costs[i];
        }
        i += 1;
    }
    let ghost b2 = budget as int;
    let mut keep: Vec<bool> = Vec::new();
    let mut j: usize = 0;
    while j < n
        invariant
            n == turn_pinned@.len(),
            last == n - 1,
            j <= n,
            keep@.len() == j,
            forall|k: int| 0 <= k < j ==> #[trigger] keep@[k] == (k == last || pinned[k]),
            pinned == turn_pinned@,
        decreases n - j,
    {
        keep.push(j == last || turn_pinned[j]);
        j += 1;
    }
    let ghost spec_keep = Seq::new(
        n as nat,
        |k: int| k == last || pinned[k] || sum_sel(costs, pinned, false, k, last as int) <= b2,
    );
    // Fill the remaining budget with the most recent non-pinned turns, walking
    // backward; stop at the first one that does not fit.
    let mut i: usize = last;
    while i > 0
        invariant
            n == turn_costs@.len() == turn_pinned@.len(),
            last == n - 1,
            costs == ints_of(turn_costs@),
            pinned == turn_pinned@,
            forall|k: int| 0 <= k < costs.len() ==> 0 <= #[trigger] costs[k],
            sum_all(costs) <= u64::MAX,
            i <= last,
            keep@.len() == n,
            spec_keep == Seq::new(
                n as nat,
                |k: int| k == last || pinned[k] || sum_sel(costs, pinned, false, k, last as int) <= b2,
            ),
            forall|k: int| i <= k < n ==> #[trigger] keep@[k] == spec_keep[k],
            forall|k: int| 0 <= k < i ==> #[trigger] keep@[k] == (k == last || pinned[k]),
            sum_sel(costs, pinned, false, i as int, last as int) <= b2,
            budget == b2 - sum_sel(costs, pinned, false, i as int, last as int),
        ensures
            keep@ == spec_keep,
        decreases i,
    {
        let k = i - 1;
        proof {
            lemma_sum_sel_split(costs, pinned, false, k as int, i as int, last as int);
            lemma_sum_sel_one(costs, pinned, false, k as int);
        }
        if turn_pinned[k] {
            i = k;
            continue;
        }
        if turn_costs[k] <= budget {
            budget = budget - turn_costs[k];
            keep.set(k, true);
            i = k;
        } else {
            proof {
                assert forall|m: int| 0 <= m < i implies #[trigger] keep@[m] == spec_keep[m] by {
                    lemma_sum_sel_split(costs, pinned, false, m, k as int, last as int);
                    lemma_sum_sel_nonneg(costs, pinned, false, m, k as int);
                }
                assert(keep@ =~= spec_keep);
            }
            break;
        }
    }
    proof {
        assert(keep@ =~= spec_keep);
    }
    Ok(keep)
}

/// The total cost of the pinned turns.
fn pinned_total(turn_costs: &[u64], turn_pinned: &[bool]) -> (t: u64)
    requires
        turn_costs@.len() == turn_pinned@.len(),
        sum_all(ints_of(turn_costs@)) <= u64::MAX,
    ensures
        t == sum_sel(ints_of(turn_costs@), turn_pinned@, true, 0, turn_costs@.len() as int),
{
    let ghost costs = ints_of(turn_costs@);
    let n = turn_costs.len();
    proof {
        assert forall|k: int| 0 <= k < costs.len() implies 0 <= #[trigger] costs[k] by {}
        lemma_sum_sel_bounds(costs, turn_pinned@, true, 0, n as int);
    }
    let mut t: u64 = 0;
    let mut i: usize = 0;
    while i < n
        invariant
            n == turn_costs@.len() == turn_pinned@.len(),
            costs == ints_of(turn_costs@),
            forall|k: int| 0 <= k < costs.len() ==> 0 <= #[trigger] costs[k],
            sum_sel(costs, turn_pinned@, true, 0, n as int) <= u64::MAX,
            i <= n,
            t == sum_sel(costs, turn_pinned@, true, 0, i as int),
        decreases n - i,
    {
        proof {
            lemma_sum_sel_split(costs, turn_pinned@, true, 0, i as int, i + 1);
            lemma_sum_sel_split(costs, turn_pinned@, true, 0, i + 1, n as int);
            lemma_sum_sel_nonneg(costs, turn_pinned@, true, i + 1, n as int);
            lemma_sum_sel_one(costs, turn_pinned@, true, i as int);
        }
        if turn_pinned[i] {
            t = t + turn_costs[i];
        }
        i += 1;
    }
    t
}


// --- Counting and planning --------------------------------------------------

/// `n` is what the counter `f` answered for some string holding `text`.
pub open spec fn counted<F: Fn(&str) -> u32>(f: F, text: Seq<char>, n: u32) -> bool {
    exists|s: &str| #[trigger] call_ensures(f, (s,), n) && s@ == text
}

/// The counts the counter gave while a plan was made: for the system block,
/// for the assistant prefix, and for each message (used for the messages
/// that belong to a turn).
pub struct PruneCounts {
    pub system: u32,
    pub prefix: u32,
    pub per_message: Seq<u32>,
}

/// The position of the first user message (the length when there is none).
pub open spec fn first_turn_start(msgs: Seq<MessageView>) -> int {
    let s = user_starts(msgs);
    if s.len() > 0 {
        s[0]
    } else {
        msgs.len() as int
    }
}

/// `c` records what `f` answered for the texts a plan counts: the system
/// block and the assistant prefix, and, when those leave room in the budget,
/// every message that belongs to a turn.
pub open spec fn observed<T: ChatTemplate, F: Fn(&str) -> u32>(
    f: F,
    t: T,
    system_prompt: Seq<char>,
    msgs: Seq<MessageView>,
    tools: Seq<ToolSchemaView>,
    available: int,
    c: PruneCounts,
) -> bool {
    &&& counted(f, t.spec_format_system(system_prompt, tools), c.system)
    &&& counted(f, t.spec_assistant_prefix(), c.prefix)
    &&& c.per_message.len() == msgs.len()
    &&& c.system + c.prefix < available ==> forall|i: int|
        first_turn_start(msgs) <= i < msgs.len() ==> counted(
            f,
            t.spec_format_message(msgs[i]),
            #[trigger] c.per_message[i],
        )
}

/// The sum of some counts.
pub open spec fn sum_u32(s: Seq<u32>) -> int
    decreases s.len(),
{
    if s.len() == 0 {
        0
    } else {
        sum_u32(s.drop_last()) + s.last()
    }
}

/// Each turn's cost: the sum of its messages' counts.
pub open spec fn turn_costs_of(msgs: Seq<MessageView>, per_message: Seq<u32>) -> Seq<int> {
    turns_of(msgs).map_values(|t: (int, int)| sum_u32(per_message.subrange(t.0, t.1)))
}

/// Whether a message in the range `[a, b)` is pinned.
pub open spec fn any_pinned(msgs: Seq<MessageView>, a: int, b: int) -> bool {
    exists|i: int| a <= i < b && #[trigger] msgs[i].pinned
}

/// Each turn's pinned flag: whether any of its messages is pinned.
pub open spec fn turn_pinned_of(msgs: Seq<MessageView>) -> Seq<bool> {
    turns_of(msgs).map_values(|t: (int, int)| any_pinned(msgs, t.0, t.1))
}

/// The turns whose flag in `keep` equals `want`, in order.
pub open spec fn select(turns: Seq<(int, int)>, keep: Seq<bool>, want: bool) -> Seq<(int, int)>
    decreases turns.len(),
{
    if turns.len() == 0 {
        seq![]
    } else {
        let prev = select(turns.drop_last(), keep, want);
        if keep[turns.len() - 1] == want {
            prev.push(turns.last())
        } else {
            prev
        }
    }
}

/// The plan for a conversation, given the counts the counter gave.
pub open spec fn spec_plan<T: ChatTemplate>(
    cfg: ContextConfig,
    msgs: Seq<MessageView>,
    c: PruneCounts,
) -> Result<Seq<bool>, ContextFault> {
    plan_keep(
        available_tokens(cfg),
        c.system + c.prefix,
        turn_costs_of(msgs, c.per_message),
        turn_pinned_of(msgs),
    )
}

/// `r` is the plan: the kept and dropped turns as `keep` says, or the fault.
pub open spec fn plan_matches(msgs: Seq<MessageView>, outcome: Result<Seq<bool>, ContextFault>, r: CoreResult<PrunePlan>) -> bool {
    match outcome {
        Ok(keep) => r matches Ok(p) && bounds_of(p.kept@) == select(turns_of(msgs), keep, true)
            && bounds_of(p.dropped@) == select(turns_of(msgs), keep, false),
        Err(f) => r matches Err(e) && e@ == ErrorView::Context(fault_message(f)),
    }
}

/// What [`plan_prune`] answers: for some record `c` of what the counter said
/// for the texts it was asked about, `r` is the plan [`spec_plan`] makes of
/// those counts.
pub open spec fn pruned_as<T: ChatTemplate, F: Fn(&str) -> u32>(
    f: F,
    t: T,
    system_prompt: Seq<char>,
    mv: Seq<MessageView>,
    tools: Seq<ToolSchemaView>,
    cfg: ContextConfig,
    r: CoreResult<PrunePlan>,
) -> bool {
    exists|c: PruneCounts|
        #[trigger] observed(f, t, system_prompt, mv, tools, available_tokens(cfg), c) && plan_matches(
            mv,
            spec_plan::<T>(cfg, mv, c),
            r,
        )
}

/// The turns are contiguous, increasing ranges covering everything from the
/// first user message to the end.
pub proof fn lemma_turns_shape(msgs: Seq<MessageView>)
    ensures
        forall|k: int|
            0 <= k < turns_of(msgs).len() ==> 0 <= (#[trigger] turns_of(msgs)[k]).0 < turns_of(
                msgs,
            )[k].1 <= msgs.len(),
        forall|k: int|
            0 <= k < turns_of(msgs).len() - 1 ==> (#[trigger] turns_of(msgs)[k]).1 == turns_of(
                msgs,
            )[k + 1].0,
        turns_of(msgs).len() > 0 ==> turns_of(msgs)[0].0 == first_turn_start(msgs),
        turns_of(msgs).len() > 0 ==> turns_of(msgs).last().1 == msgs.len(),
        turns_of(msgs).len() == 0 ==> first_turn_start(msgs) == msgs.len(),
{
    lemma_user_starts(msgs);
    let s = user_starts(msgs);
    assert forall|k: int| 0 <= k < turns_of(msgs).len() implies 0 <= (#[trigger] turns_of(msgs)[k]).0
        < turns_of(msgs)[k].1 <= msgs.len() by {
        if k + 1 < s.len() {
            assert(s[k] < s[k + 1]);
        }
    }
}


/// Plan which turns survive pruning to fit the token budget.
///
/// 1. Deducts system prompt + tools + assistant-prefix overhead from the budget.
/// 2. Groups messages into turns (user + following non-user messages).
/// 3. Always keeps the most recent turn and every pinned turn.
/// 4. Fills the remaining budget with the most recent non-pinned turns, walking
///    backward and stopping at the first that does not fit.
///
/// A turn is pinned if any of its messages is. The counter is asked for the
/// system block, the assistant prefix and (when those leave room) each message
/// of each turn; the plan is the one [`plan_keep`] gives for its answers.
pub fn plan_prune<T: ChatTemplate, F: Fn(&str) -> u32>(
    template: &T,
    system_prompt: &str,
    messages: &[Message],
    tools: &[ToolSchema],
    config: &ContextConfig,
    token_counter: &F,
) -> (r: CoreResult<PrunePlan>)
    requires
        messages@.len() <= u32::MAX,
        forall|s: &str| token_counter.requires((s,)),
    ensures
        pruned_as(
            *token_counter,
            *template,
            system_prompt@,
            view_messages(messages@),
            view_schemas(tools@),
            *config,
            r,
        ),
{
    let available: u32 = if config.max_response_tokens <= config.max_context_tokens {
        config.max_context_tokens - config.max_response_tokens
    } else {
        0
    };
    let ghost mv = view_messages(messages@);
    let ghost f = *token_counter;
    let ghost t = *template;
    let ghost sp = system_prompt@;
    let ghost tv = view_schemas(tools@);
    let system_block = template.format_system(system_prompt, tools);
    let c_sys = token_counter(system_block.as_str());
    let prefix = template.assistant_prefix();
    let c_pre = token_counter(prefix);
    proof {
        assert(counted(f, t.spec_format_system(sp, tv), c_sys));
        assert(counted(f, t.spec_assistant_prefix(), c_pre));
    }
    let overhead: u64 = c_sys as u64 + c_pre as u64;
    let ghost mut pm: Seq<u32> = Seq::new(messages@.len() as nat, |i: int| 0u32);
    if overhead >= available as u64 {
        let m = system_too_large_message(overhead, available as u64);
        let r = Err(context_error(Ghost(ContextFault::SystemTooLarge { overhead: overhead as int, available: available as int }), m));
        proof {
            let c = PruneCounts { system: c_sys, prefix: c_pre, per_message: pm };
            assert(observed(f, t, sp, mv, tv, available_tokens(*config), c));
            assert(plan_matches(mv, spec_plan::<T>(*config, mv, c), r));
        }
        return r;
    }
    let turns = group_into_turns(messages);
    let ghost ts = turns_of(mv);
    let ghost first = first_turn_start(mv);
    proof {
        lemma_turns_shape(mv);
    }
    let mut costs: Vec<u64> = Vec::new();
    let mut pins: Vec<bool> = Vec::new();
    let mut k: usize = 0;
    while k < turns.len()
        invariant
            mv == view_messages(messages@),
            ts == turns_of(mv),
            bounds_of(turns@) == ts,
            messages@.len() <= u32::MAX,
            forall|s: &str| token_counter.requires((s,)),
            f == *token_counter,
            t == *template,
            forall|j: int| 0 <= j < ts.len() ==> 0 <= (#[trigger] ts[j]).0 < ts[j].1 <= mv.len(),
            forall|j: int| 0 <= j < ts.len() - 1 ==> (#[trigger] ts[j]).1 == ts[j + 1].0,
            ts.len() > 0 ==> ts[0].0 == first,
            ts.len() > 0 ==> ts.last().1 == mv.len(),
            k <= ts.len(),
            costs@.len() == k,
            pins@.len() == k,
            pm.len() == mv.len(),
            forall|j: int| 0 <= j < k ==> (#[trigger] costs@[j]) as int == sum_u32(pm.subrange(ts[j].0, ts[j].1)),
            forall|j: int| 0 <= j < k ==> (#[trigger] pins@[j]) == any_pinned(mv, ts[j].0, ts[j].1),
            forall|i: int|
                first <= i < (if k == 0 { first } else { ts[k - 1].1 }) ==> counted(
                    f,
                    t.spec_format_message(mv[i]),
                    #[trigger] pm[i],
                ),
            sum_all(ints_of(costs@)) <= ((if k == 0 { first } else { ts[k - 1].1 }) - first) * 4294967295,
            0 <= first <= (if k == 0 { first } else { ts[k - 1].1 }),
        decreases ts.len() - k,
    {
        let a = turns[k].start;
        let b = turns[k].end;
        proof {
            assert(bounds(turns@[k as int]) == ts[k as int]);
            if k > 0 {
                assert(ts[k - 1].1 == ts[k as int].0);
            }
        }
        let ghost done = if k == 0 { first } else { ts[k - 1].1 };
        let mut cost: u64 = 0;
        let mut pinned = false;
        let mut i = a;
        while i < b
            invariant
                mv == view_messages(messages@),
                ts == turns_of(mv),
                forall|s: &str| token_counter.requires((s,)),
                f == *token_counter,
                t == *template,
                forall|j: int| 0 <= j < ts.len() ==> 0 <= (#[trigger] ts[j]).0 < ts[j].1 <= mv.len(),
                forall|j: int| 0 <= j < ts.len() - 1 ==> (#[trigger] ts[j]).1 == ts[j + 1].0,
                k < ts.len(),
                a == ts[k as int].0,
                b == ts[k as int].1,
                done == a,
                0 <= first <= a <= i <= b,
                b <= mv.len() <= u32::MAX,
                costs@.len() == k,
                pm.len() == mv.len(),
                forall|j: int| 0 <= j < k ==> (#[trigger] costs@[j]) as int == sum_u32(pm.subrange(ts[j].0, ts[j].1)),
                cost as int == sum_u32(pm.subrange(a as int, i as int)),
                pinned == any_pinned(mv, a as int, i as int),
                forall|x: int| first <= x < i ==> counted(f, t.spec_format_message(mv[x]), #[trigger] pm[x]),
                sum_all(ints_of(costs@)) + cost <= (i - first) * 4294967295,
            decreases b - i,
        {
            let text = template.format_message(&messages[i]);
            let n = token_counter(text.as_str());
            let ghost old_pm = pm;
            proof {
                lemma_sum_all_nonneg(costs@);
                assert(cost + n <= (i + 1 - first) * 4294967295);
                assert((i + 1 - first) * 4294967295 <= 4294967295 * 4294967295);
            }
            proof {
                assert(messages@[i as int]@ == mv[i as int]);
                pm = pm.update(i as int, n);
                assert(counted(f, t.spec_format_message(mv[i as int]), pm[i as int]));
                assert forall|j: int| 0 <= j < k implies #[trigger] old_pm.subrange(ts[j].0, ts[j].1) =~= pm.subrange(ts[j].0, ts[j].1) by {
                    if j < k - 1 {
                        assert(ts[j].1 == ts[j + 1].0);
                    }
                    assert(ts[j].1 <= a) by {
                        lemma_turn_order(ts, j, k as int);
                    }
                }
                assert(pm.subrange(a as int, i + 1).drop_last() =~= old_pm.subrange(a as int, i as int));
                assert forall|x: int| first <= x < i + 1 implies counted(f, t.spec_format_message(mv[x]), #[trigger] pm[x]) by {
                    if x < i {
                        assert(pm[x] == old_pm[x]);
                    }
                }
            }
            cost = cost + n as u64;
            let ghost was = pinned;
            pinned = pinned || messages[i].pinned;
            proof {
                if messages@[i as int].pinned {
                    assert(mv[i as int].pinned);
                    assert(any_pinned(mv, a as int, i + 1));
                } else if was {
                    let w = choose|w: int| a <= w < i && #[trigger] mv[w].pinned;
                    assert(any_pinned(mv, a as int, i + 1));
                } else {
                    assert forall|w: int| a <= w < i + 1 implies !#[trigger] mv[w].pinned by {
                        if w == i {
                            assert(mv[w] == messages@[i as int]@);
                        }
                    }
                }
            }
            i += 1;
        }
        let ghost old_costs = costs@;
        costs.push(cost);
        pins.push(pinned);
        proof {
            assert(ints_of(costs@).drop_last() =~= ints_of(old_costs));
            assert(sum_all(ints_of(costs@)) == sum_all(ints_of(old_costs)) + cost);
            assert(i == b);
        }
        k += 1;
    }
    proof {
        if ts.len() > 0 {
            assert(ts[ts.len() - 1].1 == mv.len());
        }
        assert(ints_of(costs@) =~= turn_costs_of(mv, pm));
        assert(pins@ =~= turn_pinned_of(mv));
        assert((mv.len() - first) * 4294967295 <= 4294967295 * 4294967295) by (nonlinear_arith)
            requires mv.len() - first <= 4294967295, 0 <= mv.len() - first;
    }
    let ghost c = PruneCounts { system: c_sys, prefix: c_pre, per_message: pm };
    proof {
        assert(observed(f, t, sp, mv, tv, available_tokens(*config), c));
    }
    let keep = match keep_turns(available, overhead, &costs, &pins) {
        Ok(keep) => keep,
        Err(e) => {
            let r = Err(e);
            proof {
                assert(plan_matches(mv, spec_plan::<T>(*config, mv, c), r));
            }
            return r;
        },
    };
    let mut kept: Vec<std::ops::Range<usize>> = Vec::new();
    let mut dropped: Vec<std::ops::Range<usize>> = Vec::new();
    let mut j: usize = 0;
    while j < turns.len()
        invariant
            bounds_of(turns@) == ts,
            keep@.len() == ts.len(),
            j <= ts.len(),
            bounds_of(kept@) == select(ts.take(j as int), keep@, true),
            bounds_of(dropped@) == select(ts.take(j as int), keep@, false),
        decreases ts.len() - j,
    {
        let range = turns[j].start..turns[j].end;
        proof {
            assert(ts.take(j + 1).drop_last() =~= ts.take(j as int));
            assert(bounds(turns@[j as int]) == ts[j as int]);
        }
        if keep[j] {
            proof {
                assert(bounds_of(kept@.push(range)) =~= bounds_of(kept@).push(bounds(range)));
            }
            kept.push(range);
        } else {
            proof {
                assert(bounds_of(dropped@.push(range)) =~= bounds_of(dropped@).push(bounds(range)));
            }
            dropped.push(range);
        }
        j += 1;
    }
    proof {
        assert(ts.take(j as int) =~= ts);
    }
    let r = Ok(PrunePlan { kept, dropped });
    proof {
        assert(plan_matches(mv, spec_plan::<T>(*config, mv, c), r));
    }
    r
}

proof fn lemma_sum_all_nonneg(v: Seq<u64>)
    ensures
        sum_all(ints_of(v)) >= 0,
    decreases v.len(),
{
    if v.len() > 0 {
        assert(ints_of(v).drop_last() =~= ints_of(v.drop_last()));
        lemma_sum_all_nonneg(v.drop_last());
    }
}

/// Earlier turns end no later than later turns start.
pub(crate) proof fn lemma_turn_order(ts: Seq<(int, int)>, j: int, k: int)
    requires
        0 <= j < k < ts.len(),
        forall|x: int| 0 <= x < ts.len() ==> (#[trigger] ts[x]).0 < ts[x].1,
        forall|x: int| 0 <= x < ts.len() - 1 ==> (#[trigger] ts[x]).1 == ts[x + 1].0,
    ensures
        ts[j].1 <= ts[k].0,
    decreases k - j,
{
    if j + 1 < k {
        lemma_turn_order(ts, j + 1, k);
        assert(ts[j].1 == ts[j + 1].0);
    } else {
        assert(ts[j].1 == ts[j + 1].0);
    }
}


// --- Preparing the prompt ----------------------------------------------------

/// The messages of the given ranges, in order.
pub open spec fn gather(mv: Seq<MessageView>, rs: Seq<(int, int)>) -> Seq<MessageView>
    decreases rs.len(),
{
    if rs.len() == 0 {
        seq![]
    } else {
        gather(mv, rs.drop_last()) + mv.subrange(rs.last().0, rs.last().1)
    }
}

/// The total length of the given ranges.
pub open spec fn span_len(rs: Seq<(int, int)>) -> int
    decreases rs.len(),
{
    if rs.len() == 0 {
        0
    } else {
        span_len(rs.drop_last()) + (rs.last().1 - rs.last().0)
    }
}

/// Every selected turn is one of the turns.
pub proof fn lemma_select_members(ts: Seq<(int, int)>, keep: Seq<bool>, want: bool)
    ensures
        forall|j: int|
            #![trigger select(ts, keep, want)[j]]
            0 <= j < select(ts, keep, want).len() ==> exists|k: int|
                0 <= k < ts.len() && #[trigger] ts[k] == select(ts, keep, want)[j],
    decreases ts.len(),
{
    if ts.len() > 0 {
        let d = ts.drop_last();
        lemma_select_members(d, keep, want);
        let p = select(d, keep, want);
        assert forall|j: int| #![trigger select(ts, keep, want)[j]] 0 <= j < select(ts, keep, want).len() implies exists|k: int|
            0 <= k < ts.len() && #[trigger] ts[k] == select(ts, keep, want)[j] by {
            if j < p.len() {
                let k = choose|k: int| 0 <= k < d.len() && #[trigger] d[k] == p[j];
                assert(ts[k] == d[k]);
            } else {
                assert(ts[ts.len() - 1] == select(ts, keep, want)[j]);
            }
        }
    }
}

/// The selected turns of contiguous ranges span no more than all of them.
pub proof fn lemma_select_span(ts: Seq<(int, int)>, keep: Seq<bool>, want: bool)
    requires
        ts.len() > 0,
        forall|k: int| 0 <= k < ts.len() ==> (#[trigger] ts[k]).0 <= ts[k].1,
        forall|k: int| 0 <= k < ts.len() - 1 ==> (#[trigger] ts[k]).1 == ts[k + 1].0,
    ensures
        0 <= span_len(select(ts, keep, want)) <= ts.last().1 - ts[0].0,
    decreases ts.len(),
{
    let d = ts.drop_last();
    let p = select(d, keep, want);
    let last = ts[ts.len() - 1];
    assert(last.0 <= last.1);
    if keep[ts.len() - 1] == want {
        assert(select(ts, keep, want) == p.push(last));
        assert(p.push(last).drop_last() =~= p);
    } else {
        assert(select(ts, keep, want) == p);
    }
    if d.len() > 0 {
        assert forall|k: int| 0 <= k < d.len() implies (#[trigger] d[k]).0 <= d[k].1 by {
            assert(d[k] == ts[k]);
        }
        assert forall|k: int| 0 <= k < d.len() - 1 implies (#[trigger] d[k]).1 == d[k + 1].0 by {
            assert(d[k] == ts[k] && d[k + 1] == ts[k + 1]);
        }
        lemma_select_span(d, keep, want);
        assert(d.last().1 == ts.last().0);
        assert(d[0] == ts[0]);
    } else {
        assert(p =~= Seq::<(int, int)>::empty());
        assert(span_len(p) == 0);
    }
}

proof fn lemma_gather_len(mv: Seq<MessageView>, rs: Seq<(int, int)>)
    requires
        forall|k: int| 0 <= k < rs.len() ==> 0 <= (#[trigger] rs[k]).0 <= rs[k].1 <= mv.len(),
    ensures
        gather(mv, rs).len() == span_len(rs),
    decreases rs.len(),
{
    if rs.len() > 0 {
        let d = rs.drop_last();
        assert forall|k: int| 0 <= k < d.len() implies 0 <= (#[trigger] d[k]).0 <= d[k].1 <= mv.len() by {
            assert(d[k] == rs[k]);
        }
        lemma_gather_len(mv, d);
    }
}

/// The messages that survive a plan: those of the kept turns, in order.
pub open spec fn kept_messages(mv: Seq<MessageView>, keep: Seq<bool>) -> Seq<MessageView> {
    gather(mv, select(turns_of(mv), keep, true))
}

/// `r` is the prepared context for a plan outcome: the template's prompt for
/// the kept messages, its count as `n`, and how many messages were kept and
/// dropped; or the plan's fault.
pub open spec fn prepared_matches<T: ChatTemplate, F: Fn(&str) -> u32>(
    f: F,
    t: T,
    system_prompt: Seq<char>,
    mv: Seq<MessageView>,
    tools: Seq<ToolSchemaView>,
    outcome: Result<Seq<bool>, ContextFault>,
    n: u32,
    r: CoreResult<PreparedContext>,
) -> bool {
    match outcome {
        Err(fault) => r matches Err(e) && e@ == ErrorView::Context(fault_message(fault)),
        Ok(keep) => r matches Ok(p) && {
            let kept = kept_messages(mv, keep);
            &&& p.prompt@ == t.spec_format(system_prompt, kept, tools)
            &&& counted(f, p.prompt@, n)
            &&& p.token_count == n
            &&& p.messages_included == kept.len()
            &&& p.messages_pruned == mv.len() - kept.len()
            &&& p.system@ == system_prompt + spec_render_tools(tools)
            &&& view_messages(p.messages@) == kept
        },
    }
}

/// What [`prepare_context`] answers: for some record `c` of what the counter
/// said while planning, and its count `n` of the prompt, `r` is the prepared
/// context for the plan [`spec_plan`] makes of those counts.
pub open spec fn prepared_as<T: ChatTemplate, F: Fn(&str) -> u32>(
    f: F,
    t: T,
    system_prompt: Seq<char>,
    mv: Seq<MessageView>,
    tools: Seq<ToolSchemaView>,
    cfg: ContextConfig,
    r: CoreResult<PreparedContext>,
) -> bool {
    exists|c: PruneCounts, n: u32|
        #[trigger] observed(f, t, system_prompt, mv, tools, available_tokens(cfg), c) && #[trigger] prepared_matches(
            f,
            t,
            system_prompt,
            mv,
            tools,
            spec_plan::<T>(cfg, mv, c),
            n,
            r,
        )
}

/// Prepare context: prune to fit the budget, apply the template, and count
/// the resulting prompt. Pinned messages always survive (see [`plan_prune`]).
pub fn prepare_context<T: ChatTemplate, F: Fn(&str) -> u32>(
    template: &T,
    system_prompt: &str,
    messages: &[Message],
    tools: &[ToolSchema],
    config: &ContextConfig,
    token_counter: &F,
) -> (r: CoreResult<PreparedContext>)
    requires
        messages@.len() <= u32::MAX,
        forall|s: &str| token_counter.requires((s,)),
    ensures
        prepared_as(
            *token_counter,
            *template,
            system_prompt@,
            view_messages(messages@),
            view_schemas(tools@),
            *config,
            r,
        ),
{
    let ghost mv = view_messages(messages@);
    let ghost f = *token_counter;
    let ghost t = *template;
    let ghost sp = system_prompt@;
    let ghost tv = view_schemas(tools@);
    let planned = plan_prune(template, system_prompt, messages, tools, config, token_counter);
    let ghost c = choose|c: PruneCounts|
        #[trigger] observed(f, t, sp, mv, tv, available_tokens(*config), c) && plan_matches(
            mv,
            spec_plan::<T>(*config, mv, c),
            planned,
        );
    let plan = match planned {
        Ok(p) => p,
        Err(e) => {
            let r = Err(e);
            proof {
                assert(prepared_matches(f, t, sp, mv, tv, spec_plan::<T>(*config, mv, c), 0, r));
            }
            return r;
        },
    };
    let ghost keep = spec_plan::<T>(*config, mv, c)->Ok_0;
    let ghost ts = turns_of(mv);
    let ghost ks = select(ts, keep, true);
    proof {
        lemma_turns_shape(mv);
        lemma_select_members(ts, keep, true);
        assert forall|k: int| 0 <= k < ks.len() implies 0 <= (#[trigger] ks[k]).0 <= ks[k].1 <= mv.len() by {
            let j = choose|j: int| 0 <= j < ts.len() && #[trigger] ts[j] == ks[k];
        }
        lemma_gather_len(mv, ks);
        if ts.len() > 0 {
            lemma_select_span(ts, keep, true);
        } else {
            assert(ks =~= Seq::<(int, int)>::empty());
        }
    }
    // Collect kept messages in conversation order (kept ranges may be
    // non-contiguous when an old pinned turn survives beside the recent window).
    let mut kept: Vec<Message> = Vec::new();
    let mut q: usize = 0;
    while q < plan.kept.len()
        invariant
            mv == view_messages(messages@),
            bounds_of(plan.kept@) == ks,
            forall|k: int| 0 <= k < ks.len() ==> 0 <= (#[trigger] ks[k]).0 <= ks[k].1 <= mv.len(),
            q <= ks.len(),
            view_messages(kept@) == gather(mv, ks.take(q as int)),
        decreases ks.len() - q,
    {
        let a = plan.kept[q].start;
        let b = plan.kept[q].end;
        proof {
            assert(bounds(plan.kept@[q as int]) == ks[q as int]);
        }
        let mut i = a;
        while i < b
            invariant
                mv == view_messages(messages@),
                0 <= a <= i <= b <= mv.len(),
                q < ks.len(),
                (a as int, b as int) == ks[q as int],
                view_messages(kept@) == gather(mv, ks.take(q as int)) + mv.subrange(a as int, i as int),
            decreases b - i,
        {
            let m = messages[i].clone();
            proof {
                assert(view_messages(kept@.push(m)) =~= view_messages(kept@).push(m@));
                assert(mv.subrange(a as int, i + 1) =~= mv.subrange(a as int, i as int).push(mv[i as int]));
                assert(gather(mv, ks.take(q as int)) + mv.subrange(a as int, i + 1) =~= (gather(mv, ks.take(q as int)) + mv.subrange(a as int, i as int)).push(mv[i as int]));
            }
            kept.push(m);
            i += 1;
        }
        proof {
            assert(ks.take(q + 1).drop_last() =~= ks.take(q as int));
        }
        q += 1;
    }
    proof {
        assert(ks.take(q as int) =~= ks);
    }
    let kept_count = kept.len() as u32;
    let pruned = messages.len() as u32 - kept_count;
    let prompt = template.format(system_prompt, kept.as_slice(), tools);
    let token_count = token_counter(prompt.as_str());
    proof {
        assert(counted(f, prompt@, token_count));
    }
    let mut system = String::from_str(system_prompt);
    let rendered = render_tools(tools);
    system.append(rendered.as_str());
    let r = Ok(
        PreparedContext {
            prompt,
            token_count,
            messages_included: kept_count,
            messages_pruned: pruned,
            system,
            messages: kept,
        },
    );
    proof {
        assert(prepared_matches(f, t, sp, mv, tv, spec_plan::<T>(*config, mv, c), token_count, r));
    }
    r
}


// --- Laws of pruning ---------------------------------------------------------

/// Every turn starts with a user message and holds no other user message, so
/// a turn is kept or dropped whole and an assistant reply is never orphaned.
pub proof fn law_turns_are_whole(mv: Seq<MessageView>)
    ensures
        forall|k: int|
            #![trigger turns_of(mv)[k]]
            0 <= k < turns_of(mv).len() ==> mv[turns_of(mv)[k].0].role == Role::User && forall|i: int|
                turns_of(mv)[k].0 < i < turns_of(mv)[k].1 ==> #[trigger] mv[i].role != Role::User,
{
    lemma_user_starts(mv);
    lemma_turns_shape(mv);
    let s = user_starts(mv);
    assert forall|k: int|
        #![trigger turns_of(mv)[k]]
        0 <= k < turns_of(mv).len() implies mv[turns_of(mv)[k].0].role == Role::User && forall|i: int|
            turns_of(mv)[k].0 < i < turns_of(mv)[k].1 ==> #[trigger] mv[i].role != Role::User by {
        assert forall|i: int| turns_of(mv)[k].0 < i < turns_of(mv)[k].1 implies #[trigger] mv[i].role != Role::User by {
            if mv[i].role == Role::User {
                let j = choose|j: int| 0 <= j < s.len() && #[trigger] s[j] == i;
                if j <= k {
                    if j < k {
                        assert(s[j] < s[k]);
                    }
                } else {
                    assert(k + 1 < s.len());
                    if j > k + 1 {
                        assert(s[k + 1] < s[j]);
                    }
                }
            }
        }
    }
}

/// The kept and dropped turns of a plan are turns, and together they are all
/// of them: every message from the first user message on lies in exactly one.
pub proof fn law_plan_partitions_turns(mv: Seq<MessageView>, keep: Seq<bool>)
    ensures
        select(turns_of(mv), keep, true).len() + select(turns_of(mv), keep, false).len() == turns_of(mv).len(),
        span_len(select(turns_of(mv), keep, true)) + span_len(select(turns_of(mv), keep, false)) == mv.len()
            - first_turn_start(mv),
        forall|j: int|
            #![trigger select(turns_of(mv), keep, true)[j]]
            0 <= j < select(turns_of(mv), keep, true).len() ==> exists|k: int|
                0 <= k < turns_of(mv).len() && #[trigger] turns_of(mv)[k] == select(turns_of(mv), keep, true)[j],
        forall|j: int|
            #![trigger select(turns_of(mv), keep, false)[j]]
            0 <= j < select(turns_of(mv), keep, false).len() ==> exists|k: int|
                0 <= k < turns_of(mv).len() && #[trigger] turns_of(mv)[k] == select(turns_of(mv), keep, false)[j],
{
    lemma_turns_shape(mv);
    lemma_select_members(turns_of(mv), keep, true);
    lemma_select_members(turns_of(mv), keep, false);
    let ts = turns_of(mv);
    lemma_select_counts(ts, keep, ts.len() as int);
    assert(ts.take(ts.len() as int) =~= ts);
    if ts.len() > 0 {
        assert(span_len(ts) == ts.last().1 - ts[0].0) by {
            lemma_span_contiguous(ts);
        }
    } else {
        assert(select(ts, keep, true) =~= Seq::<(int, int)>::empty());
        assert(select(ts, keep, false) =~= Seq::<(int, int)>::empty());
    }
}

proof fn lemma_select_counts(ts: Seq<(int, int)>, keep: Seq<bool>, m: int)
    requires
        0 <= m <= ts.len(),
    ensures
        select(ts.take(m), keep, true).len() + select(ts.take(m), keep, false).len() == m,
        span_len(select(ts.take(m), keep, true)) + span_len(select(ts.take(m), keep, false)) == span_len(ts.take(m)),
    decreases m,
{
    if m > 0 {
        lemma_select_counts(ts, keep, m - 1);
        assert(ts.take(m).drop_last() =~= ts.take(m - 1));
        let last = ts[m - 1];
        let p = select(ts.take(m - 1), keep, true);
        let q = select(ts.take(m - 1), keep, false);
        if keep[m - 1] {
            assert(p.push(last).drop_last() =~= p);
        } else {
            assert(q.push(last).drop_last() =~= q);
        }
    } else {
        assert(ts.take(0) =~= Seq::<(int, int)>::empty());
    }
}

proof fn lemma_span_contiguous(ts: Seq<(int, int)>)
    requires
        ts.len() > 0,
        forall|k: int| 0 <= k < ts.len() - 1 ==> (#[trigger] ts[k]).1 == ts[k + 1].0,
    ensures
        span_len(ts) == ts.last().1 - ts[0].0,
    decreases ts.len(),
{
    let d = ts.drop_last();
    if d.len() > 0 {
        assert forall|k: int| 0 <= k < d.len() - 1 implies (#[trigger] d[k]).1 == d[k + 1].0 by {
            assert(d[k] == ts[k] && d[k + 1] == ts[k + 1]);
        }
        lemma_span_contiguous(d);
        assert(d.last().1 == ts.last().0);
        assert(d[0] == ts[0]);
    } else {
        assert(span_len(d) == 0);
    }
}

/// A successful plan always keeps the latest turn.
pub proof fn law_latest_turn_kept(available: int, overhead: int, costs: Seq<int>, pinned: Seq<bool>)
    requires
        costs.len() == pinned.len() > 0,
        plan_keep(available, overhead, costs, pinned) is Ok,
    ensures
        plan_keep(available, overhead, costs, pinned)->Ok_0.len() == costs.len(),
        plan_keep(available, overhead, costs, pinned)->Ok_0[costs.len() - 1],
{
}

/// A successful plan keeps every pinned turn.
pub proof fn law_pinned_turns_kept(available: int, overhead: int, costs: Seq<int>, pinned: Seq<bool>, k: int)
    requires
        costs.len() == pinned.len(),
        plan_keep(available, overhead, costs, pinned) is Ok,
        0 <= k < costs.len(),
        pinned[k],
    ensures
        plan_keep(available, overhead, costs, pinned)->Ok_0[k],
{
}

/// The kept non-pinned turns are the most recent ones: when a non-pinned turn
/// survives, so does every later non-pinned turn (a sliding window).
pub proof fn law_kept_window_is_recent(
    available: int,
    overhead: int,
    costs: Seq<int>,
    pinned: Seq<bool>,
    k: int,
    j: int,
)
    requires
        costs.len() == pinned.len(),
        forall|x: int| 0 <= x < costs.len() ==> 0 <= #[trigger] costs[x],
        plan_keep(available, overhead, costs, pinned) is Ok,
        0 <= k <= j < costs.len(),
        !pinned[k],
        plan_keep(available, overhead, costs, pinned)->Ok_0[k],
    ensures
        plan_keep(available, overhead, costs, pinned)->Ok_0[j],
{
    let n = costs.len() as int;
    let last = n - 1;
    if j < last && !pinned[j] && k < last && !pinned[k] {
        lemma_sum_sel_split(costs, pinned, false, k, j, last);
        lemma_sum_sel_nonneg(costs, pinned, false, k, j);
    }
}


// --- The prompt fits the window ----------------------------------------------

/// A count that adds up over concatenation and is never negative, as a byte
/// or char count is.
pub open spec fn additive(cnt: spec_fn(Seq<char>) -> int) -> bool {
    &&& forall|a: Seq<char>, b: Seq<char>| #[trigger] cnt(a + b) == cnt(a) + cnt(b)
    &&& forall|a: Seq<char>| 0 <= #[trigger] cnt(a)
}

/// The counts a plan saw are those `cnt` gives.
pub open spec fn counts_by<T: ChatTemplate>(
    cnt: spec_fn(Seq<char>) -> int,
    t: T,
    system_prompt: Seq<char>,
    mv: Seq<MessageView>,
    tools: Seq<ToolSchemaView>,
    c: PruneCounts,
) -> bool {
    &&& c.system == cnt(t.spec_format_system(system_prompt, tools))
    &&& c.prefix == cnt(t.spec_assistant_prefix())
    &&& c.per_message.len() == mv.len()
    &&& forall|i: int|
        first_turn_start(mv) <= i < mv.len() ==> #[trigger] c.per_message[i] == cnt(
            t.spec_format_message(mv[i]),
        )
}

/// Every message formatted by the template, concatenated.
pub open spec fn chat_joined<T: ChatTemplate>(t: T, msgs: Seq<MessageView>) -> Seq<char>
    decreases msgs.len(),
{
    if msgs.len() == 0 {
        seq![]
    } else {
        chat_joined(t, msgs.drop_last()) + t.spec_format_message(msgs.last())
    }
}

/// The template's prompt is exactly its system block, each message's
/// fragment, and the assistant prefix (the fragments the budget counts).
pub open spec fn formats_by_parts<T: ChatTemplate>(t: T) -> bool {
    forall|sp: Seq<char>, ms: Seq<MessageView>, tools: Seq<ToolSchemaView>|
        #[trigger] t.spec_format(sp, ms, tools) == t.spec_format_system(sp, tools) + chat_joined(t, ms)
            + t.spec_assistant_prefix()
}

proof fn lemma_chat_joined_append<T: ChatTemplate>(t: T, a: Seq<MessageView>, b: Seq<MessageView>)
    ensures
        chat_joined(t, a + b) == chat_joined(t, a) + chat_joined(t, b),
    decreases b.len(),
{
    if b.len() == 0 {
        assert(a + b =~= a);
        assert(chat_joined(t, a) + chat_joined(t, b) =~= chat_joined(t, a));
    } else {
        lemma_chat_joined_append(t, a, b.drop_last());
        assert((a + b).drop_last() =~= a + b.drop_last());
        assert((a + b).last() == b.last());
        assert(chat_joined(t, a) + chat_joined(t, b) =~= chat_joined(t, a) + chat_joined(t, b.drop_last())
            + t.spec_format_message(b.last()));
    }
}

proof fn lemma_count_range<T: ChatTemplate>(
    cnt: spec_fn(Seq<char>) -> int,
    t: T,
    sp: Seq<char>,
    mv: Seq<MessageView>,
    tools: Seq<ToolSchemaView>,
    c: PruneCounts,
    x: int,
    y: int,
)
    requires
        additive(cnt),
        counts_by(cnt, t, sp, mv, tools, c),
        0 <= x,
        first_turn_start(mv) <= x <= y <= mv.len(),
    ensures
        cnt(chat_joined(t, mv.subrange(x, y))) == sum_u32(c.per_message.subrange(x, y)),
    decreases y - x,
{
    if y == x {
        assert(mv.subrange(x, y) =~= Seq::<MessageView>::empty());
        assert(c.per_message.subrange(x, y) =~= Seq::<u32>::empty());
        assert(cnt(seq![]) == cnt(seq![]) + cnt(seq![])) by {
            assert(Seq::<char>::empty() + Seq::<char>::empty() =~= Seq::<char>::empty());
        }
    } else {
        lemma_count_range(cnt, t, sp, mv, tools, c, x, y - 1);
        assert(mv.subrange(x, y).drop_last() =~= mv.subrange(x, y - 1));
        assert(c.per_message.subrange(x, y).drop_last() =~= c.per_message.subrange(x, y - 1));
        assert(c.per_message[y - 1] == cnt(t.spec_format_message(mv[y - 1])));
    }
}

proof fn lemma_count_kept<T: ChatTemplate>(
    cnt: spec_fn(Seq<char>) -> int,
    t: T,
    sp: Seq<char>,
    mv: Seq<MessageView>,
    tools: Seq<ToolSchemaView>,
    c: PruneCounts,
    keep: Seq<bool>,
    m: int,
)
    requires
        additive(cnt),
        counts_by(cnt, t, sp, mv, tools, c),
        0 <= m <= turns_of(mv).len(),
    ensures
        cnt(chat_joined(t, gather(mv, select(turns_of(mv).take(m), keep, true)))) == sum_sel(
            turn_costs_of(mv, c.per_message),
            keep,
            true,
            0,
            m,
        ),
    decreases m,
{
    let ts = turns_of(mv);
    let costs = turn_costs_of(mv, c.per_message);
    if m == 0 {
        assert(ts.take(0) =~= Seq::<(int, int)>::empty());
        assert(cnt(seq![]) == cnt(seq![]) + cnt(seq![])) by {
            assert(Seq::<char>::empty() + Seq::<char>::empty() =~= Seq::<char>::empty());
        }
    } else {
        lemma_count_kept(cnt, t, sp, mv, tools, c, keep, m - 1);
        lemma_turns_shape(mv);
        lemma_sum_sel_split(costs, keep, true, 0, m - 1, m);
        lemma_sum_sel_one(costs, keep, true, m - 1);
        assert(ts.take(m).drop_last() =~= ts.take(m - 1));
        let p = select(ts.take(m - 1), keep, true);
        if keep[m - 1] {
            let r = ts[m - 1];
            assert(p.push(r).drop_last() =~= p);
            assert(gather(mv, p.push(r)) == gather(mv, p) + mv.subrange(r.0, r.1));
            lemma_chat_joined_append(t, gather(mv, p), mv.subrange(r.0, r.1));
            assert(r.0 >= first_turn_start(mv)) by {
                if m - 1 > 0 {
                    lemma_turn_order(ts, 0, m - 1);
                }
            }
            lemma_count_range(cnt, t, sp, mv, tools, c, r.0, r.1);
        }
    }
}

/// Whether each turn is a non-pinned earlier turn within the window `b2`.
pub open spec fn window_flags(costs: Seq<int>, pinned: Seq<bool>, last: int, b2: int) -> Seq<bool> {
    Seq::new(costs.len(), |k: int| !pinned[k] && sum_sel(costs, pinned, false, k, last) <= b2)
}

pub(crate) proof fn lemma_window_sum(costs: Seq<int>, pinned: Seq<bool>, last: int, b2: int, i: int)
    requires
        0 <= i <= last < costs.len(),
        costs.len() == pinned.len(),
        0 <= b2,
        forall|x: int| 0 <= x < costs.len() ==> 0 <= #[trigger] costs[x],
    ensures
        sum_sel(costs, window_flags(costs, pinned, last, b2), true, i, last) <= b2,
        sum_sel(costs, pinned, false, i, last) <= b2 ==> sum_sel(
            costs,
            window_flags(costs, pinned, last, b2),
            true,
            i,
            last,
        ) == sum_sel(costs, pinned, false, i, last),
    decreases last - i,
{
    if i < last {
        lemma_window_sum(costs, pinned, last, b2, i + 1);
        lemma_sum_sel_nonneg(costs, pinned, false, i + 1, last);
    }
}

pub(crate) proof fn lemma_sum_sel_union(costs: Seq<int>, a: Seq<bool>, b: Seq<bool>, c: Seq<bool>, lo: int, hi: int)
    requires
        forall|k: int| lo <= k < hi ==> a[k] == (b[k] || c[k]) && !(b[k] && c[k]),
    ensures
        sum_sel(costs, a, true, lo, hi) == sum_sel(costs, b, true, lo, hi) + sum_sel(costs, c, true, lo, hi),
    decreases hi - lo,
{
    if lo < hi {
        lemma_sum_sel_union(costs, a, b, c, lo + 1, hi);
    }
}

/// The template's prompt counts no more than its counted fragments: its
/// system block, each message's fragment, and the assistant prefix.
pub open spec fn formats_within_parts<T: ChatTemplate>(cnt: spec_fn(Seq<char>) -> int, t: T) -> bool {
    forall|sp: Seq<char>, ms: Seq<MessageView>, tools: Seq<ToolSchemaView>|
        #[trigger] cnt(t.spec_format(sp, ms, tools)) <= cnt(t.spec_format_system(sp, tools)) + cnt(
            chat_joined(t, ms),
        ) + cnt(t.spec_assistant_prefix())
}

/// With a counter that adds up over concatenation (a byte count, say) and a
/// template whose prompt counts no more than its counted fragments, the prompt
/// of every successful plan fits in the context window less the reserved
/// response.
pub proof fn law_prompt_fits_window<T: ChatTemplate>(
    cnt: spec_fn(Seq<char>) -> int,
    t: T,
    cfg: ContextConfig,
    system_prompt: Seq<char>,
    mv: Seq<MessageView>,
    tools: Seq<ToolSchemaView>,
    c: PruneCounts,
)
    requires
        additive(cnt),
        formats_within_parts(cnt, t),
        counts_by(cnt, t, system_prompt, mv, tools, c),
        spec_plan::<T>(cfg, mv, c) is Ok,
    ensures
        cnt(t.spec_format(system_prompt, kept_messages(mv, spec_plan::<T>(cfg, mv, c)->Ok_0), tools))
            <= available_tokens(cfg) <= cfg.max_context_tokens,
{
    let keep = spec_plan::<T>(cfg, mv, c)->Ok_0;
    let ts = turns_of(mv);
    let costs = turn_costs_of(mv, c.per_message);
    let pinned = turn_pinned_of(mv);
    let available = available_tokens(cfg);
    let overhead = c.system + c.prefix;
    let kept = kept_messages(mv, keep);
    assert(cnt(t.spec_format(system_prompt, kept, tools)) <= cnt(t.spec_format_system(system_prompt, tools))
        + cnt(chat_joined(t, kept)) + cnt(t.spec_assistant_prefix()));
    lemma_count_kept(cnt, t, system_prompt, mv, tools, c, keep, ts.len() as int);
    assert(ts.take(ts.len() as int) =~= ts);
    let n = ts.len() as int;
    assert forall|x: int| 0 <= x < costs.len() implies 0 <= #[trigger] costs[x] by {
        lemma_sum_u32_nonneg(c.per_message.subrange(ts[x].0, ts[x].1));
    }
    if n > 0 {
        let last = n - 1;
        let b1 = available - overhead - costs[last];
        let pin = sum_sel(costs, pinned, true, 0, last);
        let b2 = b1 - pin;
        let w = window_flags(costs, pinned, last, b2);
        lemma_sum_sel_split(costs, keep, true, 0, last, n);
        lemma_sum_sel_one(costs, keep, true, last);
        lemma_sum_sel_union(costs, keep, pinned, w, 0, last);
        lemma_window_sum(costs, pinned, last, b2, 0);
    }
}

pub(crate) proof fn lemma_sum_u32_nonneg(s: Seq<u32>)
    ensures
        sum_u32(s) >= 0,
    decreases s.len(),
{
    if s.len() > 0 {
        lemma_sum_u32_nonneg(s.drop_last());
    }
}


proof fn lemma_fragments_format_by_parts<T: ChatTemplate + TemplateFragments>(t: T)
    requires
        forall|sp: Seq<char>, ms: Seq<MessageView>, tools: Seq<ToolSchemaView>|
            #[trigger] t.spec_format(sp, ms, tools) == concat_format(t, sp, ms, tools),
        forall|sp: Seq<char>, tools: Seq<ToolSchemaView>|
            #[trigger] t.spec_format_system(sp, tools) == t.frag_system(sp, tools),
        forall|m: MessageView| #[trigger] t.spec_format_message(m) == t.frag_message(m),
        t.spec_assistant_prefix() == t.frag_prefix(),
    ensures
        formats_by_parts(t),
{
    assert forall|sp: Seq<char>, ms: Seq<MessageView>, tools: Seq<ToolSchemaView>|
        #[trigger] t.spec_format(sp, ms, tools) == t.spec_format_system(sp, tools) + chat_joined(t, ms)
            + t.spec_assistant_prefix() by {
        lemma_joined_agree(t, ms);
    }
}

proof fn lemma_joined_agree<T: ChatTemplate + TemplateFragments>(t: T, ms: Seq<MessageView>)
    requires
        forall|m: MessageView| #[trigger] t.spec_format_message(m) == t.frag_message(m),
    ensures
        chat_joined(t, ms) == joined_messages(t, ms),
    decreases ms.len(),
{
    if ms.len() > 0 {
        lemma_joined_agree(t, ms.drop_last());
    }
}

/// The templates with a system block of their own (ChatML, Llama 3, Alpaca,
/// Vicuna, Phi-3, DeepSeek, Command-R) format a prompt as exactly the
/// fragments the budget counts, so [`law_prompt_fits_window`] applies to them.
pub proof fn law_fragment_templates_format_by_parts()
    ensures
        formats_by_parts(ChatMLTemplate),
        formats_by_parts(Llama3Template),
        formats_by_parts(AlpacaTemplate),
        formats_by_parts(VicunaTemplate),
        formats_by_parts(Phi3Template),
        formats_by_parts(DeepSeekTemplate),
        formats_by_parts(CommandRTemplate),
{
    lemma_fragments_format_by_parts(ChatMLTemplate);
    lemma_fragments_format_by_parts(Llama3Template);
    lemma_fragments_format_by_parts(AlpacaTemplate);
    lemma_fragments_format_by_parts(VicunaTemplate);
    lemma_fragments_format_by_parts(Phi3Template);
    lemma_fragments_format_by_parts(DeepSeekTemplate);
    lemma_fragments_format_by_parts(CommandRTemplate);
}


/// What folding system text `s` into a turn puts in front of the turn's body.
pub open spec fn merge_extra(style: MergeStyle, s: Seq<char>) -> Seq<char> {
    match style {
        MergeStyle::Llama2 => "<<SYS>>\n"@ + s + "\n<</SYS>>\n\n"@,
        _ => s + "\n\n"@,
    }
}

/// The text a user-side turn puts before its body.
pub open spec fn turn_open(style: MergeStyle) -> Seq<char> {
    match style {
        MergeStyle::Mistral => "[INST] "@,
        MergeStyle::Gemma => "<start_of_turn>user\n"@,
        MergeStyle::Llama2 => "<s>[INST] "@,
    }
}

/// The text a user-side turn puts after its body.
pub open spec fn turn_close(style: MergeStyle) -> Seq<char> {
    match style {
        MergeStyle::Mistral => " [/INST]"@,
        MergeStyle::Gemma => "<end_of_turn>\n"@,
        MergeStyle::Llama2 => " [/INST]"@,
    }
}

proof fn lemma_merged_turn_count(cnt: spec_fn(Seq<char>) -> int, style: MergeStyle, s: Seq<char>, body: Seq<char>)
    requires
        additive(cnt),
    ensures
        cnt(user_turn(style, with_system(style, s, body))) == cnt(user_turn(style, body)) + cnt(
            merge_extra(style, s),
        ),
{
    let o = turn_open(style);
    let c = turn_close(style);
    let e = merge_extra(style, s);
    assert(with_system(style, s, body) =~= e + body);
    assert(user_turn(style, e + body) =~= o + (e + body) + c);
    assert(user_turn(style, body) =~= o + body + c);
    assert(cnt(o + (e + body) + c) == cnt(o + (e + body)) + cnt(c));
    assert(cnt(o + (e + body)) == cnt(o) + cnt(e + body));
    assert(cnt(e + body) == cnt(e) + cnt(body));
    assert(cnt(o + body + c) == cnt(o + body) + cnt(c));
    assert(cnt(o + body) == cnt(o) + cnt(body));
}

proof fn lemma_merge_fold_count<T: ChatTemplate>(
    cnt: spec_fn(Seq<char>) -> int,
    t: T,
    style: MergeStyle,
    s: Seq<char>,
    p: bool,
    ms: Seq<MessageView>,
)
    requires
        additive(cnt),
        forall|m: MessageView| #[trigger] t.spec_format_message(m) == merge_step(style, s, false, m).0,
    ensures
        merge_fold(style, s, p, ms).1 ==> p,
        cnt(merge_fold(style, s, p, ms).0) <= cnt(chat_joined(t, ms)) + if p && !merge_fold(style, s, p, ms).1 {
            cnt(merge_extra(style, s))
        } else {
            0
        },
    decreases ms.len(),
{
    if ms.len() == 0 {
        assert(cnt(Seq::<char>::empty()) == cnt(Seq::<char>::empty()) + cnt(Seq::<char>::empty())) by {
            assert(Seq::<char>::empty() + Seq::<char>::empty() =~= Seq::<char>::empty());
        }
    } else {
        lemma_merge_fold_count(cnt, t, style, s, p, ms.drop_last());
        let (prev, p1) = merge_fold(style, s, p, ms.drop_last());
        let m = ms.last();
        let (piece, p2) = merge_step(style, s, p1, m);
        assert(cnt(prev + piece) == cnt(prev) + cnt(piece));
        assert(cnt(chat_joined(t, ms.drop_last()) + t.spec_format_message(m)) == cnt(chat_joined(t, ms.drop_last()))
            + cnt(t.spec_format_message(m)));
        if p1 {
            match m.role {
                Role::User => {
                    lemma_merged_turn_count(cnt, style, s, m.content);
                },
                Role::ToolResult => {
                    lemma_merged_turn_count(cnt, style, s, crate::template::spec_tool_result_text(m.content));
                },
                _ => {},
            }
        }
        assert(0 <= cnt(merge_extra(style, s)));
    }
}

proof fn lemma_merging_template_fits<T: ChatTemplate>(
    cnt: spec_fn(Seq<char>) -> int,
    t: T,
    style: MergeStyle,
    base: Seq<char>,
    tail: Seq<char>,
)
    requires
        additive(cnt),
        forall|sys: Seq<char>, m: MessageView| #[trigger] merge_step(style, sys, false, m).0 == t.spec_format_message(m),
        forall|sp: Seq<char>, ms: Seq<MessageView>, tools: Seq<ToolSchemaView>|
            #[trigger] t.spec_format(sp, ms, tools) == base + merged_turns(style, merged_system(sp, tools), ms) + tail,
        forall|sp: Seq<char>, tools: Seq<ToolSchemaView>|
            cnt(#[trigger] t.spec_format_system(sp, tools)) >= cnt(base) + if merged_system(sp, tools).len() > 0 {
                cnt(merge_extra(style, merged_system(sp, tools)))
            } else {
                0
            },
        cnt(t.spec_assistant_prefix()) >= cnt(tail),
    ensures
        formats_within_parts(cnt, t),
{
    assert forall|sp: Seq<char>, ms: Seq<MessageView>, tools: Seq<ToolSchemaView>|
        #[trigger] cnt(t.spec_format(sp, ms, tools)) <= cnt(t.spec_format_system(sp, tools)) + cnt(
            chat_joined(t, ms),
        ) + cnt(t.spec_assistant_prefix()) by {
        let sys = merged_system(sp, tools);
        assert forall|m: MessageView| #[trigger] t.spec_format_message(m) == merge_step(style, sys, false, m).0 by {
            assert(merge_step(style, sys, false, m).0 == t.spec_format_message(m));
        }
        lemma_merge_fold_count(cnt, t, style, sys, sys.len() > 0, ms);
        let turns = merged_turns(style, sys, ms);
        assert(cnt(base + turns + tail) == cnt(base + turns) + cnt(tail));
        assert(cnt(base + turns) == cnt(base) + cnt(turns));
        assert(cnt(t.spec_format_system(sp, tools)) >= cnt(base) + if sys.len() > 0 {
            cnt(merge_extra(style, sys))
        } else {
            0
        });
    }
}

proof fn lemma_chat_joined_same<T1: ChatTemplate, T2: ChatTemplate>(t1: T1, t2: T2, ms: Seq<MessageView>)
    requires
        forall|m: MessageView| #[trigger] t1.spec_format_message(m) == t2.spec_format_message(m),
    ensures
        chat_joined(t1, ms) == chat_joined(t2, ms),
    decreases ms.len(),
{
    if ms.len() > 0 {
        lemma_chat_joined_same(t1, t2, ms.drop_last());
        assert(t1.spec_format_message(ms.last()) == t2.spec_format_message(ms.last()));
    }
}

proof fn lemma_exact_template_fits<T1: ChatTemplate, T2: ChatTemplate>(cnt: spec_fn(Seq<char>) -> int, t1: T1, t2: T2)
    requires
        additive(cnt),
        formats_by_parts(t2),
        forall|sp: Seq<char>, ms: Seq<MessageView>, tools: Seq<ToolSchemaView>|
            #[trigger] t1.spec_format(sp, ms, tools) == t2.spec_format(sp, ms, tools),
        forall|sp: Seq<char>, tools: Seq<ToolSchemaView>|
            #[trigger] t1.spec_format_system(sp, tools) == t2.spec_format_system(sp, tools),
        forall|m: MessageView| #[trigger] t1.spec_format_message(m) == t2.spec_format_message(m),
        t1.spec_assistant_prefix() == t2.spec_assistant_prefix(),
    ensures
        formats_within_parts(cnt, t1),
{
    assert forall|sp: Seq<char>, ms: Seq<MessageView>, tools: Seq<ToolSchemaView>|
        #[trigger] cnt(t1.spec_format(sp, ms, tools)) <= cnt(t1.spec_format_system(sp, tools)) + cnt(
            chat_joined(t1, ms),
        ) + cnt(t1.spec_assistant_prefix()) by {
        lemma_chat_joined_same(t1, t2, ms);
        let a = t2.spec_format_system(sp, tools);
        let b = chat_joined(t2, ms);
        let c = t2.spec_assistant_prefix();
        assert(t2.spec_format(sp, ms, tools) == a + b + c);
        assert(cnt(a + b + c) == cnt(a + b) + cnt(c));
        assert(cnt(a + b) == cnt(a) + cnt(b));
    }
}

/// With a counter that adds up over concatenation, every template's prompt
/// counts no more than the fragments the budget counted for it, so
/// [`law_prompt_fits_window`] holds for each of them: exactly for the
/// templates with a system block of their own, and with room to spare for
/// those that fold the system text into the first user turn (the fold drops
/// the opening of one turn).
pub proof fn law_every_template_fits_its_counts(cnt: spec_fn(Seq<char>) -> int, t: BuiltinTemplate)
    requires
        additive(cnt),
    ensures
        formats_within_parts(cnt, t),
{
    law_fragment_templates_format_by_parts();
    reveal_strlit("<s>");
    reveal_strlit("[INST] ");
    reveal_strlit("<s>[INST] ");
    reveal_strlit("<bos>");
    reveal_strlit("<start_of_turn>user\n");
    reveal_strlit("<bos><start_of_turn>user\n");
    reveal_strlit("<s>[INST] <<SYS>>\n");
    reveal_strlit("<<SYS>>\n");
    match t {
        BuiltinTemplate::ChatML => lemma_exact_template_fits(cnt, t, ChatMLTemplate),
        BuiltinTemplate::Llama3 => lemma_exact_template_fits(cnt, t, Llama3Template),
        BuiltinTemplate::Alpaca => lemma_exact_template_fits(cnt, t, AlpacaTemplate),
        BuiltinTemplate::Vicuna => lemma_exact_template_fits(cnt, t, VicunaTemplate),
        BuiltinTemplate::Phi3 => lemma_exact_template_fits(cnt, t, Phi3Template),
        BuiltinTemplate::DeepSeek => lemma_exact_template_fits(cnt, t, DeepSeekTemplate),
        BuiltinTemplate::CommandR => lemma_exact_template_fits(cnt, t, CommandRTemplate),
        BuiltinTemplate::Mistral => {
            assert forall|sp: Seq<char>, tools: Seq<ToolSchemaView>|
                cnt(#[trigger] t.spec_format_system(sp, tools)) >= cnt("<s>"@) + if merged_system(sp, tools).len()
                    > 0 {
                    cnt(merge_extra(MergeStyle::Mistral, merged_system(sp, tools)))
                } else {
                    0
                } by {
                let sys = merged_system(sp, tools);
                if sys.len() > 0 {
                    let e = merge_extra(MergeStyle::Mistral, sys);
                    assert(t.spec_format_system(sp, tools) =~= "<s>"@ + ("[INST] "@ + e));
                    assert(cnt("<s>"@ + ("[INST] "@ + e)) == cnt("<s>"@) + cnt("[INST] "@ + e));
                    assert(cnt("[INST] "@ + e) == cnt("[INST] "@) + cnt(e));
                    assert(cnt("[INST] "@) >= 0);
                }
            }
            assert(cnt(t.spec_assistant_prefix()) >= cnt(Seq::<char>::empty()) == 0) by {
                assert(cnt(Seq::<char>::empty()) == cnt(Seq::<char>::empty()) + cnt(Seq::<char>::empty())) by {
                    assert(Seq::<char>::empty() + Seq::<char>::empty() =~= Seq::<char>::empty());
                }
            }
            assert forall|sp: Seq<char>, ms: Seq<MessageView>, tools: Seq<ToolSchemaView>|
                #[trigger] t.spec_format(sp, ms, tools) == "<s>"@ + merged_turns(
                    MergeStyle::Mistral,
                    merged_system(sp, tools),
                    ms,
                ) + Seq::<char>::empty() by {
                assert(t.spec_format(sp, ms, tools) =~= "<s>"@ + merged_turns(
                    MergeStyle::Mistral,
                    merged_system(sp, tools),
                    ms,
                ) + Seq::<char>::empty());
            }
            lemma_merging_template_fits(cnt, t, MergeStyle::Mistral, "<s>"@, Seq::<char>::empty());
        },
        BuiltinTemplate::Gemma => {
            assert forall|sp: Seq<char>, tools: Seq<ToolSchemaView>|
                cnt(#[trigger] t.spec_format_system(sp, tools)) >= cnt("<bos>"@) + if merged_system(sp, tools).len()
                    > 0 {
                    cnt(merge_extra(MergeStyle::Gemma, merged_system(sp, tools)))
                } else {
                    0
                } by {
                let sys = merged_system(sp, tools);
                if sys.len() > 0 {
                    let e = merge_extra(MergeStyle::Gemma, sys);
                    let o = "<start_of_turn>user\n"@;
                    assert(t.spec_format_system(sp, tools) =~= "<bos>"@ + (o + e));
                    assert(cnt("<bos>"@ + (o + e)) == cnt("<bos>"@) + cnt(o + e));
                    assert(cnt(o + e) == cnt(o) + cnt(e));
                    assert(cnt(o) >= 0);
                }
            }
            lemma_merging_template_fits(cnt, t, MergeStyle::Gemma, "<bos>"@, "<start_of_turn>model\n"@);
        },
        BuiltinTemplate::Llama2 => {
            assert forall|sp: Seq<char>, tools: Seq<ToolSchemaView>|
                cnt(#[trigger] t.spec_format_system(sp, tools)) >= cnt(Seq::<char>::empty()) + if merged_system(
                    sp,
                    tools,
                ).len() > 0 {
                    cnt(merge_extra(MergeStyle::Llama2, merged_system(sp, tools)))
                } else {
                    0
                } by {
                let sys = merged_system(sp, tools);
                assert(cnt(Seq::<char>::empty()) == cnt(Seq::<char>::empty()) + cnt(Seq::<char>::empty())) by {
                    assert(Seq::<char>::empty() + Seq::<char>::empty() =~= Seq::<char>::empty());
                }
                assert(cnt(t.spec_format_system(sp, tools)) >= 0);
                if sys.len() > 0 {
                    let e = merge_extra(MergeStyle::Llama2, sys);
                    let o = "<s>[INST] "@;
                    assert(t.spec_format_system(sp, tools) =~= o + e);
                    assert(cnt(o + e) == cnt(o) + cnt(e));
                    assert(cnt(o) >= 0);
                }
            }
            assert(cnt(Seq::<char>::empty()) == 0) by {
                assert(cnt(Seq::<char>::empty()) == cnt(Seq::<char>::empty()) + cnt(Seq::<char>::empty())) by {
                    assert(Seq::<char>::empty() + Seq::<char>::empty() =~= Seq::<char>::empty());
                }
            }
            assert forall|sp: Seq<char>, ms: Seq<MessageView>, tools: Seq<ToolSchemaView>|
                #[trigger] t.spec_format(sp, ms, tools) == Seq::<char>::empty() + merged_turns(
                    MergeStyle::Llama2,
                    merged_system(sp, tools),
                    ms,
                ) + Seq::<char>::empty() by {
                assert(t.spec_format(sp, ms, tools) =~= Seq::<char>::empty() + merged_turns(
                    MergeStyle::Llama2,
                    merged_system(sp, tools),
                    ms,
                ) + Seq::<char>::empty());
            }
            lemma_merging_template_fits(cnt, t, MergeStyle::Llama2, Seq::<char>::empty(), Seq::<char>::empty());
        },
    }
}

} // verus!
