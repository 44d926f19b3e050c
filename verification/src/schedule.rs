//! The order in which the device works on a planned product.
use vstd::prelude::*;

use crate::launch::{Launch, TimingSlot};
use crate::plan::{FwdPlan, Quantize};

verus! {

use crate::plan::FwdPlanView;

/// A span of device time that is measured by a pair of events.
#[derive(Debug, Clone, Copy, PartialEq, Eq)]
pub enum Span {
    /// All work on the product.
    Total,
    /// Quantizing the activations.
    Quantize,
    /// A launch.
    Launch(TimingSlot),
}

/// One thing to do.
#[derive(Debug, Clone, Copy, PartialEq, Eq)]
pub enum Action {
    /// Make sure that the scratch buffer of the device has this many bytes.
    EnsureScratch(usize),
    /// Allocate this many outputs.
    AllocateOutputs(usize),
    /// Record the event that starts a span.
    Start(Span),
    /// Record the event that ends a span.
    End(Span),
    /// Enqueue the quantizing of the activations.
    Quantize(Quantize),
    /// Enqueue a launch.
    Launch(Launch),
}

/// An action with its span measured, if timing is on.
pub open spec fn measured(timing_enabled: bool, span: Span, action: Action) -> Seq<Action> {
    if timing_enabled {
        seq![Action::Start(span), action, Action::End(span)]
    } else {
        seq![action]
    }
}

/// A launch with its span measured, if its time is reported.
pub open spec fn measured_launch(timing_enabled: bool, launch: Launch) -> Seq<Action> {
    match launch.timing {
        Some(slot) => measured(timing_enabled, Span::Launch(slot), Action::Launch(launch)),
        None => seq![Action::Launch(launch)],
    }
}

/// An event, if timing is on.
pub open spec fn event(timing_enabled: bool, action: Action) -> Seq<Action> {
    if timing_enabled {
        seq![action]
    } else {
        seq![]
    }
}

/// The launch for the remaining rows of activations, if there is one.
pub open spec fn tail_actions(plan: FwdPlanView, timing_enabled: bool) -> Seq<Action> {
    match plan.tail {
        Some(tail) => measured_launch(timing_enabled, tail),
        None => seq![],
    }
}

/// All actions for a product, in order: memory first, then quantizing, then the launches.
pub open spec fn scheduled(plan: FwdPlanView, timing_enabled: bool) -> Seq<Action> {
    seq![
        Action::EnsureScratch(plan.scratch_bytes as usize),
        Action::AllocateOutputs(plan.out_len as usize),
    ] + event(timing_enabled, Action::Start(Span::Total)) + measured(
        timing_enabled,
        Span::Quantize,
        Action::Quantize(plan.quantize),
    ) + measured_launch(timing_enabled, plan.main) + tail_actions(plan, timing_enabled) + event(
        timing_enabled,
        Action::End(Span::Total),
    )
}

/// Appends an action with its span measured.
fn push_measured(actions: &mut Vec<Action>, timing_enabled: bool, span: Span, action: Action)
    ensures
        final(actions)@ == old(actions)@ + measured(timing_enabled, span, action),
{
    if timing_enabled {
        actions.push(Action::Start(span));
    }
    actions.push(action);
    if timing_enabled {
        actions.push(Action::End(span));
    }
    assert(actions@ =~= old(actions)@ + measured(timing_enabled, span, action));
}

/// Appends a launch with its span measured, if its time is reported.
fn push_launch(actions: &mut Vec<Action>, timing_enabled: bool, launch: Launch)
    ensures
        final(actions)@ == old(actions)@ + measured_launch(timing_enabled, launch),
{
    match launch.timing {
        Some(slot) => {
            push_measured(actions, timing_enabled, Span::Launch(slot), Action::Launch(launch));
        },
        None => {
            actions.push(Action::Launch(launch));
            assert(actions@ =~= old(actions)@ + measured_launch(timing_enabled, launch));
        },
    }
}

/// Lists [`scheduled`].
pub fn schedule(plan: &FwdPlan, timing_enabled: bool) -> (r: Vec<Action>)
    ensures
        r@ == scheduled(plan@, timing_enabled),
{
    let mut actions: Vec<Action> = Vec::new();
    actions.push(Action::EnsureScratch(plan.scratch_bytes));
    actions.push(Action::AllocateOutputs(plan.out_len));
    if timing_enabled {
        actions.push(Action::Start(Span::Total));
    }
    push_measured(&mut actions, timing_enabled, Span::Quantize, Action::Quantize(plan.quantize));
    push_launch(&mut actions, timing_enabled, plan.main);
    if let Some(tail) = plan.tail {
        push_launch(&mut actions, timing_enabled, tail);
    }
    if timing_enabled {
        actions.push(Action::End(Span::Total));
    }
    assert(actions@ =~= scheduled(plan@, timing_enabled));
    actions
}

/// The actions that are no events.
pub open spec fn work(plan: FwdPlanView) -> Seq<Action> {
    let launches = match plan.tail {
        Some(tail) => seq![Action::Launch(plan.main), Action::Launch(tail)],
        None => seq![Action::Launch(plan.main)],
    };
    seq![
        Action::EnsureScratch(plan.scratch_bytes as usize),
        Action::AllocateOutputs(plan.out_len as usize),
        Action::Quantize(plan.quantize),
    ] + launches
}

/// Whether an action records an event.
pub open spec fn is_event(action: Action) -> bool {
    action is Start || action is End
}

/// Timing adds events and nothing else: without them, a product first gets its memory, then
/// quantizes the activations, then runs its launches.
pub proof fn law_timing_only_adds_events(plan: FwdPlanView, timing_enabled: bool)
    ensures
        ({
            let first = seq![
                Action::EnsureScratch(plan.scratch_bytes as usize),
                Action::AllocateOutputs(plan.out_len as usize),
                Action::Quantize(plan.quantize),
                Action::Launch(plan.main),
            ];
            let all = match plan.tail {
                Some(tail) => first.push(Action::Launch(tail)),
                None => first,
            };
            &&& scheduled(plan, timing_enabled).filter(|a: Action| !is_event(a)) == all
            &&& !timing_enabled ==> scheduled(plan, timing_enabled) == all
            &&& work(plan) == all
        }),
{
    let f = |a: Action| !is_event(a);
    let memory = seq![
        Action::EnsureScratch(plan.scratch_bytes as usize),
        Action::AllocateOutputs(plan.out_len as usize),
    ];
    let start = event(timing_enabled, Action::Start(Span::Total));
    let quantize = measured(timing_enabled, Span::Quantize, Action::Quantize(plan.quantize));
    let main = measured_launch(timing_enabled, plan.main);
    let tail = tail_actions(plan, timing_enabled);
    let end = event(timing_enabled, Action::End(Span::Total));
    Seq::filter_distributes_over_add(memory, start, f);
    Seq::filter_distributes_over_add(memory + start, quantize, f);
    Seq::filter_distributes_over_add(memory + start + quantize, main, f);
    Seq::filter_distributes_over_add(memory + start + quantize + main, tail, f);
    Seq::filter_distributes_over_add(memory + start + quantize + main + tail, end, f);
    lemma_filter_memory(memory[0], memory[1]);
    lemma_filter_event(timing_enabled, Action::Start(Span::Total));
    lemma_filter_event(timing_enabled, Action::End(Span::Total));
    lemma_filter_measured(timing_enabled, Span::Quantize, Action::Quantize(plan.quantize));
    lemma_filter_launch(timing_enabled, plan.main);
    if plan.tail is Some {
        lemma_filter_launch(timing_enabled, plan.tail->0);
    } else {
        lemma_filter_event(false, Action::End(Span::Total));
    }
    let first = seq![
        memory[0],
        memory[1],
        Action::Quantize(plan.quantize),
        Action::Launch(plan.main),
    ];
    let all = match plan.tail {
        Some(tail) => first.push(Action::Launch(tail)),
        None => first,
    };
    assert(work(plan) =~= all);
    assert(scheduled(plan, timing_enabled).filter(f) =~= all);
    if !timing_enabled {
        assert(scheduled(plan, timing_enabled) =~= all);
    }
}

/// Actions that are no events stay.
proof fn lemma_filter_memory(first: Action, second: Action)
    requires
        !is_event(first),
        !is_event(second),
    ensures
        seq![first, second].filter(|a: Action| !is_event(a)) == seq![first, second],
{
    reveal_with_fuel(Seq::filter, 4);
    let s = seq![first, second];
    assert(s.drop_last() =~= seq![first]);
    assert(s.drop_last().drop_last() =~= seq![]);
    assert(s.filter(|a: Action| !is_event(a)) =~= s);
}

/// An event is left out.
proof fn lemma_filter_event(timing_enabled: bool, action: Action)
    requires
        is_event(action),
    ensures
        event(timing_enabled, action).filter(|a: Action| !is_event(a)) == Seq::<Action>::empty(),
{
    reveal_with_fuel(Seq::filter, 3);
    let s = event(timing_enabled, action);
    if timing_enabled {
        assert(s.drop_last() =~= seq![]);
    }
}

/// Of a measured action the action stays.
proof fn lemma_filter_measured(timing_enabled: bool, span: Span, action: Action)
    requires
        !is_event(action),
    ensures
        measured(timing_enabled, span, action).filter(|a: Action| !is_event(a)) == seq![action],
{
    reveal_with_fuel(Seq::filter, 5);
    let f = |a: Action| !is_event(a);
    let s = measured(timing_enabled, span, action);
    if timing_enabled {
        assert(s.drop_last() =~= seq![Action::Start(span), action]);
        assert(s.drop_last().drop_last() =~= seq![Action::Start(span)]);
        assert(s.drop_last().drop_last().drop_last() =~= seq![]);
    } else {
        assert(s.drop_last() =~= seq![]);
    }
    assert(s.filter(f) =~= seq![action]);
}

/// Of a measured launch the launch stays.
proof fn lemma_filter_launch(timing_enabled: bool, launch: Launch)
    ensures
        measured_launch(timing_enabled, launch).filter(|a: Action| !is_event(a)) == seq![
            Action::Launch(launch),
        ],
{
    match launch.timing {
        Some(slot) => {
            lemma_filter_measured(timing_enabled, Span::Launch(slot), Action::Launch(launch));
        },
        None => {
            lemma_filter_measured(false, Span::Total, Action::Launch(launch));
        },
    }
}

/// With timing on, the events that start and end a span are recorded right around it: the span of
/// everything begins once the memory is there and ends last, quantizing is measured, and a launch
/// is measured if its time is reported, and not if it is not.
pub proof fn law_spans_enclose_the_work(plan: FwdPlanView, i: int)
    requires
        0 <= i < scheduled(plan, true).len(),
    ensures
        ({
            let s = scheduled(plan, true);
            &&& s[2] == Action::Start(Span::Total)
            &&& s.last() == Action::End(Span::Total)
            &&& s[i] is Quantize ==> 0 < i < s.len() - 1 && s[i - 1] == Action::Start(
                Span::Quantize,
            ) && s[i + 1] == Action::End(Span::Quantize)
            &&& s[i] matches Action::Launch(launch) ==> 0 < i < s.len() - 1 && (
            match launch.timing {
                Some(slot) => s[i - 1] == Action::Start(Span::Launch(slot)) && s[i + 1]
                    == Action::End(Span::Launch(slot)),
                None => !(s[i - 1] is Start),
            })
            &&& s[i] matches Action::Start(span) ==> span == Span::Total || i + 2 < s.len() && s[i
                + 2] == Action::End(span)
        }),
{
    let s = scheduled(plan, true);
    let head = seq![
        Action::EnsureScratch(plan.scratch_bytes as usize),
        Action::AllocateOutputs(plan.out_len as usize),
        Action::Start(Span::Total),
        Action::Start(Span::Quantize),
        Action::Quantize(plan.quantize),
        Action::End(Span::Quantize),
    ];
    let main = measured_launch(true, plan.main);
    let tail = tail_actions(plan, true);
    assert(s =~= head + main + tail + seq![Action::End(Span::Total)]);
    let m = main.len() as int;
    let t = tail.len() as int;
    assert(m == 1 || m == 3);
    assert(t == 0 || t == 1 || t == 3);
    assert(s.len() == 7 + m + t);
    assert forall|k: int| 0 <= k < 6 implies s[k] == head[k] by {}
    assert forall|k: int| 0 <= k < m implies s[6 + k] == main[k] by {}
    assert forall|k: int| 0 <= k < t implies s[6 + m + k] == tail[k] by {}
    assert(s[6 + m + t] == Action::End(Span::Total));
    if 6 <= i < 6 + m {
        assert(s[i] == main[i - 6]);
        assert(s[5] == head[5]);
        if t > 0 {
            assert(s[6 + m] == tail[0]);
        }
    } else if 6 + m <= i < 6 + m + t {
        assert(s[i] == tail[i - 6 - m]);
        assert(s[5 + m] == main[m - 1]);
    }
}

} // verus!
