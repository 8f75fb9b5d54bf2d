//! Where the jumps of a resolution lie: every conditional branch goes forward,
//! every loop goes back to a `while`, and nothing leaves the operations.

use vstd::prelude::*;
use crate::class::op::{Jump, Marker};
use crate::control_flow::{
    close_chain, loop_depth, Resolution, resolution, scan, settle_jumps, settle_pending, start,
    step, well_formed, with_exit, with_target,
};

verus! {

/// Whether the keyword is an arm of a conditional.
pub open spec fn is_arm(marker: Marker) -> bool {
    marker == Marker::If || marker == Marker::Elif || marker == Marker::Else
}

/// Whether the keyword gets its target from the `done` of its loop.
pub open spec fn awaits_done(marker: Marker) -> bool {
    marker == Marker::Do || marker == Marker::Break || marker == Marker::Continue
}

/// Whether the stack holds the position.
pub open spec fn holds(stack: Seq<usize>, position: int) -> bool {
    exists|k: int| 0 <= k < stack.len() && #[trigger] stack[k] == position
}

/// Whether the positions grow from the bottom of the stack to its top.
pub open spec fn ascending(stack: Seq<usize>) -> bool {
    forall|j: int, k: int| 0 <= j < k < stack.len() ==> stack[j] < stack[k]
}

/// Whether `target` lies behind `position` and not behind `limit`.
pub open spec fn forward(target: Option<usize>, position: int, limit: int) -> bool {
    target matches Some(to) && position < to <= limit
}

/// Whether `target` is a `while` before `position`.
pub open spec fn back_to_while(target: Option<usize>, markers: Seq<Marker>, position: int) -> bool {
    target matches Some(to) && to < position && markers[to as int] == Marker::While
}

/// Whether the jump of the operation at `position` is what a resolution
/// that has succeeded gives it: a conditional branch goes forward, `done`
/// goes back to its `while`, `break` and `continue` inside a loop go
/// behind it and back to its `while`, and outside any loop behind the last
/// operation and to the first;
/// only an arm of a conditional has an exit, which lies behind it.
pub open spec fn fits(jumps: Seq<Jump>, markers: Seq<Marker>, position: int) -> bool {
    let jump = jumps[position];
    let limit = markers.len() as int;
    match markers[position] {
        Marker::If | Marker::Elif | Marker::Else => {
            &&& forward(jump.target, position, limit)
            &&& (jump.exit is Some ==> forward(jump.exit, position, limit))
        },
        Marker::Do => jump.exit is None && forward(jump.target, position, limit),
        Marker::Break => jump.exit is None && if loop_depth(markers, position as nat) > 0 {
            forward(jump.target, position, limit)
        } else {
            jump.target == Some(markers.len() as usize)
        },
        Marker::Continue => jump.exit is None && if loop_depth(markers, position as nat) > 0 {
            back_to_while(jump.target, markers, position)
        } else {
            jump.target == Some(0usize)
        },
        Marker::Done => jump.exit is None && back_to_while(jump.target, markers, position),
        Marker::Endif | Marker::While | Marker::Plain => jump == Jump::unresolved(),
    }
}

/// Whether every jump is what a resolution that has succeeded gives it.
pub open spec fn well_resolved(markers: Seq<Marker>, jumps: Seq<Jump>) -> bool {
    &&& jumps.len() == markers.len()
    &&& forall|position: int| 0 <= position < markers.len() ==> #[trigger] fits(jumps, markers, position)
}

/// Whether the jump of the operation at `position` is as far as the scan
/// of the first `count` operations can have brought it: as `fits` says, with
/// the position `count` for the end, unless the keyword is still on a stack.
pub open spec fn settled_at(state: Resolution, markers: Seq<Marker>, count: int, position: int) -> bool {
    let jump = state.jumps[position];
    if position >= count {
        jump == Jump::unresolved()
    } else {
        match markers[position] {
            Marker::If | Marker::Elif | Marker::Else => {
                &&& (holds(state.if_stack, position) || forward(jump.target, position, count))
                &&& (jump.exit is Some ==> forward(jump.exit, position, count))
            },
            Marker::Do => jump.exit is None && (holds(state.pending, position) || forward(
                jump.target,
                position,
                count,
            )),
            Marker::Break => jump.exit is None && if loop_depth(markers, position as nat) > 0 {
                holds(state.pending, position) || forward(jump.target, position, count)
            } else {
                jump.target == Some(markers.len() as usize) && !holds(state.pending, position)
            },
            Marker::Continue => jump.exit is None && if loop_depth(markers, position as nat) > 0 {
                holds(state.pending, position) || back_to_while(jump.target, markers, position)
            } else {
                jump.target == Some(0usize) && !holds(state.pending, position)
            },
            Marker::Done => jump.exit is None && back_to_while(jump.target, markers, position),
            Marker::Endif | Marker::While | Marker::Plain => jump == Jump::unresolved(),
        }
    }
}

/// Whether the stacks hold what they are for: arms of conditionals, the
/// `while` of each open loop, and keywords of open loops that wait for
/// their `done`, each stack in the order of the positions.
pub open spec fn orderly(state: Resolution, markers: Seq<Marker>) -> bool {
    &&& forall|k: int| 0 <= k < state.if_stack.len() ==> is_arm(markers[(#[trigger] state.if_stack[k]) as int])
    &&& forall|k: int|
        0 <= k < state.while_stack.len() ==> markers[(#[trigger] state.while_stack[k]) as int]
            == Marker::While
    &&& forall|k: int|
        0 <= k < state.pending.len() ==> awaits_done(markers[(#[trigger] state.pending[k]) as int])
    &&& ascending(state.while_stack)
    &&& ascending(state.pending)
    &&& (state.pending.len() > 0 ==> state.while_stack.len() > 0 && state.while_stack[0]
        < state.pending[0])
    &&& forall|p: int|
        0 <= p < state.previous.len() ==> ((#[trigger] state.previous[p]) matches Some(before)
            ==> is_arm(markers[before as int]))
}

/// Whether the state is what the scan of the first `count` operations can
/// have brought about.
pub open spec fn settled(state: Resolution, markers: Seq<Marker>, count: nat) -> bool {
    &&& well_formed(state, markers.len(), count)
    &&& orderly(state, markers)
    &&& state.while_stack.len() == loop_depth(markers, count)
    &&& forall|position: int|
        0 <= position < markers.len() ==> #[trigger] settled_at(
            state,
            markers,
            count as int,
            position,
        )
}

/// Closing a chain changes nothing but the exits of arms of the chain.
pub proof fn lemma_close_chain_frame(
    jumps: Seq<Jump>,
    previous: Seq<Option<usize>>,
    link: Option<usize>,
    past: usize,
    markers: Seq<Marker>,
)
    requires
        jumps.len() == markers.len(),
        previous.len() == markers.len(),
        forall|p: int|
            0 <= p < previous.len() ==> ((#[trigger] previous[p]) matches Some(before) ==> before
                < p && is_arm(markers[before as int])),
        link matches Some(arm) ==> arm < markers.len() && is_arm(markers[arm as int]),
    ensures
        close_chain(jumps, previous, link, past).len() == jumps.len(),
        forall|i: int|
            0 <= i < jumps.len() ==> {
                let after = #[trigger] close_chain(jumps, previous, link, past)[i];
                &&& after.target == jumps[i].target
                &&& (after.exit == jumps[i].exit || (after.exit == Some(past) && is_arm(markers[i])
                    && (link matches Some(arm) && i <= arm)))
            },
    decreases
        (match link {
            Some(arm) => arm + 1,
            None => 0,
        }),
{
    match link {
        None => {},
        Some(arm) => {
            assert(previous[arm as int] matches Some(before) ==> before < arm);
            let next = with_exit(jumps, arm, past);
            lemma_close_chain_frame(next, previous, previous[arm as int], past, markers);
            assert forall|i: int| 0 <= i < jumps.len() implies {
                let after = #[trigger] close_chain(jumps, previous, link, past)[i];
                &&& after.target == jumps[i].target
                &&& (after.exit == jumps[i].exit || (after.exit == Some(past) && is_arm(markers[i])
                    && (link matches Some(arm) && i <= arm)))
            } by {
                let after = close_chain(next, previous, previous[arm as int], past)[i];
                assert(after.target == next[i].target);
            }
        },
    }
}

/// Closing a loop gives each keyword recorded since its `while` its
/// target, leaves the keywords recorded before waiting, and changes nothing else.
pub proof fn lemma_settle_frame(
    jumps: Seq<Jump>,
    markers: Seq<Marker>,
    pending: Seq<usize>,
    opened: usize,
    past: usize,
)
    requires
        jumps.len() == markers.len(),
        forall|k: int| 0 <= k < pending.len() ==> #[trigger] pending[k] < markers.len(),
        ascending(pending),
    ensures
        settle_jumps(jumps, markers, pending, opened, past).len() == jumps.len(),
        settle_pending(pending, opened).len() <= pending.len(),
        settle_pending(pending, opened) == pending.take(settle_pending(pending, opened).len() as int),
        forall|k: int|
            settle_pending(pending, opened).len() <= k < pending.len() ==> #[trigger] pending[k]
                > opened,
        settle_pending(pending, opened).len() > 0 ==> settle_pending(pending, opened).last()
            <= opened,
        forall|i: int|
            0 <= i < jumps.len() ==> {
                let after = #[trigger] settle_jumps(jumps, markers, pending, opened, past)[i];
                if exists|k: int|
                    settle_pending(pending, opened).len() <= k < pending.len() && pending[k] == i {
                    after == (Jump {
                        target: Some(
                            if markers[i] == Marker::Continue {
                                opened
                            } else {
                                past
                            },
                        ),
                        exit: jumps[i].exit,
                    })
                } else {
                    after == jumps[i]
                }
            },
    decreases pending.len(),
{
    if pending.len() > 0 && pending.last() > opened {
        let at = pending.last();
        let target = if markers[at as int] == Marker::Continue {
            opened
        } else {
            past
        };
        let next = with_target(jumps, at, target);
        let fewer = pending.drop_last();
        lemma_settle_frame(next, markers, fewer, opened, past);
        let rest = settle_pending(pending, opened);
        assert(rest == settle_pending(fewer, opened));
        assert(fewer.take(rest.len() as int) =~= pending.take(rest.len() as int));
        assert forall|k: int| rest.len() <= k < pending.len() implies #[trigger] pending[k]
            > opened by {
            if k < fewer.len() {
                assert(fewer[k] == pending[k]);
            }
        }
        assert forall|i: int| 0 <= i < jumps.len() implies {
            let after = #[trigger] settle_jumps(jumps, markers, pending, opened, past)[i];
            if exists|k: int| rest.len() <= k < pending.len() && pending[k] == i {
                after == (Jump {
                    target: Some(
                        if markers[i] == Marker::Continue {
                            opened
                        } else {
                            past
                        },
                    ),
                    exit: jumps[i].exit,
                })
            } else {
                after == jumps[i]
            }
        } by {
            let after = settle_jumps(next, markers, fewer, opened, past)[i];
            if exists|k: int| rest.len() <= k < fewer.len() && fewer[k] == i {
                let k = choose|k: int| rest.len() <= k < fewer.len() && fewer[k] == i;
                assert(pending[k] == i);
                assert(pending[k] < pending[pending.len() - 1]);
                assert(i != at);
            } else if i == at {
                assert(pending[pending.len() - 1] == i);
            } else {
                if exists|k: int| rest.len() <= k < pending.len() && pending[k] == i {
                    let k = choose|k: int| rest.len() <= k < pending.len() && pending[k] == i;
                    assert(k < fewer.len());
                    assert(fewer[k] == i);
                }
            }
        }
    } else {
        assert(pending.take(pending.len() as int) =~= pending);
    }
}

/// A position that a stack holds is held by the stack with one more position.
pub proof fn lemma_holds_after_push(stack: Seq<usize>, more: usize, position: int)
    requires
        holds(stack, position),
    ensures
        holds(stack.push(more), position),
{
    let k = choose|k: int| 0 <= k < stack.len() && #[trigger] stack[k] == position;
    assert(stack.push(more)[k] == position);
}

/// The top of a stack is held by it.
pub proof fn lemma_holds_top(stack: Seq<usize>, top: usize)
    ensures
        holds(stack.push(top), top as int),
{
    assert(stack.push(top)[stack.len() as int] == top);
}

/// A position below the top that a stack holds is held once the top is taken off.
pub proof fn lemma_holds_below(stack: Seq<usize>, position: int)
    requires
        stack.len() > 0,
        holds(stack, position),
        position != stack.last(),
    ensures
        holds(stack.drop_last(), position),
{
    let k = choose|k: int| 0 <= k < stack.len() && #[trigger] stack[k] == position;
    assert(stack.drop_last()[k] == position);
}

/// The step of a keyword that opens a block or is no keyword keeps the state settled.
proof fn lemma_opening_keeps_settled(state: Resolution, markers: Seq<Marker>, at: usize)
    requires
        at < markers.len() <= usize::MAX,
        settled(state, markers, at as nat),
        markers[at as int] == Marker::If || markers[at as int] == Marker::While || markers[at as int]
            == Marker::Plain,
    ensures
        step(state, markers, at) is Ok,
        settled(step(state, markers, at)->Ok_0, markers, (at + 1) as nat),
{
    let next = step(state, markers, at)->Ok_0;
    assert forall|position: int| 0 <= position < markers.len() implies #[trigger] settled_at(
        next,
        markers,
        at + 1,
        position,
    ) by {
        assert(settled_at(state, markers, at as int, position));
        if position == at {
            if markers[at as int] == Marker::If {
                lemma_holds_top(state.if_stack, at);
            }
        } else if position < at {
            if markers[at as int] == Marker::If && holds(state.if_stack, position) {
                lemma_holds_after_push(state.if_stack, at, position);
            }
        }
    }
}

/// The step of a keyword that waits for the `done` of its loop keeps the state settled.
proof fn lemma_waiting_keeps_settled(state: Resolution, markers: Seq<Marker>, at: usize)
    requires
        at < markers.len() <= usize::MAX,
        settled(state, markers, at as nat),
        awaits_done(markers[at as int]),
        step(state, markers, at) is Ok,
    ensures
        settled(step(state, markers, at)->Ok_0, markers, (at + 1) as nat),
{
    let next = step(state, markers, at)->Ok_0;
    if state.while_stack.len() > 0 {
        assert(next.pending == state.pending.push(at));
        assert forall|position: int| 0 <= position < markers.len() implies #[trigger] settled_at(
            next,
            markers,
            at + 1,
            position,
        ) by {
            assert(settled_at(state, markers, at as int, position));
            if position == at {
                lemma_holds_top(state.pending, at);
            } else if position < at {
                if holds(state.pending, position) {
                    lemma_holds_after_push(state.pending, at, position);
                } else {
                    if holds(next.pending, position) {
                        let k = choose|k: int|
                            0 <= k < next.pending.len() && #[trigger] next.pending[k] == position;
                        assert(state.pending[k] == position);
                    }
                }
            }
        }
        assert(ascending(next.pending));
        assert(state.while_stack[0] < at);
    } else {
        assert(next.pending == state.pending);
        assert forall|position: int| 0 <= position < markers.len() implies #[trigger] settled_at(
            next,
            markers,
            at + 1,
            position,
        ) by {
            assert(settled_at(state, markers, at as int, position));
            if position == at {
                if holds(state.pending, position) {
                    let k = choose|k: int|
                        0 <= k < state.pending.len() && #[trigger] state.pending[k] == position;
                    assert(state.pending[k] < at);
                }
            }
        }
    }
}

/// The step of `elif` and `else` keeps the state settled.
proof fn lemma_arm_keeps_settled(state: Resolution, markers: Seq<Marker>, at: usize)
    requires
        at < markers.len() <= usize::MAX,
        settled(state, markers, at as nat),
        markers[at as int] == Marker::Elif || markers[at as int] == Marker::Else,
        step(state, markers, at) is Ok,
    ensures
        settled(step(state, markers, at)->Ok_0, markers, (at + 1) as nat),
{
    let next = step(state, markers, at)->Ok_0;
    let open = state.if_stack.last();
    assert(state.if_stack[state.if_stack.len() - 1] < at);
    assert(is_arm(markers[open as int]));
    assert forall|position: int| 0 <= position < markers.len() implies #[trigger] settled_at(
        next,
        markers,
        at + 1,
        position,
    ) by {
        assert(settled_at(state, markers, at as int, position));
        if position == at {
            lemma_holds_top(state.if_stack.drop_last(), at);
        } else if position < at && position != open {
            if holds(state.if_stack, position) {
                lemma_holds_below(state.if_stack, position);
                lemma_holds_after_push(state.if_stack.drop_last(), at, position);
            }
        }
    }
    assert forall|k: int| 0 <= k < next.if_stack.len() implies is_arm(
        markers[(#[trigger] next.if_stack[k]) as int],
    ) by {
        if k < next.if_stack.len() - 1 {
            assert(next.if_stack[k] == state.if_stack[k]);
        }
    }
    assert forall|k: int| 0 <= k < next.if_stack.len() implies #[trigger] next.if_stack[k] < at
        + 1 by {
        if k < next.if_stack.len() - 1 {
            assert(next.if_stack[k] == state.if_stack[k]);
        }
    }
}

/// The step of `endif` keeps the state settled.
proof fn lemma_endif_keeps_settled(state: Resolution, markers: Seq<Marker>, at: usize)
    requires
        at < markers.len() <= usize::MAX,
        settled(state, markers, at as nat),
        markers[at as int] == Marker::Endif,
        step(state, markers, at) is Ok,
    ensures
        settled(step(state, markers, at)->Ok_0, markers, (at + 1) as nat),
{
    let next = step(state, markers, at)->Ok_0;
    let open = state.if_stack.last();
    let past = (at + 1) as usize;
    assert(state.if_stack[state.if_stack.len() - 1] < at);
    let first = with_target(state.jumps, open, past);
    let link = state.previous[open as int];
    lemma_close_chain_frame(first, state.previous, link, past, markers);
    assert(link matches Some(arm) ==> arm < open);
    assert forall|position: int| 0 <= position < markers.len() implies #[trigger] settled_at(
        next,
        markers,
        at + 1,
        position,
    ) by {
        assert(settled_at(state, markers, at as int, position));
        let after = close_chain(first, state.previous, link, past)[position];
        assert(after.target == first[position].target);
        if position < at && position != open {
            if holds(state.if_stack, position) {
                lemma_holds_below(state.if_stack, position);
            }
            if holds(next.pending, position) {
            }
        }
    }
    assert forall|k: int| 0 <= k < next.if_stack.len() implies is_arm(
        markers[(#[trigger] next.if_stack[k]) as int],
    ) by {
        assert(next.if_stack[k] == state.if_stack[k]);
    }
    assert forall|k: int| 0 <= k < next.if_stack.len() implies #[trigger] next.if_stack[k] < at
        + 1 by {
        assert(next.if_stack[k] == state.if_stack[k]);
    }
}

/// The step of `done` keeps the state settled.
proof fn lemma_done_keeps_settled(state: Resolution, markers: Seq<Marker>, at: usize)
    requires
        at < markers.len() <= usize::MAX,
        settled(state, markers, at as nat),
        markers[at as int] == Marker::Done,
        step(state, markers, at) is Ok,
    ensures
        settled(step(state, markers, at)->Ok_0, markers, (at + 1) as nat),
{
    let next = step(state, markers, at)->Ok_0;
    let opened = state.while_stack.last();
    let past = (at + 1) as usize;
    assert(state.while_stack[state.while_stack.len() - 1] < at);
    assert(markers[opened as int] == Marker::While);
    let first = with_target(state.jumps, at, opened);
    lemma_settle_frame(first, markers, state.pending, opened, past);
    let rest = settle_pending(state.pending, opened);
    assert(next.pending == rest);
    assert forall|position: int| 0 <= position < markers.len() implies #[trigger] settled_at(
        next,
        markers,
        at + 1,
        position,
    ) by {
        assert(settled_at(state, markers, at as int, position));
        let after = settle_jumps(first, markers, state.pending, opened, past)[position];
        if exists|k: int| rest.len() <= k < state.pending.len() && state.pending[k] == position {
            let k = choose|k: int|
                rest.len() <= k < state.pending.len() && state.pending[k] == position;
            assert(state.pending[k] < at);
            assert(state.pending[k] > opened);
            assert(awaits_done(markers[state.pending[k] as int]));
            assert(holds(state.pending, position));
        } else {
            assert(after == first[position]);
            if position < at {
                if holds(state.pending, position) {
                    let k = choose|k: int|
                        0 <= k < state.pending.len() && #[trigger] state.pending[k] == position;
                    assert(k < rest.len());
                    assert(rest[k] == position);
                }
                if holds(rest, position) {
                    let k = choose|k: int| 0 <= k < rest.len() && #[trigger] rest[k] == position;
                    assert(state.pending[k] == position);
                }
            }
        }
    }
    assert forall|k: int| 0 <= k < next.while_stack.len() implies markers[(
    #[trigger] next.while_stack[k]) as int] == Marker::While && next.while_stack[k] < at + 1 by {
        assert(next.while_stack[k] == state.while_stack[k]);
    }
    assert forall|k: int| 0 <= k < rest.len() implies awaits_done(
        markers[(#[trigger] rest[k]) as int],
    ) && rest[k] < at + 1 by {
        assert(rest[k] == state.pending[k]);
    }
    assert(ascending(next.while_stack)) by {
        assert forall|j: int, k: int| 0 <= j < k < next.while_stack.len() implies next.while_stack[j]
            < next.while_stack[k] by {
            assert(next.while_stack[j] == state.while_stack[j]);
            assert(next.while_stack[k] == state.while_stack[k]);
        }
    }
    assert(ascending(rest)) by {
        assert forall|j: int, k: int| 0 <= j < k < rest.len() implies rest[j] < rest[k] by {
            assert(rest[j] == state.pending[j]);
            assert(rest[k] == state.pending[k]);
        }
    }
    if rest.len() > 0 {
        assert(rest[0] == state.pending[0]);
        assert(rest[rest.len() - 1] == state.pending[rest.len() - 1]);
        assert(state.pending[0] <= state.pending[rest.len() - 1]);
        assert(state.while_stack[0] < opened);
        assert(state.while_stack.len() >= 2);
        assert(next.while_stack[0] == state.while_stack[0]);
    }
}

/// Every step that succeeds keeps the state settled.
pub proof fn lemma_step_keeps_settled(state: Resolution, markers: Seq<Marker>, at: usize)
    requires
        at < markers.len() <= usize::MAX,
        settled(state, markers, at as nat),
        step(state, markers, at) is Ok,
    ensures
        settled(step(state, markers, at)->Ok_0, markers, (at + 1) as nat),
{
    match markers[at as int] {
        Marker::If | Marker::While | Marker::Plain => lemma_opening_keeps_settled(
            state,
            markers,
            at,
        ),
        Marker::Elif | Marker::Else => lemma_arm_keeps_settled(state, markers, at),
        Marker::Endif => lemma_endif_keeps_settled(state, markers, at),
        Marker::Do | Marker::Break | Marker::Continue => lemma_waiting_keeps_settled(
            state,
            markers,
            at,
        ),
        Marker::Done => lemma_done_keeps_settled(state, markers, at),
    }
}

/// The state of a scan that has succeeded is settled.
pub proof fn lemma_scan_is_settled(markers: Seq<Marker>, count: nat)
    requires
        count <= markers.len() <= usize::MAX,
    ensures
        scan(markers, count) matches Ok(state) ==> settled(state, markers, count),
    decreases count,
{
    if count == 0 {
        let state = start(markers.len());
        assert forall|position: int| 0 <= position < markers.len() implies #[trigger] settled_at(
            state,
            markers,
            0,
            position,
        ) by {}
    } else {
        lemma_scan_is_settled(markers, (count - 1) as nat);
        match scan(markers, (count - 1) as nat) {
            Ok(state) => {
                if step(state, markers, (count - 1) as usize) is Ok {
                    lemma_step_keeps_settled(state, markers, (count - 1) as usize);
                }
            },
            Err(_) => {},
        }
    }
}

/// The jumps of a resolution that has succeeded are well resolved: every
/// conditional branch goes forward and every loop goes back to its `while`,
/// within the operations or just behind them.
pub proof fn lemma_resolution_is_well_resolved(markers: Seq<Marker>)
    requires
        markers.len() <= usize::MAX,
    ensures
        resolution(markers) matches Ok(jumps) ==> well_resolved(markers, jumps),
{
    lemma_scan_is_settled(markers, markers.len());
    match resolution(markers) {
        Ok(jumps) => {
            let state = scan(markers, markers.len())->Ok_0;
            assert(state.pending.len() == 0);
            assert forall|position: int| 0 <= position < markers.len() implies #[trigger] fits(
                jumps,
                markers,
                position,
            ) by {
                assert(settled_at(state, markers, markers.len() as int, position));
                assert(!holds(state.if_stack, position));
                assert(!holds(state.pending, position));
            }
        },
        Err(_) => {},
    }
}

/// Whether the keyword is one that carries a jump.
pub open spec fn carries_jump(marker: Marker) -> bool {
    is_arm(marker) || awaits_done(marker) || marker == Marker::Done
}

/// Whether every keyword that carries a jump has its target.
pub open spec fn all_resolved(markers: Seq<Marker>, jumps: Seq<Jump>) -> bool {
    forall|position: int|
        0 <= position < markers.len() && carries_jump(#[trigger] markers[position])
            ==> jumps[position].target is Some
}

/// Well resolved jumps leave no keyword without its target.
pub proof fn lemma_well_resolved_is_resolved(markers: Seq<Marker>, jumps: Seq<Jump>)
    requires
        well_resolved(markers, jumps),
    ensures
        all_resolved(markers, jumps),
{
    assert forall|position: int|
        0 <= position < markers.len() && carries_jump(
            #[trigger] markers[position],
        ) implies jumps[position].target is Some by {
        assert(fits(jumps, markers, position));
    }
}

/// Balanced keywords are resolved without an error, and each `if`, `elif`,
/// `else`, `do`, `done`, `break` and `continue` among them gets its target.
pub proof fn lemma_balanced_keywords_get_targets(markers: Seq<Marker>)
    requires
        markers.len() <= usize::MAX,
        crate::control_flow::balanced(markers),
    ensures
        resolution(markers) is Ok,
        all_resolved(markers, resolution(markers)->Ok_0),
{
    crate::control_flow::lemma_resolved_iff_balanced(markers);
    lemma_resolution_is_well_resolved(markers);
    lemma_well_resolved_is_resolved(markers, resolution(markers)->Ok_0);
}

} // verus!
