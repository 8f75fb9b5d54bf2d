//! That the targets of a resolution are those of the blocks: an arm goes to
//! the next arm of its conditional, `do` and `break` go behind the `done` of
//! their loop, `continue` and `done` go to its `while`.

use vstd::prelude::*;
use crate::class::op::{Jump, Marker};
use crate::control_flow::{
    close_chain, if_depth, loop_depth, Resolution, resolution, scan, settle_jumps, settle_pending,
    start, step, with_target,
};
use crate::laws::ranges::{
    awaits_done, holds, lemma_close_chain_frame, lemma_holds_after_push, lemma_holds_below,
    lemma_holds_top, lemma_scan_is_settled, lemma_settle_frame, lemma_step_keeps_settled, settled,
};

verus! {

/// Number of loops that are open before the operation at `position`.
pub open spec fn loops_at(markers: Seq<Marker>, position: int) -> int {
    loop_depth(markers, position as nat)
}

/// Number of conditionals that are open before the operation at `position`.
pub open spec fn conditionals_at(markers: Seq<Marker>, position: int) -> int {
    if_depth(markers, position as nat)
}

/// Whether the keyword ends an arm of a conditional.
pub open spec fn ends_arm(marker: Marker) -> bool {
    marker == Marker::Elif || marker == Marker::Else || marker == Marker::Endif
}

/// Whether the arm at `arm` ends at `link`: the first `elif`, `else` or
/// `endif` behind the arm that belongs to the conditional of the arm.
pub open spec fn next_link(markers: Seq<Marker>, arm: int, link: int) -> bool {
    &&& arm < link < markers.len()
    &&& ends_arm(markers[link])
    &&& conditionals_at(markers, link) == conditionals_at(markers, arm + 1)
    &&& forall|p: int|
        arm < p < link ==> !(ends_arm(markers[p]) && #[trigger] conditionals_at(markers, p)
            == conditionals_at(markers, arm + 1))
}

/// Whether the loop that is innermost at `from` ends at `done`: the first
/// `done` behind `from` that belongs to that loop.
pub open spec fn loop_end(markers: Seq<Marker>, from: int, done: int) -> bool {
    &&& from < done < markers.len()
    &&& markers[done] == Marker::Done
    &&& loops_at(markers, done) == loops_at(markers, from)
    &&& forall|p: int|
        from < p < done ==> !(markers[p] == Marker::Done && #[trigger] loops_at(markers, p)
            == loops_at(markers, from))
}

/// Whether the loop that is innermost at `from` starts at `opened`: the
/// last `while` before `from` that is not inside a loop of its own that is
/// still open at `from`.
pub open spec fn loop_start(markers: Seq<Marker>, opened: int, from: int) -> bool {
    &&& 0 <= opened < from
    &&& markers[opened] == Marker::While
    &&& loops_at(markers, opened) + 1 == loops_at(markers, from)
    &&& forall|p: int|
        opened < p < from ==> !(markers[p] == Marker::While && #[trigger] loops_at(markers, p) + 1
            == loops_at(markers, from))
}

/// Whether `target` is where an arm at `arm` goes when it is not entered:
/// to the `elif` or `else` at which it ends, or behind the `endif` at which it ends.
pub open spec fn to_next_link(target: Option<usize>, markers: Seq<Marker>, arm: int) -> bool {
    target matches Some(to) && ((to < markers.len() && markers[to as int] != Marker::Endif
        && next_link(markers, arm, to as int)) || (to >= 1 && markers[to - 1] == Marker::Endif
        && next_link(markers, arm, to - 1)))
}

/// Whether `target` lies just behind the `done` of the loop that is innermost at `from`.
pub open spec fn behind_loop(target: Option<usize>, markers: Seq<Marker>, from: int) -> bool {
    target matches Some(to) && to >= 1 && loop_end(markers, from, to - 1)
}

/// Whether `target` is the `while` of the loop that is innermost at `from`.
pub open spec fn to_loop_start(target: Option<usize>, markers: Seq<Marker>, from: int) -> bool {
    target matches Some(to) && loop_start(markers, to as int, from)
}

/// Whether the target of the operation at `position` is the place that the
/// structure of the blocks gives it: an arm goes to the end of the arm, `do`
/// and `break` go behind the `done` of their loop, `continue` and `done` go
/// to the `while` of their loop.
pub open spec fn matches_block(jumps: Seq<Jump>, markers: Seq<Marker>, position: int) -> bool {
    let target = jumps[position].target;
    match markers[position] {
        Marker::If | Marker::Elif | Marker::Else => to_next_link(target, markers, position),
        Marker::Do => behind_loop(target, markers, position),
        Marker::Break => loops_at(markers, position) > 0 ==> behind_loop(target, markers, position),
        Marker::Continue => loops_at(markers, position) > 0 ==> to_loop_start(
            target,
            markers,
            position,
        ),
        Marker::Done => to_loop_start(target, markers, position),
        _ => true,
    }
}

/// Whether every target is the place that the structure of the blocks gives it.
pub open spec fn well_matched(markers: Seq<Marker>, jumps: Seq<Jump>) -> bool {
    &&& jumps.len() == markers.len()
    &&& forall|position: int|
        0 <= position < markers.len() ==> #[trigger] matches_block(jumps, markers, position)
}

/// Whether the target of the operation at `position` is as `matches_block`
/// says, unless the keyword is still on a stack.
pub open spec fn linked_at(state: Resolution, markers: Seq<Marker>, count: int, position: int) -> bool {
    let target = state.jumps[position].target;
    position < count ==> match markers[position] {
        Marker::If | Marker::Elif | Marker::Else => holds(state.if_stack, position) || to_next_link(
            target,
            markers,
            position,
        ),
        Marker::Do => holds(state.pending, position) || behind_loop(target, markers, position),
        Marker::Break => loops_at(markers, position) > 0 ==> holds(state.pending, position)
            || behind_loop(target, markers, position),
        Marker::Continue => loops_at(markers, position) > 0 ==> holds(state.pending, position)
            || to_loop_start(target, markers, position),
        Marker::Done => to_loop_start(target, markers, position),
        _ => true,
    }
}

/// Whether the `while` at the height `height` of its stack opened the loop
/// of that height, which is still open.
pub open spec fn while_aligned(state: Resolution, markers: Seq<Marker>, count: int, height: int) -> bool {
    let opened = state.while_stack[height] as int;
    &&& loops_at(markers, opened) == height
    &&& forall|p: int| opened < p <= count ==> #[trigger] loops_at(markers, p) > height
}

/// Whether the loop of the keyword at the height `height` of the pending
/// stack is still open.
pub open spec fn pending_aligned(state: Resolution, markers: Seq<Marker>, count: int, height: int) -> bool {
    let from = state.pending[height] as int;
    &&& loops_at(markers, from) >= 1
    &&& forall|p: int| from < p <= count ==> #[trigger] loops_at(markers, p) >= loops_at(markers, from)
}

/// Whether the arm at the height `height` of its stack is the last arm so
/// far of the conditional of that height.
pub open spec fn arm_aligned(state: Resolution, markers: Seq<Marker>, count: int, height: int) -> bool {
    let arm = state.if_stack[height] as int;
    &&& conditionals_at(markers, arm + 1) == height + 1
    &&& forall|p: int|
        arm < p < count ==> !(ends_arm(markers[p]) && #[trigger] conditionals_at(markers, p)
            == height + 1)
}

/// Whether the stacks follow the structure of the blocks, and every target
/// found so far is the place that the structure gives it.
pub open spec fn aligned(state: Resolution, markers: Seq<Marker>, count: nat) -> bool {
    &&& settled(state, markers, count)
    &&& state.if_stack.len() == if_depth(markers, count)
    &&& forall|height: int|
        0 <= height < state.while_stack.len() ==> #[trigger] while_aligned(
            state,
            markers,
            count as int,
            height,
        )
    &&& forall|height: int|
        0 <= height < state.pending.len() ==> #[trigger] pending_aligned(
            state,
            markers,
            count as int,
            height,
        )
    &&& forall|height: int|
        0 <= height < state.if_stack.len() ==> #[trigger] arm_aligned(
            state,
            markers,
            count as int,
            height,
        )
    &&& forall|position: int|
        0 <= position < markers.len() ==> #[trigger] linked_at(
            state,
            markers,
            count as int,
            position,
        )
}

/// The number of open loops behind an operation is the number before it,
/// one more behind `while` and one less behind `done`.
pub proof fn lemma_loops_behind(markers: Seq<Marker>, position: int)
    requires
        0 <= position,
    ensures
        loops_at(markers, position + 1) == loops_at(markers, position) + match markers[position] {
            Marker::While => 1int,
            Marker::Done => -1int,
            _ => 0int,
        },
{
}

/// The number of open conditionals behind an operation is the number
/// before it, one more behind `if` and one less behind `endif`.
pub proof fn lemma_conditionals_behind(markers: Seq<Marker>, position: int)
    requires
        0 <= position,
    ensures
        conditionals_at(markers, position + 1) == conditionals_at(markers, position)
            + match markers[position] {
            Marker::If => 1int,
            Marker::Endif => -1int,
            _ => 0int,
        },
{
}

/// The step of a keyword that opens a block or is no keyword keeps the state aligned.
proof fn lemma_opening_keeps_aligned(state: Resolution, markers: Seq<Marker>, at: usize)
    requires
        at < markers.len() <= usize::MAX,
        aligned(state, markers, at as nat),
        markers[at as int] == Marker::If || markers[at as int] == Marker::While || markers[at as int]
            == Marker::Plain,
    ensures
        step(state, markers, at) is Ok,
        aligned(step(state, markers, at)->Ok_0, markers, (at + 1) as nat),
{
    let next = step(state, markers, at)->Ok_0;
    lemma_step_keeps_settled(state, markers, at);
    lemma_loops_behind(markers, at as int);
    lemma_conditionals_behind(markers, at as int);
    assert forall|height: int| 0 <= height < next.while_stack.len() implies #[trigger] while_aligned(
        next,
        markers,
        at + 1,
        height,
    ) by {
        if height < state.while_stack.len() {
            assert(while_aligned(state, markers, at as int, height));
            assert(state.while_stack[height] < at);
            assert(loops_at(markers, at as int) > height);
        }
    }
    assert forall|height: int| 0 <= height < next.pending.len() implies #[trigger] pending_aligned(
        next,
        markers,
        at + 1,
        height,
    ) by {
        assert(pending_aligned(state, markers, at as int, height));
        assert(state.pending[height] < at);
        assert(loops_at(markers, at as int) >= loops_at(markers, state.pending[height] as int));
    }
    assert forall|height: int| 0 <= height < next.if_stack.len() implies #[trigger] arm_aligned(
        next,
        markers,
        at + 1,
        height,
    ) by {
        if height < state.if_stack.len() {
            assert(arm_aligned(state, markers, at as int, height));
        }
    }
    assert forall|position: int| 0 <= position < markers.len() implies #[trigger] linked_at(
        next,
        markers,
        at + 1,
        position,
    ) by {
        assert(linked_at(state, markers, at as int, position));
        if position == at {
            if markers[at as int] == Marker::If {
                lemma_holds_top(state.if_stack, at);
            }
        } else if position < at {
            if markers[at as int] == Marker::If && holds(state.if_stack, position) {
                lemma_holds_after_push(state.if_stack, at, position);
            }
        }
    }
}

/// The step of a keyword that waits for the `done` of its loop keeps the state aligned.
proof fn lemma_waiting_keeps_aligned(state: Resolution, markers: Seq<Marker>, at: usize)
    requires
        at < markers.len() <= usize::MAX,
        aligned(state, markers, at as nat),
        awaits_done(markers[at as int]),
        step(state, markers, at) is Ok,
    ensures
        aligned(step(state, markers, at)->Ok_0, markers, (at + 1) as nat),
{
    let next = step(state, markers, at)->Ok_0;
    lemma_step_keeps_settled(state, markers, at);
    lemma_loops_behind(markers, at as int);
    lemma_conditionals_behind(markers, at as int);
    assert forall|height: int| 0 <= height < next.while_stack.len() implies #[trigger] while_aligned(
        next,
        markers,
        at + 1,
        height,
    ) by {
        assert(while_aligned(state, markers, at as int, height));
        assert(state.while_stack[height] < at);
        assert(loops_at(markers, at as int) > height);
    }
    assert forall|height: int| 0 <= height < next.pending.len() implies #[trigger] pending_aligned(
        next,
        markers,
        at + 1,
        height,
    ) by {
        if height < state.pending.len() {
            assert(next.pending[height] == state.pending[height]);
            assert(pending_aligned(state, markers, at as int, height));
            assert(state.pending[height] < at);
            assert(loops_at(markers, at as int) >= loops_at(markers, state.pending[height] as int));
        }
    }
    assert forall|height: int| 0 <= height < next.if_stack.len() implies #[trigger] arm_aligned(
        next,
        markers,
        at + 1,
        height,
    ) by {
        assert(arm_aligned(state, markers, at as int, height));
    }
    assert forall|position: int| 0 <= position < markers.len() implies #[trigger] linked_at(
        next,
        markers,
        at + 1,
        position,
    ) by {
        assert(linked_at(state, markers, at as int, position));
        if state.while_stack.len() > 0 {
            if position == at {
                lemma_holds_top(state.pending, at);
            } else if position < at && holds(state.pending, position) {
                lemma_holds_after_push(state.pending, at, position);
            }
        }
    }
}

/// The step of `elif`, `else` and `endif` keeps the state aligned.
proof fn lemma_link_keeps_aligned(state: Resolution, markers: Seq<Marker>, at: usize)
    requires
        at < markers.len() <= usize::MAX,
        aligned(state, markers, at as nat),
        ends_arm(markers[at as int]),
        step(state, markers, at) is Ok,
    ensures
        aligned(step(state, markers, at)->Ok_0, markers, (at + 1) as nat),
{
    let next = step(state, markers, at)->Ok_0;
    lemma_step_keeps_settled(state, markers, at);
    lemma_loops_behind(markers, at as int);
    lemma_conditionals_behind(markers, at as int);
    let top = state.if_stack.len() - 1;
    let open = state.if_stack.last();
    let past = (at + 1) as usize;
    assert(state.if_stack[top] < at);
    assert(arm_aligned(state, markers, at as int, top));
    if markers[at as int] == Marker::Endif {
        lemma_close_chain_frame(
            with_target(state.jumps, open, past),
            state.previous,
            state.previous[open as int],
            past,
            markers,
        );
    }
    assert forall|height: int| 0 <= height < next.while_stack.len() implies #[trigger] while_aligned(
        next,
        markers,
        at + 1,
        height,
    ) by {
        assert(while_aligned(state, markers, at as int, height));
        assert(state.while_stack[height] < at);
        assert(loops_at(markers, at as int) > height);
    }
    assert forall|height: int| 0 <= height < next.pending.len() implies #[trigger] pending_aligned(
        next,
        markers,
        at + 1,
        height,
    ) by {
        assert(pending_aligned(state, markers, at as int, height));
        assert(state.pending[height] < at);
        assert(loops_at(markers, at as int) >= loops_at(markers, state.pending[height] as int));
    }
    assert forall|height: int| 0 <= height < next.if_stack.len() implies #[trigger] arm_aligned(
        next,
        markers,
        at + 1,
        height,
    ) by {
        if height < top {
            assert(next.if_stack[height] == state.if_stack[height]);
            assert(arm_aligned(state, markers, at as int, height));
        }
    }
    assert forall|position: int| 0 <= position < markers.len() implies #[trigger] linked_at(
        next,
        markers,
        at + 1,
        position,
    ) by {
        assert(linked_at(state, markers, at as int, position));
        if markers[at as int] == Marker::Endif {
            let first = with_target(state.jumps, open, past);
            let after = close_chain(first, state.previous, state.previous[open as int], past)[position];
            assert(after.target == first[position].target);
        }
        if position == open {
            assert(next_link(markers, open as int, at as int));
        } else if position == at {
            if markers[at as int] != Marker::Endif {
                lemma_holds_top(state.if_stack.drop_last(), at);
            }
        } else if position < at {
            if holds(state.if_stack, position) {
                lemma_holds_below(state.if_stack, position);
                if markers[at as int] != Marker::Endif {
                    lemma_holds_after_push(state.if_stack.drop_last(), at, position);
                }
            }
        }
    }
}

/// The step of `done` keeps the state aligned.
proof fn lemma_done_keeps_aligned(state: Resolution, markers: Seq<Marker>, at: usize)
    requires
        at < markers.len() <= usize::MAX,
        aligned(state, markers, at as nat),
        markers[at as int] == Marker::Done,
        step(state, markers, at) is Ok,
    ensures
        aligned(step(state, markers, at)->Ok_0, markers, (at + 1) as nat),
{
    let next = step(state, markers, at)->Ok_0;
    lemma_step_keeps_settled(state, markers, at);
    lemma_loops_behind(markers, at as int);
    lemma_conditionals_behind(markers, at as int);
    let top = state.while_stack.len() - 1;
    let opened = state.while_stack.last();
    let past = (at + 1) as usize;
    assert(state.while_stack[top] < at);
    assert(while_aligned(state, markers, at as int, top));
    assert(markers[opened as int] == Marker::While);
    let first = with_target(state.jumps, at, opened);
    lemma_settle_frame(first, markers, state.pending, opened, past);
    let rest = settle_pending(state.pending, opened);
    assert(next.pending == rest);
    assert(loop_start(markers, opened as int, at as int));
    assert forall|height: int| 0 <= height < next.while_stack.len() implies #[trigger] while_aligned(
        next,
        markers,
        at + 1,
        height,
    ) by {
        assert(next.while_stack[height] == state.while_stack[height]);
        assert(while_aligned(state, markers, at as int, height));
    }
    assert forall|height: int| 0 <= height < next.pending.len() implies #[trigger] pending_aligned(
        next,
        markers,
        at + 1,
        height,
    ) by {
        assert(rest[height] == state.pending[height]);
        assert(pending_aligned(state, markers, at as int, height));
        let from = state.pending[height];
        assert(rest[rest.len() - 1] == state.pending[rest.len() - 1]);
        assert(state.pending[height] <= state.pending[rest.len() - 1]);
        assert(awaits_done(markers[from as int]));
        assert(from < opened);
        assert(loops_at(markers, opened as int) >= loops_at(markers, from as int));
    }
    assert forall|height: int| 0 <= height < next.if_stack.len() implies #[trigger] arm_aligned(
        next,
        markers,
        at + 1,
        height,
    ) by {
        assert(arm_aligned(state, markers, at as int, height));
    }
    assert forall|position: int| 0 <= position < markers.len() implies #[trigger] linked_at(
        next,
        markers,
        at + 1,
        position,
    ) by {
        assert(linked_at(state, markers, at as int, position));
        let after = settle_jumps(first, markers, state.pending, opened, past)[position];
        if exists|k: int| rest.len() <= k < state.pending.len() && state.pending[k] == position {
            let k = choose|k: int|
                rest.len() <= k < state.pending.len() && state.pending[k] == position;
            assert(state.pending[k] < at);
            assert(state.pending[k] > opened);
            assert(awaits_done(markers[state.pending[k] as int]));
            assert(pending_aligned(state, markers, at as int, k));
            assert(loops_at(markers, position) > top);
            assert(loops_at(markers, at as int) >= loops_at(markers, position));
            if markers[position] == Marker::Continue {
                assert(loop_start(markers, opened as int, position));
            } else {
                assert forall|p: int| position < p < at implies !(markers[p] == Marker::Done
                    && #[trigger] loops_at(markers, p) == loops_at(markers, position)) by {
                    if markers[p] == Marker::Done && loops_at(markers, p) == loops_at(
                        markers,
                        position,
                    ) {
                        lemma_loops_behind(markers, p);
                        assert(loops_at(markers, p + 1) >= loops_at(markers, position));
                    }
                }
                assert(loop_end(markers, position, at as int));
            }
        } else {
            assert(after == first[position]);
            if position < at {
                if holds(state.pending, position) {
                    let k = choose|k: int|
                        0 <= k < state.pending.len() && #[trigger] state.pending[k] == position;
                    assert(k < rest.len());
                    assert(rest[k] == position);
                }
            }
        }
    }
}

/// Every step that succeeds keeps the state aligned.
pub proof fn lemma_step_keeps_aligned(state: Resolution, markers: Seq<Marker>, at: usize)
    requires
        at < markers.len() <= usize::MAX,
        aligned(state, markers, at as nat),
        step(state, markers, at) is Ok,
    ensures
        aligned(step(state, markers, at)->Ok_0, markers, (at + 1) as nat),
{
    match markers[at as int] {
        Marker::If | Marker::While | Marker::Plain => lemma_opening_keeps_aligned(
            state,
            markers,
            at,
        ),
        Marker::Elif | Marker::Else | Marker::Endif => lemma_link_keeps_aligned(
            state,
            markers,
            at,
        ),
        Marker::Do | Marker::Break | Marker::Continue => lemma_waiting_keeps_aligned(
            state,
            markers,
            at,
        ),
        Marker::Done => lemma_done_keeps_aligned(state, markers, at),
    }
}

/// The state of a scan that has succeeded is aligned.
pub proof fn lemma_scan_is_aligned(markers: Seq<Marker>, count: nat)
    requires
        count <= markers.len() <= usize::MAX,
    ensures
        scan(markers, count) matches Ok(state) ==> aligned(state, markers, count),
    decreases count,
{
    lemma_scan_is_settled(markers, count);
    if count == 0 {
        let state = start(markers.len());
        assert forall|position: int| 0 <= position < markers.len() implies #[trigger] linked_at(
            state,
            markers,
            0,
            position,
        ) by {}
    } else {
        lemma_scan_is_aligned(markers, (count - 1) as nat);
        match scan(markers, (count - 1) as nat) {
            Ok(state) => {
                if step(state, markers, (count - 1) as usize) is Ok {
                    lemma_step_keeps_aligned(state, markers, (count - 1) as usize);
                }
            },
            Err(_) => {},
        }
    }
}

/// The targets of a resolution that has succeeded are the places that the
/// structure of the blocks gives them: an arm of a conditional goes to the
/// next arm of that conditional or behind its `endif`, `do` and `break` go
/// behind the `done` of the innermost loop around them, `continue` and
/// `done` go to the `while` of that loop.
pub proof fn lemma_resolution_is_well_matched(markers: Seq<Marker>)
    requires
        markers.len() <= usize::MAX,
    ensures
        resolution(markers) matches Ok(jumps) ==> well_matched(markers, jumps),
{
    lemma_scan_is_aligned(markers, markers.len());
    match resolution(markers) {
        Ok(jumps) => {
            let state = scan(markers, markers.len())->Ok_0;
            assert(state.pending.len() == 0);
            assert forall|position: int|
                0 <= position < markers.len() implies #[trigger] matches_block(
                jumps,
                markers,
                position,
            ) by {
                assert(linked_at(state, markers, markers.len() as int, position));
                assert(!holds(state.if_stack, position));
                assert(!holds(state.pending, position));
            }
        },
        Err(_) => {},
    }
}

} // verus!
