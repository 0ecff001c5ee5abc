//! Properties of the pipeline that hold of every run.
use vstd::prelude::*;

use crate::pipeline::{
    after_events, batch_events, calls_exported, consistent, context_events, count_true, events,
    exports_of, finish_events, handed_ctx, in_order, item_events, kept, lemma_concat_in_order,
    lemma_item_events_ordered, lemma_select_count, lemma_walk_facts, map_stage_events, present,
    select, walk_events, within, Event, Exports, Run, Stages,
};

verus! {

/// The steps of a run come in pipeline order: the context step
/// (`before_transform` or a fresh `{}`), then the `Array.isArray` test, then
/// the walk over the input with the `try_filter` calls, then every `try_map`
/// call, then the repacking of the batch, then `after_transform`.
pub proof fn law_steps_in_pipeline_order<V, F>(st: Stages<F>, run: Run<V>)
    ensures
        in_order(events(st, run)),
{
    let c = context_events(st, run);
    let it = item_events(st, run);
    let a = after_events(st, run);
    assert(within(c, 0, 0));
    assert(within(a, 5, 5));
    lemma_item_events_ordered(st, run);
    lemma_concat_in_order(c, it, 0, 0, 1, 4);
    lemma_concat_in_order(c + it, a, 0, 4, 5, 5);
}

/// With none of the four stages exported, the input passes through
/// unchanged, and the only step is making the (unused) default context.
pub proof fn law_no_stages_pass_input_through<V, F>(input: V, run: Run<V>)
    requires
        consistent(Exports { before: false, filter: false, map: false, after: false }, input, run),
    ensures
        run.result == input,
        events(Stages::<F> { before: None, filter: None, map: None, after: None }, run) == seq![
            Event::<V, F>::Fresh { out: run.ctx },
        ],
{
    let st = Stages::<F> { before: None, filter: None, map: None, after: None };
    assert(exports_of(st) == Exports { before: false, filter: false, map: false, after: false });
    assert(events(st, run) =~= seq![Event::<V, F>::Fresh { out: run.ctx }]);
}

/// Every step of a run that calls a stage calls the function the script
/// exports for it, and every step that takes a context is handed `ctx`.
proof fn lemma_event_facts<V, F>(st: Stages<F>, input: V, run: Run<V>)
    requires
        consistent(exports_of(st), input, run),
    ensures
        forall|i: int|
            0 <= i < events(st, run).len() ==> {
                &&& calls_exported(st, #[trigger] events(st, run)[i])
                &&& handed_ctx(events(st, run)[i]) is Some ==> handed_ctx(events(st, run)[i])
                    == Some(run.ctx)
            },
{
    let s = events(st, run);
    let c = context_events(st, run);
    let it = item_events(st, run);
    let a = after_events(st, run);
    lemma_walk_facts(run.input, run.slots, run.ctx, st.filter, run.keep);
    assert forall|i: int| 0 <= i < s.len() implies {
        &&& calls_exported(st, #[trigger] s[i])
        &&& handed_ctx(s[i]) is Some ==> handed_ctx(s[i]) == Some(run.ctx)
    } by {
        if i < c.len() {
            assert(s[i] == c[i]);
        } else if i < c.len() + it.len() {
            let k: int = i - c.len();
            assert(s[i] == it[k]);
            let ch: Seq<Event<V, F>> = seq![
                Event::Checked { value: run.input, is_array: run.is_array },
            ];
            let b = batch_events(st, run);
            let maps = map_stage_events(st, run);
            let fin: Seq<Event<V, F>> = finish_events(run);
            assert(it == ch + b + maps + fin);
            if k < 1 {
                assert(it[k] == ch[k]);
            } else if k < 1 + b.len() {
                assert(it[k] == b[k - 1]);
                if run.is_array {
                    let w = walk_events(run.input, run.slots, run.ctx, st.filter, run.keep);
                    if k >= 2 {
                        assert(b[k - 1] == w[k - 2]);
                    }
                }
            } else if k < 1 + b.len() + maps.len() {
                assert(it[k] == maps[k - 1 - b.len()]);
            } else {
                assert(it[k] == fin[k - 1 - b.len() - maps.len()]);
            }
        } else {
            assert(s[i] == a[i - c.len() - it.len()]);
        }
    }
}

/// The context is what `before_transform()` returned, or a fresh `{}` when
/// there is no `before_transform`; it is the first step of the run, and
/// every `try_filter` and `try_map` call is handed that same context.
pub proof fn law_context_shared_by_item_calls<V, F>(st: Stages<F>, input: V, run: Run<V>)
    requires
        consistent(exports_of(st), input, run),
    ensures
        events(st, run)[0] == (match st.before {
            Some(f) => Event::Before { stage: f, out: run.ctx },
            None => Event::Fresh { out: run.ctx },
        }),
        forall|i: int|
            0 <= i < events(st, run).len() && (#[trigger] handed_ctx(events(st, run)[i])) is Some
                ==> handed_ctx(events(st, run)[i]) == Some(run.ctx),
{
    lemma_event_facts(st, input, run);
    let s = events(st, run);
    assert(s[0] == context_events(st, run)[0]);
    assert forall|i: int|
        0 <= i < s.len() && (#[trigger] handed_ctx(s[i])) is Some implies handed_ctx(s[i]) == Some(
        run.ctx,
    ) by {
        assert(calls_exported(st, s[i]));
    }
}

/// Each call of a stage calls the function the script exports under that
/// stage's name: `before_transform`, `try_filter`, `try_map` and
/// `after_transform` are never confused.
pub proof fn law_calls_use_exported_stages<V, F>(st: Stages<F>, input: V, run: Run<V>)
    requires
        consistent(exports_of(st), input, run),
    ensures
        forall|i: int| 0 <= i < events(st, run).len() ==> calls_exported(st, #[trigger] events(st, run)[i]),
{
    lemma_event_facts(st, input, run);
}

/// The walk over an array reads each element just before the filter call
/// on it, and never ahead: every `try_filter` call comes right after the
/// lookup of the index where its item was found. The indices are looked up
/// in increasing order, each step reporting what was found there, and there
/// is one lookup per index below the `length` and one filter call per
/// element found (when there is a filter).
pub proof fn law_walk_reads_each_item_just_before_its_filter_call<V, F>(
    array: V,
    slots: Seq<Option<V>>,
    ctx: V,
    filter: Option<F>,
    keep: Seq<bool>,
)
    ensures
        ({
            let w = walk_events(array, slots, ctx, filter, keep);
            &&& w.len() == slots.len() + if filter is Some {
                present(slots).len()
            } else {
                0
            }
            &&& forall|j: int|
                0 <= j < w.len() && (#[trigger] w[j]) is Filter ==> 1 <= j && w[j - 1] is Slot
                    && w[j - 1]->Slot_element == Some(w[j]->Filter_item)
            &&& forall|j: int|
                0 <= j < w.len() && (#[trigger] w[j]) is Slot ==> {
                    &&& 0 <= w[j]->Slot_index < slots.len()
                    &&& w[j]->Slot_element == slots[w[j]->Slot_index]
                    &&& w[j]->Slot_array == array
                }
            &&& forall|j1: int, j2: int|
                0 <= j1 < j2 < w.len() && (#[trigger] w[j1]) is Slot && (#[trigger] w[j2]) is Slot
                    ==> w[j1]->Slot_index < w[j2]->Slot_index
        }),
    decreases slots.len(),
{
    let w = walk_events(array, slots, ctx, filter, keep);
    lemma_walk_facts(array, slots, ctx, filter, keep);
    if slots.len() > 0 {
        let init = slots.drop_last();
        let m = present(init).len();
        let k = if filter is Some {
            keep.take(m as int)
        } else {
            keep
        };
        law_walk_reads_each_item_just_before_its_filter_call(array, init, ctx, filter, k);
        let prev = walk_events(array, init, ctx, filter, k);
        let n: int = init.len() as int;
        assert(slots[n] == slots.last());
        assert forall|j: int| 0 <= j < prev.len() && (#[trigger] prev[j]) is Slot implies prev[j]->Slot_index
            < n by {}
        assert forall|j: int|
            0 <= j < w.len() && (#[trigger] w[j]) is Slot implies {
                &&& 0 <= w[j]->Slot_index < slots.len()
                &&& w[j]->Slot_element == slots[w[j]->Slot_index]
                &&& w[j]->Slot_array == array
            } by {
            if j < prev.len() {
                assert(w[j] == prev[j]);
                assert(init[prev[j]->Slot_index] == slots[prev[j]->Slot_index]);
            }
        }
        assert forall|j: int|
            0 <= j < w.len() && (#[trigger] w[j]) is Filter implies 1 <= j && w[j - 1] is Slot
                && w[j - 1]->Slot_element == Some(w[j]->Filter_item) by {
            if j < prev.len() {
                assert(w[j] == prev[j] && w[j - 1] == prev[j - 1]);
            }
        }
        assert forall|j1: int, j2: int|
            0 <= j1 < j2 < w.len() && (#[trigger] w[j1]) is Slot && (#[trigger] w[j2])
                is Slot implies w[j1]->Slot_index < w[j2]->Slot_index by {
            if j2 < prev.len() {
                assert(w[j1] == prev[j1] && w[j2] == prev[j2]);
            } else {
                assert(w[j1] == prev[j1]);
            }
        }
    }
}

/// `x` is an item of the batch whose verdict is `true`.
pub open spec fn flagged_item<V>(items: Seq<V>, keep: Seq<bool>, x: V) -> bool {
    exists|i: int| 0 <= i < items.len() && keep[i] && #[trigger] items[i] == x
}

/// The filter keeps exactly the items whose verdict is truthy, in their
/// order: as many as there are truthy verdicts, each one an item of the
/// batch whose verdict was truthy. Without a filter every item is kept.
pub proof fn law_filter_keeps_truthy_items<V>(ex: Exports, input: V, run: Run<V>)
    requires
        consistent(ex, input, run),
    ensures
        ex.filter ==> kept(ex, run).len() == count_true(run.keep),
        ex.filter ==> forall|j: int|
            0 <= j < kept(ex, run).len() ==> flagged_item(
                run.items,
                run.keep,
                #[trigger] kept(ex, run)[j],
            ),
        !ex.filter ==> kept(ex, run) == run.items,
{
    if ex.filter {
        law_select_counts_verdicts(run.items, run.keep);
        law_select_takes_flagged_items(run.items, run.keep);
        assert(kept(ex, run) == select(run.items, run.keep));
    }
}

/// A selection holds as many items as there are `true` verdicts.
pub proof fn law_select_counts_verdicts<V>(items: Seq<V>, keep: Seq<bool>)
    requires
        items.len() == keep.len(),
    ensures
        select(items, keep).len() == count_true(keep),
{
    lemma_select_count(items, keep);
}

/// Every item of a selection is an item of the batch whose verdict is `true`.
pub proof fn law_select_takes_flagged_items<V>(items: Seq<V>, keep: Seq<bool>)
    requires
        items.len() == keep.len(),
    ensures
        forall|j: int|
            0 <= j < select(items, keep).len() ==> flagged_item(
                items,
                keep,
                #[trigger] select(items, keep)[j],
            ),
    decreases items.len(),
{
    if items.len() > 0 {
        let n: int = items.len() - 1;
        let k = keep.take(n);
        let front = items.drop_last();
        law_select_takes_flagged_items(front, k);
        let rest = select(front, k);
        assert forall|j: int| 0 <= j < select(items, keep).len() implies flagged_item(
            items,
            keep,
            #[trigger] select(items, keep)[j],
        ) by {
            if j < rest.len() {
                assert(flagged_item(front, k, rest[j]));
                let i = choose|i: int| 0 <= i < front.len() && k[i] && #[trigger] front[i] == rest[j];
                assert(items[i] == front[i] && keep[i] == k[i]);
                assert(select(items, keep)[j] == rest[j]);
            } else {
                assert(keep[n] && select(items, keep)[j] == items[n]);
            }
        }
    } else {
        assert(select(items, keep).len() == 0);
    }
}

/// With every verdict `true` the selection is the whole batch; with every
/// verdict `false` it is empty.
pub proof fn law_select_all_or_nothing<V>(items: Seq<V>, keep: Seq<bool>)
    requires
        items.len() == keep.len(),
    ensures
        (forall|i: int| 0 <= i < keep.len() ==> #[trigger] keep[i]) ==> select(items, keep)
            == items,
        (forall|i: int| 0 <= i < keep.len() ==> !#[trigger] keep[i]) ==> select(items, keep).len()
            == 0,
    decreases items.len(),
{
    if items.len() > 0 {
        let k = keep.take(items.len() - 1);
        law_select_all_or_nothing(items.drop_last(), k);
        if forall|i: int| 0 <= i < keep.len() ==> #[trigger] keep[i] {
            assert(forall|i: int| 0 <= i < k.len() ==> #[trigger] k[i] == keep[i]);
            assert(items.drop_last().push(items.last()) =~= items);
        }
        if forall|i: int| 0 <= i < keep.len() ==> !#[trigger] keep[i] {
            assert(forall|i: int| 0 <= i < k.len() ==> #[trigger] k[i] == keep[i]);
        }
    }
}

/// An input that is not an array is treated as a batch of one. When the
/// filter drops it, the outcome is `null`; when it survives, the outcome is
/// what the map made of it (or the input itself without a map).
pub proof fn law_single_value_is_unwrapped<V, F>(st: Stages<F>, input: V, run: Run<V>)
    requires
        consistent(exports_of(st), input, run),
        exports_of(st).per_item(),
        !run.is_array,
    ensures
        st.filter is Some && !run.keep[0] ==> events(st, run).contains(
            Event::Null { out: run.processed },
        ),
        (st.filter is None || run.keep[0]) ==> run.mapped.len() == 1 && run.processed
            == run.mapped[0],
        (st.filter is None || run.keep[0]) && st.map is Some ==> events(st, run).contains(
            Event::Mapped { stage: st.map->0, item: input, ctx: run.ctx, out: run.processed },
        ),
        (st.filter is None || run.keep[0]) && st.map is None ==> run.processed == input,
{
    let ex = exports_of(st);
    let s = events(st, run);
    let c = context_events(st, run);
    let a = after_events(st, run);
    let ch: Seq<Event<V, F>> = seq![Event::Checked { value: run.input, is_array: run.is_array }];
    let b = batch_events(st, run);
    let maps = map_stage_events(st, run);
    let fin: Seq<Event<V, F>> = finish_events(run);
    assert(item_events(st, run) == ch + b + maps + fin);
    if ex.filter {
        assert(run.items.drop_last() =~= Seq::<V>::empty());
        assert(select(run.items.drop_last(), run.keep.take(0)) =~= Seq::<V>::empty());
    }
    if ex.filter && !run.keep[0] {
        assert(kept(ex, run).len() == 0);
        assert(s[s.len() - a.len() - 1] == Event::<V, F>::Null { out: run.processed });
    }
    if !ex.filter || run.keep[0] {
        assert(kept(ex, run) =~= seq![input]);
        if ex.map {
            assert(maps[0] == Event::<V, F>::Mapped {
                stage: st.map->0,
                item: input,
                ctx: run.ctx,
                out: run.processed,
            });
            assert(s[c.len() + 1 + b.len() as int] == maps[0]);
        }
    }
}

/// `after_transform` is the last step and is handed the processed value;
/// without it the outcome is the processed value itself.
pub proof fn law_after_transform_sees_processed_value<V, F>(st: Stages<F>, input: V, run: Run<V>)
    requires
        consistent(exports_of(st), input, run),
    ensures
        st.after is Some ==> events(st, run).last() == (Event::After {
            stage: st.after->0,
            arg: run.processed,
            out: run.result,
        }),
        st.after is None ==> run.result == run.processed,
{
}

} // verus!
