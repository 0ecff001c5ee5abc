//! Running a script's pipeline inside a JavaScript context.
//!
//! The drivers here take every step through a `Session`, which keeps a
//! ghost record of the steps taken and what each returned (or that it
//! failed). `run_pipeline` is proved to take exactly the steps that the
//! model in `crate::pipeline` prescribes, in that order, and to return the
//! value that the model derives from their outcomes.
use vstd::prelude::*;
use rquickjs::{Ctx, Error, Function, Value};

use crate::error::TransformError;
use crate::js::error_text;
use crate::pipeline::{
    batch_events, consistent, context_events, events, exports_of, failed_from, finish_events,
    item_events, lemma_concat_in_order, lemma_failed_after, lemma_failed_extend,
    lemma_item_events_ordered, lemma_map_events_ordered, lemma_outline_shaped, lemma_select_len,
    lemma_walk_facts, map_events, map_stage_events, ordered, outline_of, present, select,
    select_kept, shaped, transform_events, walk_events, Event, Outline, Run, Stages,
};
use crate::session::{lemma_contains_grows, Call, Session};

verus! {

/// A script failure with the engine's description of what went wrong.
fn failure(detail: String) -> (r: TransformError)
    ensures
        r == (TransformError::ScriptFailed { detail }),
{
    TransformError::ScriptFailed { detail }
}

/// Runs a script on JSON text in the session's context: compiles the script
/// as a module, reads the engine's `JSON.parse` and `JSON.stringify`, reads
/// the text with the first, looks up the four stages among the module's
/// exports, runs the pipeline on the parsed value and writes the outcome
/// with the second. On success the record grows by exactly the steps of
/// `transform_events` for the functions and stages found and the run
/// returned, so the text returned is what `JSON.stringify` gave for the
/// run's result. Every failure is a script failure.
pub fn run_in_context<'js>(s: &mut Session<'js>, json_text: &str, script: &str) -> (r: Result<
    (String, Ghost<(Function<'js>, Function<'js>, Stages<Function<'js>>, Run<Value<'js>>)>),
    TransformError,
>)
    ensures
        old(s).sound() ==> final(s).sound(),
        r matches Ok((text, g)) ==> {
            &&& consistent(exports_of(g@.2), g@.3.input, g@.3)
            &&& final(s).trace() == old(s).trace() + transform_events(
                script@,
                json_text@,
                g@.0,
                g@.1,
                g@.2,
                g@.3,
                text@,
            )
        },
        r matches Err(e) ==> e is ScriptFailed,
{
    let ghost start = s.trace();
    let exports = match s.compile(script) {
        Ok(ns) => ns,
        Err(e) => return Err(failure(error_text(&e))),
    };
    let ghost ns_calls = s.calls();
    let (parse, stringify) = match s.json_functions() {
        Ok(p) => p,
        Err(e) => return Err(failure(error_text(&e))),
    };
    let input = match s.parse_input(&parse, json_text) {
        Ok(v) => v,
        Err(e) => return Err(failure(error_text(&e))),
    };
    proof {
        lemma_contains_grows(ns_calls, s.calls(), Call::Namespace { out: Some(exports) });
    }
    let ghost ns_calls = s.calls();
    let before = match s.export(&exports, "before_transform") {
        Ok(f) => f,
        Err(e) => return Err(failure(error_text(&e))),
    };
    proof {
        lemma_contains_grows(ns_calls, s.calls(), Call::Namespace { out: Some(exports) });
    }
    let ghost ns_calls = s.calls();
    let filter = match s.export(&exports, "try_filter") {
        Ok(f) => f,
        Err(e) => return Err(failure(error_text(&e))),
    };
    proof {
        lemma_contains_grows(ns_calls, s.calls(), Call::Namespace { out: Some(exports) });
    }
    let ghost ns_calls = s.calls();
    let map = match s.export(&exports, "try_map") {
        Ok(f) => f,
        Err(e) => return Err(failure(error_text(&e))),
    };
    proof {
        lemma_contains_grows(ns_calls, s.calls(), Call::Namespace { out: Some(exports) });
    }
    let ghost ns_calls = s.calls();
    let after = match s.export(&exports, "after_transform") {
        Ok(f) => f,
        Err(e) => return Err(failure(error_text(&e))),
    };
    let stages = Stages { before, filter, map, after };
    let ghost input0 = input;
    let ghost setup = s.trace();
    let (outcome, run) = match run_pipeline(s, &stages, input) {
        Ok(p) => p,
        Err(e) => return Err(failure(error_text(&e))),
    };
    let ghost result = outcome;
    let text = match s.write(&stringify, outcome) {
        Ok(t) => t,
        Err(e) => return Err(failure(error_text(&e))),
    };
    proof {
        let head = seq![
            Event::Compiled { source: script@ },
            Event::JsonFunction { name: "parse"@, function: parse },
            Event::JsonFunction { name: "stringify"@, function: stringify },
            Event::Parsed { via: parse, text: json_text@, out: input0 },
            Event::Exported { name: "before_transform"@, found: stages.before },
            Event::Exported { name: "try_filter"@, found: stages.filter },
            Event::Exported { name: "try_map"@, found: stages.map },
            Event::Exported { name: "after_transform"@, found: stages.after },
        ];
        assert(setup =~= start + head);
        assert(s.trace() =~= start + (head + events(stages, run@) + seq![
            Event::Written { via: stringify, arg: result, text: text@ },
        ]));
    }
    Ok((text, Ghost((parse, stringify, stages, run@))))
}

/// Runs a script on JSON text in a fresh session of `ctx` and tells, of a
/// success, the outline of the transform: the script compiled, the text
/// parsed, and the text returned. That the text is what the run's result
/// serialised to is stated by `run_in_context`, whose record of the run
/// holds the engine's values and so cannot leave the context.
pub fn run_session<'js>(ctx: Ctx<'js>, json_text: &str, script: &str) -> (r: Result<
    (String, Ghost<Outline>),
    TransformError,
>)
    ensures
        r matches Ok((text, o)) ==> {
            &&& o@.source == script@
            &&& o@.input == json_text@
            &&& o@.output == text@
            &&& shaped(o@)
        },
        r matches Err(e) ==> e is ScriptFailed,
{
    let mut s = Session::new(ctx);
    match run_in_context(&mut s, json_text, script) {
        Ok((text, g)) => {
            let ghost o = outline_of(script@, json_text@, exports_of(g@.2), g@.3, text@);
            proof {
                lemma_outline_shaped(script@, json_text@, exports_of(g@.2), g@.3, text@);
            }
            Ok((text, Ghost(o)))
        },
        Err(e) => Err(e),
    }
}

/// The steps taken before a failure, then the failure: a failed stretch.
proof fn lemma_fail_after_walk<'js>(
    start: Seq<Event<Value<'js>, Function<'js>>>,
    done: Seq<Event<Value<'js>, Function<'js>>>,
    fin: Seq<Event<Value<'js>, Function<'js>>>,
)
    requires
        ordered(done, 2, 2),
        fin == (start + done).push(Event::Failed { phase: 2 }),
    ensures
        failed_from(start, fin, 2, 2),
{
    lemma_failed_after(start, done, 2, 2, 2, 2);
    assert(fin =~= start + done.push(Event::Failed { phase: 2 }));
}

/// Walks an array input as JavaScript's `Array.prototype.filter` does:
/// reads its `length` once, then for each index below it, in order, looks
/// the index up and, when an element is present, calls `try_filter(item,
/// ctx)` on it (when there is a filter) before going on to the next index.
/// Returns the elements kept (all the elements found without a filter),
/// together with what was found at each index and the verdicts.
fn walk_stage<'js>(
    s: &mut Session<'js>,
    st: &Stages<Function<'js>>,
    input: Value<'js>,
    ctx: &Value<'js>,
) -> (r: Result<(Vec<Value<'js>>, Ghost<(Seq<Option<Value<'js>>>, Seq<bool>)>), Error>)
    ensures
        old(s).sound() ==> final(s).sound(),
        r matches Ok((kept, g)) ==> {
            &&& st.filter is Some ==> g@.1.len() == present(g@.0).len() && kept@ == select(
                present(g@.0),
                g@.1,
            )
            &&& st.filter is None ==> g@.1.len() == 0 && kept@ == present(g@.0)
            &&& final(s).trace() == old(s).trace() + seq![
                Event::Length { array: input, length: g@.0.len() as int },
            ] + walk_events(input, g@.0, *ctx, st.filter, g@.1)
        },
        r is Err ==> failed_from(old(s).trace(), final(s).trace(), 2, 2),
{
    let ghost start = s.trace();
    let ghost input0 = input;
    let w = match s.open_array(input) {
        Ok(w) => w,
        Err(e) => {
            proof {
                lemma_fail_after_walk(start, Seq::empty(), s.trace());
            }
            return Err(e);
        },
    };
    let n: u32 = w.len();
    let ghost length: Seq<Event<Value<'js>, Function<'js>>> = seq![
        Event::Length { array: input0, length: n as int },
    ];
    let mut items: Vec<Value<'js>> = Vec::new();
    let mut keep: Vec<bool> = Vec::new();
    let ghost mut slots: Seq<Option<Value<'js>>> = Seq::empty();
    let mut i: u32 = 0;
    while i < n
        invariant
            old(s).sound() ==> s.sound(),
            s.opened(&w),
            i <= n,
            n == w.length(),
            w.array() == input0,
            slots.len() == i,
            items@ == present(slots),
            st.filter is Some ==> keep@.len() == items@.len(),
            st.filter is None ==> keep@.len() == 0,
            start == old(s).trace(),
            length == seq![Event::<Value<'js>, Function<'js>>::Length { array: input0, length: n as int }],
            s.trace() == start + length + walk_events(input0, slots, *ctx, st.filter, keep@),
        decreases n - i,
    {
        let ghost walked = walk_events(input0, slots, *ctx, st.filter, keep@);
        proof {
            lemma_walk_facts(input0, slots, *ctx, st.filter, keep@);
            lemma_concat_in_order(length, walked, 2, 2, 2, 2);
        }
        let ghost s0 = *s;
        let found = match s.slot(&w, i) {
            Ok(f) => f,
            Err(e) => {
                proof {
                    assert(start + length + walked =~= start + (length + walked));
                    lemma_fail_after_walk(start, length + walked, s.trace());
                }
                return Err(e);
            },
        };
        let ghost found_g = found;
        let ghost step = Event::Slot { array: input0, index: i as int, element: found_g };
        let ghost old_keep = keep@;
        let ghost old_items = items@;
        match found {
            Some(x) => {
                if st.filter.is_some() {
                    let k = match s.test_item(st, &x, ctx) {
                        Ok(k) => k,
                        Err(e) => {
                            proof {
                                assert(ordered(seq![step], 2, 2));
                                lemma_concat_in_order(length + walked, seq![step], 2, 2, 2, 2);
                                assert((length + walked).push(step) =~= length + walked + seq![step]);
                                assert((start + length + walked).push(step) =~= start + (length
                                    + walked + seq![step]));
                                lemma_fail_after_walk(start, length + walked + seq![step], s.trace());
                            }
                            return Err(e);
                        },
                    };
                    keep.push(k);
                }
                items.push(x);
            },
            None => {},
        }
        proof {
            Session::lemma_still_opened(&s0, s, &w);
            let next = slots.push(found_g);
            assert(next.drop_last() =~= slots);
            let m = present(slots).len();
            assert(m == old_items.len());
            if st.filter is Some {
                assert(keep@.take(m as int) =~= old_keep);
            }
            assert(walk_events(input0, next, *ctx, st.filter, keep@) =~= match (found_g, st.filter) {
                (Some(x), Some(f)) => walked.push(step).push(
                    Event::Filter { stage: f, item: x, ctx: *ctx, keep: keep@[m as int] },
                ),
                _ => walked.push(step),
            });
            slots = next;
        }
        i = i + 1;
    }
    let ghost verdicts = keep@;
    let kept = if st.filter.is_some() {
        select_kept(items, &keep)
    } else {
        items
    };
    proof {
        assert(start + length + walk_events(input0, slots, *ctx, st.filter, verdicts) =~= start
            + seq![Event::Length { array: input0, length: slots.len() as int }] + walk_events(
            input0,
            slots,
            *ctx,
            st.filter,
            verdicts,
        ));
    }
    Ok((kept, Ghost((slots, verdicts))))
}

/// Calls `try_map(item, ctx)` on each item in order.
fn map_stage<'js>(
    s: &mut Session<'js>,
    st: &Stages<Function<'js>>,
    items: &Vec<Value<'js>>,
    ctx: &Value<'js>,
) -> (r: Result<Vec<Value<'js>>, Error>)
    requires
        st.map is Some,
    ensures
        old(s).sound() ==> final(s).sound(),
        r matches Ok(outs) ==> {
            &&& outs@.len() == items@.len()
            &&& final(s).trace() == old(s).trace() + map_events(st.map->0, items@, *ctx, outs@)
        },
        r is Err ==> failed_from(old(s).trace(), final(s).trace(), 3, 3),
{
    let ghost start = s.trace();
    let ghost f = st.map->0;
    let n: usize = items.len();
    let mut outs: Vec<Value<'js>> = Vec::new();
    let mut j: usize = 0;
    while j < n
        invariant
            old(s).sound() ==> s.sound(),
            n == items@.len(),
            j <= n,
            outs@.len() == j,
            st.map is Some,
            f == st.map->0,
            start == old(s).trace(),
            s.trace() == start + map_events(f, items@.take(j as int), *ctx, outs@),
        decreases n - j,
    {
        let out = match s.map_item(st, &items[j], ctx) {
            Ok(v) => v,
            Err(e) => {
                proof {
                    let me = map_events(f, items@.take(j as int), *ctx, outs@);
                    lemma_map_events_ordered(f, items@.take(j as int), *ctx, outs@);
                    lemma_failed_after(start, me, 3, 3, 3, 3);
                    assert((start + me).push(Event::Failed { phase: 3 }) =~= start + me.push(
                        Event::Failed { phase: 3 },
                    ));
                }
                return Err(e);
            },
        };
        proof {
            let old_outs = outs@;
            let me = map_events(f, items@.take(j as int), *ctx, old_outs);
            let e = Event::Mapped { stage: f, item: items@[j as int], ctx: *ctx, out };
            assert(map_events(f, items@.take(j + 1), *ctx, old_outs.push(out)) =~= me.push(e));
            assert((start + me).push(e) =~= start + me.push(e));
        }
        outs.push(out);
        j = j + 1;
    }
    proof {
        assert(items@.take(n as int) =~= items@);
    }
    Ok(outs)
}

/// The per-item stage: tests the input with `Array.isArray`, picks the batch
/// (walking an array input with the filter calls, or taking the input alone
/// and filtering it), maps what is kept and repacks the outcome into one
/// value. The run returned has `result == processed`.
fn item_stage<'js>(
    s: &mut Session<'js>,
    st: &Stages<Function<'js>>,
    input: Value<'js>,
    ctx: &Value<'js>,
) -> (r: Result<(Value<'js>, Ghost<Run<Value<'js>>>), Error>)
    requires
        exports_of(*st).per_item(),
    ensures
        old(s).sound() ==> final(s).sound(),
        r matches Ok((v, run)) ==> {
            &&& consistent(exports_of(*st), input, run@)
            &&& run@.ctx == *ctx
            &&& run@.result == run@.processed
            &&& v == run@.processed
            &&& final(s).trace() == old(s).trace() + item_events(*st, run@)
        },
        r is Err ==> failed_from(old(s).trace(), final(s).trace(), 1, 4),
{
    let ghost ex = exports_of(*st);
    let ghost start = s.trace();
    let ghost input0 = input;
    let is_array = match s.check_array(&input) {
        Ok(b) => b,
        Err(e) => {
            proof {
                lemma_failed_after(start, Seq::empty(), 1, 1, 1, 4);
                assert(start + Seq::<Event<Value<'js>, Function<'js>>>::empty().push(
                    Event::Failed { phase: 1 },
                ) =~= start.push(Event::Failed { phase: 1 }));
            }
            return Err(e);
        },
    };
    let ghost c = seq![Event::Checked { value: input0, is_array }];
    proof {
        assert(s.trace() =~= start + c);
        assert(ordered(c, 1, 1));
    }
    let ghost mut slots_g: Seq<Option<Value<'js>>> = Seq::empty();
    let ghost mut items_g: Seq<Value<'js>> = Seq::empty();
    let ghost mut keep_g: Seq<bool> = Seq::empty();
    let kept = if is_array {
        match walk_stage(s, st, input, ctx) {
            Ok((kept, g)) => {
                proof {
                    slots_g = g@.0;
                    items_g = present(g@.0);
                    keep_g = g@.1;
                }
                kept
            },
            Err(e) => {
                proof {
                    lemma_failed_extend(start, c, s.trace(), 1, 1, 2, 2, 4);
                }
                return Err(e);
            },
        }
    } else {
        proof {
            items_g = seq![input0];
            assert(seq![input0].drop_last() =~= Seq::<Value<'js>>::empty());
        }
        let mut batch: Vec<Value<'js>> = Vec::new();
        if st.filter.is_some() {
            let k = match s.test_item(st, &input, ctx) {
                Ok(k) => k,
                Err(e) => {
                    proof {
                        lemma_failed_after(start, c, 1, 2, 1, 4);
                        assert((start + c).push(Event::Failed { phase: 2 }) =~= start + c.push(
                            Event::Failed { phase: 2 },
                        ));
                    }
                    return Err(e);
                },
            };
            proof {
                keep_g = seq![k];
                assert(keep_g.take(0) =~= Seq::<bool>::empty());
                assert(select(items_g.drop_last(), keep_g.take(0)) =~= Seq::<Value<'js>>::empty());
            }
            if k {
                batch.push(input);
            }
            proof {
                assert(batch@ =~= select(items_g, keep_g));
            }
        } else {
            batch.push(input);
            proof {
                assert(batch@ =~= items_g);
            }
        }
        batch
    };
    let ghost kept_g = kept@;
    let ghost picked = s.trace();
    let ghost partial = Run {
        input: input0,
        ctx: *ctx,
        is_array: is_array,
        slots: slots_g,
        items: items_g,
        keep: keep_g,
        mapped: Seq::empty(),
        processed: input0,
        result: input0,
    };
    let ghost b = batch_events(*st, partial);
    proof {
        assert(picked =~= start + (c + b));
        assert(kept_g == crate::pipeline::kept(ex, partial));
        crate::pipeline::lemma_batch_events_ordered(*st, partial);
        lemma_concat_in_order(c, b, 1, 1, 2, 2);
    }
    let mapped = if st.map.is_some() {
        match map_stage(s, st, &kept, ctx) {
            Ok(outs) => outs,
            Err(e) => {
                proof {
                    lemma_failed_extend(start, c + b, s.trace(), 1, 2, 3, 3, 4);
                }
                return Err(e);
            },
        }
    } else {
        kept
    };
    let ghost mapped_g = mapped@;
    let ghost maps: Seq<Event<Value<'js>, Function<'js>>> = if ex.map {
        map_events(st.map->0, kept_g, *ctx, mapped_g)
    } else {
        Seq::empty()
    };
    proof {
        assert(s.trace() =~= start + (c + b + maps));
        lemma_map_events_ordered(st.map->0, kept_g, *ctx, mapped_g);
        lemma_concat_in_order(c + b, maps, 1, 2, 3, 3);
    }
    let processed = if is_array {
        match s.build(mapped) {
            Ok(v) => v,
            Err(e) => {
                proof {
                    lemma_failed_after(start, c + b + maps, 3, 4, 1, 4);
                    assert((start + (c + b + maps)).push(Event::Failed { phase: 4 }) =~= start + (c
                        + b + maps).push(Event::Failed { phase: 4 }));
                }
                return Err(e);
            },
        }
    } else {
        proof {
            if ex.filter {
                lemma_select_len(items_g, keep_g);
            }
        }
        let mut last = mapped;
        match last.pop() {
            Some(x) => x,
            None => s.null(),
        }
    };
    let ghost run = Run { mapped: mapped_g, processed: processed, result: processed, ..partial };
    proof {
        assert(kept_g == crate::pipeline::kept(ex, run));
        assert(batch_events(*st, run) == b);
        assert(map_stage_events(*st, run) == maps);
        assert(s.trace() =~= start + (c + b + maps + finish_events(run)));
    }
    Ok((processed, Ghost(run)))
}

/// Runs the pipeline of `st` on `input`: the context step, then (when a
/// filter or a map is present) the `Array.isArray` test, the picking of the
/// batch with the filter calls, the map calls over the kept items and the
/// repacking of the batch, then `after_transform`. On success the record grows by exactly the steps that
/// `events` prescribes for the run, and the value returned is the run's result.
/// On failure the run stopped at the first step that failed: the record grew
/// by steps in pipeline order of which the last, and only the last, failed.
pub fn run_pipeline<'js>(
    s: &mut Session<'js>,
    st: &Stages<Function<'js>>,
    input: Value<'js>,
) -> (r: Result<(Value<'js>, Ghost<Run<Value<'js>>>), Error>)
    ensures
        old(s).sound() ==> final(s).sound(),
        r matches Ok((v, run)) ==> {
            &&& consistent(exports_of(*st), input, run@)
            &&& v == run@.result
            &&& final(s).trace() == old(s).trace() + events(*st, run@)
        },
        r is Err ==> failed_from(old(s).trace(), final(s).trace(), 0, 5),
{
    let ghost ex = exports_of(*st);
    let ghost input0 = input;
    let ghost start = s.trace();
    let ctx_v = match &st.before {
        Some(_) => match s.call_before(st) {
            Ok(v) => v,
            Err(e) => {
                proof {
                    lemma_failed_after(start, Seq::empty(), 0, 0, 0, 5);
                    assert(start + Seq::<Event<Value<'js>, Function<'js>>>::empty().push(Event::Failed { phase: 0 })
                        =~= start.push(Event::Failed { phase: 0 }));
                }
                return Err(e);
            },
        },
        None => match s.fresh() {
            Ok(v) => v,
            Err(e) => {
                proof {
                    lemma_failed_after(start, Seq::empty(), 0, 0, 0, 5);
                    assert(start + Seq::<Event<Value<'js>, Function<'js>>>::empty().push(Event::Failed { phase: 0 })
                        =~= start.push(Event::Failed { phase: 0 }));
                }
                return Err(e);
            },
        },
    };
    let ghost after_ctx = s.trace();
    let ghost c: Seq<Event<Value<'js>, Function<'js>>> = if ex.before {
        seq![Event::Before { stage: st.before->0, out: ctx_v }]
    } else {
        seq![Event::Fresh { out: ctx_v }]
    };
    proof {
        assert(after_ctx =~= start + c);
        assert(ordered(c, 0, 0));
    }
    let ghost mut stage: Run<Value<'js>> = Run {
        input: input0,
        ctx: ctx_v,
        is_array: false,
        slots: Seq::empty(),
        items: Seq::empty(),
        keep: Seq::empty(),
        mapped: Seq::empty(),
        processed: input0,
        result: input0,
    };
    let processed = if st.exports().has_item_stage() {
        match item_stage(s, st, input, &ctx_v) {
            Ok((v, run)) => {
                proof {
                    stage = run@;
                }
                v
            },
            Err(e) => {
                proof {
                    lemma_failed_extend(start, c, s.trace(), 0, 0, 1, 4, 5);
                }
                return Err(e);
            },
        }
    } else {
        input
    };
    let ghost after_items = s.trace();
    proof {
        lemma_item_events_ordered(*st, stage);
        lemma_concat_in_order(c, item_events(*st, stage), 0, 0, 1, 4);
        assert(after_items =~= start + (c + item_events(*st, stage)));
    }
    let result = match &st.after {
        Some(_) => match s.call_after(st, processed) {
            Ok(v) => v,
            Err(e) => {
                proof {
                    let done = c + item_events(*st, stage);
                    lemma_failed_after(start, done, 4, 5, 0, 5);
                    assert((start + done).push(Event::Failed { phase: 5 }) =~= start + done.push(
                        Event::Failed { phase: 5 },
                    ));
                }
                return Err(e);
            },
        },
        None => processed,
    };
    let ghost run = Run { result: result, ..stage };
    proof {
        assert(after_ctx =~= start + context_events(*st, run));
        assert(item_events(*st, run) == item_events(*st, stage));
        assert(after_items =~= start + context_events(*st, run)
            + item_events(*st, run));
        assert(s.trace() =~= start + events(*st, run));
    }
    Ok((result, Ghost(run)))
}

} // verus!
