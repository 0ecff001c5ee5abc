//! The transform pipeline as a mathematical model.
//!
//! A script may export four stages, all optional:
//! `before_transform() -> ctx`, `try_filter(item, ctx) -> truthy`,
//! `try_map(item, ctx) -> item` and `after_transform(value) -> value`.
//! They run in that order. When the input is not an array it is treated as
//! a one-element batch and unwrapped again afterwards (an emptied batch
//! becomes `null`).
//!
//! An array input is walked as JavaScript's `Array.prototype.filter` walks
//! it: its `length` is read once, then each index below it is looked up in
//! turn, and each element found is handed to `try_filter` before the next
//! index is looked up.
//!
//! The values and the functions that flow through the pipeline are opaque
//! to the model (the type parameters `V` and `F`); what the model fixes is
//! which calls are made, of which exported function, in which order, with
//! which arguments, and how their outcomes are combined.
//! `transform_events` adds the steps around the pipeline (compiling the
//! script, parsing the input, looking up the exports, serialising the
//! result), and `Outline` is what of a whole transform can be told without
//! the engine's values.
use vstd::prelude::*;

verus! {

/// Which of the four optional stages the script exports as functions.
#[derive(Clone, Copy, Debug, PartialEq, Eq)]
pub struct Exports {
    pub before: bool,
    pub filter: bool,
    pub map: bool,
    pub after: bool,
}

impl Exports {
    /// The per-item stage runs when there is a filter or a map.
    pub open spec fn per_item(self) -> bool {
        self.filter || self.map
    }

    /// Whether the per-item stage (filter and/or map) runs at all.
    pub fn has_item_stage(&self) -> (r: bool)
        ensures
            r == self.per_item(),
    {
        self.filter || self.map
    }
}

/// The functions that a script exports for the four stages: `None` where the
/// export is missing or is not a function.
pub struct Stages<F> {
    pub before: Option<F>,
    pub filter: Option<F>,
    pub map: Option<F>,
    pub after: Option<F>,
}

/// Which stages are present.
pub open spec fn exports_of<F>(st: Stages<F>) -> Exports {
    Exports {
        before: st.before is Some,
        filter: st.filter is Some,
        map: st.map is Some,
        after: st.after is Some,
    }
}

impl<F> Stages<F> {
    /// Which stages are present.
    pub fn exports(&self) -> (ex: Exports)
        ensures
            ex == exports_of(*self),
    {
        Exports {
            before: self.before.is_some(),
            filter: self.filter.is_some(),
            map: self.map.is_some(),
            after: self.after.is_some(),
        }
    }
}

/// One observable step of a transform. `V` stands for the engine's values
/// and `F` for its functions.
pub enum Event<V, F> {
    /// The script `source` was compiled and run as a module.
    Compiled { source: Seq<char> },
    /// The property `name` of the engine's global `JSON` object was read and
    /// held the function `function`.
    JsonFunction { name: Seq<char>, function: F },
    /// The function `via` (the engine's `JSON.parse`) was handed `text` and
    /// returned `out`.
    Parsed { via: F, text: Seq<char>, out: V },
    /// The module's export `name` was looked up; `found` is the function it
    /// holds, or nothing when it holds none.
    Exported { name: Seq<char>, found: Option<F> },
    /// A fresh empty object `{}` was made to serve as the context.
    Fresh { out: V },
    /// `before_transform` (the function `stage`) was called with no
    /// arguments and returned `out`.
    Before { stage: F, out: V },
    /// `Array.isArray(value)` was asked and answered `is_array`.
    Checked { value: V, is_array: bool },
    /// The `length` of `array` was read once, before its elements.
    Length { array: V, length: int },
    /// The index `index` of `array` was looked up (`HasProperty`), and its
    /// element read when present: `element` is the element, or nothing for a hole.
    Slot { array: V, index: int, element: Option<V> },
    /// `try_filter` (the function `stage`) was called on `(item, ctx)`;
    /// `keep` is the truthiness of its result.
    Filter { stage: F, item: V, ctx: V, keep: bool },
    /// `try_map` (the function `stage`) was called on `(item, ctx)` and
    /// returned `out`.
    Mapped { stage: F, item: V, ctx: V, out: V },
    /// A new array holding `items` (in order) was made: `out`.
    Build { items: Seq<V>, out: V },
    /// The value `null` was made: `out`.
    Null { out: V },
    /// `after_transform` (the function `stage`) was called on `arg` and
    /// returned `out`.
    After { stage: F, arg: V, out: V },
    /// The function `via` (the engine's `JSON.stringify`) was handed `arg`
    /// and returned `text`.
    Written { via: F, arg: V, text: Seq<char> },
    /// The step of the given phase failed (the engine raised an error or the
    /// script threw); nothing further happens in the run.
    Failed { phase: int },
}

/// What a run produced at each point: the context handed to the per-item
/// stages, what the walk over an array input found at each index, the batch
/// of items, the filter verdicts, the map results, the value handed to
/// `after_transform` and the final value.
pub struct Run<V> {
    pub input: V,
    pub ctx: V,
    pub is_array: bool,
    pub slots: Seq<Option<V>>,
    pub items: Seq<V>,
    pub keep: Seq<bool>,
    pub mapped: Seq<V>,
    pub processed: V,
    pub result: V,
}

/// The elements found at the present indices, in index order.
pub open spec fn present<V>(slots: Seq<Option<V>>) -> Seq<V>
    decreases slots.len(),
{
    if slots.len() == 0 {
        Seq::empty()
    } else {
        let found = present(slots.drop_last());
        match slots.last() {
            Some(x) => found.push(x),
            None => found,
        }
    }
}

/// The items whose verdict is `true`, in the order they came in.
pub open spec fn select<V>(items: Seq<V>, keep: Seq<bool>) -> Seq<V>
    decreases items.len(),
{
    if items.len() == 0 {
        Seq::empty()
    } else {
        let rest = select(items.drop_last(), keep.take(items.len() - 1));
        if keep[items.len() - 1] {
            rest.push(items.last())
        } else {
            rest
        }
    }
}

/// The number of `true` verdicts.
pub open spec fn count_true(keep: Seq<bool>) -> nat
    decreases keep.len(),
{
    if keep.len() == 0 {
        0
    } else {
        count_true(keep.drop_last()) + if keep.last() { 1nat } else { 0nat }
    }
}

/// The items that reach the map stage.
pub open spec fn kept<V>(ex: Exports, run: Run<V>) -> Seq<V> {
    if ex.filter {
        select(run.items, run.keep)
    } else {
        run.items
    }
}

/// How the parts of a run fit together for the given exports and input.
pub open spec fn consistent<V>(ex: Exports, input: V, run: Run<V>) -> bool {
    &&& run.input == input
    &&& ex.per_item() ==> (!run.is_array ==> run.items == seq![input])
    &&& run.is_array ==> run.items == present(run.slots)
    &&& !run.is_array ==> run.slots.len() == 0
    &&& !ex.per_item() ==> {
        &&& !run.is_array
        &&& run.items.len() == 0
        &&& run.processed == input
    }
    &&& ex.filter ==> run.keep.len() == run.items.len()
    &&& !ex.filter ==> run.keep.len() == 0
    &&& ex.map ==> run.mapped.len() == kept(ex, run).len()
    &&& !ex.map ==> run.mapped == kept(ex, run)
    &&& (ex.per_item() && !run.is_array && run.mapped.len() > 0) ==> run.processed
        == run.mapped[0]
    &&& !ex.after ==> run.result == run.processed
}

/// The context step: `before_transform()` or a fresh `{}`.
pub open spec fn context_events<V, F>(st: Stages<F>, run: Run<V>) -> Seq<Event<V, F>> {
    match st.before {
        Some(f) => seq![Event::Before { stage: f, out: run.ctx }],
        None => seq![Event::Fresh { out: run.ctx }],
    }
}

/// The walk over an array's indices that picks the batch, as JavaScript's
/// `Array.prototype.filter` makes it: for each index in order, the lookup of
/// the index and, when an element is present there, the `try_filter` call on
/// it (when there is one) before the next index is looked up. `keep` holds
/// the verdicts of the elements found, in order.
pub open spec fn walk_events<V, F>(array: V, slots: Seq<Option<V>>, ctx: V, filter: Option<F>, keep: Seq<bool>) -> Seq<Event<V, F>>
    decreases slots.len(),
{
    if slots.len() == 0 {
        Seq::empty()
    } else {
        let init = slots.drop_last();
        let m = present(init).len();
        let prev = walk_events(
            array,
            init,
            ctx,
            filter,
            if filter is Some {
                keep.take(m as int)
            } else {
                keep
            },
        );
        let step = Event::Slot { array, index: init.len() as int, element: slots.last() };
        match (slots.last(), filter) {
            (Some(x), Some(f)) => prev.push(step).push(
                Event::Filter { stage: f, item: x, ctx, keep: keep[m as int] },
            ),
            _ => prev.push(step),
        }
    }
}

/// How the batch is picked: an array input is walked (its `length` read
/// once, then each index below it), and an input that is not an array is
/// a batch of one, which is handed to `try_filter` when there is one.
pub open spec fn batch_events<V, F>(st: Stages<F>, run: Run<V>) -> Seq<Event<V, F>> {
    if run.is_array {
        seq![Event::Length { array: run.input, length: run.slots.len() as int }] + walk_events(
            run.input,
            run.slots,
            run.ctx,
            st.filter,
            run.keep,
        )
    } else {
        match st.filter {
            Some(f) => seq![
                Event::Filter { stage: f, item: run.input, ctx: run.ctx, keep: run.keep[0] },
            ],
            None => Seq::empty(),
        }
    }
}

/// The map calls, one per kept item, in order.
pub open spec fn map_events<V, F>(f: F, items: Seq<V>, ctx: V, outs: Seq<V>) -> Seq<Event<V, F>> {
    Seq::new(
        items.len(),
        |i: int| Event::Mapped { stage: f, item: items[i], ctx: ctx, out: outs[i] },
    )
}

/// The map calls of a run, when there is a map.
pub open spec fn map_stage_events<V, F>(st: Stages<F>, run: Run<V>) -> Seq<Event<V, F>> {
    match st.map {
        Some(f) => map_events(f, kept(exports_of(st), run), run.ctx, run.mapped),
        None => Seq::empty(),
    }
}

/// How the batch is turned back into one value.
pub open spec fn finish_events<V, F>(run: Run<V>) -> Seq<Event<V, F>> {
    if run.is_array {
        seq![Event::Build { items: run.mapped, out: run.processed }]
    } else if run.mapped.len() == 0 {
        seq![Event::Null { out: run.processed }]
    } else {
        Seq::empty()
    }
}

/// The per-item stage: the `Array.isArray` test, the picking of the batch
/// (with the filter calls), the map calls, and the repacking.
pub open spec fn item_events<V, F>(st: Stages<F>, run: Run<V>) -> Seq<Event<V, F>> {
    if !exports_of(st).per_item() {
        Seq::empty()
    } else {
        seq![Event::Checked { value: run.input, is_array: run.is_array }] + batch_events(st, run)
            + map_stage_events(st, run) + finish_events(run)
    }
}

/// The final step: `after_transform(processed)`, when exported.
pub open spec fn after_events<V, F>(st: Stages<F>, run: Run<V>) -> Seq<Event<V, F>> {
    match st.after {
        Some(f) => seq![Event::After { stage: f, arg: run.processed, out: run.result }],
        None => Seq::empty(),
    }
}

/// Every step of a run, in the order in which it happens.
pub open spec fn events<V, F>(st: Stages<F>, run: Run<V>) -> Seq<Event<V, F>> {
    context_events(st, run) + item_events(st, run) + after_events(st, run)
}

/// The position of a step in the pipeline's order. The walk over the input
/// and the filter calls interleave, and share a phase.
pub open spec fn phase<V, F>(e: Event<V, F>) -> int {
    match e {
        Event::Compiled { .. } => -3,
        Event::JsonFunction { .. } => -2,
        Event::Parsed { .. } => -2,
        Event::Exported { .. } => -1,
        Event::Fresh { .. } => 0,
        Event::Before { .. } => 0,
        Event::Checked { .. } => 1,
        Event::Length { .. } => 2,
        Event::Slot { .. } => 2,
        Event::Filter { .. } => 2,
        Event::Mapped { .. } => 3,
        Event::Build { .. } => 4,
        Event::Null { .. } => 4,
        Event::After { .. } => 5,
        Event::Written { .. } => 6,
        Event::Failed { phase } => phase,
    }
}

/// The context a step was handed, where it takes one.
pub open spec fn handed_ctx<V, F>(e: Event<V, F>) -> Option<V> {
    match e {
        Event::Filter { ctx, .. } => Some(ctx),
        Event::Mapped { ctx, .. } => Some(ctx),
        _ => None,
    }
}

/// A call of a stage calls the function that the script exports for it.
pub open spec fn calls_exported<V, F>(st: Stages<F>, e: Event<V, F>) -> bool {
    match e {
        Event::Before { stage, .. } => st.before == Some(stage),
        Event::Filter { stage, .. } => st.filter == Some(stage),
        Event::Mapped { stage, .. } => st.map == Some(stage),
        Event::After { stage, .. } => st.after == Some(stage),
        _ => true,
    }
}

/// The steps of `s` come in pipeline order.
pub open spec fn in_order<V, F>(s: Seq<Event<V, F>>) -> bool {
    forall|i: int, j: int| 0 <= i < j < s.len() ==> phase(#[trigger] s[i]) <= phase(#[trigger] s[j])
}

/// Every step of `s` lies between phases `lo` and `hi`.
pub open spec fn within<V, F>(s: Seq<Event<V, F>>, lo: int, hi: int) -> bool {
    forall|i: int| 0 <= i < s.len() ==> lo <= phase(#[trigger] s[i]) <= hi
}

/// No step of `s` failed.
pub open spec fn clean<V, F>(s: Seq<Event<V, F>>) -> bool {
    forall|i: int| 0 <= i < s.len() ==> !(#[trigger] s[i] is Failed)
}

/// Successful steps in pipeline order, all between phases `lo` and `hi`.
pub open spec fn ordered<V, F>(s: Seq<Event<V, F>>, lo: int, hi: int) -> bool {
    &&& in_order(s)
    &&& within(s, lo, hi)
    &&& clean(s)
}

/// `s` ends with a failed step and has no other.
pub open spec fn ends_in_failure<V, F>(s: Seq<Event<V, F>>) -> bool {
    &&& s.len() > 0
    &&& s.last() is Failed
    &&& clean(s.drop_last())
}

/// From the record `before` to the record `after`, steps between phases
/// `lo` and `hi` were taken in pipeline order, and the last of them, and
/// only the last, failed.
pub open spec fn failed_from<V, F>(before: Seq<Event<V, F>>, after: Seq<Event<V, F>>, lo: int, hi: int) -> bool {
    &&& before.len() < after.len()
    &&& after.subrange(0, before.len() as int) == before
    &&& ends_in_failure(after.skip(before.len() as int))
    &&& in_order(after.skip(before.len() as int))
    &&& within(after.skip(before.len() as int), lo, hi)
}

/// Two stretches of steps in order, the first's phases not above the
/// second's, make one stretch in order.
pub proof fn lemma_concat_in_order<V, F>(a: Seq<Event<V, F>>, b: Seq<Event<V, F>>, lo: int, m1: int, m2: int, hi: int)
    requires
        in_order(a),
        in_order(b),
        within(a, lo, m1),
        within(b, m2, hi),
        m1 <= m2,
        lo <= m2,
        m1 <= hi,
    ensures
        in_order(a + b),
        within(a + b, lo, hi),
        clean(a) && clean(b) ==> clean(a + b),
{
    let s = a + b;
    assert forall|i: int, j: int| 0 <= i < j < s.len() implies phase(#[trigger] s[i]) <= phase(
        #[trigger] s[j],
    ) by {
        if j < a.len() {
            assert(s[i] == a[i] && s[j] == a[j]);
        } else if i >= a.len() {
            assert(s[i] == b[i - a.len()] && s[j] == b[j - a.len()]);
        } else {
            assert(s[i] == a[i] && s[j] == b[j - a.len()]);
        }
    }
    assert forall|i: int| 0 <= i < s.len() implies lo <= phase(#[trigger] s[i]) <= hi by {
        if i < a.len() {
            assert(s[i] == a[i]);
        } else {
            assert(s[i] == b[i - a.len()]);
        }
    }
    if clean(a) && clean(b) {
        assert forall|i: int| 0 <= i < s.len() implies !(#[trigger] s[i] is Failed) by {
            if i < a.len() {
                assert(s[i] == a[i]);
            } else {
                assert(s[i] == b[i - a.len()]);
            }
        }
    }
}

/// The map calls are successful steps of the map phase.
pub proof fn lemma_map_events_ordered<V, F>(f: F, items: Seq<V>, ctx: V, outs: Seq<V>)
    ensures
        ordered(map_events(f, items, ctx, outs), 3, 3),
{
}

/// The walk takes successful steps of the filter phase; every `try_filter`
/// call in it is a call of `filter` handed the context `ctx`.
pub proof fn lemma_walk_facts<V, F>(array: V, slots: Seq<Option<V>>, ctx: V, filter: Option<F>, keep: Seq<bool>)
    ensures
        ordered(walk_events(array, slots, ctx, filter, keep), 2, 2),
        forall|i: int|
            0 <= i < walk_events(array, slots, ctx, filter, keep).len() ==> {
                let e = #[trigger] walk_events(array, slots, ctx, filter, keep)[i];
                &&& (e is Filter ==> filter == Some(e->Filter_stage) && e->Filter_ctx == ctx)
                &&& (e is Slot || e is Filter)
            },
    decreases slots.len(),
{
    let w = walk_events(array, slots, ctx, filter, keep);
    if slots.len() > 0 {
        let init = slots.drop_last();
        let m = present(init).len();
        let k = if filter is Some {
            keep.take(m as int)
        } else {
            keep
        };
        lemma_walk_facts(array, init, ctx, filter, k);
        let prev = walk_events(array, init, ctx, filter, k);
        assert forall|i: int| 0 <= i < w.len() implies {
            let e = #[trigger] w[i];
            &&& (e is Filter ==> filter == Some(e->Filter_stage) && e->Filter_ctx == ctx)
            &&& (e is Slot || e is Filter)
            &&& phase(e) == 2
            &&& !(e is Failed)
        } by {
            if i < prev.len() {
                assert(w[i] == prev[i]);
            }
        }
    }
}

/// The steps that pick the batch are successful steps of the filter phase.
pub proof fn lemma_batch_events_ordered<V, F>(st: Stages<F>, run: Run<V>)
    ensures
        ordered(batch_events(st, run), 2, 2),
{
    if run.is_array {
        let l: Seq<Event<V, F>> = seq![
            Event::Length { array: run.input, length: run.slots.len() as int },
        ];
        lemma_walk_facts(run.input, run.slots, run.ctx, st.filter, run.keep);
        lemma_concat_in_order(
            l,
            walk_events(run.input, run.slots, run.ctx, st.filter, run.keep),
            2,
            2,
            2,
            2,
        );
    }
}

/// The per-item stage takes successful steps in order, between the
/// `Array.isArray` test and the repacking.
pub proof fn lemma_item_events_ordered<V, F>(st: Stages<F>, run: Run<V>)
    ensures
        ordered(item_events(st, run), 1, 4),
{
    if exports_of(st).per_item() {
        let c: Seq<Event<V, F>> = seq![Event::Checked { value: run.input, is_array: run.is_array }];
        let b = batch_events(st, run);
        let maps = map_stage_events(st, run);
        let fin: Seq<Event<V, F>> = finish_events(run);
        lemma_batch_events_ordered(st, run);
        assert(ordered(c, 1, 1));
        assert(ordered(maps, 3, 3));
        assert(ordered(fin, 4, 4));
        lemma_concat_in_order(c, b, 1, 1, 2, 2);
        lemma_concat_in_order(c + b, maps, 1, 2, 3, 3);
        lemma_concat_in_order(c + b + maps, fin, 1, 3, 4, 4);
    }
}

/// After successful steps `done`, a step of phase `p` failed.
pub proof fn lemma_failed_after<V, F>(start: Seq<Event<V, F>>, done: Seq<Event<V, F>>, m: int, p: int, lo: int, hi: int)
    requires
        ordered(done, lo, m),
        m <= p,
        lo <= p <= hi,
    ensures
        failed_from(start, start + done.push(Event::Failed { phase: p }), lo, hi),
{
    let f: Seq<Event<V, F>> = seq![Event::Failed { phase: p }];
    let fin = start + done.push(Event::Failed { phase: p });
    assert(fin.subrange(0, start.len() as int) =~= start);
    assert(fin.skip(start.len() as int) =~= done + f);
    assert(in_order(f) && within(f, p, p));
    lemma_concat_in_order(done, f, lo, m, p, p);
    assert((done + f).drop_last() =~= done);
    assert forall|i: int| 0 <= i < (done + f).len() implies lo <= phase(#[trigger] (done + f)[i])
        <= hi by {}
}

/// Successful steps `done` followed by a failed stretch make a failed stretch.
pub proof fn lemma_failed_extend<V, F>(
    start: Seq<Event<V, F>>,
    done: Seq<Event<V, F>>,
    fin: Seq<Event<V, F>>,
    lo: int,
    m1: int,
    m2: int,
    hi2: int,
    hi: int,
)
    requires
        ordered(done, lo, m1),
        failed_from(start + done, fin, m2, hi2),
        m1 <= m2,
        lo <= m2,
        hi2 <= hi,
        m1 <= hi2,
    ensures
        failed_from(start, fin, lo, hi),
{
    let sd = start + done;
    let t = fin.skip(sd.len() as int);
    assert(fin.subrange(0, start.len() as int) =~= sd.subrange(0, start.len() as int));
    assert(sd.subrange(0, start.len() as int) =~= start);
    assert(fin =~= sd + t);
    assert(fin.skip(start.len() as int) =~= done + t);
    lemma_concat_in_order(done, t, lo, m1, m2, hi2);
    assert((done + t).last() == t.last());
    assert((done + t).drop_last() =~= done + t.drop_last());
    lemma_concat_in_order(done, t.drop_last(), lo, m1, m2, hi2);
    assert forall|i: int| 0 <= i < (done + t).len() implies lo <= phase(#[trigger] (done + t)[i])
        <= hi by {}
}

/// Every step of a whole transform: compiling the script, reading
/// `JSON.parse` and `JSON.stringify` (found to be `parse` and `stringify`),
/// parsing the input text with `parse`, looking up the four exports, the
/// pipeline run, and serialising its result with `stringify`.
pub open spec fn transform_events<V, F>(
    source: Seq<char>,
    text: Seq<char>,
    parse: F,
    stringify: F,
    st: Stages<F>,
    run: Run<V>,
    output: Seq<char>,
) -> Seq<Event<V, F>> {
    seq![
        Event::Compiled { source },
        Event::JsonFunction { name: "parse"@, function: parse },
        Event::JsonFunction { name: "stringify"@, function: stringify },
        Event::Parsed { via: parse, text, out: run.input },
        Event::Exported { name: "before_transform"@, found: st.before },
        Event::Exported { name: "try_filter"@, found: st.filter },
        Event::Exported { name: "try_map"@, found: st.map },
        Event::Exported { name: "after_transform"@, found: st.after },
    ] + events(st, run) + seq![Event::Written { via: stringify, arg: run.result, text: output }]
}

/// What can be told of a completed transform without the engine's values:
/// the script, the input text, the exports, the shape of the batch, the
/// filter verdicts, how many items were mapped, and the text the result
/// serialised to.
pub struct Outline {
    pub source: Seq<char>,
    pub input: Seq<char>,
    pub exports: Exports,
    pub is_array: bool,
    pub batch: nat,
    pub keep: Seq<bool>,
    pub mapped: nat,
    pub output: Seq<char>,
}

/// The outline of a run.
pub open spec fn outline_of<V>(source: Seq<char>, input: Seq<char>, ex: Exports, run: Run<V>, output: Seq<char>) -> Outline {
    Outline {
        source,
        input,
        exports: ex,
        is_array: run.is_array,
        batch: run.items.len(),
        keep: run.keep,
        mapped: run.mapped.len(),
        output,
    }
}

/// How the parts of an outline fit together: without a filter or a map
/// there is no batch; a value that is not an array is a batch of one; there
/// is one verdict per item when there is a filter and none otherwise; and
/// the map stage sees as many items as there are truthy verdicts (all the
/// items without a filter).
pub open spec fn shaped(o: Outline) -> bool {
    &&& !o.exports.per_item() ==> !o.is_array && o.batch == 0 && o.mapped == 0
    &&& (o.exports.per_item() && !o.is_array) ==> o.batch == 1
    &&& o.exports.filter ==> o.keep.len() == o.batch && o.mapped == count_true(o.keep)
    &&& !o.exports.filter ==> o.keep.len() == 0 && o.mapped == o.batch
}

/// The outline of a consistent run is shaped.
pub proof fn lemma_outline_shaped<V>(source: Seq<char>, input: Seq<char>, ex: Exports, run: Run<V>, output: Seq<char>)
    requires
        consistent(ex, run.input, run),
    ensures
        shaped(outline_of(source, input, ex, run, output)),
{
    if ex.filter {
        lemma_select_count(run.items, run.keep);
    }
}

/// A selection holds as many items as there are `true` verdicts.
pub proof fn lemma_select_count<V>(items: Seq<V>, keep: Seq<bool>)
    requires
        items.len() == keep.len(),
    ensures
        select(items, keep).len() == count_true(keep),
    decreases items.len(),
{
    if items.len() > 0 {
        let k = keep.take(items.len() - 1);
        assert(k =~= keep.drop_last());
        lemma_select_count(items.drop_last(), k);
    }
}

/// A selection has at most as many items as the batch it came from.
pub proof fn lemma_select_len<V>(items: Seq<V>, keep: Seq<bool>)
    ensures
        select(items, keep).len() <= items.len(),
    decreases items.len(),
{
    if items.len() > 0 {
        lemma_select_len(items.drop_last(), keep.take(items.len() - 1));
    }
}

/// Keeps the items whose verdict is `true`, in order.
pub fn select_kept<T>(items: Vec<T>, keep: &Vec<bool>) -> (kept: Vec<T>)
    requires
        items@.len() == keep@.len(),
    ensures
        kept@ == select(items@, keep@),
{
    let ghost all = items@;
    let mut kept: Vec<T> = Vec::new();
    let n: usize = keep.len();
    let mut i: usize = 0;
    proof {
        assert(all.take(0) =~= Seq::<T>::empty());
    }
    for x in it: items.into_iter()
        invariant
            it.seq() == all,
            i == it.index(),
            keep@.len() == all.len(),
            n == all.len(),
            kept@ == select(all.take(i as int), keep@.take(i as int)),
    {
        proof {
            let t = all.take(i + 1);
            assert(t.drop_last() =~= all.take(i as int));
            assert(keep@.take(i + 1).take(i as int) =~= keep@.take(i as int));
            assert(t.last() == x);
        }
        if keep[i] {
            kept.push(x);
        }
        i = i + 1;
    }
    proof {
        assert(all.take(all.len() as int) =~= all);
        assert(keep@.take(keep@.len() as int) =~= keep@);
    }
    kept
}

} // verus!
