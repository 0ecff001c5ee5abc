//! A JavaScript context together with the record of the steps taken in it.
//!
//! Every step that touches the engine goes through a method of `Session`,
//! and the session keeps two ghost records. One is the log of the engine
//! calls made in it (`Calls`): each call into the engine adds what it was
//! handed and what came back, and nothing else can add to it. The other is
//! the trace of the pipeline's steps. A session is `sound` when every step
//! of its trace is backed by the engine calls that it reports: the value a
//! step records as a stage's result is the value that the engine returned
//! for the call of that stage on those arguments, and so on for every kind
//! of step (see `recorded_step`). Every method keeps its session sound.
use vstd::prelude::*;
use rquickjs::{Array, Ctx, Error, Function, Object, Value};

use crate::js::{
    array_into_value, array_new, array_set, call0, call1, call1_truthy, call2, call2_truthy,
    call_text, call_to_string, declare_module, eval_module, get_function, get_index, get_length,
    get_object, get_value, globals, has_index, into_function, module_namespace, null_value,
    object_from_value, object_into_value, object_new,
};
use crate::pipeline::{Event, Stages};

verus! {

/// One call into the engine: what it was handed, and what came back
/// (`None` where the engine raised an error).
#[allow(inconsistent_fields)]
pub enum Call<'js> {
    Declare { source: Seq<char>, ok: bool },
    Eval { ok: bool },
    Namespace { out: Option<Object<'js>> },
    Globals { out: Object<'js> },
    GetObject { obj: Object<'js>, key: Seq<char>, out: Option<Object<'js>> },
    GetFunction { obj: Object<'js>, key: Seq<char>, out: Option<Function<'js>> },
    GetValue { obj: Object<'js>, key: Seq<char>, out: Option<Value<'js>> },
    IntoFunction { value: Value<'js>, out: Option<Function<'js>> },
    ObjectFromValue { value: Value<'js>, out: Option<Object<'js>> },
    GetLength { obj: Object<'js>, out: Option<u32> },
    HasIndex { obj: Object<'js>, index: u32, out: Option<bool> },
    GetIndex { obj: Object<'js>, index: u32, out: Option<Value<'js>> },
    ArrayNew { out: Option<Array<'js>> },
    ArraySet { array: Array<'js>, index: usize, value: Value<'js>, ok: bool },
    ArrayIntoValue { array: Array<'js>, out: Value<'js> },
    ObjectNew { out: Option<Object<'js>> },
    ObjectIntoValue { obj: Object<'js>, out: Value<'js> },
    NullValue { out: Value<'js> },
    Call0 { f: Function<'js>, out: Option<Value<'js>> },
    Call1 { f: Function<'js>, a: Value<'js>, out: Option<Value<'js>> },
    Call2 { f: Function<'js>, a: Value<'js>, b: Value<'js>, out: Option<Value<'js>> },
    Call1Truthy { f: Function<'js>, a: Value<'js>, out: Option<bool> },
    Call2Truthy { f: Function<'js>, a: Value<'js>, b: Value<'js>, out: Option<bool> },
    CallText { f: Function<'js>, text: Seq<char>, out: Option<Value<'js>> },
    CallToString { f: Function<'js>, a: Value<'js>, out: Option<Seq<char>> },
}

/// The value of a successful outcome.
pub open spec fn ok_value<T, E>(r: Result<T, E>) -> Option<T> {
    match r {
        Ok(v) => Some(v),
        Err(_) => None,
    }
}

/// The text of a successful outcome.
pub open spec fn ok_text<E>(r: Result<String, E>) -> Option<Seq<char>> {
    match r {
        Ok(t) => Some(t@),
        Err(_) => None,
    }
}

/// The log of the engine calls made in a session, oldest first.
pub struct Calls<'js> {
    records: Ghost<Seq<Call<'js>>>,
}

impl<'js> Calls<'js> {
    /// The calls made so far, oldest first.
    pub closed spec fn records(&self) -> Seq<Call<'js>> {
        self.records@
    }
}

/// `b` holds every entry of `a`, at the same place, and perhaps more after.
pub open spec fn grows_into<T>(a: Seq<T>, b: Seq<T>) -> bool {
    &&& a.len() <= b.len()
    &&& forall|i: int| 0 <= i < a.len() ==> b[i] == a[i]
}

/// The engine calls that back a step: for each kind of step, the calls of
/// the engine that made it, with the arguments and the results that the
/// step records.
pub open spec fn recorded_step<'js>(e: Event<Value<'js>, Function<'js>>, calls: Seq<Call<'js>>) -> bool {
    match e {
        Event::Compiled { source } => calls.contains(Call::Declare { source, ok: true }),
        Event::JsonFunction { name, function } => exists|g: Object<'js>, j: Object<'js>|
            #![trigger calls.contains(Call::Globals { out: g }), calls.contains(Call::GetObject { obj: g, key: "JSON"@, out: Some(j) })]
            calls.contains(Call::Globals { out: g }) && calls.contains(
                Call::GetObject { obj: g, key: "JSON"@, out: Some(j) },
            ) && calls.contains(Call::GetFunction { obj: j, key: name, out: Some(function) }),
        Event::Parsed { via, text, out } => calls.contains(
            Call::CallText { f: via, text, out: Some(out) },
        ),
        Event::Exported { name, found } => exists|ns: Object<'js>, v: Value<'js>|
            #![trigger calls.contains(Call::Namespace { out: Some(ns) }), calls.contains(Call::GetValue { obj: ns, key: name, out: Some(v) })]
            calls.contains(Call::Namespace { out: Some(ns) }) && calls.contains(
                Call::GetValue { obj: ns, key: name, out: Some(v) },
            ) && calls.contains(Call::IntoFunction { value: v, out: found }),
        Event::Fresh { out } => exists|o: Object<'js>|
            #![trigger calls.contains(Call::ObjectNew { out: Some(o) })]
            calls.contains(Call::ObjectNew { out: Some(o) }) && calls.contains(
                Call::ObjectIntoValue { obj: o, out },
            ),
        Event::Before { stage, out } => calls.contains(Call::Call0 { f: stage, out: Some(out) }),
        Event::Checked { value, is_array } => exists|g: Object<'js>, a: Object<'js>, f: Function<'js>|
            #![trigger calls.contains(Call::Globals { out: g }), calls.contains(Call::GetObject { obj: g, key: "Array"@, out: Some(a) }), calls.contains(Call::GetFunction { obj: a, key: "isArray"@, out: Some(f) })]
            calls.contains(Call::Globals { out: g }) && calls.contains(
                Call::GetObject { obj: g, key: "Array"@, out: Some(a) },
            ) && calls.contains(Call::GetFunction { obj: a, key: "isArray"@, out: Some(f) })
                && calls.contains(Call::Call1Truthy { f, a: value, out: Some(is_array) }),
        Event::Length { array, length } => exists|o: Object<'js>, n: u32|
            #![trigger calls.contains(Call::ObjectFromValue { value: array, out: Some(o) }), calls.contains(Call::GetLength { obj: o, out: Some(n) })]
            n == length && calls.contains(Call::ObjectFromValue { value: array, out: Some(o) })
                && calls.contains(Call::GetLength { obj: o, out: Some(n) }),
        Event::Slot { array, index, element } => exists|o: Object<'js>, i: u32|
            #![trigger calls.contains(Call::ObjectFromValue { value: array, out: Some(o) }), calls.contains(Call::HasIndex { obj: o, index: i, out: Some(element is Some) })]
            i == index && calls.contains(Call::ObjectFromValue { value: array, out: Some(o) })
                && calls.contains(Call::HasIndex { obj: o, index: i, out: Some(element is Some) })
                && (element is Some ==> calls.contains(
                Call::GetIndex { obj: o, index: i, out: element },
            )),
        Event::Filter { stage, item, ctx, keep } => calls.contains(
            Call::Call2Truthy { f: stage, a: item, b: ctx, out: Some(keep) },
        ),
        Event::Mapped { stage, item, ctx, out } => calls.contains(
            Call::Call2 { f: stage, a: item, b: ctx, out: Some(out) },
        ),
        Event::Build { items, out } => exists|a: Array<'js>|
            #![trigger calls.contains(Call::ArrayNew { out: Some(a) })]
            calls.contains(Call::ArrayNew { out: Some(a) }) && calls.contains(
                Call::ArrayIntoValue { array: a, out },
            ) && forall|k: int|
                0 <= k < items.len() ==> #[trigger] calls.contains(Call::ArraySet { array: a, index: k as usize, value: items[k], ok: true },
                ),
        Event::Null { out } => calls.contains(Call::NullValue { out }),
        Event::After { stage, arg, out } => calls.contains(
            Call::Call1 { f: stage, a: arg, out: Some(out) },
        ),
        Event::Written { via, arg, text } => calls.contains(
            Call::CallToString { f: via, a: arg, out: Some(text) },
        ),
        Event::Failed { .. } => true,
    }
}

/// Every step of `log` is backed by the calls in `calls`.
pub open spec fn backed<'js>(log: Seq<Event<Value<'js>, Function<'js>>>, calls: Seq<Call<'js>>) -> bool {
    forall|i: int| 0 <= i < log.len() ==> recorded_step(#[trigger] log[i], calls)
}

/// The calls that build an array holding `items` as the value `out`: a new
/// array `a`, then each item stored at its index, in order, then `a` as a
/// value.
pub open spec fn build_calls<'js>(a: Array<'js>, items: Seq<Value<'js>>, out: Value<'js>) -> Seq<Call<'js>> {
    seq![Call::ArrayNew { out: Some(a) }] + Seq::new(
        items.len(),
        |k: int| Call::ArraySet { array: a, index: k as usize, value: items[k], ok: true },
    ) + seq![Call::ArrayIntoValue { array: a, out }]
}

/// An entry found in a log is still found once the log has grown.
pub proof fn lemma_contains_grows<T>(a: Seq<T>, b: Seq<T>, x: T)
    requires
        grows_into(a, b),
        a.contains(x),
    ensures
        b.contains(x),
{
    let i = choose|i: int| 0 <= i < a.len() && a[i] == x;
    assert(b[i] == x);
}

/// An entry of a log is found in it.
proof fn lemma_contains_at<T>(a: Seq<T>, i: int)
    requires
        0 <= i < a.len(),
    ensures
        a.contains(a[i]),
{
}

/// A step backed by some calls stays backed once more calls are made.
proof fn lemma_recorded_grows<'js>(e: Event<Value<'js>, Function<'js>>, a: Seq<Call<'js>>, b: Seq<Call<'js>>)
    requires
        recorded_step(e, a),
        grows_into(a, b),
    ensures
        recorded_step(e, b),
{
    match e {
        Event::Compiled { source } => {
            lemma_contains_grows(a, b, Call::Declare { source, ok: true });
        },
        Event::JsonFunction { name, function } => {
            let (g, j) = choose|g: Object<'js>, j: Object<'js>|
                a.contains(Call::Globals { out: g }) && a.contains(
                    Call::GetObject { obj: g, key: "JSON"@, out: Some(j) },
                ) && a.contains(Call::GetFunction { obj: j, key: name, out: Some(function) });
            lemma_contains_grows(a, b, Call::Globals { out: g });
            lemma_contains_grows(a, b, Call::GetObject { obj: g, key: "JSON"@, out: Some(j) });
            lemma_contains_grows(a, b, Call::GetFunction { obj: j, key: name, out: Some(function) });
        },
        Event::Parsed { via, text, out } => {
            lemma_contains_grows(a, b, Call::CallText { f: via, text, out: Some(out) });
        },
        Event::Exported { name, found } => {
            let (ns, v) = choose|ns: Object<'js>, v: Value<'js>|
                a.contains(Call::Namespace { out: Some(ns) }) && a.contains(
                    Call::GetValue { obj: ns, key: name, out: Some(v) },
                ) && a.contains(Call::IntoFunction { value: v, out: found });
            lemma_contains_grows(a, b, Call::Namespace { out: Some(ns) });
            lemma_contains_grows(a, b, Call::GetValue { obj: ns, key: name, out: Some(v) });
            lemma_contains_grows(a, b, Call::IntoFunction { value: v, out: found });
        },
        Event::Fresh { out } => {
            let o = choose|o: Object<'js>|
                a.contains(Call::ObjectNew { out: Some(o) }) && a.contains(
                    Call::ObjectIntoValue { obj: o, out },
                );
            lemma_contains_grows(a, b, Call::ObjectNew { out: Some(o) });
            lemma_contains_grows(a, b, Call::ObjectIntoValue { obj: o, out });
        },
        Event::Before { stage, out } => {
            lemma_contains_grows(a, b, Call::Call0 { f: stage, out: Some(out) });
        },
        Event::Checked { value, is_array } => {
            let (g, ar, f) = choose|g: Object<'js>, ar: Object<'js>, f: Function<'js>|
                a.contains(Call::Globals { out: g }) && a.contains(
                    Call::GetObject { obj: g, key: "Array"@, out: Some(ar) },
                ) && a.contains(Call::GetFunction { obj: ar, key: "isArray"@, out: Some(f) })
                    && a.contains(Call::Call1Truthy { f, a: value, out: Some(is_array) });
            lemma_contains_grows(a, b, Call::Globals { out: g });
            lemma_contains_grows(a, b, Call::GetObject { obj: g, key: "Array"@, out: Some(ar) });
            lemma_contains_grows(a, b, Call::GetFunction { obj: ar, key: "isArray"@, out: Some(f) });
            lemma_contains_grows(a, b, Call::Call1Truthy { f, a: value, out: Some(is_array) });
        },
        Event::Length { array, length } => {
            let (o, n) = choose|o: Object<'js>, n: u32|
                n == length && a.contains(Call::ObjectFromValue { value: array, out: Some(o) })
                    && a.contains(Call::GetLength { obj: o, out: Some(n) });
            lemma_contains_grows(a, b, Call::ObjectFromValue { value: array, out: Some(o) });
            lemma_contains_grows(a, b, Call::GetLength { obj: o, out: Some(n) });
        },
        Event::Slot { array, index, element } => {
            let (o, i) = choose|o: Object<'js>, i: u32|
                #![trigger a.contains(Call::ObjectFromValue { value: array, out: Some(o) }), a.contains(Call::HasIndex { obj: o, index: i, out: Some(element is Some) })]
                i == index && a.contains(Call::ObjectFromValue { value: array, out: Some(o) })
                    && a.contains(Call::HasIndex { obj: o, index: i, out: Some(element is Some) })
                    && (element is Some ==> a.contains(
                    Call::GetIndex { obj: o, index: i, out: element },
                ));
            lemma_contains_grows(a, b, Call::ObjectFromValue { value: array, out: Some(o) });
            lemma_contains_grows(a, b, Call::HasIndex { obj: o, index: i, out: Some(element is Some) });
            if element is Some {
                lemma_contains_grows(a, b, Call::GetIndex { obj: o, index: i, out: element });
            }
        },
        Event::Filter { stage, item, ctx, keep } => {
            lemma_contains_grows(a, b, Call::Call2Truthy { f: stage, a: item, b: ctx, out: Some(keep) });
        },
        Event::Mapped { stage, item, ctx, out } => {
            lemma_contains_grows(a, b, Call::Call2 { f: stage, a: item, b: ctx, out: Some(out) });
        },
        Event::Build { items, out } => {
            let arr = choose|arr: Array<'js>|
                a.contains(Call::ArrayNew { out: Some(arr) }) && a.contains(
                    Call::ArrayIntoValue { array: arr, out },
                ) && forall|k: int|
                    0 <= k < items.len() ==> #[trigger] a.contains(Call::ArraySet { array: arr, index: k as usize, value: items[k], ok: true },
                    );
            lemma_contains_grows(a, b, Call::ArrayNew { out: Some(arr) });
            lemma_contains_grows(a, b, Call::ArrayIntoValue { array: arr, out });
            assert forall|k: int| 0 <= k < items.len() implies #[trigger] b.contains(Call::ArraySet { array: arr, index: k as usize, value: items[k], ok: true },
            ) by {
                lemma_contains_grows(
                    a,
                    b,
                    Call::ArraySet { array: arr, index: k as usize, value: items[k], ok: true },
                );
            }
        },
        Event::Null { out } => {
            lemma_contains_grows(a, b, Call::NullValue { out });
        },
        Event::After { stage, arg, out } => {
            lemma_contains_grows(a, b, Call::Call1 { f: stage, a: arg, out: Some(out) });
        },
        Event::Written { via, arg, text } => {
            lemma_contains_grows(a, b, Call::CallToString { f: via, a: arg, out: Some(text) });
        },
        Event::Failed { .. } => {},
    }
}

/// Steps backed by some calls stay backed once more calls are made.
proof fn lemma_backed_grows<'js>(log: Seq<Event<Value<'js>, Function<'js>>>, a: Seq<Call<'js>>, b: Seq<Call<'js>>)
    requires
        backed(log, a),
        grows_into(a, b),
    ensures
        backed(log, b),
{
    assert forall|i: int| 0 <= i < log.len() implies recorded_step(#[trigger] log[i], b) by {
        lemma_recorded_grows(log[i], a, b);
    }
}

/// A context together with the record of the pipeline steps taken in it and
/// the log of the engine calls made in it.
pub struct Session<'js> {
    ctx: Ctx<'js>,
    log: Ghost<Seq<Event<Value<'js>, Function<'js>>>>,
    calls: Calls<'js>,
}

/// An array-like value opened for a walk over its indices: the object it
/// was read as, the value it came from, and the `length` read from it.
pub struct Walk<'js> {
    obj: Object<'js>,
    source: Ghost<Value<'js>>,
    length: u32,
}

impl<'js> Walk<'js> {
    /// The value that was opened.
    pub closed spec fn array(&self) -> Value<'js> {
        self.source@
    }

    /// The `length` read when it was opened.
    pub closed spec fn length(&self) -> u32 {
        self.length
    }

    /// The `length` read when it was opened.
    pub fn len(&self) -> (n: u32)
        ensures
            n == self.length(),
    {
        self.length
    }
}

impl<'js> Session<'js> {
    /// The steps taken so far, oldest first.
    pub closed spec fn trace(&self) -> Seq<Event<Value<'js>, Function<'js>>> {
        self.log@
    }

    /// The engine calls made so far, oldest first.
    pub closed spec fn calls(&self) -> Seq<Call<'js>> {
        self.calls.records()
    }

    /// Every step of the trace is backed by the engine calls made.
    pub closed spec fn sound(&self) -> bool {
        backed(self.log@, self.calls.records())
    }

    /// The calls of `earlier` are the first calls of `self`.
    pub open spec fn grown_from(&self, earlier: &Session<'js>) -> bool {
        grows_into(earlier.calls(), self.calls())
    }

    /// `w` was opened in this session: its object is what the engine made of
    /// the value opened.
    pub closed spec fn opened(&self, w: &Walk<'js>) -> bool {
        self.calls.records().contains(Call::ObjectFromValue { value: w.source@, out: Some(w.obj) })
    }

    /// A walk opened in a session stays opened as the session goes on.
    pub proof fn lemma_still_opened(earlier: &Session<'js>, later: &Session<'js>, w: &Walk<'js>)
        requires
            earlier.opened(w),
            later.grown_from(earlier),
        ensures
            later.opened(w),
    {
        lemma_contains_grows(
            earlier.calls.records(),
            later.calls.records(),
            Call::ObjectFromValue { value: w.source@, out: Some(w.obj) },
        );
    }

    /// A session with no steps taken yet.
    pub fn new(ctx: Ctx<'js>) -> (s: Self)
        ensures
            s.trace() == Seq::<Event<Value<'js>, Function<'js>>>::empty(),
            s.sound(),
    {
        Session { ctx, log: Ghost(Seq::empty()), calls: Calls { records: Ghost(Seq::empty()) } }
    }

    /// Adds the step `e` to the trace, backed by the calls made since `start`.
    fn note(&mut self, e: Ghost<Event<Value<'js>, Function<'js>>>, start: Ghost<Seq<Call<'js>>>)
        ensures
            final(self).log@ == old(self).log@.push(e@),
            final(self).calls.records() == old(self).calls.records(),
            backed(old(self).log@, start@) && grows_into(start@, old(self).calls.records())
                && recorded_step(e@, old(self).calls.records()) ==> final(self).sound(),
    {
        proof {
            let next = self.log@.push(e@);
            if backed(self.log@, start@) && grows_into(start@, self.calls.records())
                && recorded_step(e@, self.calls.records()) {
                lemma_backed_grows(self.log@, start@, self.calls.records());
                assert forall|i: int| 0 <= i < next.len() implies recorded_step(
                    #[trigger] next[i],
                    self.calls.records(),
                ) by {
                    if i < self.log@.len() {
                        assert(next[i] == self.log@[i]);
                    }
                }
            }
            self.log@ = next;
        }
    }

    /// Records that a step of phase `p` failed.
    fn fail(&mut self, p: i8, start: Ghost<Seq<Call<'js>>>)
        ensures
            final(self).trace() == old(self).trace().push(Event::Failed { phase: p as int }),
            final(self).calls.records() == old(self).calls.records(),
            backed(old(self).log@, start@) && grows_into(start@, old(self).calls.records())
                ==> final(self).sound(),
    {
        self.note(Ghost(Event::Failed { phase: p as int }), start);
    }

    /// Reads the engine's global `JSON.parse` and `JSON.stringify`, as they
    /// stand now (a script may have replaced them).
    pub(crate) fn json_functions(&mut self) -> (r: Result<(Function<'js>, Function<'js>), Error>)
        ensures
            old(self).sound() ==> final(self).sound(),
            final(self).grown_from(old(self)),
            r matches Ok((parse, stringify)) ==> final(self).trace() == old(self).trace().push(
                Event::JsonFunction { name: "parse"@, function: parse },
            ).push(Event::JsonFunction { name: "stringify"@, function: stringify }),
            r is Err ==> final(self).trace() == old(self).trace().push(
                Event::Failed { phase: -2 },
            ),
    {
        let ghost c0 = self.calls.records();
        let global = globals(&mut self.calls, &self.ctx);
        let json = match get_object(&mut self.calls, &global, "JSON") {
            Ok(o) => o,
            Err(e) => {
                self.fail(-2, Ghost(c0));
                return Err(e);
            },
        };
        let parse = match get_function(&mut self.calls, &json, "parse") {
            Ok(f) => f,
            Err(e) => {
                self.fail(-2, Ghost(c0));
                return Err(e);
            },
        };
        match get_function(&mut self.calls, &json, "stringify") {
            Ok(stringify) => {
                let ghost cs = self.calls.records();
                proof {
                    let n = c0.len() as int;
                    lemma_contains_at(cs, n);
                    lemma_contains_at(cs, n + 1);
                    lemma_contains_at(cs, n + 2);
                    lemma_contains_at(cs, n + 3);
                    assert(cs[n] == Call::Globals { out: global });
                    assert(cs[n + 1] == Call::GetObject { obj: global, key: "JSON"@, out: Some(json) });
                    assert(cs[n + 2] == Call::GetFunction { obj: json, key: "parse"@, out: Some(parse) });
                    assert(cs[n + 3] == Call::GetFunction { obj: json, key: "stringify"@, out: Some(stringify) });
                }
                self.note(Ghost(Event::JsonFunction { name: "parse"@, function: parse }), Ghost(c0));
                self.note(
                    Ghost(Event::JsonFunction { name: "stringify"@, function: stringify }),
                    Ghost(cs),
                );
                Ok((parse, stringify))
            },
            Err(e) => {
                self.fail(-2, Ghost(c0));
                Err(e)
            },
        }
    }

    /// Compiles `source` as the module `transform`, runs its top-level code
    /// and returns its exports.
    pub(crate) fn compile(&mut self, source: &str) -> (r: Result<Object<'js>, Error>)
        ensures
            old(self).sound() ==> final(self).sound(),
            final(self).grown_from(old(self)),
            r is Ok ==> final(self).trace() == old(self).trace().push(
                Event::Compiled { source: source@ },
            ),
            r matches Ok(ns) ==> final(self).calls().contains(Call::Namespace { out: Some(ns) }),
            r is Err ==> final(self).trace() == old(self).trace().push(
                Event::Failed { phase: -3 },
            ),
    {
        let ghost c0 = self.calls.records();
        let declared = match declare_module(&mut self.calls, &self.ctx, "transform", source) {
            Ok(m) => m,
            Err(e) => {
                self.fail(-3, Ghost(c0));
                return Err(e);
            },
        };
        let (module, _done) = match eval_module(&mut self.calls, declared) {
            Ok(p) => p,
            Err(e) => {
                self.fail(-3, Ghost(c0));
                return Err(e);
            },
        };
        match module_namespace(&mut self.calls, &module) {
            Ok(ns) => {
                let ghost cs = self.calls.records();
                proof {
                    let n = c0.len() as int;
                    lemma_contains_at(cs, n);
                    lemma_contains_at(cs, n + 2);
                    assert(cs[n] == Call::Declare { source: source@, ok: true });
                    assert(cs[n + 2] == Call::Namespace { out: Some(ns) });
                }
                self.note(Ghost(Event::Compiled { source: source@ }), Ghost(c0));
                Ok(ns)
            },
            Err(e) => {
                self.fail(-3, Ghost(c0));
                Err(e)
            },
        }
    }

    /// Hands `text` to `parse` (the engine's `JSON.parse`).
    pub(crate) fn parse_input(&mut self, parse: &Function<'js>, text: &str) -> (r: Result<
        Value<'js>,
        Error,
    >)
        ensures
            old(self).sound() ==> final(self).sound(),
            final(self).calls() == old(self).calls().push(
                Call::CallText { f: *parse, text: text@, out: ok_value(r) },
            ),
            r matches Ok(v) ==> final(self).trace() == old(self).trace().push(
                Event::Parsed { via: *parse, text: text@, out: v },
            ),
            r is Err ==> final(self).trace() == old(self).trace().push(
                Event::Failed { phase: -2 },
            ),
    {
        let ghost c0 = self.calls.records();
        match call_text(&mut self.calls, parse, text) {
            Ok(v) => {
                proof {
                    lemma_contains_at(self.calls.records(), c0.len() as int);
                }
                self.note(Ghost(Event::Parsed { via: *parse, text: text@, out: v }), Ghost(c0));
                Ok(v)
            },
            Err(e) => {
                self.fail(-2, Ghost(c0));
                Err(e)
            },
        }
    }

    /// Looks up the export `name` and keeps it when it is a function.
    pub(crate) fn export(&mut self, exports: &Object<'js>, name: &str) -> (r: Result<
        Option<Function<'js>>,
        Error,
    >)
        ensures
            old(self).sound() && old(self).calls().contains(Call::Namespace { out: Some(*exports) })
                ==> final(self).sound(),
            final(self).grown_from(old(self)),
            r matches Ok(f) ==> final(self).trace() == old(self).trace().push(
                Event::Exported { name: name@, found: f },
            ),
            r is Err ==> final(self).trace() == old(self).trace().push(
                Event::Failed { phase: -1 },
            ),
    {
        let ghost c0 = self.calls.records();
        match get_value(&mut self.calls, exports, name) {
            Ok(v) => {
                let ghost v0 = v;
                let f = into_function(&mut self.calls, v);
                let ghost cs = self.calls.records();
                proof {
                    let n = c0.len() as int;
                    if c0.contains(Call::Namespace { out: Some(*exports) }) {
                        lemma_contains_grows(c0, cs, Call::Namespace { out: Some(*exports) });
                    }
                    lemma_contains_at(cs, n);
                    lemma_contains_at(cs, n + 1);
                    assert(cs[n] == Call::GetValue { obj: *exports, key: name@, out: Some(v0) });
                    assert(cs[n + 1] == Call::IntoFunction { value: v0, out: f });
                }
                self.note(Ghost(Event::Exported { name: name@, found: f }), Ghost(c0));
                Ok(f)
            },
            Err(e) => {
                self.fail(-1, Ghost(c0));
                Err(e)
            },
        }
    }

    /// Makes a fresh empty object to serve as the context.
    pub(crate) fn fresh(&mut self) -> (r: Result<Value<'js>, Error>)
        ensures
            old(self).sound() ==> final(self).sound(),
            final(self).grown_from(old(self)),
            r matches Ok(v) ==> final(self).trace() == old(self).trace().push(
                Event::Fresh { out: v },
            ),
            r is Err ==> final(self).trace() == old(self).trace().push(
                Event::Failed { phase: 0 },
            ),
    {
        let ghost c0 = self.calls.records();
        match object_new(&mut self.calls, &self.ctx) {
            Ok(o) => {
                let ghost o0 = o;
                let v = object_into_value(&mut self.calls, o);
                let ghost cs = self.calls.records();
                proof {
                    let n = c0.len() as int;
                    lemma_contains_at(cs, n);
                    lemma_contains_at(cs, n + 1);
                    assert(cs[n] == Call::ObjectNew { out: Some(o0) });
                    assert(cs[n + 1] == Call::ObjectIntoValue { obj: o0, out: v });
                }
                self.note(Ghost(Event::Fresh { out: v }), Ghost(c0));
                Ok(v)
            },
            Err(e) => {
                self.fail(0, Ghost(c0));
                Err(e)
            },
        }
    }

    /// Calls the script's `before_transform()`.
    pub(crate) fn call_before(&mut self, st: &Stages<Function<'js>>) -> (r: Result<
        Value<'js>,
        Error,
    >)
        requires
            st.before is Some,
        ensures
            old(self).sound() ==> final(self).sound(),
            final(self).calls() == old(self).calls().push(
                Call::Call0 { f: st.before->0, out: ok_value(r) },
            ),
            r matches Ok(v) ==> final(self).trace() == old(self).trace().push(
                Event::Before { stage: st.before->0, out: v },
            ),
            r is Err ==> final(self).trace() == old(self).trace().push(
                Event::Failed { phase: 0 },
            ),
    {
        let ghost c0 = self.calls.records();
        let f = st.before.as_ref().unwrap();
        match call0(&mut self.calls, f) {
            Ok(v) => {
                proof {
                    lemma_contains_at(self.calls.records(), c0.len() as int);
                }
                self.note(Ghost(Event::Before { stage: *f, out: v }), Ghost(c0));
                Ok(v)
            },
            Err(e) => {
                self.fail(0, Ghost(c0));
                Err(e)
            },
        }
    }

    /// Asks the engine's global `Array.isArray` whether `v` is an array.
    pub(crate) fn check_array(&mut self, v: &Value<'js>) -> (r: Result<bool, Error>)
        ensures
            old(self).sound() ==> final(self).sound(),
            final(self).grown_from(old(self)),
            r matches Ok(b) ==> exists|g: Object<'js>, a: Object<'js>, f: Function<'js>|
                final(self).calls() == old(self).calls() + seq![
                    Call::Globals { out: g },
                    Call::GetObject { obj: g, key: "Array"@, out: Some(a) },
                    Call::GetFunction { obj: a, key: "isArray"@, out: Some(f) },
                    Call::Call1Truthy { f, a: *v, out: Some(b) },
                ],
            r matches Ok(b) ==> final(self).trace() == old(self).trace().push(
                Event::Checked { value: *v, is_array: b },
            ),
            r is Err ==> final(self).trace() == old(self).trace().push(
                Event::Failed { phase: 1 },
            ),
    {
        let ghost c0 = self.calls.records();
        let global = globals(&mut self.calls, &self.ctx);
        let array = match get_object(&mut self.calls, &global, "Array") {
            Ok(o) => o,
            Err(e) => {
                self.fail(1, Ghost(c0));
                return Err(e);
            },
        };
        let is_array = match get_function(&mut self.calls, &array, "isArray") {
            Ok(f) => f,
            Err(e) => {
                self.fail(1, Ghost(c0));
                return Err(e);
            },
        };
        match call1_truthy(&mut self.calls, &is_array, v) {
            Ok(b) => {
                let ghost cs = self.calls.records();
                proof {
                    let n = c0.len() as int;
                    lemma_contains_at(cs, n);
                    lemma_contains_at(cs, n + 1);
                    lemma_contains_at(cs, n + 2);
                    lemma_contains_at(cs, n + 3);
                    assert(cs[n] == Call::Globals { out: global });
                    assert(cs[n + 1] == Call::GetObject { obj: global, key: "Array"@, out: Some(array) });
                    assert(cs[n + 2] == Call::GetFunction { obj: array, key: "isArray"@, out: Some(is_array) });
                    assert(cs[n + 3] == Call::Call1Truthy { f: is_array, a: *v, out: Some(b) });
                    assert(cs == c0 + seq![
                        Call::Globals { out: global },
                        Call::GetObject { obj: global, key: "Array"@, out: Some(array) },
                        Call::GetFunction { obj: array, key: "isArray"@, out: Some(is_array) },
                        Call::Call1Truthy { f: is_array, a: *v, out: Some(b) },
                    ]);
                }
                self.note(Ghost(Event::Checked { value: *v, is_array: b }), Ghost(c0));
                Ok(b)
            },
            Err(e) => {
                self.fail(1, Ghost(c0));
                Err(e)
            },
        }
    }

    /// Opens `v` for a walk over its indices: reads it as an object and reads
    /// its `length`, once.
    pub(crate) fn open_array(&mut self, v: Value<'js>) -> (r: Result<Walk<'js>, Error>)
        ensures
            old(self).sound() ==> final(self).sound(),
            final(self).grown_from(old(self)),
            r matches Ok(w) ==> {
                &&& w.array() == v
                &&& final(self).opened(&w)
                &&& final(self).trace() == old(self).trace().push(
                    Event::Length { array: v, length: w.length() as int },
                )
            },
            r is Err ==> final(self).trace() == old(self).trace().push(
                Event::Failed { phase: 2 },
            ),
    {
        let ghost c0 = self.calls.records();
        let ghost v0 = v;
        let obj = match object_from_value(&mut self.calls, v) {
            Ok(o) => o,
            Err(e) => {
                self.fail(2, Ghost(c0));
                return Err(e);
            },
        };
        match get_length(&mut self.calls, &obj) {
            Ok(n) => {
                let ghost cs = self.calls.records();
                proof {
                    let k = c0.len() as int;
                    lemma_contains_at(cs, k);
                    lemma_contains_at(cs, k + 1);
                    assert(cs[k] == Call::ObjectFromValue { value: v0, out: Some(obj) });
                    assert(cs[k + 1] == Call::GetLength { obj, out: Some(n) });
                }
                self.note(Ghost(Event::Length { array: v0, length: n as int }), Ghost(c0));
                Ok(Walk { obj, source: Ghost(v0), length: n })
            },
            Err(e) => {
                self.fail(2, Ghost(c0));
                Err(e)
            },
        }
    }

    /// Looks up the index `i` of the opened value (`HasProperty`) and reads
    /// the element there when it is present.
    pub(crate) fn slot(&mut self, w: &Walk<'js>, i: u32) -> (r: Result<Option<Value<'js>>, Error>)
        ensures
            old(self).sound() && old(self).opened(w) ==> final(self).sound(),
            final(self).grown_from(old(self)),
            r matches Ok(item) ==> final(self).trace() == old(self).trace().push(
                Event::Slot { array: w.array(), index: i as int, element: item },
            ),
            r is Err ==> final(self).trace() == old(self).trace().push(
                Event::Failed { phase: 2 },
            ),
    {
        let ghost c0 = self.calls.records();
        let ghost opened = Call::ObjectFromValue { value: w.source@, out: Some(w.obj) };
        match has_index(&mut self.calls, &w.obj, i) {
            Ok(true) => match get_index(&mut self.calls, &w.obj, i) {
                Ok(x) => {
                    let ghost cs = self.calls.records();
                    proof {
                        let n = c0.len() as int;
                        if c0.contains(opened) {
                        lemma_contains_grows(c0, cs, opened);
                    }
                        lemma_contains_at(cs, n);
                        lemma_contains_at(cs, n + 1);
                        assert(cs[n] == Call::HasIndex { obj: w.obj, index: i, out: Some(true) });
                        assert(cs[n + 1] == Call::GetIndex { obj: w.obj, index: i, out: Some(x) });
                    }
                    self.note(
                        Ghost(Event::Slot { array: w.source@, index: i as int, element: Some(x) }),
                        Ghost(c0),
                    );
                    Ok(Some(x))
                },
                Err(e) => {
                    self.fail(2, Ghost(c0));
                    Err(e)
                },
            },
            Ok(false) => {
                let ghost cs = self.calls.records();
                proof {
                    if c0.contains(opened) {
                        lemma_contains_grows(c0, cs, opened);
                    }
                    lemma_contains_at(cs, c0.len() as int);
                    assert(cs[c0.len() as int] == Call::HasIndex { obj: w.obj, index: i, out: Some(false) });
                }
                self.note(
                    Ghost(Event::Slot { array: w.source@, index: i as int, element: None }),
                    Ghost(c0),
                );
                Ok(None)
            },
            Err(e) => {
                self.fail(2, Ghost(c0));
                Err(e)
            },
        }
    }

    /// Calls the script's `try_filter(item, ctx)` and takes the truthiness of
    /// its result.
    pub(crate) fn test_item(
        &mut self,
        st: &Stages<Function<'js>>,
        item: &Value<'js>,
        ctx: &Value<'js>,
    ) -> (r: Result<bool, Error>)
        requires
            st.filter is Some,
        ensures
            old(self).sound() ==> final(self).sound(),
            final(self).calls() == old(self).calls().push(
                Call::Call2Truthy { f: st.filter->0, a: *item, b: *ctx, out: ok_value(r) },
            ),
            r matches Ok(keep) ==> final(self).trace() == old(self).trace().push(
                Event::Filter { stage: st.filter->0, item: *item, ctx: *ctx, keep },
            ),
            r is Err ==> final(self).trace() == old(self).trace().push(
                Event::Failed { phase: 2 },
            ),
    {
        let ghost c0 = self.calls.records();
        let f = st.filter.as_ref().unwrap();
        match call2_truthy(&mut self.calls, f, item, ctx) {
            Ok(keep) => {
                proof {
                    lemma_contains_at(self.calls.records(), c0.len() as int);
                }
                self.note(
                    Ghost(Event::Filter { stage: *f, item: *item, ctx: *ctx, keep }),
                    Ghost(c0),
                );
                Ok(keep)
            },
            Err(e) => {
                self.fail(2, Ghost(c0));
                Err(e)
            },
        }
    }

    /// Calls the script's `try_map(item, ctx)`.
    pub(crate) fn map_item(
        &mut self,
        st: &Stages<Function<'js>>,
        item: &Value<'js>,
        ctx: &Value<'js>,
    ) -> (r: Result<Value<'js>, Error>)
        requires
            st.map is Some,
        ensures
            old(self).sound() ==> final(self).sound(),
            final(self).calls() == old(self).calls().push(
                Call::Call2 { f: st.map->0, a: *item, b: *ctx, out: ok_value(r) },
            ),
            r matches Ok(out) ==> final(self).trace() == old(self).trace().push(
                Event::Mapped { stage: st.map->0, item: *item, ctx: *ctx, out },
            ),
            r is Err ==> final(self).trace() == old(self).trace().push(
                Event::Failed { phase: 3 },
            ),
    {
        let ghost c0 = self.calls.records();
        let f = st.map.as_ref().unwrap();
        match call2(&mut self.calls, f, item, ctx) {
            Ok(out) => {
                proof {
                    lemma_contains_at(self.calls.records(), c0.len() as int);
                }
                self.note(
                    Ghost(Event::Mapped { stage: *f, item: *item, ctx: *ctx, out }),
                    Ghost(c0),
                );
                Ok(out)
            },
            Err(e) => {
                self.fail(3, Ghost(c0));
                Err(e)
            },
        }
    }

    /// Makes a new array that holds `items`, in order.
    pub(crate) fn build(&mut self, items: Vec<Value<'js>>) -> (r: Result<Value<'js>, Error>)
        ensures
            old(self).sound() ==> final(self).sound(),
            final(self).grown_from(old(self)),
            r matches Ok(out) ==> exists|a: Array<'js>|
                final(self).calls() == old(self).calls() + build_calls(a, items@, out),
            r matches Ok(out) ==> final(self).trace() == old(self).trace().push(
                Event::Build { items: items@, out },
            ),
            r is Err ==> final(self).trace() == old(self).trace().push(
                Event::Failed { phase: 4 },
            ),
    {
        let ghost all = items@;
        let ghost c0 = self.calls.records();
        let arr = match array_new(&mut self.calls, &self.ctx) {
            Ok(a) => a,
            Err(e) => {
                self.fail(4, Ghost(c0));
                return Err(e);
            },
        };
        let ghost head = seq![Call::ArrayNew { out: Some(arr) }];
        let n: usize = items.len();
        let mut i: usize = 0;
        for x in it: items.into_iter()
            invariant
                n == all.len(),
                it.seq() == all,
                i == it.index(),
                i <= all.len(),
                c0 == old(self).calls.records(),
                self.log@ == old(self).log@,
                head == seq![Call::ArrayNew { out: Some(arr) }],
                self.calls.records() == c0 + head + Seq::new(
                    i as nat,
                    |k: int| Call::ArraySet { array: arr, index: k as usize, value: all[k], ok: true },
                ),
        {
            let ghost before = self.calls.records();
            let ghost x0 = x;
            match array_set(&mut self.calls, &arr, i, x) {
                Ok(()) => {},
                Err(e) => {
                    self.fail(4, Ghost(c0));
                    return Err(e);
                },
            }
            proof {
                assert(x0 == all[i as int]);
                assert(self.calls.records() =~= c0 + head + Seq::new(
                    (i + 1) as nat,
                    |k: int| Call::ArraySet { array: arr, index: k as usize, value: all[k], ok: true },
                ));
            }
            i = i + 1;
        }
        let ghost arr0 = arr;
        let out = array_into_value(&mut self.calls, arr);
        let ghost cs = self.calls.records();
        proof {
            assert(cs =~= c0 + build_calls(arr0, all, out));
            let m = c0.len() as int;
            lemma_contains_at(cs, m);
            lemma_contains_at(cs, m + 1 + all.len());
            assert(cs[m] == Call::ArrayNew { out: Some(arr0) });
            assert(cs[m + 1 + all.len()] == Call::ArrayIntoValue { array: arr0, out });
            assert forall|k: int| 0 <= k < all.len() implies #[trigger] cs.contains(Call::ArraySet { array: arr0, index: k as usize, value: all[k], ok: true },
            ) by {
                lemma_contains_at(cs, m + 1 + k);
                assert(cs[m + 1 + k] == Call::ArraySet {
                    array: arr0,
                    index: k as usize,
                    value: all[k],
                    ok: true,
                });
            }
        }
        self.note(Ghost(Event::Build { items: all, out }), Ghost(c0));
        Ok(out)
    }

    /// Makes the value `null`.
    pub(crate) fn null(&mut self) -> (out: Value<'js>)
        ensures
            old(self).sound() ==> final(self).sound(),
            final(self).grown_from(old(self)),
            final(self).trace() == old(self).trace().push(Event::Null { out }),
    {
        let ghost c0 = self.calls.records();
        let out = null_value(&mut self.calls, &self.ctx);
        proof {
            lemma_contains_at(self.calls.records(), c0.len() as int);
        }
        self.note(Ghost(Event::Null { out }), Ghost(c0));
        out
    }

    /// Calls the script's `after_transform(arg)`.
    pub(crate) fn call_after(&mut self, st: &Stages<Function<'js>>, arg: Value<'js>) -> (r: Result<
        Value<'js>,
        Error,
    >)
        requires
            st.after is Some,
        ensures
            old(self).sound() ==> final(self).sound(),
            final(self).calls() == old(self).calls().push(
                Call::Call1 { f: st.after->0, a: arg, out: ok_value(r) },
            ),
            r matches Ok(out) ==> final(self).trace() == old(self).trace().push(
                Event::After { stage: st.after->0, arg, out },
            ),
            r is Err ==> final(self).trace() == old(self).trace().push(
                Event::Failed { phase: 5 },
            ),
    {
        let ghost c0 = self.calls.records();
        let ghost a0 = arg;
        let f = st.after.as_ref().unwrap();
        match call1(&mut self.calls, f, arg) {
            Ok(out) => {
                proof {
                    lemma_contains_at(self.calls.records(), c0.len() as int);
                }
                self.note(Ghost(Event::After { stage: *f, arg: a0, out }), Ghost(c0));
                Ok(out)
            },
            Err(e) => {
                self.fail(5, Ghost(c0));
                Err(e)
            },
        }
    }

    /// Hands `v` to `stringify` (the engine's `JSON.stringify`) and reads the
    /// outcome as a string.
    pub(crate) fn write(&mut self, stringify: &Function<'js>, v: Value<'js>) -> (r: Result<
        String,
        Error,
    >)
        ensures
            old(self).sound() ==> final(self).sound(),
            final(self).calls() == old(self).calls().push(
                Call::CallToString { f: *stringify, a: v, out: ok_text(r) },
            ),
            r matches Ok(text) ==> final(self).trace() == old(self).trace().push(
                Event::Written { via: *stringify, arg: v, text: text@ },
            ),
            r is Err ==> final(self).trace() == old(self).trace().push(
                Event::Failed { phase: 6 },
            ),
    {
        let ghost c0 = self.calls.records();
        let ghost v0 = v;
        match call_to_string(&mut self.calls, stringify, v) {
            Ok(text) => {
                proof {
                    lemma_contains_at(self.calls.records(), c0.len() as int);
                }
                self.note(
                    Ghost(Event::Written { via: *stringify, arg: v0, text: text@ }),
                    Ghost(c0),
                );
                Ok(text)
            },
            Err(e) => {
                self.fail(6, Ghost(c0));
                Err(e)
            },
        }
    }
}

/// Every step that a sound session records is backed by the engine calls
/// made in it, as `recorded_step` says for each kind of step.
pub proof fn law_every_step_is_backed_by_the_engine<'js>(s: Session<'js>)
    requires
        s.sound(),
    ensures
        forall|i: int| 0 <= i < s.trace().len() ==> recorded_step(#[trigger] s.trace()[i], s.calls()),
{
}

/// A `try_map` step records as its output exactly what the engine returned
/// when that function was called on that item and that context: the item is
/// replaced by the map's result, whatever it is (falsy results included).
pub proof fn law_mapped_output_is_what_try_map_returned<'js>(s: Session<'js>, i: int)
    requires
        s.sound(),
        0 <= i < s.trace().len(),
    ensures
        s.trace()[i] matches Event::Mapped { stage, item, ctx, out } ==> s.calls().contains(
            Call::Call2 { f: stage, a: item, b: ctx, out: Some(out) },
        ),
{
    assert(recorded_step(s.trace()[i], s.calls()));
}

/// A `try_filter` step records as its verdict exactly the truthiness of what
/// the engine returned when that function was called on that item and that
/// context.
pub proof fn law_filter_verdict_is_what_try_filter_returned<'js>(s: Session<'js>, i: int)
    requires
        s.sound(),
        0 <= i < s.trace().len(),
    ensures
        s.trace()[i] matches Event::Filter { stage, item, ctx, keep } ==> s.calls().contains(
            Call::Call2Truthy { f: stage, a: item, b: ctx, out: Some(keep) },
        ),
{
    assert(recorded_step(s.trace()[i], s.calls()));
}

/// The array that a build step records holds its items in order: it was
/// made new, each item was stored at its own index, and it is the value
/// recorded. (`Session::build` makes exactly these calls and no others.)
pub proof fn law_built_array_holds_the_items_in_order<'js>(s: Session<'js>, i: int)
    requires
        s.sound(),
        0 <= i < s.trace().len(),
    ensures
        s.trace()[i] matches Event::Build { items, out } ==> exists|a: Array<'js>|
            #![trigger s.calls().contains(Call::ArrayNew { out: Some(a) })]
            s.calls().contains(Call::ArrayNew { out: Some(a) }) && s.calls().contains(
                Call::ArrayIntoValue { array: a, out },
            ) && forall|k: int|
                0 <= k < items.len() ==> #[trigger] s.calls().contains(
                    Call::ArraySet { array: a, index: k as usize, value: items[k], ok: true },
                ),
{
    assert(recorded_step(s.trace()[i], s.calls()));
}

/// The answer that an array test records is what the engine's global
/// `Array.isArray` returned (as a truth value) for the value tested.
pub proof fn law_array_test_is_what_array_is_array_returned<'js>(s: Session<'js>, i: int)
    requires
        s.sound(),
        0 <= i < s.trace().len(),
    ensures
        s.trace()[i] matches Event::Checked { value, is_array } ==> exists|
            g: Object<'js>,
            a: Object<'js>,
            f: Function<'js>,
        |
            #![trigger s.calls().contains(Call::Globals { out: g }), s.calls().contains(Call::GetObject { obj: g, key: "Array"@, out: Some(a) }), s.calls().contains(Call::GetFunction { obj: a, key: "isArray"@, out: Some(f) })]
            s.calls().contains(Call::Globals { out: g }) && s.calls().contains(
                Call::GetObject { obj: g, key: "Array"@, out: Some(a) },
            ) && s.calls().contains(Call::GetFunction { obj: a, key: "isArray"@, out: Some(f) })
                && s.calls().contains(Call::Call1Truthy { f, a: value, out: Some(is_array) }),
{
    assert(recorded_step(s.trace()[i], s.calls()));
}

/// The context that a `before_transform` step records is the very value the
/// engine returned when that function was called with no arguments.
pub proof fn law_context_is_what_before_transform_returned<'js>(s: Session<'js>, i: int)
    requires
        s.sound(),
        0 <= i < s.trace().len(),
    ensures
        s.trace()[i] matches Event::Before { stage, out } ==> s.calls().contains(
            Call::Call0 { f: stage, out: Some(out) },
        ),
{
    assert(recorded_step(s.trace()[i], s.calls()));
}

/// The text that a serialising step records is exactly the string that the
/// engine returned when the function was called on the value; and the
/// function recorded as `JSON.stringify` (or `JSON.parse`) is what the
/// engine's global `JSON` object held under that name.
pub proof fn law_written_text_is_what_stringify_returned<'js>(s: Session<'js>, i: int)
    requires
        s.sound(),
        0 <= i < s.trace().len(),
    ensures
        s.trace()[i] matches Event::Written { via, arg, text } ==> s.calls().contains(
            Call::CallToString { f: via, a: arg, out: Some(text) },
        ),
        s.trace()[i] matches Event::JsonFunction { name, function } ==> exists|
            g: Object<'js>,
            j: Object<'js>,
        |
            #![trigger s.calls().contains(Call::Globals { out: g }), s.calls().contains(Call::GetObject { obj: g, key: "JSON"@, out: Some(j) })]
            s.calls().contains(Call::Globals { out: g }) && s.calls().contains(
                Call::GetObject { obj: g, key: "JSON"@, out: Some(j) },
            ) && s.calls().contains(Call::GetFunction { obj: j, key: name, out: Some(function) }),
{
    assert(recorded_step(s.trace()[i], s.calls()));
}

} // verus!
