//! The embedded JavaScript engine (QuickJS, through `rquickjs`).
//!
//! Each item here makes one call into `rquickjs`. The engine's values are
//! opaque to the library: it carries them from one call to the next and
//! decides on the booleans, lengths and variants that the calls return.
//! Each call that touches the engine's values also adds to a ghost log
//! (`crate::session::Calls`) what it handed to the engine (the function, its
//! arguments, the object and the key or index) and what came back. The log
//! is the library's own bookkeeping: nothing of it exists when the program
//! runs, and the only claim made of the engine is that the call was made
//! with those arguments and returned that result.
//! What a script computes depends on the script (it may read the clock or
//! draw random numbers), so no call into a script has a result stated in
//! advance: the log only says what came back.
use vstd::prelude::*;
use rquickjs::module::{Declared, Evaluated};
use rquickjs::{Array, Coerced, Context, Ctx, Error, Function, Module, Object, Promise, Runtime, Value};

use crate::error::TransformError;
use crate::pipeline::{shaped, Outline};
use crate::session::{ok_text, ok_value, Call, Calls};

verus! {

#[verifier::external_type_specification]
#[verifier::external_body]
pub struct ExRuntime(Runtime);

#[verifier::external_type_specification]
#[verifier::external_body]
pub struct ExContext(Context);

#[verifier::external_type_specification]
#[verifier::external_body]
pub struct ExCtx<'js>(Ctx<'js>);

#[verifier::external_type_specification]
#[verifier::external_body]
pub struct ExValue<'js>(Value<'js>);

#[verifier::external_type_specification]
#[verifier::external_body]
pub struct ExFunction<'js>(Function<'js>);

#[verifier::external_type_specification]
#[verifier::external_body]
pub struct ExArray<'js>(Array<'js>);

#[verifier::external_type_specification]
#[verifier::external_body]
pub struct ExObject<'js>(Object<'js>);

#[verifier::external_type_specification]
#[verifier::external_body]
pub struct ExPromise<'js>(Promise<'js>);

#[verifier::external_type_specification]
#[verifier::external_body]
pub struct ExDeclared(Declared);

#[verifier::external_type_specification]
#[verifier::external_body]
pub struct ExEvaluated(Evaluated);

#[verifier::external_type_specification]
#[verifier::external_body]
#[verifier::reject_recursive_types(T)]
pub struct ExModule<'js, T>(Module<'js, T>);

#[verifier::external_type_specification]
#[verifier::external_body]
pub struct ExError(Error);

/// `Runtime::new`: a fresh QuickJS runtime (fails only when memory runs out).
#[verifier::external_body]
pub(crate) fn new_runtime() -> (r: Result<Runtime, Error>) {
    Runtime::new()
}

/// `Context::full`: a context with the full standard library of JavaScript.
#[verifier::external_body]
pub(crate) fn full_context(rt: &Runtime) -> (r: Result<Context, Error>) {
    Context::full(rt)
}

/// `Context::with`: enters the context and runs `crate::engine::run_session`
/// there. The closure only calls that verified function, so what its
/// contract states of its result holds of this one.
#[verifier::external_body]
pub(crate) fn run_in(context: &Context, json_text: &str, script: &str) -> (r: Result<
    (String, Ghost<Outline>),
    TransformError,
>)
    ensures
        r matches Ok((text, o)) ==> {
            &&& o@.source == script@
            &&& o@.input == json_text@
            &&& o@.output == text@
            &&& shaped(o@)
        },
        r matches Err(e) ==> e is ScriptFailed,
{
    context.with(|ctx| crate::engine::run_session(ctx, json_text, script))
}

/// `Module::declare`: compiles `source` as an ES module named `name`.
#[verifier::external_body]
pub(crate) fn declare_module<'js>(calls: &mut Calls<'js>, ctx: &Ctx<'js>, name: &str, source: &str) -> (r: Result<
    Module<'js, Declared>,
    Error,
>)
    ensures
        final(calls).records() == old(calls).records().push(Call::Declare { source: source@, ok: r is Ok }),
{
    Module::declare(ctx.clone(), name, source)
}

/// `Module::eval`: runs the module's top-level code.
#[verifier::external_body]
pub(crate) fn eval_module<'js>(calls: &mut Calls<'js>, module: Module<'js, Declared>) -> (r: Result<
    (Module<'js, Evaluated>, Promise<'js>),
    Error,
>)
    ensures
        final(calls).records() == old(calls).records().push(Call::Eval { ok: r is Ok }),
{
    module.eval()
}

/// `Module::namespace`: the object that holds the module's exports.
#[verifier::external_body]
pub(crate) fn module_namespace<'js>(calls: &mut Calls<'js>, module: &Module<'js, Evaluated>) -> (r: Result<
    Object<'js>,
    Error,
>)
    ensures
        final(calls).records() == old(calls).records().push(Call::Namespace { out: ok_value(r) }),
{
    module.namespace()
}

/// `Ctx::globals`: the global object.
#[verifier::external_body]
pub(crate) fn globals<'js>(calls: &mut Calls<'js>, ctx: &Ctx<'js>) -> (r: Object<'js>)
    ensures
        final(calls).records() == old(calls).records().push(Call::Globals { out: r }),
{
    ctx.globals()
}

/// `Object::get` of a property, read as an object (an error when it is none).
#[verifier::external_body]
pub(crate) fn get_object<'js>(calls: &mut Calls<'js>, obj: &Object<'js>, key: &str) -> (r: Result<
    Object<'js>,
    Error,
>)
    ensures
        final(calls).records() == old(calls).records().push(
            Call::GetObject { obj: *obj, key: key@, out: ok_value(r) },
        ),
{
    obj.get(key)
}

/// `Object::get` of a property, read as a function (an error when it is
/// none).
#[verifier::external_body]
pub(crate) fn get_function<'js>(calls: &mut Calls<'js>, obj: &Object<'js>, key: &str) -> (r: Result<
    Function<'js>,
    Error,
>)
    ensures
        final(calls).records() == old(calls).records().push(
            Call::GetFunction { obj: *obj, key: key@, out: ok_value(r) },
        ),
{
    obj.get(key)
}

/// `Object::get` of a property, read as any value (`undefined` when absent).
#[verifier::external_body]
pub(crate) fn get_value<'js>(calls: &mut Calls<'js>, obj: &Object<'js>, key: &str) -> (r: Result<
    Value<'js>,
    Error,
>)
    ensures
        final(calls).records() == old(calls).records().push(
            Call::GetValue { obj: *obj, key: key@, out: ok_value(r) },
        ),
{
    obj.get(key)
}

/// `Value::into_function`: the value as a function when `typeof` it is
/// `"function"`, and nothing otherwise.
#[verifier::external_body]
pub(crate) fn into_function<'js>(calls: &mut Calls<'js>, v: Value<'js>) -> (r: Option<Function<'js>>)
    ensures
        final(calls).records() == old(calls).records().push(Call::IntoFunction { value: v, out: r }),
{
    v.into_function()
}

/// `Object::from_value`: the value as an object when it is one (arrays,
/// functions and proxies included), and an error otherwise.
#[verifier::external_body]
pub(crate) fn object_from_value<'js>(calls: &mut Calls<'js>, v: Value<'js>) -> (r: Result<Object<'js>, Error>)
    ensures
        final(calls).records() == old(calls).records().push(
            Call::ObjectFromValue { value: v, out: ok_value(r) },
        ),
{
    Object::from_value(v)
}

/// `Object::get` of `length`, read as an unsigned 32-bit integer (an error
/// when it is not one).
#[verifier::external_body]
pub(crate) fn get_length<'js>(calls: &mut Calls<'js>, obj: &Object<'js>) -> (r: Result<u32, Error>)
    ensures
        final(calls).records() == old(calls).records().push(Call::GetLength { obj: *obj, out: ok_value(r) }),
{
    obj.get("length")
}

/// `Object::contains_key`: whether the index is a property (the engine's
/// `HasProperty`).
#[verifier::external_body]
pub(crate) fn has_index<'js>(calls: &mut Calls<'js>, obj: &Object<'js>, i: u32) -> (r: Result<bool, Error>)
    ensures
        final(calls).records() == old(calls).records().push(
            Call::HasIndex { obj: *obj, index: i, out: ok_value(r) },
        ),
{
    obj.contains_key(i)
}

/// `Object::get` of the property at an index.
#[verifier::external_body]
pub(crate) fn get_index<'js>(calls: &mut Calls<'js>, obj: &Object<'js>, i: u32) -> (r: Result<
    Value<'js>,
    Error,
>)
    ensures
        final(calls).records() == old(calls).records().push(
            Call::GetIndex { obj: *obj, index: i, out: ok_value(r) },
        ),
{
    obj.get(i)
}

/// `Array::new`: a new empty array.
#[verifier::external_body]
pub(crate) fn array_new<'js>(calls: &mut Calls<'js>, ctx: &Ctx<'js>) -> (r: Result<Array<'js>, Error>)
    ensures
        final(calls).records() == old(calls).records().push(Call::ArrayNew { out: ok_value(r) }),
{
    Array::new(ctx.clone())
}

/// `Array::set`: stores `v` at index `i`.
#[verifier::external_body]
pub(crate) fn array_set<'js>(calls: &mut Calls<'js>, a: &Array<'js>, i: usize, v: Value<'js>) -> (r: Result<
    (),
    Error,
>)
    ensures
        final(calls).records() == old(calls).records().push(
            Call::ArraySet { array: *a, index: i, value: v, ok: r is Ok },
        ),
{
    a.set(i, v)
}

/// `Array::into_value`: the array as a value.
#[verifier::external_body]
pub(crate) fn array_into_value<'js>(calls: &mut Calls<'js>, a: Array<'js>) -> (r: Value<'js>)
    ensures
        final(calls).records() == old(calls).records().push(Call::ArrayIntoValue { array: a, out: r }),
{
    a.into_value()
}

/// `Object::new`: a new empty object `{}`.
#[verifier::external_body]
pub(crate) fn object_new<'js>(calls: &mut Calls<'js>, ctx: &Ctx<'js>) -> (r: Result<Object<'js>, Error>)
    ensures
        final(calls).records() == old(calls).records().push(Call::ObjectNew { out: ok_value(r) }),
{
    Object::new(ctx.clone())
}

/// `Object::into_value`: the object as a value.
#[verifier::external_body]
pub(crate) fn object_into_value<'js>(calls: &mut Calls<'js>, o: Object<'js>) -> (r: Value<'js>)
    ensures
        final(calls).records() == old(calls).records().push(Call::ObjectIntoValue { obj: o, out: r }),
{
    o.into_value()
}

/// `Value::new_null`: the value `null`.
#[verifier::external_body]
pub(crate) fn null_value<'js>(calls: &mut Calls<'js>, ctx: &Ctx<'js>) -> (r: Value<'js>)
    ensures
        final(calls).records() == old(calls).records().push(Call::NullValue { out: r }),
{
    Value::new_null(ctx.clone())
}

/// `Function::call` with no arguments.
#[verifier::external_body]
pub(crate) fn call0<'js>(calls: &mut Calls<'js>, f: &Function<'js>) -> (r: Result<Value<'js>, Error>)
    ensures
        final(calls).records() == old(calls).records().push(Call::Call0 { f: *f, out: ok_value(r) }),
{
    f.call(())
}

/// `Function::call` with one argument.
#[verifier::external_body]
pub(crate) fn call1<'js>(calls: &mut Calls<'js>, f: &Function<'js>, a: Value<'js>) -> (r: Result<
    Value<'js>,
    Error,
>)
    ensures
        final(calls).records() == old(calls).records().push(Call::Call1 { f: *f, a, out: ok_value(r) }),
{
    f.call((a,))
}

/// `Function::call` with two arguments.
#[verifier::external_body]
pub(crate) fn call2<'js>(
    calls: &mut Calls<'js>,
    f: &Function<'js>,
    a: &Value<'js>,
    b: &Value<'js>,
) -> (r: Result<Value<'js>, Error>)
    ensures
        final(calls).records() == old(calls).records().push(
            Call::Call2 { f: *f, a: *a, b: *b, out: ok_value(r) },
        ),
{
    f.call((a.clone(), b.clone()))
}

/// `Function::call` with one argument, its result coerced to a boolean as
/// JavaScript does (`Coerced<bool>`, the engine's `ToBoolean`).
#[verifier::external_body]
pub(crate) fn call1_truthy<'js>(calls: &mut Calls<'js>, f: &Function<'js>, a: &Value<'js>) -> (r: Result<
    bool,
    Error,
>)
    ensures
        final(calls).records() == old(calls).records().push(
            Call::Call1Truthy { f: *f, a: *a, out: ok_value(r) },
        ),
{
    f.call((a.clone(),)).map(|c: Coerced<bool>| c.0)
}

/// `Function::call` with two arguments, its result coerced to a boolean as
/// JavaScript does (`Coerced<bool>`, the engine's `ToBoolean`).
#[verifier::external_body]
pub(crate) fn call2_truthy<'js>(
    calls: &mut Calls<'js>,
    f: &Function<'js>,
    a: &Value<'js>,
    b: &Value<'js>,
) -> (r: Result<bool, Error>)
    ensures
        final(calls).records() == old(calls).records().push(
            Call::Call2Truthy { f: *f, a: *a, b: *b, out: ok_value(r) },
        ),
{
    f.call((a.clone(), b.clone())).map(|c: Coerced<bool>| c.0)
}

/// `Function::call` with a string argument.
#[verifier::external_body]
pub(crate) fn call_text<'js>(calls: &mut Calls<'js>, f: &Function<'js>, text: &str) -> (r: Result<
    Value<'js>,
    Error,
>)
    ensures
        final(calls).records() == old(calls).records().push(
            Call::CallText { f: *f, text: text@, out: ok_value(r) },
        ),
{
    f.call((text,))
}

/// `Function::call` with one argument, its result read as a string (an error
/// when the result is not a string, `undefined` among others).
#[verifier::external_body]
pub(crate) fn call_to_string<'js>(calls: &mut Calls<'js>, f: &Function<'js>, a: Value<'js>) -> (r: Result<
    String,
    Error,
>)
    ensures
        final(calls).records() == old(calls).records().push(
            Call::CallToString { f: *f, a, out: ok_text(r) },
        ),
{
    f.call((a,))
}

/// The engine's description of an error (its `Display`).
#[verifier::external_body]
pub(crate) fn error_text(e: &Error) -> (r: String) {
    format!("{e}")
}

} // verus!
