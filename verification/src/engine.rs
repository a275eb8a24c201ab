//! The embedded interpreter and the calls the host makes into it.
//!
//! What a script does when it is called is not known here, so none of these
//! calls promises anything about its outcome.

use vstd::prelude::*;

verus! {

/// `rlua::Lua`, an interpreter with all that its scripts have defined.
#[verifier::external_type_specification]
#[verifier::external_body]
pub struct ExLua(rlua::Lua);

/// `rlua::RegistryKey`, the handle by which the host keeps a value of the
/// interpreter, here a procedure that a script registered as a callback.
#[verifier::external_type_specification]
#[verifier::external_body]
pub struct ExRegistryKey(rlua::RegistryKey);

/// `rlua::Error`, a failure inside the interpreter.
#[verifier::external_type_specification]
#[verifier::external_body]
pub struct ExLuaError(rlua::Error);

/// Calls `rlua::Lua::new`: a fresh interpreter with the standard libraries.
#[verifier::external_body]
pub(crate) fn fresh_state() -> (state: rlua::Lua) {
    rlua::Lua::new()
}

/// Fetches the procedure behind `callback` with `rlua::Context::registry_value`
/// and calls it with `rlua::Function::call`, the strings as one list argument.
/// A handle of another interpreter, or a failing script, gives an error.
#[verifier::external_body]
pub(crate) fn call_with_groups(
    state: &rlua::Lua,
    callback: &rlua::RegistryKey,
    args: &Vec<String>,
) -> (r: Result<(), rlua::Error>) {
    state.context(
        |ctx|
            {
                let f: rlua::Function = ctx.registry_value(callback)?;
                f.call::<_, ()>(args.clone())
            },
    )
}

/// Fetches the procedure behind `callback` with `rlua::Context::registry_value`
/// and calls it with `rlua::Function::call`, `text` as its one string argument.
#[verifier::external_body]
pub(crate) fn call_with_text(state: &rlua::Lua, callback: &rlua::RegistryKey, text: &str) -> (r:
    Result<(), rlua::Error>) {
    state.context(
        |ctx|
            {
                let f: rlua::Function = ctx.registry_value(callback)?;
                f.call::<_, ()>(text.to_string())
            },
    )
}

/// Reads the global `name` with `rlua::Table::get` and, where it holds a
/// procedure, calls it without arguments with `rlua::Function::call`. `None`
/// says that no procedure stands under that name.
#[verifier::external_body]
pub(crate) fn call_global(state: &rlua::Lua, name: &str) -> (r: Option<Result<(), rlua::Error>>) {
    state.context(
        |ctx|
            match ctx.globals().get::<_, rlua::Function>(name) {
                Ok(f) => Some(f.call::<_, ()>(())),
                Err(_) => None,
            },
    )
}

/// Compiles `source` under the chunk name `name` and runs it
/// (`rlua::Context::load`, `rlua::Chunk::set_name`, `rlua::Chunk::exec`).
#[verifier::external_body]
pub(crate) fn run_chunk(state: &rlua::Lua, source: &str, name: &str) -> (r: Result<
    (),
    rlua::Error,
>) {
    state.context(|ctx| ctx.load(source).set_name(name)?.exec())
}

/// The text of an interpreter error, as its `Display` impl writes it.
#[verifier::external_body]
pub(crate) fn error_message(e: &rlua::Error) -> (s: String) {
    e.to_string()
}

/// The message of a failed call, `None` for a call that succeeded.
pub(crate) fn failure_of(result: Result<(), rlua::Error>) -> (failure: Option<String>)
    ensures
        failure.is_some() == result.is_err(),
{
    match result {
        Ok(_) => None,
        Err(e) => Some(error_message(&e)),
    }
}

} // verus!
