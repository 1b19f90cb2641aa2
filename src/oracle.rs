use vstd::prelude::*;
use crate::instr::LowerError;

verus! {

#[verifier::external_type_specification]
#[verifier::external_body]
pub struct ExEngine(wasmtime::Engine);

#[verifier::external_type_specification]
#[verifier::external_body]
pub struct ExConfig(wasmtime::Config);

#[verifier::external_type_specification]
#[verifier::external_body]
pub struct ExModule(wasmtime::Module);

#[verifier::external_type_specification]
#[verifier::external_body]
pub struct ExWasmtimeError(wasmtime::Error);

/// How much fuel a run of `main` may burn: wasmtime charges about one unit
/// per WebAssembly operator, and a run that uses it all up traps.
pub const ORACLE_FUEL: u64 = 100_000_000;

/// Relies on `wasmtime::Config::new` for the default configuration.
#[verifier::external_body]
fn new_config() -> wasmtime::Config {
    wasmtime::Config::new()
}

/// Relies on `wasmtime::Config::consume_fuel` to have compiled code count the
/// fuel it burns and trap when a store's fuel runs out.
#[verifier::external_body]
fn enable_fuel(config: &mut wasmtime::Config) {
    config.consume_fuel(true);
}

/// Relies on `wasmtime::Engine::new` for an engine with the given configuration.
#[verifier::external_body]
fn engine_with(config: &wasmtime::Config) -> Result<wasmtime::Engine, wasmtime::Error> {
    wasmtime::Engine::new(config)
}

/// Relies on `wasmtime::Module::new` to validate and compile a binary module.
#[verifier::external_body]
fn compile_module(engine: &wasmtime::Engine, wasm: &[u8]) -> Result<wasmtime::Module, wasmtime::Error> {
    wasmtime::Module::new(engine, wasm)
}

/// Relies on `wasmtime::Store::new`, `Store::set_fuel`, `wasmtime::Instance::new`
/// (no imports), `Instance::get_typed_func` and `TypedFunc::call` to run the
/// module's exported `main() -> i32` in a store of its own holding `fuel`. The
/// store is made here, so the instance and the function always belong to it;
/// a module compiled by another engine is an error of `Instance::new`, and
/// `set_fuel` fails on an engine that does not count fuel. With fuel counted,
/// a start function or `main` that would run on traps once the fuel is spent.
#[verifier::external_body]
fn run_exported_main(engine: &wasmtime::Engine, module: &wasmtime::Module, fuel: u64) -> Result<i32, wasmtime::Error> {
    let mut store = wasmtime::Store::new(engine, ());
    store.set_fuel(fuel)?;
    let instance = wasmtime::Instance::new(&mut store, module, &[])?;
    let main_fn = instance.get_typed_func::<(), i32>(&mut store, "main")?;
    main_fn.call(&mut store, ())
}

/// Runs a module's exported `main() -> i32` with wasmtime and returns its
/// value: the result that the flat program must reproduce. Any failure of
/// wasmtime (the module does not compile or instantiate, has no such export,
/// traps, or spends its `ORACLE_FUEL`) is reported as `OracleFailed`.
pub fn run_with_wasmtime(wasm_bytes: &[u8]) -> (r: Result<i32, LowerError>)
    ensures
        r matches Err(e) ==> e == LowerError::OracleFailed,
{
    let mut config = new_config();
    enable_fuel(&mut config);
    let engine = match engine_with(&config) {
        Ok(e) => e,
        Err(_) => return Err(LowerError::OracleFailed),
    };
    let module = match compile_module(&engine, wasm_bytes) {
        Ok(m) => m,
        Err(_) => return Err(LowerError::OracleFailed),
    };
    match run_exported_main(&engine, &module, ORACLE_FUEL) {
        Ok(v) => Ok(v),
        Err(_) => Err(LowerError::OracleFailed),
    }
}

} // verus!
