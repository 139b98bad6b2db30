//! Modules, compiled with the real engine.
use dll_pack::module_load::{ModuleLoad, ModuleLoadError, ModuleRequest};
use dll_pack::wasm::{
    compile_module, compiled_module, drive_dir, link_module, linked_module, made_engine, new_engine,
    pre_open_all, pre_open_root, unwind_info, ModuleError,
};

/// The empty module.
const EMPTY: &[u8] = b"\0asm\x01\0\0\0";

/// A module with one import: the function `none` of `env`, without parameters.
const IMPORTING: &[u8] =
    b"\0asm\x01\0\0\0\x01\x04\x01\x60\0\0\x02\x0c\x01\x03env\x04none\0\0";

/// A module that imports `fd_close` of WASI.
const USING_WASI: &[u8] = b"\0asm\x01\0\0\0\x01\x06\x01\x60\x01\x7f\x01\x7f\x02\x23\x01\
    \x16wasi_snapshot_preview1\x08fd_close\0\0";

#[test]
fn module_compiles_and_is_written_down() {
    for unix in [true, false] {
        let engine = new_engine(unix).ok().unwrap();
        let compiled = compile_module(&engine, EMPTY).ok().unwrap();
        assert!(!compiled.cache.is_empty());
        assert_ne!(compiled.cache, EMPTY);
        assert_eq!(compiled.module.module().imports().len(), 0);
    }
}

#[test]
fn what_is_no_module_does_not_compile() {
    let engine = new_engine(true).ok().unwrap();
    let bad: [&[u8]; 4] = [b"", b"\0as", b"(module)", b"\0ASM\x01\0\0\0"];
    for binary in bad {
        assert!(matches!(compile_module(&engine, binary), Err(ModuleError::Compile(_))));
    }
    let cut = &EMPTY[..6];
    assert!(matches!(compile_module(&engine, cut), Err(ModuleError::Compile(_))));
}

#[test]
fn imports_must_be_those_of_wasi() {
    let engine = new_engine(true).ok().unwrap();
    let empty = compile_module(&engine, EMPTY).ok().unwrap();
    assert!(link_module(&empty.module).is_ok());
    let wasi = compile_module(&engine, USING_WASI).ok().unwrap();
    assert_eq!(wasi.module.module().imports().len(), 1);
    assert!(link_module(&wasi.module).is_ok());
    let importing = compile_module(&engine, IMPORTING).ok().unwrap();
    assert!(matches!(link_module(&importing.module), Err(ModuleError::Link(_))));
}

#[test]
fn outcomes_are_handed_on() {
    let engine = new_engine(true).ok().unwrap();
    let inner = engine.engine().clone();
    let made = made_engine(Ok(engine)).ok().unwrap();
    assert!(wasmtime::Engine::same(made.engine(), &inner));
    let failed = made_engine(Err(anyhow::Error::msg("no compiler")));
    let Err(ModuleError::Engine(why)) = failed else { panic!() };
    assert_eq!(why.to_string(), "no compiler");

    let empty = compile_module(&made, EMPTY).ok().unwrap();
    let linked = link_module(&empty.module).ok().unwrap();
    assert!(linked_module(Ok(linked)).is_ok());
    let Err(ModuleError::Link(why)) = linked_module(Err(anyhow::Error::msg("no import"))) else {
        panic!()
    };
    assert_eq!(why.to_string(), "no import");
}

#[test]
fn linked_module_is_the_module() {
    let engine = new_engine(true).ok().unwrap();
    let wasi = compile_module(&engine, USING_WASI).ok().unwrap();
    let linked = link_module(&wasi.module).ok().unwrap();
    assert_eq!(linked.linked().module().imports().len(), 1);
    assert_eq!(linked.linked().module().serialize().unwrap(), wasi.cache);
}

#[test]
fn only_unix_sets_unwind_info() {
    assert_eq!(unwind_info(true), Some(false));
    assert_eq!(unwind_info(false), None);
}

#[test]
fn compiled_module_keeps_what_was_written_down() {
    let engine = new_engine(true).ok().unwrap();
    let module = compile_module(&engine, USING_WASI).ok().unwrap().module;
    let bytes = module.module().serialize().unwrap();
    let paired = compiled_module(Ok((module, Ok(bytes.clone())))).ok().unwrap();
    assert_eq!(paired.cache, bytes);
    assert_eq!(paired.module.module().imports().len(), 1);
    let failed = compiled_module(Ok((paired.module, Err(anyhow::Error::msg("no room")))));
    let Err(ModuleError::Serialize(why)) = failed else { panic!() };
    assert_eq!(why.to_string(), "no room");
    let failed = compiled_module(Err(anyhow::Error::msg("bad type")));
    let Err(ModuleError::Compile(why)) = failed else { panic!() };
    assert_eq!(why.to_string(), "bad type");
}

#[test]
fn compiled_form_is_that_of_the_module() {
    let engine = new_engine(true).ok().unwrap();
    let compiled = compile_module(&engine, USING_WASI).ok().unwrap();
    assert_eq!(compiled.cache, compiled.module.module().serialize().unwrap());
}

#[test]
fn module_is_compiled_once() {
    let engine = new_engine(true).ok().unwrap();
    let state = ModuleLoad::start();
    assert!(matches!(state.request(), ModuleRequest::LookInCache));
    let state = state.looked(false);
    assert!(matches!(state.request(), ModuleRequest::ReadBinary));
    let state = state.binary_read(&engine, Ok::<_, String>(USING_WASI.to_vec())).ok().unwrap();
    let ModuleRequest::WriteCache(bytes) = state.request() else { panic!() };
    let state = state.cache_written(Ok::<(), String>(())).ok().unwrap();
    assert!(matches!(state.request(), ModuleRequest::Nothing));
    let module = state.finish().module().clone();
    assert_eq!(module.imports().len(), 1);
    assert_eq!(bytes, module.serialize().unwrap());

    let state = ModuleLoad::start().looked(true);
    assert!(matches!(state.request(), ModuleRequest::ReadCache));
    let state = state.cache_read(Ok::<_, String>(module)).ok().unwrap();
    assert!(matches!(state.request(), ModuleRequest::Nothing));
    assert_eq!(state.finish().module().imports().len(), 1);
}

#[test]
fn nothing_is_written_where_compiling_fails() {
    let engine = new_engine(true).ok().unwrap();
    let state = ModuleLoad::start().looked(false);
    let failed = state.binary_read(&engine, Ok::<_, String>(b"(module)".to_vec()));
    assert!(matches!(failed, Err(ModuleLoadError::Module(ModuleError::Compile(_)))));
    let failed = ModuleLoad::start().looked(false).binary_read(&engine, Err("no file"));
    assert!(matches!(failed, Err(ModuleLoadError::Outside("no file"))));
    let failed = ModuleLoad::start().looked(true).cache_read(Err("old version"));
    assert!(matches!(failed, Err(ModuleLoadError::Outside("old version"))));
    let state = ModuleLoad::start().looked(false);
    let state = state.binary_read(&engine, Ok::<_, String>(EMPTY.to_vec())).ok().unwrap();
    let failed = state.cache_written(Err("disk full"));
    assert!(matches!(failed, Err(ModuleLoadError::Outside("disk full"))));
    let state = ModuleLoad::start().looked(false);
    let failed = state.compiled::<String>(Err(ModuleError::Serialize(anyhow::Error::msg("no"))));
    assert!(matches!(failed, Err(ModuleLoadError::Module(ModuleError::Serialize(_)))));
}

/// A module that takes a reference to something outside.
const WITH_REFERENCE: &[u8] = b"\0asm\x01\0\0\0\x01\x05\x01\x60\x01\x6f\0";

#[test]
fn reference_types_compile() {
    let engine = new_engine(true).ok().unwrap();
    assert!(compile_module(&engine, WITH_REFERENCE).is_ok());
}

#[test]
fn drives_are_opened_under_their_letters() {
    let drives = vec!["c".to_string(), "D".to_string()];
    let dirs = pre_open_all(&drives);
    assert_eq!(dirs.len(), 2);
    assert_eq!(dirs[0].host, "C:\\");
    assert_eq!(dirs[0].guest, "/c");
    assert_eq!(dirs[1].host, "D:\\");
    assert_eq!(dirs[1].guest, "/d");
    let dir = drive_dir("X", "y");
    assert_eq!(dir.host, "X:\\");
    assert_eq!(dir.guest, "/y");
}

#[test]
fn unix_has_one_root() {
    let dir = pre_open_root();
    assert_eq!(dir.host, "/");
    assert_eq!(dir.guest, "/");
}
