//! Namespaces, and the loading of native libraries into one.
use dll_pack::library::{
    exported, CallRoute, Function, FunctionError, Library, Lookup, LookupReply, NativeLibrary,
};
use dll_pack::linux_dlmopen::{
    DlmopenNamespace, OpenError, OpenReply, SymbolError, SymbolReply, LM_ID_NEWLM, RTLD_DI_LMID,
    RTLD_LOCAL, RTLD_NOW,
};
use dll_pack::manifest::DllInfo;
use dll_pack::native_load::NativeLoad;
use dll_pack::pack_url::Url;
use dll_pack::resolve::Resolution;

fn opened(handle: usize, namespace: Option<i64>) -> OpenReply {
    OpenReply { handle, error: None, namespace }
}

fn refused(error: Option<&str>) -> OpenReply {
    OpenReply { handle: 0, error: error.map(|e| e.to_string()), namespace: None }
}

fn symbol(address: usize, error: Option<&str>) -> SymbolReply {
    SymbolReply { address, error: error.map(|e| e.to_string()) }
}

fn dll(name: &str) -> DllInfo {
    DllInfo {
        url: Url::parse(&format!("https://packs.example/{}", name)).unwrap(),
        name: name.to_string(),
        path: format!("/cache/{}", name).into_bytes(),
    }
}

#[test]
fn linker_constants() {
    assert_eq!(LM_ID_NEWLM, -1);
    assert_eq!(RTLD_NOW, 2);
    assert_eq!(RTLD_LOCAL, 0);
    assert_eq!(RTLD_DI_LMID, 1);
}

#[test]
fn first_library_makes_the_namespace() {
    let mut namespace = DlmopenNamespace::new();
    assert!(namespace.asks_namespace());
    let request = namespace.open_request(b"/b.so").unwrap();
    assert_eq!(request.lmid, -1);
    assert_eq!(request.path, b"/b.so\0");
    assert_eq!(request.flags, 2);
    namespace.load_dependency(b"/b.so", opened(11, Some(7))).unwrap();
    assert!(!namespace.asks_namespace());
    assert_eq!(namespace.open_request(b"/a.so").unwrap().lmid, 7);
    namespace.load_main(b"/a.so", opened(12, Some(9))).unwrap();
    assert_eq!(namespace.open_request(b"/c.so").unwrap().lmid, 7);
    assert_eq!(namespace.close_order(), vec![12, 11]);
    assert!(namespace.close_order().is_empty());
}

#[test]
fn unknown_namespace_is_asked_for_again() {
    let mut namespace = DlmopenNamespace::default();
    namespace.load_dependency(b"/b.so", opened(11, None)).unwrap();
    assert!(namespace.asks_namespace());
    assert_eq!(namespace.open_request(b"/a.so").unwrap().lmid, -1);
}

#[test]
fn path_must_be_text_without_zero() {
    let mut namespace = DlmopenNamespace::new();
    let bad = b"/\xff.so";
    assert!(matches!(namespace.open_request(bad), Err(OpenError::InvalidUtf8)));
    let error = namespace.load_dependency(bad, opened(1, None)).unwrap_err();
    assert_eq!(error.message("/?.so"), "Path contains invalid UTF-8: /?.so");
    let error = namespace.load_main(b"/a\0b\0", opened(1, None)).unwrap_err();
    assert!(matches!(error, OpenError::NulByte(2)));
    assert_eq!(
        error.message("/a"),
        "Path contains null byte: nul byte found in provided data at position: 2",
    );
    assert!(namespace.open_request("/\u{e9}.so".as_bytes()).is_ok());
    assert!(namespace.close_order().is_empty());
}

#[test]
fn failed_opening_leaves_the_namespace() {
    let mut namespace = DlmopenNamespace::new();
    namespace.load_dependency(b"/b.so", opened(11, Some(7))).unwrap();
    let error = namespace.load_main(b"/a.so", refused(Some("no such file"))).unwrap_err();
    assert_eq!(error.message("/a.so"), "dlmopen failed for /a.so: no such file");
    let error = namespace.load_main(b"/a.so", refused(None)).unwrap_err();
    assert_eq!(error.message("/a.so"), "dlmopen failed for /a.so: (unknown error)");
    assert!(matches!(namespace.symbol_request("f"), Err(SymbolError::NoMainLibrary)));
    assert_eq!(namespace.close_order(), vec![11]);
}

#[test]
fn symbols_are_looked_up_in_the_main_library() {
    let mut namespace = DlmopenNamespace::new();
    let error = namespace.get_symbol("f", symbol(5, None)).unwrap_err();
    assert_eq!(error.message("f"), "No main library loaded in this namespace");
    namespace.load_main(b"/a.so", opened(12, Some(7))).unwrap();
    namespace.load_dependency(b"/late.so", opened(13, None)).unwrap();
    let request = namespace.symbol_request("f").unwrap();
    assert_eq!(request.handle, 12);
    assert_eq!(request.name, b"f\0");
    assert_eq!(namespace.get_symbol("f", symbol(99, None)).unwrap(), 99);
    let error = namespace.get_symbol("f", symbol(0, Some("undefined"))).unwrap_err();
    assert_eq!(error.message("f"), "dlsym failed for 'f': undefined");
    let error = namespace.get_symbol("f", symbol(0, None)).unwrap_err();
    assert_eq!(error.message("f"), "dlsym failed for 'f': symbol 'f' not found");
    let error = namespace.get_symbol("0123456789\0", symbol(99, None)).unwrap_err();
    assert_eq!(
        error.message("0123456789\0"),
        "Symbol name contains null byte: nul byte found in provided data at position: 10",
    );
}

#[test]
fn native_libraries_are_loaded_in_order() {
    let libraries = Resolution { main: dll("a"), dependencies: vec![dll("c"), dll("b")] };
    let mut load = NativeLoad::start(libraries);
    let mut seen = Vec::new();
    let mut handle = 100;
    while !load.is_complete() {
        seen.push(load.library().name.clone());
        let request = load.open_request().unwrap();
        assert_eq!(request.lmid, if handle == 100 { -1 } else { 3 });
        handle += 1;
        let namespace = if load.asks_namespace() { Some(3) } else { None };
        load = load.opened(opened(handle, namespace)).unwrap();
    }
    assert_eq!(seen, vec!["c", "b", "a"]);
    let mut namespace = load.into_namespace();
    assert_eq!(namespace.symbol_request("f").unwrap().handle, 103);
    assert_eq!(namespace.close_order(), vec![103, 102, 101]);
}

#[test]
fn native_loading_stops_at_the_first_failure() {
    let libraries = Resolution { main: dll("a"), dependencies: vec![dll("c"), dll("b")] };
    let load = NativeLoad::start(libraries).opened(opened(101, Some(3))).unwrap();
    let (error, mut namespace) = load.opened(refused(Some("bad file"))).unwrap_err();
    assert_eq!(error.message("/cache/b"), "dlmopen failed for /cache/b: bad file");
    assert_eq!(namespace.close_order(), vec![101]);
}

type Loaded = Library<NativeLibrary, u8, u8>;

#[test]
fn functions_are_looked_up_where_the_library_is() {
    let mut namespace = DlmopenNamespace::new();
    namespace.load_main(b"/a.so", opened(12, Some(7))).unwrap();
    let native: Loaded = Library::new_native_library_dlmopen(namespace);
    let Ok(Lookup::Symbol(request)) = native.get_function("run") else { panic!() };
    assert_eq!(request.handle, 12);
    assert_eq!(request.name, b"run\0");
    assert!(matches!(native.get_function("r\0"), Err(SymbolError::NulByte(1))));
    let Library::NativeLibrary(inner) = &native else { panic!() };
    let function: Function<u8, u8> = inner.function("run", symbol(77, None)).unwrap();
    assert!(matches!(function, Function::DlmopenFn(77)));
    assert!(inner.function::<u8, u8>("run", symbol(0, None)).is_err());

    let module: Loaded = Library::new_wasm_library(1, 2);
    assert!(matches!(module.get_function("r\0"), Ok(Lookup::Export)));
    let bare: Loaded = Library::new_native_library_dlmopen(DlmopenNamespace::new());
    assert!(matches!(bare.get_function("run"), Err(SymbolError::NoMainLibrary)));
}

#[test]
fn module_functions_need_a_module() {
    let native: Loaded = Library::new_native_library_dlmopen(DlmopenNamespace::new());
    let module: Loaded = Library::new_wasm_library(1, 2);
    let symbol: Function<u8, u8> = Function::LLFunction(0);
    let export: Function<u8, u8> = Function::WasmFunction(0);
    let address: Function<u8, u8> = Function::DlmopenFn(5);
    assert_eq!(symbol.call(&native), CallRoute::Symbol);
    assert_eq!(address.call(&native), CallRoute::Address);
    assert_eq!(export.call(&native), CallRoute::NoModule);
    assert_eq!(export.call(&module), CallRoute::Module);
    assert_eq!(address.call(&module), CallRoute::Address);
}

#[test]
fn exports_become_functions_of_the_module() {
    let function: Function<u8, u8> = exported(Ok::<u8, String>(4)).unwrap();
    assert!(matches!(function, Function::WasmFunction(4)));
    let failed: Result<Function<u8, u8>, &str> = exported(Err("no such export"));
    assert!(matches!(failed, Err("no such export")));
}

#[test]
fn got_functions_can_be_called_with_their_library() {
    let mut namespace = DlmopenNamespace::new();
    namespace.load_main(b"/a.so", opened(12, Some(7))).unwrap();
    let native: Loaded = Library::new_native_library_dlmopen(namespace);
    let module: Loaded = Library::new_wasm_library(1, 2);

    let export = LookupReply::Export(Ok::<u8, String>(4));
    let function: Function<u8, u8> = module.found_in_namespace("run", export).unwrap();
    assert!(matches!(function, Function::WasmFunction(4)));
    assert_eq!(function.call(&module), CallRoute::Module);
    let export = LookupReply::Export(Err::<u8, _>("no such export"));
    let failed = module.found_in_namespace::<u8, u8, _>("run", export);
    assert!(matches!(failed, Err(FunctionError::Outside("no such export"))));

    let reply: LookupReply<SymbolReply, u8, String> = LookupReply::Symbol(symbol(77, None));
    let function: Function<u8, u8> = native.found_in_namespace("run", reply).unwrap();
    assert!(matches!(function, Function::DlmopenFn(77)));
    assert_eq!(function.call(&native), CallRoute::Address);
    let reply: LookupReply<SymbolReply, u8, String> = LookupReply::Symbol(symbol(0, None));
    let failed = native.found_in_namespace::<u8, u8, String>("run", reply);
    assert!(matches!(failed, Err(FunctionError::Symbol(SymbolError::DlsymFailed(_)))));

    let reply: LookupReply<Result<u8, &str>, u8, &str> = LookupReply::Symbol(Ok(9));
    let function = native.found_by_loader(reply).unwrap();
    assert!(matches!(function, Function::LLFunction(9)));
    assert_eq!(function.call(&native), CallRoute::Symbol);
    let reply: LookupReply<Result<u8, &str>, u8, &str> = LookupReply::Symbol(Err("no symbol"));
    assert!(matches!(native.found_by_loader(reply), Err(FunctionError::Outside("no symbol"))));
    let reply: LookupReply<Result<u8, &str>, u8, &str> = LookupReply::Export(Ok(4));
    let function = module.found_by_loader(reply).unwrap();
    assert_eq!(function.call(&module), CallRoute::Module);
}
