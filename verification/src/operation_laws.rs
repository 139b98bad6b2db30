//! What the operations of the library do, said of their arguments and results.
use vstd::prelude::*;
use vstd::utf8::{encode_utf8, valid_utf8};

use crate::cached::{
    dependent_unparsable_message, file_tasks, main_unparsable_message, CacheSearch, CachedReply,
    SearchFailure, TaskModel,
};
use crate::download::Download;
use crate::failure::{
    circular_message, manifest_not_found_message, Failure, FailureModel, ResolveError,
};
use crate::graph::ManifestGraph;
use crate::library::{
    CallRoute, Function, FunctionError, Library, Lookup, LookupReply, NativeLibrary,
};
use crate::linux_dlmopen::{
    DlmopenNamespace, OpenError, OpenReply, OpenRequest, SymbolError, SymbolReply, SymbolRequest,
};
use crate::manifest::{DllPackFile, PlatformManifest};
use crate::module_load::{ModuleLoad, ModuleLoadError, ModuleLoadModel};
use crate::native_load::NativeLoad;
use crate::order::load_order;
use crate::order_laws::has_circle;
use crate::pack_url::Url;
use crate::runtime::{links_with_wasi, EngineSettings, LinkedModule, WasmEngine, WasmModule};
use crate::schedule_laws::{is_schedule, load_order_takes_the_last_first, Schedule};
use crate::task_laws::{looks_for, platforms_name_all_of_theirs};
use crate::text::{bytes_come_before, contains_part, decimal_text};
use crate::text_laws::{
    decimal_stands_for_the_number, digits_value, first_difference_decides, part_is_between,
    part_occurs_between,
};
use crate::wasm::{
    compile_module, engine_settings, link_module, lowercase, new_engine, pre_open_all,
    pre_open_root, uppercase, CompiledModule, ModuleError, Preopened,
};

verus! {

/// The entry that a file gives for a platform is listed under exactly that platform, and
/// nothing is listed under it before. There is none exactly where nothing is.
pub proof fn platform_gives_what_is_listed(
    file: &DllPackFile,
    platform: &String,
    manifest: Option<PlatformManifest>,
)
    requires
        call_ensures(DllPackFile::platform, (file, platform), manifest),
    ensures
        match manifest {
            Some(m) => exists|i: int|
                0 <= i < file.platforms@.len() && (#[trigger] file.platforms@[i]).0@ == platform@
                    && file.platforms@[i].1@ == m@ && forall|j: int|
                    0 <= j < i ==> (#[trigger] file.platforms@[j]).0@ != platform@,
            None => forall|i: int|
                0 <= i < file.platforms@.len() ==> (#[trigger] file.platforms@[i]).0@ != platform@,
        },
{
}

/// A manifest that was fetched stops a download exactly where it could not be had, with
/// that error, or lists nothing under the platform, however many others it lists.
pub proof fn fetched_manifests_are_seen_whole<E>(
    before: Download,
    reply: Result<DllPackFile, E>,
    next: Result<Download, Failure<E>>,
)
    requires
        call_ensures(Download::manifest_fetched::<E>, (before, reply), next),
    ensures
        match reply {
            Err(e) => next == Err::<Download, Failure<E>>(Failure::Outside(e)),
            Ok(file) => {
                let platform = before@.stage->Manifests_0.platform;
                &&& next is Err <==> forall|i: int|
                    0 <= i < file.platforms@.len() ==> (#[trigger] file.platforms@[i]).0@ != platform
                &&& next matches Err(failure) ==> failure@ == FailureModel::<E>::Unsupported(platform)
            },
        },
{
}

/// Whether what is left to do has, from `from` on, the library of an entry, with its
/// name or without any, and then each of its dependencies.
pub open spec fn entry_is_left(todo: Seq<TaskModel>, from: int, entry: PlatformManifest) -> bool {
    &&& from + 1 + entry.dependencies@.len() <= todo.len()
    &&& todo[from] == TaskModel::Library(
        entry.url@,
        match entry.name {
            Some(name) => Some(name@),
            None => None,
        },
    )
    &&& forall|d: int|
        0 <= d < entry.dependencies@.len() ==> looks_for(
            todo[from + 1 + d],
            (#[trigger] entry.dependencies@[d])@,
        )
}

/// Of a manifest in the cache the search has every platform left to look through: its
/// library, and each of its dependencies.
pub proof fn search_goes_through_every_platform<E>(
    before: CacheSearch,
    file: DllPackFile,
    next: Result<CacheSearch, SearchFailure<E>>,
    i: int,
) -> (from: int)
    requires
        before@ is BaseRead || before@ is Working,
        call_ensures(
            CacheSearch::manifest_read::<E>,
            (before, CachedReply::<E>::Found(file)),
            next,
        ),
        0 <= i < file.platforms@.len(),
    ensures
        next matches Ok(search) && search@ is Working && 0 <= from && entry_is_left(
            search@->Working_todo,
            from,
            file.platforms@[i].1,
        ),
{
    let search = next->Ok_0;
    let tasks = file_tasks(file@);
    let todo = search@->Working_todo;
    let at = lemma_entry_tasks(file, file.platforms@.len() as int, i);
    assert(file@.take(file.platforms@.len() as int) =~= file@);
    let skipped = todo.len() - tasks.len();
    assert(todo.skip(skipped) =~= tasks);
    assert forall|k: int| 0 <= k < tasks.len() implies todo[skipped + k] == #[trigger] tasks[k] by {
        assert(todo.skip(skipped)[k] == tasks[k]);
    }
    let entry = file.platforms@[i].1;
    assert(todo[skipped + at] == tasks[at]);
    assert forall|d: int| 0 <= d < entry.dependencies@.len() implies looks_for(
        todo[skipped + at + 1 + d],
        (#[trigger] entry.dependencies@[d])@,
    ) by {
        assert(todo[skipped + (at + 1 + d)] == tasks[at + 1 + d]);
    }
    skipped + at
}

/// Where the tasks of the entry at `i` are among those of the first `n` entries.
proof fn lemma_entry_tasks(file: DllPackFile, n: int, i: int) -> (at: int)
    requires
        0 <= i < n <= file.platforms@.len(),
    ensures
        0 <= at,
        entry_is_left(file_tasks(file@.take(n)), at, file.platforms@[i].1),
    decreases n,
{
    let front = file@.take(n - 1);
    let all = file@.take(n);
    let last = file@[n - 1];
    assert(all =~= front.push(last));
    platforms_name_all_of_theirs(front, last.0, last.1);
    let before = file_tasks(front);
    let after = file_tasks(all);
    let entry = file.platforms@[i].1;
    if i == n - 1 {
        assert(last.1 == entry@);
        assert forall|d: int| 0 <= d < entry.dependencies@.len() implies looks_for(
            after[before.len() + 1 + d],
            (#[trigger] entry.dependencies@[d])@,
        ) by {
            assert(last.1.dependencies[d] == entry.dependencies@[d]@);
        }
        before.len() as int
    } else {
        let at = lemma_entry_tasks(file, n - 1, i);
        assert(after[at] == before[at]);
        assert forall|d: int| 0 <= d < entry.dependencies@.len() implies looks_for(
            after[at + 1 + d],
            (#[trigger] entry.dependencies@[d])@,
        ) by {
            assert(after[at + 1 + d] == before[at + 1 + d]);
        }
        at
    }
}

/// The library that is opened next is the one whose turn it is: the dependencies in
/// their order, then the main library. It is opened by its path with a zero byte behind
/// it, in the namespace that is known or else in a new one. A path is refused exactly
/// where it is not UTF-8 or has a zero byte in it.
pub proof fn libraries_are_opened_in_their_order(
    load: &NativeLoad,
    request: Result<OpenRequest, OpenError>,
)
    requires
        load.wf(),
        !load@.complete(),
        call_ensures(NativeLoad::open_request, (load,), request),
    ensures
        ({
            let path = if load@.loaded < load@.libraries.dependencies.len() {
                load@.libraries.dependencies[load@.loaded as int].path
            } else {
                load@.libraries.main.path
            };
            match request {
                Ok(r) => {
                    &&& r.path@ == path.push(0u8)
                    &&& valid_utf8(path) && !path.contains(0u8)
                    &&& load@.namespace.namespace_id matches Some(id) ==> r.lmid == id
                    &&& load@.namespace.namespace_id is None ==> r.lmid == -1
                },
                Err(OpenError::InvalidUtf8) => !valid_utf8(path),
                Err(OpenError::NulByte(at)) => at < path.len() && path[at as int] == 0 && !path.take(
                    at as int,
                ).contains(0u8),
                Err(OpenError::DlmopenFailed(_)) => false,
            }
        }),
{
}

/// A library that was opened counts, with its handle behind those before, and the next
/// one has its turn. The last one, behind all dependencies, is the main library.
pub proof fn opened_libraries_count(
    load: NativeLoad,
    reply: OpenReply,
    next: Result<NativeLoad, (OpenError, DlmopenNamespace)>,
)
    requires
        load.wf(),
        !load@.complete(),
        call_ensures(NativeLoad::opened, (load, reply), next),
    ensures
        reply.handle == 0 ==> next is Err,
        match next {
            Ok(later) => {
                &&& later@.libraries == load@.libraries
                &&& later@.loaded == load@.loaded + 1
                &&& later@.namespace.handles == load@.namespace.handles.push(reply.handle)
                &&& load@.loaded == load@.libraries.dependencies.len()
                    <==> later@.loaded == later@.libraries.dependencies.len() + 1
                &&& load@.loaded == load@.libraries.dependencies.len()
                    ==> later@.namespace.main_handle == Some(reply.handle)
                &&& load@.loaded < load@.libraries.dependencies.len()
                    ==> later@.namespace.main_handle == load@.namespace.main_handle
            },
            Err((_, namespace)) => namespace@ == load@.namespace,
        },
{
}

/// A binary, however long, is compiled exactly where the engine compiles these bytes:
/// to the module of these bytes, with the image of that module for the cache. Where it
/// is not, that it does not compile is what is said.
pub proof fn compiling_fails_only_where_the_engine_does(
    engine: &WasmEngine,
    binary: &[u8],
    compiled: Result<CompiledModule, ModuleError>,
)
    requires
        call_ensures(compile_module, (engine, binary), compiled),
    ensures
        compiled is Ok <==> engine@.compiles.contains(binary@),
        compiled matches Err(error) ==> error is Compile,
        compiled matches Ok(c) ==> c.module@.binary == binary@ && c.module@.engine == engine@
            && c.cache@ == c.module@.image,
{
}

/// A loading of a module goes on from its binary exactly where the engine compiles it,
/// and then writes the image of the module of this binary.
pub proof fn binaries_are_compiled_as_they_were_read<E>(
    load: ModuleLoad,
    engine: &WasmEngine,
    reply: Result<Vec<u8>, E>,
    next: Result<ModuleLoad, ModuleLoadError<E>>,
)
    requires
        call_ensures(ModuleLoad::binary_read::<E>, (load, engine, reply), next),
    ensures
        match reply {
            Err(e) => next == Err::<ModuleLoad, ModuleLoadError<E>>(ModuleLoadError::Outside(e)),
            Ok(binary) => {
                &&& next is Ok <==> engine@.compiles.contains(binary@)
                &&& next matches Ok(later) ==> (later@ matches ModuleLoadModel::Write {
                    module,
                    cache,
                } && module@.binary == binary@ && module@.engine == engine@ && cache == module@.image)
                &&& next matches Err(error) ==> (error matches ModuleLoadError::Module(why)
                    && why is Compile)
            },
        },
{
}

/// A part is found in a text exactly where the text is the part between two others.
pub proof fn parts_are_found_where_they_are(whole: &str, part: &str, found: bool) -> (around: (
    Seq<char>,
    Seq<char>,
))
    requires
        call_ensures(contains_part, (whole, part), found),
    ensures
        found ==> whole@ == around.0 + part@ + around.1,
        !found ==> forall|before: Seq<char>, behind: Seq<char>|
            whole@ != #[trigger] between(before, part@, behind),
{
    if found {
        part_is_between(whole@, part@)
    } else {
        assert forall|before: Seq<char>, behind: Seq<char>| whole@ != #[trigger] between(
            before,
            part@,
            behind,
        ) by {
            part_occurs_between(before, part@, behind);
        }
        (Seq::empty(), Seq::empty())
    }
}

/// A text between two others.
pub open spec fn between(before: Seq<char>, part: Seq<char>, behind: Seq<char>) -> Seq<char> {
    before + part + behind
}

/// Of two byte strings that differ behind a common start, or of which one ends there,
/// the one with the smaller byte there comes before, or the one that ends.
pub proof fn bytes_are_compared_where_they_differ(a: &[u8], b: &[u8], before: bool, same: int)
    requires
        call_ensures(bytes_come_before, (a, b), before),
        0 <= same <= a@.len(),
        same <= b@.len(),
        a@.take(same) == b@.take(same),
        same < a@.len() && same < b@.len() ==> a@[same] != b@[same],
    ensures
        before <==> (same < b@.len() && (same == a@.len() || a@[same] < b@[same])),
{
    let start = a@.take(same);
    assert(a@ =~= start + a@.skip(same));
    assert(b@ =~= start + b@.skip(same));
    first_difference_decides(start, a@.skip(same), b@.skip(same));
}

/// A number is written in decimal digits that stand for it, without a zero in front.
pub proof fn numbers_are_written_in_digits(n: usize, text: String)
    requires
        call_ensures(decimal_text, (n,), text),
    ensures
        digits_value(text@) == n,
        forall|i: int| 0 <= i < text@.len() ==> '0' <= #[trigger] text@[i] <= '9',
        text@.len() > 0,
        text@[0] == '0' ==> n == 0 && text@.len() == 1,
{
    decimal_stands_for_the_number(n as nat);
}

/// The load order of a graph is the one that takes the last first, with the manifests of
/// the base URL left out. There is none exactly where some never become loadable, which
/// is where dependencies form a circle.
pub proof fn load_order_is_the_scheduled_one(
    graph: &ManifestGraph,
    base_url: &Url,
    order: Option<Vec<usize>>,
) -> (s: Schedule)
    requires
        graph@.wf(),
        call_ensures(load_order, (graph, base_url), order),
    ensures
        is_schedule(graph@, s),
        match order {
            Some(places) => places@ == s.made.filter(
                |x: usize| graph@.nodes[x as int].info.url != base_url.serialization@,
            ),
            None => s.made.len() < graph@.nodes.len(),
        },
        order is None <==> has_circle(graph@),
{
    load_order_takes_the_last_first(graph@, base_url.serialization@)
}

/// A symbol is looked up in the main library, by its name with a zero byte behind it. It
/// is at the address that came back, and there is none exactly where there is no main
/// library, the name has a zero byte in it, or the address is null.
pub proof fn symbols_are_where_the_linker_says(
    namespace: &DlmopenNamespace,
    name: &str,
    request: Result<SymbolRequest, SymbolError>,
    reply: SymbolReply,
    address: Result<usize, SymbolError>,
)
    requires
        call_ensures(DlmopenNamespace::symbol_request, (namespace, name), request),
        call_ensures(DlmopenNamespace::get_symbol, (namespace, name, reply), address),
    ensures
        ({
            let bytes = encode_utf8(name@);
            &&& request is Ok <==> namespace@.main_handle is Some && !bytes.contains(0u8)
            &&& request matches Ok(r) ==> namespace@.main_handle == Some(r.handle) && r.name@
                == bytes.push(0u8)
            &&& address is Ok <==> namespace@.main_handle is Some && !bytes.contains(0u8)
                && reply.address != 0
            &&& address matches Ok(a) ==> a == reply.address
            &&& namespace@.main_handle is None <==> (address is Err && address->Err_0 is NoMainLibrary)
            &&& address matches Err(SymbolError::NulByte(at)) ==> at < bytes.len()
                && bytes[at as int] == 0 && !bytes.take(at as int).contains(0u8)
        }),
{
    let bytes = encode_utf8(name@);
    if request is Err && namespace@.main_handle is Some {
        let at = (request->Err_0)->NulByte_0 as int;
        assert(bytes[at] == 0);
        assert(bytes.contains(0u8));
    }
}

/// What is got from a library is what was found there: a symbol of the platform's own
/// loader, an export of a module, or the address in a namespace; or the error of the
/// lookup.
pub proof fn functions_are_what_was_found<N, I, C, F, T, E>(
    by_loader: &Library<N, I, C>,
    in_namespace: &Library<NativeLibrary, I, C>,
    name: &str,
    symbol: Result<F, E>,
    export: Result<T, E>,
    address: SymbolReply,
    from_loader: Result<Function<F, T>, FunctionError<E>>,
    from_module: Result<Function<F, T>, FunctionError<E>>,
    from_namespace: Result<Function<F, T>, FunctionError<E>>,
)
    requires
        call_ensures(
            Library::<N, I, C>::found_by_loader::<F, T, E>,
            (by_loader, LookupReply::Symbol(symbol)),
            from_loader,
        ),
        call_ensures(
            Library::<NativeLibrary, I, C>::found_in_namespace::<F, T, E>,
            (in_namespace, name, LookupReply::Export(export)),
            from_module,
        ),
        call_ensures(
            Library::<NativeLibrary, I, C>::found_in_namespace::<F, T, E>,
            (in_namespace, name, LookupReply::Symbol(address)),
            from_namespace,
        ),
    ensures
        match symbol {
            Ok(f) => from_loader == Ok::<Function<F, T>, FunctionError<E>>(Function::LLFunction(f)),
            Err(e) => from_loader == Err::<Function<F, T>, FunctionError<E>>(
                FunctionError::Outside(e),
            ),
        },
        match export {
            Ok(f) => from_module == Ok::<Function<F, T>, FunctionError<E>>(
                Function::WasmFunction(f),
            ),
            Err(e) => from_module == Err::<Function<F, T>, FunctionError<E>>(
                FunctionError::Outside(e),
            ),
        },
        from_namespace matches Ok(f) ==> f == Function::<F, T>::DlmopenFn(address.address)
            && address.address != 0,
        from_namespace matches Err(error) ==> error is Symbol,
{
}

/// A module is linked exactly where its binary links with the functions of WASI, and it
/// is this module that is linked.
pub proof fn linking_fails_only_where_wasi_is_not_enough(
    module: &WasmModule,
    linked: Result<LinkedModule, ModuleError>,
)
    requires
        call_ensures(link_module, (module,), linked),
    ensures
        linked is Ok <==> links_with_wasi(module@.binary),
        linked matches Ok(l) ==> l@ == module@,
        linked matches Err(error) ==> error is Link,
{
}

/// A module that the cache has is taken from there as it was read, and one that was
/// compiled is what its loading comes to once it was written down.
pub proof fn modules_are_taken_as_they_came<E>(
    first: ModuleLoad,
    cached: ModuleLoad,
    compiled: ModuleLoad,
    in_cache: bool,
    looked: ModuleLoad,
    read: Result<wasmtime::Module, E>,
    from_cache: Result<ModuleLoad, ModuleLoadError<E>>,
    written: Result<(), E>,
    from_binary: Result<ModuleLoad, ModuleLoadError<E>>,
    module: WasmModule,
)
    requires
        call_ensures(ModuleLoad::looked, (first, in_cache), looked),
        call_ensures(ModuleLoad::cache_read::<E>, (cached, read), from_cache),
        compiled@ is Write,
        call_ensures(ModuleLoad::cache_written::<E>, (compiled, written), from_binary),
        from_binary matches Ok(end) ==> call_ensures(ModuleLoad::finish, (end,), module),
    ensures
        in_cache <==> looked@ is Cached,
        !in_cache <==> looked@ is Binary,
        match read {
            Ok(m) => from_cache matches Ok(end) && end@ matches ModuleLoadModel::Over(taken)
                && taken.inner() == m,
            Err(e) => from_cache == Err::<ModuleLoad, ModuleLoadError<E>>(
                ModuleLoadError::Outside(e),
            ),
        },
        match written {
            Ok(_) => from_binary is Ok && module == compiled@->module,
            Err(e) => from_binary == Err::<ModuleLoad, ModuleLoadError<E>>(
                ModuleLoadError::Outside(e),
            ),
        },
{
}

/// An engine is made without unwind information on Unix, and with what the machine
/// decides elsewhere. An attempt to make one fails as an engine.
pub proof fn engines_have_no_unwind_info_on_unix(
    unix: bool,
    settings: EngineSettings,
    engine: Result<WasmEngine, ModuleError>,
)
    requires
        call_ensures(engine_settings, (unix,), settings),
        call_ensures(new_engine, (unix,), engine),
    ensures
        unix <==> settings@.unwind_info == Some(false),
        !unix <==> settings@.unwind_info is None,
        engine matches Ok(e) ==> e@.unwind_info == settings@.unwind_info,
        engine matches Err(error) ==> error is Engine,
{
}

/// On Windows every drive is opened, in its order, under its name in small letters; on
/// Unix the whole file system under its own name.
pub proof fn all_directories_are_opened(
    drives: &Vec<String>,
    dirs: Vec<Preopened>,
    root: Preopened,
)
    requires
        call_ensures(pre_open_all, (drives,), dirs),
        call_ensures(pre_open_root, (), root),
    ensures
        dirs@.len() == drives@.len(),
        forall|i: int|
            0 <= i < drives@.len() ==> (#[trigger] dirs@[i]).host@ == uppercase(drives@[i]@)
                + seq![':', '\\'] && dirs@[i].guest@ == seq!['/'] + lowercase(drives@[i]@),
        root.host@ == seq!['/'] && root.guest@ == seq!['/'],
{
    reveal_strlit(":\\");
    reveal_strlit("/");
    assert(":\\"@ =~= seq![':', '\\']);
    assert("/"@ =~= seq!['/']);
}

/// How a function is called depends on what it is and, for a module's function, on
/// whether the library is a module.
pub proof fn calls_go_where_the_function_is<N, I, C, F, T>(
    symbol: F,
    export: T,
    address: usize,
    library: &Library<N, I, C>,
    of_symbol: CallRoute,
    of_export: CallRoute,
    of_address: CallRoute,
)
    requires
        call_ensures(
            Function::<F, T>::call::<N, I, C>,
            (&Function::<F, T>::LLFunction(symbol), library),
            of_symbol,
        ),
        call_ensures(
            Function::<F, T>::call::<N, I, C>,
            (&Function::<F, T>::WasmFunction(export), library),
            of_export,
        ),
        call_ensures(
            Function::<F, T>::call::<N, I, C>,
            (&Function::<F, T>::DlmopenFn(address), library),
            of_address,
        ),
    ensures
        of_symbol is Symbol,
        of_address is Address,
        *library is WasmLibrary ==> of_export is Module,
        *library is NativeLibrary ==> of_export is NoModule,
{
}

/// A function is looked up among the exports of a module, and in native libraries as a
/// symbol of the main one.
pub proof fn functions_are_looked_up_where_they_are<I, C>(
    library: &Library<NativeLibrary, I, C>,
    name: &str,
    lookup: Result<Lookup, SymbolError>,
)
    requires
        call_ensures(Library::<NativeLibrary, I, C>::get_function, (library, name), lookup),
    ensures
        *library is WasmLibrary ==> lookup is Ok && lookup->Ok_0 is Export,
        *library matches Library::NativeLibrary(native) ==> {
            &&& lookup is Ok <==> native.namespace@.main_handle is Some && !encode_utf8(
                name@,
            ).contains(0u8)
            &&& lookup matches Ok(l) ==> (l matches Lookup::Symbol(request)
                && native.namespace@.main_handle == Some(request.handle) && request.name@
                == encode_utf8(name@).push(0u8))
            &&& native.namespace@.main_handle is None ==> lookup is Err
                && lookup->Err_0 is NoMainLibrary
        },
{
    let bytes = encode_utf8(name@);
    if *library is NativeLibrary && lookup is Err && lookup->Err_0 is NulByte {
        let at = (lookup->Err_0)->NulByte_0 as int;
        assert(bytes[at] == 0);
        assert(bytes.contains(0u8));
    }
}

/// The texts of failures say what failed, between words that do not change.
pub proof fn failures_are_told_with_what_failed(
    path: &str,
    missing: String,
    platform: &str,
    circular: String,
    error: &ResolveError,
    unsupported: String,
    why: &str,
    main: String,
    dependent: String,
)
    requires
        call_ensures(manifest_not_found_message, (path,), missing),
        call_ensures(circular_message, (platform,), circular),
        call_ensures(ResolveError::message, (error,), unsupported),
        call_ensures(main_unparsable_message, (why,), main),
        call_ensures(dependent_unparsable_message, (why,), dependent),
    ensures
        missing@ == between(
            "plugin manifest not found at '"@,
            path@,
            "': run `foro install` first"@,
        ),
        circular@ == between(
            "Failed to resolve all dependencies for "@,
            platform@,
            ". It may be a circular dependency."@,
        ),
        *error matches ResolveError::PlatformNotSupported(name) ==> unsupported@ == between(
            "Platform "@,
            name@,
            " is not supported"@,
        ),
        main@ == "Failed to parse the main dllpack file: "@ + why@,
        dependent@ == "Failed to parse a dependent dllpack file: "@ + why@,
{
}

} // verus!
