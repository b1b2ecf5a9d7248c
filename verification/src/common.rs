//! What the host knows of its own installation and of the plugins it found:
//! where it is installed, where plugins and configuration live, which plugin
//! files were loaded, and the search for plugin files below a directory.
use vstd::prelude::*;

use crate::const_values::{lemma_names_are_plain_components, CONFIG_DIR, LOG_CONF, PLUGIN_DIR};
use crate::builder::thread_observer::{watching, ObserverTable};
use crate::load_config::GlobalConfig;
use crate::path::{lemma_plain_component, FsPath, PathView};

verus! {

#[verifier::external_type_specification]
#[verifier::external_body]
pub struct ExLibrary(libloading::Library);

/// What the host keeps of a loaded plugin.
#[derive(Clone, Copy, Debug, PartialEq, Eq, Structural)]
pub struct PluginState {}

impl PluginState {
    pub fn new() -> (r: Self)
        ensures
            r == (PluginState {}),
    {
        PluginState {}
    }
}

/// The path three levels up, where a development build finds the
/// directories that an installed host has beside its executable.
pub open spec fn debug_adjusted(p: PathView) -> PathView {
    p.parent().parent().parent()
}

/// Moves a path three levels up, as a development build does to reach the
/// directories that an installed host has beside its executable.
pub fn debug_path_adjust(path: &mut FsPath)
    ensures
        final(path)@ == debug_adjusted(old(path)@),
{
    path.pop();
    path.pop();
    path.pop();
}

/// The plugin directory lies in the directory of the executable: its parent
/// is the install directory.
pub proof fn lemma_plugin_directory_in_install_directory(exe: PathView)
    ensures
        exe.parent().join(PLUGIN_DIR@).parent() == exe.parent(),
{
    crate::path::lemma_join_then_parent(exe.parent(), PLUGIN_DIR@);
}

/// The host's start-up data, as a value: the path of the executable, the
/// texts of the paths of the plugin files loaded, whether the
/// configuration was read.
pub struct InitView {
    pub exe_path: PathView,
    pub loaded_modules: Set<Seq<char>>,
    pub has_config: bool,
}

/// The start-up data after the plugin file whose path reads `key` was
/// recorded as loaded.
pub open spec fn with_module(v: InitView, key: Seq<char>) -> InitView {
    InitView { loaded_modules: v.loaded_modules.insert(key), ..v }
}

/// Whether the plugin file whose path reads `key` is recorded as loaded.
pub open spec fn has_module(v: InitView, key: Seq<char>) -> bool {
    v.loaded_modules.contains(key)
}

/// A plugin file that was recorded as loaded is found afterwards; any other
/// file is found afterwards exactly when it was before; and nothing else of
/// the start-up data changes.
pub proof fn lemma_registered_module_is_found(v: InitView, key: Seq<char>, other: Seq<char>)
    ensures
        has_module(with_module(v, key), key),
        other != key ==> has_module(with_module(v, key), other) == has_module(v, other),
        with_module(v, key).exe_path == v.exe_path,
        with_module(v, key).has_config == v.has_config,
{
}

/// Before any plugin file is recorded as loaded, none is found.
pub proof fn lemma_nothing_loaded_at_start(v: InitView, key: Seq<char>)
    requires
        v.loaded_modules == Set::<Seq<char>>::empty(),
    ensures
        !has_module(v, key),
        has_module(with_module(v, key), key),
{
}

/// The texts of a list of loaded modules, as a set.
pub open spec fn loaded_set(s: Seq<Seq<char>>) -> Set<Seq<char>> {
    Set::new(|p: Seq<char>| s.contains(p))
}

/// The data the host starts from: the path of its executable, the plugin
/// files it has loaded, and its configuration once read.
#[derive(Debug)]
pub struct InitData {
    exe_path: FsPath,
    loaded_modules: Vec<(String, PluginState)>,
    config: Option<Box<GlobalConfig>>,
}

spec fn loaded_paths(v: Seq<(String, PluginState)>) -> Seq<Seq<char>> {
    v.map_values(|e: (String, PluginState)| e.0@)
}

impl View for InitData {
    type V = InitView;

    closed spec fn view(&self) -> InitView {
        InitView {
            exe_path: self.exe_path@,
            loaded_modules: loaded_set(loaded_paths(self.loaded_modules@)),
            has_config: self.config is Some,
        }
    }
}

fn find_module(v: &Vec<(String, PluginState)>, path: &str) -> (r: Option<usize>)
    ensures
        match r {
            Some(i) => i < v@.len() && v@[i as int].0@ == path@,
            None => !loaded_paths(v@).contains(path@),
        },
{
    let n = v.len();
    let mut i: usize = 0;
    while i < n
        invariant
            n == v@.len(),
            i <= n,
            forall|j: int| 0 <= j < i ==> v@[j].0@ != path@,
        decreases n - i,
    {
        if crate::path::str_equal(v[i].0.as_str(), path) {
            return Some(i);
        }
        i = i + 1;
    }
    proof {
        if loaded_paths(v@).contains(path@) {
            let j = choose|j: int| 0 <= j < loaded_paths(v@).len() && loaded_paths(v@)[j] == path@;
            assert(v@[j].0@ == path@);
        }
    }
    None
}

impl InitData {
    #[verifier::type_invariant]
    spec fn no_module_twice(self) -> bool {
        loaded_paths(self.loaded_modules@).no_duplicates()
    }

    /// Start-up data for an executable at `exe_path`, before any plugin
    /// is loaded or the configuration read.
    pub fn new(exe_path: FsPath) -> (r: Self)
        ensures
            r@.exe_path == exe_path@,
            r@.loaded_modules == Set::<Seq<char>>::empty(),
            !r@.has_config,
    {
        let r = InitData { exe_path, loaded_modules: Vec::new(), config: None };
        assert(loaded_paths(r.loaded_modules@) =~= Seq::<Seq<char>>::empty());
        assert(r@.loaded_modules =~= Set::<Seq<char>>::empty());
        r
    }

    pub fn get_module_path(&self) -> (r: FsPath)
        ensures
            r@ == self@.exe_path,
    {
        self.exe_path.clone()
    }

    /// The directory that holds the executable.
    pub fn get_install_directory(&self) -> (r: FsPath)
        ensures
            r@ == self@.exe_path.parent(),
    {
        let mut install_path = self.exe_path.clone();
        install_path.pop();
        install_path
    }

    /// The loaded plugin whose path reads `path`, if there is one.
    pub fn find_loadmodule(&self, path: &str) -> (r: Option<&PluginState>)
        ensures
            r is Some <==> has_module(self@, path@),
    {
        match find_module(&self.loaded_modules, path) {
            Some(i) => {
                assert(loaded_paths(self.loaded_modules@)[i as int] == path@);
                Some(&self.loaded_modules[i].1)
            },
            None => None,
        }
    }

    /// The plugin directory beside the executable.
    pub fn get_plugin_directory(&self) -> (r: FsPath)
        ensures
            r@ == self@.exe_path.parent().join(PLUGIN_DIR@),
    {
        let mut basedir = self.get_install_directory();
        proof {
            lemma_names_are_plain_components();
            lemma_plain_component(basedir@, PLUGIN_DIR@);
        }
        basedir.push(PLUGIN_DIR);
        basedir
    }

    /// The directory searched for plugin files: the plugin directory beside
    /// the executable, or, for a development build, beside the directory
    /// three levels up.
    pub fn plugin_search_directory(&self, debug_build: bool) -> (r: FsPath)
        ensures
            r@ == (if debug_build {
                debug_adjusted(self@.exe_path.parent())
            } else {
                self@.exe_path.parent()
            }).join(PLUGIN_DIR@),
    {
        let mut dir = self.get_install_directory();
        if debug_build {
            debug_path_adjust(&mut dir);
        }
        proof {
            lemma_names_are_plain_components();
            lemma_plain_component(dir@, PLUGIN_DIR@);
        }
        dir.push(PLUGIN_DIR);
        dir
    }

    /// The logging configuration file: in the configuration directory beside
    /// the executable, or, for a development build, beside the directory
    /// three levels up.
    pub fn log_config_path(&self, debug_build: bool) -> (r: FsPath)
        ensures
            r@ == (if debug_build {
                debug_adjusted(self@.exe_path.parent())
            } else {
                self@.exe_path.parent()
            }).join(CONFIG_DIR@).join(LOG_CONF@),
    {
        let mut dir = self.get_install_directory();
        if debug_build {
            debug_path_adjust(&mut dir);
        }
        proof {
            lemma_names_are_plain_components();
            lemma_plain_component(dir@, CONFIG_DIR@);
            lemma_plain_component(dir@.join(CONFIG_DIR@), LOG_CONF@);
        }
        dir.push(CONFIG_DIR);
        dir.push(LOG_CONF);
        dir
    }

    /// Records that the plugin file whose path reads `path` was loaded.
    pub fn register_loaded_module(&mut self, path: String)
        ensures
            final(self)@ == with_module(old(self)@, path@),
    {
        proof {
            use_type_invariant(&*self);
        }
        let ghost old_paths = loaded_paths(self.loaded_modules@);
        let ghost p = path@;
        let mut modules: Vec<(String, PluginState)> = Vec::new();
        std::mem::swap(&mut modules, &mut self.loaded_modules);
        match find_module(&modules, path.as_str()) {
            Some(i) => {
                let ghost old_modules = modules@;
                modules.set(i, (path, PluginState::new()));
                assert(loaded_paths(modules@) =~= old_paths);
                assert(old_paths.contains(p)) by {
                    assert(old_paths[i as int] == p);
                }
                assert(loaded_set(old_paths) =~= loaded_set(old_paths).insert(p));
            },
            None => {
                modules.push((path, PluginState::new()));
                assert(loaded_paths(modules@) =~= old_paths.push(p));
                assert(loaded_set(old_paths.push(p)) =~= loaded_set(old_paths).insert(p)) by {
                    assert forall|q: Seq<char>| #[trigger] old_paths.push(p).contains(q) <==> (
                    old_paths.contains(q) || q == p) by {
                        if old_paths.push(p).contains(q) {
                            let j = choose|j: int|
                                0 <= j < old_paths.push(p).len() && old_paths.push(p)[j] == q;
                            if j < old_paths.len() {
                                assert(old_paths[j] == q);
                            }
                        }
                        if old_paths.contains(q) {
                            let j = choose|j: int| 0 <= j < old_paths.len() && old_paths[j] == q;
                            assert(old_paths.push(p)[j] == q);
                        }
                        if q == p {
                            assert(old_paths.push(p)[old_paths.len() as int] == q);
                        }
                    }
                }
            },
        }
        self.loaded_modules = modules;
    }

    /// Keeps the configuration that was read.
    pub fn set_config(&mut self, config: Box<GlobalConfig>)
        ensures
            final(self)@ == (InitView { has_config: true, ..old(self)@ }),
    {
        proof {
            use_type_invariant(&*self);
        }
        self.config = Some(config);
    }
}

impl Clone for InitData {
    fn clone(&self) -> (r: Self)
        ensures
            r@ == self@,
    {
        proof {
            use_type_invariant(self);
        }
        let mut modules: Vec<(String, PluginState)> = Vec::new();
        let n = self.loaded_modules.len();
        let mut i: usize = 0;
        while i < n
            invariant
                n == self.loaded_modules@.len(),
                i <= n,
                modules@.len() == i,
                forall|j: int| 0 <= j < i ==> #[trigger] modules@[j].0@ == self.loaded_modules@[j].0@,
            decreases n - i,
        {
            modules.push((self.loaded_modules[i].0.clone(), PluginState::new()));
            i = i + 1;
        }
        assert(loaded_paths(modules@) =~= loaded_paths(self.loaded_modules@));
        let config = match &self.config {
            Some(_) => Some(Box::new(GlobalConfig::new())),
            None => None,
        };
        InitData { exe_path: self.exe_path.clone(), loaded_modules: modules, config }
    }
}

/// A loaded plugin library and the file it was loaded from.
#[derive(Debug)]
pub struct PluginInfo {
    lib: libloading::Library,
    dll: FsPath,
}

impl PluginInfo {
    pub fn new(lib: libloading::Library, dll: FsPath) -> (r: Self)
        ensures
            r.instance() == lib,
            r.dll_path() == dll@,
    {
        PluginInfo { lib, dll }
    }

    pub closed spec fn instance(&self) -> libloading::Library {
        self.lib
    }

    pub closed spec fn dll_path(&self) -> PathView {
        self.dll@
    }

    pub fn get_instance(&self) -> (r: &libloading::Library)
        ensures
            *r == self.instance(),
    {
        &self.lib
    }

    pub fn get_pluginpath(&self) -> (r: FsPath)
        ensures
            r@ == self.dll_path(),
    {
        self.dll.clone()
    }
}

impl InitData {
    /// Takes in the outcome of loading the plugin file `dll`, whose path
    /// reads `key`. A library that loaded is recorded as loaded under `key`
    /// and added, with its file, to `plugins`; a failure changes nothing
    /// and is handed back for the caller to report.
    pub fn admit_plugin<E>(
        &mut self,
        plugins: &mut Vec<PluginInfo>,
        dll: FsPath,
        key: String,
        loaded: Result<libloading::Library, E>,
    ) -> (r: Option<E>)
        ensures
            match loaded {
                Ok(lib) => {
                    &&& r is None
                    &&& final(self)@ == with_module(old(self)@, key@)
                    &&& final(plugins)@.len() == old(plugins)@.len() + 1
                    &&& final(plugins)@.take(old(plugins)@.len() as int) == old(plugins)@
                    &&& final(plugins)@.last().instance() == lib
                    &&& final(plugins)@.last().dll_path() == dll@
                },
                Err(e) => {
                    &&& r == Some(e)
                    &&& final(self)@ == old(self)@
                    &&& final(plugins)@ == old(plugins)@
                },
            },
    {
        match loaded {
            Ok(lib) => {
                self.register_loaded_module(key);
                plugins.push(PluginInfo::new(lib, dll));
                assert(plugins@.take(old(plugins)@.len() as int) =~= old(plugins)@);
                None
            },
            Err(e) => Some(e),
        }
    }
}

/// How the closing session of a plugin starts.
pub enum ClosingStart {
    /// The host holds no library for the plugin: nothing is run.
    NoLibrary,
    /// The session is now watched on the thread: run it, then stop the
    /// watch and report that it completed.
    Run,
}

/// Starts the closing session of a plugin on thread `tid`: with no library
/// there is nothing to run; otherwise the call of `core_ending_session` of
/// the plugin's file is watched on the thread, and the session may run.
pub fn begin_closing_session(table: &mut ObserverTable, tid: u64, plugin: Option<&PluginInfo>) -> (r:
    ClosingStart)
    ensures
        match plugin {
            None => r is NoLibrary && final(table)@ == old(table)@,
            Some(p) => r is Run && final(table)@ == watching(
                old(table)@,
                "core_ending_session"@,
                tid,
                p.dll_path(),
            ),
        },
{
    match plugin {
        None => ClosingStart::NoLibrary,
        Some(p) => {
            proof {
                reveal_strlit("core_ending_session");
            }
            let started = table.activate("core_ending_session", tid, p.get_pluginpath());
            assert(started is Ok);
            ClosingStart::Run
        },
    }
}

/// Extension of the plugin files the host loads: `dll` on Windows, `so`
/// elsewhere.
pub fn dll_extension(windows: bool) -> (r: &'static str)
    ensures
        r@ == (if windows {
            "dll"@
        } else {
            "so"@
        }),
{
    if windows {
        "dll"
    } else {
        "so"
    }
}

/// A path has extension `ext`, a path without one counting as having the
/// empty extension.
pub open spec fn has_extension(p: PathView, ext: Seq<char>) -> bool {
    match p.extension() {
        Some(e) => e == ext,
        None => ext.len() == 0,
    }
}

/// A search in progress, as a value.
pub struct ScanView {
    pub pending: Seq<PathView>,
    pub found: Seq<PathView>,
    pub extension: Seq<char>,
}

pub open spec fn found_match(v: ScanView) -> bool {
    forall|i: int| 0 <= i < v.found.len() ==> has_extension(#[trigger] v.found[i], v.extension)
}

/// Depth-first search for plugin files below a directory: the directories
/// still to be read, and the files with the plugin extension found so far.
/// The caller reads each directory and hands every entry to `visit_entry`.
pub struct DllScan {
    pending: Vec<FsPath>,
    found: Vec<FsPath>,
    extension: String,
}

/// The values of a list of paths.
pub open spec fn paths_view(v: Seq<FsPath>) -> Seq<PathView> {
    v.map_values(|p: FsPath| p@)
}

impl View for DllScan {
    type V = ScanView;

    closed spec fn view(&self) -> ScanView {
        ScanView {
            pending: paths_view(self.pending@),
            found: paths_view(self.found@),
            extension: self.extension@,
        }
    }
}

impl DllScan {
    #[verifier::type_invariant]
    spec fn only_plugin_files(self) -> bool {
        found_match(self@)
    }

    /// A search that starts at `dir` for files with extension `dll_ext`.
    pub fn new(dir: FsPath, dll_ext: &str) -> (r: Self)
        ensures
            r@ == (ScanView { pending: seq![dir@], found: Seq::empty(), extension: dll_ext@ }),
    {
        let mut pending: Vec<FsPath> = Vec::new();
        pending.push(dir);
        let r = DllScan { pending, found: Vec::new(), extension: dll_ext.to_owned() };
        assert(r@.pending =~= seq![dir@]);
        assert(r@.found =~= Seq::<PathView>::empty());
        r
    }

    /// The directory to read next, the one found last; `None` when every
    /// directory has been read.
    pub fn next_dir(&mut self) -> (r: Option<FsPath>)
        ensures
            old(self)@.pending.len() == 0 ==> r is None && final(self)@ == old(self)@,
            old(self)@.pending.len() > 0 ==> (r matches Some(p) && p@ == old(self)@.pending.last()
                && final(self)@ == (ScanView {
                pending: old(self)@.pending.drop_last(),
                ..old(self)@
            })),
            found_match(final(self)@),
    {
        let DllScan { mut pending, found, extension } = self.take();
        let r = pending.pop();
        assert(paths_view(pending@) =~= old(self)@.pending.drop_last() || old(self)@.pending.len()
            == 0);
        *self = DllScan { pending, found, extension };
        r
    }

    /// The search as it stands, leaving in its place one that has nothing
    /// left to do.
    fn take(&mut self) -> (r: Self)
        ensures
            r@ == old(self)@,
            found_match(r@),
    {
        let mut r = DllScan { pending: Vec::new(), found: Vec::new(), extension: String::new() };
        assert(found_match(r@));
        std::mem::swap(&mut r, self);
        proof {
            use_type_invariant(&r);
        }
        r
    }

    /// Takes in one entry of the directory being read: a directory is
    /// searched later, a file with the plugin extension is kept, anything
    /// else is passed over.
    pub fn visit_entry(&mut self, path: FsPath, is_dir: bool, is_file: bool)
        ensures
            is_dir ==> final(self)@ == (ScanView {
                pending: old(self)@.pending.push(path@),
                ..old(self)@
            }),
            !is_dir && is_file && has_extension(path@, old(self)@.extension) ==> final(self)@ == (
            ScanView { found: old(self)@.found.push(path@), ..old(self)@ }),
            !is_dir && !(is_file && has_extension(path@, old(self)@.extension)) ==> final(self)@
                == old(self)@,
            found_match(final(self)@),
    {
        let DllScan { mut pending, mut found, extension } = self.take();
        let ghost p = path@;
        if is_dir {
            pending.push(path);
            assert(paths_view(pending@) =~= old(self)@.pending.push(p));
        } else {
            let is_dll = path.is_extension(extension.as_str());
            if is_file && is_dll {
                found.push(path);
                assert(paths_view(found@) =~= old(self)@.found.push(p));
            }
        }
        *self = DllScan { pending, found, extension };
    }

    /// The plugin files found, in the order they were found.
    pub fn into_found(self) -> (r: Vec<FsPath>)
        ensures
            paths_view(r@) == self@.found,
            forall|i: int| 0 <= i < r@.len() ==> has_extension(#[trigger] r@[i]@, self@.extension),
    {
        proof {
            use_type_invariant(&self);
        }
        let ghost ext = self@.extension;
        let ghost v = self@;
        assert(found_match(v));
        let DllScan { pending: _, found, extension: _ } = self;
        assert(v.found == paths_view(found@));
        assert forall|i: int| 0 <= i < found@.len() implies has_extension(
            #[trigger] found@[i]@,
            ext,
        ) by {
            assert(paths_view(found@)[i] == found@[i]@);
            assert(has_extension(v.found[i], v.extension));
        }
        found
    }
}

/// A path has the plugin extension exactly when its extension is that
/// one, or it has none and the plugin extension is empty: a file without
/// an extension never counts as a plugin file when plugin files have one.
pub proof fn lemma_plugin_extension_exact(p: PathView, ext: Seq<char>)
    ensures
        has_extension(p, ext) <==> (p.extension() == Some(ext) || (p.extension() is None
            && ext.len() == 0)),
        p.extension() is None && ext.len() > 0 ==> !has_extension(p, ext),
{
}

/// Every file a search keeps has the plugin extension: its extension is
/// that one, or it has none and the plugin extension is empty.
pub proof fn lemma_scan_keeps_only_plugin_files(v: ScanView)
    requires
        found_match(v),
    ensures
        forall|i: int|
            0 <= i < v.found.len() ==> (#[trigger] v.found[i]).extension() == Some(v.extension) || (
            v.found[i].extension() is None && v.extension.len() == 0),
{
    assert forall|i: int| 0 <= i < v.found.len() implies (#[trigger] v.found[i]).extension() == Some(
        v.extension,
    ) || (v.found[i].extension() is None && v.extension.len() == 0) by {
        assert(has_extension(v.found[i], v.extension));
    }
}

/// A development build goes three levels up: it drops the last three
/// components (all of them when there are fewer) and keeps the prefix and
/// the start of the path.
pub proof fn lemma_debug_adjust_goes_three_up(p: PathView)
    ensures
        debug_adjusted(p).prefix == p.prefix,
        debug_adjusted(p).absolute == p.absolute,
        p.components.len() >= 3 ==> debug_adjusted(p).components == p.components.take(
            p.components.len() - 3,
        ),
        p.components.len() < 3 ==> debug_adjusted(p).components.len() == 0,
{
    if p.components.len() >= 3 {
        assert(p.components.drop_last().drop_last().drop_last() =~= p.components.take(
            p.components.len() - 3,
        ));
    }
}

} // verus!
