use lantana::common::{debug_path_adjust, dll_extension, DllScan, InitData, PluginInfo};
use lantana::const_values::{CONFIG_DIR, GLOBAL_CONF, LOG_CONF, PLUGIN_DIR};
use lantana::load_config::get_configpath;
use lantana::path::FsPath;
use std::path::Component;

fn abs(parts: &[&str]) -> FsPath {
    FsPath::from_components(true, parts.iter().map(|s| s.to_string()).collect())
}

fn rel(parts: &[&str]) -> FsPath {
    FsPath::from_components(false, parts.iter().map(|s| s.to_string()).collect())
}

fn names(p: &FsPath) -> Vec<String> {
    p.components()
}

#[test]
fn push_then_pop_gives_back_the_path() {
    let mut p = abs(&["usr", "lib"]);
    p.push("lantana");
    assert_eq!(names(&p), vec!["usr", "lib", "lantana"]);
    assert!(p.pop());
    assert!(p.same_as(&abs(&["usr", "lib"])));
}

#[test]
fn pop_on_root_does_nothing() {
    let mut p = abs(&[]);
    assert!(!p.pop());
    assert!(p.is_absolute());
    assert!(names(&p).is_empty());
}

#[test]
fn same_as_tells_paths_apart() {
    assert!(abs(&["a", "b"]).same_as(&abs(&["a", "b"])));
    assert!(!abs(&["a", "b"]).same_as(&rel(&["a", "b"])));
    assert!(!abs(&["a", "b"]).same_as(&abs(&["a", "c"])));
    assert!(!abs(&["a"]).same_as(&abs(&["a", "b"])));
}

#[test]
fn extension_follows_the_std_rules() {
    assert_eq!(rel(&["dir", "libfoo.so"]).extension(), Some("so".to_string()));
    assert_eq!(rel(&["archive.tar.gz"]).extension(), Some("gz".to_string()));
    assert_eq!(rel(&[".bashrc"]).extension(), None);
    assert_eq!(rel(&["..so"]).extension(), Some("so".to_string()));
    assert_eq!(rel(&["noext"]).extension(), None);
    assert_eq!(rel(&["trailing."]).extension(), Some(String::new()));
    assert_eq!(rel(&["a", ".."]).extension(), None);
    assert_eq!(rel(&[]).extension(), None);
}

#[test]
fn is_extension_counts_missing_extension_as_empty() {
    assert!(rel(&["plugin.dll"]).is_extension("dll"));
    assert!(!rel(&["plugin.dll"]).is_extension("so"));
    assert!(!rel(&["plugin.dll"]).is_extension("dl"));
    assert!(rel(&["README"]).is_extension(""));
    assert!(!rel(&["README"]).is_extension("so"));
}

#[test]
fn debug_path_adjust_goes_three_levels_up() {
    let mut p = abs(&["home", "u", "proj", "target", "debug"]);
    debug_path_adjust(&mut p);
    assert_eq!(names(&p), vec!["home", "u"]);
    let mut q = abs(&["x"]);
    debug_path_adjust(&mut q);
    assert!(names(&q).is_empty());
}

#[test]
fn install_and_plugin_directories() {
    let data = InitData::new(abs(&["opt", "lantana", "lantana"]));
    assert!(data.get_module_path().same_as(&abs(&["opt", "lantana", "lantana"])));
    assert_eq!(names(&data.get_install_directory()), vec!["opt", "lantana"]);
    assert_eq!(names(&data.get_plugin_directory()), vec!["opt", "lantana", PLUGIN_DIR]);
    assert!(data.get_plugin_directory().is_absolute());
}

#[test]
fn search_and_log_paths_for_release_and_debug_builds() {
    let data = InitData::new(abs(&["w", "proj", "target", "debug", "lantana"]));
    assert_eq!(names(&data.plugin_search_directory(false)), vec!["w", "proj", "target", "debug", "plugins"]);
    assert_eq!(names(&data.plugin_search_directory(true)), vec!["w", "plugins"]);
    assert_eq!(names(&data.log_config_path(false)), vec!["w", "proj", "target", "debug", "config", "log4rs.toml"]);
    assert_eq!(names(&data.log_config_path(true)), vec!["w", CONFIG_DIR, LOG_CONF]);
}

#[test]
fn loaded_modules_are_found_after_registration() {
    let mut data = InitData::new(abs(&["opt", "lantana"]));
    let a = "/opt/plugins/a.so";
    let b = "/opt/plugins/b.so";
    assert!(data.find_loadmodule(a).is_none());
    data.register_loaded_module(a.to_string());
    data.register_loaded_module(a.to_string());
    assert!(data.find_loadmodule(a).is_some());
    assert!(data.find_loadmodule(b).is_none());
    assert!(data.find_loadmodule("/opt/plugins/./a.so").is_none());
    data.register_loaded_module(b.to_string());
    let copy = data.clone();
    assert!(copy.find_loadmodule(a).is_some());
    assert!(copy.find_loadmodule(b).is_some());
}

#[test]
fn configpath_is_relative_to_the_config_directory() {
    let p = get_configpath(GLOBAL_CONF);
    assert!(!p.is_absolute());
    assert_eq!(names(&p), vec!["config", "lantana.toml"]);
}

#[test]
fn configpath_of_nested_and_absolute_files() {
    let p = get_configpath("sub/x.toml");
    assert!(!p.is_absolute());
    assert_eq!(names(&p), vec!["config", "sub", "x.toml"]);
    let q = get_configpath("/etc/x.toml");
    assert!(q.is_absolute());
    assert_eq!(names(&q), vec!["etc", "x.toml"]);
}

fn std_view(p: &std::path::Path) -> (bool, Vec<String>) {
    let mut absolute = false;
    let mut parts = Vec::new();
    for c in p.components() {
        match c {
            Component::RootDir => absolute = true,
            Component::CurDir => parts.push(".".to_string()),
            Component::ParentDir => parts.push("..".to_string()),
            Component::Normal(n) => parts.push(n.to_string_lossy().into_owned()),
            Component::Prefix(x) => parts.push(x.as_os_str().to_string_lossy().into_owned()),
        }
    }
    (absolute, parts)
}

const SAMPLES: [&str; 14] = [
    "", ".", "./", "./a", "a/./b", "a//b/", "/", "/./a", "..", "../a", "a/..", ".x", "a/.",
    "/etc//x.toml",
];

#[test]
fn parse_agrees_with_std_paths() {
    for s in SAMPLES {
        let p = FsPath::parse(s);
        assert_eq!((p.is_absolute(), names(&p)), std_view(std::path::Path::new(s)), "{:?}", s);
    }
}

#[test]
fn push_agrees_with_std_path_buf() {
    let bases = ["", ".", "a", "/", "/a/b", "./c"];
    for base in bases {
        for s in SAMPLES {
            let mut p = FsPath::parse(base);
            p.push(s);
            let mut q = std::path::PathBuf::from(base);
            q.push(s);
            assert_eq!((p.is_absolute(), names(&p)), std_view(&q), "{:?} + {:?}", base, s);
        }
    }
}

#[test]
fn dll_extension_per_platform() {
    assert_eq!(dll_extension(true), "dll");
    assert_eq!(dll_extension(false), "so");
}

#[test]
fn dll_scan_keeps_only_plugin_files_and_walks_directories_depth_first() {
    let mut scan = DllScan::new(rel(&["plugins"]), "so");
    let root = scan.next_dir().unwrap();
    assert_eq!(names(&root), vec!["plugins"]);
    scan.visit_entry(rel(&["plugins", "a.so"]), false, true);
    scan.visit_entry(rel(&["plugins", "notes.txt"]), false, true);
    scan.visit_entry(rel(&["plugins", "sub"]), true, false);
    scan.visit_entry(rel(&["plugins", "other"]), true, false);
    scan.visit_entry(rel(&["plugins", "link.so"]), false, false);
    let next = scan.next_dir().unwrap();
    assert_eq!(names(&next), vec!["plugins", "other"]);
    scan.visit_entry(rel(&["plugins", "other", "b.so"]), false, true);
    let next = scan.next_dir().unwrap();
    assert_eq!(names(&next), vec!["plugins", "sub"]);
    assert!(scan.next_dir().is_none());
    let found: Vec<Vec<String>> = scan.into_found().iter().map(|p| p.components()).collect();
    assert_eq!(found, vec![vec!["plugins", "a.so"], vec!["plugins", "other", "b.so"]]);
}

#[test]
fn a_plugin_that_fails_to_load_changes_nothing() {
    let mut data = InitData::new(abs(&["opt", "lantana"]));
    let mut plugins: Vec<PluginInfo> = Vec::new();
    let dll = abs(&["opt", "plugins", "broken.so"]);
    let key = "/opt/plugins/broken.so".to_string();
    let r = data.admit_plugin(&mut plugins, dll, key.clone(), Err::<libloading::Library, &str>("bad"));
    assert_eq!(r, Some("bad"));
    assert!(plugins.is_empty());
    assert!(data.find_loadmodule(&key).is_none());
}

#[test]
fn prefix_survives_pop_and_push() {
    let mut p = FsPath::from_parts("C:".to_string(), true, vec!["x".to_string(), "y".to_string()]);
    debug_path_adjust(&mut p);
    assert_eq!(p.prefix(), "C:");
    assert!(p.is_absolute());
    assert!(names(&p).is_empty());
    assert!(!p.pop());
    assert_eq!(p.prefix(), "C:");
    p.push("/abs/z");
    assert_eq!(p.prefix(), "C:");
    assert_eq!(names(&p), vec!["abs", "z"]);
    let mut q = FsPath::from_parts("C:".to_string(), false, Vec::new());
    q.push("a");
    assert_eq!(q.prefix(), "C:");
    assert!(!q.is_absolute());
    assert_eq!(names(&q), vec!["a"]);
    assert!(!q.same_as(&rel(&["a"])));
}
