use script_runner::pattern::{find_import, import_of, IMPORT_PATTERN};
use script_runner::resolver::{classify, local_file_name, resolve_relative, Pending, Resolution, Target};

fn found(line: &str) -> Option<(String, String)> {
    find_import(line).map(|i| (i.whole, i.name))
}

fn pass(installed: &[&str], root: &str) -> Resolution {
    Resolution::new(
        installed.iter().map(|s| s.to_string()).collect(),
        root.to_string(),
        "/cache".to_string(),
    )
}

fn internal(t: Target) -> (String, String) {
    match t {
        Target::Internal { key, file_name } => (key, file_name),
        _ => panic!("not a workspace module"),
    }
}

fn pairs(p: &[Pending]) -> Vec<(String, String)> {
    p.iter().map(|x| (x.key.clone(), x.file_name.clone())).collect()
}

#[test]
fn import_forms() {
    assert_eq!(found("Import-Module Foo"), Some(("Import-Module Foo".to_string(), "Foo".to_string())));
    assert_eq!(found("Import-Module \"Foo\" -x"), Some(("Import-Module \"Foo\"".to_string(), "Foo".to_string())));
    assert_eq!(found("import-module 'f/a/b'"), Some(("import-module 'f/a/b'".to_string(), "f/a/b".to_string())));
    assert_eq!(
        found("IMPORT-MODULE -Force -Name ./lib.ps1 # note"),
        Some(("IMPORT-MODULE -Force -Name ./lib.ps1".to_string(), "./lib.ps1".to_string()))
    );
}

#[test]
fn lines_without_an_import() {
    assert_eq!(found(""), None);
    assert_eq!(found("  Import-Module Foo"), None);
    assert_eq!(found("Write-Host Import-Module Foo"), None);
    assert_eq!(found("Import-Module"), None);
}

#[test]
fn groups_must_be_complete() {
    assert!(import_of(&vec![Some("x".to_string()), None, None, None]).is_none());
    assert!(import_of(&vec![Some("x".to_string()), Some("y".to_string())]).is_none());
    assert!(import_of(&vec![None, Some("y".to_string()), None, None]).is_none());
    let i = import_of(&vec![Some("w".to_string()), None, Some("b".to_string()), Some("c".to_string())]).unwrap();
    assert_eq!((i.whole.as_str(), i.name.as_str()), ("w", "b"));
    assert!(regex::Regex::new(IMPORT_PATTERN).is_ok());
}

#[test]
fn cached_modules_match_without_regard_to_case() {
    let installed = vec!["az.accounts".to_string()];
    let root = "f/x/main".to_string();
    assert!(matches!(classify(&installed, &root, "Az.Accounts"), Target::Cached));
    assert!(matches!(classify(&installed, &root, "Az.Storage"), Target::External));
}

#[test]
fn workspace_modules_get_a_flat_file_name() {
    let root = "f/x/main".to_string();
    let (key, file) = internal(classify(&Vec::new(), &root, "f/lib/util.ps1"));
    assert_eq!(key, "f/lib/util");
    assert_eq!(file, "f.lib.util.ps1");
    let (key, file) = internal(classify(&Vec::new(), &root, "u/me/tools"));
    assert_eq!(key, "u/me/tools");
    assert_eq!(file, "u.me.tools.ps1");
    assert_eq!(local_file_name("a/b/c"), "a.b.c.ps1");
}

#[test]
fn relative_modules_resolve_against_the_root_directory() {
    let root = "f/x/main".to_string();
    let (key, file) = internal(classify(&Vec::new(), &root, "./helper.ps1"));
    assert_eq!(key, "f/x/helper");
    assert_eq!(file, "f.x.helper.ps1");
    let (key, _) = internal(classify(&Vec::new(), &root, "../shared/helper"));
    assert_eq!(key, "f/shared/helper");
    assert_eq!(resolve_relative("f/x/main", "./a/../b"), "f/x/b");
    assert_eq!(resolve_relative("main", "./b"), "b");
}

#[test]
fn self_import_goes_by_the_reserved_key() {
    let root = "f/x/main".to_string();
    let (key, file) = internal(classify(&Vec::new(), &root, "./main.ps1"));
    assert_eq!(key, "main");
    assert_eq!(file, "main.ps1");
    let (key, _) = internal(classify(&Vec::new(), &root, "f/x/main"));
    assert_eq!(key, "main");

    let mut r = pass(&[], "f/x/main");
    let code = r.scan("Import-Module ./main.ps1\nWrite-Host hi");
    assert_eq!(code, "Import-Module ./main.ps1\nWrite-Host hi");
    assert!(r.pending.is_empty());
    assert_eq!(r.visited, vec!["main".to_string()]);
    assert!(r.take_pending().is_none());
}

#[test]
fn cache_hit_installs_nothing() {
    let mut r = pass(&["pester"], "f/x/main");
    let code = r.scan("Import-Module Pester\n");
    assert_eq!(code, "Import-Module Pester\n");
    assert_eq!(r.install, "");
    assert_eq!(r.logs, "\nPester found in cache");
    assert!(r.install_command().is_none());
    assert!(r.pending.is_empty());
}

#[test]
fn each_external_module_gets_one_directive_in_one_command() {
    let mut r = pass(&[], "f/x/main");
    let code = r.scan("Import-Module Alpha\r\n$x = 1\nImport-Module -Name 'Beta'\n");
    assert_eq!(code, "Import-Module Alpha\r\n$x = 1\nImport-Module -Name 'Beta'\n");
    assert_eq!(r.install, "Save-Module -Path /cache -Force Alpha;Save-Module -Path /cache -Force Beta;");
    assert_eq!(r.logs, "\nAlpha not found in cache\nBeta not found in cache");
    assert_eq!(r.install_command(), Some(vec!["-Command".to_string(), r.install.clone()]));
    assert!(r.pending.is_empty());
}

#[test]
fn workspace_imports_are_rewritten_and_queued_once() {
    let mut r = pass(&[], "f/x/main");
    let code = r.scan("Import-Module f/lib/a.ps1\nImport-Module \"./b\"\nImport-Module f/lib/a.ps1\n");
    assert_eq!(
        code,
        "Import-Module ./f.lib.a.ps1\nImport-Module \"./f.x.b.ps1\"\nImport-Module ./f.lib.a.ps1\n"
    );
    assert_eq!(
        pairs(&r.pending),
        vec![
            ("f/lib/a".to_string(), "f.lib.a.ps1".to_string()),
            ("f/x/b".to_string(), "f.x.b.ps1".to_string()),
        ]
    );
    assert_eq!(r.visited, vec!["main".to_string(), "f/lib/a".to_string(), "f/x/b".to_string()]);
    assert_eq!(r.install, "");
}

#[test]
fn a_cycle_is_fetched_once_per_module() {
    let mut r = pass(&[], "f/x/main");
    let _ = r.scan("Import-Module f/a");
    let p = r.take_pending().unwrap();
    assert_eq!(p.key, "f/a");
    let a = r.scan("Import-Module f/b\nImport-Module f/x/main");
    assert_eq!(a, "Import-Module ./f.b.ps1\nImport-Module ./main.ps1");
    let p = r.take_pending().unwrap();
    assert_eq!(p.key, "f/b");
    let b = r.scan("Import-Module f/a\nImport-Module f/b");
    assert_eq!(b, "Import-Module ./f.a.ps1\nImport-Module ./f.b.ps1");
    assert!(r.take_pending().is_none());
    assert_eq!(r.visited, vec!["main".to_string(), "f/a".to_string(), "f/b".to_string()]);
}

#[test]
fn take_pending_hands_out_the_latest_first() {
    let mut r = pass(&[], "f/x/main");
    let _ = r.scan("Import-Module f/a\nImport-Module f/b");
    assert_eq!(r.take_pending().map(|p| p.key), Some("f/b".to_string()));
    assert_eq!(r.take_pending().map(|p| p.key), Some("f/a".to_string()));
    assert!(r.take_pending().is_none());
}

#[test]
fn note_import_rewrites_every_occurrence() {
    let mut r = pass(&[], "f/x/main");
    let i = find_import("Import-Module u/me/t").unwrap();
    let code = r.note_import("Import-Module u/me/t; Import-Module u/me/t".to_string(), &i);
    assert_eq!(code, "Import-Module ./u.me.t.ps1; Import-Module ./u.me.t.ps1");
}

fn script(path: &str, content: &str) -> script_runner::tree::ScriptSource {
    script_runner::tree::ScriptSource { path: path.to_string(), content: content.to_string() }
}

fn written(files: &[script_runner::resolver::LocalFile]) -> Vec<(String, String)> {
    files.iter().map(|f| (f.name.clone(), f.content.clone())).collect()
}

#[test]
fn a_cyclic_store_resolves_with_one_file_per_module() {
    let store = vec![
        script("f/a", "Import-Module f/b\nImport-Module Ext1"),
        script("f/b", "Import-Module f/a\nImport-Module f/x/main\nImport-Module f/b"),
    ];
    let mut r = pass(&[], "f/x/main");
    let out = script_runner::tree::handle_powershell_deps(&mut r, "Import-Module f/a\n", store, Vec::new());
    assert_eq!(out.main, "Import-Module ./f.a.ps1\n");
    assert_eq!(
        written(&out.files),
        vec![
            ("f.a.ps1".to_string(), "Import-Module ./f.b.ps1\nImport-Module Ext1".to_string()),
            (
                "f.b.ps1".to_string(),
                "Import-Module ./f.a.ps1\nImport-Module ./main.ps1\nImport-Module ./f.b.ps1".to_string()
            ),
        ]
    );
    assert_eq!(r.visited, vec!["main".to_string(), "f/a".to_string(), "f/b".to_string()]);
    assert_eq!(r.install, "Save-Module -Path /cache -Force Ext1;");
    assert!(r.pending.is_empty());
}

#[test]
fn a_diamond_resolves_the_shared_module_once() {
    let store = vec![
        script("f/d", "Write-Host d"),
        script("f/b", "Import-Module f/d"),
        script("f/c", "Import-Module f/d"),
        script("f/d", "Write-Host older"),
    ];
    let mut r = pass(&[], "f/x/main");
    let out = script_runner::tree::handle_powershell_deps(
        &mut r,
        "Import-Module f/b\nImport-Module f/c",
        store,
        Vec::new(),
    );
    assert_eq!(out.main, "Import-Module ./f.b.ps1\nImport-Module ./f.c.ps1");
    let files = written(&out.files);
    assert_eq!(files.len(), 3);
    assert_eq!(files.iter().filter(|f| f.0 == "f.d.ps1").count(), 1);
    assert!(files.contains(&("f.d.ps1".to_string(), "Write-Host d".to_string())));
    assert!(files.contains(&("f.b.ps1".to_string(), "Import-Module ./f.d.ps1".to_string())));
    assert!(files.contains(&("f.c.ps1".to_string(), "Import-Module ./f.d.ps1".to_string())));
}

#[test]
fn missing_and_existing_modules_write_nothing() {
    let store = vec![script("f/here", "Import-Module f/deep")];
    let mut r = pass(&[], "f/x/main");
    let out = script_runner::tree::handle_powershell_deps(
        &mut r,
        "Import-Module f/gone\nImport-Module f/here",
        store,
        vec!["f.here.ps1".to_string()],
    );
    assert_eq!(out.main, "Import-Module ./f.gone.ps1\nImport-Module ./f.here.ps1");
    assert!(out.files.is_empty());
    assert_eq!(r.visited, vec!["main".to_string(), "f/gone".to_string(), "f/here".to_string()]);
}

#[test]
fn find_source_takes_the_first_entry() {
    let store = vec![script("a", "1"), script("b", "2"), script("a", "3")];
    assert_eq!(script_runner::tree::find_source(&store, &"a".to_string()), Some(0));
    assert_eq!(script_runner::tree::find_source(&store, &"b".to_string()), Some(1));
    assert_eq!(script_runner::tree::find_source(&store, &"c".to_string()), None);
}

#[test]
fn well_formed_states_are_recognised() {
    let mut r = pass(&[], "f/x/main");
    assert!(r.is_wf());
    let _ = r.scan("Import-Module f/a\nImport-Module f/b\nImport-Module Ext");
    assert!(r.is_wf());
    let _ = r.take_pending();
    assert!(r.is_wf());

    let mut twice = pass(&[], "f/x/main");
    let _ = twice.scan("Import-Module f/a");
    twice.pending.push(Pending { key: "f/a".to_string(), file_name: "f.a.ps1".to_string() });
    assert!(!twice.is_wf());

    let mut unvisited = pass(&[], "f/x/main");
    unvisited.pending.push(Pending { key: "f/a".to_string(), file_name: "f.a.ps1".to_string() });
    assert!(!unvisited.is_wf());

    let mut no_main = pass(&[], "f/x/main");
    no_main.visited.clear();
    assert!(!no_main.is_wf());

    let mut repeated = pass(&[], "f/x/main");
    repeated.visited.push("main".to_string());
    assert!(!repeated.is_wf());
}

#[test]
fn the_directory_of_a_root_ignores_what_names_nothing() {
    assert_eq!(resolve_relative("f/foo/", "./x"), "f/x");
    assert_eq!(resolve_relative("f/foo/.", "./x"), "f/x");
    assert_eq!(resolve_relative("f/foo//./", "./x"), "f/x");
    assert_eq!(resolve_relative("f/foo", "./x"), "f/x");
    assert_eq!(resolve_relative("/a", "./x"), "/x");
    assert_eq!(resolve_relative(".", "./x"), "x");
    assert_eq!(resolve_relative("", "./x"), "x");
    for (root, module) in [("f/foo/", "./x"), ("f/foo/.", "../y"), ("f/a/b", "./c/../d"), ("/a/b/", ".hidden"), ("a", "./x")] {
        let joined = std::path::Path::new(root).parent().unwrap().join(module);
        let mut expected = std::path::PathBuf::new();
        for c in joined.components() {
            match c {
                std::path::Component::RootDir => expected.push("/"),
                std::path::Component::ParentDir => { expected.pop(); },
                std::path::Component::CurDir => {},
                other => expected.push(other.as_os_str()),
            }
        }
        assert_eq!(resolve_relative(root, module), expected.to_str().unwrap(), "{} {}", root, module);
    }
}

#[test]
fn a_module_named_twice_is_dealt_with_once() {
    let mut r = pass(&["pester"], "f/x/main");
    let code = r.scan("Import-Module Foo\nImport-Module Pester\nImport-Module -Name 'Foo'\nImport-Module Pester\n");
    assert_eq!(code, "Import-Module Foo\nImport-Module Pester\nImport-Module -Name 'Foo'\nImport-Module Pester\n");
    assert_eq!(r.install, "Save-Module -Path /cache -Force Foo;");
    assert_eq!(r.logs, "\nFoo not found in cache\nPester found in cache");
    assert_eq!(r.handled, vec!["Foo".to_string(), "Pester".to_string()]);
    let _ = r.scan("Import-Module Foo\nImport-Module Bar");
    assert_eq!(r.install, "Save-Module -Path /cache -Force Foo;Save-Module -Path /cache -Force Bar;");
    assert!(r.is_wf());
    r.handled.push("Foo".to_string());
    assert!(!r.is_wf());
}

#[test]
fn fetched_keys_are_listed_once_each() {
    let store = vec![
        script("f/a", "Import-Module f/b\nImport-Module f/c"),
        script("f/b", "Import-Module f/c\nImport-Module f/a"),
    ];
    let mut r = pass(&[], "f/x/main");
    let out = script_runner::tree::handle_powershell_deps(&mut r, "Import-Module f/a\nImport-Module f/b", store, Vec::new());
    let mut keys = out.fetched.clone();
    keys.sort();
    assert_eq!(keys, vec!["f/a".to_string(), "f/b".to_string(), "f/c".to_string()]);
    for k in &out.fetched {
        assert!(r.visited.contains(k));
    }
}

#[test]
fn a_source_is_taken_only_where_no_file_stands() {
    let mut r = pass(&[], "f/x/main");
    let _ = r.scan("Import-Module f/a");
    let p = r.take_pending().unwrap();
    assert!(r.take_source(Pending { key: p.key.clone(), file_name: p.file_name.clone() }, None, false).is_none());
    let there = r.take_source(
        Pending { key: p.key.clone(), file_name: p.file_name.clone() },
        Some("Import-Module f/b".to_string()),
        true,
    );
    assert!(there.is_none());
    assert!(r.pending.is_empty());
    let file = r.take_source(p, Some("Import-Module f/b".to_string()), false).unwrap();
    assert_eq!((file.name.as_str(), file.content.as_str()), ("f.a.ps1", "Import-Module ./f.b.ps1"));
    assert_eq!(r.pending.len(), 1);
}
