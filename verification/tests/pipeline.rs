use xbase::command::{BlockParseError, CompilationCommand};
use xbase::db::{assemble, parse_file_list, FileListStore};
use xbase::dispatch::{is_swift_module_signature, parse_log};
use xbase::flags::CompileFlags;
use xbase::tokenize::tokenize;

fn strings(v: &[&str]) -> Vec<String> {
    v.iter().map(|s| s.to_string()).collect()
}

#[test]
fn tokenize_splits_on_whitespace() {
    let toks = tokenize("swiftc  -module-name\tApp a.swift").unwrap();
    assert_eq!(toks, strings(&["swiftc", "-module-name", "App", "a.swift"]));
}

#[test]
fn tokenize_honors_single_quotes() {
    let toks = tokenize("a 'b c' d").unwrap();
    assert_eq!(toks, strings(&["a", "b c", "d"]));
}

#[test]
fn tokenize_honors_double_quotes_and_escapes() {
    let toks = tokenize("a \"b\\\" c\" end\\ s").unwrap();
    assert_eq!(toks, strings(&["a", "b\" c", "end s"]));
}

#[test]
fn tokenize_keeps_empty_quoted_token() {
    let toks = tokenize("x '' y").unwrap();
    assert_eq!(toks, strings(&["x", "", "y"]));
}

#[test]
fn tokenize_rejects_unterminated_quote() {
    assert!(tokenize("'abc").is_err());
    assert!(tokenize("\"abc").is_err());
}

#[test]
fn tokenize_rejects_dangling_backslash() {
    assert!(tokenize("abc\\").is_err());
}

#[test]
fn flags_strip_directory_prefix_and_dedup() {
    let f = CompileFlags::from_command("cd /proj && swiftc -v -v x").unwrap();
    assert_eq!(f.flags, strings(&["swiftc", "-v", "x"]));
}

#[test]
fn flags_without_prefix_keep_all_tokens_once() {
    let f = CompileFlags::from_command("swiftc -O -O swiftc").unwrap();
    assert_eq!(f.flags, strings(&["swiftc", "-O"]));
}

#[test]
fn flags_fail_on_malformed_quoting() {
    assert!(CompileFlags::from_command("swiftc 'oops").is_err());
}

#[test]
fn round_trip_of_quote_free_line_keeps_flag_set() {
    let line = "cd /proj && swiftc  -O   -whole-module-optimization x";
    let toks = tokenize(line).unwrap();
    let rejoined = toks.join(" ");
    let a = CompileFlags::from_command(line).unwrap();
    let b = CompileFlags::from_command(&rejoined).unwrap();
    assert_eq!(a.flags, b.flags);
}

#[test]
fn swift_module_parses_well_formed_invocation() {
    let lines = strings(&[
        "cd /proj",
        "cd /proj && swiftc -module-name App -index-store-path /store a.swift b.swift @list.SwiftFileList",
    ]);
    let c = CompilationCommand::swift_module(&lines, 1).unwrap();
    assert_eq!(c.directory, "/proj");
    assert_eq!(c.name.as_deref(), Some("App"));
    assert_eq!(c.index_store_path.as_deref(), Some("/store"));
    assert_eq!(c.files, Some(strings(&["a.swift", "b.swift"])));
    assert_eq!(c.file_lists, strings(&["list.SwiftFileList"]));
    assert_eq!(c.command, "cd /proj && swiftc");
    assert_eq!(c.file, None);
    assert_eq!(c.output, None);
}

#[test]
fn swift_module_rejects_trailing_marker() {
    let lines = strings(&["swiftc -module-name App -index-store-path"]);
    let r = CompilationCommand::swift_module(&lines, 0);
    assert_eq!(r.unwrap_err(), BlockParseError::TrailingFlag);
    let lines2 = strings(&["-module-name"]);
    let r2 = CompilationCommand::swift_module(&lines2, 0);
    assert_eq!(r2.unwrap_err(), BlockParseError::TrailingFlag);
}

#[test]
fn swift_module_rejects_missing_line() {
    let lines = strings(&["cd /proj"]);
    let r = CompilationCommand::swift_module(&lines, 7);
    assert_eq!(r.unwrap_err(), BlockParseError::MissingLine);
}

#[test]
fn swift_module_rejects_malformed_quoting() {
    let lines = strings(&["swiftc -module-name 'App"]);
    let r = CompilationCommand::swift_module(&lines, 0);
    assert_eq!(r.unwrap_err(), BlockParseError::Tokenize);
}

#[test]
fn signature_requires_compiler_and_module_marker() {
    assert!(!is_swift_module_signature("cd /proj"));
    assert!(!is_swift_module_signature("swiftc a.swift"));
    assert!(is_swift_module_signature("cd /p && swiftc -module-name M x.swift"));
}

#[test]
fn dispatcher_scans_example_log() {
    let lines = strings(&["cd /proj", "cd /proj && swiftc -module-name App a.swift"]);
    let cmds = parse_log(&lines);
    assert_eq!(cmds.len(), 1);
    let c = &cmds[0];
    assert_eq!(c.directory, "/proj");
    assert_eq!(c.name.as_deref(), Some("App"));
    assert_eq!(c.files, Some(strings(&["a.swift"])));
    assert_eq!(c.file_lists, Vec::<String>::new());
}

#[test]
fn dispatcher_skips_unparsable_matching_line() {
    let lines = strings(&["swiftc -module-name 'oops", "noise"]);
    let cmds = parse_log(&lines);
    assert_eq!(cmds.len(), 0);
}

#[test]
fn dispatcher_of_empty_log_yields_nothing() {
    let cmds = parse_log(&Vec::new());
    assert_eq!(cmds.len(), 0);
    let db = assemble(&cmds, &FileListStore::new());
    assert_eq!(db.len(), 0);
}

#[test]
fn assembly_of_example_log() {
    let lines = strings(&["cd /proj", "cd /proj && swiftc -module-name App a.swift"]);
    let cmds = parse_log(&lines);
    let db = assemble(&cmds, &FileListStore::new());
    assert_eq!(db.len(), 1);
    let f = db.get("a.swift").unwrap();
    assert_eq!(f.flags, strings(&["swiftc"]));
}

#[test]
fn file_lists_are_expanded_from_the_store() {
    let lines = strings(&["cd /p && swiftc -module-name M -O @list.SwiftFileList"]);
    let cmds = parse_log(&lines);
    assert_eq!(cmds[0].file_lists, strings(&["list.SwiftFileList"]));
    let mut store = FileListStore::new();
    store.add("list.SwiftFileList".to_string(), strings(&["x.swift", "y.swift"]));
    let db = assemble(&cmds, &store);
    assert_eq!(db.len(), 2);
    assert_eq!(db.get("x.swift").unwrap().flags, strings(&["swiftc", "-O"]));
    assert_eq!(db.get("y.swift").unwrap().flags, strings(&["swiftc", "-O"]));
}

#[test]
fn missing_file_list_contributes_nothing_but_files_stay() {
    let lines = strings(&["cd /p && swiftc -module-name M a.swift @gone.SwiftFileList"]);
    let cmds = parse_log(&lines);
    let db = assemble(&cmds, &FileListStore::new());
    assert_eq!(db.len(), 1);
    assert!(db.get("a.swift").is_some());
    assert!(db.get("gone.SwiftFileList").is_none());
}

#[test]
fn later_command_wins_collision() {
    let lines = strings(&[
        "cd /p && swiftc -module-name M -first f.swift",
        "cd /p && swiftc -module-name M -second f.swift",
    ]);
    let cmds = parse_log(&lines);
    assert_eq!(cmds.len(), 2);
    let db = assemble(&cmds, &FileListStore::new());
    assert_eq!(db.len(), 1);
    assert_eq!(db.get("f.swift").unwrap().flags, strings(&["swiftc", "-second"]));
}

#[test]
fn assembling_twice_is_identical() {
    let lines = strings(&[
        "cd /p && swiftc -module-name M a.swift b.swift",
        "noise",
        "cd /q && swiftc -module-name N b.swift @l.SwiftFileList",
    ]);
    let mut store = FileListStore::new();
    store.add("l.SwiftFileList".to_string(), strings(&["c.swift"]));
    let once = assemble(&parse_log(&lines), &store);
    let twice = assemble(&parse_log(&lines), &store);
    assert_eq!(once.len(), twice.len());
    for e in &once.entries {
        let other = twice.get(&e.file).unwrap();
        assert_eq!(other.flags, e.flags.flags);
    }
    for (a, b) in once.entries.iter().zip(twice.entries.iter()) {
        assert_eq!(a.file, b.file);
    }
}

#[test]
fn file_list_text_is_trimmed_and_blank_lines_dropped() {
    let content = "a.swift\n  b.swift \r\n\n   \nc.swift";
    assert_eq!(parse_file_list(content), strings(&["a.swift", "b.swift", "c.swift"]));
    assert_eq!(parse_file_list(""), Vec::<String>::new());
}

#[test]
fn single_file_field_contributes_an_entry() {
    let mut c = CompilationCommand::swift_module(
        &strings(&["cd /p && swiftc -module-name M"]),
        0,
    )
    .unwrap();
    c.file = Some("main.swift".to_string());
    let db = c.compile_flags(&FileListStore::new()).unwrap();
    assert_eq!(db.len(), 1);
    assert!(db.get("main.swift").is_some());
}
