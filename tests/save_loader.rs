use xc3_sd_save_loader::allow_list::{line_entry_of, normalize_line_endings_of, parse_allow_list, split_lines_of};
use xc3_sd_save_loader::init::{finish_init, next_init_step, InitStep, RESULT_ALREADY_MOUNTED};
use xc3_sd_save_loader::loader::{external_path, is_allowed_file, SaveLoaderState, DEFAULT_ALLOW_LIST};
use xc3_sd_save_loader::logging::format_log_line;
use xc3_sd_save_loader::mirror::{load_copy, mount_copies, present_copies, save_mirror_target, CopyOp};
use xc3_sd_save_loader::text::contains_fragment;

fn chars(s: &str) -> Vec<char> {
    s.chars().collect()
}

fn ready_state(text: &str) -> SaveLoaderState {
    let mut state = SaveLoaderState::new();
    state.set_ready(true);
    state.load_allow_list(text);
    state
}

#[test]
fn comment_and_blank_lines() {
    assert_eq!(parse_allow_list("  foo.sav   # comment"), vec!["foo.sav".to_string()]);
    assert!(parse_allow_list("# foo.sav").is_empty());
    assert!(parse_allow_list("").is_empty());
    assert!(parse_allow_list("   \t  ").is_empty());
}

#[test]
fn line_endings_are_normalized() {
    let parsed = parse_allow_list("a.sav\r\nb.sav\rc.sav\n\n d.sav \r\n");
    assert_eq!(parsed, vec!["a.sav", "b.sav", "c.sav", "d.sav"]);
    assert_eq!(normalize_line_endings_of(&chars("x\r\ny\rz")), chars("x\ny\nz"));
    assert_eq!(normalize_line_endings_of(&chars("\r\r\n")), chars("\n\n"));
}

#[test]
fn split_keeps_empty_pieces() {
    let lines = split_lines_of(&chars("a\n\nb\n"));
    assert_eq!(lines, vec![chars("a"), chars(""), chars("b"), chars("")]);
}

#[test]
fn line_entry_trims_before_comment() {
    assert_eq!(line_entry_of(&chars("\u{3000} x y #z")), chars("x y"));
    assert_eq!(line_entry_of(&chars("#")), chars(""));
    assert_eq!(line_entry_of(&chars("abc")), chars("abc"));
}

#[test]
fn parsing_twice_gives_same_entries() {
    let text = "one.sav\n# two.sav\n three.sav # note\n";
    assert_eq!(parse_allow_list(text), parse_allow_list(text));
    assert_eq!(parse_allow_list(text), vec!["one.sav", "three.sav"]);
}

#[test]
fn default_template_holds_no_entry() {
    assert!(parse_allow_list(DEFAULT_ALLOW_LIST).is_empty());
}

#[test]
fn not_ready_allows_nothing() {
    let mut state = SaveLoaderState::new();
    state.load_allow_list("game01.sav");
    assert!(state.allowed_files().is_empty());
    assert!(!is_allowed_file(&state, "save:/game01.sav"));
    assert!(load_copy(&state, "save:/game01.sav", true).is_none());
    assert!(save_mirror_target(&state, "save:/game01.sav").is_none());
    assert!(mount_copies(&state).is_empty());
}

#[test]
fn allowed_by_substring() {
    let state = ready_state("game01.sav\nsys");
    assert!(is_allowed_file(&state, "save:/game01.sav"));
    assert!(is_allowed_file(&state, "save:/bf3system00.sav"));
    assert!(is_allowed_file(&state, "save:/game01.sav.bak"));
    assert!(!is_allowed_file(&state, "save:/game02.sav"));
    let empty = ready_state("# nothing");
    assert!(!is_allowed_file(&empty, "save:/game01.sav"));
}

#[test]
fn external_path_replaces_scheme() {
    assert_eq!(external_path("save:/game01.sav"), "sd:/xc3-saves/game01.sav");
    assert_eq!(external_path("other/game01.sav"), "other/game01.sav");
    assert_eq!(external_path("save:save:"), "sd:/xc3-savessave:");
    assert_eq!(external_path("dir/save:/x.sav"), "dir/save:/x.sav");
    assert_eq!(external_path("save"), "save");
    assert_eq!(external_path("save:"), "sd:/xc3-saves");
}

#[test]
fn copy_in_only_when_external_file_exists() {
    let state = ready_state("game01.sav");
    assert!(load_copy(&state, "save:/game01.sav", false).is_none());
    let op = load_copy(&state, "save:/game01.sav", true).unwrap();
    assert_eq!(op, CopyOp { from: "sd:/xc3-saves/game01.sav".to_string(), to: "save:/game01.sav".to_string() });
    assert!(load_copy(&state, "save:/game02.sav", true).is_none());
}

#[test]
fn copy_out_target() {
    let state = ready_state("game01.sav");
    assert_eq!(save_mirror_target(&state, "save:/game01.sav"), Some("sd:/xc3-saves/game01.sav".to_string()));
    assert_eq!(save_mirror_target(&state, "save:/game03.sav"), None);
}

#[test]
fn mount_copies_skip_missing_sources() {
    let state = ready_state("a.sav\nb.sav");
    let ops = mount_copies(&state);
    assert_eq!(ops.len(), 2);
    assert_eq!(ops[0].from, "sd:/xc3-saves/a.sav");
    assert_eq!(ops[0].to, "save:/a.sav");
    assert_eq!(ops[1].from, "sd:/xc3-saves/b.sav");
    assert_eq!(ops[1].to, "save:/b.sav");
    let done = present_copies(&ops, &vec![true, false]);
    assert_eq!(done, vec![CopyOp { from: "sd:/xc3-saves/a.sav".to_string(), to: "save:/a.sav".to_string() }]);
    assert!(present_copies(&ops, &vec![false, false]).is_empty());
}

#[test]
fn init_steps() {
    assert_eq!(next_init_step(InitStep::MountStorage, 0), InitStep::OpenRoot);
    assert_eq!(next_init_step(InitStep::MountStorage, RESULT_ALREADY_MOUNTED), InitStep::OpenRoot);
    assert_eq!(next_init_step(InitStep::MountStorage, 5), InitStep::Failed);
    assert_eq!(next_init_step(InitStep::OpenRoot, 0), InitStep::Ready);
    assert_eq!(next_init_step(InitStep::OpenRoot, 1), InitStep::CreateRoot);
    assert_eq!(next_init_step(InitStep::CreateRoot, 1), InitStep::Failed);
    assert_eq!(next_init_step(InitStep::CreateRoot, 0), InitStep::ReopenRoot);
    assert_eq!(next_init_step(InitStep::ReopenRoot, 0), InitStep::Ready);
    assert_eq!(next_init_step(InitStep::ReopenRoot, 2), InitStep::Failed);
    assert_eq!(next_init_step(InitStep::Failed, 0), InitStep::Failed);
    assert_eq!(next_init_step(InitStep::Ready, 9), InitStep::Ready);
}

#[test]
fn finish_init_sets_readiness() {
    let mut state = SaveLoaderState::new();
    finish_init(&mut state, InitStep::Failed, Some("a.sav"));
    assert!(!state.is_ready());
    assert!(state.allowed_files().is_empty());
    finish_init(&mut state, InitStep::Ready, Some("a.sav\n# b.sav"));
    assert!(state.is_ready());
    assert_eq!(state.allowed_files(), &vec!["a.sav".to_string()]);
}

#[test]
fn unreadable_allow_list_keeps_passthrough() {
    let mut state = SaveLoaderState::new();
    finish_init(&mut state, InitStep::Ready, None);
    assert!(!state.is_ready());
    assert!(state.allowed_files().is_empty());
    assert!(!is_allowed_file(&state, "save:/a.sav"));
}

#[test]
fn placeholder_stamp_line() {
    assert_eq!(format_log_line("????-??-?? ??:??:??", "x"), "[????-??-?? ??:??:??] [XC3-SD-Save-Loader] x");
}

#[test]
fn end_to_end_load() {
    let state = ready_state("game01.sav\n");
    let path = "save:/game01.sav";
    assert!(is_allowed_file(&state, path));
    let ext = external_path(path);
    assert_eq!(ext, "sd:/xc3-saves/game01.sav");
    let op = load_copy(&state, path, true).unwrap();
    assert_eq!(op.from, ext);
    assert_eq!(op.to, path);
}

#[test]
fn log_lines() {
    assert_eq!(format_log_line("2024-01-02 03:04:05", "hello"), "[2024-01-02 03:04:05] [XC3-SD-Save-Loader] hello");
    assert_eq!(format_log_line("", ""), "[] [XC3-SD-Save-Loader] ");
}

#[test]
fn fragments() {
    assert!(contains_fragment(&chars("abcdef"), &chars("cde")));
    assert!(contains_fragment(&chars("abc"), &chars("")));
    assert!(!contains_fragment(&chars("ab"), &chars("abc")));
    assert!(!contains_fragment(&chars("abcdef"), &chars("ce")));
}

#[test]
fn reparse_rendered_entries() {
    let text = "\r\n  a.sav # first\r\n\tb.tmb\r# c.sav\n d e \n";
    let entries = parse_allow_list(text);
    assert_eq!(entries, vec!["a.sav", "b.tmb", "d e"]);
    let mut rendered = String::new();
    for e in &entries {
        rendered.push_str(e);
        rendered.push('\n');
    }
    assert_eq!(parse_allow_list(&rendered), entries);
}

#[test]
fn loading_appends_in_order() {
    let mut state = SaveLoaderState::new();
    state.set_ready(true);
    state.load_allow_list("x.sav\ny.sav");
    state.load_allow_list("z.sav");
    assert_eq!(state.allowed_files(), &vec!["x.sav".to_string(), "y.sav".to_string(), "z.sav".to_string()]);
}
