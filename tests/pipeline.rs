use cargo_limit::classify::{Messages, RawMessage, Step};
use cargo_limit::diagnostic::{Diagnostic, Level, Location, Span};
use cargo_limit::engine::{
    extract_source_files_for_external_app, filter_cargo_errors, find_leaf_project_expansion,
    leaf_expansion_index, text_contains, FilteredAndOrderedMessages, TransformedMessages,
};
use cargo_limit::models::{EditorData, SourceFile};
use cargo_limit::neovim::{escape_for_neovim_command, escape_workspace_root, nvim_command, nvim_listen_address};
use cargo_limit::options::Options;
use cargo_limit::order::{dedup_messages, filter_and_order_messages, partition_by_flags, sort_messages};
use cargo_limit::supervisor::State;

const ROOT: &str = "/ws";

fn span(file: &str, line: usize, primary: bool) -> Span {
    Span {
        file_name: file.to_string(),
        line_start: line,
        column_start: 1,
        is_primary: primary,
        expansion: Vec::new(),
    }
}

fn diag(level: Level, message: &str, spans: Vec<Span>, src_path: &str) -> Diagnostic {
    Diagnostic {
        level,
        message: message.to_string(),
        rendered: Some(format!("rendered: {}", message)),
        spans,
        src_path: src_path.to_string(),
        record: format!("{{\"message\":\"{}\"}}", message),
    }
}

fn options() -> Options {
    Options {
        cargo_args: Vec::new(),
        limit_messages: 0,
        time_limit_after_error: 1,
        ascending_messages_order: true,
        show_warnings_if_errors_exist: false,
        show_dependencies_warnings: false,
        open_in_external_application: String::new(),
        open_in_external_application_on_warnings: false,
        help: false,
        version: false,
        json_message_format: false,
        short_message_format: false,
    }
}

fn classified(list: Vec<Diagnostic>) -> Messages {
    let mut m = Messages::new();
    for d in list {
        m.accept(RawMessage::CompilerMessage(d), 0);
    }
    m
}

fn messages_of(list: &[Diagnostic]) -> Vec<String> {
    list.iter().map(|d| d.message.clone()).collect()
}

#[test]
fn test() {
    let input = r###"/tmp/ ss z^_+<>,'=+@;]["11\z /asdf"###;
    let expected = r###"/tmp/\ ss\ z^_+<LT>>,\'=+@;]\[\"11\\z\ /asdf"###;
    assert_eq!(escape_for_neovim_command(input), expected);
}

#[test]
fn one_error_and_one_dependency_warning() {
    let error = diag(Level::Error, "e", vec![span("a.rs", 10, true)], "/ws/src/main.rs");
    let warning = diag(Level::Warning, "w", vec![span("lib.rs", 3, true)], "/registry/dep/src/lib.rs");
    let mut opts = options();
    opts.show_warnings_if_errors_exist = true;
    let out = TransformedMessages::transform(classified(vec![error, warning]), &opts, &ROOT.to_string());
    assert_eq!(messages_of(&out.messages), vec!["e"]);
    assert_eq!(out.source_files_in_consistent_order.len(), 1);
    assert_eq!(out.source_files_in_consistent_order[0].relative_path, "a.rs");
    assert_eq!(out.source_files_in_consistent_order[0].line, 10);
    assert_eq!(out.source_files_in_consistent_order[0].message, "e");
}

#[test]
fn identical_errors_are_shown_once() {
    let a = diag(Level::Error, "e", vec![span("a.rs", 1, true)], "/ws/src/main.rs");
    let b = a.clone();
    let out = TransformedMessages::transform(classified(vec![a, b]), &options(), &ROOT.to_string());
    assert_eq!(out.messages.len(), 1);
}

#[test]
fn process_exits_before_the_timer() {
    let s = State::Running.arm_kill_after(0, 2000);
    assert_eq!(s, State::KillTimerArmed { deadline_ms: 2000 });
    assert!(!s.timer_due(1000));
    let s = s.on_process_exited();
    assert_eq!(s, State::NotRunning);
    let s = s.on_timer_fired();
    assert_eq!(s, State::NotRunning);
    assert!(!s.child_killed());
}

#[test]
fn hanging_process_is_killed_and_passes_merge() {
    let s = State::Running.arm_kill_after(0, 2000);
    assert!(s.timer_due(2500));
    let s = s.on_timer_fired();
    assert_eq!(s, State::Killed);
    assert_eq!(s.on_process_exited(), State::Killed);
    assert_eq!(s.arm_kill_after(3000, 10), State::Killed);

    let mut first = Messages::new();
    let step = first.accept(
        RawMessage::CompilerMessage(diag(Level::Error, "e1", vec![span("a.rs", 1, true)], "/ws/a.rs")),
        2,
    );
    assert_eq!(step, Step::ArmKillTimer);
    first.finish_pass(s.child_killed());
    let mut second = Messages::new();
    second.accept(
        RawMessage::CompilerMessage(diag(Level::Warning, "w", vec![span("b.rs", 2, true)], "/ws/b.rs")),
        0,
    );
    second.accept(
        RawMessage::CompilerMessage(diag(Level::Error, "e2", vec![span("c.rs", 3, true)], "/ws/c.rs")),
        0,
    );
    first.merge(second);
    assert!(first.child_killed());
    assert_eq!(messages_of(&first.errors), vec!["e1", "e2"]);
    assert_eq!(messages_of(&first.non_errors), vec!["w"]);
}

#[test]
fn middle_relative_hop_is_the_leaf_project_expansion() {
    let mut s = span("/rustc/lib/core/macros.rs", 5, true);
    s.expansion = vec![
        Location { file_name: "/rustc/lib/std/inner.rs".to_string(), line_start: 7, column_start: 2 },
        Location { file_name: "src/middle.rs".to_string(), line_start: 42, column_start: 9 },
        Location { file_name: "/home/u/.cargo/outer.rs".to_string(), line_start: 3, column_start: 1 },
    ];
    let leaf = find_leaf_project_expansion(&s);
    assert_eq!(leaf.file_name, "src/middle.rs");
    assert_eq!(leaf.line_start, 42);
    assert_eq!(leaf.column_start, 9);
}

#[test]
fn span_without_relative_hop_resolves_to_itself() {
    let mut s = span("/abs/x.rs", 5, true);
    s.expansion = vec![Location { file_name: "/abs/y.rs".to_string(), line_start: 7, column_start: 2 }];
    let leaf = find_leaf_project_expansion(&s);
    assert_eq!(leaf.file_name, "/abs/x.rs");
    assert_eq!(leaf.line_start, 5);
}

#[test]
fn leaf_index_is_last_flag() {
    assert_eq!(leaf_expansion_index(&vec![true, false, true, false]), Some(2));
    assert_eq!(leaf_expansion_index(&vec![false, false]), None);
    assert_eq!(leaf_expansion_index(&vec![]), None);
}

#[test]
fn filtering_twice_changes_nothing() {
    let list = vec![
        diag(Level::Error, "dep", vec![span("a.rs", 1, true)], "/registry/x.rs"),
        diag(Level::Error, "z", vec![span("z.rs", 9, true)], "/ws/src/z.rs"),
        diag(Level::Error, "b", vec![span("b.rs", 2, true)], "/ws/src/b.rs"),
        diag(Level::Error, "z", vec![span("z.rs", 9, true)], "/ws/src/z.rs"),
        diag(Level::Error, "nospan", vec![], "/ws/src/b.rs"),
    ];
    let once = filter_and_order_messages(&list, &ROOT.to_string());
    assert_eq!(messages_of(&once), vec!["b", "z", "dep"]);
    let twice = filter_and_order_messages(&once, &ROOT.to_string());
    assert_eq!(messages_of(&twice), messages_of(&once));
}

#[test]
fn groups_order_by_spans_last_first_and_keep_arrival_order() {
    let list = vec![
        diag(Level::Error, "m1", vec![span("b.rs", 1, true), span("a.rs", 5, false)], "/ws/a.rs"),
        diag(Level::Error, "m2", vec![span("a.rs", 3, true)], "/ws/a.rs"),
        diag(Level::Error, "m3", vec![span("z.rs", 1, true), span("a.rs", 5, false)], "/ws/a.rs"),
        diag(Level::Error, "m4", vec![span("a.rs", 10, true)], "/ws/a.rs"),
    ];
    let sorted = sort_messages(&list);
    // keys: m1 [(a.rs,5),(b.rs,1)], m2 [(a.rs,3)], m3 [(a.rs,5),(z.rs,1)], m4 [(a.rs,10)]
    assert_eq!(messages_of(&sorted), vec!["m2", "m1", "m3", "m4"]);
}

#[test]
fn dedup_keeps_first_occurrences() {
    let a = diag(Level::Warning, "a", vec![span("a.rs", 1, true)], "/ws/a.rs");
    let b = diag(Level::Warning, "b", vec![span("a.rs", 1, true)], "/ws/a.rs");
    let out = dedup_messages(&vec![a.clone(), b.clone(), a.clone(), b]);
    assert_eq!(messages_of(&out), vec!["a", "b"]);
}

#[test]
fn partition_puts_flagged_first() {
    let list = vec![
        diag(Level::Warning, "x", vec![span("a.rs", 1, true)], "/d/a.rs"),
        diag(Level::Warning, "y", vec![span("a.rs", 2, true)], "/ws/a.rs"),
        diag(Level::Warning, "z", vec![span("a.rs", 3, true)], "/d/a.rs"),
        diag(Level::Warning, "w", vec![span("a.rs", 4, true)], "/ws/a.rs"),
    ];
    let out = partition_by_flags(&list, &vec![false, true, false, true]);
    assert_eq!(messages_of(&out), vec!["y", "w", "x", "z"]);
}

#[test]
fn workspace_test_is_by_path_component() {
    let inside = diag(Level::Warning, "in", vec![span("a.rs", 1, true)], "/ws/src/a.rs");
    let sibling = diag(Level::Warning, "sibling", vec![span("a.rs", 2, true)], "/wsx/src/a.rs");
    let m = classified(vec![sibling, inside]);
    let f = FilteredAndOrderedMessages::filter(&m, &options(), &ROOT.to_string());
    assert_eq!(messages_of(&f.warnings), vec!["in"]);
    let mut opts = options();
    opts.show_dependencies_warnings = true;
    let f = FilteredAndOrderedMessages::filter(&m, &opts, &ROOT.to_string());
    assert_eq!(messages_of(&f.warnings), vec!["in", "sibling"]);
}

#[test]
fn errors_hide_warnings_unless_asked() {
    let e = diag(Level::Error, "e", vec![span("a.rs", 1, true)], "/ws/a.rs");
    let w = diag(Level::Warning, "w", vec![span("a.rs", 2, true)], "/ws/a.rs");
    let out = TransformedMessages::transform(classified(vec![w.clone(), e.clone()]), &options(), &ROOT.to_string());
    assert_eq!(messages_of(&out.messages), vec!["e"]);
    let out = TransformedMessages::transform(classified(vec![w.clone()]), &options(), &ROOT.to_string());
    assert_eq!(messages_of(&out.messages), vec!["w"]);
    let mut opts = options();
    opts.show_warnings_if_errors_exist = true;
    let out = TransformedMessages::transform(classified(vec![w, e]), &opts, &ROOT.to_string());
    assert_eq!(messages_of(&out.messages), vec!["e", "w"]);
}

#[test]
fn limit_keeps_first_then_reverses() {
    let list: Vec<Diagnostic> = (1..=4)
        .map(|i| diag(Level::Error, &format!("e{}", i), vec![span("a.rs", i, true)], "/ws/a.rs"))
        .collect();
    let mut opts = options();
    opts.limit_messages = 2;
    let out = TransformedMessages::transform(classified(list.clone()), &opts, &ROOT.to_string());
    assert_eq!(messages_of(&out.messages), vec!["e1", "e2"]);
    assert_eq!(out.source_files_in_consistent_order.len(), 2);
    opts.ascending_messages_order = false;
    let out = TransformedMessages::transform(classified(list.clone()), &opts, &ROOT.to_string());
    assert_eq!(messages_of(&out.messages), vec!["e2", "e1"]);
    assert_eq!(out.source_files_in_consistent_order[0].line, 1);
    opts.limit_messages = 0;
    let out = TransformedMessages::transform(classified(list), &opts, &ROOT.to_string());
    assert_eq!(messages_of(&out.messages), vec!["e4", "e3", "e2", "e1"]);
}

#[test]
fn internal_compiler_errors_come_first() {
    let ice = diag(Level::Ice, "ice", vec![span("z.rs", 1, true)], "/ws/z.rs");
    let e = diag(Level::Error, "e", vec![span("a.rs", 1, true)], "/ws/a.rs");
    let m = classified(vec![e, ice]);
    assert_eq!(m.internal_compiler_errors.len(), 1);
    let f = FilteredAndOrderedMessages::filter(&m, &options(), &ROOT.to_string());
    // both are sorted together by key
    assert_eq!(messages_of(&f.errors), vec!["e", "ice"]);
}

#[test]
fn spanless_errors_prefer_non_aborting() {
    let abort1 = diag(Level::Error, "aborting due to previous error", vec![], "/ws/a.rs");
    let abort2 = abort1.clone();
    let other = diag(Level::Error, "could not compile", vec![], "/ws/a.rs");
    let out = filter_cargo_errors(&vec![abort1.clone(), other.clone(), abort2.clone()]);
    assert_eq!(messages_of(&out), vec!["could not compile"]);
    let out = filter_cargo_errors(&vec![abort1.clone(), abort2]);
    assert_eq!(messages_of(&out), vec!["aborting due to previous error"]);
    let mut no_text = other.clone();
    no_text.rendered = None;
    assert!(filter_cargo_errors(&vec![no_text]).is_empty());
    let m = classified(vec![other, abort1]);
    let out = TransformedMessages::transform(m, &options(), &ROOT.to_string());
    assert_eq!(messages_of(&out.messages), vec!["could not compile"]);
    assert!(out.source_files_in_consistent_order.is_empty());
}

#[test]
fn spanless_warnings_are_dropped() {
    let w = diag(Level::Warning, "w", vec![], "/ws/a.rs");
    let out = TransformedMessages::transform(classified(vec![w]), &options(), &ROOT.to_string());
    assert!(out.messages.is_empty());
}

#[test]
fn locations_are_unique_per_file_and_line() {
    let e1 = diag(Level::Error, "e1", vec![span("a.rs", 1, true), span("a.rs", 7, false)], "/ws/a.rs");
    let mut s2 = span("a.rs", 1, true);
    s2.column_start = 5;
    let e2 = diag(Level::Error, "e2", vec![s2, span("b.rs", 3, true)], "/ws/a.rs");
    let w = diag(Level::Warning, "w", vec![span("c.rs", 1, true)], "/ws/a.rs");
    let list = vec![e1, e2, w];
    let files = extract_source_files_for_external_app(&list, &options(), &ROOT.to_string());
    let got: Vec<(String, usize, String)> =
        files.iter().map(|f| (f.relative_path.clone(), f.line, f.message.clone())).collect();
    assert_eq!(
        got,
        vec![("a.rs".to_string(), 1, "e1".to_string()), ("b.rs".to_string(), 3, "e2".to_string())]
    );
    let mut opts = options();
    opts.open_in_external_application_on_warnings = true;
    let files = extract_source_files_for_external_app(&list, &opts, &ROOT.to_string());
    assert_eq!(files.len(), 3);
    assert_eq!(files[2].relative_path, "c.rs");
}

#[test]
fn first_error_arms_the_timer_once() {
    let mut m = Messages::new();
    let w = diag(Level::Warning, "w", vec![span("a.rs", 1, true)], "/ws/a.rs");
    let e = diag(Level::Error, "e", vec![span("a.rs", 2, true)], "/ws/a.rs");
    assert_eq!(m.accept(RawMessage::CompilerMessage(w), 1), Step::Continue);
    assert_eq!(m.accept(RawMessage::Other, 1), Step::Continue);
    assert_eq!(m.accept(RawMessage::CompilerMessage(e.clone()), 1), Step::ArmKillTimer);
    assert_eq!(m.accept(RawMessage::CompilerMessage(e.clone()), 1), Step::Continue);
    assert_eq!(m.accept(RawMessage::BuildFinished, 1), Step::Stop);
    assert!(m.has_errors());
    let mut n = Messages::new();
    assert_eq!(n.accept(RawMessage::CompilerMessage(e), 0), Step::Continue);
}

#[test]
fn text_search() {
    assert!(text_contains("error: aborting due to previous errors", "aborting due to previous error"));
    assert!(!text_contains("abort", "aborting"));
    assert!(text_contains("x", ""));
}

#[test]
fn editor_texts() {
    assert_eq!(escape_workspace_root("/home/u/p:q\\r"), "%home%u%p%q%r");
    assert_eq!(nvim_command("{\"a\":1}"), "call CargoLimit_open_in_new_or_existing_tabs(\"{\\\"a\\\":1}\")");
    assert_eq!(nvim_listen_address("al", "%ws"), "/tmp/nvim-cargo-limit-al/%ws");
    let f = SourceFile { relative_path: "a.rs".to_string(), line: 1, column: 2, message: "m".to_string() };
    let data = EditorData::new("/ws", vec![f]);
    assert_eq!(data.workspace_root, "/ws");
    assert_eq!(data.files.len(), 1);
}

#[test]
fn aborting_marker_is_read_from_the_rendered_text() {
    let mut summary_only = diag(Level::Error, "error", vec![], "/ws/a.rs");
    summary_only.rendered = Some("error: aborting due to previous error; 1 warning emitted".to_string());
    let other = diag(Level::Error, "error", vec![], "/ws/a.rs");
    let out = filter_cargo_errors(&vec![summary_only.clone(), other.clone()]);
    assert_eq!(out.len(), 1);
    assert_eq!(out[0].rendered, other.rendered);
    let out = filter_cargo_errors(&vec![summary_only.clone()]);
    assert_eq!(out[0].rendered, summary_only.rendered);
    let mut marker_in_summary = diag(Level::Error, "aborting due to previous error", vec![], "/ws/a.rs");
    marker_in_summary.rendered = Some("error: could not compile".to_string());
    let out = filter_cargo_errors(&vec![marker_in_summary.clone(), summary_only]);
    assert_eq!(out.len(), 1);
    assert_eq!(out[0].rendered, marker_in_summary.rendered);
}

#[test]
fn locations_are_relative_to_the_workspace() {
    let e1 = diag(Level::Error, "e1", vec![span("/ws/src/a.rs", 4, true)], "/ws/src/a.rs");
    let e2 = diag(Level::Error, "e2", vec![span("/other/b.rs", 5, true)], "/ws/src/a.rs");
    let e3 = diag(Level::Error, "e3", vec![span("src/c.rs", 6, true)], "/ws/src/a.rs");
    let e4 = diag(Level::Error, "e4", vec![span("/wsx/d.rs", 7, true)], "/ws/src/a.rs");
    let files = extract_source_files_for_external_app(&vec![e1, e2, e3, e4], &options(), &ROOT.to_string());
    let paths: Vec<&str> = files.iter().map(|f| f.relative_path.as_str()).collect();
    assert_eq!(paths, vec!["src/a.rs", "/other/b.rs", "src/c.rs", "/wsx/d.rs"]);
    let loc = Location { file_name: "/ws/x/y.rs".to_string(), line_start: 1, column_start: 2 };
    let d = diag(Level::Error, "m", vec![], "/ws/a.rs");
    let f = SourceFile::from_diagnostic_data(loc, &d, &ROOT.to_string());
    assert_eq!(f.relative_path, "x/y.rs");
    assert_eq!(f.column, 2);
}

#[test]
fn malformed_record_stops_the_pass_and_keeps_what_was_classified() {
    let mut m = Messages::new();
    let e = diag(Level::Error, "e", vec![span("a.rs", 2, true)], "/ws/a.rs");
    m.accept(RawMessage::CompilerMessage(e), 0);
    assert_eq!(m.accept(RawMessage::Malformed, 0), Step::Stop);
    assert_eq!(m.errors.len(), 1);
}
