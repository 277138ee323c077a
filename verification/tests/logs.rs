use xtea::{
    is_plugin_file, log_file_content, log_file_path, ImguiLogger, Level, LogBook, LogChannel, UiState,
};

fn channel(target: &str, lines: &[&str]) -> LogChannel {
    LogChannel {
        target: target.to_string(),
        lines: lines.iter().map(|line| line.to_string()).collect(),
    }
}

#[test]
fn a_new_logger_has_captured_nothing() {
    let mut logger = ImguiLogger::new();
    assert!(logger.clear().channels().is_empty());
}

#[test]
fn log_formats_level_and_message() {
    let mut logger = ImguiLogger::new();
    logger.log("xtea", Level::Error, "Failed to load plugin a.dll");
    let drained = logger.clear();
    assert_eq!(drained.channels(), &vec![channel("xtea", &["ERROR - Failed to load plugin a.dll"])]);
}

#[test]
fn every_level_has_its_word() {
    let mut logger = ImguiLogger::new();
    logger.log("t", Level::Error, "m");
    logger.log("t", Level::Warn, "m");
    logger.log("t", Level::Info, "m");
    logger.log("t", Level::Debug, "m");
    logger.log("t", Level::Trace, "m");
    let drained = logger.clear();
    assert_eq!(
        drained.channels(),
        &vec![channel("t", &["ERROR - m", "WARN - m", "INFO - m", "DEBUG - m", "TRACE - m"])]
    );
}

#[test]
fn log_keeps_lines_by_target_in_arrival_order() {
    let mut logger = ImguiLogger::new();
    logger.log("alpha", Level::Info, "one");
    logger.log("beta", Level::Warn, "two");
    logger.log("alpha", Level::Debug, "three");
    let drained = logger.clear();
    assert_eq!(
        drained.channels(),
        &vec![channel("alpha", &["INFO - one", "DEBUG - three"]), channel("beta", &["WARN - two"])]
    );
    assert_eq!(drained.lines("beta"), Some(&vec!["WARN - two".to_string()]));
    assert_eq!(drained.lines("gamma"), None);
}

#[test]
fn silenced_targets_never_reach_a_drain() {
    let mut logger = ImguiLogger::new();
    logger.log("wgpu_core::device", Level::Info, "created");
    logger.log("naga::front", Level::Trace, "parsed");
    logger.log("wgpu", Level::Error, "lost");
    logger.log("mine", Level::Info, "kept");
    logger.log("naga", Level::Warn, "slow");
    let first = logger.clear();
    assert_eq!(first.channels(), &vec![channel("mine", &["INFO - kept"])]);
    logger.log("wgpu_hal", Level::Info, "again");
    assert!(logger.clear().channels().is_empty());
}

#[test]
fn enabled_goes_by_the_prefix_of_the_target() {
    let logger = ImguiLogger::new();
    assert!(!logger.enabled("wgpu"));
    assert!(!logger.enabled("wgpu_core"));
    assert!(!logger.enabled("naga::back"));
    assert!(logger.enabled("xtea"));
    assert!(logger.enabled("wgp"));
    assert!(logger.enabled("my_wgpu"));
    assert!(logger.enabled(""));
    assert!(logger.enabled("Naga"));
}

#[test]
fn clear_leaves_the_logger_empty() {
    let mut logger = ImguiLogger::new();
    logger.log("a", Level::Info, "x");
    assert_eq!(logger.clear().channels().len(), 1);
    assert!(logger.clear().channels().is_empty());
    logger.log("a", Level::Info, "y");
    assert_eq!(logger.clear().channels(), &vec![channel("a", &["INFO - y"])]);
}

#[test]
fn a_message_may_be_empty_or_hold_line_feeds() {
    let mut logger = ImguiLogger::new();
    logger.log("a", Level::Error, "");
    logger.log("a", Level::Error, "Failed to load plugin x\n\tcause");
    assert_eq!(
        logger.clear().channels(),
        &vec![channel("a", &["ERROR - ", "ERROR - Failed to load plugin x\n\tcause"])]
    );
}

#[test]
fn ui_state_starts_with_only_the_log_window_open() {
    let state = UiState::new();
    assert!(state.logs.channels().is_empty());
    assert!(state.view_logs);
    assert!(!state.view_style_editor);
    assert!(!state.view_plugin_manager);
}

#[test]
fn take_in_puts_new_lines_behind_the_old_ones() {
    let mut logger = ImguiLogger::new();
    let mut state = UiState::new();
    logger.log("a", Level::Info, "1");
    logger.log("b", Level::Info, "2");
    state.take_in(logger.clear());
    logger.log("c", Level::Info, "3");
    logger.log("a", Level::Info, "4");
    state.take_in(logger.clear());
    state.take_in(logger.clear());
    assert_eq!(
        state.logs.channels(),
        &vec![
            channel("a", &["INFO - 1", "INFO - 4"]),
            channel("b", &["INFO - 2"]),
            channel("c", &["INFO - 3"]),
        ]
    );
    assert!(state.view_logs);
}

#[test]
fn a_log_book_extends_and_merges() {
    let mut book = LogBook::new();
    book.append("a", "1".to_string());
    book.extend("b".to_string(), vec!["2".to_string(), "3".to_string()]);
    book.extend("a".to_string(), Vec::new());
    let mut newer = LogBook::new();
    newer.append("b", "4".to_string());
    newer.append("c", "5".to_string());
    book.merge(newer);
    assert_eq!(
        book.channels(),
        &vec![channel("a", &["1"]), channel("b", &["2", "3", "4"]), channel("c", &["5"])]
    );
    let taken = book.take();
    assert_eq!(taken.channels().len(), 3);
    assert!(book.channels().is_empty());
}

#[test]
fn log_files_are_named_after_their_target() {
    assert_eq!(log_file_path("xtea"), "logs/xtea.txt");
    assert_eq!(log_file_path("Example (basic) Plugin"), "logs/Example (basic) Plugin.txt");
    assert_eq!(log_file_path(""), "logs/.txt");
}

#[test]
fn log_file_content_joins_the_lines() {
    assert_eq!(log_file_content(&Vec::new()), "");
    assert_eq!(log_file_content(&vec!["INFO - a".to_string()]), "INFO - a");
    assert_eq!(
        log_file_content(&vec!["INFO - a".to_string(), "".to_string(), "WARN - b".to_string()]),
        "INFO - a\n\nWARN - b"
    );
}

#[test]
fn plugin_files_are_known_by_their_extension() {
    assert!(is_plugin_file("basic.dll", "dll"));
    assert!(is_plugin_file("libbasic.so", "so"));
    assert!(is_plugin_file("a.b.dll", "dll"));
    assert!(is_plugin_file(".dll", "dll"));
    assert!(is_plugin_file("dll", "dll"));
    assert!(!is_plugin_file("basic.dll", "so"));
    assert!(!is_plugin_file("basicdll", "dll"));
    assert!(!is_plugin_file("basic.dll.bak", "dll"));
    assert!(!is_plugin_file("basic.DLL", "dll"));
    assert!(!is_plugin_file("ll", "dll"));
    assert!(!is_plugin_file("", "dll"));
    assert!(!is_plugin_file("archive.tar.gz", "tar.gz"));
    assert!(is_plugin_file("readme.", ""));
    assert!(is_plugin_file("", ""));
    assert!(!is_plugin_file("readme", ""));
    assert!(is_plugin_file("p\u{e9}.dll", "dll"));
}
