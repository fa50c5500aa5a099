use spallcomp::request_routing::{determine_requested_item, RequestedItem};
use spallcomp::settings::{
    answer_is_yes, compilation_settings_from_args, log_enabled, parse_command, separate_args, Command,
    CompilationLogLevel, Options,
};

#[test]
fn log_levels_are_ordered() {
    assert!(log_enabled(CompilationLogLevel::PerStep, CompilationLogLevel::Brief));
    assert!(log_enabled(CompilationLogLevel::Minimal, CompilationLogLevel::Minimal));
    assert!(!log_enabled(CompilationLogLevel::Brief, CompilationLogLevel::PerStep));
}

#[test]
fn settings_follow_options() {
    let options = Options {
        verbosity: 1,
        debug_tokens: true,
        do_not_minify: true,
        project_path: "p".to_string(),
        preserve_html_comments: false,
    };
    let settings = compilation_settings_from_args(&options);
    assert_eq!(settings.log_level, CompilationLogLevel::Brief);
    assert!(settings.debug_tokens);
    assert!(!settings.minify_files);
}

#[test]
fn run_arguments_are_split() {
    let args: Vec<String> = ["spall run", "--", "-v", "proj", "--", "-p", "80", "--", "x"]
        .iter()
        .map(|s| s.to_string())
        .collect();
    let (build, serve) = separate_args(&args);
    assert_eq!(build, vec!["spall build", "-v", "proj"]);
    assert_eq!(serve, vec!["spall serve", "-p", "80"]);
    let (build, serve) = separate_args(&vec!["spall run".to_string(), "stray".to_string()]);
    assert_eq!(build, vec!["spall build"]);
    assert_eq!(serve, vec!["spall serve"]);
}

#[test]
fn commands_are_named() {
    assert_eq!(parse_command("serve"), Some(Command::Serve));
    assert_eq!(parse_command("init"), Some(Command::Init));
    assert_eq!(parse_command("deploy"), None);
    assert!(answer_is_yes("yes\n"));
    assert!(!answer_is_yes("\n"));
}

#[test]
fn requests_are_routed() {
    assert_eq!(determine_requested_item(None), RequestedItem::Spa);
    assert_eq!(determine_requested_item(Some("static")), RequestedItem::StaticFile);
    assert_eq!(determine_requested_item(Some("scripts")), RequestedItem::StaticFile);
    assert_eq!(determine_requested_item(Some("..")), RequestedItem::Invalid);
    assert_eq!(determine_requested_item(Some("about")), RequestedItem::Spa);
}
