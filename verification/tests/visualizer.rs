use quanergy_client::visualizer::{
    console_action, parse_console_command, reports_cloud_count, ConsoleAction, ConsoleCommand,
};
use quanergy_client::error::QuanergyError;
use quanergy_client::visualizer::{
    default_visualizer_live_args, display_stride, fallback_recording_name, has_explicit_subcommand,
    is_missing_host_error, launch_args, missing_host_message, normalize_connect_addr, require_host,
    requests_root_metadata, visualizer_config, RerunOutput, VisualizerConfig,
};

fn args(list: &[&str]) -> Vec<String> {
    list.iter().map(|s| s.to_string()).collect()
}

#[test]
fn rerun_sink_zero_max_points_disables_downsampling() {
    assert_eq!(display_stride(1_000_000, 0), 1);
}

#[test]
fn rerun_sink_display_stride_caps_points() {
    assert_eq!(display_stride(10, 3), 4);
}

#[test]
fn rerun_sink_bare_connect_addr_is_promoted_to_rerun_url() {
    assert_eq!(normalize_connect_addr("127.0.0.1:9876"), "rerun+http://127.0.0.1:9876/proxy");
    assert_eq!(
        normalize_connect_addr("rerun+http://127.0.0.1:9876/proxy"),
        "rerun+http://127.0.0.1:9876/proxy"
    );
}

#[test]
fn visualizer_zero_max_points_disables_downsampling() {
    assert_eq!(display_stride(1_000_000, 0), 1);
}

#[test]
fn visualizer_display_stride_caps_points() {
    assert_eq!(display_stride(10, 3), 4);
}

#[test]
fn visualizer_bare_connect_addr_is_promoted_to_rerun_url() {
    assert_eq!(normalize_connect_addr("127.0.0.1:9876"), "rerun+http://127.0.0.1:9876/proxy");
    assert_eq!(
        normalize_connect_addr("rerun+http://127.0.0.1:9876/proxy"),
        "rerun+http://127.0.0.1:9876/proxy"
    );
}

#[test]
fn no_args_default_to_visualizer_live_and_pause_on_missing_host() {
    let (line, pause) = launch_args(args(&["quanergy-client"]));
    assert!(pause);
    assert_eq!(line, args(&["quanergy-client", "visualizer", "live"]));

    let error = require_host(&String::new()).unwrap_err();
    assert!(is_missing_host_error(&error));
    match error {
        QuanergyError::Config(message) => assert!(message.contains("quanergy-client.exe --host")),
        other => panic!("unexpected error {other:?}"),
    }
}

#[test]
fn top_level_host_defaults_to_visualizer_live_without_pause() {
    let (line, pause) = launch_args(args(&["quanergy-client", "--host", "192.0.2.10"]));
    assert!(!pause);
    assert_eq!(line, args(&["quanergy-client", "visualizer", "live", "--host", "192.0.2.10"]));
}

#[test]
fn explicit_visualizer_live_is_not_marked_as_double_click_launch() {
    let (line, pause) = launch_args(args(&["quanergy-client", "visualizer", "live"]));
    assert!(!pause);
    assert_eq!(line, args(&["quanergy-client", "visualizer", "live"]));
}

#[test]
fn root_help_stays_root_help() {
    let (line, pause) = launch_args(args(&["quanergy-client", "--help"]));
    assert!(!pause);
    assert_eq!(line, args(&["quanergy-client", "--help"]));
}

#[test]
fn explicit_visualizer_without_nested_command_still_errors() {
    // The command is named, so nothing is added: the missing nested
    // command is left for the argument parser to report.
    let (line, pause) = launch_args(args(&["quanergy-client", "visualizer"]));
    assert!(!pause);
    assert_eq!(line, args(&["quanergy-client", "visualizer"]));
}

#[test]
fn stride_rounds_up_and_keeps_at_most_the_limit() {
    assert_eq!(display_stride(3, 3), 1);
    assert_eq!(display_stride(0, 3), 1);
    assert_eq!(display_stride(9, 3), 3);
    assert_eq!(display_stride(300_001, 300_000), 2);
    for count in 0..200usize {
        for max in 1..20usize {
            let s = display_stride(count, max);
            assert!(s >= 1);
            assert!((count + s - 1) / s <= max);
        }
    }
}

#[test]
fn connect_address_with_other_scheme_is_kept() {
    assert_eq!(normalize_connect_addr("grpc://host:1"), "grpc://host:1");
    assert_eq!(normalize_connect_addr(""), "rerun+http:///proxy");
    let once = normalize_connect_addr("10.0.0.5:9876");
    assert_eq!(normalize_connect_addr(&once), once);
}

#[test]
fn visualizer_config_prefers_save_then_connect() {
    let c = visualizer_config(Some("a.rrd".to_string()), Some("h:1".to_string()), 5);
    assert!(matches!(c.output, RerunOutput::Save(ref p) if p == "a.rrd"));
    assert_eq!(c.max_points, 5);
    let c = visualizer_config(None, Some("h:1".to_string()), 7);
    assert!(matches!(c.output, RerunOutput::Connect(ref a) if a == "h:1"));
    let c = visualizer_config(None, None, 300_000);
    assert!(matches!(c.output, RerunOutput::Spawn(None)));
    let d = VisualizerConfig::default();
    assert_eq!(d.max_points, 300_000);
    assert!(matches!(d.output, RerunOutput::Spawn(None)));
    assert!(matches!(RerunOutput::default(), RerunOutput::Spawn(None)));
}

#[test]
fn missing_host_text_and_detection() {
    let m = missing_host_message();
    assert!(m.starts_with("no host provided\n\nProvide a sensor host"));
    assert!(m.ends_with("pass --host to that command."));
    assert!(is_missing_host_error(&QuanergyError::Config(m.clone())));
    assert!(!is_missing_host_error(&QuanergyError::Config("no host".to_string())));
    assert!(!is_missing_host_error(&QuanergyError::Http(m)));
    assert_eq!(require_host(&"10.0.0.1".to_string()).unwrap(), "10.0.0.1");
}

#[test]
fn launch_argument_classification() {
    assert!(requests_root_metadata(&args(&["p", "--verbose", "-V"])));
    assert!(!requests_root_metadata(&args(&["p", "--host", "x", "--help"])));
    assert!(has_explicit_subcommand(&args(&["p", "--strict", "record"])));
    assert!(!has_explicit_subcommand(&args(&["p", "--host", "record"])));
    assert!(!has_explicit_subcommand(&args(&["p", "other"])));
    let (line, added) = default_visualizer_live_args(args(&["p", "--strict", "--host", "h"]));
    assert!(added);
    assert_eq!(line, args(&["p", "visualizer", "live", "--strict", "--host", "h"]));
    let (line, added) = default_visualizer_live_args(Vec::new());
    assert!(!added);
    assert!(line.is_empty());
}

#[test]
fn fallback_recording_file_name() {
    assert_eq!(fallback_recording_name(0), "quanergy_0.rrd");
    assert_eq!(fallback_recording_name(1_700_000_123), "quanergy_1700000123.rrd");
}

#[test]
fn console_commands_are_read_trimmed() {
    assert_eq!(parse_console_command("run\n"), ConsoleCommand::Run);
    assert_eq!(parse_console_command("  stop \r\n"), ConsoleCommand::Stop);
    assert_eq!(parse_console_command("exit"), ConsoleCommand::Exit);
    assert_eq!(parse_console_command(" Run \n"), ConsoleCommand::Unknown("Run".to_string()));
    assert_eq!(parse_console_command("\n"), ConsoleCommand::Unknown(String::new()));
}

#[test]
fn console_runs_one_connection_at_a_time() {
    assert_eq!(console_action(&ConsoleCommand::Run, false), ConsoleAction::Connect);
    assert_eq!(console_action(&ConsoleCommand::Run, true), ConsoleAction::ReportAlreadyRunning);
    assert_eq!(console_action(&ConsoleCommand::Stop, false), ConsoleAction::Disconnect);
    assert_eq!(console_action(&ConsoleCommand::Exit, true), ConsoleAction::DisconnectAndExit);
    assert_eq!(console_action(&ConsoleCommand::Unknown("x".to_string()), true), ConsoleAction::ReportUnknown);
}

#[test]
fn cloud_count_is_reported_every_hundred() {
    assert!(reports_cloud_count(100));
    assert!(reports_cloud_count(300));
    assert!(!reports_cloud_count(99));
    assert!(!reports_cloud_count(1));
}
