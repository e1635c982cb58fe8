use wmproxy::cli::{
    apply_shared, config_format, control_url, reload_target, shared_conflict, stop_target,
    valid_ws_mode, ConfigFormat, ControlTarget, LogLevel, SharedOptions,
};
use wmproxy::control::{dispatch, respond, ControlRequest, ControlState};

#[test]
fn dispatch_names_each_endpoint_once() {
    assert_eq!(dispatch(&b"/reload".to_vec()), ControlRequest::Reload);
    assert_eq!(dispatch(&b"/stop".to_vec()), ControlRequest::Stop);
    assert_eq!(dispatch(&b"/now".to_vec()), ControlRequest::Now);
    assert_eq!(dispatch(&b"/other".to_vec()), ControlRequest::Unknown);
    assert_eq!(dispatch(&b"".to_vec()), ControlRequest::Unknown);
}

#[test]
fn responses_follow_the_control_contract() {
    let (status, body) = respond(ControlRequest::Reload, true);
    assert_eq!((status, body), (200, b"reloaded".to_vec()));
    let (status, body) = respond(ControlRequest::Reload, false);
    assert_eq!(status, 500);
    assert_eq!(body, b"config invalid".to_vec());
    let (status, body) = respond(ControlRequest::Stop, true);
    assert_eq!((status, body), (200, b"shutdown initiated".to_vec()));
    let (status, body) = respond(ControlRequest::Now, true);
    assert_eq!(status, 200);
    assert!(body.is_empty());
    let (status, body) = respond(ControlRequest::Unknown, true);
    assert_eq!(status, 503);
    // the unknown-path reply keeps the original's UTF-8 text
    assert_eq!(
        body,
        vec![
            232u8, 175, 183, 233, 128, 137, 230, 139, 169, 230, 130, 168, 232, 166, 129, 231,
            154, 132, 230, 147, 141, 228, 189, 156,
        ]
    );
}

#[test]
fn refcount_exits_only_after_both_generations_stop() {
    let mut c = ControlState::new();
    let g1 = c.start_generation();
    let g2 = c.start_generation();
    assert_eq!(c.live_count(), 2);
    assert!(c.is_live());
    assert_eq!(c.oldest_generation(), Some(g1), "a stop signal goes to the oldest generation");
    assert!(!c.on_generation_exit(g1), "only the oldest ends: keep running");
    assert_eq!(c.oldest_generation(), Some(g2), "the newer generation still serves");
    assert!(c.on_generation_exit(g2), "the second ends: the process exits");
    assert!(!c.is_live());
}

#[test]
fn reload_spawns_a_new_generation_and_keeps_the_old_running() {
    let mut c = ControlState::new();
    let g1 = c.start_generation();
    let before = c.live_count();
    // a reload starts the new generation; the old one coexists until a stop
    let g2 = c.start_generation();
    assert_eq!(c.live_count(), before + 1);
    assert_eq!(c.oldest_generation(), Some(g1), "the old generation was not signalled");
    assert!(!c.on_generation_exit(g1), "the old generation drains without exiting the process");
    assert_eq!(c.oldest_generation(), Some(g2));
}

#[test]
fn exit_of_an_unknown_generation_changes_nothing() {
    let mut c = ControlState::new();
    let g1 = c.start_generation();
    assert!(!c.on_generation_exit(g1 + 7));
    assert_eq!(c.live_count(), 1);
}

#[test]
fn config_format_follows_the_extension() {
    assert_eq!(config_format(&b"yaml".to_vec()), ConfigFormat::Yaml);
    assert_eq!(config_format(&b"toml".to_vec()), ConfigFormat::Toml);
    assert_eq!(config_format(&b"json".to_vec()), ConfigFormat::Unknown);
}

fn shared(verbose: bool) -> SharedOptions {
    SharedOptions {
        control: b"127.0.0.1:8837".to_vec(),
        disable_stdout: false,
        disable_control: false,
        daemon: false,
        forever: false,
        verbose,
        default_level: Some(LogLevel::Info),
        pidfile: b"wmproxy.pid".to_vec(),
    }
}

#[test]
fn verbose_forces_trace_level() {
    let base = apply_shared(shared(true));
    assert_eq!(base.default_level, Some(LogLevel::Trace));
    let base = apply_shared(shared(false));
    assert_eq!(base.default_level, Some(LogLevel::Info));
    assert_eq!(base.control, b"127.0.0.1:8837".to_vec());
    assert_eq!(base.pidfile, b"wmproxy.pid".to_vec());
}

#[test]
fn daemon_and_forever_conflict() {
    let mut s = shared(false);
    assert!(!shared_conflict(&s));
    s.daemon = true;
    s.forever = true;
    assert!(shared_conflict(&s));
}

#[test]
fn stop_falls_back_to_the_pid_file() {
    assert_eq!(stop_target(true, true), ControlTarget::FromConfig);
    assert_eq!(stop_target(false, true), ControlTarget::FromUrl);
    assert_eq!(stop_target(false, false), ControlTarget::FromPidfile);
}

#[test]
fn reload_needs_a_config_or_a_url() {
    assert_eq!(reload_target(true, false), Some(ControlTarget::FromConfig));
    assert_eq!(reload_target(false, true), Some(ControlTarget::FromUrl));
    assert_eq!(reload_target(false, false), None);
}

#[test]
fn control_url_prefixes_the_scheme() {
    assert_eq!(control_url(&b"127.0.0.1:8837".to_vec()), b"http://127.0.0.1:8837".to_vec());
}

#[test]
fn ws_modes_are_validated_case_insensitively() {
    assert!(valid_ws_mode(&b"ws2tcp".to_vec()));
    assert!(valid_ws_mode(&b"TCP2WS".to_vec()));
    assert!(valid_ws_mode(&b"tcp2wss".to_vec()));
    assert!(!valid_ws_mode(&b"ws2udp".to_vec()));
}
