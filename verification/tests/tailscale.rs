use myllm_connect::platform::Platform;
use myllm_connect::tailscale::{
    candidates, cli, extract_enable_url, extract_url, start_serve, status, CommandOutput,
    ServeAction, ServeStep, TailscaleState,
};

fn output(stdout: &str, stderr: &str) -> CommandOutput {
    CommandOutput { stdout: stdout.as_bytes().to_vec(), stderr: stderr.as_bytes().to_vec() }
}

fn finished(a: ServeAction) -> TailscaleState {
    match a {
        ServeAction::Finish { state } => state,
        _ => panic!("expected a finished state"),
    }
}

#[test]
fn candidates_unix_order() {
    let v = candidates(Platform::MacOs, None);
    assert_eq!(
        v,
        vec![
            "/opt/homebrew/bin/tailscale".to_string(),
            "/usr/local/bin/tailscale".to_string(),
            "/usr/bin/tailscale".to_string(),
            "/Applications/Tailscale.app/Contents/MacOS/Tailscale".to_string(),
        ]
    );
    assert_eq!(candidates(Platform::Other, Some("D:\\Apps".to_string())), v);
}

#[test]
fn candidates_windows_program_files() {
    assert_eq!(
        candidates(Platform::Windows, Some("D:\\Apps".to_string())),
        vec!["D:\\Apps\\Tailscale\\tailscale.exe".to_string()]
    );
    assert_eq!(
        candidates(Platform::Windows, None),
        vec!["C:\\Program Files\\Tailscale\\tailscale.exe".to_string()]
    );
}

#[test]
fn cli_picks_first_present() {
    let c = candidates(Platform::Other, None);
    assert_eq!(cli(&c, &vec![false, true, true, false]), Some("/usr/local/bin/tailscale".to_string()));
    assert_eq!(cli(&c, &vec![false, false, false, false]), None);
    assert_eq!(cli(&c, &vec![true]), Some("/opt/homebrew/bin/tailscale".to_string()));
}

#[test]
fn cli_homebrew_only_install_found() {
    let c = candidates(Platform::MacOs, None);
    assert_eq!(cli(&c, &vec![true, false, false, false]), Some("/opt/homebrew/bin/tailscale".to_string()));
}

#[test]
fn status_probe_is_tailscale_status() {
    assert_eq!(myllm_connect::tailscale::status_args(), vec!["status"]);
}

#[test]
fn status_without_cli_is_not_installed() {
    assert_eq!(status(None), TailscaleState::NotInstalled);
}

#[test]
fn status_launch_error_is_error() {
    assert_eq!(
        status(Some(Err("permission denied".to_string()))),
        TailscaleState::Error { message: "permission denied".to_string() }
    );
}

#[test]
fn status_logged_out_any_case_either_stream() {
    assert_eq!(status(Some(Ok(output("Logged out.\n", "")))), TailscaleState::LoggedOut);
    assert_eq!(
        status(Some(Ok(output("", "health: LOGGED OUT of tailnet")))),
        TailscaleState::LoggedOut
    );
}

#[test]
fn status_logged_in_is_healthy_without_url() {
    let out = output("100.64.0.1  mac-mini  alex@  macOS  -\n", "");
    assert_eq!(status(Some(Ok(out))), TailscaleState::Healthy { url: String::new() });
}

#[test]
fn status_invalid_utf8_still_read() {
    let out = CommandOutput { stdout: vec![0xff, b' ', b'l', b'o', b'g', b'g', b'e', b'd', b' ', b'o', b'u', b't'], stderr: vec![] };
    assert_eq!(status(Some(Ok(out))), TailscaleState::LoggedOut);
}

#[test]
fn extract_url_finds_ts_net_and_trims_slash() {
    let text = "Available within your tailnet:\n\nhttps://mac-mini.tailnet-1234.ts.net/\n|-- proxy http://127.0.0.1:11435\n";
    assert_eq!(extract_url(text), Some("https://mac-mini.tailnet-1234.ts.net".to_string()));
}

#[test]
fn extract_url_skips_other_https_words() {
    let text = "see https://tailscale.com/kb and https://box.ts.net///";
    assert_eq!(extract_url(text), Some("https://box.ts.net".to_string()));
    assert_eq!(extract_url("http://box.ts.net only"), None);
    assert_eq!(extract_url(""), None);
}

#[test]
fn extract_url_splits_on_unicode_whitespace() {
    let text = "url:\u{3000}https://a.ts.net\u{a0}done";
    assert_eq!(extract_url(text), Some("https://a.ts.net".to_string()));
}

#[test]
fn extract_enable_url_finds_login_link() {
    let text = "Serve is not enabled on your tailnet.\nTo enable, visit:\n\n         https://login.tailscale.com/f/serve?node=nXXXX\n";
    assert_eq!(
        extract_enable_url(text),
        Some("https://login.tailscale.com/f/serve?node=nXXXX".to_string())
    );
    assert_eq!(extract_enable_url("https://tailscale.com/x"), None);
}

#[test]
fn start_serve_without_cli() {
    assert_eq!(
        finished(start_serve(ServeStep::Begin { cli_found: false }, 11435)),
        TailscaleState::NotInstalled
    );
    assert!(matches!(start_serve(ServeStep::Begin { cli_found: true }, 11435), ServeAction::CheckStatus));
}

#[test]
fn start_serve_reports_logged_out_before_serving() {
    assert_eq!(
        finished(start_serve(ServeStep::StatusKnown { state: TailscaleState::LoggedOut }, 11435)),
        TailscaleState::LoggedOut
    );
}

#[test]
fn start_serve_runs_serve_bg_with_port() {
    match start_serve(ServeStep::StatusKnown { state: TailscaleState::Healthy { url: String::new() } }, 11435) {
        ServeAction::RunServe { args } => assert_eq!(args, vec!["serve", "--bg", "11435"]),
        _ => panic!("expected a serve run"),
    }
    match start_serve(ServeStep::StatusKnown { state: TailscaleState::Error { message: "x".into() } }, 7) {
        ServeAction::RunServe { args } => assert_eq!(args, vec!["serve", "--bg", "7"]),
        _ => panic!("expected a serve run"),
    }
}

#[test]
fn start_serve_launch_failure() {
    assert_eq!(
        finished(start_serve(ServeStep::ServeRan { result: Err("not found".into()) }, 11435)),
        TailscaleState::Error { message: "not found".to_string() }
    );
}

#[test]
fn start_serve_not_enabled() {
    let out = output("", "Serve is not enabled on your tailnet.\nTo enable, visit:\n\n  https://login.tailscale.com/f/serve?node=abc\n");
    assert_eq!(
        finished(start_serve(ServeStep::ServeRan { result: Ok(out) }, 11435)),
        TailscaleState::ServeNotEnabled {
            enable_url: Some("https://login.tailscale.com/f/serve?node=abc".to_string())
        }
    );
}

#[test]
fn start_serve_url_in_serve_output() {
    let out = output("Available on the internet:\n\nhttps://pc.tail9.ts.net/\n", "");
    assert_eq!(
        finished(start_serve(ServeStep::ServeRan { result: Ok(out) }, 11435)),
        TailscaleState::Healthy { url: "https://pc.tail9.ts.net".to_string() }
    );
}

#[test]
fn start_serve_url_split_across_streams() {
    let out = output("https://a.ts.net", "/extra");
    assert_eq!(
        finished(start_serve(ServeStep::ServeRan { result: Ok(out) }, 11435)),
        TailscaleState::Healthy { url: "https://a.ts.net".to_string() }
    );
}

#[test]
fn start_serve_falls_back_to_serve_status() {
    match start_serve(ServeStep::ServeRan { result: Ok(output("", "")) }, 11435) {
        ServeAction::RunServeStatus { args } => assert_eq!(args, vec!["serve", "status"]),
        _ => panic!("expected serve status"),
    }
    let status_out = output("https://pc.tail9.ts.net (tailnet only)\n|-- / proxy http://127.0.0.1:11435\n", "");
    assert_eq!(
        finished(start_serve(ServeStep::ServeStatusRan { result: Ok(status_out) }, 11435)),
        TailscaleState::Healthy { url: "https://pc.tail9.ts.net".to_string() }
    );
}

#[test]
fn start_serve_no_url_anywhere() {
    let expected = TailscaleState::Error { message: "serve started but no https URL was found".to_string() };
    assert_eq!(
        finished(start_serve(ServeStep::ServeStatusRan { result: Ok(output("No serve config", "")) }, 11435)),
        expected
    );
    assert_eq!(
        finished(start_serve(ServeStep::ServeStatusRan { result: Err("gone".into()) }, 11435)),
        expected
    );
}

#[test]
fn serve_url_is_https_ts_net_without_trailing_slash() {
    let out = output("Funnel on:\n  https://x.ts.net.evil/path/// \n", "");
    let state = finished(start_serve(ServeStep::ServeRan { result: Ok(out) }, 1));
    match state {
        TailscaleState::Healthy { url } => {
            assert!(url.starts_with("https://"));
            assert!(url.contains(".ts.net"));
            assert!(!url.ends_with('/'));
            assert_eq!(url, "https://x.ts.net.evil/path");
        }
        other => panic!("unexpected {:?}", other),
    }
}
