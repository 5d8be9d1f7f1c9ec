use myllm_connect::ollama::{app_bundle, candidates, installed, status, OllamaState};
use myllm_connect::platform::Platform;

#[test]
fn candidates_per_platform() {
    assert_eq!(
        candidates(Platform::MacOs, None),
        vec![
            "/usr/local/bin/ollama",
            "/opt/homebrew/bin/ollama",
            "/Applications/Ollama.app/Contents/Resources/ollama"
        ]
    );
    assert_eq!(candidates(Platform::Other, None), vec!["/usr/local/bin/ollama", "/usr/bin/ollama"]);
    assert_eq!(
        candidates(Platform::Windows, Some("C:\\Users\\a\\AppData\\Local".to_string())),
        vec![
            "C:\\Users\\a\\AppData\\Local\\Programs\\Ollama\\ollama.exe",
            "C:\\Program Files\\Ollama\\ollama.exe"
        ]
    );
    assert_eq!(candidates(Platform::Windows, None), vec!["C:\\Program Files\\Ollama\\ollama.exe"]);
}

#[test]
fn app_bundle_only_on_mac() {
    assert_eq!(app_bundle(Platform::MacOs), Some("/Applications/Ollama.app".to_string()));
    assert_eq!(app_bundle(Platform::Windows), None);
    assert_eq!(app_bundle(Platform::Other), None);
}

#[test]
fn installed_from_probes() {
    assert!(installed(Platform::Other, &vec![false, true], false));
    assert!(!installed(Platform::Other, &vec![false, false], true));
    assert!(installed(Platform::MacOs, &vec![false, false, false], true));
    assert!(!installed(Platform::MacOs, &vec![false, false, false], false));
    assert!(!installed(Platform::Windows, &vec![], false));
}

#[test]
fn status_states() {
    assert_eq!(status(true, Some("llama3.1:8b".to_string()), false), OllamaState::Ready { model: "llama3.1:8b".to_string() });
    assert_eq!(status(true, None, true), OllamaState::NoModel);
    assert_eq!(status(false, None, true), OllamaState::NotRunning);
    assert_eq!(status(false, None, false), OllamaState::NotInstalled);
}
