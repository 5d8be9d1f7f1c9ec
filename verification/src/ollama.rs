//! Ollama detection and readiness for the first-run flow.
//!
//! The companion does not manage the Ollama process; it finds out three
//! things the user can act on (is it installed, is it running, does it have
//! a model) and the UI turns each into one clear next step. Chat traffic
//! goes through the loopback proxy.

use vstd::prelude::*;

use crate::platform::Platform;
use crate::text::{opt_view, views};

verus! {

/// What the user needs to do next about their local model, if anything.
#[derive(Clone, Debug, PartialEq, Eq)]
pub enum OllamaState {
    /// No Ollama install found on disk.
    NotInstalled,
    /// Installed, but not answering on the local port yet.
    NotRunning,
    /// Running, but no model has been pulled.
    NoModel,
    /// Running with at least one model: ready to share.
    Ready { model: String },
}

/// Where the Ollama binary is looked for, in order. On Windows the per-user
/// install under `LOCALAPPDATA` comes first when that directory is known.
pub open spec fn ollama_candidates(platform: Platform, local_app_data: Option<Seq<char>>) -> Seq<
    Seq<char>,
> {
    match platform {
        Platform::MacOs => seq![
            "/usr/local/bin/ollama"@,
            "/opt/homebrew/bin/ollama"@,
            "/Applications/Ollama.app/Contents/Resources/ollama"@,
        ],
        Platform::Windows => match local_app_data {
            Some(local) => seq![
                local + "\\Programs\\Ollama\\ollama.exe"@,
                "C:\\Program Files\\Ollama\\ollama.exe"@,
            ],
            None => seq!["C:\\Program Files\\Ollama\\ollama.exe"@],
        },
        Platform::Other => seq!["/usr/local/bin/ollama"@, "/usr/bin/ollama"@],
    }
}

/// The paths where an Ollama binary may be installed on `platform`.
pub fn candidates(platform: Platform, local_app_data: Option<String>) -> (v: Vec<String>)
    ensures
        views(v@) == ollama_candidates(platform, opt_view(local_app_data)),
{
    let mut v: Vec<String> = Vec::new();
    match platform {
        Platform::MacOs => {
            v.push(String::from_str("/usr/local/bin/ollama"));
            v.push(String::from_str("/opt/homebrew/bin/ollama"));
            v.push(String::from_str("/Applications/Ollama.app/Contents/Resources/ollama"));
        },
        Platform::Windows => {
            if let Some(mut local) = local_app_data {
                local.append("\\Programs\\Ollama\\ollama.exe");
                v.push(local);
            }
            v.push(String::from_str("C:\\Program Files\\Ollama\\ollama.exe"));
        },
        Platform::Other => {
            v.push(String::from_str("/usr/local/bin/ollama"));
            v.push(String::from_str("/usr/bin/ollama"));
        },
    }
    assert(views(v@) =~= ollama_candidates(platform, opt_view(local_app_data)));
    v
}

/// The application bundle whose presence also counts as an install: only on
/// macOS, `/Applications/Ollama.app`.
pub fn app_bundle(platform: Platform) -> (p: Option<String>)
    ensures
        opt_view(p) == if platform == Platform::MacOs {
            Some("/Applications/Ollama.app"@)
        } else {
            None
        },
{
    match platform {
        Platform::MacOs => Some(String::from_str("/Applications/Ollama.app")),
        _ => None,
    }
}

/// Whether an Ollama install exists on disk: `present[i]` tells whether the
/// `i`-th of [`candidates`] exists, `bundle_present` whether the path of
/// [`app_bundle`] does (it counts on macOS only).
pub fn installed(platform: Platform, present: &Vec<bool>, bundle_present: bool) -> (b: bool)
    ensures
        b == ((exists|i: int| 0 <= i < present@.len() && #[trigger] present@[i]) || (platform
            == Platform::MacOs && bundle_present)),
{
    let mut i: usize = 0;
    while i < present.len()
        invariant
            i <= present@.len(),
            forall|j: int| 0 <= j < i ==> !#[trigger] present@[j],
        decreases present@.len() - i,
    {
        if present[i] {
            return true;
        }
        i = i + 1;
    }
    match platform {
        Platform::MacOs => bundle_present,
        _ => false,
    }
}

/// The actionable state: `up` is whether Ollama answers on its local port,
/// `model` its first model (asked only when it is up), and `installed`
/// whether it is on disk (asked only when it is not up).
pub fn status(up: bool, model: Option<String>, installed: bool) -> (s: OllamaState)
    ensures
        up ==> match model {
            Some(m) => s == OllamaState::Ready { model: m },
            None => s == OllamaState::NoModel,
        },
        !up && installed ==> s == OllamaState::NotRunning,
        !up && !installed ==> s == OllamaState::NotInstalled,
{
    if up {
        return match model {
            Some(model) => OllamaState::Ready { model },
            None => OllamaState::NoModel,
        };
    }
    if installed {
        OllamaState::NotRunning
    } else {
        OllamaState::NotInstalled
    }
}

} // verus!
