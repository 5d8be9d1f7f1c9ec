//! Tailscale detection and `tailscale serve`: where the CLI is looked for,
//! how its output is read, and the steps that bring the HTTPS endpoint up.
//!
//! The states mirror what the pairing proof surfaced, including
//! `ServeNotEnabled`, the fresh-tailnet case with the admin-console URL that
//! the CLI hands out.

use vstd::prelude::*;

use crate::encoding::{decimal, decimal_string};
use crate::platform::Platform;
use crate::text::{
    has_prefix, is_white_space, lemma_first_wanted_found, lemma_split_ws_words, lemma_trim_end_char, no_white_space,
    occurs_at,
    chars_of, contains, contains_chars, first_token, first_wanted, from_utf8_lossy, lowercase, opt_view,
    string_of, to_lowercase, trim_end_char, trim_end_char_chars, utf8_lossy, views, whitespace_tokens,
};

verus! {

/// What the user can act on about Tailscale.
#[derive(Clone, Debug, PartialEq, Eq)]
pub enum TailscaleState {
    /// CLI not found on disk.
    NotInstalled,
    /// Installed but the node is logged out.
    LoggedOut,
    /// Logged in, but HTTPS/Serve isn't enabled on the tailnet yet;
    /// `enable_url` is the admin-console link the CLI provides.
    ServeNotEnabled { enable_url: Option<String> },
    /// Serve is up; `url` is the public HTTPS endpoint.
    Healthy { url: String },
    /// Anything else (serve failed, transient) with a message.
    Error { message: String },
}

/// What a finished CLI run printed.
pub struct CommandOutput {
    /// Standard output, as raw bytes.
    pub stdout: Vec<u8>,
    /// Standard error, as raw bytes.
    pub stderr: Vec<u8>,
}

/// Where the Tailscale CLI is looked for, in order: on macOS and Linux the
/// Homebrew, `/usr/local/bin` and `/usr/bin` installs, then the binary in
/// the app bundle. On Windows the base is
/// the `ProgramFiles` directory, or `C:\Program Files` when it is unknown.
pub open spec fn cli_candidates(platform: Platform, program_files: Option<Seq<char>>) -> Seq<
    Seq<char>,
> {
    if platform == Platform::Windows {
        let base = match program_files {
            Some(p) => p,
            None => "C:\\Program Files"@,
        };
        seq![base + "\\Tailscale\\tailscale.exe"@]
    } else {
        seq![
            "/opt/homebrew/bin/tailscale"@,
            "/usr/local/bin/tailscale"@,
            "/usr/bin/tailscale"@,
            "/Applications/Tailscale.app/Contents/MacOS/Tailscale"@,
        ]
    }
}

/// The paths where the Tailscale CLI may be installed, in the order they are
/// tried.
pub fn candidates(platform: Platform, program_files: Option<String>) -> (v: Vec<String>)
    ensures
        views(v@) == cli_candidates(platform, opt_view(program_files)),
{
    let mut v: Vec<String> = Vec::new();
    match platform {
        Platform::Windows => {
            let mut p = match program_files {
                Some(pf) => pf,
                None => String::from_str("C:\\Program Files"),
            };
            p.append("\\Tailscale\\tailscale.exe");
            v.push(p);
        },
        _ => {
            v.push(String::from_str("/opt/homebrew/bin/tailscale"));
            v.push(String::from_str("/usr/local/bin/tailscale"));
            v.push(String::from_str("/usr/bin/tailscale"));
            v.push(String::from_str("/Applications/Tailscale.app/Contents/MacOS/Tailscale"));
        },
    }
    assert(views(v@) =~= cli_candidates(platform, opt_view(program_files)));
    v
}

/// The first candidate path that exists, where `present[i]` tells whether
/// `candidates[i]` exists on disk.
pub fn cli(candidates: &Vec<String>, present: &Vec<bool>) -> (r: Option<String>)
    ensures
        match r {
            Some(p) => exists|i: int|
                0 <= i < candidates@.len() && i < present@.len() && present@[i]
                    && candidates@[i]@ == p@ && forall|j: int| 0 <= j < i ==> !present@[j],
            None => forall|i: int|
                0 <= i < candidates@.len() && i < present@.len() ==> !present@[i],
        },
{
    let mut i: usize = 0;
    while i < candidates.len() && i < present.len()
        invariant
            i <= candidates@.len(),
            forall|j: int| 0 <= j < i && j < present@.len() ==> !present@[j],
        decreases candidates@.len() - i,
    {
        if present[i] {
            return Some(candidates[i].clone());
        }
        i = i + 1;
    }
    None
}

/// Whether a `tailscale status` run says the node is logged out, on either
/// stream, ignoring case.
pub open spec fn reports_logged_out(out: CommandOutput) -> bool {
    ||| contains(lowercase(utf8_lossy(out.stdout@)), "logged out"@)
    ||| contains(lowercase(utf8_lossy(out.stderr@)), "logged out"@)
}

fn mentions(text: &String, phrase: &str) -> (b: bool)
    ensures
        b == contains(lowercase(text@), phrase@),
{
    let lower = to_lowercase(text.as_str());
    let hay = chars_of(lower.as_str());
    let needle = chars_of(phrase);
    contains_chars(&hay, &needle)
}

/// The arguments of the probe that [`status`] reads: `tailscale status`,
/// which only reports and never changes the serve configuration.
pub fn status_args() -> (args: Vec<String>)
    ensures
        views(args@) == seq!["status"@],
{
    let mut args: Vec<String> = Vec::new();
    args.push(String::from_str("status"));
    assert(views(args@) =~= seq!["status"@]);
    args
}

/// The node state from a `tailscale status` probe, without touching serve:
/// `probe` is `None` when no CLI was found, else the outcome of running the
/// CLI with [`status_args`] (an error holds the message of the failed launch).
pub fn status(probe: Option<Result<CommandOutput, String>>) -> (s: TailscaleState)
    ensures
        match probe {
            None => s == TailscaleState::NotInstalled,
            Some(Err(m)) => s == TailscaleState::Error { message: m },
            Some(Ok(out)) => if reports_logged_out(out) {
                s == TailscaleState::LoggedOut
            } else {
                s matches TailscaleState::Healthy { url } && url@.len() == 0
            },
        },
        (s is LoggedOut) == (probe matches Some(Ok(out)) && (contains(
            lowercase(utf8_lossy(out.stdout@)),
            "logged out"@,
        ) || contains(lowercase(utf8_lossy(out.stderr@)), "logged out"@))),
{
    match probe {
        None => TailscaleState::NotInstalled,
        Some(Err(m)) => TailscaleState::Error { message: m },
        Some(Ok(out)) => {
            let text = from_utf8_lossy(out.stdout.as_slice());
            let err = from_utf8_lossy(out.stderr.as_slice());
            if mentions(&text, "logged out") || mentions(&err, "logged out") {
                TailscaleState::LoggedOut
            } else {
                TailscaleState::Healthy { url: String::new() }
            }
        },
    }
}

/// The serve URL in CLI output: the first whitespace-separated word that
/// begins with `https://` and contains `.ts.net`, with trailing `/` removed.
pub open spec fn serve_url_in(text: Seq<char>) -> Option<Seq<char>> {
    match first_wanted(whitespace_tokens(text), "https://"@, ".ts.net"@) {
        Some(t) => Some(trim_end_char(t, '/')),
        None => None,
    }
}

/// The admin-console link in CLI output: the first whitespace-separated word
/// that begins with `https://login.tailscale.com/`.
pub open spec fn enable_url_in(text: Seq<char>) -> Option<Seq<char>> {
    first_wanted(whitespace_tokens(text), "https://login.tailscale.com/"@, seq![])
}

/// Parses the `https://...ts.net` URL out of `tailscale serve` output.
pub fn extract_url(text: &str) -> (r: Option<String>)
    ensures
        opt_view(r) == serve_url_in(text@),
{
    let chars = chars_of(text);
    let prefix = chars_of("https://");
    let infix = chars_of(".ts.net");
    match first_token(&chars, &prefix, &infix) {
        Some(t) => {
            let trimmed = trim_end_char_chars(&t, '/');
            Some(string_of(&trimmed))
        },
        None => None,
    }
}

/// Parses the admin-console enable URL out of a "Serve is not enabled" error.
pub fn extract_enable_url(text: &str) -> (r: Option<String>)
    ensures
        opt_view(r) == enable_url_in(text@),
{
    let chars = chars_of(text);
    let prefix = chars_of("https://login.tailscale.com/");
    let infix: Vec<char> = Vec::new();
    assert(infix@ =~= Seq::<char>::empty());
    match first_token(&chars, &prefix, &infix) {
        Some(t) => Some(string_of(&t)),
        None => None,
    }
}

/// The probe reports logged out exactly when one of its two streams,
/// lower-cased, contains `logged out`; any other completed probe is healthy
/// with no URL yet, and a failed launch is an error carrying its message.
pub proof fn lemma_status_logged_out_only_on_phrase(
    probe: Option<Result<CommandOutput, String>>,
    s: TailscaleState,
)
    requires
        match probe {
            None => s == TailscaleState::NotInstalled,
            Some(Err(m)) => s == TailscaleState::Error { message: m },
            Some(Ok(out)) => if reports_logged_out(out) {
                s == TailscaleState::LoggedOut
            } else {
                s matches TailscaleState::Healthy { url } && url@.len() == 0
            },
        },
    ensures
        (s is LoggedOut) == (probe matches Some(Ok(out)) && (contains(
            lowercase(utf8_lossy(out.stdout@)),
            "logged out"@,
        ) || contains(lowercase(utf8_lossy(out.stderr@)), "logged out"@))),
        probe matches Some(Ok(out)) ==> (!contains(lowercase(utf8_lossy(out.stdout@)), "logged out"@)
            && !contains(lowercase(utf8_lossy(out.stderr@)), "logged out"@) ==> (s matches TailscaleState::Healthy {
            url,
        } && url@.len() == 0)),
        probe is None ==> s is NotInstalled,
        probe matches Some(Err(m)) ==> s matches TailscaleState::Error { message } && message == m,
{
}

/// A serve URL read from CLI output is an `https://` URL on a `.ts.net`
/// host: it begins with `https://`, contains `.ts.net`, holds no whitespace
/// and does not end in `/`.
pub open spec fn is_serve_url(u: Seq<char>) -> bool {
    &&& has_prefix(u, "https://"@)
    &&& contains(u, ".ts.net"@)
    &&& no_white_space(u)
    &&& u.len() > 0 && u.last() != '/'
}

/// Whatever the CLI printed, the URL read from it is a serve URL.
pub proof fn lemma_serve_url_shape(text: Seq<char>)
    ensures
        serve_url_in(text) matches Some(u) ==> is_serve_url(u),
{
    let ts = whitespace_tokens(text);
    lemma_first_wanted_found(ts, "https://"@, ".ts.net"@);
    lemma_split_ws_words(text, seq![]);
    if let Some(t) = first_wanted(ts, "https://"@, ".ts.net"@) {
        reveal_strlit("https://");
        reveal_strlit(".ts.net");
        let n = choose|n: int| 0 <= n < ts.len() && ts[n] == t;
        assert(no_white_space(t));
        lemma_trim_end_char(t, '/');
        let k = choose|k: int|
            0 <= k <= t.len() && trim_end_char(t, '/') == t.subrange(0, k) && (k > 0 ==> t[k - 1]
                != '/') && forall|j: int| k <= j < t.len() ==> #[trigger] t[j] == '/';
        let j = choose|j: int| occurs_at(t, ".ts.net"@, j);
        assert(t.subrange(j, j + 7)[0] == '.');
        assert(t[j] == '.');
        assert(t.subrange(j, j + 7)[6] == 't');
        assert(t[j + 6] == 't');
        if j < 8 {
            assert(t.subrange(0, 8)[j] == t[j]);
            assert("https://"@[j] != '.');
        }
        assert(j + 7 <= k);
        let u = t.subrange(0, k);
        assert(u.subrange(0, 8) =~= t.subrange(0, 8));
        assert(u.subrange(j, j + 7) =~= t.subrange(j, j + 7));
        assert(occurs_at(u, ".ts.net"@, j));
        assert forall|i: int| 0 <= i < u.len() implies !is_white_space(#[trigger] u[i]) by {
            assert(u[i] == t[i]);
        }
    }
}

/// A step of bringing up `tailscale serve`: the outcome that the caller hands
/// back after carrying out the previous [`ServeAction`].
pub enum ServeStep {
    /// The start, with whether the CLI was found on disk.
    Begin { cli_found: bool },
    /// The node state from [`status`], after [`ServeAction::CheckStatus`].
    StatusKnown { state: TailscaleState },
    /// The outcome of the run asked for by [`ServeAction::RunServe`].
    ServeRan { result: Result<CommandOutput, String> },
    /// The outcome of the run asked for by [`ServeAction::RunServeStatus`].
    ServeStatusRan { result: Result<CommandOutput, String> },
}

/// What to do next while bringing up `tailscale serve`.
pub enum ServeAction {
    /// Find the node state with [`status`] and hand it back as
    /// [`ServeStep::StatusKnown`].
    CheckStatus,
    /// Run the CLI with `args` and hand back [`ServeStep::ServeRan`].
    RunServe { args: Vec<String> },
    /// Run the CLI with `args` and hand back [`ServeStep::ServeStatusRan`].
    RunServeStatus { args: Vec<String> },
    /// Done: this is the resulting state.
    Finish { state: TailscaleState },
}

/// Standard output, a newline, then standard error, as text.
pub open spec fn combined_output(out: CommandOutput) -> Seq<char> {
    utf8_lossy(out.stdout@) + seq!['\n'] + utf8_lossy(out.stderr@)
}

/// The message when serve came up but no URL could be read from it.
pub open spec fn no_url_message() -> Seq<char> {
    "serve started but no https URL was found"@
}

/// What [`start_serve`] does at `step`, for the proxy listening on
/// `proxy_port`.
pub open spec fn serve_step_spec(step: ServeStep, proxy_port: u16, a: ServeAction) -> bool {
    match step {
        ServeStep::Begin { cli_found } => if cli_found {
            a is CheckStatus
        } else {
            a == ServeAction::Finish { state: TailscaleState::NotInstalled }
        },
        ServeStep::StatusKnown { state } => if state is LoggedOut {
            a == ServeAction::Finish { state: TailscaleState::LoggedOut }
        } else {
            a matches ServeAction::RunServe { args } && views(args@) == seq![
                "serve"@,
                "--bg"@,
                decimal(proxy_port as nat),
            ]
        },
        ServeStep::ServeRan { result } => match result {
            Err(m) => a == ServeAction::Finish { state: TailscaleState::Error { message: m } },
            Ok(out) => {
                let text = combined_output(out);
                if contains(lowercase(text), "serve is not enabled"@) {
                    a matches ServeAction::Finish {
                        state: TailscaleState::ServeNotEnabled { enable_url },
                    } && opt_view(enable_url) == enable_url_in(text)
                } else if serve_url_in(text) is Some {
                    a matches ServeAction::Finish { state: TailscaleState::Healthy { url } }
                        && Some(url@) == serve_url_in(text)
                } else {
                    a matches ServeAction::RunServeStatus { args } && views(args@) == seq![
                        "serve"@,
                        "status"@,
                    ]
                }
            },
        },
        ServeStep::ServeStatusRan { result } => match result {
            Ok(out) if serve_url_in(utf8_lossy(out.stdout@)) is Some => {
                a matches ServeAction::Finish { state: TailscaleState::Healthy { url } } && Some(
                    url@,
                ) == serve_url_in(utf8_lossy(out.stdout@))
            },
            _ => a matches ServeAction::Finish { state: TailscaleState::Error { message } }
                && message@ == no_url_message(),
        },
    }
}

/// Brings up `tailscale serve` for the loopback proxy, one step at a time:
/// given the outcome of the previous action, says what to do next, until it
/// finishes with the resulting state.
pub fn start_serve(step: ServeStep, proxy_port: u16) -> (a: ServeAction)
    ensures
        serve_step_spec(step, proxy_port, a),
{
    match step {
        ServeStep::Begin { cli_found } => {
            if cli_found {
                ServeAction::CheckStatus
            } else {
                ServeAction::Finish { state: TailscaleState::NotInstalled }
            }
        },
        ServeStep::StatusKnown { state } => {
            if let TailscaleState::LoggedOut = state {
                ServeAction::Finish { state: TailscaleState::LoggedOut }
            } else {
                let mut args: Vec<String> = Vec::new();
                args.push(String::from_str("serve"));
                args.push(String::from_str("--bg"));
                args.push(decimal_string(proxy_port));
                assert(views(args@) =~= seq!["serve"@, "--bg"@, decimal(proxy_port as nat)]);
                ServeAction::RunServe { args }
            }
        },
        ServeStep::ServeRan { result } => {
            match result {
                Err(m) => ServeAction::Finish { state: TailscaleState::Error { message: m } },
                Ok(out) => {
                    let mut text = from_utf8_lossy(out.stdout.as_slice());
                    text.append("\n");
                    let err = from_utf8_lossy(out.stderr.as_slice());
                    text.append(err.as_str());
                    proof {
                        reveal_strlit("\n");
                    }
                    assert(text@ =~= combined_output(out));
                    if mentions(&text, "serve is not enabled") {
                        let enable_url = extract_enable_url(text.as_str());
                        ServeAction::Finish { state: TailscaleState::ServeNotEnabled { enable_url } }
                    } else {
                        match extract_url(text.as_str()) {
                            Some(url) => ServeAction::Finish {
                                state: TailscaleState::Healthy { url },
                            },
                            None => {
                                let mut args: Vec<String> = Vec::new();
                                args.push(String::from_str("serve"));
                                args.push(String::from_str("status"));
                                assert(views(args@) =~= seq!["serve"@, "status"@]);
                                ServeAction::RunServeStatus { args }
                            },
                        }
                    }
                },
            }
        },
        ServeStep::ServeStatusRan { result } => {
            let found = match result {
                Ok(out) => {
                    let text = from_utf8_lossy(out.stdout.as_slice());
                    extract_url(text.as_str())
                },
                Err(_) => None,
            };
            match found {
                Some(url) => ServeAction::Finish { state: TailscaleState::Healthy { url } },
                None => ServeAction::Finish {
                    state: TailscaleState::Error {
                        message: String::from_str("serve started but no https URL was found"),
                    },
                },
            }
        },
    }
}

/// A fresh tailnet is recognised whichever stream the CLI used: when the
/// serve run's output (standard output, a newline, standard error),
/// lower-cased, says `serve is not enabled`, bringing serve up stops there
/// with `ServeNotEnabled`, carrying the first `https://login.tailscale.com/`
/// word of that output.
pub proof fn lemma_serve_not_enabled_detected(step: ServeStep, proxy_port: u16, a: ServeAction)
    requires
        serve_step_spec(step, proxy_port, a),
    ensures
        step matches ServeStep::ServeRan { result: Ok(out) } ==> ({
            let text = utf8_lossy(out.stdout@) + seq!['\n'] + utf8_lossy(out.stderr@);
            contains(lowercase(text), "serve is not enabled"@) ==> (a matches ServeAction::Finish {
                state: TailscaleState::ServeNotEnabled { enable_url },
            } && opt_view(enable_url) == first_wanted(
                whitespace_tokens(text),
                "https://login.tailscale.com/"@,
                seq![],
            ))
        }),
{
}

/// Logged out is reported before serve is touched, and only then: a
/// logged-out status finishes `LoggedOut`, any other status goes on to run
/// `serve --bg` on the proxy's port, and no later step reports `LoggedOut`.
pub proof fn lemma_logged_out_before_serve(step: ServeStep, proxy_port: u16, a: ServeAction)
    requires
        serve_step_spec(step, proxy_port, a),
    ensures
        step matches ServeStep::StatusKnown { state } ==> (if state is LoggedOut {
            a matches ServeAction::Finish { state: TailscaleState::LoggedOut }
        } else {
            a matches ServeAction::RunServe { args } && args@.len() == 3 && args@[0]@ == "serve"@
                && args@[1]@ == "--bg"@ && args@[2]@ == decimal(proxy_port as nat)
        }),
        a matches ServeAction::Finish { state: TailscaleState::LoggedOut } ==> step matches ServeStep::StatusKnown {
            state: TailscaleState::LoggedOut,
        },
{
    if let ServeStep::StatusKnown { state } = step {
        if !(state is LoggedOut) {
            if let ServeAction::RunServe { args } = a {
                assert(views(args@).len() == 3);
                assert(args@.len() == 3);
                assert(views(args@)[0] == args@[0]@);
                assert(views(args@)[1] == args@[1]@);
                assert(views(args@)[2] == args@[2]@);
            }
        }
    }
}

/// When bringing up serve ends healthy, its URL is a serve URL.
pub proof fn lemma_healthy_serve_url(step: ServeStep, proxy_port: u16, a: ServeAction)
    requires
        serve_step_spec(step, proxy_port, a),
        a matches ServeAction::Finish { state: TailscaleState::Healthy { .. } },
    ensures
        a matches ServeAction::Finish { state: TailscaleState::Healthy { url } } && is_serve_url(
            url@,
        ),
{
    match step {
        ServeStep::ServeRan { result: Ok(out) } => {
            lemma_serve_url_shape(combined_output(out));
        },
        ServeStep::ServeStatusRan { result: Ok(out) } => {
            lemma_serve_url_shape(utf8_lossy(out.stdout@));
        },
        _ => {},
    }
}

} // verus!
