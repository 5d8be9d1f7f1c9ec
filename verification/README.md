# myllm_connect

The logic of MyLLM Connect, the desktop companion that pairs the MyLLM iOS
app with the user's own Ollama server over Tailscale HTTPS, written in Verus.

- `src/` — the verified library:
  - `proxy` — the bearer auth proxy's decisions: who may pass, what goes to
    Ollama, what the client gets back; readiness and first-model reading.
  - `pairing` — access keys and the `myllm://pair` link with its QR image.
  - `tailscale` — CLI discovery, status reading, and the `tailscale serve`
    steps as a state machine.
  - `ollama` — install discovery and the actionable Ollama state.
  - `share` — the "Share with my phone" result.
  - `encoding`, `text` — base64url, percent-encoding, decimal, and the
    character-level helpers the parsers use.
- `app/` — the Tauri shell: commands, tray, the proxy's server task, files,
  processes and HTTP.
- `tests/` — tests of the library on concrete values.
