use myllm_connect::share::start_sharing;
use myllm_connect::tailscale::TailscaleState;

#[test]
fn healthy_share_has_pair_link_and_qr() {
    let ts = TailscaleState::Healthy { url: "https://pc.t.ts.net".to_string() };
    let r = start_sharing(ts.clone(), "tok", Some("pc".to_string()), Some("m1".to_string()), true);
    assert_eq!(r.tailscale, ts);
    assert_eq!(
        r.pair_url.as_deref(),
        Some("myllm://pair?v=1&name=pc&url=https%3A%2F%2Fpc.t.ts.net&token=tok&models=m1")
    );
    assert!(r.qr_svg.unwrap().contains("<svg"));
    assert_eq!(r.model.as_deref(), Some("m1"));
    assert!(r.ollama_up);
}

#[test]
fn unhealthy_share_has_no_link() {
    let ts = TailscaleState::ServeNotEnabled { enable_url: None };
    let r = start_sharing(ts.clone(), "tok", None, None, false);
    assert_eq!(r.tailscale, ts);
    assert!(r.pair_url.is_none());
    assert!(r.qr_svg.is_none());
    assert!(r.model.is_none());
    assert!(!r.ollama_up);
}

#[test]
fn share_uses_fallback_name() {
    let ts = TailscaleState::Healthy { url: "https://a.ts.net".to_string() };
    let r = start_sharing(ts, "k", None, None, true);
    assert_eq!(r.pair_url.as_deref(), Some("myllm://pair?v=1&name=my%20computer&url=https%3A%2F%2Fa.ts.net&token=k"));
}
