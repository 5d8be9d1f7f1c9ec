//! "Share with my phone": the result shown after bringing sharing up, with
//! the pairing link and its QR once the HTTPS endpoint is healthy.

use vstd::prelude::*;

use crate::pairing::{
    decoded_field, display_name, lemma_pair_payload_round_trip, pair_payload, pair_url, qr_svg,
    qr_svg_image, split_amp,
};
use crate::tailscale::TailscaleState;
use crate::text::opt_view;

verus! {

/// What the window shows after "Share with my phone".
pub struct ShareResult {
    /// The Tailscale node state.
    pub tailscale: TailscaleState,
    /// The pairing link; present when ready to pair.
    pub pair_url: Option<String>,
    /// The pairing link as an SVG QR code; present when ready to pair and
    /// the link fits in a QR code.
    pub qr_svg: Option<String>,
    /// The first model Ollama has, if any.
    pub model: Option<String>,
    /// Whether Ollama answered on its local port.
    pub ollama_up: bool,
}

/// The display name used in the pairing link for a host name.
pub open spec fn name_for(host: Option<Seq<char>>) -> Seq<char> {
    match host {
        Some(h) => h,
        None => "my computer"@,
    }
}

/// What the pairing link of a healthy share reads back as: split at `&`,
/// each field at its first `=` and percent-decoded, the name field is the
/// host name when one is known (`my computer` only when it is not), and the
/// url, token and models fields are the healthy URL, the key and the model.
pub open spec fn link_reads_back(
    link: Seq<char>,
    url: Seq<char>,
    token: Seq<char>,
    host: Option<Seq<char>>,
    model: Option<Seq<char>>,
) -> bool {
    let parts = split_amp(link);
    &&& parts.len() == if model is Some {
        5int
    } else {
        4int
    }
    &&& parts[0] == "myllm://pair?v=1"@
    &&& decoded_field(parts[1]) == ("name"@, if host is Some {
        host->Some_0
    } else {
        "my computer"@
    })
    &&& decoded_field(parts[2]) == ("url"@, url)
    &&& decoded_field(parts[3]) == ("token"@, token)
    &&& model matches Some(m) ==> decoded_field(parts[4]) == ("models"@, m)
}

/// A healthy share's link names this machine by its host name, and carries
/// the healthy URL, the current key and the model, all reading back exactly.
pub proof fn lemma_share_link_reads_back(
    tailscale: TailscaleState,
    token: Seq<char>,
    host: Option<Seq<char>>,
    model: Option<Seq<char>>,
    link: Option<Seq<char>>,
)
    requires
        tailscale matches TailscaleState::Healthy { url } ==> link == Some(
            pair_payload(name_for(host), url@, token, model),
        ),
    ensures
        tailscale matches TailscaleState::Healthy { url } ==> link matches Some(p)
            && link_reads_back(p, url@, token, host, model),
{
    if let TailscaleState::Healthy { url } = tailscale {
        lemma_pair_payload_round_trip(name_for(host), url@, token, model);
    }
}

/// The share result: the pairing link (for this machine's name, the healthy
/// HTTPS URL, the current access key and the first model) and its QR are
/// there exactly when Tailscale is healthy; the rest is reported as given.
pub fn start_sharing(
    tailscale: TailscaleState,
    token: &str,
    host: Option<String>,
    model: Option<String>,
    ollama_up: bool,
) -> (r: ShareResult)
    ensures
        r.tailscale == tailscale,
        opt_view(r.model) == opt_view(model),
        r.ollama_up == ollama_up,
        match tailscale {
            TailscaleState::Healthy { url } => {
                let link = pair_payload(name_for(opt_view(host)), url@, token@, opt_view(model));
                &&& r.pair_url matches Some(p) && p@ == link
                &&& match qr_svg_image(link) {
                    Ok(image) => r.qr_svg matches Some(q) && q@ == image,
                    Err(_) => r.qr_svg is None,
                }
            },
            _ => r.pair_url is None && r.qr_svg is None,
        },
        tailscale matches TailscaleState::Healthy { url } ==> r.pair_url matches Some(p)
            && link_reads_back(p@, url@, token@, opt_view(host), opt_view(model)),
{
    let name = display_name(host);
    let (pair, qr) = match &tailscale {
        TailscaleState::Healthy { url } => {
            let m = match &model {
                Some(m) => Some(m.as_str()),
                None => None,
            };
            let pair = pair_url(name.as_str(), url.as_str(), token, m);
            let qr = match qr_svg(pair.as_str()) {
                Ok(image) => Some(image),
                Err(_) => None,
            };
            (Some(pair), qr)
        },
        _ => (None, None),
    };
    proof {
        lemma_share_link_reads_back(
            tailscale,
            token@,
            opt_view(host),
            opt_view(model),
            opt_view(pair),
        );
    }
    ShareResult { tailscale, pair_url: pair, qr_svg: qr, model, ollama_up }
}

} // verus!
