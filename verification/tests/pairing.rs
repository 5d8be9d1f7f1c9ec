use myllm_connect::pairing::{display_name, key_from_bytes, load_or_mint, mint_token, pair_url, qr_svg, token_path};
use myllm_connect::platform::Platform;

fn is_b64url(c: char) -> bool {
    c.is_ascii_alphanumeric() || c == '-' || c == '_'
}

#[test]
fn minted_token_is_43_base64url_chars() {
    let t = mint_token();
    assert_eq!(t.len(), 43);
    assert!(t.chars().all(is_b64url));
}

#[test]
fn minted_tokens_differ() {
    assert_ne!(mint_token(), mint_token());
}

#[test]
fn load_reuses_trimmed_persisted_token() {
    let (t, persist) = load_or_mint(Some("  abcDEF-_123\n".to_string()));
    assert_eq!(t, "abcDEF-_123");
    assert!(!persist);
}

#[test]
fn load_mints_when_missing_or_blank() {
    let (t, persist) = load_or_mint(None);
    assert!(persist);
    assert_eq!(t.len(), 43);
    let (t2, persist2) = load_or_mint(Some(" \n\t".to_string()));
    assert!(persist2);
    assert_eq!(t2.len(), 43);
    assert!(t2.chars().all(is_b64url));
}

#[test]
fn display_name_falls_back() {
    assert_eq!(display_name(Some("Alex's Mac mini".to_string())), "Alex's Mac mini");
    assert_eq!(display_name(None), "my computer");
}

#[test]
fn pair_url_encodes_fields() {
    let url = pair_url("Alex's Mac mini", "https://mac-mini.tailnet-1234.ts.net", "ab_c-D", None);
    assert_eq!(
        url,
        "myllm://pair?v=1&name=Alex%27s%20Mac%20mini&url=https%3A%2F%2Fmac-mini.tailnet-1234.ts.net&token=ab_c-D"
    );
}

#[test]
fn pair_url_with_model() {
    let url = pair_url("pc", "https://pc.t.ts.net", "tok", Some("qwen2.5:14b"));
    assert_eq!(url, "myllm://pair?v=1&name=pc&url=https%3A%2F%2Fpc.t.ts.net&token=tok&models=qwen2.5%3A14b");
}

#[test]
fn pair_url_encodes_utf8_and_separators() {
    let url = pair_url("é&=", "u", "t", Some("a b"));
    assert_eq!(url, "myllm://pair?v=1&name=%C3%A9%26%3D&url=u&token=t&models=a%20b");
    let fields: Vec<&str> = url.split('&').collect();
    assert_eq!(fields.len(), 5);
}

#[test]
fn minted_token_stays_verbatim_in_link() {
    let t = mint_token();
    let url = pair_url("pc", "https://pc.t.ts.net", &t, None);
    assert!(url.ends_with(&format!("&token={}", t)));
}

#[test]
fn qr_svg_renders_svg() {
    let svg = qr_svg("myllm://pair?v=1&name=pc&url=https%3A%2F%2Fpc.t.ts.net&token=tok").unwrap();
    assert!(svg.starts_with("<?xml"));
    assert!(svg.contains("<svg"));
    assert!(svg.contains("fill=\"#0a0a0a\""));
    assert!(svg.ends_with("</svg>"));
}

#[test]
fn qr_svg_too_long_fails() {
    let long = "x".repeat(5000);
    assert_eq!(qr_svg(&long), Err("data too long".to_string()));
}

#[test]
fn minted_key_survives_restart() {
    let t = mint_token();
    let (again, persist) = load_or_mint(Some(t.clone()));
    assert_eq!(again, t);
    assert!(!persist);
}

#[test]
fn token_path_under_data_dir() {
    assert_eq!(token_path(Platform::Other, Some("/home/a/.local/share".into())), "/home/a/.local/share/MyLLM Connect/token");
    assert_eq!(token_path(Platform::MacOs, Some("/Users/a/Library/Application Support/".into())), "/Users/a/Library/Application Support/MyLLM Connect/token");
    assert_eq!(token_path(Platform::Other, None), "./MyLLM Connect/token");
    assert_eq!(token_path(Platform::Windows, Some("C:\\Users\\a\\AppData\\Roaming".into())), "C:\\Users\\a\\AppData\\Roaming\\MyLLM Connect\\token");
    assert_eq!(token_path(Platform::Windows, Some("C:".into())), "C:MyLLM Connect\\token");
}

#[test]
fn token_path_matches_std_join_here() {
    for base in ["/data", "/data/", "rel", "", "."] {
        let expected = std::path::PathBuf::from(base).join("MyLLM Connect").join("token");
        assert_eq!(token_path(Platform::Other, Some(base.to_string())), expected.to_str().unwrap());
    }
}

#[test]
fn link_fields_decode_back() {
    let url = pair_url("a&b=c %d é", "https://x.ts.net/?q=1", "t", Some("m"));
    let fields: Vec<&str> = url.split('&').collect();
    assert_eq!(fields.len(), 5);
    assert_eq!(fields[0], "myllm://pair?v=1");
    let (k, v) = fields[1].split_once('=').unwrap();
    assert_eq!(k, "name");
    assert_eq!(urlencoding::decode(v).unwrap(), "a&b=c %d é");
    let (k, v) = fields[2].split_once('=').unwrap();
    assert_eq!(k, "url");
    assert_eq!(urlencoding::decode(v).unwrap(), "https://x.ts.net/?q=1");
}

#[test]
fn key_from_bytes_is_base64url() {
    let mut b = [0u8; 32];
    for (i, x) in b.iter_mut().enumerate() {
        *x = i as u8;
    }
    assert_eq!(key_from_bytes(&b), "AAECAwQFBgcICQoLDA0ODxAREhMUFRYXGBkaGxwdHh8");
    let mut c = [0u8; 32];
    for (i, x) in c.iter_mut().enumerate() {
        *x = if i % 2 == 0 { 0xfb } else { 0xff };
    }
    assert_eq!(key_from_bytes(&c), "-__7__v_-__7__v_-__7__v_-__7__v_-__7__v_-_8");
    assert_eq!(key_from_bytes(&[0u8; 32]), "A".repeat(43));
}
