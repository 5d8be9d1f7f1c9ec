//! Access keys (minting, reuse of a persisted key) and the `myllm://pair`
//! payload with its QR rendering.
//!
//! The key is 32 random bytes in base64url, a password: it is the only
//! credential the proxy accepts. The payload follows the pairing protocol:
//! `myllm://pair?v=1&name=..&url=..&token=..[&models=..]`, each value
//! percent-encoded.

use qrcode::render::svg;
use qrcode::{EcLevel, QrCode};
use rand::RngCore;
use vstd::prelude::*;

use crate::encoding::{
    base64url, base64url_encode, is_b64url_char, lemma_url_encode_round_trip, percent_decode,
    url_encode, url_encode_str,
};
use crate::platform::Platform;
use crate::text::{chars_of, string_of, trim_chars, trim_ws};

verus! {

/// 32 bytes from the thread-local random generator.
/// `rand::thread_rng().fill_bytes`: nothing is claimed of the bytes, which
/// come from a generator seeded by the operating system; it panics only when
/// the operating system has no randomness to give.
#[verifier::external_body]
fn random_key_bytes() -> (b: [u8; 32]) {
    let mut bytes = [0u8; 32];
    rand::thread_rng().fill_bytes(&mut bytes);
    bytes
}

/// A path separator on `platform`: `/`, and on Windows also `\`.
pub open spec fn is_path_separator(platform: Platform, c: char) -> bool {
    c == '/' || (platform == Platform::Windows && c == '\\')
}

/// A Windows path that is a bare drive such as `C:`.
pub open spec fn is_bare_drive(base: Seq<char>) -> bool {
    base.len() == 2 && base[1] == ':' && ('A' <= base[0] <= 'Z' || 'a' <= base[0] <= 'z')
}

/// `base` joined with the relative name `part` (as `Path::join`): the
/// platform's separator goes between them unless `base` is empty, already
/// ends in a separator, or is a bare Windows drive.
pub open spec fn path_join(platform: Platform, base: Seq<char>, part: Seq<char>) -> Seq<char> {
    if base.len() == 0 || is_path_separator(platform, base.last()) || (platform
        == Platform::Windows && is_bare_drive(base)) {
        base + part
    } else if platform == Platform::Windows {
        base + seq!['\\'] + part
    } else {
        base + seq!['/'] + part
    }
}

/// Where the key persists between runs: `MyLLM Connect/token` under the
/// per-user data directory, or under `.` when that is unknown.
pub open spec fn key_file_path(platform: Platform, data_dir: Option<Seq<char>>) -> Seq<char> {
    let base = match data_dir {
        Some(d) => d,
        None => "."@,
    };
    path_join(platform, path_join(platform, base, "MyLLM Connect"@), "token"@)
}

fn join_path(platform: Platform, base: String, part: &str) -> (p: String)
    ensures
        p@ == path_join(platform, base@, part@),
{
    let chars = chars_of(base.as_str());
    let n = chars.len();
    let windows = match platform {
        Platform::Windows => true,
        _ => false,
    };
    let bare_drive = n == 2 && chars[1] == ':' && (('A' <= chars[0] && chars[0] <= 'Z') || ('a'
        <= chars[0] && chars[0] <= 'z'));
    let mut p = base;
    if n == 0 || chars[n - 1] == '/' || (windows && chars[n - 1] == '\\') || (windows
        && bare_drive) {
    } else if windows {
        p.append("\\");
        proof {
            reveal_strlit("\\");
        }
    } else {
        p.append("/");
        proof {
            reveal_strlit("/");
        }
    }
    p.append(part);
    p
}

/// The path of the key file, given the per-user data directory (`None` when
/// it is unknown).
pub fn token_path(platform: Platform, data_dir: Option<String>) -> (p: String)
    ensures
        p@ == key_file_path(platform, crate::text::opt_view(data_dir)),
{
    let base = match data_dir {
        Some(d) => d,
        None => String::from_str("."),
    };
    let dir = join_path(platform, base, "MyLLM Connect");
    join_path(platform, dir, "token")
}

/// A key as [`mint_token`] makes them: the base64url encoding (no padding)
/// of some 32 bytes.
pub open spec fn is_minted_key(t: Seq<char>) -> bool {
    exists|b: Seq<u8>| b.len() == 32 && t == #[trigger] base64url(b)
}

/// The access key made from 32 key bytes: their base64url encoding without
/// padding, 43 characters of the base64url alphabet.
pub fn key_from_bytes(bytes: &[u8; 32]) -> (t: String)
    ensures
        t@ == base64url(bytes@),
        is_minted_key(t@),
        t@.len() == 43,
        forall|i: int| 0 <= i < t@.len() ==> is_b64url_char(#[trigger] t@[i]),
{
    let t = base64url_encode(bytes);
    proof {
        crate::encoding::lemma_base64url_len(bytes@);
        crate::encoding::lemma_base64url_alphabet(bytes@);
        assert(bytes@.len() == 32);
    }
    t
}

/// Mints a fresh access key: the key made by [`key_from_bytes`] from 32
/// bytes drawn from the random generator.
pub fn mint_token() -> (t: String)
    ensures
        is_minted_key(t@),
        t@.len() == 43,
        forall|i: int| 0 <= i < t@.len() ==> is_b64url_char(#[trigger] t@[i]),
{
    let bytes = random_key_bytes();
    key_from_bytes(&bytes)
}

/// The key kept from an earlier run: the stored text without surrounding
/// whitespace, when that is not empty.
pub open spec fn persisted_key(stored: Option<Seq<char>>) -> Option<Seq<char>> {
    match stored {
        Some(s) => if trim_ws(s).len() > 0 {
            Some(trim_ws(s))
        } else {
            None
        },
        None => None,
    }
}

/// The key to use at launch, given the text of the key file (`None` when it
/// could not be read): the persisted key when there is one, else a freshly
/// minted key. The flag says whether the key must be written back to the key
/// file (true exactly when it was minted here).
pub fn load_or_mint(stored: Option<String>) -> (r: (String, bool))
    ensures
        match persisted_key(crate::text::opt_view(stored)) {
            Some(k) => r.0@ == k && !r.1,
            None => is_minted_key(r.0@) && r.0@.len() == 43 && r.1,
        },
{
    if let Some(s) = &stored {
        let chars = chars_of(s.as_str());
        let t = trim_chars(&chars);
        if t.len() > 0 {
            return (string_of(&t), false);
        }
    }
    (mint_token(), true)
}

/// The machine's display name for the pairing payload: the host name when
/// it is known, else `my computer`.
pub fn display_name(host: Option<String>) -> (name: String)
    ensures
        name@ == match host {
            Some(h) => h@,
            None => "my computer"@,
        },
{
    match host {
        Some(h) => h,
        None => String::from_str("my computer"),
    }
}

/// The `myllm://pair` deep link for the machine called `name`, serving at
/// `https_url` with access key `token`, optionally naming a model.
pub open spec fn pair_payload(
    name: Seq<char>,
    https_url: Seq<char>,
    token: Seq<char>,
    model: Option<Seq<char>>,
) -> Seq<char> {
    "myllm://pair?v=1&name="@ + url_encode(name) + "&url="@ + url_encode(https_url) + "&token="@
        + url_encode(token) + match model {
        Some(m) => "&models="@ + url_encode(m),
        None => seq![],
    }
}

/// Builds the `myllm://pair?...` deep link per the pairing protocol.
pub fn pair_url(name: &str, https_url: &str, token: &str, model: Option<&str>) -> (url: String)
    ensures
        url@ == pair_payload(
            name@,
            https_url@,
            token@,
            match model {
                Some(m) => Some(m@),
                None => None,
            },
        ),
{
    let mut url = String::from_str("myllm://pair?v=1&name=");
    let n = url_encode_str(name);
    url.append(n.as_str());
    url.append("&url=");
    let u = url_encode_str(https_url);
    url.append(u.as_str());
    url.append("&token=");
    let t = url_encode_str(token);
    url.append(t.as_str());
    if let Some(m) = model {
        url.append("&models=");
        let e = url_encode_str(m);
        url.append(e.as_str());
    }
    url
}

/// A minted key needs no escaping: it stands in the pairing link verbatim.
pub proof fn lemma_minted_key_verbatim(key: Seq<char>)
    requires
        is_minted_key(key),
    ensures
        url_encode(key) == key,
{
    let b = choose|b: Seq<u8>| b.len() == 32 && key == #[trigger] base64url(b);
    crate::encoding::lemma_base64url_alphabet(b);
    assert(crate::encoding::all_unreserved(key)) by {
        assert forall|i: int| 0 <= i < key.len() implies ('0' <= #[trigger] key[i] <= '9' || 'A'
            <= key[i] <= 'Z' || 'a' <= key[i] <= 'z' || key[i] == '-' || key[i] == '.' || key[i]
            == '_' || key[i] == '~') by {
            assert(is_b64url_char(base64url(b)[i]));
        }
    }
    crate::encoding::lemma_url_encode_unreserved(key);
}

/// A minted key that was written to the key file is read back unchanged at
/// the next launch: it has no surrounding whitespace and is not empty.
pub proof fn lemma_minted_key_survives_restart(key: Seq<char>)
    requires
        is_minted_key(key),
    ensures
        persisted_key(Some(key)) == Some(key),
{
    let b = choose|b: Seq<u8>| b.len() == 32 && key == #[trigger] base64url(b);
    crate::encoding::lemma_base64url_len(b);
    crate::encoding::lemma_base64url_alphabet(b);
    assert(is_b64url_char(key[0]));
    assert(is_b64url_char(key[key.len() - 1]));
    assert(crate::text::trim_start_ws(key) == key);
    assert(key.last() == key[key.len() - 1]);
    assert(crate::text::trim_end_ws(key) == key);
}

/// The `&`-separated parts of `s`, in order (as `str::split('&')`).
pub open spec fn split_amp(s: Seq<char>) -> Seq<Seq<char>>
    decreases s.len(),
{
    if s.len() == 0 {
        seq![seq![]]
    } else {
        let parts = split_amp(s.drop_last());
        if s.last() == '&' {
            parts.push(seq![])
        } else {
            parts.update(parts.len() - 1, parts.last().push(s.last()))
        }
    }
}

proof fn lemma_split_amp_nonempty(s: Seq<char>)
    ensures
        split_amp(s).len() >= 1,
    decreases s.len(),
{
    if s.len() > 0 {
        lemma_split_amp_nonempty(s.drop_last());
    }
}

proof fn lemma_split_amp_single(s: Seq<char>)
    requires
        forall|i: int| 0 <= i < s.len() ==> #[trigger] s[i] != '&',
    ensures
        split_amp(s) == seq![s],
    decreases s.len(),
{
    if s.len() > 0 {
        assert forall|i: int| 0 <= i < s.drop_last().len() implies #[trigger] s.drop_last()[i]
            != '&' by {
            assert(s.drop_last()[i] == s[i]);
        }
        lemma_split_amp_single(s.drop_last());
        assert(s[s.len() - 1] != '&');
        assert(s.drop_last().push(s.last()) =~= s);
        let parts = split_amp(s.drop_last());
        assert(parts.len() == 1 && parts.last() == s.drop_last());
        let x = s.drop_last().push(s.last());
        assert(x == s);
        assert(split_amp(s) == parts.update(0, x));
        assert(parts.update(0, x)[0] == x);
        assert(parts.update(0, x) =~= seq![s]);
    } else {
        assert(s =~= Seq::<char>::empty());
        assert(split_amp(s) =~= seq![s]);
    }
}

proof fn lemma_split_amp_join(a: Seq<char>, b: Seq<char>)
    ensures
        split_amp(a + seq!['&'] + b) == split_amp(a) + split_amp(b),
    decreases b.len(),
{
    let ab = a + seq!['&'] + b;
    if b.len() == 0 {
        assert(ab.drop_last() =~= a);
        assert(split_amp(ab) =~= split_amp(a) + split_amp(b));
    } else {
        lemma_split_amp_join(a, b.drop_last());
        lemma_split_amp_nonempty(b.drop_last());
        lemma_split_amp_nonempty(a);
        assert(ab.drop_last() =~= a + seq!['&'] + b.drop_last());
        assert(ab.last() == b.last());
        assert(split_amp(ab) =~= split_amp(a) + split_amp(b));
    }
}

proof fn lemma_no_amp_in_value(label: Seq<char>, s: Seq<char>)
    requires
        forall|i: int| 0 <= i < label.len() ==> #[trigger] label[i] != '&',
    ensures
        split_amp(label + url_encode(s)) == seq![label + url_encode(s)],
{
    crate::encoding::lemma_percent_encode_chars(vstd::utf8::encode_utf8(s));
    let v = label + url_encode(s);
    assert forall|i: int| 0 <= i < v.len() implies #[trigger] v[i] != '&' by {
        if i >= label.len() {
            assert(v[i] == url_encode(s)[i - label.len()]);
            assert(crate::encoding::is_query_value_char(url_encode(s)[i - label.len()]));
        }
    }
    lemma_split_amp_single(v);
}

/// The pairing link reads back into exactly its fields: split at `&`, it is
/// `myllm://pair?v=1`, then `name=`, `url=` and `token=` with their
/// percent-encoded values, then `models=` when a model is named. No value
/// can break out of its field, whatever it holds.
pub proof fn lemma_pair_payload_fields(
    name: Seq<char>,
    https_url: Seq<char>,
    token: Seq<char>,
    model: Option<Seq<char>>,
)
    ensures
        split_amp(pair_payload(name, https_url, token, model)) == seq![
            "myllm://pair?v=1"@,
            "name="@ + url_encode(name),
            "url="@ + url_encode(https_url),
            "token="@ + url_encode(token),
        ] + match model {
            Some(m) => seq!["models="@ + url_encode(m)],
            None => seq![],
        },
{
    reveal_strlit("myllm://pair?v=1&name=");
    reveal_strlit("myllm://pair?v=1");
    reveal_strlit("&url=");
    reveal_strlit("url=");
    reveal_strlit("&token=");
    reveal_strlit("token=");
    reveal_strlit("&models=");
    reveal_strlit("models=");
    reveal_strlit("name=");
    let head = "myllm://pair?v=1"@;
    let pn = "name="@ + url_encode(name);
    let pu = "url="@ + url_encode(https_url);
    let pt = "token="@ + url_encode(token);
    let tail = match model {
        Some(m) => seq!['&'] + ("models="@ + url_encode(m)),
        None => seq![],
    };
    assert(pair_payload(name, https_url, token, model) =~= head + seq!['&'] + (pn + seq!['&'] + (
    pu + seq!['&'] + (pt + tail))));
    lemma_split_amp_single(head);
    lemma_no_amp_in_value("name="@, name);
    lemma_no_amp_in_value("url="@, https_url);
    lemma_no_amp_in_value("token="@, token);
    match model {
        Some(m) => {
            lemma_no_amp_in_value("models="@, m);
            lemma_split_amp_join(pt, "models="@ + url_encode(m));
            assert(pt + tail =~= pt + seq!['&'] + ("models="@ + url_encode(m)));
        },
        None => {
            assert(pt + tail =~= pt);
        },
    }
    lemma_split_amp_join(pu, pt + tail);
    lemma_split_amp_join(pn, pu + seq!['&'] + (pt + tail));
    lemma_split_amp_join(head, pn + seq!['&'] + (pu + seq!['&'] + (pt + tail)));
    assert(split_amp(pair_payload(name, https_url, token, model)) =~= seq![head, pn, pu, pt]
        + match model {
        Some(m) => seq!["models="@ + url_encode(m)],
        None => seq![],
    });
}

/// A query field split at its first `=`: the key before it and the value
/// after it (the whole field and an empty value when there is no `=`).
pub open spec fn split_eq(part: Seq<char>) -> (Seq<char>, Seq<char>)
    decreases part.len(),
{
    if part.len() == 0 {
        (seq![], seq![])
    } else if part[0] == '=' {
        (seq![], part.drop_first())
    } else {
        let (k, v) = split_eq(part.drop_first());
        (seq![part[0]] + k, v)
    }
}

/// A query field as a reader gets it: its key, and its value
/// percent-decoded and read as UTF-8.
pub open spec fn decoded_field(part: Seq<char>) -> (Seq<char>, Seq<char>) {
    (split_eq(part).0, vstd::utf8::decode_utf8(percent_decode(split_eq(part).1)))
}

proof fn lemma_split_eq(key: Seq<char>, value: Seq<char>)
    requires
        forall|i: int| 0 <= i < key.len() ==> #[trigger] key[i] != '=',
    ensures
        split_eq(key + seq!['='] + value) == (key, value),
    decreases key.len(),
{
    let part = key + seq!['='] + value;
    if key.len() == 0 {
        assert(part[0] == '=');
        assert(part.drop_first() =~= value);
        assert(key =~= Seq::<char>::empty());
    } else {
        assert forall|i: int| 0 <= i < key.drop_first().len() implies #[trigger] key.drop_first()[i]
            != '=' by {
            assert(key.drop_first()[i] == key[i + 1]);
        }
        lemma_split_eq(key.drop_first(), value);
        assert(part[0] == key[0]);
        assert(part.drop_first() =~= key.drop_first() + seq!['='] + value);
        assert(seq![key[0]] + key.drop_first() =~= key);
    }
}

proof fn lemma_decoded_field(key: Seq<char>, x: Seq<char>)
    requires
        forall|i: int| 0 <= i < key.len() ==> #[trigger] key[i] != '=',
    ensures
        decoded_field(key + "="@ + url_encode(x)) == (key, x),
{
    reveal_strlit("=");
    assert("="@ =~= seq!['=']);
    lemma_split_eq(key, url_encode(x));
    lemma_url_encode_round_trip(x);
}

/// Every value of the pairing link reads back exactly: split at `&`, then
/// each field at its first `=`, and its value percent-decoded as UTF-8, the
/// link gives `v=1`, then `name`, `url` and `token` with the values they
/// were built from, then `models` exactly when a model is named. This holds
/// whatever the values hold (`&`, `=`, `%`, spaces, any Unicode).
pub proof fn lemma_pair_payload_round_trip(
    name: Seq<char>,
    https_url: Seq<char>,
    token: Seq<char>,
    model: Option<Seq<char>>,
)
    ensures
        ({
            let parts = split_amp(pair_payload(name, https_url, token, model));
            &&& parts.len() == if model is Some {
                5int
            } else {
                4int
            }
            &&& parts[0] == "myllm://pair?v=1"@
            &&& decoded_field(parts[1]) == ("name"@, name)
            &&& decoded_field(parts[2]) == ("url"@, https_url)
            &&& decoded_field(parts[3]) == ("token"@, token)
            &&& model matches Some(m) ==> decoded_field(parts[4]) == ("models"@, m)
        }),
{
    lemma_pair_payload_fields(name, https_url, token, model);
    reveal_strlit("name");
    reveal_strlit("url");
    reveal_strlit("token");
    reveal_strlit("models");
    reveal_strlit("name=");
    reveal_strlit("url=");
    reveal_strlit("token=");
    reveal_strlit("models=");
    reveal_strlit("=");
    assert("name="@ =~= "name"@ + "="@);
    assert("url="@ =~= "url"@ + "="@);
    assert("token="@ =~= "token"@ + "="@);
    assert("models="@ =~= "models"@ + "="@);
    lemma_decoded_field("name"@, name);
    lemma_decoded_field("url"@, https_url);
    lemma_decoded_field("token"@, token);
    if let Some(m) = model {
        lemma_decoded_field("models"@, m);
    }
}

/// What the QR rendering gives for `payload`: the SVG image, or the error
/// message when no QR code can hold the payload.
pub uninterp spec fn qr_svg_image(payload: Seq<char>) -> Result<Seq<char>, Seq<char>>;

/// The start of the XML declaration every rendered image begins with.
pub open spec fn svg_head() -> Seq<char> {
    "<?xml "@
}

/// `QrCode::with_error_correction_level(payload, EcLevel::M)` rendered with
/// `render::<svg::Color>()` at 240x240 minimum, with quiet zone, dark
/// `#0a0a0a` on light `#ffffff`, and the error's `to_string` on failure.
/// Claimed: the outcome is a function of `payload` alone (the name
/// `qr_svg_image`); an image starts with an XML declaration, holds an
/// `<svg` element, ends with `</svg>` and uses both colours. Which payloads
/// fail to encode (those too long for any QR version) is not stated.
#[verifier::external_body]
fn render_qr_svg(payload: &str) -> (r: Result<String, String>)
    ensures
        match r {
            Ok(image) => {
                &&& qr_svg_image(payload@) == Ok::<Seq<char>, Seq<char>>(image@)
                &&& crate::text::has_prefix(image@, svg_head())
                &&& crate::text::contains(image@, "<svg "@)
                &&& image@.len() >= 6 && image@.subrange(image@.len() - 6, image@.len() as int)
                    == "</svg>"@
                &&& crate::text::contains(image@, "fill=\"#0a0a0a\""@)
                &&& crate::text::contains(image@, "fill=\"#ffffff\""@)
            },
            Err(e) => qr_svg_image(payload@) == Err::<Seq<char>, Seq<char>>(e@),
        },
{
    match QrCode::with_error_correction_level(payload, EcLevel::M) {
        Ok(code) => Ok(
            code.render::<svg::Color>().min_dimensions(240, 240).quiet_zone(true).dark_color(
                svg::Color("#0a0a0a"),
            ).light_color(svg::Color("#ffffff")).build(),
        ),
        Err(e) => Err(e.to_string()),
    }
}

/// Renders a pairing payload as an inline SVG string (for the webview), or
/// the error message when it cannot be encoded as a QR code.
pub fn qr_svg(payload: &str) -> (r: Result<String, String>)
    ensures
        match r {
            Ok(image) => qr_svg_image(payload@) == Ok::<Seq<char>, Seq<char>>(image@)
                && crate::text::has_prefix(image@, svg_head()),
            Err(e) => qr_svg_image(payload@) == Err::<Seq<char>, Seq<char>>(e@),
        },
{
    render_qr_svg(payload)
}

} // verus!
