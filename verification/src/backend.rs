//! Small decisions of the workspace backend: how favorites are labelled,
//! how a search query matches a note, how an image becomes a data URL, and
//! how editor contents are fingerprinted.
use vstd::prelude::*;
use base64::Engine;
use crate::persistence::{SavedFavorite, SavedSmbConfig, SavedWorkspace};
use crate::text::{chars_of, contains, lowercase, push_all, push_char, push_str, string_of, trim, trim_char};
use crate::workspace::path_extension;

verus! {

/// Where the privacy policy is published.
pub const PRIVACY_POLICY_URL: &'static str = "https://hunglo2020.github.io/Markerup/privacy-policy/";

/// The address of the privacy policy.
pub fn privacy_policy_url() -> (r: &'static str)
    ensures
        r@ == PRIVACY_POLICY_URL@,
{
    PRIVACY_POLICY_URL
}

/// The label of a favorite: a local folder's path, or
/// `smb://server/share[/folder]` with the folder's surrounding `/` removed.
pub open spec fn favorite_text(w: SavedWorkspace) -> Seq<char> {
    match w {
        SavedWorkspace::Local { path, .. } => path@,
        SavedWorkspace::Smb(c) => {
            let folder = trim_char(c.remote_path@, '/');
            let base = seq!['s', 'm', 'b', ':', '/', '/'] + c.server@ + seq!['/'] + c.share@;
            if folder.len() == 0 {
                base
            } else {
                base + seq!['/'] + folder
            }
        },
    }
}

/// The label a favorite is listed under.
pub fn favorite_label(favorite: &SavedFavorite) -> (r: String)
    ensures
        r@ == favorite_text(favorite.workspace),
{
    match &favorite.workspace {
        SavedWorkspace::Local { path, .. } => crate::text::owned(path.as_str()),
        SavedWorkspace::Smb(config) => {
            let remote = chars_of(config.remote_path.as_str());
            let folder = crate::smb::trim_char_in(remote.as_slice(), '/');
            let mut r = string_of(vec!['s', 'm', 'b', ':', '/', '/'].as_slice());
            push_str(&mut r, config.server.as_str());
            push_char(&mut r, '/');
            push_str(&mut r, config.share.as_str());
            if folder.len() > 0 {
                push_char(&mut r, '/');
                push_all(&mut r, folder.as_slice());
            }
            proof {
                assert(r@ =~= favorite_text(favorite.workspace));
            }
            r
        },
    }
}

/// The Keychain account under which the password of an SMB favorite is
/// kept: its server, share, user name and folder, one per line.
pub fn smb_keychain_account(config: &SavedSmbConfig) -> (r: String)
    ensures
        r@ == config.server@ + seq!['\n'] + config.share@ + seq!['\n'] + config.username@
            + seq!['\n'] + config.remote_path@,
{
    let mut r = crate::text::owned(config.server.as_str());
    push_char(&mut r, '\n');
    push_str(&mut r, config.share.as_str());
    push_char(&mut r, '\n');
    push_str(&mut r, config.username.as_str());
    push_char(&mut r, '\n');
    push_str(&mut r, config.remote_path.as_str());
    proof {
        assert(r@ =~= config.server@ + seq!['\n'] + config.share@ + seq!['\n'] + config.username@
            + seq!['\n'] + config.remote_path@);
    }
    r
}

/// The query a search runs: the text trimmed and lower-cased; `None` when
/// nothing is left.
pub open spec fn search_query_of(raw: Seq<char>) -> Option<Seq<char>> {
    let q = lowercase(trim(raw));
    if q.len() == 0 {
        None
    } else {
        Some(q)
    }
}

/// The query a search runs, or `None` when the text is blank.
pub fn search_query(raw: &str) -> (r: Option<String>)
    ensures
        match r {
            Some(q) => search_query_of(raw@) == Some(q@),
            None => search_query_of(raw@) is None,
        },
{
    let v = chars_of(raw);
    let (a, b) = crate::text::trim_bounds(v.as_slice());
    let t = crate::text::string_of_range(v.as_slice(), a, b);
    let q = crate::text::to_lowercase(t.as_str());
    if q.as_str().as_bytes().len() == 0 {
        proof {
            if q@.len() > 0 {
                vstd::utf8::encode_utf8_first_scalar(q@);
            }
        }
        None
    } else {
        proof {
            if q@.len() == 0 {
                assert(vstd::utf8::encode_utf8(q@) =~= Seq::<u8>::empty());
            }
        }
        Some(q)
    }
}

/// A note matches a query when its id, or its text when it could be read,
/// contains the query once both are lower-cased.
pub open spec fn note_matches_query(id: Seq<char>, text: Option<Seq<char>>, query: Seq<char>) -> bool {
    contains(lowercase(id), query) || match text {
        Some(t) => contains(lowercase(t), query),
        None => false,
    }
}

/// Whether the note `id`, whose text is `text` when it could be read,
/// matches the (trimmed, lower-cased) `query`.
pub fn note_matches(id: &str, text: Option<&str>, query: &str) -> (r: bool)
    ensures
        r == note_matches_query(
            id@,
            match text {
                Some(t) => Some(t@),
                None => None,
            },
            query@,
        ),
{
    let q = chars_of(query);
    let lower_id = chars_of(crate::text::to_lowercase(id).as_str());
    if crate::text::find_in(lower_id.as_slice(), q.as_slice(), 0).is_some() {
        return true;
    }
    match text {
        Some(t) => {
            let lower = chars_of(crate::text::to_lowercase(t).as_str());
            crate::text::find_in(lower.as_slice(), q.as_slice(), 0).is_some()
        },
        None => false,
    }
}

/// The MIME type of an image, by the extension of its path in any ASCII case.
pub open spec fn image_mime(path: Seq<char>) -> Seq<char> {
    match path_extension(path) {
        Some(e) => {
            let x = crate::text::ascii_lower(e);
            if x == seq!['p', 'n', 'g'] {
                "image/png"@
            } else if x == seq!['j', 'p', 'g'] || x == seq!['j', 'p', 'e', 'g'] {
                "image/jpeg"@
            } else if x == seq!['g', 'i', 'f'] {
                "image/gif"@
            } else if x == seq!['w', 'e', 'b', 'p'] {
                "image/webp"@
            } else if x == seq!['s', 'v', 'g'] {
                "image/svg+xml"@
            } else {
                "application/octet-stream"@
            }
        },
        None => "application/octet-stream"@,
    }
}

/// The MIME type of the image at `path`.
pub fn mime_type(path: &str) -> (r: &'static str)
    ensures
        r@ == image_mime(path@),
{
    let e = match crate::workspace::extension_of(path) {
        Some(e) => e,
        None => return "application/octet-stream",
    };
    let x = crate::text::ascii_lowercase(e.as_slice());
    let png = vec!['p', 'n', 'g'];
    let jpg = vec!['j', 'p', 'g'];
    let jpeg = vec!['j', 'p', 'e', 'g'];
    let gif = vec!['g', 'i', 'f'];
    let webp = vec!['w', 'e', 'b', 'p'];
    let svg = vec!['s', 'v', 'g'];
    proof {
        assert(png@ =~= seq!['p', 'n', 'g']);
        assert(jpg@ =~= seq!['j', 'p', 'g']);
        assert(jpeg@ =~= seq!['j', 'p', 'e', 'g']);
        assert(gif@ =~= seq!['g', 'i', 'f']);
        assert(webp@ =~= seq!['w', 'e', 'b', 'p']);
        assert(svg@ =~= seq!['s', 'v', 'g']);
    }
    if crate::text::seq_eq(x.as_slice(), png.as_slice()) {
        "image/png"
    } else if crate::text::seq_eq(x.as_slice(), jpg.as_slice()) || crate::text::seq_eq(
        x.as_slice(),
        jpeg.as_slice(),
    ) {
        "image/jpeg"
    } else if crate::text::seq_eq(x.as_slice(), gif.as_slice()) {
        "image/gif"
    } else if crate::text::seq_eq(x.as_slice(), webp.as_slice()) {
        "image/webp"
    } else if crate::text::seq_eq(x.as_slice(), svg.as_slice()) {
        "image/svg+xml"
    } else {
        "application/octet-stream"
    }
}

/// The character of the standard Base64 alphabet for the six-bit value `v`:
/// `A`-`Z`, `a`-`z`, `0`-`9`, `+` and `/`.
pub open spec fn base64_char(v: int) -> char {
    if v < 26 {
        (65 + v) as char
    } else if v < 52 {
        (97 + v - 26) as char
    } else if v < 62 {
        (48 + v - 52) as char
    } else if v == 62 {
        '+'
    } else {
        '/'
    }
}

/// The standard Base64 encoding (RFC 4648, with `=` padding) of `bytes`:
/// each group of three bytes as four characters of six bits each, and a last
/// group of one or two bytes padded to four characters.
pub open spec fn base64_standard(bytes: Seq<u8>) -> Seq<char>
    decreases bytes.len(),
{
    if bytes.len() == 0 {
        Seq::empty()
    } else {
        let a = bytes[0] as int;
        let b = if bytes.len() > 1 { bytes[1] as int } else { 0 };
        let c = if bytes.len() > 2 { bytes[2] as int } else { 0 };
        let third = if bytes.len() > 1 { base64_char((b % 16) * 4 + c / 64) } else { '=' };
        let fourth = if bytes.len() > 2 { base64_char(c % 64) } else { '=' };
        seq![base64_char(a / 4), base64_char((a % 4) * 16 + b / 16), third, fourth]
            + if bytes.len() > 3 { base64_standard(bytes.skip(3)) } else { Seq::empty() }
    }
}

/// `base64::Engine::encode` with the `STANDARD` engine. Trusted to give
/// `base64_standard` of the bytes.
#[verifier::external_body]
fn encode_base64(bytes: &[u8]) -> (r: String)
    ensures
        r@ == base64_standard(bytes@),
{
    base64::engine::general_purpose::STANDARD.encode(bytes)
}

/// The data URL of an image: `data:<mime>;base64,<data>`, with the MIME type
/// from the image's path.
pub fn asset_data_url(path: &str, data: &[u8]) -> (r: String)
    ensures
        r@ == "data:"@ + image_mime(path@) + ";base64,"@ + base64_standard(data@),
{
    let mut r = crate::text::owned("data:");
    push_str(&mut r, mime_type(path));
    push_str(&mut r, ";base64,");
    let encoded = encode_base64(data);
    push_str(&mut r, encoded.as_str());
    r
}

/// The FNV-1a hash of `bytes`.
pub open spec fn fnv1a(bytes: Seq<u8>) -> u64
    decreases bytes.len(),
{
    if bytes.len() == 0 {
        0xcbf29ce484222325u64
    } else {
        vstd::wrapping::u64_specs::wrapping_mul(
            fnv1a(bytes.drop_last()) ^ (bytes.last() as u64),
            0x100000001b3u64,
        )
    }
}

/// The 64-bit FNV-1a hash of the UTF-8 bytes of `text`, used to tell
/// versions of the editor contents apart.
pub fn hash_text(text: &str) -> (r: u64)
    ensures
        r == fnv1a(vstd::utf8::encode_utf8(text@)),
{
    let bytes = text.as_bytes();
    let mut hash: u64 = 0xcbf29ce484222325;
    let mut i: usize = 0;
    while i < bytes.len()
        invariant
            i <= bytes@.len(),
            hash == fnv1a(bytes@.take(i as int)),
        decreases bytes@.len() - i,
    {
        proof {
            assert(bytes@.take(i + 1).drop_last() =~= bytes@.take(i as int));
        }
        hash = hash ^ (bytes[i] as u64);
        hash = hash.wrapping_mul(0x100000001b3);
        i = i + 1;
    }
    proof {
        assert(bytes@.take(bytes@.len() as int) =~= bytes@);
    }
    hash
}

} // verus!
