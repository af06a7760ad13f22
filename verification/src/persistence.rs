//! The saved session: favorite workspaces, which of them is open, and the
//! note it showed; and the reading of the older line-based session files.
use vstd::prelude::*;
use vstd::utf8::{decode_utf8, valid_utf8};
use crate::text::{char_vec_views, chars_of, skip_white_space, split_lines, string_of, text_lines, trim};

verus! {

/// The first line of the current session file.
pub const SESSION_HEADER: &'static str = "markerup-session-v4";

/// The first line of the line-based session file that also records an SMB share.
pub const PREVIOUS_SESSION_HEADER: &'static str = "markerup-session-v3";

/// The first line of the oldest line-based session file.
pub const LEGACY_SESSION_HEADER: &'static str = "markerup-session-v2";

/// Where an SMB favorite connects; its password is never saved.
#[derive(Clone, Debug, PartialEq, Eq)]
pub struct SavedSmbConfig {
    pub server: String,
    pub share: String,
    pub username: String,
    pub remote_path: String,
}

/// A saved workspace: a local folder (with its security-scoped bookmark on
/// platforms that need one) or an SMB share.
#[derive(Clone, Debug, PartialEq, Eq)]
pub enum SavedWorkspace {
    Local { path: String, bookmark: Option<Vec<u8>> },
    Smb(SavedSmbConfig),
}

/// A favorite workspace.
#[derive(Clone, Debug, PartialEq, Eq)]
pub struct SavedFavorite {
    pub workspace: SavedWorkspace,
}

/// The restored session: the favorites, the open one, and its note.
#[derive(Clone, Debug)]
pub struct SessionState {
    pub favorites: Vec<SavedFavorite>,
    pub active_favorite: Option<usize>,
    pub current_file: Option<String>,
}

/// A saved workspace as the specifications see it.
pub enum WorkspaceModel {
    Local(Seq<char>, Option<Seq<u8>>),
    Smb(Seq<char>, Seq<char>, Seq<char>, Seq<char>),
}

impl SavedWorkspace {
    pub open spec fn model(self) -> WorkspaceModel {
        match self {
            SavedWorkspace::Local { path, bookmark } => WorkspaceModel::Local(
                path@,
                match bookmark {
                    Some(b) => Some(b@),
                    None => None,
                },
            ),
            SavedWorkspace::Smb(c) => WorkspaceModel::Smb(
                c.server@,
                c.share@,
                c.username@,
                c.remote_path@,
            ),
        }
    }
}

/// A session as the specifications see it: the favorites, the open one and
/// its note.
pub type SessionModel = (Seq<WorkspaceModel>, Option<usize>, Option<Seq<char>>);

impl SessionState {
    pub open spec fn model(self) -> SessionModel {
        (
            self.favorites@.map_values(|f: SavedFavorite| f.workspace.model()),
            self.active_favorite,
            match self.current_file {
                Some(f) => Some(f@),
                None => None,
            },
        )
    }
}

/// An ASCII hexadecimal digit, as a byte.
pub open spec fn is_hex_byte(b: u8) -> bool {
    (0x30 <= b && b <= 0x39) || (0x61 <= b && b <= 0x66) || (0x41 <= b && b <= 0x46)
}

/// The value of an ASCII hexadecimal digit.
pub open spec fn hex_byte_value(b: u8) -> int {
    if b <= 0x39 {
        b - 0x30
    } else if b <= 0x46 {
        b - 0x41 + 10
    } else {
        b - 0x61 + 10
    }
}

/// The byte that `u8::from_str_radix(.., 16)` reads from two bytes: two
/// hexadecimal digits, or `+` and one digit.
pub open spec fn hex_pair(a: u8, b: u8) -> Option<u8> {
    if is_hex_byte(a) && is_hex_byte(b) {
        Some((hex_byte_value(a) * 16 + hex_byte_value(b)) as u8)
    } else if a == 0x2b && is_hex_byte(b) {
        Some(hex_byte_value(b) as u8)
    } else {
        None
    }
}

/// The bytes written by the first `k` pairs of `b`.
pub open spec fn hex_pairs(b: Seq<u8>, k: int) -> Option<Seq<u8>>
    decreases k,
{
    if k <= 0 {
        Some(Seq::empty())
    } else {
        match hex_pairs(b, k - 1) {
            None => None,
            Some(out) => match hex_pair(b[2 * k - 2], b[2 * k - 1]) {
                Some(x) => Some(out.push(x)),
                None => None,
            },
        }
    }
}

/// The bytes that the text `t` writes as pairs of hexadecimal digits (read
/// byte by byte in its UTF-8 encoding); `None` when it is empty, of odd
/// length, or holds a pair that is no byte.
pub open spec fn hex_decoded(t: Seq<char>) -> Option<Seq<u8>> {
    let b = vstd::utf8::encode_utf8(t);
    if b.len() == 0 || b.len() % 2 != 0 {
        None
    } else {
        hex_pairs(b, (b.len() / 2) as int)
    }
}

/// The text that `t` writes in hexadecimal UTF-8; the empty text for `t`
/// empty.
pub open spec fn hex_text(t: Seq<char>) -> Option<Seq<char>> {
    if t.len() == 0 {
        Some(Seq::empty())
    } else {
        match hex_decoded(t) {
            Some(bytes) => if valid_utf8(bytes) {
                Some(decode_utf8(bytes))
            } else {
                None
            },
            None => None,
        }
    }
}

/// `String::from_utf8`: the text that the bytes encode, or `None` when they
/// are not valid UTF-8.
#[verifier::external_body]
fn string_from_utf8(bytes: Vec<u8>) -> (r: Option<String>)
    ensures
        match r {
            Some(s) => valid_utf8(bytes@) && s@ == decode_utf8(bytes@),
            None => !valid_utf8(bytes@),
        },
{
    String::from_utf8(bytes).ok()
}

fn hex_value(b: u8) -> (r: Option<u8>)
    ensures
        match r {
            Some(v) => is_hex_byte(b) && v == hex_byte_value(b),
            None => !is_hex_byte(b),
        },
{
    if 0x30 <= b && b <= 0x39 {
        Some(b - 0x30)
    } else if 0x61 <= b && b <= 0x66 {
        Some(b - 0x61 + 10)
    } else if 0x41 <= b && b <= 0x46 {
        Some(b - 0x41 + 10)
    } else {
        None
    }
}

proof fn lemma_hex_pairs_none_sticks(b: Seq<u8>, k: int, m: int)
    requires
        0 < k <= m,
        hex_pairs(b, k) is None,
    ensures
        hex_pairs(b, m) is None,
    decreases m - k,
{
    if m > k {
        lemma_hex_pairs_none_sticks(b, k, m - 1);
    }
}

/// The bytes a text writes as pairs of hexadecimal digits.
pub fn decode_hex(text: &str) -> (r: Option<Vec<u8>>)
    ensures
        match r {
            Some(v) => hex_decoded(text@) == Some(v@),
            None => hex_decoded(text@) is None,
        },
{
    let b = text.as_bytes();
    let n = b.len();
    if n == 0 || n % 2 != 0 {
        return None;
    }
    let mut out: Vec<u8> = Vec::new();
    let mut k: usize = 0;
    while k < n / 2
        invariant
            b@ == vstd::utf8::encode_utf8(text@),
            n == b@.len(),
            n % 2 == 0,
            k <= n / 2,
            hex_pairs(b@, k as int) == Some(out@),
        decreases n / 2 - k,
    {
        let a = b[2 * k];
        let c = b[2 * k + 1];
        let byte = match (hex_value(a), hex_value(c)) {
            (Some(x), Some(y)) => x * 16 + y,
            (None, Some(y)) => {
                if a == 0x2b {
                    y
                } else {
                    proof {
                        assert(hex_pairs(b@, k + 1) is None);
                        lemma_hex_pairs_none_sticks(b@, k + 1, (n / 2) as int);
                    }
                    return None;
                }
            },
            _ => {
                proof {
                    assert(hex_pairs(b@, k + 1) is None);
                    lemma_hex_pairs_none_sticks(b@, k + 1, (n / 2) as int);
                }
                return None;
            },
        };
        out.push(byte);
        k = k + 1;
    }
    Some(out)
}

/// The text that a text writes in hexadecimal UTF-8; the empty text for the
/// empty text.
pub fn decode_text(text: &str) -> (r: Option<String>)
    ensures
        match r {
            Some(s) => hex_text(text@) == Some(s@),
            None => hex_text(text@) is None,
        },
{
    if text.as_bytes().len() == 0 {
        proof {
            assert(text@.len() == 0) by {
                if text@.len() > 0 {
                    vstd::utf8::encode_utf8_first_scalar(text@);
                }
            }
        }
        return Some(String::new());
    }
    match decode_hex(text) {
        Some(bytes) => string_from_utf8(bytes),
        None => None,
    }
}

/// The favorite that a line-based session records: the SMB share of the
/// previous format when any of its fields is set, else the local folder on
/// its first line with the bookmark that its third line writes in hex.
pub open spec fn legacy_workspace(previous: bool, lines: Seq<Seq<char>>) -> Option<WorkspaceModel> {
    let bookmark = if lines.len() > 2 {
        hex_decoded(lines[2])
    } else {
        None
    };
    if previous {
        if lines.len() < 7 {
            None
        } else {
            match (hex_text(lines[3]), hex_text(lines[4]), hex_text(lines[5]), hex_text(lines[6])) {
                (Some(server), Some(share), Some(username), Some(remote)) => if server.len() == 0
                    && share.len() == 0 && username.len() == 0 && remote.len() == 0 {
                    Some(WorkspaceModel::Local(lines[0], bookmark))
                } else {
                    Some(WorkspaceModel::Smb(server, share, username, remote))
                },
                _ => None,
            }
        }
    } else {
        Some(WorkspaceModel::Local(lines[0], bookmark))
    }
}

/// The session that a line-based session file records, read from its
/// header and the rest of the file: one favorite, open, with the note named
/// (trimmed) on the second line.
pub open spec fn legacy_session(header: Seq<char>, payload: Seq<char>) -> Option<SessionModel> {
    let previous = header == PREVIOUS_SESSION_HEADER@;
    let lines = text_lines(payload);
    if !previous && header != LEGACY_SESSION_HEADER@ {
        None
    } else if lines.len() == 0 {
        None
    } else {
        let current = if lines.len() > 1 && trim(lines[1]).len() > 0 {
            Some(trim(lines[1]))
        } else {
            None
        };
        match legacy_workspace(previous, lines) {
            Some(w) => Some((seq![w], Some(0usize), current)),
            None => None,
        }
    }
}

/// Decodes the fields of an SMB share written in hex.
fn legacy_share(lines: &Vec<Vec<char>>) -> (r: Option<Option<SavedSmbConfig>>)
    requires
        lines@.len() >= 7,
    ensures
        match r {
            Some(Some(c)) => hex_text(lines@[3]@) == Some(c.server@) && hex_text(lines@[4]@)
                == Some(c.share@) && hex_text(lines@[5]@) == Some(c.username@) && hex_text(
                lines@[6]@,
            ) == Some(c.remote_path@) && !(c.server@.len() == 0 && c.share@.len() == 0
                && c.username@.len() == 0 && c.remote_path@.len() == 0),
            Some(None) => hex_text(lines@[3]@) == Some(Seq::<char>::empty()) && hex_text(
                lines@[4]@,
            ) == Some(Seq::<char>::empty()) && hex_text(lines@[5]@) == Some(Seq::<char>::empty())
                && hex_text(lines@[6]@) == Some(Seq::<char>::empty()),
            None => hex_text(lines@[3]@) is None || hex_text(lines@[4]@) is None || hex_text(
                lines@[5]@,
            ) is None || hex_text(lines@[6]@) is None,
        },
{
    let s3 = string_of(lines[3].as_slice());
    let s4 = string_of(lines[4].as_slice());
    let s5 = string_of(lines[5].as_slice());
    let s6 = string_of(lines[6].as_slice());
    let server = match decode_text(s3.as_str()) {
        Some(v) => v,
        None => return None,
    };
    let share = match decode_text(s4.as_str()) {
        Some(v) => v,
        None => return None,
    };
    let username = match decode_text(s5.as_str()) {
        Some(v) => v,
        None => return None,
    };
    let remote_path = match decode_text(s6.as_str()) {
        Some(v) => v,
        None => return None,
    };
    if server.as_str().as_bytes().len() == 0 && share.as_str().as_bytes().len() == 0
        && username.as_str().as_bytes().len() == 0 && remote_path.as_str().as_bytes().len() == 0 {
        proof {
            lemma_no_bytes_no_chars(server@);
            lemma_no_bytes_no_chars(share@);
            lemma_no_bytes_no_chars(username@);
            lemma_no_bytes_no_chars(remote_path@);
            assert(server@ =~= Seq::<char>::empty());
            assert(share@ =~= Seq::<char>::empty());
            assert(username@ =~= Seq::<char>::empty());
            assert(remote_path@ =~= Seq::<char>::empty());
        }
        return Some(None);
    }
    proof {
        if server@.len() == 0 && share@.len() == 0 && username@.len() == 0 && remote_path@.len()
            == 0 {
            assert(vstd::utf8::encode_utf8(server@) =~= Seq::<u8>::empty());
            assert(vstd::utf8::encode_utf8(share@) =~= Seq::<u8>::empty());
            assert(vstd::utf8::encode_utf8(username@) =~= Seq::<u8>::empty());
            assert(vstd::utf8::encode_utf8(remote_path@) =~= Seq::<u8>::empty());
        }
    }
    Some(Some(SavedSmbConfig { server, share, username, remote_path }))
}

proof fn lemma_no_bytes_no_chars(s: Seq<char>)
    ensures
        vstd::utf8::encode_utf8(s).len() == 0 ==> s.len() == 0,
{
    if s.len() > 0 {
        vstd::utf8::encode_utf8_first_scalar(s);
    }
}

/// Reads a line-based session file from its header line and the rest of
/// the file: the favorite it records, open, with its note.
pub fn load_legacy_session(header: &str, payload: &str) -> (r: Option<SessionState>)
    ensures
        match r {
            Some(s) => legacy_session(header@, payload@) == Some(s.model()),
            None => legacy_session(header@, payload@) is None,
        },
{
    let previous = crate::text::str_eq(header, PREVIOUS_SESSION_HEADER);
    if !previous && !crate::text::str_eq(header, LEGACY_SESSION_HEADER) {
        return None;
    }
    let v = chars_of(payload);
    let lines = split_lines(v.as_slice());
    let ghost views = char_vec_views(lines@);
    proof {
        assert(views == text_lines(payload@));
    }
    if lines.len() == 0 {
        return None;
    }
    proof {
        assert(views[0] == lines@[0]@);
    }
    let path = string_of(lines[0].as_slice());
    let current = if lines.len() > 1 {
        let (a, b) = crate::text::trim_bounds(lines[1].as_slice());
        if a < b {
            Some(string_of(crate::text::copy_range(lines[1].as_slice(), a, b).as_slice()))
        } else {
            None
        }
    } else {
        None
    };
    proof {
        if lines@.len() > 1 {
            assert(views[1] == lines@[1]@);
        }
    }
    let bookmark = if lines.len() > 2 {
        proof {
            assert(views[2] == lines@[2]@);
        }
        let text = string_of(lines[2].as_slice());
        decode_hex(text.as_str())
    } else {
        None
    };
    let workspace = if previous {
        if lines.len() < 7 {
            return None;
        }
        proof {
            assert(views[3] == lines@[3]@);
            assert(views[4] == lines@[4]@);
            assert(views[5] == lines@[5]@);
            assert(views[6] == lines@[6]@);
        }
        match legacy_share(&lines) {
            None => return None,
            Some(Some(config)) => SavedWorkspace::Smb(config),
            Some(None) => SavedWorkspace::Local { path, bookmark },
        }
    } else {
        SavedWorkspace::Local { path, bookmark }
    };
    let favorites = vec![SavedFavorite { workspace }];
    let r = SessionState { favorites, active_favorite: Some(0), current_file: current };
    proof {
        assert(r.model().0 =~= seq![r.favorites@[0].workspace.model()]);
    }
    Some(r)
}

/// The open favorite of a stored session, kept only when it names one of
/// the `count` favorites.
pub fn clamp_active_favorite(active: Option<usize>, count: usize) -> (r: Option<usize>)
    ensures
        r == match active {
            Some(i) => if i < count {
                Some(i)
            } else {
                None
            },
            None => None,
        },
{
    match active {
        Some(i) => if i < count {
            Some(i)
        } else {
            None
        },
        None => None,
    }
}

/// A session as stored in the current format, with its open favorite kept
/// only when it names one of its favorites.
pub fn session_from_stored(
    favorites: Vec<SavedFavorite>,
    active_favorite: Option<usize>,
    current_file: Option<String>,
) -> (r: SessionState)
    ensures
        r.favorites@ == favorites@,
        r.active_favorite == clamp(active_favorite, favorites@.len()),
        r.current_file == current_file,
{
    let count = favorites.len();
    SessionState {
        favorites,
        active_favorite: clamp_active_favorite(active_favorite, count),
        current_file,
    }
}

/// The open favorite kept only when it is below `count`.
pub open spec fn clamp(active: Option<usize>, count: nat) -> Option<usize> {
    match active {
        Some(i) => if i < count {
            Some(i)
        } else {
            None
        },
        None => None,
    }
}

} // verus!
