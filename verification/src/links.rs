//! Relative links between notes of a local workspace: how a link is split
//! into the path it names and its anchor, how percent-encoded names are
//! read, and which links can lead to an entry of the workspace at all.
use vstd::prelude::*;
use vstd::utf8::{decode_utf8, encode_utf8, valid_utf8};
use crate::persistence::{hex_byte_value, is_hex_byte};
use crate::smb::{leaves_workspace, parent_folders, split_fragment};
use crate::text::{chars_of, find_char_from, find_char_in, lemma_find_char_from, string_of, trim};
use crate::workspace::{id_escapes, join_slash};

verus! {

/// The bytes that percent-decoding `b` gives: each `%` followed by two
/// hexadecimal digits becomes the byte they write; every other byte stays.
pub open spec fn percent_decoded(b: Seq<u8>) -> Seq<u8>
    decreases b.len(),
{
    if b.len() == 0 {
        Seq::empty()
    } else if b.len() >= 3 && b[0] == 0x25 && is_hex_byte(b[1]) && is_hex_byte(b[2]) {
        seq![(hex_byte_value(b[1]) * 16 + hex_byte_value(b[2])) as u8] + percent_decoded(b.skip(3))
    } else {
        seq![b[0]] + percent_decoded(b.skip(1))
    }
}

/// The text that percent-decoding `s` gives, when its bytes are valid UTF-8.
pub open spec fn percent_decoded_text(s: Seq<char>) -> Option<Seq<char>> {
    let b = percent_decoded(encode_utf8(s));
    if valid_utf8(b) {
        Some(decode_utf8(b))
    } else {
        None
    }
}

/// The text that `percent_decode_str(s).decode_utf8_lossy()` gives: the
/// percent-decoded bytes read as UTF-8, each invalid sequence replaced by
/// U+FFFD.
pub uninterp spec fn percent_decoded_lossy(s: Seq<char>) -> Seq<char>;

/// `percent_encoding::percent_decode_str(s).decode_utf8()`: the text that
/// `s` percent-decodes to, or `None` when the bytes are not UTF-8.
#[verifier::external_body]
pub(crate) fn percent_decode_utf8(s: &str) -> (r: Option<String>)
    ensures
        match r {
            Some(t) => percent_decoded_text(s@) == Some(t@),
            None => percent_decoded_text(s@) is None,
        },
{
    percent_encoding::percent_decode_str(s).decode_utf8().ok().map(|text| text.into_owned())
}

/// `percent_encoding::percent_decode_str(s).decode_utf8_lossy()`.
#[verifier::external_body]
fn percent_decode_lossy(s: &str) -> (r: String)
    ensures
        r@ == percent_decoded_lossy(s@),
{
    percent_encoding::percent_decode_str(s).decode_utf8_lossy().into_owned()
}

/// The part of a Markdown link before any `?` of its path, trimmed, and its
/// anchor (the fragment after the first `#`, percent-decoded) when it has one.
pub open spec fn markdown_link_parts(link: Seq<char>) -> (Seq<char>, Option<Seq<char>>) {
    let (before, fragment) = split_fragment(link);
    let path = trim(
        match find_char_from(before, '?', 0) {
            Some(i) => before.take(i),
            None => before,
        },
    );
    (path, if fragment.len() == 0 { None } else { Some(percent_decoded_lossy(fragment)) })
}

/// The path a Markdown link names, and its anchor.
pub fn split_markdown_link(link: &str) -> (r: (String, Option<String>))
    ensures
        markdown_link_parts(link@) == (
            r.0@,
            match r.1 {
                Some(a) => Some(a@),
                None => None,
            },
        ),
{
    let l = chars_of(link);
    let n = l.len();
    proof {
        lemma_find_char_from(l@, '#', 0);
    }
    let (before, fragment) = match find_char_in(l.as_slice(), '#', 0) {
        Some(i) => (
            crate::text::copy_range(l.as_slice(), 0, i),
            crate::text::copy_range(l.as_slice(), i + 1, n),
        ),
        None => (crate::text::copy_range(l.as_slice(), 0, n), Vec::new()),
    };
    proof {
        assert(before@ =~= split_fragment(l@).0);
        assert(fragment@ =~= split_fragment(l@).1);
        lemma_find_char_from(before@, '?', 0);
    }
    let end = match find_char_in(before.as_slice(), '?', 0) {
        Some(i) => i,
        None => before.len(),
    };
    let head = crate::text::copy_range(before.as_slice(), 0, end);
    proof {
        assert(head@ =~= match find_char_from(before@, '?', 0) {
            Some(i) => before@.take(i),
            None => before@,
        });
    }
    let (a, b) = crate::text::trim_bounds(head.as_slice());
    let path = crate::text::string_of_range(head.as_slice(), a, b);
    let anchor = if fragment.len() == 0 {
        None
    } else {
        let text = string_of(fragment.as_slice());
        Some(percent_decode_lossy(text.as_str()))
    };
    (path, anchor)
}

/// The path an image link names: the part before its first `#` or `?`,
/// trimmed.
pub open spec fn asset_link_path(link: Seq<char>) -> Seq<char> {
    let end = match (find_char_from(link, '#', 0), find_char_from(link, '?', 0)) {
        (Some(h), Some(q)) => if h < q { h } else { q },
        (Some(h), None) => h,
        (None, Some(q)) => q,
        (None, None) => link.len() as int,
    };
    trim(link.take(end))
}

/// The path an image link names.
pub fn split_asset_link(link: &str) -> (r: String)
    ensures
        r@ == asset_link_path(link@),
{
    let l = chars_of(link);
    proof {
        lemma_find_char_from(l@, '#', 0);
        lemma_find_char_from(l@, '?', 0);
    }
    let end = match (find_char_in(l.as_slice(), '#', 0), find_char_in(l.as_slice(), '?', 0)) {
        (Some(h), Some(q)) => if h < q {
            h
        } else {
            q
        },
        (Some(h), None) => h,
        (None, Some(q)) => q,
        (None, None) => l.len(),
    };
    let head = crate::text::copy_range(l.as_slice(), 0, end);
    proof {
        assert(head@ =~= l@.take(end as int));
    }
    let (a, b) = crate::text::trim_bounds(head.as_slice());
    crate::text::string_of_range(head.as_slice(), a, b)
}

/// Where a relative link of the note `current` may lead on disk: the folder
/// of the note (as an id) and the link's path, percent-decoded and trimmed;
/// `None` when the link is not valid percent-encoded UTF-8, leaves the
/// workspace on its face, or the note's id escapes the workspace.
pub open spec fn link_target(current: Seq<char>, raw: Seq<char>) -> Option<(Seq<char>, Seq<char>)> {
    match percent_decoded_text(raw) {
        None => None,
        Some(decoded) => {
            let target = trim(decoded);
            if leaves_workspace(target) || id_escapes(current) {
                None
            } else {
                Some((join_slash(parent_folders(current)), target))
            }
        },
    }
}

/// The folder of the note `current_file` and the path that its relative
/// link `raw` names, for the caller to look up on disk.
pub fn relative_link_target(current_file: &str, raw: &str) -> (r: Option<(String, String)>)
    ensures
        match r {
            Some((folder, target)) => link_target(current_file@, raw@) == Some((folder@, target@)),
            None => link_target(current_file@, raw@) is None,
        },
{
    let decoded = match percent_decode_utf8(raw) {
        Some(d) => d,
        None => return None,
    };
    let d = chars_of(decoded.as_str());
    let (a, b) = crate::text::trim_bounds(d.as_slice());
    let target = crate::text::copy_range(d.as_slice(), a, b);
    let scheme = vec![':', '/', '/'];
    let mailto = vec!['m', 'a', 'i', 'l', 't', 'o', ':'];
    proof {
        assert(scheme@ =~= seq![':', '/', '/']);
        assert(mailto@ =~= seq!['m', 'a', 'i', 'l', 't', 'o', ':']);
    }
    let has_scheme = crate::text::find_in(target.as_slice(), scheme.as_slice(), 0).is_some();
    if target.len() == 0 || target[0] == '/' || has_scheme || crate::text::has_prefix(
        target.as_slice(),
        mailto.as_slice(),
    ) {
        return None;
    }
    if crate::workspace::validate_id(current_file).is_err() {
        return None;
    }
    let current = chars_of(current_file);
    let mut folders = crate::workspace::named_segments(current.as_slice());
    if folders.len() > 0 {
        folders.pop();
    }
    proof {
        assert(folders@.map_values(|p: Vec<char>| p@) =~= parent_folders(current_file@));
    }
    let folder = crate::smb::join_with_slash(&folders);
    Some((folder, string_of(target.as_slice())))
}

} // verus!
