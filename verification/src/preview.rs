//! Previews of entry contents: deciding text versus binary, the MIME type
//! shown, and what is cut off.

use base64::Engine;
use vstd::prelude::*;
use vstd::utf8::*;

use crate::model::PreviewData;
use crate::paths::extension;
use crate::text::{chars_of, ends_with, ends_with_str, eq_str, lemma_suffix_excludes, lower, lowercase, string_from_utf8};

verus! {

/// The Base64 digit of a value below 64, in the standard alphabet
/// (RFC 4648): `A`-`Z`, `a`-`z`, `0`-`9`, `+`, `/`.
pub open spec fn base64_digit(v: int) -> char {
    if v < 26 {
        (65 + v) as char
    } else if v < 52 {
        (97 + v - 26) as char
    } else if v < 62 {
        (48 + v - 52) as char
    } else if v == 62 {
        '+'
    } else {
        '/'
    }
}

/// The four characters for a 24-bit group `n` of which `k` bytes (1 to 3)
/// are real; the missing ones are shown as `=`.
pub open spec fn base64_group(n: int, k: int) -> Seq<char> {
    seq![
        base64_digit(n / 262144),
        base64_digit((n / 4096) % 64),
        if k >= 2 { base64_digit((n / 64) % 64) } else { '=' },
        if k >= 3 { base64_digit(n % 64) } else { '=' },
    ]
}

/// The standard, padded Base64 text of some bytes (RFC 4648): every three
/// bytes, and a last one or two, give four characters.
pub open spec fn base64_standard(data: Seq<u8>) -> Seq<char>
    decreases data.len(),
{
    if data.len() == 0 {
        Seq::<char>::empty()
    } else if data.len() == 1 {
        base64_group(data[0] * 65536, 1)
    } else if data.len() == 2 {
        base64_group(data[0] * 65536 + data[1] * 256, 2)
    } else {
        base64_group(data[0] * 65536 + data[1] * 256 + data[2], 3) + base64_standard(data.skip(3))
    }
}

/// The text `String::from_utf8_lossy` makes of some bytes.
pub uninterp spec fn utf8_lossy(data: Seq<u8>) -> Seq<char>;

/// `base64::engine::general_purpose::STANDARD.encode` (base64 crate): the
/// standard, padded Base64 text of `data`, four characters for every three
/// bytes or part of three.
#[verifier::external_body]
pub(crate) fn base64_encode(data: &[u8]) -> (r: String)
    ensures
        r@ == base64_standard(data@),
        r@.len() == 4 * ((data@.len() + 2) / 3),
{
    base64::engine::general_purpose::STANDARD.encode(data)
}

/// `String::from_utf8_lossy` (std): the text of `data`, with each invalid
/// sequence replaced by U+FFFD; valid UTF-8 is decoded unchanged.
#[verifier::external_body]
pub(crate) fn utf8_lossy_string(data: &[u8]) -> (r: String)
    ensures
        r@ == utf8_lossy(data@),
        valid_utf8(data@) ==> r@ == decode_utf8(data@),
{
    String::from_utf8_lossy(data).to_string()
}

/// Some byte among the first 8192 is zero.
pub open spec fn looks_binary_spec(buf: Seq<u8>) -> bool {
    exists|i: int| 0 <= i < buf.len() && i < 8192 && buf[i] == 0
}

/// Whether data looks binary: a zero byte within its first 8 KiB.
pub fn looks_binary(buf: &[u8]) -> (b: bool)
    ensures
        b == looks_binary_spec(buf@),
{
    let mut i: usize = 0;
    while i < buf.len() && i < 8192
        invariant
            i <= buf@.len(),
            i <= 8192,
            forall|j: int| 0 <= j < i ==> buf@[j] != 0,
        decreases buf.len() - i,
    {
        if buf[i] == 0 {
            return true;
        }
        i = i + 1;
    }
    false
}

/// The MIME type shown for a preview: text is `text/plain`; binary data is
/// named after a few image extensions, else `application/octet-stream`.
pub open spec fn guess_mime_spec(name: Seq<char>, is_binary: bool) -> Seq<char> {
    let l = lower(name);
    if !is_binary {
        "text/plain"@
    } else if ends_with(l, ".png"@) {
        "image/png"@
    } else if ends_with(l, ".jpg"@) || ends_with(l, ".jpeg"@) {
        "image/jpeg"@
    } else if ends_with(l, ".gif"@) {
        "image/gif"@
    } else if ends_with(l, ".webp"@) {
        "image/webp"@
    } else {
        "application/octet-stream"@
    }
}

/// The MIME type of a preview of `name`.
pub fn guess_mime(name: &str, is_binary: bool) -> (r: String)
    ensures
        r@ == guess_mime_spec(name@, is_binary),
{
    if !is_binary {
        return "text/plain".to_owned();
    }
    let nc = chars_of(name);
    let lc = lowercase(nc.as_slice());
    let l = lc.as_slice();
    if ends_with_str(l, ".png") {
        "image/png".to_owned()
    } else if ends_with_str(l, ".jpg") || ends_with_str(l, ".jpeg") {
        "image/jpeg".to_owned()
    } else if ends_with_str(l, ".gif") {
        "image/gif".to_owned()
    } else if ends_with_str(l, ".webp") {
        "image/webp".to_owned()
    } else {
        "application/octet-stream".to_owned()
    }
}

/// The preview `data` gives: `text` when it is text (lossily decoded),
/// `data_base64` when binary.
pub open spec fn preview_of(
    p: PreviewData,
    name: Seq<char>,
    mime: Seq<char>,
    shown: Seq<u8>,
    truncated: bool,
    is_binary: bool,
) -> bool {
    &&& p.name@ == name
    &&& p.mime@ == mime
    &&& p.truncated == truncated
    &&& p.is_binary == is_binary
    &&& if is_binary {
        &&& p.text is None
        &&& p.data_base64 matches Some(b) && b@ == base64_standard(shown)
    } else {
        &&& p.data_base64 is None
        &&& p.text matches Some(t) && t@ == utf8_lossy(shown)
    }
}

fn make_preview(name: &str, mime: String, shown: &[u8], truncated: bool, is_binary: bool) -> (p:
    PreviewData)
    ensures
        preview_of(p, name@, mime@, shown@, truncated, is_binary),
{
    if is_binary {
        PreviewData {
            name: name.to_owned(),
            mime,
            text: None,
            data_base64: Some(base64_encode(shown)),
            truncated,
            is_binary: true,
        }
    } else {
        PreviewData {
            name: name.to_owned(),
            mime,
            text: Some(utf8_lossy_string(shown)),
            data_base64: None,
            truncated,
            is_binary: false,
        }
    }
}

/// The first `n` bytes of `data` (all of them when it is shorter).
fn take_bytes(data: &[u8], n: usize) -> (out: Vec<u8>)
    ensures
        out@ == data@.take(if data@.len() < n { data@.len() as int } else { n as int }),
{
    let m = if data.len() < n { data.len() } else { n };
    crate::bytes::copy_range(data, 0, m)
}

/// Previews `data`, read from an entry up to `max_bytes`: at most
/// `max_bytes` are shown, and the preview counts as truncated once
/// `max_bytes` were reached. Binary (a zero byte in the first 8 KiB) goes out
/// as Base64 with a MIME type guessed from `name`.
pub fn read_preview(data: &[u8], name: &str, max_bytes: usize) -> (p: PreviewData)
    ensures
        ({
            let shown = data@.take(
                if data@.len() < max_bytes { data@.len() as int } else { max_bytes as int },
            );
            preview_of(
                p,
                name@,
                guess_mime_spec(name@, looks_binary_spec(shown)),
                shown,
                data@.len() >= max_bytes,
                looks_binary_spec(shown),
            )
        }),
{
    let buf = take_bytes(data, max_bytes);
    let truncated = data.len() >= max_bytes;
    let is_binary = looks_binary(buf.as_slice());
    let mime = guess_mime(name, is_binary);
    make_preview(name, mime, buf.as_slice(), truncated, is_binary)
}

/// MIME types by file extension, for binary previews of single-stream
/// archives.
pub open spec fn mime_for_spec(name: Seq<char>) -> Seq<char> {
    let l = lower(name);
    if ends_with(l, ".png"@) {
        "image/png"@
    } else if ends_with(l, ".jpg"@) || ends_with(l, ".jpeg"@) {
        "image/jpeg"@
    } else if ends_with(l, ".gif"@) {
        "image/gif"@
    } else if ends_with(l, ".pdf"@) {
        "application/pdf"@
    } else {
        "application/octet-stream"@
    }
}

/// The MIME type of a binary single-stream preview named `name`.
pub fn mime_for(name: &str) -> (r: String)
    ensures
        r@ == mime_for_spec(name@),
{
    let nc = chars_of(name);
    let lc = lowercase(nc.as_slice());
    let l = lc.as_slice();
    if ends_with_str(l, ".png") {
        "image/png".to_owned()
    } else if ends_with_str(l, ".jpg") || ends_with_str(l, ".jpeg") {
        "image/jpeg".to_owned()
    } else if ends_with_str(l, ".gif") {
        "image/gif".to_owned()
    } else if ends_with_str(l, ".pdf") {
        "application/pdf".to_owned()
    } else {
        "application/octet-stream".to_owned()
    }
}

/// Bytes that are not text: not UTF-8, or UTF-8 holding a NUL.
pub open spec fn single_is_binary(buf: Seq<u8>) -> bool {
    !valid_utf8(buf) || decode_utf8(buf).contains('\0')
}

fn copy_vec(data: &[u8]) -> (out: Vec<u8>)
    ensures
        out@ == data@,
{
    crate::bytes::copy_range(data, 0, data.len())
}

fn contains_char(s: &[char], c: char) -> (b: bool)
    ensures
        b == s@.contains(c),
{
    let mut i: usize = 0;
    while i < s.len()
        invariant
            i <= s@.len(),
            forall|j: int| 0 <= j < i ==> s@[j] != c,
        decreases s.len() - i,
    {
        if s[i] == c {
            return true;
        }
        i = i + 1;
    }
    false
}

/// Whether some bytes are not text (not UTF-8, or holding a NUL).
fn is_binary_text(buf: &[u8]) -> (b: bool)
    ensures
        b == single_is_binary(buf@),
{
    match string_from_utf8(copy_vec(buf)) {
        Some(s) => {
            let cs = chars_of(s.as_str());
            contains_char(cs.as_slice(), '\0')
        },
        None => true,
    }
}

/// Previews a single-stream archive (`.gz` and the like) from `data`, read
/// from the decompressed stream up to `max_bytes + 1` bytes; `name` is the
/// name of the decompressed file. It is truncated when more than `max_bytes`
/// came out.
pub fn preview_stream_data(data: &[u8], name: &str, max_bytes: usize) -> (p: PreviewData)
    ensures
        ({
            let shown = data@.take(
                if data@.len() < max_bytes { data@.len() as int } else { max_bytes as int },
            );
            preview_of(
                p,
                name@,
                if single_is_binary(shown) { mime_for_spec(name@) } else { "text/plain"@ },
                shown,
                data@.len() > max_bytes,
                single_is_binary(shown),
            )
        }),
{
    let buf = take_bytes(data, max_bytes);
    let truncated = data.len() > max_bytes;
    let is_binary = is_binary_text(buf.as_slice());
    let mime = if is_binary { mime_for(name) } else { "text/plain".to_owned() };
    make_preview(name, mime, buf.as_slice(), truncated, is_binary)
}

/// MIME types by extension for the command-line engine's previews.
pub open spec fn mime_of_spec(name: Seq<char>) -> Seq<char> {
    let e = lower(
        match extension(name) {
            Some(x) => x,
            None => Seq::<char>::empty(),
        },
    );
    if e == "png"@ {
        "image/png"@
    } else if e == "jpg"@ || e == "jpeg"@ {
        "image/jpeg"@
    } else if e == "gif"@ {
        "image/gif"@
    } else if e == "pdf"@ {
        "application/pdf"@
    } else if e == "json"@ {
        "application/json"@
    } else if e == "xml"@ {
        "application/xml"@
    } else if e == "html"@ || e == "htm"@ {
        "text/html"@
    } else if e == "md"@ {
        "text/markdown"@
    } else if e == "css"@ {
        "text/css"@
    } else if e == "js"@ {
        "application/javascript"@
    } else {
        "application/octet-stream"@
    }
}

/// The MIME type of `name` by its extension.
pub fn mime_of(name: &str) -> (r: String)
    ensures
        r@ == mime_of_spec(name@),
{
    let nc = chars_of(name);
    let ext = match crate::paths::extension_exec(nc.as_slice()) {
        Some(x) => x,
        None => Vec::new(),
    };
    let lc = lowercase(ext.as_slice());
    let e = lc.as_slice();
    if eq_str(e, "png") {
        "image/png".to_owned()
    } else if eq_str(e, "jpg") || eq_str(e, "jpeg") {
        "image/jpeg".to_owned()
    } else if eq_str(e, "gif") {
        "image/gif".to_owned()
    } else if eq_str(e, "pdf") {
        "application/pdf".to_owned()
    } else if eq_str(e, "json") {
        "application/json".to_owned()
    } else if eq_str(e, "xml") {
        "application/xml".to_owned()
    } else if eq_str(e, "html") || eq_str(e, "htm") {
        "text/html".to_owned()
    } else if eq_str(e, "md") {
        "text/markdown".to_owned()
    } else if eq_str(e, "css") {
        "text/css".to_owned()
    } else if eq_str(e, "js") {
        "application/javascript".to_owned()
    } else {
        "application/octet-stream".to_owned()
    }
}

/// Data that the command-line engine's preview shows as binary: a zero byte,
/// invalid UTF-8, or text holding U+FFFD.
pub open spec fn cli_is_binary(head: Seq<u8>) -> bool {
    head.contains(0u8) || !valid_utf8(head) || decode_utf8(head).contains('\u{fffd}')
}

fn contains_byte(s: &[u8], b: u8) -> (r: bool)
    ensures
        r == s@.contains(b),
{
    let mut i: usize = 0;
    while i < s.len()
        invariant
            i <= s@.len(),
            forall|j: int| 0 <= j < i ==> s@[j] != b,
        decreases s.len() - i,
    {
        if s[i] == b {
            return true;
        }
        i = i + 1;
    }
    false
}

/// Previews a whole extracted entry for the command-line engine: at most
/// `max` bytes are shown, truncated when there were more.
pub fn build_preview(name: &str, data: &[u8], max: usize) -> (p: PreviewData)
    ensures
        ({
            let head = data@.take(if data@.len() < max { data@.len() as int } else { max as int });
            preview_of(
                p,
                name@,
                if cli_is_binary(head) { mime_of_spec(name@) } else { "text/plain"@ },
                head,
                data@.len() > max,
                cli_is_binary(head),
            )
        }),
{
    let truncated = data.len() > max;
    let head = take_bytes(data, max);
    let is_binary = if contains_byte(head.as_slice(), 0) {
        true
    } else {
        match string_from_utf8(copy_vec(head.as_slice())) {
            Some(s) => {
                let cs = chars_of(s.as_str());
                contains_char(cs.as_slice(), '\u{fffd}')
            },
            None => true,
        }
    };
    let mime = if is_binary { mime_of(name) } else { "text/plain".to_owned() };
    make_preview(name, mime, head.as_slice(), truncated, is_binary)
}


/// Law: text previews are `text/plain`; a binary preview of an image is
/// shown with its image type, whatever the case of the name: `.png` is
/// image/png, `.jpg` and `.jpeg` image/jpeg, `.gif` image/gif and `.webp`
/// image/webp; any other binary data is application/octet-stream.
pub proof fn law_image_previews_keep_their_type(name: Seq<char>)
    ensures
        guess_mime_spec(name, false) == "text/plain"@,
        ends_with(lower(name), ".png"@) ==> guess_mime_spec(name, true) == "image/png"@,
        ends_with(lower(name), ".jpg"@) ==> guess_mime_spec(name, true) == "image/jpeg"@,
        ends_with(lower(name), ".jpeg"@) ==> guess_mime_spec(name, true) == "image/jpeg"@,
        ends_with(lower(name), ".gif"@) ==> guess_mime_spec(name, true) == "image/gif"@,
        ends_with(lower(name), ".webp"@) ==> guess_mime_spec(name, true) == "image/webp"@,
        !ends_with(lower(name), ".png"@) && !ends_with(lower(name), ".jpg"@) && !ends_with(lower(name), ".jpeg"@)
            && !ends_with(lower(name), ".gif"@) && !ends_with(lower(name), ".webp"@) ==> guess_mime_spec(name, true)
            == "application/octet-stream"@,
{
    reveal_strlit(".png");
    reveal_strlit(".jpg");
    reveal_strlit(".jpeg");
    reveal_strlit(".gif");
    reveal_strlit(".webp");
    let p = lower(name);
    if ends_with(p, ".jpg"@) {
        lemma_suffix_excludes(p, ".jpg"@, ".png"@, 1);
    }
    if ends_with(p, ".jpeg"@) {
        lemma_suffix_excludes(p, ".jpeg"@, ".png"@, 1);
    }
    if ends_with(p, ".gif"@) {
        lemma_suffix_excludes(p, ".gif"@, ".png"@, 0);
        lemma_suffix_excludes(p, ".gif"@, ".jpg"@, 0);
        lemma_suffix_excludes(p, ".gif"@, ".jpeg"@, 0);
    }
    if ends_with(p, ".webp"@) {
        lemma_suffix_excludes(p, ".webp"@, ".png"@, 0);
        lemma_suffix_excludes(p, ".webp"@, ".jpg"@, 0);
        lemma_suffix_excludes(p, ".webp"@, ".jpeg"@, 0);
        lemma_suffix_excludes(p, ".webp"@, ".gif"@, 0);
    }
}


/// Law: a binary single-stream preview is shown with the type its name
/// announces, whatever its case: `.png` image/png, `.jpg` and `.jpeg`
/// image/jpeg, `.gif` image/gif, `.pdf` application/pdf, and anything
/// else application/octet-stream.
pub proof fn law_stream_preview_type(name: Seq<char>)
    ensures
        ends_with(lower(name), ".png"@) ==> mime_for_spec(name) == "image/png"@,
        ends_with(lower(name), ".jpg"@) ==> mime_for_spec(name) == "image/jpeg"@,
        ends_with(lower(name), ".jpeg"@) ==> mime_for_spec(name) == "image/jpeg"@,
        ends_with(lower(name), ".gif"@) ==> mime_for_spec(name) == "image/gif"@,
        ends_with(lower(name), ".pdf"@) ==> mime_for_spec(name) == "application/pdf"@,
        !ends_with(lower(name), ".png"@) && !ends_with(lower(name), ".jpg"@) && !ends_with(lower(name), ".jpeg"@)
            && !ends_with(lower(name), ".gif"@) && !ends_with(lower(name), ".pdf"@) ==> mime_for_spec(name)
            == "application/octet-stream"@,
{
    reveal_strlit(".png");
    reveal_strlit(".jpg");
    reveal_strlit(".jpeg");
    reveal_strlit(".gif");
    reveal_strlit(".pdf");
    let p = lower(name);
    if ends_with(p, ".jpg"@) {
        lemma_suffix_excludes(p, ".jpg"@, ".png"@, 1);
    }
    if ends_with(p, ".jpeg"@) {
        lemma_suffix_excludes(p, ".jpeg"@, ".png"@, 1);
    }
    if ends_with(p, ".gif"@) {
        lemma_suffix_excludes(p, ".gif"@, ".png"@, 0);
        lemma_suffix_excludes(p, ".gif"@, ".jpg"@, 0);
        lemma_suffix_excludes(p, ".gif"@, ".jpeg"@, 0);
    }
    if ends_with(p, ".pdf"@) {
        lemma_suffix_excludes(p, ".pdf"@, ".png"@, 0);
        lemma_suffix_excludes(p, ".pdf"@, ".jpg"@, 0);
        lemma_suffix_excludes(p, ".pdf"@, ".jpeg"@, 0);
        assert(".pdf"@[2] == 'd' && ".gif"@[2] == 'i');
        lemma_suffix_excludes(p, ".pdf"@, ".gif"@, 1);
    }
}

} // verus!
