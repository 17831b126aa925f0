//! Discovery and extraction helpers: file-extension classification for the
//! path walker, fresh identifiers, the content-addressed thumbnail naming
//! and low-resolution cover transcoding, and sidecar lyrics parsing.

use std::num::NonZeroU32;
use fast_image_resize as fr;

use vstd::prelude::*;
use vstd::string::StrSliceExecFns;
use vstd::string::StringExecFns;

use crate::error::ScanError;
use crate::structs::{entries_view, ov, paths_view, Album, Artists, AudioProps, FileList, Song, TagData};

verus! {

/// Relies on `uuid::Uuid::new_v4` and its `Display` form: a fresh random
/// identifier rendered as 36 hyphenated lowercase hex characters.
#[verifier::external_body]
pub(crate) fn new_uuid() -> (r: String)
    ensures
        r@.len() == 36,
{
    uuid::Uuid::new_v4().to_string()
}

/// `c` equals the (lowercase) pattern character `t`, ignoring ASCII case.
pub open spec fn char_matches_lower(c: char, t: char) -> bool {
    c == t || ('a' as u32 <= t as u32 <= 'z' as u32 && c as u32 + 32 == t as u32)
}

/// The lowercase token `t` occurs at position `k` of `s`, ignoring ASCII case.
pub open spec fn token_at(s: Seq<char>, t: Seq<char>, k: int) -> bool {
    0 <= k && k + t.len() <= s.len() && forall|i: int|
        0 <= i < t.len() ==> char_matches_lower(s[k + i], t[i])
}

/// The lowercase token `t` occurs somewhere in `s`, ignoring ASCII case.
pub open spec fn contains_token(s: Seq<char>, t: Seq<char>) -> bool {
    exists|k: int| token_at(s, t, k)
}

/// Exec search for a lowercase token, ignoring ASCII case.
pub fn contains_token_ci(s: &str, t: &str) -> (r: bool)
    requires
        t@.len() > 0,
    ensures
        r == contains_token(s@, t@),
{
    let slen = s.unicode_len();
    let tlen = t.unicode_len();
    if tlen > slen {
        proof {
            if contains_token(s@, t@) {
                let k = choose|k: int| token_at(s@, t@, k);
            }
        }
        return false;
    }
    let mut i: usize = 0;
    while i <= slen - tlen
        invariant
            slen == s@.len(),
            tlen == t@.len(),
            0 < tlen <= slen,
            i <= slen,
            forall|k: int| 0 <= k < i ==> !token_at(s@, t@, k),
        decreases slen - i,
    {
        let mut j: usize = 0;
        let mut hit = true;
        while j < tlen
            invariant
                slen == s@.len(),
                tlen == t@.len(),
                i + tlen <= slen,
                j <= tlen,
                hit == (forall|m: int| 0 <= m < j ==> char_matches_lower(s@[i + m], t@[m])),
            decreases tlen - j,
        {
            let sc = s.get_char(i + j) as u32;
            let tc = t.get_char(j) as u32;
            let m = sc == tc || (97 <= tc && tc <= 122 && sc + 32 == tc);
            if !m {
                proof {
                    assert(!char_matches_lower(s@[i + j as int], t@[j as int]));
                }
                hit = false;
                j = tlen;
            } else {
                j = j + 1;
            }
        }
        if hit {
            proof {
                assert(token_at(s@, t@, i as int));
            }
            return true;
        }
        i = i + 1;
    }
    proof {
        assert forall|k: int| !token_at(s@, t@, k) by {
            if token_at(s@, t@, k) {
                assert(k + t@.len() <= s@.len());
                assert(k < i);
            }
        }
    }
    false
}

/// Extensions recognised as audio, matched case-insensitively and as
/// substrings of the file extension.
pub open spec fn is_audio_ext(e: Seq<char>) -> bool {
    ||| contains_token(e, "flac"@)
    ||| contains_token(e, "mp3"@)
    ||| contains_token(e, "ogg"@)
    ||| contains_token(e, "m4a"@)
    ||| contains_token(e, "webm"@)
    ||| contains_token(e, "wav"@)
    ||| contains_token(e, "wv"@)
    ||| contains_token(e, "aac"@)
    ||| contains_token(e, "opus"@)
}

/// Extensions recognised as playlist manifests.
pub open spec fn is_playlist_ext(e: Seq<char>) -> bool {
    ||| contains_token(e, "m3u"@)
    ||| contains_token(e, "m3u8"@)
}

/// Exec audio-extension test, exact against [`is_audio_ext`].
pub fn is_audio_extension(e: &str) -> (r: bool)
    ensures
        r == is_audio_ext(e@),
{
    proof {
        reveal_strlit("flac");
        reveal_strlit("mp3");
        reveal_strlit("ogg");
        reveal_strlit("m4a");
        reveal_strlit("webm");
        reveal_strlit("wav");
        reveal_strlit("wv");
        reveal_strlit("aac");
        reveal_strlit("opus");
    }
    contains_token_ci(e, "flac") || contains_token_ci(e, "mp3") || contains_token_ci(e, "ogg")
        || contains_token_ci(e, "m4a") || contains_token_ci(e, "webm") || contains_token_ci(
        e,
        "wav",
    ) || contains_token_ci(e, "wv") || contains_token_ci(e, "aac") || contains_token_ci(e, "opus")
}

/// Exec playlist-extension test, exact against [`is_playlist_ext`].
pub fn is_playlist_extension(e: &str) -> (r: bool)
    ensures
        r == is_playlist_ext(e@),
{
    proof {
        reveal_strlit("m3u");
        reveal_strlit("m3u8");
    }
    contains_token_ci(e, "m3u") || contains_token_ci(e, "m3u8")
}

/// The extension of a file name: what follows the last `.`, provided that
/// dot is not the leading character.  Mirrors how paths name extensions.
pub open spec fn ext_search(s: Seq<char>, j: int) -> Option<Seq<char>>
    decreases j,
{
    if j < 1 {
        None
    } else if s[j] == '.' {
        Some(s.subrange(j + 1, s.len() as int))
    } else {
        ext_search(s, j - 1)
    }
}

/// The extension of the file name `s`, if any.
pub open spec fn ext_of(s: Seq<char>) -> Option<Seq<char>> {
    ext_search(s, s.len() - 1)
}

/// Exec extension extraction, exact against [`ext_of`].
pub fn extension_of(name: &str) -> (r: Option<String>)
    ensures
        match r {
            Some(e) => ext_of(name@) == Some(e@),
            None => ext_of(name@) == None::<Seq<char>>,
        },
{
    let len = name.unicode_len();
    if len == 0 {
        return None;
    }
    let mut j: usize = len - 1;
    while j >= 1
        invariant
            len == name@.len(),
            len > 0,
            j <= len - 1,
            ext_search(name@, len - 1) == ext_search(name@, j as int),
        decreases j,
    {
        if name.get_char(j) == '.' {
            let e = crate::strutil::sub_string(name, j + 1, len);
            return Some(e);
        }
        j = j - 1;
    }
    None
}

/// Classify one regular file into the file list by the extension of its
/// file name: audio candidates carry their path and size; playlist
/// manifests carry only their path.  A name whose extension names both sets
/// lands in both; one without an extension, or whose extension matches
/// neither set, is skipped.
pub fn push_classified(list: &mut FileList, path: &String, name: &str, size: u64)
    ensures
        entries_view(final(list).file_list@) == (match ext_of(name@) {
            Some(e) if is_audio_ext(e) => entries_view(old(list).file_list@).push((path@, size)),
            _ => entries_view(old(list).file_list@),
        }),
        paths_view(final(list).playlist_list@) == (match ext_of(name@) {
            Some(e) if is_playlist_ext(e) => paths_view(old(list).playlist_list@).push(path@),
            _ => paths_view(old(list).playlist_list@),
        }),
{
    let ext = extension_of(name);
    match ext {
        Some(e) => {
            if is_audio_extension(e.as_str()) {
                list.file_list.push((path.clone(), size));
                proof {
                    assert(entries_view(list.file_list@) =~= entries_view(
                        old(list).file_list@,
                    ).push((path@, size)));
                }
            }
            if is_playlist_extension(e.as_str()) {
                list.playlist_list.push(path.clone());
                proof {
                    assert(paths_view(list.playlist_list@) =~= paths_view(
                        old(list).playlist_list@,
                    ).push(path@));
                }
            }
        },
        None => {},
    }
}


/// `c` is a lowercase hexadecimal digit.
pub open spec fn is_hex_char(c: char) -> bool {
    (48 <= c as u32 <= 57) || (97 <= c as u32 <= 102)
}

/// The lowercase hex digest of the picture bytes, as the hashing crate
/// renders it.
pub uninterp spec fn blake3_hex(data: Seq<u8>) -> Seq<char>;

/// Relies on `blake3::hash` and `Hash::to_hex`: a fixed 32-byte digest
/// rendered as 64 lowercase hexadecimal characters, a function of the bytes
/// alone.
#[verifier::external_body]
fn hash_hex(data: &Vec<u8>) -> (r: String)
    ensures
        r@ == blake3_hex(data@),
        r@.len() == 64,
        forall|i: int| 0 <= i < r@.len() ==> is_hex_char(#[trigger] r@[i]),
{
    blake3::hash(data.as_slice()).to_hex().as_str().to_owned()
}

/// File name of the high-resolution copy of a picture: `<hex>.png`.
pub open spec fn high_name_spec(data: Seq<u8>) -> Seq<char> {
    blake3_hex(data) + ".png"@
}

/// File name of the low-resolution copy of a picture: `<hex>-low.png`.
pub open spec fn low_name_spec(data: Seq<u8>) -> Seq<char> {
    blake3_hex(data) + "-low.png"@
}

/// The content-addressed file names a picture is stored under.
pub fn thumbnail_names(data: &Vec<u8>) -> (r: (String, String))
    ensures
        r.0@ == high_name_spec(data@),
        r.1@ == low_name_spec(data@),
        r.0@.len() == 68,
        r.1@.len() == 72,
{
    let hex = hash_hex(data);
    let mut high = hex.clone();
    high.append(".png");
    let mut low = hex;
    low.append("-low.png");
    proof {
        reveal_strlit(".png");
        reveal_strlit("-low.png");
    }
    (high, low)
}

/// The thumbnail store is content-addressed: two pictures with the same
/// bytes are stored under the same pair of names, so a cover that is already
/// present is never written again under a new name.
pub proof fn lemma_thumbnails_content_addressed(a: Seq<u8>, b: Seq<u8>)
    requires
        a == b,
    ensures
        high_name_spec(a) == high_name_spec(b),
        low_name_spec(a) == low_name_spec(b),
{
}

/// What the image codec decodes the picture bytes to: width, height, and an
/// RGBA8 pixel buffer.
pub uninterp spec fn decoded_rgba(data: Seq<u8>) -> (u32, u32, Seq<u8>);

/// Whether the image codec can decode the picture bytes at all; decoding is
/// a function of the bytes alone.
pub uninterp spec fn rgba_decodable(data: Seq<u8>) -> bool;

/// The 80 x 80 nearest-neighbour shrink of an RGBA8 buffer.
pub uninterp spec fn low_pixels_of(w: u32, h: u32, px: Seq<u8>) -> Seq<u8>;

/// The PNG encoding of an RGBA8 buffer.
pub uninterp spec fn png_bytes_of(w: u32, h: u32, px: Seq<u8>) -> Seq<u8>;

/// Relies on `image::load_from_memory` and `DynamicImage::to_rgba8`: decodes
/// any supported format into an RGBA8 buffer of `width * height * 4` bytes.
/// Whether it succeeds, and what it yields, are functions of the encoded
/// bytes alone; a failure is reported as the codec's error.
#[verifier::external_body]
fn decode_rgba(data: &Vec<u8>) -> (r: Result<(u32, u32, Vec<u8>), ScanError>)
    ensures
        (r is Ok) == rgba_decodable(data@),
        r matches Ok((w, h, px)) ==> (w, h, px@) == decoded_rgba(data@) && px@.len() == w * h * 4,
        r matches Err(e) ==> e is ImageError,
{
    match image::load_from_memory(data.as_slice()) {
        Ok(img) => {
            let (w, h) = (img.width(), img.height());
            Ok((w, h, img.to_rgba8().into_raw()))
        },
        Err(e) => Err(ScanError::ImageError(format!("{:?}", e))),
    }
}

/// Relies on `fast_image_resize`'s `Image`, `Resizer` and nearest-neighbour
/// algorithm: shrinks an RGBA8 buffer to 80 x 80.  The result depends on the
/// dimensions and pixels alone.
#[verifier::external_body]
fn resize_to_low(w: u32, h: u32, px: Vec<u8>) -> (r: Result<Vec<u8>, ScanError>)
    requires
        w >= 1,
        h >= 1,
        px@.len() == w * h * 4,
        w * h <= u32::MAX,
    ensures
        r matches Ok(v) ==> v@ == low_pixels_of(w, h, px@) && v@.len() == 80 * 80 * 4,
{
    let (wn, hn, en) = (NonZeroU32::new(w).unwrap(), NonZeroU32::new(h).unwrap(), NonZeroU32::new(80).unwrap());
    let src = fr::Image::from_vec_u8(wn, hn, px, fr::PixelType::U8x4)
        .map_err(|e| ScanError::ImageBufferError(format!("{:?}", e)))?;
    let mut dst = fr::Image::new(en, en, src.pixel_type());
    let mut dst_view = dst.view_mut();
    fr::Resizer::new(fr::ResizeAlg::Nearest).resize(&src.view(), &mut dst_view)
        .map_err(|e| ScanError::DifferentTypesOfPixelsError(format!("{:?}", e)))?;
    Ok(dst.into_vec())
}

/// Relies on `image`'s `PngEncoder`: encodes an RGBA8 buffer as PNG bytes, a
/// function of the dimensions and pixels alone.
#[verifier::external_body]
fn encode_png(w: u32, h: u32, px: &Vec<u8>) -> (r: Result<Vec<u8>, ScanError>)
    requires
        w >= 1,
        h >= 1,
        px@.len() == w * h * 4,
    ensures
        r matches Ok(v) ==> v@ == png_bytes_of(w, h, px@),
{
    let mut out: Vec<u8> = Vec::new();
    let enc = image::codecs::png::PngEncoder::new(&mut out);
    match image::ImageEncoder::write_image(enc, px.as_slice(), w, h, image::ColorType::Rgba8) {
        Ok(()) => Ok(out),
        Err(e) => Err(ScanError::ImageError(format!("{:?}", e))),
    }
}

/// The decoded picture is degenerate or too large to resize: a zero
/// dimension, or a pixel count beyond the resizer's 32-bit buffer sizes.
pub open spec fn undecodable_shape(data: Seq<u8>) -> bool {
    ||| decoded_rgba(data).0 == 0
    ||| decoded_rgba(data).1 == 0
    ||| decoded_rgba(data).0 * decoded_rgba(data).1 > u32::MAX
}

/// Transcode picture bytes into the low-resolution cover: decode, shrink to
/// 80 x 80 with nearest-neighbour sampling, and encode as PNG.  Bytes the
/// codec rejects fail with the codec's error; a decoded image with a zero
/// dimension or too many pixels to resize fails with a buffer error.  On the
/// remaining inputs success is not promised: the resizer may still refuse a
/// misaligned pixel buffer (an allocation property, not one of the bytes)
/// and the encoder may report a write failure; either is passed through.
pub fn make_low_thumbnail(data: &Vec<u8>) -> (r: Result<Vec<u8>, ScanError>)
    ensures
        r matches Ok(png) ==> png@ == png_bytes_of(
            80,
            80,
            low_pixels_of(decoded_rgba(data@).0, decoded_rgba(data@).1, decoded_rgba(data@).2),
        ),
        r is Ok ==> rgba_decodable(data@) && !undecodable_shape(data@),
        !rgba_decodable(data@) ==> (r matches Err(e) && e is ImageError),
        (rgba_decodable(data@) && undecodable_shape(data@)) ==> (r matches Err(e)
            && e is ImageBufferError),
{
    let (w, h, px) = match decode_rgba(data) {
        Ok(t) => t,
        Err(e) => {
            return Err(e);
        },
    };
    if w == 0 || h == 0 {
        return Err(ScanError::ImageBufferError("degenerate image dimensions".to_owned()));
    }
    proof {
        assert((w as u64) * (h as u64) <= u64::MAX) by (nonlinear_arith)
            requires
                w <= u32::MAX,
                h <= u32::MAX,
        ;
    }
    if (w as u64) * (h as u64) > (u32::MAX as u64) {
        return Err(ScanError::ImageBufferError("image too large to resize".to_owned()));
    }
    let low = match resize_to_low(w, h, px) {
        Ok(v) => v,
        Err(e) => {
            return Err(e);
        },
    };
    encode_png(80, 80, &low)
}


/// A lyrics timestamp `[MM:SS.hh]`: bracketed digit pairs with a dot
/// between the seconds and the hundredths.
pub open spec fn stamp_at(s: Seq<char>, k: int) -> bool {
    &&& 0 <= k
    &&& k + 10 <= s.len()
    &&& s[k] == '['
    &&& crate::numbers::is_digit(s[k + 1])
    &&& crate::numbers::is_digit(s[k + 2])
    &&& s[k + 3] == ':'
    &&& crate::numbers::is_digit(s[k + 4])
    &&& crate::numbers::is_digit(s[k + 5])
    &&& s[k + 6] == '.'
    &&& crate::numbers::is_digit(s[k + 7])
    &&& crate::numbers::is_digit(s[k + 8])
    &&& s[k + 9] == ']'
}

/// Position of the first timestamp in `s` at or after `j`.
pub open spec fn first_stamp_from(s: Seq<char>, j: int) -> Option<int>
    decreases s.len() - j,
{
    if j < 0 || j + 10 > s.len() {
        None
    } else if stamp_at(s, j) {
        Some(j)
    } else {
        first_stamp_from(s, j + 1)
    }
}

proof fn lemma_first_stamp_step(s: Seq<char>, j: int, end: int)
    requires
        0 <= j <= end <= s.len(),
        forall|k: int| j <= k < end ==> !stamp_at(s, k),
    ensures
        first_stamp_from(s, j) == first_stamp_from(s, end),
    decreases end - j,
{
    if j < end {
        lemma_first_stamp_step(s, j + 1, end);
    }
}

/// Exec digit test.
fn is_digit_char(c: char) -> (r: bool)
    ensures
        r == crate::numbers::is_digit(c),
{
    let u = c as u32;
    48 <= u && u <= 57
}

/// Exec scan for the first timestamp in `s` at or after `from`, exact
/// against [`first_stamp_from`].
fn find_stamp_from(s: &str, from: usize) -> (r: Option<usize>)
    requires
        from <= s@.len(),
    ensures
        first_stamp_from(s@, from as int) == (match r {
            Some(i) => Some(i as int),
            None => None::<int>,
        }),
        r matches Some(i) ==> from <= i && stamp_at(s@, i as int),
{
    let len = s.unicode_len();
    if len < 10 {
        proof {
            lemma_first_stamp_step(s@, from as int, s@.len() as int);
        }
        return None;
    }
    let mut i: usize = from;
    while i <= len - 10
        invariant
            len == s@.len(),
            10 <= len,
            from <= i <= len,
            forall|k: int| from <= k < i ==> !stamp_at(s@, k),
        decreases len - i,
    {
        let hit = s.get_char(i) == '[' && is_digit_char(s.get_char(i + 1)) && is_digit_char(
            s.get_char(i + 2),
        ) && s.get_char(i + 3) == ':' && is_digit_char(s.get_char(i + 4)) && is_digit_char(
            s.get_char(i + 5),
        ) && s.get_char(i + 6) == '.' && is_digit_char(s.get_char(i + 7)) && is_digit_char(
            s.get_char(i + 8),
        ) && s.get_char(i + 9) == ']';
        if hit {
            proof {
                lemma_first_stamp_step(s@, from as int, i as int);
            }
            return Some(i);
        }
        proof {
            assert(!stamp_at(s@, i as int));
        }
        i = i + 1;
    }
    proof {
        assert forall|k: int| from <= k < s@.len() implies !stamp_at(s@, k) by {
            if k >= i {
                assert(k + 10 > s@.len());
            }
        }
        lemma_first_stamp_step(s@, from as int, s@.len() as int);
    }
    None
}

/// `s` with every timestamp removed, left to right.
pub open spec fn strip_stamps(s: Seq<char>) -> Seq<char>
    decreases s.len(),
{
    match first_stamp_from(s, 0) {
        None => s,
        Some(k) => if 0 <= k && k + 10 <= s.len() {
            s.subrange(0, k) + strip_stamps(s.subrange(k + 10, s.len() as int))
        } else {
            s
        },
    }
}

/// Timestamps shift with the window onto the string.
proof fn lemma_stamp_shift(s: Seq<char>, start: int, k: int)
    requires
        0 <= start <= s.len(),
        0 <= k,
    ensures
        stamp_at(s.subrange(start, s.len() as int), k) == stamp_at(s, k + start),
{
}

/// Exec removal of every timestamp, exact against [`strip_stamps`].
fn strip_stamps_exec(s: &str) -> (r: String)
    ensures
        r@ == strip_stamps(s@),
{
    let len = s.unicode_len();
    let mut out = String::new();
    let mut start: usize = 0;
    let mut done = false;
    proof {
        assert(s@.subrange(0, len as int) =~= s@);
        assert(out@ + strip_stamps(s@) =~= strip_stamps(s@));
    }
    while !done
        invariant
            len == s@.len(),
            done ==> strip_stamps(s@) == out@,
            !done ==> start <= len && strip_stamps(s@) == out@ + strip_stamps(
                s@.subrange(start as int, len as int),
            ),
        decreases (if done {
            0int
        } else {
            len - start + 1
        }),
    {
        let ghost suffix = s@.subrange(start as int, len as int);
        let found = find_stamp_from(s, start);
        proof {
            lemma_first_stamp_window(s@, start as int, 0);
        }
        match found {
            Some(p) => {
                let piece = crate::strutil::sub_string(s, start, p);
                out.append(piece.as_str());
                proof {
                    assert(suffix.subrange(0, p - start) =~= s@.subrange(start as int, p as int));
                    assert(suffix.subrange(10 + (p - start), suffix.len() as int) =~= s@.subrange(
                        p + 10,
                        len as int,
                    ));
                    assert(out@ + strip_stamps(s@.subrange(p + 10, len as int)) =~= strip_stamps(
                        s@,
                    ));
                }
                start = p + 10;
            },
            None => {
                let piece = crate::strutil::sub_string(s, start, len);
                out.append(piece.as_str());
                proof {
                    assert(out@ =~= strip_stamps(s@));
                }
                done = true;
            },
        }
    }
    out
}

/// Searching a window for a timestamp is searching the whole, shifted.
proof fn lemma_first_stamp_window(s: Seq<char>, start: int, j: int)
    requires
        0 <= start <= s.len(),
        0 <= j,
    ensures
        first_stamp_from(s.subrange(start, s.len() as int), j) == (match first_stamp_from(
            s,
            start + j,
        ) {
            Some(k) => Some(k - start),
            None => None::<int>,
        }),
    decreases s.len() - start - j,
{
    let suffix = s.subrange(start, s.len() as int);
    lemma_stamp_shift(s, start, j);
    if j + 10 > suffix.len() {
    } else if stamp_at(suffix, j) {
    } else {
        lemma_first_stamp_window(s, start, j + 1);
    }
}

/// What a sidecar lyrics file contributes, line by line: lines carrying a
/// timestamp are kept with every timestamp removed and a newline appended;
/// other lines are dropped.
pub open spec fn lrc_lines(lines: Seq<Seq<char>>, i: int) -> Seq<char>
    decreases lines.len() - i,
{
    if i < 0 || i >= lines.len() {
        Seq::empty()
    } else {
        let rest = lrc_lines(lines, i + 1);
        if first_stamp_from(lines[i], 0) is Some {
            strip_stamps(lines[i]) + "\n"@ + rest
        } else {
            rest
        }
    }
}

/// The lyrics a sidecar file parses to.
pub open spec fn parse_lrc_spec(content: Seq<char>) -> Seq<char> {
    lrc_lines(crate::strutil::split_clean(content, "\n"@, false), 0)
}

/// Parse the contents of a sidecar lyrics file: keep the timestamped lines,
/// timestamps removed; a file without a single timestamped line yields the
/// empty string.
pub fn parse_lrc(content: &str) -> (r: String)
    ensures
        r@ == parse_lrc_spec(content@),
{
    let lines = crate::strutil::split_clean_vec(content, "\n", false);
    let ghost lv = crate::strutil::strings_view(lines@);
    let mut out = String::new();
    let mut i: usize = 0;
    proof {
        assert(out@ + lrc_lines(lv, 0) =~= lrc_lines(lv, 0));
    }
    while i < lines.len()
        invariant
            lv == crate::strutil::strings_view(lines@),
            i <= lines@.len(),
            parse_lrc_spec(content@) == out@ + lrc_lines(lv, i as int),
        decreases lines@.len() - i,
    {
        let line = &lines[i];
        proof {
            assert(lv[i as int] == line@);
        }
        let found = find_stamp_from(line.as_str(), 0);
        let ghost pre = out@;
        match found {
            Some(_) => {
                let stripped = strip_stamps_exec(line.as_str());
                out.append(stripped.as_str());
                out.append("\n");
                proof {
                    assert(lrc_lines(lv, i as int) == strip_stamps(lv[i as int]) + "\n"@
                        + lrc_lines(lv, i + 1));
                    assert(pre + lrc_lines(lv, i as int) =~= out@ + lrc_lines(lv, i + 1));
                }
            },
            None => {},
        }
        i = i + 1;
    }
    proof {
        assert(lrc_lines(lv, i as int) == Seq::<char>::empty());
        assert(out@ + Seq::<char>::empty() =~= out@);
    }
    out
}

/// A sidecar without a single timestamped line contributes nothing: the
/// parsed lyrics are empty.
pub proof fn lemma_lrc_without_stamps(lines: Seq<Seq<char>>, i: int)
    requires
        forall|j: int| 0 <= j < lines.len() ==> first_stamp_from(#[trigger] lines[j], 0) == (None::<int>),
    ensures
        lrc_lines(lines, i).len() == 0,
    decreases lines.len() - i,
{
    if 0 <= i < lines.len() {
        lemma_lrc_without_stamps(lines, i + 1);
    }
}


/// A value-preserving copy of an optional string.
fn clone_opt(o: &Option<String>) -> (r: Option<String>)
    ensures
        r == *o,
{
    match o {
        Some(s) => Some(s.clone()),
        None => None,
    }
}

/// One artist record, with a fresh identifier, per given name.
pub(crate) fn artists_of_names(names: Vec<String>) -> (r: Vec<Artists>)
    ensures
        crate::playlist_scanner::artist_names(r@) == crate::strutil::strings_view(names@),
        forall|i: int| 0 <= i < r@.len() ==> (#[trigger] r@[i]).artist_id@.len() == 36,
{
    let mut out: Vec<Artists> = Vec::new();
    proof {
        assert(crate::playlist_scanner::artist_names(out@) =~= crate::strutil::strings_view(
            names@,
        ).take(0));
    }
    let mut k: usize = 0;
    while k < names.len()
        invariant
            k <= names@.len(),
            crate::playlist_scanner::artist_names(out@) == crate::strutil::strings_view(
                names@,
            ).take(k as int),
            forall|i: int| 0 <= i < out@.len() ==> (#[trigger] out@[i]).artist_id@.len() == 36,
        decreases names@.len() - k,
    {
        let a = Artists { artist_id: new_uuid(), artist_name: names[k].clone() };
        let ghost before = out@;
        let ghost ga = a;
        out.push(a);
        proof {
            assert(crate::playlist_scanner::artist_names(before).len() == before.len());
            assert(crate::playlist_scanner::artist_names(before).len() == k);
            assert(out@ == before.push(ga));
            assert forall|i: int|
                0 <= i < k + 1 implies crate::playlist_scanner::artist_names(out@)[i]
                == crate::strutil::strings_view(names@).take(k + 1)[i] by {
                assert(out@.len() == k + 1);
                assert(crate::playlist_scanner::artist_names(out@)[i] == out@[i].artist_name@);
                if i < k {
                    assert(out@[i] == before[i]);
                    assert(crate::playlist_scanner::artist_names(before)[i]
                        == before[i].artist_name@);
                } else {
                    assert(out@[i] == ga);
                }
            }
            assert(crate::playlist_scanner::artist_names(out@) =~= crate::strutil::strings_view(
                names@,
            ).take(k + 1));
        }
        k = k + 1;
    }
    proof {
        assert(crate::strutil::strings_view(names@).take(names@.len() as int)
            =~= crate::strutil::strings_view(names@));
    }
    out
}

/// Names of the artists a tag's artist field yields under the splitter:
/// split, trim each piece, keep the non-empty ones.
pub open spec fn tag_artist_names(artist: Option<Seq<char>>, split: Seq<char>) -> Seq<Seq<char>> {
    match artist {
        None => Seq::empty(),
        Some(s) => crate::strutil::split_clean(s, split, true),
    }
}

/// Build a local song record from what was read off the file: properties,
/// the preferred tag (if any), the cover paths the thumbnail store yielded,
/// and sidecar lyrics.  Every field is pinned: properties always carry over
/// (bitrate converted from kbps to bps, missing treated as zero; duration in
/// whole seconds converted to milliseconds); the tagged fields are set only
/// when a tag is present; lyrics prefer the tag and fall back to the
/// sidecar.
pub fn build_song(
    path: String,
    size: u32,
    playlist_id: Option<String>,
    props: &AudioProps,
    tag: Option<TagData>,
    artist_split: &str,
    covers: (Option<String>, Option<String>),
    sidecar_lyrics: Option<String>,
) -> (song: Song)
    requires
        path@.len() > 0,
        (props.bitrate_kbps matches Some(k) ==> k * 1000 <= u32::MAX),
        props.duration_secs * 1000 <= u64::MAX,
    ensures
        song._id@.len() == 36,
        ov(song.path) == Some(path@),
        song.path matches Some(p) && p@.len() > 0,
        song.size == Some(size),
        song.playlist_id == playlist_id,
        song.bitrate == Some(
            (match props.bitrate_kbps {
                Some(k) => k * 1000,
                None => 0int,
            }) as u32,
        ),
        song.sample_rate == props.sample_rate,
        song.duration_ms == Some((props.duration_secs * 1000) as u64),
        song.song_type@ == "LOCAL"@,
        song.playback_url is None,
        match tag {
            None => {
                &&& song.title is None
                &&& song.artists@.len() == 0
                &&& song.album is None
                &&& song.year is None
                &&& song.genre is None
                &&& song.lyrics is None
                &&& song.track_no is None
                &&& song.high_path is None
                &&& song.low_path is None
            },
            Some(t) => {
                &&& song.title == t.title
                &&& crate::playlist_scanner::artist_names(song.artists@) == tag_artist_names(
                    ov(t.artist),
                    artist_split@,
                )
                &&& (forall|i: int|
                    0 <= i < song.artists@.len() ==> (#[trigger] song.artists@[i]).artist_id@.len()
                        == 36)
                &&& song.high_path == covers.0
                &&& song.low_path == covers.1
                &&& song.lyrics == (if t.lyrics is Some {
                    t.lyrics
                } else {
                    sidecar_lyrics
                })
                &&& song.track_no == t.track_no
                &&& (match t.year {
                    Some(y) => song.year matches Some(ys) && ys@ == crate::numbers::dec_of(
                        y as nat,
                    ),
                    None => song.year is None,
                })
                &&& (match t.genre {
                    Some(g) => song.genre matches Some(v) && v@.len() == 1 && v@[0] == g,
                    None => song.genre is None,
                })
                &&& (match t.album {
                    Some(al) => song.album matches Some(a) && a.album_name == al
                        && a.album_id@.len() == 36 && a.album_cover_path_high == covers.0
                        && a.album_cover_path_low == covers.1,
                    None => song.album is None,
                })
            },
        },
{
    let bitrate: u32 = match props.bitrate_kbps {
        Some(k) => k * 1000,
        None => 0,
    };
    let mut song = Song {
        _id: new_uuid(),
        bitrate: Some(bitrate),
        sample_rate: props.sample_rate,
        duration_ms: Some(props.duration_secs * 1000),
        path: Some(path),
        size: Some(size),
        title: None,
        album: None,
        artists: Vec::new(),
        year: None,
        genre: None,
        lyrics: None,
        track_no: None,
        high_path: None,
        low_path: None,
        song_type: "LOCAL".to_owned(),
        playlist_id,
        playback_url: None,
    };
    match tag {
        None => song,
        Some(t) => {
            song.title = t.title;
            song.artists = match &t.artist {
                Some(astr) => artists_of_names(
                    crate::strutil::split_clean_vec(astr.as_str(), artist_split, true),
                ),
                None => Vec::new(),
            };
            song.high_path = clone_opt(&covers.0);
            song.low_path = clone_opt(&covers.1);
            song.lyrics = if t.lyrics.is_some() {
                t.lyrics
            } else {
                sidecar_lyrics
            };
            song.track_no = t.track_no;
            song.year = match t.year {
                Some(y) => Some(crate::numbers::u32_to_string(y)),
                None => None,
            };
            song.genre = match t.genre {
                Some(g) => {
                    let mut v: Vec<String> = Vec::new();
                    v.push(g);
                    Some(v)
                },
                None => None,
            };
            song.album = match t.album {
                Some(al) => Some(
                    Album {
                        album_id: new_uuid(),
                        album_name: al,
                        album_cover_path_high: covers.0,
                        album_cover_path_low: covers.1,
                    },
                ),
                None => None,
            };
            proof {
                assert(crate::playlist_scanner::artist_names(Seq::<Artists>::empty())
                    =~= Seq::<Seq<char>>::empty());
            }
            song
        },
    }
}

/// The file stem names a cover image: lowercased, it starts with `cover`.
pub open spec fn stem_is_cover(stem: Seq<char>) -> bool {
    token_at(stem, "cover"@, 0)
}

/// Exec test for the cover heuristic, exact against [`stem_is_cover`].
fn stem_names_cover(stem: &str) -> (r: bool)
    ensures
        r == stem_is_cover(stem@),
{
    proof {
        reveal_strlit("cover");
    }
    let len = stem.unicode_len();
    if len < 5 {
        return false;
    }
    let pat = "cover";
    let mut j: usize = 0;
    let mut hit = true;
    while j < 5
        invariant
            len == stem@.len(),
            5 <= len,
            pat@ =~= "cover"@,
            pat@.len() == 5,
            j <= 5,
            hit == (forall|m: int| 0 <= m < j ==> char_matches_lower(stem@[m], pat@[m])),
        decreases 5 - j,
    {
        let sc = stem.get_char(j) as u32;
        let tc = pat.get_char(j) as u32;
        let m = sc == tc || (97 <= tc && tc <= 122 && sc + 32 == tc);
        if !m {
            proof {
                assert(!char_matches_lower(stem@[j as int], pat@[j as int]));
            }
            hit = false;
            j = 5;
        } else {
            j = j + 1;
        }
    }
    hit
}

/// The sidecar cover heuristic: among a directory's entries, given as
/// `(file stem, path)` pairs in directory order, the path of the first
/// whose stem names a cover.
pub fn choose_cover(entries: &Vec<(String, String)>) -> (r: Option<String>)
    ensures
        match r {
            Some(p) => exists|i: int|
                0 <= i < entries@.len() && stem_is_cover(#[trigger] entries@[i].0@) && p@
                    == entries@[i].1@ && forall|j: int| 0 <= j < i ==> !stem_is_cover(
                    entries@[j].0@,
                ),
            None => forall|i: int| 0 <= i < entries@.len() ==> !stem_is_cover(
                #[trigger] entries@[i].0@,
            ),
        },
{
    let mut i: usize = 0;
    while i < entries.len()
        invariant
            i <= entries@.len(),
            forall|j: int| 0 <= j < i ==> !stem_is_cover(#[trigger] entries@[j].0@),
        decreases entries@.len() - i,
    {
        if stem_names_cover(entries[i].0.as_str()) {
            let p = entries[i].1.clone();
            return Some(p);
        }
        i = i + 1;
    }
    None
}

} // verus!
