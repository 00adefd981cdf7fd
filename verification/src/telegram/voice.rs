//! Voice files: the size bounds checked before and after downloading, and
//! the file name handed to the transcription provider.

use vstd::prelude::*;

use crate::decimal::{decimal_int, fmt_i64, fmt_u64};
use crate::domain::error::{Error, Result};
use crate::text::{chars_of, concat, push_char, string_of, str_eq, to_string};

verus! {

/// Telegram caps `getFile` downloads at 20 MB. Larger payloads are refused
/// early so no time is wasted downloading something a provider will refuse.
pub const MAX_VOICE_BYTES: usize = 20_971_520;

/// The characters after the last `/` of `s` (all of `s` when it has none).
pub open spec fn after_last_slash(s: Seq<char>) -> Seq<char>
    decreases s.len(),
{
    if s.len() == 0 {
        s
    } else if s.last() == '/' {
        Seq::empty()
    } else {
        after_last_slash(s.drop_last()).push(s.last())
    }
}

/// The extension used for a voice file of the given MIME type.
pub open spec fn mime_extension(mime: Option<Seq<char>>) -> Seq<char> {
    if mime == Some("audio/ogg"@) {
        "oga"@
    } else if mime == Some("audio/mpeg"@) {
        "mp3"@
    } else if mime == Some("audio/mp4"@) {
        "m4a"@
    } else if mime == Some("audio/wav"@) || mime == Some("audio/x-wav"@) {
        "wav"@
    } else if mime == Some("audio/webm"@) {
        "webm"@
    } else {
        "ogg"@
    }
}

/// The file name for a voice file stored at `file_path`: its last path
/// segment (`voice` when that is empty), with an extension taken from the
/// MIME type when the segment has none.
pub open spec fn filename_for(file_path: Seq<char>, mime: Option<Seq<char>>) -> Seq<char> {
    let seg = after_last_slash(file_path);
    let base = if seg.len() == 0 {
        "voice"@
    } else {
        seg
    };
    if base.contains('.') {
        base
    } else {
        base + "."@ + mime_extension(mime)
    }
}

/// The view of an optional string.
pub open spec fn opt_view(s: Option<&str>) -> Option<Seq<char>> {
    match s {
        Some(t) => Some(t@),
        None => None,
    }
}

proof fn lemma_after_last_slash_at(s: Seq<char>, k: int)
    requires
        0 <= k <= s.len(),
        k == 0 || s[k - 1] == '/',
        forall|j: int| k <= j < s.len() ==> s[j] != '/',
    ensures
        after_last_slash(s) == s.subrange(k, s.len() as int),
    decreases s.len(),
{
    if s.len() == 0 {
    } else if s.len() as int == k {
        assert(s.subrange(k, k) =~= Seq::<char>::empty());
    } else {
        let t = s.drop_last();
        lemma_after_last_slash_at(t, k);
        assert(s.subrange(k, s.len() as int) =~= t.subrange(k, t.len() as int).push(s.last()));
    }
}

fn mime_ext(mime: Option<&str>) -> (r: &'static str)
    ensures
        r@ == mime_extension(opt_view(mime)),
{
    match mime {
        Some(m) => {
            if str_eq(m, "audio/ogg") {
                "oga"
            } else if str_eq(m, "audio/mpeg") {
                "mp3"
            } else if str_eq(m, "audio/mp4") {
                "m4a"
            } else if str_eq(m, "audio/wav") || str_eq(m, "audio/x-wav") {
                "wav"
            } else if str_eq(m, "audio/webm") {
                "webm"
            } else {
                "ogg"
            }
        },
        None => "ogg",
    }
}

/// The file name to hand the transcription provider, which detects the audio
/// container from the extension.
pub fn derive_filename(file_path: &str, mime_type: Option<&str>) -> (r: String)
    ensures
        r@ == filename_for(file_path@, opt_view(mime_type)),
{
    let v = chars_of(file_path);
    let mut k: usize = v.len();
    while k > 0 && v[k - 1] != '/'
        invariant
            k <= v.len(),
            forall|j: int| k <= j < v.len() ==> v@[j] != '/',
        decreases k,
    {
        k = k - 1;
    }
    proof {
        lemma_after_last_slash_at(v@, k as int);
    }
    let mut base: Vec<char> = Vec::new();
    let mut i: usize = k;
    let mut has_dot = false;
    while i < v.len()
        invariant
            k <= i <= v.len(),
            base@ == v@.subrange(k as int, i as int),
            has_dot == base@.contains('.'),
        decreases v.len() - i,
    {
        let ghost prev = base@;
        if v[i] == '.' {
            has_dot = true;
        }
        base.push(v[i]);
        proof {
            assert(base@ =~= v@.subrange(k as int, i + 1));
            if has_dot && !prev.contains('.') {
                assert(base@[prev.len() as int] == '.');
            }
            if base@.contains('.') && v@[i as int] != '.' {
                let j = choose|j: int| 0 <= j < base@.len() && base@[j] == '.';
                assert(prev[j] == '.');
            }
        }
        i = i + 1;
    }
    let mut name = if base.len() == 0 {
        to_string("voice")
    } else {
        string_of(&base)
    };
    proof {
        reveal_strlit("voice");
        if base.len() == 0 {
            assert(!"voice"@.contains('.')) by {
                if "voice"@.contains('.') {
                    let j = choose|j: int| 0 <= j < "voice"@.len() && "voice"@[j] == '.';
                }
            }
        }
    }
    if base.len() > 0 && has_dot {
        return name;
    }
    let ghost before = name@;
    push_char(&mut name, '.');
    name.append(mime_ext(mime_type));
    proof {
        reveal_strlit(".");
        assert(name@ =~= before + "."@ + mime_extension(opt_view(mime_type)));
    }
    name
}

/// The message for a voice file of `size` bytes that is over the cap.
pub open spec fn reported_size_message(size: i64) -> Seq<char> {
    "voice file is "@ + decimal_int(size as int) + " bytes; Telegram getFile cap is "@
        + decimal_int(MAX_VOICE_BYTES as int)
}

/// The message for a downloaded voice file of `len` bytes that is over the cap.
pub open spec fn downloaded_size_message(len: usize) -> Seq<char> {
    "voice file is "@ + decimal_int(len as int) + " bytes; cap is "@ + decimal_int(
        MAX_VOICE_BYTES as int,
    )
}

/// Refuses a file whose size, as `getFile` reports it, is over the cap. The
/// size is read as a `usize`, so a negative size counts as over the cap.
pub fn check_reported_size(file_size: Option<i64>) -> (r: Result<()>)
    ensures
        match file_size {
            Some(size) if (size as usize) > MAX_VOICE_BYTES => (r matches Err(
                Error::Transcription(m),
            ) && m@ == reported_size_message(size)),
            _ => r is Ok,
        },
{
    if let Some(size) = file_size {
        #[verifier::truncate]
        let as_len = size as usize;
        if as_len > MAX_VOICE_BYTES {
            let mut m = concat("voice file is ", fmt_i64(size).as_str());
            m.append(" bytes; Telegram getFile cap is ");
            m.append(fmt_u64(MAX_VOICE_BYTES as u64).as_str());
            return Err(Error::Transcription(m));
        }
    }
    Ok(())
}

/// Refuses a downloaded file of `len` bytes when it is over the cap.
pub fn check_downloaded_size(len: usize) -> (r: Result<()>)
    ensures
        len > MAX_VOICE_BYTES ==> (r matches Err(Error::Transcription(m))
            && m@ == downloaded_size_message(len)),
        len <= MAX_VOICE_BYTES ==> r is Ok,
{
    if len > MAX_VOICE_BYTES {
        let mut m = concat("voice file is ", fmt_u64(len as u64).as_str());
        m.append(" bytes; cap is ");
        m.append(fmt_u64(MAX_VOICE_BYTES as u64).as_str());
        return Err(Error::Transcription(m));
    }
    Ok(())
}

} // verus!
