//! Kinds and sources of media.

use crate::scan;
use crate::text;
use vstd::prelude::*;

verus! {

#[derive(Debug, Clone, Copy)]
pub enum MediaType {
    Video,
    Audio,
    Application,
    Unknown,
}

#[derive(Debug)]
pub enum MediaSource {
    Url(String),
    Blob(String),
    File(std::path::PathBuf),
    DataUri(String),
}

/// `std::path::PathBuf::clone` returns the same path.
pub assume_specification[ <std::path::PathBuf as Clone>::clone ](
    path: &std::path::PathBuf,
) -> (r: std::path::PathBuf)
    ensures
        r == *path,
;

impl Clone for MediaSource {
    fn clone(&self) -> (r: MediaSource)
        ensures
            r == *self,
    {
        match self {
            MediaSource::Url(s) => MediaSource::Url(s.clone()),
            MediaSource::Blob(s) => MediaSource::Blob(s.clone()),
            MediaSource::File(p) => MediaSource::File(p.clone()),
            MediaSource::DataUri(s) => MediaSource::DataUri(s.clone()),
        }
    }
}

/// Whether a MIME type is one that may be played.
pub open spec fn playable(mime: Seq<char>) -> bool {
    ||| mime == "video/mp4"@
    ||| mime == "video/webm"@
    ||| mime == "video/ogg"@
    ||| mime == "video/quicktime"@
    ||| mime == "audio/mpeg"@
    ||| mime == "audio/ogg"@
    ||| mime == "audio/wav"@
    ||| mime == "audio/webm"@
    ||| mime == "audio/aac"@
}

impl MediaType {
    /// The kind that the first part of a MIME type names.
    pub fn from_mime(mime: &str) -> (r: MediaType)
        ensures
            r == if text::starts_with(mime@, "video/"@) {
                MediaType::Video
            } else if text::starts_with(mime@, "audio/"@) {
                MediaType::Audio
            } else if text::starts_with(mime@, "application/"@) {
                MediaType::Application
            } else {
                MediaType::Unknown
            },
    {
        let chars = scan::chars_of(mime);
        if scan::begins_with(&chars, "video/") {
            MediaType::Video
        } else if scan::begins_with(&chars, "audio/") {
            MediaType::Audio
        } else if scan::begins_with(&chars, "application/") {
            MediaType::Application
        } else {
            MediaType::Unknown
        }
    }

    /// `"maybe"` for a MIME type that may be played, and nothing for any other.
    pub fn can_play_type(mime: &str) -> (r: &'static str)
        ensures
            r@ == if playable(mime@) {
                "maybe"@
            } else {
                ""@
            },
    {
        let chars = scan::chars_of(mime);
        if scan::equals_str(&chars, "video/mp4") || scan::equals_str(&chars, "video/webm")
            || scan::equals_str(&chars, "video/ogg") || scan::equals_str(&chars, "video/quicktime")
            || scan::equals_str(&chars, "audio/mpeg") || scan::equals_str(&chars, "audio/ogg")
            || scan::equals_str(&chars, "audio/wav") || scan::equals_str(&chars, "audio/webm")
            || scan::equals_str(&chars, "audio/aac") {
            "maybe"
        } else {
            ""
        }
    }
}

/// What may be played is video or audio.
pub proof fn law_playable_is_video_or_audio(mime: Seq<char>)
    requires
        playable(mime),
    ensures
        text::starts_with(mime, "video/"@) || text::starts_with(mime, "audio/"@),
{
    reveal_strlit("video/");
    reveal_strlit("audio/");
    reveal_strlit("video/mp4");
    reveal_strlit("video/webm");
    reveal_strlit("video/ogg");
    reveal_strlit("video/quicktime");
    reveal_strlit("audio/mpeg");
    reveal_strlit("audio/ogg");
    reveal_strlit("audio/wav");
    reveal_strlit("audio/webm");
    reveal_strlit("audio/aac");
    if mime == "video/mp4"@ || mime == "video/webm"@ || mime == "video/ogg"@ || mime
        == "video/quicktime"@ {
        assert(mime.subrange(0, 6) =~= "video/"@);
    } else {
        assert(mime.subrange(0, 6) =~= "audio/"@);
    }
}

/// Of video MP4, WebM, Ogg and QuickTime may be played, of audio MPEG, Ogg, WAV, WebM and
/// AAC. Anything more or less behind the slash, or in other letters, is not known.
pub proof fn law_playable_formats(format: Seq<char>)
    ensures
        playable("video/"@ + format) <==> format == "mp4"@ || format == "webm"@ || format == "ogg"@
            || format == "quicktime"@,
        playable("audio/"@ + format) <==> format == "mpeg"@ || format == "ogg"@ || format == "wav"@
            || format == "webm"@ || format == "aac"@,
{
    reveal_strlit("video/");
    reveal_strlit("audio/");
    reveal_strlit("video/mp4");
    reveal_strlit("video/webm");
    reveal_strlit("video/ogg");
    reveal_strlit("video/quicktime");
    reveal_strlit("audio/mpeg");
    reveal_strlit("audio/ogg");
    reveal_strlit("audio/wav");
    reveal_strlit("audio/webm");
    reveal_strlit("audio/aac");
    reveal_strlit("mp4");
    reveal_strlit("webm");
    reveal_strlit("ogg");
    reveal_strlit("quicktime");
    reveal_strlit("mpeg");
    reveal_strlit("wav");
    reveal_strlit("aac");
    let v = "video/"@ + format;
    let a = "audio/"@ + format;
    assert(v.skip(6) =~= format && a.skip(6) =~= format);
    assert(v[0] == 'v' && a[0] == 'a');
    assert("video/mp4"@ =~= "video/"@ + "mp4"@);
    assert("video/webm"@ =~= "video/"@ + "webm"@);
    assert("video/ogg"@ =~= "video/"@ + "ogg"@);
    assert("video/quicktime"@ =~= "video/"@ + "quicktime"@);
    assert("audio/mpeg"@ =~= "audio/"@ + "mpeg"@);
    assert("audio/ogg"@ =~= "audio/"@ + "ogg"@);
    assert("audio/wav"@ =~= "audio/"@ + "wav"@);
    assert("audio/webm"@ =~= "audio/"@ + "webm"@);
    assert("audio/aac"@ =~= "audio/"@ + "aac"@);
    assert("video/mp4"@.skip(6) =~= "mp4"@);
    assert("video/webm"@.skip(6) =~= "webm"@);
    assert("video/ogg"@.skip(6) =~= "ogg"@);
    assert("video/quicktime"@.skip(6) =~= "quicktime"@);
    assert("audio/mpeg"@.skip(6) =~= "mpeg"@);
    assert("audio/ogg"@.skip(6) =~= "ogg"@);
    assert("audio/wav"@.skip(6) =~= "wav"@);
    assert("audio/webm"@.skip(6) =~= "webm"@);
    assert("audio/aac"@.skip(6) =~= "aac"@);
    assert("video/mp4"@[0] == 'v' && "video/webm"@[0] == 'v' && "video/ogg"@[0] == 'v'
        && "video/quicktime"@[0] == 'v');
    assert("audio/mpeg"@[0] == 'a' && "audio/ogg"@[0] == 'a' && "audio/wav"@[0] == 'a'
        && "audio/webm"@[0] == 'a' && "audio/aac"@[0] == 'a');
}

} // verus!
