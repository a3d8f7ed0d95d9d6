//! Decisions of a CDN download: the file type of the response, the file names used on the
//! way, and the pause before another attempt.

use vstd::prelude::*;

use crate::pipeline::stages::pow2;
use crate::text::{chars_of, concat, contains, contains_exec, string_of, to_lowercase, unicode_lowercase};

verus! {

/// Attempts made before a download is given up: the first and up to three retries.
pub const MAX_RETRIES: u32 = 4;

/// The extension of a downloaded memory: `zip` for an archive response, `mp4` for a video
/// (by content type, media type or link), else `jpg`.
pub open spec fn download_extension_spec(content_type: Seq<char>, media_type: Seq<char>, url: Seq<char>) -> Seq<char> {
    let u = unicode_lowercase(url);
    if contains(content_type, "zip"@) || contains(content_type, "application/zip"@) || contains(
        content_type,
        "application/x-zip-compressed"@,
    ) {
        "zip"@
    } else if contains(content_type, "video/"@) || media_type == "Video"@ || contains(u, "video"@) || contains(
        u,
        ".mp4"@,
    ) || contains(u, ".mov"@) {
        "mp4"@
    } else {
        "jpg"@
    }
}

pub fn download_extension(content_type: &str, media_type: &str, url: &str) -> (r: String)
    ensures
        r@ == download_extension_spec(content_type@, media_type@, url@),
{
    let ct = chars_of(content_type);
    let lower = to_lowercase(url);
    let u = chars_of(lower.as_str());
    if contains_exec(&ct, &chars_of("zip")) || contains_exec(&ct, &chars_of("application/zip")) || contains_exec(
        &ct,
        &chars_of("application/x-zip-compressed"),
    ) {
        "zip".to_owned()
    } else if contains_exec(&ct, &chars_of("video/")) || media_type.to_owned() == "Video".to_owned()
        || contains_exec(&u, &chars_of("video")) || contains_exec(&u, &chars_of(".mp4")) || contains_exec(
        &u,
        &chars_of(".mov"),
    ) {
        "mp4".to_owned()
    } else {
        "jpg".to_owned()
    }
}

/// The saved file type follows the response: an archive response (a content type naming
/// `zip`) is always saved as `zip`, whatever the media type or link; otherwise a video
/// content type, the media type `Video`, or a link naming a video gives `mp4`; anything
/// else is `jpg`. No other extension is ever chosen.
pub proof fn lemma_download_extension(content_type: Seq<char>, media_type: Seq<char>, url: Seq<char>)
    ensures
        contains(content_type, "zip"@) ==> download_extension_spec(content_type, media_type, url) == "zip"@,
        !contains(content_type, "zip"@) && (contains(content_type, "video/"@) || media_type == "Video"@)
            ==> download_extension_spec(content_type, media_type, url) == "mp4"@,
        !contains(content_type, "zip"@) && (contains(unicode_lowercase(url), "video"@) || contains(unicode_lowercase(url), ".mp4"@)
            || contains(unicode_lowercase(url), ".mov"@)) ==> download_extension_spec(content_type, media_type, url) == "mp4"@,
        !contains(content_type, "zip"@) && !contains(content_type, "video/"@) && media_type != "Video"@ && !contains(
            unicode_lowercase(url),
            "video"@,
        ) && !contains(unicode_lowercase(url), ".mp4"@) && !contains(unicode_lowercase(url), ".mov"@)
            ==> download_extension_spec(content_type, media_type, url) == "jpg"@,
        download_extension_spec(content_type, media_type, url) == "zip"@ || download_extension_spec(content_type, media_type, url)
            == "mp4"@ || download_extension_spec(content_type, media_type, url) == "jpg"@,
{
    reveal_strlit("zip");
    reveal_strlit("application/zip");
    reveal_strlit("application/x-zip-compressed");
    assert("application/zip"@.subrange(12, 15) =~= "zip"@);
    assert("application/x-zip-compressed"@.subrange(14, 17) =~= "zip"@);
    lemma_contains_inner(content_type, "application/zip"@, "zip"@, 12);
    lemma_contains_inner(content_type, "application/x-zip-compressed"@, "zip"@, 14);
}

/// A string holding `big` holds every piece of it: `small` found at `q` in `big`.
proof fn lemma_contains_inner(s: Seq<char>, big: Seq<char>, small: Seq<char>, q: int)
    requires
        0 <= q,
        q + small.len() <= big.len(),
        big.subrange(q, q + small.len()) == small,
    ensures
        contains(s, big) ==> contains(s, small),
{
    if contains(s, big) {
        let p = choose|p: int| crate::text::occurs_at(s, big, p);
        assert(s.subrange(p + q, p + q + small.len()) =~= big.subrange(q, q + small.len()));
        assert(crate::text::occurs_at(s, small, p + q));
    }
}

/// What follows a failed download attempt.
#[derive(Clone, Copy, Debug, PartialEq, Eq, Structural)]
pub enum RetryDecision {
    GiveUp,
    RetryAfterSecs(u64),
}

/// After failed attempt `attempt` (counted from 1): give up at `MAX_RETRIES`; otherwise wait
/// `10 * attempt` seconds after a rate limit (HTTP 429), else `2^attempt + 1` seconds.
pub fn after_failed_attempt(attempt: u32, rate_limited: bool) -> (d: RetryDecision)
    requires
        attempt >= 1,
    ensures
        d == (if attempt >= MAX_RETRIES {
            RetryDecision::GiveUp
        } else if rate_limited {
            RetryDecision::RetryAfterSecs((10 * attempt) as u64)
        } else {
            RetryDecision::RetryAfterSecs((pow2(attempt as nat) + 1) as u64)
        }),
{
    if attempt >= MAX_RETRIES {
        return RetryDecision::GiveUp;
    }
    if rate_limited {
        return RetryDecision::RetryAfterSecs(10 * attempt as u64);
    }
    let mut p: u64 = 1;
    let mut k: u32 = 0;
    while k < attempt
        invariant
            k <= attempt < MAX_RETRIES,
            p == pow2(k as nat),
        decreases attempt - k,
    {
        assert(pow2(0) == 1 && pow2(1) == 2 && pow2(2) == 4 && pow2(3) == 8) by {
            reveal_with_fuel(pow2, 4);
        }
        p = p * 2;
        k = k + 1;
    }
    RetryDecision::RetryAfterSecs(p + 1)
}

/// `<id>-raw.tmp`: a download in progress under the old naming.
pub fn partial_download_name(id: &str) -> (r: String)
    ensures
        r@ == id@ + "-raw.tmp"@,
{
    string_of(&concat(&chars_of(id), &chars_of("-raw.tmp")))
}

/// `<id>-raw.<ext>.tmp`: the file a download is written to before it is renamed.
pub fn download_temp_name(id: &str, ext: &str) -> (r: String)
    ensures
        r@ == id@ + "-raw."@ + ext@ + ".tmp"@,
{
    let a = concat(&chars_of(id), &chars_of("-raw."));
    let b = concat(&a, &chars_of(ext));
    string_of(&concat(&b, &chars_of(".tmp")))
}

} // verus!
