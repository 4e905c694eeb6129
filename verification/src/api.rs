//! Request and response shapes of the service routes, and the pure rules the
//! routes apply: upload validation by file suffix and size, extension
//! extraction and content-type selection for downloads.
use vstd::prelude::*;
use vstd::string::{StrSliceExecFns, StringExecFns, StringSliceAdditionalSpecFns};
use crate::config::Config;

verus! {

/// Response of the upload route.
pub struct UploadResponse {
    pub asset_id: String,
    pub filename: String,
    pub size: u64,
    pub location: String,
}

/// Body of the conversion route.
pub struct ConvertRequest {
    pub asset_id: String,
    pub output_format: String,
    pub lut_location: Option<String>,
    pub width: Option<u32>,
    pub height: Option<u32>,
}

/// Response of the submission routes.
pub struct JobResponse {
    pub job_id: String,
    pub status: String,
}

/// Body of the background-removal route.
pub struct RemoveBgRequest {
    pub asset_id: String,
    pub replace_color: Option<(u8, u8, u8)>,
}

/// Body of the color-grading route.
pub struct ColorGradeRequest {
    pub asset_id: String,
    pub preset: Option<String>,
    pub lut_location: Option<String>,
    pub hue: Option<i32>,
    pub saturation: Option<i32>,
    pub brightness: Option<i32>,
    pub contrast: Option<i32>,
}

/// Response of the job status routes.
pub struct JobStatusResponse {
    pub job_id: String,
    pub status: String,
    pub progress: u32,
    pub result_url: Option<String>,
    pub created_at: String,
    pub completed_at: Option<String>,
}

/// ASCII lower-casing of one byte.
pub open spec fn spec_lower_b(b: u8) -> u8 {
    if 65 <= b <= 90 {
        (b + 32) as u8
    } else {
        b
    }
}

/// The name ends, ASCII-case-insensitively, with the given (lowercase ASCII)
/// suffix. On UTF-8 text this is exactly a case-folded suffix test, since
/// ASCII bytes never occur inside multi-byte characters.
pub open spec fn has_suffix_ci(name: Seq<u8>, suf: Seq<u8>) -> bool {
    name.len() >= suf.len() && (forall|i: int|
        0 <= i < suf.len() ==> spec_lower_b(name[name.len() - suf.len() + i]) == suf[i])
}

/// The upload rules accept these image suffixes: `.jpg`, `.jpeg`, `.png`,
/// `.webp`, `.gif`, `.heic` (written below as byte strings).
pub open spec fn spec_is_image_name(name: Seq<u8>) -> bool {
    has_suffix_ci(name, seq![46u8, 106u8, 112u8, 103u8]) || has_suffix_ci(
        name,
        seq![46u8, 106u8, 112u8, 101u8, 103u8],
    ) || has_suffix_ci(name, seq![46u8, 112u8, 110u8, 103u8]) || has_suffix_ci(
        name,
        seq![46u8, 119u8, 101u8, 98u8, 112u8],
    ) || has_suffix_ci(name, seq![46u8, 103u8, 105u8, 102u8]) || has_suffix_ci(
        name,
        seq![46u8, 104u8, 101u8, 105u8, 99u8],
    )
}

/// The upload rules accept these video suffixes: `.mp4`, `.mov`, `.avi`,
/// `.webm`.
pub open spec fn spec_is_video_name(name: Seq<u8>) -> bool {
    has_suffix_ci(name, seq![46u8, 109u8, 112u8, 52u8]) || has_suffix_ci(
        name,
        seq![46u8, 109u8, 111u8, 118u8],
    ) || has_suffix_ci(name, seq![46u8, 97u8, 118u8, 105u8]) || has_suffix_ci(
        name,
        seq![46u8, 119u8, 101u8, 98u8, 109u8],
    )
}

/// Case-insensitive test for a four-byte suffix.
fn suffix_ci4(name: &[u8], s0: u8, s1: u8, s2: u8, s3: u8) -> (r: bool)
    ensures
        r == has_suffix_ci(name@, seq![s0, s1, s2, s3]),
{
    let nl = name.len();
    if nl < 4 {
        return false;
    }
    let r = lower_b(name[nl - 4]) == s0 && lower_b(name[nl - 3]) == s1 && lower_b(name[nl - 2])
        == s2 && lower_b(name[nl - 1]) == s3;
    proof {
        let suf = seq![s0, s1, s2, s3];
        assert(forall|i: int| 0 <= i < 4 ==> suf[i] == (if i == 0 {
            s0
        } else if i == 1 {
            s1
        } else if i == 2 {
            s2
        } else {
            s3
        }));
    }
    r
}

/// Case-insensitive test for a five-byte suffix.
fn suffix_ci5(name: &[u8], s0: u8, s1: u8, s2: u8, s3: u8, s4: u8) -> (r: bool)
    ensures
        r == has_suffix_ci(name@, seq![s0, s1, s2, s3, s4]),
{
    let nl = name.len();
    if nl < 5 {
        return false;
    }
    let r = lower_b(name[nl - 5]) == s0 && lower_b(name[nl - 4]) == s1 && lower_b(name[nl - 3])
        == s2 && lower_b(name[nl - 2]) == s3 && lower_b(name[nl - 1]) == s4;
    proof {
        let suf = seq![s0, s1, s2, s3, s4];
        assert(forall|i: int| 0 <= i < 5 ==> suf[i] == (if i == 0 {
            s0
        } else if i == 1 {
            s1
        } else if i == 2 {
            s2
        } else if i == 3 {
            s3
        } else {
            s4
        }));
    }
    r
}

/// ASCII lower-casing of one byte.
fn lower_b(b: u8) -> (r: u8)
    ensures
        r == spec_lower_b(b),
{
    if 65 <= b && b <= 90 {
        b + 32
    } else {
        b
    }
}

/// Does the name carry an accepted image suffix?
pub fn is_image_name(name: &[u8]) -> (r: bool)
    ensures
        r == spec_is_image_name(name@),
{
    suffix_ci4(name, 46, 106, 112, 103) || suffix_ci5(name, 46, 106, 112, 101, 103) || suffix_ci4(
        name,
        46,
        112,
        110,
        103,
    ) || suffix_ci5(name, 46, 119, 101, 98, 112) || suffix_ci4(name, 46, 103, 105, 102)
        || suffix_ci5(name, 46, 104, 101, 105, 99)
}

/// Does the name carry an accepted video suffix?
pub fn is_video_name(name: &[u8]) -> (r: bool)
    ensures
        r == spec_is_video_name(name@),
{
    suffix_ci4(name, 46, 109, 112, 52) || suffix_ci4(name, 46, 109, 111, 118) || suffix_ci4(
        name,
        46,
        97,
        118,
        105,
    ) || suffix_ci5(name, 46, 119, 101, 98, 109)
}

/// Why an upload was refused.
#[derive(Debug)]
pub enum FileIssue {
    /// Neither an accepted image nor an accepted video suffix.
    UnsupportedType,
    /// Payload over the configured ceiling; sizes in whole megabytes.
    TooLarge { size_mb: u64, max_mb: u64 },
}

/// The size ceiling in bytes that applies to a name: the image ceiling for
/// image suffixes, the video ceiling otherwise.
pub open spec fn spec_max_size_bytes(c: Config, name: Seq<u8>) -> int {
    if spec_is_image_name(name) {
        c.processing.max_image_size_mb * 1048576
    } else {
        c.processing.max_video_size_mb * 1048576
    }
}

/// Validate an upload: the name must carry an accepted image or video
/// suffix, and the payload must stay within the matching size ceiling.
pub fn validate_file(filename: &str, data: &[u8], config: &Config) -> (r: Result<(), FileIssue>)
    requires
        config.processing.max_image_size_mb <= 17592186044415,
        config.processing.max_video_size_mb <= 17592186044415,
    ensures
        ({
            let name = filename.spec_bytes();
            let size = data@.len() as int;
            &&& (r is Ok <==> (spec_is_image_name(name) || spec_is_video_name(name)) && size
                <= spec_max_size_bytes(*config, name))
            &&& ((r matches Err(e) && e is UnsupportedType) <==> !(spec_is_image_name(name)
                || spec_is_video_name(name)))
            &&& (r matches Err(e) ==> (e matches FileIssue::TooLarge { size_mb, max_mb } ==> ((
            spec_is_image_name(name) || spec_is_video_name(name)) && size > spec_max_size_bytes(
                *config,
                name,
            ) && size_mb == size / 1048576 && max_mb == spec_max_size_bytes(*config, name)
                / 1048576)))
        }),
{
    let name = filename.as_bytes();
    let size: u64 = data.len() as u64;
    let is_image = is_image_name(name);
    let is_video = is_video_name(name);
    if !is_image && !is_video {
        return Err(FileIssue::UnsupportedType);
    }
    let max_mb: u64 = if is_image {
        config.processing.max_image_size_mb
    } else {
        config.processing.max_video_size_mb
    };
    let max_bytes: u64 = max_mb * 1048576;
    if size > max_bytes {
        proof {
            vstd::arithmetic::div_mod::lemma_fundamental_div_mod_converse_div(
                (max_mb as int) * 1048576,
                1048576,
                max_mb as int,
                0,
            );
        }
        return Err(FileIssue::TooLarge { size_mb: size / 1048576, max_mb });
    }
    Ok(())
}

/// The characters after the last dot of a name; the whole name when it has no
/// dot, empty when it ends in a dot.
pub open spec fn spec_after_last_dot(s: Seq<char>) -> Seq<char>
    decreases s.len(),
{
    if s.len() == 0 {
        s
    } else if s.last() == '.' {
        Seq::<char>::empty()
    } else {
        spec_after_last_dot(s.drop_last()).push(s.last())
    }
}

/// The case folding of a character string; `str::to_lowercase` computes it.
pub uninterp spec fn lower_of(s: Seq<char>) -> Seq<char>;

/// Relies on `str::to_lowercase`: the result depends on the characters alone,
/// and an empty string stays empty.
#[verifier::external_body]
fn lowercase(s: &str) -> (r: String)
    ensures
        r@ == lower_of(s@),
        s@.len() == 0 ==> r@.len() == 0,
{
    s.to_lowercase()
}

/// A name with no dot after position `dp` (exclusive) has its extension
/// there.
proof fn lemma_after_last_dot(s: Seq<char>, dp: int)
    requires
        0 <= dp <= s.len(),
        forall|j: int| dp <= j < s.len() ==> s[j] != '.',
        dp == 0 || s[dp - 1] == '.',
    ensures
        spec_after_last_dot(s) =~= s.skip(dp),
    decreases s.len(),
{
    if s.len() == 0 {
    } else if dp == s.len() {
        if s.last() == '.' {
        } else {
            lemma_after_last_dot(s.drop_last(), dp - 1);
        }
    } else {
        assert(s.last() != '.');
        lemma_after_last_dot(s.drop_last(), dp);
        assert(s.drop_last().skip(dp).push(s.last()) =~= s.skip(dp));
    }
}

/// The lowercased extension of a file name: the text after the last dot (the
/// whole name when it has no dot), case folded.
pub fn get_file_extension(filename: &str) -> (r: String)
    ensures
        r@ == lower_of(spec_after_last_dot(filename@)),
{
    let n = filename.unicode_len();
    let mut dp: usize = n;
    while dp > 0 && filename.get_char(dp - 1) != '.'
        invariant
            n == filename@.len(),
            dp <= n,
            forall|j: int| dp <= j < n ==> filename@[j] != '.',
        decreases dp,
    {
        dp = dp - 1;
    }
    proof {
        lemma_after_last_dot(filename@, dp as int);
    }
    let ext = filename.substring_char(dp, n);
    lowercase(ext)
}

/// The content type served for a result name, by its (case-insensitive)
/// suffix; unknown names are served as raw bytes.
pub open spec fn spec_content_type(name: Seq<u8>) -> Seq<char> {
    if has_suffix_ci(name, seq![46u8, 112u8, 110u8, 103u8]) {
        "image/png"@
    } else if has_suffix_ci(name, seq![46u8, 106u8, 112u8, 103u8]) || has_suffix_ci(
        name,
        seq![46u8, 106u8, 112u8, 101u8, 103u8],
    ) {
        "image/jpeg"@
    } else if has_suffix_ci(name, seq![46u8, 119u8, 101u8, 98u8, 112u8]) {
        "image/webp"@
    } else if has_suffix_ci(name, seq![46u8, 103u8, 105u8, 102u8]) {
        "image/gif"@
    } else if has_suffix_ci(name, seq![46u8, 109u8, 112u8, 52u8]) {
        "video/mp4"@
    } else if has_suffix_ci(name, seq![46u8, 109u8, 111u8, 118u8]) {
        "video/quicktime"@
    } else if has_suffix_ci(name, seq![46u8, 97u8, 118u8, 105u8]) {
        "video/x-msvideo"@
    } else if has_suffix_ci(name, seq![46u8, 119u8, 101u8, 98u8, 109u8]) {
        "video/webm"@
    } else {
        "application/octet-stream"@
    }
}

/// Pick the content type a result is served under.
pub fn get_content_type(filename: &str) -> (r: &'static str)
    ensures
        r@ == spec_content_type(filename.spec_bytes()),
{
    let name = filename.as_bytes();
    if suffix_ci4(name, 46, 112, 110, 103) {
        "image/png"
    } else if suffix_ci4(name, 46, 106, 112, 103) || suffix_ci5(name, 46, 106, 112, 101, 103) {
        "image/jpeg"
    } else if suffix_ci5(name, 46, 119, 101, 98, 112) {
        "image/webp"
    } else if suffix_ci4(name, 46, 103, 105, 102) {
        "image/gif"
    } else if suffix_ci4(name, 46, 109, 112, 52) {
        "video/mp4"
    } else if suffix_ci4(name, 46, 109, 111, 118) {
        "video/quicktime"
    } else if suffix_ci4(name, 46, 97, 118, 105) {
        "video/x-msvideo"
    } else if suffix_ci5(name, 46, 119, 101, 98, 109) {
        "video/webm"
    } else {
        "application/octet-stream"
    }
}

} // verus!
