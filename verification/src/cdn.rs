use vstd::prelude::*;
use vstd::string::*;

use crate::config::Config;
use crate::roles::result_view;
use crate::text::{owned, push_char};

verus! {

/// The largest file that may be uploaded: 25 MB.
pub const MAX_SIZE_BYTES: u64 = 26214400;

/// The body of an upload request.
#[derive(Debug)]
pub struct PresignRequest {
    pub filename: String,
    pub content_type: String,
    pub size: u64,
}

/// The answer to an upload request.
#[derive(Debug)]
pub struct PresignResponse {
    pub upload_url: String,
    pub cdn_url: String,
}

/// A signed upload URL and the public URL the file will have.
#[derive(Debug)]
pub struct PresignResult {
    pub upload_url: String,
    pub cdn_url: String,
}

/// Checks an upload request: `413` above 25 MB, then `400` without a file
/// name or a content type.
pub fn validate_presign(request: &PresignRequest) -> (r: Result<(), (u16, String)>)
    ensures
        request.size > MAX_SIZE_BYTES ==> result_view(r) == Err::<(), (u16, Seq<char>)>(
            (413, "File exceeds 25 MB limit"@),
        ),
        request.size <= MAX_SIZE_BYTES && (request.filename@.len() == 0
            || request.content_type@.len() == 0) ==> result_view(r) == Err::<(), (u16, Seq<char>)>(
            (400, "filename and content_type are required"@),
        ),
        request.size <= MAX_SIZE_BYTES && request.filename@.len() > 0
            && request.content_type@.len() > 0 ==> r is Ok,
{
    if request.size > MAX_SIZE_BYTES {
        return Err((413, owned("File exceeds 25 MB limit")));
    }
    if request.filename.as_str().unicode_len() == 0 || request.content_type.as_str().unicode_len()
        == 0 {
        return Err((400, owned("filename and content_type are required")));
    }
    Ok(())
}

/// Whether `c` is a lowercase hexadecimal digit.
pub open spec fn is_lower_hex(c: char) -> bool {
    ('0' <= c && c <= '9') || ('a' <= c && c <= 'f')
}

/// Whether `s` is a UUID in its hyphenated lowercase form.
pub open spec fn is_hyphenated_uuid(s: Seq<char>) -> bool {
    &&& s.len() == 36
    &&& forall|i: int|
        0 <= i < 36 ==> if i == 8 || i == 13 || i == 18 || i == 23 {
            s[i] == '-'
        } else {
            is_lower_hex(#[trigger] s[i])
        }
}

/// `uuid::Uuid::new_v4`, written out by its `Display`: a random UUID.
/// Claimed: the text is in the hyphenated lowercase form.
#[verifier::external_body]
fn random_uuid() -> (r: String)
    ensures
        is_hyphenated_uuid(r@),
{
    uuid::Uuid::new_v4().to_string()
}

/// `s` without the `/` characters at its end.
pub open spec fn trim_trailing_slashes(s: Seq<char>) -> Seq<char>
    decreases s.len(),
{
    if s.len() > 0 && s.last() == '/' {
        trim_trailing_slashes(s.drop_last())
    } else {
        s
    }
}

/// `s` without the `/` characters at its end, as `str::trim_end_matches('/')`.
pub fn trim_end_slashes(s: &str) -> (r: String)
    ensures
        r@ == trim_trailing_slashes(s@),
{
    let mut n = s.unicode_len();
    proof {
        assert(s@.take(n as int) =~= s@);
    }
    while n > 0 && s.get_char(n - 1) == '/'
        invariant
            n <= s@.len(),
            trim_trailing_slashes(s@) == trim_trailing_slashes(s@.take(n as int)),
        decreases n,
    {
        proof {
            assert(s@.take(n as int).drop_last() =~= s@.take(n - 1));
        }
        n = n - 1;
    }
    owned(s.substring_char(0, n))
}

/// The URL of the object `key` under the CDN base `cdn_base`.
pub open spec fn cdn_url_spec(cdn_base: Seq<char>, key: Seq<char>) -> Seq<char> {
    trim_trailing_slashes(cdn_base) + "/"@ + key
}

/// Where and under which name a file goes.
#[derive(Debug)]
pub struct PresignPlan {
    pub bucket: String,
    pub key: String,
    pub cdn_url: String,
}

/// Plans the upload of `filename`: the configured bucket (`ROCKET_S3_BUCKET
/// is not configured` without one), then the configured CDN base
/// (`ROCKET_CDN_BASE_URL is not configured` without one); the object key is
/// a fresh random UUID, `/` and the file name, and its public URL is the CDN
/// base without its trailing `/`, then `/` and the key.
pub fn presign_upload(config: &Config, filename: &str) -> (r: Result<PresignPlan, String>)
    ensures
        config.s3_bucket is None ==> (r matches Err(e) && e@ == "ROCKET_S3_BUCKET is not configured"@),
        config.s3_bucket is Some && config.cdn_base_url is None ==> (r matches Err(e) && e@
            == "ROCKET_CDN_BASE_URL is not configured"@),
        config.s3_bucket is Some && config.cdn_base_url is Some ==> (r matches Ok(p)
            && p.bucket@ == config.s3_bucket->0@ && p.key@.len() == 37 + filename@.len()
            && is_hyphenated_uuid(p.key@.take(36)) && p.key@[36] == '/' && p.key@.skip(37)
            == filename@ && p.cdn_url@ == cdn_url_spec(config.cdn_base_url->0@, p.key@)),
{
    let bucket = match &config.s3_bucket {
        Some(b) => b.clone(),
        None => {
            return Err(owned("ROCKET_S3_BUCKET is not configured"));
        },
    };
    let cdn_base = match &config.cdn_base_url {
        Some(c) => c,
        None => {
            return Err(owned("ROCKET_CDN_BASE_URL is not configured"));
        },
    };
    let id = random_uuid();
    let mut key = id.clone();
    push_char(&mut key, '/');
    key.append(filename);
    let mut cdn_url = trim_end_slashes(cdn_base.as_str());
    push_char(&mut cdn_url, '/');
    cdn_url.append(key.as_str());
    proof {
        reveal_strlit("/");
        assert(key@.take(36) =~= id@);
        assert(key@.skip(37) =~= filename@);
        assert(cdn_url@ =~= cdn_url_spec(cdn_base@, key@));
    }
    Ok(PresignPlan { bucket, key, cdn_url })
}

} // verus!
