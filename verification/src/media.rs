//! Media storage: the service stand-in used when media storage is
//! disabled, and the content addressing of stored files.
use vstd::prelude::*;
use vstd::string::*;

use sha2::{Digest, Sha256};

use crate::domain::MediaAsset;
use crate::error::{AppError, AppResult};
use crate::text::{chars_of, push_char, starts_with};

verus! {

/// Media service used when media storage is disabled: writes and reads
/// are refused, deletes succeed.
#[derive(Debug, Default, Clone, Copy)]
pub struct NoOpMedia;

/// The refusal of a disabled media service.
pub open spec fn media_disabled(e: AppError) -> bool {
    e == AppError::Unsupported(e->Unsupported_0) && e->Unsupported_0@ == "media storage disabled"@
}

/// Stores media blobs of projects.
pub trait MediaService {
    /// Persist `bytes` for a project; the registry row of the stored asset.
    fn store(&self, project_id: &str, mime: &str, bytes: &[u8]) -> AppResult<MediaAsset>;

    /// The bytes of a stored asset.
    fn read(&self, asset_id: &str) -> AppResult<Vec<u8>>;

    /// Delete an asset; a missing one is no error.
    fn delete(&self, asset_id: &str) -> AppResult<()>;
}

impl MediaService for NoOpMedia {
    /// Always refused.
    fn store(&self, project_id: &str, mime: &str, bytes: &[u8]) -> (r: AppResult<MediaAsset>)
        ensures
            r matches Err(e) && media_disabled(e),
    {
        Err(AppError::Unsupported(String::from_str("media storage disabled")))
    }

    /// Always refused.
    fn read(&self, asset_id: &str) -> (r: AppResult<Vec<u8>>)
        ensures
            r matches Err(e) && media_disabled(e),
    {
        Err(AppError::Unsupported(String::from_str("media storage disabled")))
    }

    /// Nothing to delete.
    fn delete(&self, asset_id: &str) -> (r: AppResult<()>)
        ensures
            r is Ok,
    {
        Ok(())
    }
}

/// The SHA-256 digest (FIPS 180-4) of a byte string.
pub uninterp spec fn sha256_of(bytes: Seq<u8>) -> Seq<u8>;

/// `sha2::Sha256::digest`: the 32-byte SHA-256 digest of `bytes`.
#[verifier::external_body]
fn sha256(bytes: &[u8]) -> (r: Vec<u8>)
    ensures
        r@ == sha256_of(bytes@),
        r@.len() == 32,
{
    Sha256::digest(bytes).to_vec()
}

/// Lower-case hexadecimal digit of a value below 16.
pub open spec fn lower_hex_digit(d: int) -> char {
    if d < 10 {
        ((d + 48) as u32) as char
    } else {
        ((d + 87) as u32) as char
    }
}

/// Bytes as lower-case hexadecimal, two digits each.
pub open spec fn hex_lower(bs: Seq<u8>) -> Seq<char>
    decreases bs.len(),
{
    if bs.len() == 0 {
        Seq::empty()
    } else {
        hex_lower(bs.drop_last()) + seq![
            lower_hex_digit((bs.last() / 16) as int),
            lower_hex_digit((bs.last() % 16) as int),
        ]
    }
}

fn lower_hex_digit_exec(d: u8) -> (c: char)
    requires
        d < 16,
    ensures
        c == lower_hex_digit(d as int),
{
    let b: u8 = if d < 10 { d + 48 } else { d + 87 };
    b as char
}

/// The content address of a media blob: its SHA-256 in lower-case hex.
pub fn hex_digest(bytes: &[u8]) -> (r: String)
    ensures
        r@ == hex_lower(sha256_of(bytes@)),
        r@.len() == 64,
{
    let d = sha256(bytes);
    let mut s = String::new();
    let mut i: usize = 0;
    while i < d.len()
        invariant
            i <= d@.len(),
            d@ == sha256_of(bytes@),
            d@.len() == 32,
            s@ == hex_lower(d@.take(i as int)),
            s@.len() == 2 * i,
        decreases d@.len() - i,
    {
        let b = d[i];
        assert(d@.take(i + 1).drop_last() =~= d@.take(i as int));
        push_char(&mut s, lower_hex_digit_exec(b / 16));
        push_char(&mut s, lower_hex_digit_exec(b % 16));
        i += 1;
    }
    assert(d@.take(32) =~= d@);
    s
}

/// The file name of a blob: `<sha256>.<ext>`.
pub fn media_file_name(sha256: &str, ext: &str) -> (r: String)
    ensures
        r@ == sha256@ + seq!['.'] + ext@,
{
    let mut s = String::from_str(sha256);
    push_char(&mut s, '.');
    s.append(ext);
    s
}

/// The path the registry stores for a blob, relative to the data
/// directory: `media/<project>/<file>`.
pub fn media_relative_path(project_id: &str, file_name: &str) -> (r: String)
    ensures
        r@ == "media/"@ + project_id@ + seq!['/'] + file_name@,
{
    let mut s = String::from_str("media/");
    s.append(project_id);
    push_char(&mut s, '/');
    s.append(file_name);
    s
}

/// A stored relative path taken under the media directory itself: the
/// leading `media/` is dropped when present.
pub fn under_media_root(relative: &str) -> (r: String)
    ensures
        r@ == if starts_with(relative@, "media/"@) {
            relative@.skip(6)
        } else {
            relative@
        },
{
    let v = chars_of(relative);
    let p = chars_of("media/");
    proof {
        reveal_strlit("media/");
    }
    if crate::text::starts_with_exec(&v, &p) {
        let rest = crate::text::slice_chars(&v, 6, v.len());
        assert(rest@ =~= relative@.skip(6));
        crate::text::string_of(&rest)
    } else {
        String::from_str(relative)
    }
}

} // verus!
