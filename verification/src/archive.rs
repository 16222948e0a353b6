//! In-memory ZIP archives, read through the `zip` crate.

use std::io::Read;
use vstd::prelude::*;

verus! {

#[verifier::external_type_specification]
#[verifier::external_body]
#[verifier::reject_recursive_types(R)]
pub struct ExZipArchive<R>(zip::ZipArchive<R>);

#[verifier::external_type_specification]
#[verifier::external_body]
#[verifier::reject_recursive_types(T)]
pub struct ExCursor<T>(std::io::Cursor<T>);

#[verifier::external_type_specification]
#[verifier::external_body]
pub struct ExZipError(zip::result::ZipError);

/// An EPUB container opened from its bytes.
pub type EpubArchive = zip::ZipArchive<std::io::Cursor<Vec<u8>>>;

/// The bytes an archive was opened from.
pub uninterp spec fn archive_data(a: zip::ZipArchive<std::io::Cursor<Vec<u8>>>) -> Seq<u8>;

/// Whether `zip::ZipArchive::new` accepts these bytes.
pub uninterp spec fn zip_opens(data: Seq<u8>) -> bool;

/// The text `read_to_string` yields for the entry `name` of the archive
/// `data`, opened with `by_name` (`None` when `by_name` finds no such entry
/// or refuses it, and for an entry on which `by_name` would panic).
pub uninterp spec fn entry_text(data: Seq<u8>, name: Seq<char>) -> Option<Seq<char>>;

/// The bytes `read_to_end` yields for the entry `name` of the archive
/// `data`, opened with `by_name` (`None` when `by_name` finds no such entry
/// or refuses it, when reading fails, and for an entry on which `by_name`
/// would panic).
pub uninterp spec fn entry_bytes(data: Seq<u8>, name: Seq<char>) -> Option<Seq<u8>>;

/// Calls `zip::ZipArchive::new` on an in-memory cursor. Claims: success
/// exactly on the bytes `zip_opens` accepts, and the archive remembers its bytes.
#[verifier::external_body]
pub(crate) fn open_archive(data: Vec<u8>) -> (r: Result<EpubArchive, zip::result::ZipError>)
    ensures
        r is Ok <==> zip_opens(data@),
        r matches Ok(a) ==> archive_data(a) == data@,
{
    zip::ZipArchive::new(std::io::Cursor::new(data))
}

/// Calls `ZipArchive::by_name` then `read_to_string`. `by_name` unwraps an
/// `InvalidPassword` for an unencrypted entry that carries AES data; first
/// `by_name_decrypt` with an empty password reports exactly that case (for
/// an unencrypted entry the password is dropped), and the entry then gives
/// `None`. Claims: the text that was read (what `read_to_string` left in the
/// buffer, also when it reported an error), or `None`, as named by
/// `entry_text`.
#[verifier::external_body]
pub(crate) fn read_entry_text(a: &mut EpubArchive, name: &str) -> (r: Option<String>)
    ensures
        archive_data(*final(a)) == archive_data(*old(a)),
        match r {
            Some(s) => entry_text(archive_data(*old(a)), name@) == Some(s@),
            None => entry_text(archive_data(*old(a)), name@) is None,
        },
{
    if let Ok(Err(_)) = a.by_name_decrypt(name, &[]) {
        return None;
    }
    let mut f = a.by_name(name).ok()?;
    let mut s = String::new();
    let _ = f.read_to_string(&mut s);
    Some(s)
}

/// Calls `ZipArchive::by_name` then `read_to_end`, guarded against the
/// panicking case of `by_name` as `read_entry_text` is. Claims: the bytes
/// read, or `None`, as named by `entry_bytes`.
#[verifier::external_body]
pub(crate) fn read_entry_bytes(a: &mut EpubArchive, name: &str) -> (r: Option<Vec<u8>>)
    ensures
        archive_data(*final(a)) == archive_data(*old(a)),
        match r {
            Some(b) => entry_bytes(archive_data(*old(a)), name@) == Some(b@),
            None => entry_bytes(archive_data(*old(a)), name@) is None,
        },
{
    if let Ok(Err(_)) = a.by_name_decrypt(name, &[]) {
        return None;
    }
    let mut f = a.by_name(name).ok()?;
    let mut buf = Vec::new();
    f.read_to_end(&mut buf).ok()?;
    Some(buf)
}

/// Calls `ZipError`'s `Display` (`to_string`). Nothing is claimed of the text.
#[verifier::external_body]
pub(crate) fn zip_error_text(e: &zip::result::ZipError) -> (r: String) {
    e.to_string()
}

} // verus!
