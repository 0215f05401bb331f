use vstd::prelude::*;

verus! {

/// Every way a conversion can fail, as the caller sees it.
///
/// The first three mark a malformed container; `DecodeError` and
/// `UnknownFormatError` an unreadable source raster; `SchemaError` a sidecar
/// whose text is not a record of the required shape; `IoError` a filesystem
/// failure reported by the surrounding I/O layer.
#[derive(Debug)]
pub enum ConvertError {
    SignatureError,
    ChecksumError(Vec<u8>),
    TruncatedError,
    DecodeError,
    UnknownFormatError,
    SchemaError,
    IoError(String),
}

/// The mathematical image of a `ConvertError`.
#[verifier::ext_equal]
pub enum ErrorModel {
    Signature,
    Checksum(Seq<u8>),
    Truncated,
    Decode,
    UnknownFormat,
    Schema,
    Io(Seq<char>),
}

impl View for ConvertError {
    type V = ErrorModel;

    open spec fn view(&self) -> ErrorModel {
        match self {
            ConvertError::SignatureError => ErrorModel::Signature,
            ConvertError::ChecksumError(tag) => ErrorModel::Checksum(tag@),
            ConvertError::TruncatedError => ErrorModel::Truncated,
            ConvertError::DecodeError => ErrorModel::Decode,
            ConvertError::UnknownFormatError => ErrorModel::UnknownFormat,
            ConvertError::SchemaError => ErrorModel::Schema,
            ConvertError::IoError(msg) => ErrorModel::Io(msg@),
        }
    }
}

/// Rebuilds an error so that an aggregate can keep its own copy.
pub fn copy_error(e: &ConvertError) -> (r: ConvertError)
    ensures
        r@ == e@,
{
    match e {
        ConvertError::SignatureError => ConvertError::SignatureError,
        ConvertError::ChecksumError(tag) => {
            let mut t: Vec<u8> = Vec::new();
            append_copy(&mut t, tag);
            ConvertError::ChecksumError(t)
        },
        ConvertError::TruncatedError => ConvertError::TruncatedError,
        ConvertError::DecodeError => ConvertError::DecodeError,
        ConvertError::UnknownFormatError => ConvertError::UnknownFormatError,
        ConvertError::SchemaError => ConvertError::SchemaError,
        ConvertError::IoError(msg) => ConvertError::IoError(copy_string(msg)),
    }
}

fn append_copy(out: &mut Vec<u8>, src: &Vec<u8>)
    ensures
        final(out)@ == old(out)@ + src@,
{
    crate::binary::append_bytes(out, src.as_slice());
}

/// Relies on String::clone: the copy carries the same characters.
#[verifier::external_body]
fn copy_string(s: &String) -> (r: String)
    ensures
        r@ == s@,
{
    s.clone()
}

}
