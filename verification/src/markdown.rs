//! The markdown parser and the HTML generator. Both are the work of an outside
//! crate; this file holds what the library takes on trust about them.

use crate::text::{append_str, string_of};
use vstd::prelude::*;
use vstd::utf8::{decode_utf8, valid_utf8};

verus! {

/// The document model that the parser builds and the generator reads. Nothing
/// in this library looks inside it.
#[verifier::external_type_specification]
#[verifier::external_body]
pub struct ExDocumentModel(shiva::core::Document);

/// The error that the parser and the generator return.
#[verifier::external_type_specification]
#[verifier::external_body]
pub struct ExOutsideError(anyhow::Error);

/// What the message for an image says before the image's name.
pub const IMAGE_REFUSED: &'static str = "images are not supported: ";

/// The document that the parser builds from `text`, when every image is
/// refused; none if it refuses the text.
pub uninterp spec fn parsed(text: Seq<char>) -> Option<shiva::core::Document>;

/// The bytes that the generator makes of `document`, when every image is
/// refused; none if it fails.
pub uninterp spec fn html_of(document: shiva::core::Document) -> Option<Seq<u8>>;

/// Whether the parser accepts `text`.
pub open spec fn markdown_accepted(text: Seq<char>) -> bool {
    parsed(text) is Some
}

/// The bytes of the HTML body for `text`: what the generator makes of the
/// document that the parser builds from it; none if either fails.
pub open spec fn rendered(text: Seq<char>) -> Option<Seq<u8>> {
    match parsed(text) {
        Some(document) => html_of(document),
        None => None,
    }
}

/// The text that `String::from_utf8_lossy` makes of `bytes`.
pub uninterp spec fn lossy_text(bytes: Seq<u8>) -> Seq<char>;

/// Refuses the image `name`: this library reads and writes no file, so a
/// document cannot bring an image along.
pub fn refuse_image(name: &str) -> (r: Result<Vec<u8>, String>)
    ensures
        r matches Err(message) && message@ == IMAGE_REFUSED@ + name@,
{
    let mut message: Vec<char> = Vec::new();
    append_str(&mut message, IMAGE_REFUSED);
    append_str(&mut message, name);
    Err(string_of(message.as_slice()))
}

/// `parse_with_loader` of shiva's markdown transformer, with a loader that
/// refuses every image. The parser reads nothing but `text`: the loader is the
/// only way it has to a file. So what it returns depends on `text` alone: the
/// document, or that there is none. (Where its source can panic, an image was
/// loaded before.) Nothing is claimed of what the document holds or of the
/// error.
#[verifier::external_body]
pub(crate) fn parse_markdown(text: String) -> (r: Result<shiva::core::Document, anyhow::Error>)
    ensures
        match r {
            Ok(document) => parsed(text@) == Some(document),
            Err(_) => parsed(text@) is None,
        },
{
    let bytes = bytes::Bytes::from(text);
    <shiva::markdown::Transformer as shiva::core::TransformerWithImageLoaderSaverTrait>::parse_with_loader(
        &bytes,
        |name: &str| refuse_image(name).map(bytes::Bytes::from).map_err(anyhow::Error::msg),
    )
}

/// `generate_with_saver` of shiva's HTML transformer, with a saver that
/// refuses every image, so that it writes no file. What it returns depends on
/// the document alone: the bytes, or that there are none. Nothing is claimed
/// of what the bytes hold or of the error.
#[verifier::external_body]
pub(crate) fn generate_html(document: &shiva::core::Document) -> (r: Result<
    Vec<u8>,
    anyhow::Error,
>)
    ensures
        match r {
            Ok(bytes) => html_of(*document) == Some(bytes@),
            Err(_) => html_of(*document) is None,
        },
{
    <shiva::html::Transformer as shiva::core::TransformerWithImageLoaderSaverTrait>::generate_with_saver(
        document,
        |_image: &bytes::Bytes, name: &str| refuse_image(name).map(|_| ()).map_err(anyhow::Error::msg),
    ).map(|html| html.to_vec())
}

/// The `Debug` form of an error of the parser or the generator. It may hold a
/// backtrace, so nothing is claimed of it.
#[verifier::external_body]
pub(crate) fn error_details(error: &anyhow::Error) -> (details: String) {
    format!("{:?}", error)
}

/// `String::from_utf8_lossy` of std: the text that `bytes` encode, with the
/// replacement character for what is not valid UTF-8. Of valid UTF-8 it is the
/// text that the bytes encode.
#[verifier::external_body]
pub(crate) fn text_of_bytes(bytes: &[u8]) -> (text: String)
    ensures
        text@ == lossy_text(bytes@),
        valid_utf8(bytes@) ==> text@ == decode_utf8(bytes@),
{
    String::from_utf8_lossy(bytes).into_owned()
}

} // verus!
