//! What a tool's result becomes.

use super::server::{blocks, image_blocks, is_error, ToolResult};
use super::wire::{
    asked_version, string_members, ContentModel, Response, INVALID_REQUEST, METHOD_NOT_FOUND,
    PARSE_ERROR,
};
use vstd::prelude::*;

verus! {

/// A result is its text and then its images, in their order, each with its data
/// and its kind.
pub proof fn law_a_result_is_its_text_then_its_images(result: ToolResult, i: int)
    requires
        0 <= i < result.images@.len(),
    ensures
        blocks(result).len() == 1 + result.images@.len(),
        blocks(result)[0] == (ContentModel::Text { text: result.text@ }),
        blocks(result)[1 + i] == (ContentModel::Image {
            data: result.images@[i].base64@,
            mime_type: result.images@[i].media_type@,
        }),
{
    assert(image_blocks(result.images@)[i] == (ContentModel::Image {
        data: result.images@[i].base64@,
        mime_type: result.images@[i].media_type@,
    }));
}

/// A result without an image is its text alone.
pub proof fn law_a_result_may_be_text_alone(result: ToolResult)
    requires
        result.images@.len() == 0,
    ensures
        blocks(result) == seq![ContentModel::Text { text: result.text@ }],
{
    assert(blocks(result) =~= seq![ContentModel::Text { text: result.text@ }]);
}

/// The version asked for is the text under that key, where the parameters have
/// one.
pub proof fn law_the_version_asked_for(params: serde_json::Value)
    ensures
        asked_version(None) is None,
        string_members(params).dom().contains("protocolVersion"@) ==> asked_version(Some(&params))
            == Some(string_members(params)["protocolVersion"@]),
        !string_members(params).dom().contains("protocolVersion"@) ==> asked_version(
            Some(&params),
        ) is None,
{
}

/// The numbers that JSON-RPC gives its errors.
pub proof fn law_errors_by_number()
    ensures
        PARSE_ERROR == -32700,
        INVALID_REQUEST == -32600,
        METHOD_NOT_FOUND == -32601,
{
}

/// An error answers the request it is for, with its number and its message, and
/// with no result.
pub proof fn law_an_error_answers_its_request(
    r: Response,
    id: Option<serde_json::Value>,
    code: i32,
    message: Seq<char>,
)
    ensures
        is_error(r, id, code, message) <==> {
            &&& r.id == id
            &&& r.result is None
            &&& r.error is Some
            &&& r.error->0.code == code
            &&& r.error->0.message@ == message
        },
{
}

} // verus!
