//! Method dispatch: request in, what to do about it out.

use super::wire::{
    asked_version, content_views, negotiate_version, CallResult, Content,
    ContentModel, Reply, Request, Response, ToolInfo, INVALID_REQUEST, METHOD_NOT_FOUND,
    PROTOCOL_VERSION,
};
use crate::text::{concat2, concat3, same};
use vstd::prelude::*;

verus! {

pub const SERVER_NAME: &'static str = "kessel-vm";

/// What to do about a request.
#[derive(Debug)]
pub enum Action {
    /// Say nothing: the correct response to a notification.
    Silence,
    /// Send this.
    Answer { response: Response },
    /// Send the list of tools, under this id.
    ListTools { id: Option<serde_json::Value> },
    /// Call a tool with these parameters, and answer under this id.
    CallTool { id: Option<serde_json::Value>, params: serde_json::Value },
}

/// Whether a response is an error with this code and message.
pub open spec fn is_error(r: Response, id: Option<serde_json::Value>, code: i32, message: Seq<char>) -> bool {
    &&& r.id == id
    &&& r.result is None
    &&& r.error matches Some(e) && e.code == code && e.message@ == message
}

/// A server of the console's tools.
pub struct Server {
    /// The version it reports.
    pub version: String,
}

impl Server {
    pub fn new(version: String) -> (r: Self)
        ensures
            r.version@ == version@,
    {
        Server { version }
    }

    /// Handle one request. Running a tool is left to the caller, who answers with
    /// [`tools_listed`] or [`tool_called`].
    pub fn handle(&self, req: Request) -> (r: Action)
        ensures
            req.id is None ==> r is Silence,
            req.id is Some ==> ({
                let method = req.method@;
                if method == "initialize"@ {
                    &&& r matches Action::Answer { response }
                    &&& response.id == req.id
                    &&& response.error is None
                    &&& response.result matches Some(Reply::Initialized {
                        protocol_version,
                        name,
                        version: v,
                    })
                    &&& protocol_version@ == (match asked_version(
                        match req.params {
                            Some(p) => Some(&p),
                            None => None,
                        },
                    ) {
                        Some(asked) => asked,
                        None => PROTOCOL_VERSION@,
                    })
                    &&& name@ == SERVER_NAME@
                    &&& v@ == self.version@
                } else if method == "tools/list"@ {
                    r == (Action::ListTools { id: req.id })
                } else if method == "tools/call"@ {
                    match req.params {
                        Some(params) => r == (Action::CallTool { id: req.id, params }),
                        None => r matches Action::Answer { response } && is_error(
                            response,
                            req.id,
                            INVALID_REQUEST,
                            "missing params"@,
                        ),
                    }
                } else if method == "ping"@ {
                    &&& r matches Action::Answer { response }
                    &&& response.id == req.id
                    &&& response.error is None
                    &&& response.result == Some(Reply::Alive)
                } else {
                    r matches Action::Answer { response } && is_error(
                        response,
                        req.id,
                        METHOD_NOT_FOUND,
                        "unknown method '"@ + method + "'"@,
                    )
                }
            }),
    {
        // Notifications never get a reply, whatever the method.
        if req.is_notification() {
            return Action::Silence;
        }
        let Request { id, method, params } = req;
        let m = method.as_str();
        if same(m, "initialize") {
            let protocol_version = negotiate_version(params.as_ref());
            Action::Answer {
                response: Response::success(
                    id,
                    Reply::Initialized {
                        protocol_version,
                        name: SERVER_NAME.to_owned(),
                        version: self.version.clone(),
                    },
                ),
            }
        } else if same(m, "tools/list") {
            Action::ListTools { id }
        } else if same(m, "tools/call") {
            match params {
                Some(params) => Action::CallTool { id, params },
                None => Action::Answer {
                    response: Response::error(id, INVALID_REQUEST, "missing params".to_owned()),
                },
            }
        } else if same(m, "ping") {
            Action::Answer { response: Response::success(id, Reply::Alive) }
        } else {
            Action::Answer {
                response: Response::error(
                    id,
                    METHOD_NOT_FOUND,
                    concat3("unknown method '", m, "'"),
                ),
            }
        }
    }
}

/// The answer to a request for the tools.
pub fn tools_listed(id: Option<serde_json::Value>, tools: Vec<ToolInfo>) -> (r: Response)
    ensures
        r.id == id,
        r.error is None,
        r.result == Some(Reply::Tools { tools }),
{
    Response::success(id, Reply::Tools { tools })
}

/// The answer to a call whose parameters are none, for the reason given.
pub fn bad_params(id: Option<serde_json::Value>, why: &str) -> (r: Response)
    ensures
        is_error(r, id, INVALID_REQUEST, "bad tools/call params: "@ + why@),
{
    Response::error(id, INVALID_REQUEST, concat2("bad tools/call params: ", why))
}

/// A frame that a tool took.
#[derive(Debug, Clone, PartialEq, Eq)]
pub struct ToolImage {
    pub base64: String,
    pub media_type: String,
}

/// What a tool came back with.
#[derive(Debug, Clone, PartialEq, Eq)]
pub struct ToolResult {
    pub text: String,
    pub images: Vec<ToolImage>,
}

/// A tool's frames as content blocks.
pub open spec fn image_blocks(images: Seq<ToolImage>) -> Seq<ContentModel> {
    images.map_values(
        |i: ToolImage| ContentModel::Image { data: i.base64@, mime_type: i.media_type@ },
    )
}

/// The text of a result first, then its frames.
pub open spec fn blocks(result: ToolResult) -> Seq<ContentModel> {
    seq![ContentModel::Text { text: result.text@ }] + image_blocks(result.images@)
}

/// Map a tool's result onto content blocks: the text first, then any frames.
pub fn to_content(result: ToolResult) -> (r: CallResult)
    ensures
        content_views(r.content@) == blocks(result),
        r.is_error is None,
{
    let ghost given = result;
    let ToolResult { text, images } = result;
    let ghost all = images@;
    let n: usize = images.len();
    let mut rest = images;
    let mut content: Vec<Content> = Vec::new();
    content.push(Content::Text { text });
    let mut k: usize = 0;
    assert(all.skip(0) =~= all);
    assert(content_views(content@) =~= blocks(given).take(1));
    while k < n
        invariant
            k <= n == all.len(),
            all == given.images@,
            rest@ == all.skip(k as int),
            content_views(content@) == blocks(given).take(k + 1),
        decreases n - k,
    {
        let img = rest.remove(0);
        assert(img == all[k as int]);
        assert(rest@ =~= all.skip(k + 1));
        let ToolImage { base64, media_type } = img;
        let block = Content::Image { data: base64, mime_type: media_type };
        proof {
            assert(content_views(content@.push(block)) =~= content_views(content@).push(block@));
            assert(blocks(given)[k + 1] == block@);
            assert(blocks(given).take(k + 2) =~= blocks(given).take(k + 1).push(block@));
        }
        content.push(block);
        k += 1;
    }
    assert(blocks(given).take(n + 1) =~= blocks(given));
    CallResult { content, is_error: None }
}

/// The answer to a call, once the tool ran. A tool that fails is a *successful*
/// call whose result says so, with the message as text: the model is supposed
/// to read the failure and fix its program.
pub fn tool_called(id: Option<serde_json::Value>, outcome: Result<ToolResult, String>) -> (r:
    Response)
    ensures
        r.id == id,
        r.error is None,
        r.result matches Some(Reply::Called { result }) && match outcome {
            Ok(t) => content_views(result.content@) == blocks(t) && result.is_error is None,
            Err(e) => content_views(result.content@) == seq![ContentModel::Text { text: e@ }]
                && result.is_error == Some(true),
        },
{
    let result = match outcome {
        Ok(t) => to_content(t),
        Err(e) => {
            let ghost message = e@;
            let mut content: Vec<Content> = Vec::new();
            content.push(Content::Text { text: e });
            assert(content_views(content@) =~= seq![ContentModel::Text { text: message }]);
            CallResult { content, is_error: Some(true) }
        },
    };
    Response::success(id, Reply::Called { result })
}

} // verus!
