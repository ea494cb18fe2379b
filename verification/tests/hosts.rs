use kessel::device::{Input, Touch};
use kessel::ffi::{
    audio_rate, cut_at_nul, holds_picture, renderable_frames, KesselInput, KesselTouch,
    CLASSIC_DIM,
};
use kessel::mcp::server::{
    bad_params, tool_called, tools_listed, Action, Server, ToolImage, ToolResult, SERVER_NAME,
};
use kessel::mcp::wire::{
    is_blank_line, negotiate_version, Content, Reply, Request, Response, ToolInfo,
    INVALID_REQUEST, METHOD_NOT_FOUND, PARSE_ERROR, PROTOCOL_VERSION,
};
use kessel::repl::{
    number_or, parse_servers, provider_name, read_line, text_or, Answer, History, Line, Print,
    Repl, Role, Step, Usage,
};
use serde_json::Value;

fn json(text: &str) -> Value {
    serde_json::from_str(text).unwrap()
}

fn server() -> Server {
    Server::new("0.1.0".to_string())
}

fn req(id: u64, method: &str, params: &str) -> Request {
    Request {
        id: Some(Value::from(id)),
        method: method.to_string(),
        params: Some(json(params)),
    }
}

fn answer(a: Action) -> Response {
    match a {
        Action::Answer { response } => response,
        other => panic!("expected an answer, got {other:?}"),
    }
}

#[test]
fn initialize_advertises_tools() {
    let r = answer(server().handle(req(
        1,
        "initialize",
        r#"{"protocolVersion": "2025-06-18"}"#,
    )));
    assert_eq!(r.id, Some(Value::from(1)));
    assert!(r.error.is_none());
    match r.result {
        Some(Reply::Initialized { protocol_version, name, version }) => {
            assert_eq!(protocol_version, "2025-06-18");
            assert_eq!(name, SERVER_NAME);
            assert_eq!(version, "0.1.0");
        }
        other => panic!("{other:?}"),
    }
}

#[test]
fn notification_has_no_id() {
    let r = Request {
        id: None,
        method: "notifications/initialized".into(),
        params: None,
    };
    assert!(r.is_notification());
    assert!(!req(1, "ping", "{}").is_notification());
}

#[test]
fn notifications_get_no_reply() {
    for method in ["notifications/initialized", "initialize", "tools/call", "nonsense"] {
        let n = Request {
            id: None,
            method: method.into(),
            params: None,
        };
        assert!(matches!(server().handle(n), Action::Silence), "{method}");
    }
}

#[test]
fn unknown_method_is_a_jsonrpc_error() {
    let resp = answer(server().handle(req(7, "resources/list", "{}")));
    let e = resp.error.unwrap();
    assert_eq!(e.code, METHOD_NOT_FOUND);
    assert_eq!(e.message, "unknown method 'resources/list'");
}

#[test]
fn a_call_needs_parameters() {
    let mut r = req(4, "tools/call", "{}");
    r.params = None;
    let resp = answer(server().handle(r));
    let e = resp.error.unwrap();
    assert_eq!((e.code, e.message.as_str()), (INVALID_REQUEST, "missing params"));
    match server().handle(req(5, "tools/call", r#"{"name":"vm_nope"}"#)) {
        Action::CallTool { id, params } => {
            assert_eq!(id, Some(Value::from(5)));
            assert_eq!(params, json(r#"{"name":"vm_nope"}"#));
        }
        other => panic!("{other:?}"),
    }
    let bad = bad_params(Some(Value::from(5)), "missing field");
    assert_eq!(bad.error.unwrap().message, "bad tools/call params: missing field");
}

#[test]
fn a_ping_is_answered() {
    let r = answer(server().handle(req(2, "ping", "{}")));
    assert!(matches!(r.result, Some(Reply::Alive)));
}

#[test]
fn tools_are_listed_on_request() {
    assert!(matches!(
        server().handle(req(3, "tools/list", "{}")),
        Action::ListTools { id: Some(_) }
    ));
    let tool = ToolInfo {
        name: "vm_assemble".into(),
        description: "Assemble".into(),
        input_schema: json(r#"{"type":"object"}"#),
    };
    let r = tools_listed(Some(Value::from(3)), vec![tool]);
    match r.result {
        Some(Reply::Tools { tools }) => assert_eq!(tools[0].name, "vm_assemble"),
        other => panic!("{other:?}"),
    }
}

/// A failing *tool* is a successful call that says so, not a protocol error, so
/// the model sees the message and can react.
#[test]
fn unknown_tool_reports_is_error_in_the_result() {
    let r = tool_called(Some(Value::from(2)), Err("no tool named vm_nope".into()));
    assert!(r.error.is_none());
    match r.result {
        Some(Reply::Called { result }) => {
            assert_eq!(result.is_error, Some(true));
            match &result.content[0] {
                Content::Text { text } => assert!(text.contains("vm_nope")),
                other => panic!("{other:?}"),
            }
        }
        other => panic!("{other:?}"),
    }
}

#[test]
fn framebuffer_comes_back_as_an_image_block() {
    let r = tool_called(
        Some(Value::from(3)),
        Ok(ToolResult {
            text: "frame 1".into(),
            images: vec![ToolImage {
                base64: "AAAA".into(),
                media_type: "image/png".into(),
            }],
        }),
    );
    match r.result {
        Some(Reply::Called { result }) => {
            assert_eq!(
                result.content,
                [
                    Content::Text { text: "frame 1".into() },
                    Content::Image {
                        data: "AAAA".into(),
                        mime_type: "image/png".into()
                    }
                ]
            );
            assert_eq!(result.is_error, None);
        }
        other => panic!("{other:?}"),
    }
}

#[test]
fn malformed_json_gets_a_parse_error_with_a_null_id() {
    let r = Response::parse_error("expected value at line 1 column 1");
    assert!(r.id.is_none());
    let e = r.error.unwrap();
    assert_eq!(e.code, PARSE_ERROR);
    assert_eq!(e.message, "parse error: expected value at line 1 column 1");
}

#[test]
fn version_echoes_the_client_then_falls_back() {
    let p = json(r#"{"protocolVersion": "2024-11-05"}"#);
    assert_eq!(negotiate_version(Some(&p)), "2024-11-05");
    assert_eq!(negotiate_version(None), PROTOCOL_VERSION);
    // What is no text is not echoed.
    assert_eq!(negotiate_version(Some(&json(r#"{"protocolVersion": 3}"#))), PROTOCOL_VERSION);
    assert_eq!(negotiate_version(Some(&json("[1]"))), PROTOCOL_VERSION);
}

#[test]
fn blank_lines_are_skipped() {
    assert!(is_blank_line(""));
    assert!(is_blank_line(" \t\u{3000}"));
    assert!(!is_blank_line(" {"));
}

#[test]
fn tick_input_carries_the_stick_and_touches() {
    let mut input = KesselInput {
        stick_x: -256,
        ..KesselInput::default()
    };
    input.touches[0] = KesselTouch {
        x: 40,
        y: 90,
        down: true,
    };
    let got = input.to_input();
    assert!(got.stick_x < 0, "a full-left stick did not read as negative");
    assert_eq!(got.stick_x, -256);
    assert_eq!(got.touches[0], Touch { x: 40, y: 90, down: true });

    // Nothing held: the stick is centred, and the finger is gone.
    let nothing = KesselInput::default().to_input();
    assert_eq!(nothing, Input::default());
    assert!(nothing.stick_x >= 0 && !nothing.touches[0].down);
}

#[test]
fn a_host_hands_over_flat_arrays() {
    let input = KesselInput::from_host(1, -256, 128, &[10, 20, 1, 70_000, -3, 0, 5]);
    assert_eq!((input.buttons, input.stick_x, input.stick_y), (1, -256, 128));
    assert_eq!(input.touches[0], KesselTouch { x: 10, y: 20, down: true });
    assert_eq!(input.touches[1], KesselTouch { x: 65535, y: 0, down: false });
    assert_eq!(input.touches[2], KesselTouch::default(), "a short array leaves slots empty");
    let mut want = Input::of_buttons(1);
    want.stick_x = -256;
    want.stick_y = 128;
    want.touches[0] = Touch { x: 10, y: 20, down: true };
    want.touches[1] = Touch { x: 65535, y: 0, down: false };
    assert_eq!(input.to_input(), want);
    // Only the low bits of a wide number count.
    let wide = KesselInput::from_host(-1, 0x1_8000, -0x1_8001, &[]);
    assert_eq!((wide.buttons, wide.stick_x, wide.stick_y), (255, -32768, 32767));
}

#[test]
fn a_short_buffer_is_refused() {
    assert!(holds_picture(128 * 128 * 4, CLASSIC_DIM));
    assert!(!holds_picture(128 * 128 * 4 - 1, CLASSIC_DIM));
    assert!(!holds_picture(usize::MAX, u32::MAX));
    assert_eq!(renderable_frames(10, 80), 10);
    assert_eq!(renderable_frames(10, 79), 0);
    assert_eq!(renderable_frames(-1, 1000), 0);
    assert_eq!(audio_rate(0), 8_000);
    assert_eq!(audio_rate(44_100), 44_100);
}

#[test]
fn messages_are_cut_at_a_nul() {
    assert_eq!(cut_at_nul("good\0bad"), "good");
    assert_eq!(cut_at_nul("é"), "é");
    assert_eq!(cut_at_nul("\0"), "");
}

#[test]
fn lines_mean_something() {
    assert_eq!(read_line("  "), Line::Nothing);
    assert_eq!(read_line(" /quit\n"), Line::Quit);
    assert_eq!(read_line("/exit"), Line::Quit);
    assert_eq!(read_line("/reset"), Line::Reset);
    assert_eq!(read_line(" hello  there "), Line::Say { text: "hello  there".into() });
    assert_eq!(read_line("/quit now"), Line::Say { text: "/quit now".into() });
}

#[test]
fn a_reset_keeps_the_prompt() {
    let mut h = History::new("be brief".into());
    h.push(Role::User, "hi".into());
    h.push(Role::Assistant, "hello".into());
    assert_eq!(h.messages().len(), 3);
    assert_eq!(h.messages()[2].role, Role::Assistant);
    h.reset();
    assert_eq!(h.messages().len(), 1);
    assert_eq!(h.messages()[0].text, "be brief");
}

#[test]
fn a_turn_adds_a_question_and_its_answer() {
    let mut r = Repl::new("be brief".into(), true);
    assert_eq!(r.on_line("  "), Step::Skip);
    assert_eq!(r.on_line(" hi "), Step::Ask);
    let shown = r.on_answer(Ok(Answer {
        text: "hello".into(),
        reasoning: Some("greet".into()),
        usage: Usage { input_tokens: 5, output_tokens: 2, total_tokens: 7 },
    }));
    assert_eq!(
        shown,
        [
            Print::Note("\x1b[90m💭 greet\x1b[0m".into()),
            Print::Out("Assistant: hello".into()),
            Print::Note("\x1b[90m📊 tokens: in=5, out=2, total=7\x1b[0m".into()),
            Print::Out(String::new()),
        ]
    );
    let said: Vec<(Role, &str)> =
        r.messages().iter().map(|m| (m.role, m.text.as_str())).collect();
    assert_eq!(
        said,
        [(Role::System, "be brief"), (Role::User, "hi"), (Role::Assistant, "hello")]
    );
    assert_eq!(r.on_line("/reset"), Step::Tell("Conversation reset.".into()));
    assert_eq!(r.messages().len(), 1);
    assert_eq!(r.on_line("/exit"), Step::Stop);
}

#[test]
fn a_question_without_an_answer_stays() {
    let mut r = Repl::new("p".into(), false);
    r.on_line("why");
    assert_eq!(r.on_answer(Err("no network".into())), [Print::Note("Error: no network".into())]);
    assert_eq!(r.messages().len(), 2);
    let free = Usage { input_tokens: 0, output_tokens: 0, total_tokens: 0 };
    let shown = r.on_answer(Ok(Answer { text: "x".into(), reasoning: None, usage: free }));
    assert_eq!(shown, [Print::Out("Assistant: x".into())]);
}

#[test]
fn servers_are_listed_with_commas() {
    let s = parse_servers(" a b  c ,, d");
    assert_eq!(s.len(), 2);
    assert_eq!((s[0].command.as_str(), s[0].args.as_slice()), ("a", &["b".to_string(), "c".into()][..]));
    assert_eq!((s[1].command.as_str(), s[1].args.len()), ("d", 0));
    assert!(parse_servers("").is_empty());
}

#[test]
fn settings_have_defaults() {
    assert_eq!(number_or(Some("4096".into()), 2048), 4096);
    assert_eq!(number_or(Some("4294967296".into()), 2048), 2048);
    assert_eq!(number_or(Some("lots".into()), 2048), 2048);
    assert_eq!(number_or(None, 2048), 2048);
    assert_eq!(text_or(None, "d"), "d");
    assert_eq!(text_or(Some(String::new()), "d"), "");
    assert_eq!(provider_name(true, true), "Local (FFI)");
    assert_eq!(provider_name(false, true), "OpenAI");
    assert_eq!(provider_name(false, false), "Unknown");
}
