use quotamiser::bodies::FlatText;
use quotamiser::json::Json;
use quotamiser::rejection::{Rejection, RejectionCode};
use quotamiser::request::CreateRequest;
use quotamiser::tools::ToolUsage;
use serde_json::Value;

fn v(text: &str) -> Value {
    serde_json::from_str(text).unwrap()
}

/// The text with `"$0"`, `"$1"` and so on replaced.
fn fill(text: &str, values: &[Value]) -> Value {
    let mut out = text.to_string();
    for (i, value) in values.iter().enumerate() {
        out = out.replace(&format!("\"${i}\""), &value.to_string());
    }
    v(&out)
}

fn value_of(json: &Json) -> Value {
    serde_json::from_slice(&json.to_bytes()).unwrap()
}

fn count_bodies(request: &CreateRequest) -> Vec<Value> {
    request.input_count_bodies().iter().map(value_of).collect()
}

fn parse(value: Value) -> Result<CreateRequest, Rejection> {
    CreateRequest::parse(&serde_json::to_vec(&value).unwrap())
}

fn upstream(request: &CreateRequest) -> Value {
    serde_json::from_slice(&request.openai_body()).unwrap()
}

fn rejected(value: Value) -> Rejection {
    parse(value).expect_err("should be refused")
}

fn user(text: &str) -> Value {
    fill(r#"{"type": "message", "role": "user", "content": [{"type": "input_text", "text": "$0"}]}"#, &[Value::from(text)])
}

fn function_tool() -> Value {
    v(r#"{
        "type": "function",
        "name": "exec_command",
        "description": "Runs a command.",
        "strict": false,
        "parameters": {"type": "object", "properties": {"cmd": {"type": "string"}, "workdir": {"type": "string"}}, "required": ["cmd"]}
    }"#)
}

fn custom_tool() -> Value {
    v(r#"{
        "type": "custom",
        "name": "apply_patch",
        "description": "Applies a patch.",
        "format": {"type": "grammar", "syntax": "lark", "definition": "start: /.+/"}
    }"#)
}

/// The shape Codex 0.154.0 sends for a GPT-5.6 model, mid-conversation.
fn codex_lite() -> Value {
    fill(r#"{
        "model": "gpt-5.6-terra",
        "instructions": "",
        "input": [
            {"type": "additional_tools", "id": "at_1", "role": "developer",
             "tools": [{"type": "namespace", "name": "functions", "description": "", "tools": ["$0", "$1"]}]},
            {"type": "message", "id": "msg_1", "role": "developer", "content": [{"type": "input_text", "text": "You are Codex."}]},
            "$2",
            {"type": "reasoning", "id": "rs_1", "summary": [{"type": "summary_text", "text": "Listing."}], "encrypted_content": "gAAAA"},
            {"type": "function_call", "id": "fc_1", "name": "exec_command", "namespace": "functions", "arguments": "{\"cmd\":\"ls\"}", "call_id": "call_1"},
            {"type": "function_call_output", "call_id": "call_1", "output": "Cargo.toml\nsrc"},
            {"type": "custom_tool_call", "id": "ctc_1", "status": "completed", "call_id": "call_2", "name": "apply_patch", "input": "*** Begin Patch"},
            {"type": "custom_tool_call_output", "call_id": "call_2", "output": [{"type": "input_text", "text": "Done."}]},
            {"type": "message", "role": "assistant", "phase": "final_answer", "content": [{"type": "output_text", "text": "Two files.", "annotations": []}]}
        ],
        "tool_choice": "auto",
        "parallel_tool_calls": false,
        "reasoning": {"effort": "medium", "summary": "auto", "context": "all_turns"},
        "store": false,
        "stream": true,
        "include": ["reasoning.encrypted_content"],
        "service_tier": "priority",
        "prompt_cache_key": "019a-session",
        "text": {"verbosity": "low"},
        "client_metadata": {"x-codex-git-remote": "git@github.com:example/private.git"}
    }"#, &[Value::from(function_tool()), Value::from(custom_tool()), Value::from(user("List the files."))])
}

/// The shape OpenClaw's Responses transport sends.
fn openclaw() -> Value {
    fill(r#"{
        "model": "gpt-5.6-terra",
        "input": [
            {"role": "user", "content": [{"type": "input_text", "text": "Hi"}]},
            {"type": "message", "role": "assistant", "id": "msg_9", "status": "completed", "content": [{"type": "output_text", "text": "Hello"}]},
            "$0",
            {"type": "message", "role": "user", "content": [{"type": "input_image", "image_url": "data:image/png;base64,iVBORw0KGgo=", "detail": "low"}]}
        ],
        "stream": true,
        "prompt_cache_key": "agent-main",
        "prompt_cache_options": {"ttl": "30m"},
        "instructions": "You are a helpful agent.",
        "metadata": {"session": "s-1"},
        "max_output_tokens": 4096,
        "temperature": 0.7,
        "tools": ["$1"],
        "tool_choice": "auto",
        "reasoning": {"effort": "low", "summary": "auto"},
        "include": ["reasoning.encrypted_content"]
    }"#, &[Value::from(user("What's in this picture?")), Value::from(function_tool())])
}

fn any_ids(value: &Value) -> bool {
    value["input"]
        .as_array()
        .unwrap()
        .iter()
        .any(|item| item.get("id").is_some() || item.get("status").is_some())
}

#[test]
fn a_codex_lite_request_is_accepted_and_normalized() {
    let request = parse(codex_lite()).unwrap();
    assert_eq!(request.model(), "gpt-5.6-terra");
    assert_eq!(request.max_output_tokens(), None);
    assert_eq!(request.flat_text(), None);

    let body = upstream(&request);
    assert!(
        !any_ids(&body),
        "history travels by content, not by stored ids"
    );
    assert!(body.get("client_metadata").is_none());
    assert_eq!(body["store"], true);
    assert_eq!(body["background"], true);
    assert_eq!(body["stream"], true);
    assert_eq!(body["service_tier"], "default");
    assert_eq!(
        body["input"][8]["content"][0],
        v(r#"{"type": "output_text", "text": "Two files."}"#)
    );
    assert_eq!(
        body["input"][0]["tools"][0]["tools"][1]["name"],
        "apply_patch"
    );
    assert_eq!(body["reasoning"]["context"], "all_turns");
}

#[test]
fn an_openclaw_request_is_accepted_and_normalized() {
    let request = parse(openclaw()).unwrap();
    assert_eq!(request.max_output_tokens(), Some(4096));
    let body = upstream(&request);
    assert!(!any_ids(&body));
    assert!(
        body.get("prompt_cache_options").is_none(),
        "the default TTL is dropped"
    );
    assert_eq!(body["metadata"]["session"], "s-1");
    assert_eq!(
        body["input"][0],
        v(r#"{"role": "user", "content": [{"type": "input_text", "text": "Hi"}]}"#)
    );
}

#[test]
fn field_order_is_kept_and_the_fixed_fields_come_last() {
    let body = upstream(&parse(codex_lite()).unwrap());
    let keys: Vec<&str> = body
        .as_object()
        .unwrap()
        .keys()
        .map(String::as_str)
        .collect();
    assert_eq!(
        keys,
        [
            "model",
            "instructions",
            "input",
            "tool_choice",
            "parallel_tool_calls",
            "reasoning",
            "include",
            "prompt_cache_key",
            "text",
            "background",
            "store",
            "stream",
            "service_tier"
        ]
    );
    let properties = &body["input"][0]["tools"][0]["tools"][0]["parameters"]["properties"];
    let order: Vec<&str> = properties
        .as_object()
        .unwrap()
        .keys()
        .map(String::as_str)
        .collect();
    assert_eq!(
        order,
        ["cmd", "workdir"],
        "schema property order is generation order"
    );
}

#[test]
fn normalizing_twice_changes_nothing() {
    for original in [codex_lite(), openclaw()] {
        let once = upstream(&parse(original).unwrap());
        // Clients may not ask for background mode; everything else in the
        // upstream body is itself an acceptable client body.
        let mut resent = once.clone();
        resent.as_object_mut().unwrap().shift_remove("background");
        let again = upstream(&parse(resent).unwrap());
        assert_eq!(once, again);
    }
}

#[test]
fn duplicate_keys_are_refused_at_any_depth() {
    for body in [
        r#"{"model":"a","model":"b","input":"x","stream":true}"#,
        r#"{"model":"a","input":"x","stream":true,"tools":[{"type":"function","name":"f","parameters":{"type":"object","type":"string"}}]}"#,
    ] {
        let rejection = CreateRequest::parse(body.as_bytes()).unwrap_err();
        assert_eq!(rejection.code, RejectionCode::DuplicateKey, "{body}");
    }
}

#[test]
fn a_private_key_of_the_json_library_is_a_key_like_any_other() {
    let token = "$serde_json::private::RawValue";
    let hidden = r#""{\"model\":\"a\",\"model\":\"b\",\"input\":\"x\",\"stream\":true}""#;
    let rejection = CreateRequest::parse(format!(r#"{{"{token}":{hidden}}}"#).as_bytes())
        .expect_err("an unlisted field");
    assert_eq!(rejection.code, RejectionCode::UnsupportedParameter);
    assert_eq!(rejection.param.as_deref(), Some(token));

    // Where any object is taken, it stays as it was sent.
    let body = format!(
        r#"{{"model":"a","input":"x","stream":true,"tools":[{{"type":"function","name":"f","parameters":{{"{token}":{hidden}}}}}]}}"#
    );
    let sent = CreateRequest::parse(body.as_bytes()).unwrap().openai_body();
    let sent = String::from_utf8(sent).unwrap();
    assert!(sent.contains(&format!(r#"{{"{token}":{hidden}}}"#)), "{sent}");
}

#[test]
fn malformed_json_is_refused() {
    for body in [&b"{"[..], b"[]", b"{\"model\":\"a\"} trailing", b"\xff"] {
        let rejection = CreateRequest::parse(body).unwrap_err();
        assert_eq!(rejection.code, RejectionCode::InvalidJson, "{body:?}");
    }
}

#[test]
fn unlisted_fields_are_refused_wherever_they_appear() {
    let cases = [
        ("truncation", v(r#"{"truncation": "auto"}"#)),
        ("user", v(r#"{"user": "u"}"#)),
        ("max_tool_calls", v(r#"{"max_tool_calls": 3}"#)),
        (
            "prompt_cache_retention",
            v(r#"{"prompt_cache_retention": "24h"}"#),
        ),
        (
            "reasoning.mode",
            v(r#"{"reasoning": {"effort": "low", "mode": "pro"}}"#),
        ),
        (
            "text.format.extra",
            v(r#"{"text": {"format": {"type": "text", "extra": 1}}}"#),
        ),
        (
            "input[0].extra",
            v(r#"{"input": [{"type": "message", "role": "user", "content": "hi", "extra": 1}]}"#),
        ),
        (
            "tools[0].extra",
            v(r#"{"tools": [{"type": "function", "name": "f", "extra": 1}]}"#),
        ),
        (
            "input[0].content[0].file_id",
            v(r#"{"input": [{"role": "user", "content": [{"type": "input_image", "file_id": "file-1"}]}]}"#),
        ),
    ];
    for (param, extra) in cases {
        let mut body = v(r#"{"model": "gpt-5.6-terra", "input": "hi", "stream": true}"#);
        for (key, value) in extra.as_object().unwrap() {
            body[key] = value.clone();
        }
        let rejection = rejected(body);
        assert_eq!(
            rejection.code,
            RejectionCode::UnsupportedParameter,
            "{param}"
        );
        assert_eq!(rejection.param.as_deref(), Some(param));
    }
}

#[test]
fn codex_builtin_provider_fields_point_at_the_fix() {
    let mut body = codex_lite();
    body["stream_options"] = v(r#"{"reasoning_summary_delivery": "sequential_cutoff"}"#);
    assert!(rejected(body).message.contains("custom model provider"));

    let mut body = codex_lite();
    body["input"][2]["internal_chat_message_metadata_passthrough"] = v(r#"{}"#);
    let rejection = rejected(body);
    assert_eq!(
        rejection.param.as_deref(),
        Some("input[2].internal_chat_message_metadata_passthrough")
    );
    assert!(rejection.message.contains("custom model provider"));
}

#[test]
fn server_side_state_is_refused_but_null_is_absent() {
    for (field, value) in [
        ("previous_response_id", v(r#""resp_1""#)),
        ("conversation", v(r#""conv_1""#)),
        ("prompt", v(r#"{"id": "pmpt_1"}"#)),
    ] {
        let mut body = v(r#"{"model": "m", "input": "hi", "stream": true}"#);
        body[field] = value;
        assert_eq!(
            rejected(body.clone()).code,
            RejectionCode::ServerSideState,
            "{field}"
        );
        body[field] = Value::Null;
        assert!(
            upstream(&parse(body).unwrap()).get(field).is_none(),
            "{field}"
        );
    }
}

#[test]
fn hosted_tools_are_refused_with_guidance() {
    let cases = [
        (
            v(r#"{"type": "web_search", "external_web_access": false}"#),
            "web_search = \"disabled\"",
        ),
        (
            v(r#"{"type": "tool_search", "execution": "client"}"#),
            "MCP servers",
        ),
        (v(r#"{"type": "image_generation"}"#), "not allowed"),
        (
            v(r#"{"type": "file_search", "vector_store_ids": ["vs_1"]}"#),
            "not allowed",
        ),
        (v(r#"{"type": "local_shell"}"#), "not allowed"),
        (v(r#"{"type": "mcp", "server_label": "x"}"#), "not allowed"),
    ];
    for (tool, hint) in cases {
        let body =
            fill(r#"{"model": "m", "input": "hi", "stream": true, "tools": ["$0"]}"#, &[Value::from(tool.clone())]);
        let rejection = rejected(body);
        assert_eq!(rejection.code, RejectionCode::HostedTool, "{tool}");
        assert_eq!(rejection.param.as_deref(), Some("tools[0].type"));
        assert!(rejection.message.contains(hint), "{}", rejection.message);
    }

    let mut lite = codex_lite();
    lite["input"][0]["tools"][0]["tools"][0] = v(r#"{"type": "web_search"}"#);
    assert_eq!(
        rejected(lite).param.as_deref(),
        Some("input[0].tools[0].tools[0].type")
    );
}

#[test]
fn namespaces_hold_only_function_and_custom_tools() {
    let nested = v(r#"{"type": "namespace", "name": "outer", "tools": [{"type": "namespace", "name": "inner", "tools": []}]}"#);
    let body = fill(r#"{"model": "m", "input": "hi", "stream": true, "tools": ["$0"]}"#, &[Value::from(nested)]);
    assert_eq!(rejected(body).code, RejectionCode::InvalidValue);

    let deferred = v(r#"{"type": "function", "name": "f", "defer_loading": true}"#);
    let body = fill(r#"{"model": "m", "input": "hi", "stream": true, "tools": ["$0"]}"#, &[Value::from(deferred)]);
    assert_eq!(
        rejected(body).param.as_deref(),
        Some("tools[0].defer_loading")
    );
}

#[test]
fn history_from_unaccepted_tools_is_refused() {
    for kind in [
        "web_search_call",
        "local_shell_call",
        "tool_search_call",
        "tool_search_output",
        "image_generation_call",
        "compaction",
        "context_compaction",
        "item_reference",
        "agent_message",
        "file_search_call",
        "computer_call",
        "mcp_call",
    ] {
        let body = fill(r#"{"model": "m", "stream": true, "input": ["$0", {"type": "$1", "id": "x"}]}"#, &[Value::from(user("hi")), Value::from(kind)]);
        let rejection = rejected(body);
        assert_eq!(
            rejection.code,
            RejectionCode::UnsupportedInputItem,
            "{kind}"
        );
        assert_eq!(rejection.param.as_deref(), Some("input[1].type"));
    }
}

#[test]
fn a_reasoning_item_must_carry_its_encrypted_content() {
    let body = v(r#"{"model": "m", "stream": true, "input": [{"type": "reasoning", "id": "rs_1", "summary": []}]}"#);
    let rejection = rejected(body);
    assert_eq!(rejection.code, RejectionCode::MissingParameter);
    assert_eq!(
        rejection.param.as_deref(),
        Some("input[0].encrypted_content")
    );
}

#[test]
fn only_inline_images_are_accepted() {
    let image = |url: &str| fill(r#"{"model": "m", "stream": true, "input": [{"role": "user", "content": [{"type": "input_image", "image_url": "$0"}]}]}"#, &[Value::from(url)]);
    assert!(parse(image("data:image/png;base64,AAAA")).is_ok());
    for url in [
        "https://example.com/a.png",
        "http://127.0.0.1/a.png",
        "file:///etc/passwd",
    ] {
        assert_eq!(
            rejected(image(url)).code,
            RejectionCode::RemoteReference,
            "{url}"
        );
    }
    let file = v(r#"{"model": "m", "stream": true, "input": [{"role": "user", "content": [{"type": "input_file", "file_url": "https://example.com/a.pdf"}]}]}"#);
    assert_eq!(rejected(file).code, RejectionCode::UnsupportedInputItem);
}

#[test]
fn streaming_is_required() {
    let missing = rejected(v(r#"{"model": "m", "input": "hi"}"#));
    assert_eq!(missing.code, RejectionCode::MissingParameter);
    let off = rejected(v(r#"{"model": "m", "input": "hi", "stream": false}"#));
    assert_eq!(off.param.as_deref(), Some("stream"));
}

#[test]
fn model_and_input_are_required() {
    assert_eq!(
        rejected(v(r#"{"input": "hi", "stream": true}"#))
            .param
            .as_deref(),
        Some("model")
    );
    assert_eq!(
        rejected(v(r#"{"model": "m", "stream": true}"#))
            .param
            .as_deref(),
        Some("input")
    );
    assert_eq!(
        rejected(v(r#"{"model": "", "input": "hi", "stream": true}"#))
            .param
            .as_deref(),
        Some("model")
    );
}

#[test]
fn client_background_mode_is_refused_but_false_is_absent() {
    assert_eq!(
        rejected(v(r#"{"model": "m", "input": "hi", "stream": true, "background": true}"#))
            .param
            .as_deref(),
        Some("background")
    );
    let body = upstream(
        &parse(v(r#"{"model": "m", "input": "hi", "stream": true, "background": false}"#))
            .unwrap(),
    );
    assert_eq!(body["background"], true);
}

#[test]
fn enumerated_values_outside_the_list_are_refused() {
    let cases = [
        (
            "reasoning.effort",
            v(r#"{"reasoning": {"effort": "ultra"}}"#),
        ),
        (
            "reasoning.context",
            v(r#"{"reasoning": {"context": "everything"}}"#),
        ),
        ("text.verbosity", v(r#"{"text": {"verbosity": "max"}}"#)),
        (
            "include[1]",
            v(r#"{"include": ["reasoning.encrypted_content", "web_search_call.action.sources"]}"#),
        ),
        (
            "tool_choice.type",
            v(r#"{"tool_choice": {"type": "web_search_preview"}}"#),
        ),
        (
            "prompt_cache_options.ttl",
            v(r#"{"prompt_cache_options": {"ttl": "24h"}}"#),
        ),
        ("max_output_tokens", v(r#"{"max_output_tokens": 0}"#)),
        ("max_output_tokens", v(r#"{"max_output_tokens": 1.5}"#)),
    ];
    for (param, extra) in cases {
        let mut body = v(r#"{"model": "m", "input": "hi", "stream": true}"#);
        for (key, value) in extra.as_object().unwrap() {
            body[key] = value.clone();
        }
        let rejection = rejected(body);
        assert_eq!(rejection.code, RejectionCode::InvalidValue, "{param}");
        assert_eq!(rejection.param.as_deref(), Some(param));
    }
}

#[test]
fn the_flat_form_excludes_anything_that_adds_input() {
    let flat =
        parse(v(r#"{"model": "m", "input": "hi", "instructions": "be brief", "stream": true}"#))
            .unwrap();
    assert_eq!(
        flat.flat_text(),
        Some(FlatText {
            instructions: Some("be brief"),
            input: "hi"
        })
    );

    for extra in [
        fill(r#"{"tools": ["$0"]}"#, &[Value::from(function_tool())]),
        v(r#"{"tool_choice": "none"}"#),
        v(r#"{"text": {"format": {"type": "json_schema", "name": "a", "schema": {"type": "object"}}}}"#),
    ] {
        let mut body = v(r#"{"model": "m", "input": "hi", "stream": true}"#);
        for (key, value) in extra.as_object().unwrap() {
            body[key] = value.clone();
        }
        assert_eq!(parse(body).unwrap().flat_text(), None, "{extra}");
    }
    assert_eq!(
        parse(fill(r#"{"model": "m", "input": ["$0"], "stream": true}"#, &[Value::from(user("hi"))]))
            .unwrap()
            .flat_text(),
        None
    );
    let plain_format = parse(v(r#"{"model": "m", "input": "hi", "stream": true, "text": {"format": {"type": "text"}}}"#)).unwrap();
    assert!(plain_format.flat_text().is_some());
}

#[test]
fn the_count_bodies_cover_additional_tools_a_second_time() {
    let request = parse(codex_lite()).unwrap();
    let bodies = count_bodies(&request);
    assert_eq!(bodies.len(), 2);

    let whole = &bodies[0];
    let keys: Vec<&str> = whole
        .as_object()
        .unwrap()
        .keys()
        .map(String::as_str)
        .collect();
    assert_eq!(
        keys,
        [
            "model",
            "instructions",
            "input",
            "tool_choice",
            "parallel_tool_calls",
            "reasoning",
            "text"
        ]
    );
    assert_eq!(whole["input"], upstream(&request)["input"]);

    let tools = &bodies[1];
    assert_eq!(tools["tools"], upstream(&request)["input"][0]["tools"]);
    let items = tools["input"].as_array().unwrap();
    assert_eq!(items.len(), 8);
    assert!(items.iter().all(|item| item["type"] != "additional_tools"));
}

#[test]
fn a_count_body_for_hoisted_tools_drops_a_named_tool_choice() {
    let mut lite = codex_lite();
    lite["tool_choice"] = v(r#"{"type": "function", "name": "exec_command"}"#);
    lite["input"].as_array_mut().unwrap().push(
        fill(r#"{"type": "additional_tools", "role": "developer", "tools": ["$0"]}"#, &[Value::from(custom_tool())]),
    );
    let bodies = count_bodies(&parse(lite).unwrap());
    assert_eq!(bodies.len(), 3, "one extra body per additional_tools item");
    assert!(bodies[0].get("tool_choice").is_some());
    assert!(bodies[1].get("tool_choice").is_none());
    assert_eq!(bodies[2]["tools"], fill(r#"["$0"]"#, &[Value::from(custom_tool())]));
}

#[test]
fn an_output_schema_is_part_of_the_counted_input() {
    let format = v(r#"{"type": "json_schema", "name": "answer", "schema": {"type": "object"}}"#);
    let request = parse(fill(r#"{"model": "m", "input": "hi", "stream": true, "text": {"format": "$0"}}"#, &[Value::from(format.clone())])).unwrap();
    assert_eq!(count_bodies(&request)[0]["text"]["format"], format);
}

#[test]
fn a_request_without_additional_tools_is_counted_once() {
    let bodies = count_bodies(&parse(openclaw()).unwrap());
    assert_eq!(bodies.len(), 1);
    assert!(bodies[0].get("max_output_tokens").is_none());
    assert!(bodies[0].get("stream").is_none());
}

#[test]
fn the_openrouter_body_leaves_out_what_openai_alone_needs() {
    let request = parse(codex_lite()).unwrap();
    let body: Value =
        serde_json::from_slice(&request.openrouter_body("nex-agi/nex-n2.5-pro:free")).unwrap();

    assert_eq!(body["model"], "nex-agi/nex-n2.5-pro:free");
    assert_eq!(body["stream"], true);
    assert_eq!(
        body["store"], false,
        "OpenRouter refuses store: true outright"
    );
    assert!(body.get("background").is_none());
    assert!(body.get("service_tier").is_none());
    assert!(body.get("prompt_cache_key").is_none());
    assert!(body.get("include").is_none());
    // Only the measured part of each OpenAI-shaped knob travels.
    assert_eq!(body["reasoning"], v(r#"{"effort": "medium"}"#));
    assert!(
        body.get("text").is_none(),
        "verbosity alone does not travel"
    );
    assert_eq!(body["input"], upstream(&request)["input"]);
}

#[test]
fn an_output_schema_travels_to_openrouter() {
    let format = v(r#"{"type": "json_schema", "name": "answer", "schema": {"type": "object"}}"#);
    let request = parse(fill(r#"{
        "model": "gpt-5.6-terra", "input": "hi", "stream": true,
        "text": {"verbosity": "low", "format": "$0"}
    }"#, &[Value::from(format.clone())]))
    .unwrap();
    let body: Value = serde_json::from_slice(&request.openrouter_body("x/y:free")).unwrap();
    assert_eq!(body["text"], fill(r#"{"format": "$0"}"#, &[Value::from(format)]));
}

#[test]
fn tool_usage_finds_every_shape_wherever_it_is_declared() {
    assert_eq!(
        parse(codex_lite()).unwrap().tool_usage(),
        ToolUsage {
            function: true,
            custom: true,
            namespace: true,
            additional_tools: true
        },
        "Codex declares a namespace of function and custom tools in an additional_tools item"
    );

    assert_eq!(
        parse(openclaw()).unwrap().tool_usage(),
        ToolUsage {
            function: true,
            ..ToolUsage::default()
        }
    );

    let plain = parse(v(r#"{"model": "m", "input": "hi", "stream": true}"#)).unwrap();
    assert_eq!(plain.tool_usage(), ToolUsage::default());

    let top_level_custom = parse(fill(r#"{
        "model": "m", "input": "hi", "stream": true, "tools": ["$0"]
    }"#, &[Value::from(custom_tool())]))
    .unwrap();
    assert_eq!(
        top_level_custom.tool_usage(),
        ToolUsage {
            custom: true,
            ..ToolUsage::default()
        }
    );
}

#[test]
fn a_structured_output_is_visible_to_the_router() {
    let plain = parse(v(r#"{"model": "m", "input": "hi", "stream": true}"#)).unwrap();
    assert!(!plain.needs_structured_output());

    let text_format = parse(v(r#"{
        "model": "m", "input": "hi", "stream": true, "text": {"format": {"type": "text"}}
    }"#))
    .unwrap();
    assert!(!text_format.needs_structured_output());

    let schema = parse(v(r#"{
        "model": "m", "input": "hi", "stream": true,
        "text": {"format": {"type": "json_schema", "name": "a", "schema": {"type": "object"}}}
    }"#))
    .unwrap();
    assert!(schema.needs_structured_output());
}

#[test]
fn a_rejection_becomes_an_openai_error_body() {
    let rejection = rejected(
        v(r#"{"model": "m", "input": "hi", "stream": true, "tools": [{"type": "web_search"}]}"#),
    );
    let body = value_of(&rejection.error_body());
    assert_eq!(body["error"]["type"], "invalid_request_error");
    assert_eq!(body["error"]["code"], "hosted_tool_unsupported");
    assert_eq!(body["error"]["param"], "tools[0].type");
}

const TOP_LEVEL: [&str; 23] = [
    "model",
    "input",
    "instructions",
    "tools",
    "tool_choice",
    "parallel_tool_calls",
    "reasoning",
    "text",
    "include",
    "max_output_tokens",
    "temperature",
    "top_p",
    "metadata",
    "prompt_cache_key",
    "prompt_cache_options",
    "client_metadata",
    "store",
    "service_tier",
    "stream",
    "background",
    "previous_response_id",
    "conversation",
    "prompt",
];

/// Names near the listed ones, and some far from them.
fn other_names(listed: &[&str]) -> Vec<String> {
    let mut names: Vec<String> = vec!["a".into(), "_".into(), "zzzzzzzzzzzzzzzzzzzzzzzz".into()];
    for name in TOP_LEVEL {
        names.push(format!("{name}_"));
        names.push(format!("x_{name}"));
        names.push(name[1..].to_string());
    }
    names.retain(|name| !listed.contains(&name.as_str()));
    names
}

#[test]
fn unknown_top_level_fields_are_refused() {
    for name in other_names(&TOP_LEVEL) {
        for value in [i64::MIN, -1, 0, 7, i64::MAX] {
            let mut body = v(r#"{"model": "m", "input": "hi", "stream": true}"#);
            body[name.as_str()] = Value::from(value);
            let rejection = parse(body).unwrap_err();
            assert_eq!(rejection.code, RejectionCode::UnsupportedParameter);
            assert_eq!(rejection.param, Some(name.clone()));
        }
    }
}

#[test]
fn unknown_message_fields_are_refused() {
    for name in other_names(&["type", "id", "status", "role", "content", "phase"]) {
        let mut message = user("hi");
        message[name.as_str()] = Value::from(1);
        let body = fill(
            r#"{"model": "m", "stream": true, "input": ["$0"]}"#,
            &[message],
        );
        let rejection = parse(body).unwrap_err();
        assert_eq!(rejection.code, RejectionCode::UnsupportedParameter);
    }
}

#[test]
fn each_code_has_its_name() {
    let expected = [
        (RejectionCode::InvalidJson, "invalid_json"),
        (RejectionCode::DuplicateKey, "duplicate_key"),
        (RejectionCode::HostedTool, "hosted_tool_unsupported"),
    ];
    for (code, name) in expected {
        assert_eq!(code.as_str(), name);
    }
}

#[test]
fn the_same_document_reads_the_same_from_its_value() {
    let bytes = serde_json::to_vec(&codex_lite()).unwrap();
    let value = Json::parse(&bytes).unwrap();
    assert_eq!(
        CreateRequest::from_value(&value).unwrap(),
        CreateRequest::parse(&bytes).unwrap()
    );
}
