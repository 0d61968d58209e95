use cadenza::codex::{handshake_step, HandshakeStep};

#[test]
fn closed_stdout_is_an_early_exit() {
    assert!(matches!(handshake_step(None), HandshakeStep::EarlyExit));
}

#[test]
fn blank_lines_are_skipped() {
    assert!(matches!(handshake_step(Some("   \n")), HandshakeStep::ReadMore));
    assert!(matches!(handshake_step(Some("")), HandshakeStep::ReadMore));
}

#[test]
fn a_result_with_the_four_fields_completes_the_handshake() {
    let line = "{\"jsonrpc\":\"2.0\",\"id\":1,\"result\":{\"userAgent\":\"codex/1\",\"codexHome\":\"/h\",\"platformFamily\":\"unix\",\"platformOs\":\"linux\",\"extra\":1}}\n";
    match handshake_step(Some(line)) {
        HandshakeStep::Initialized(r) => {
            assert_eq!(r.user_agent, "codex/1");
            assert_eq!(r.codex_home, "/h");
            assert_eq!(r.platform_family, "unix");
            assert_eq!(r.platform_os, "linux");
        }
        other => panic!("got {other:?}"),
    }
}

#[test]
fn an_error_reply_is_a_protocol_failure() {
    let line = r#"{"id":1,"error":{"code":-32600,"message":"bad request"},"result":{}}"#;
    match handshake_step(Some(line)) {
        HandshakeStep::Protocol { code, message } => {
            assert_eq!(code, -32600);
            assert_eq!(message, "bad request");
        }
        other => panic!("got {other:?}"),
    }
}

#[test]
fn malformed_replies_are_decode_failures() {
    assert!(matches!(handshake_step(Some("{oops")), HandshakeStep::Decode(_)));
    match handshake_step(Some(r#"{"id":1}"#)) {
        HandshakeStep::Decode(m) => assert_eq!(m, "missing result"),
        other => panic!("got {other:?}"),
    }
    match handshake_step(Some(r#"{"id":1,"result":null,"error":null}"#)) {
        HandshakeStep::Decode(m) => assert_eq!(m, "missing result"),
        other => panic!("got {other:?}"),
    }
    assert!(matches!(
        handshake_step(Some(r#"{"result":{"userAgent":"u"}}"#)),
        HandshakeStep::Decode(_)
    ));
    assert!(matches!(
        handshake_step(Some(r#"{"error":{"code":1.5,"message":"m"}}"#)),
        HandshakeStep::Decode(_)
    ));
    assert!(matches!(handshake_step(Some("[]")), HandshakeStep::Decode(_)));
}

#[test]
fn a_reply_in_array_form_is_read_by_position() {
    let line = r#"["2.0",1,["codex/1","/h","unix","linux"],null]"#;
    match handshake_step(Some(line)) {
        HandshakeStep::Initialized(r) => {
            assert_eq!(r.user_agent, "codex/1");
            assert_eq!(r.platform_os, "linux");
        }
        other => panic!("got {other:?}"),
    }
    match handshake_step(Some(r#"[null,1,null,[7,"nope"]]"#)) {
        HandshakeStep::Protocol { code, message } => {
            assert_eq!(code, 7);
            assert_eq!(message, "nope");
        }
        other => panic!("got {other:?}"),
    }
    assert!(matches!(handshake_step(Some(r#"["2.0",1,{}]"#)), HandshakeStep::Decode(_)));
}
