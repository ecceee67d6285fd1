use ghost_monkey::{AppMessage, CommandResponse, ProtocolError};

fn command(text: &str) -> AppMessage {
    AppMessage::Command { command: text.to_string() }
}

#[test]
fn validate_rejects_empty_command() {
    assert!(command("").validate().is_err());
}

#[test]
fn validate_rejects_command_of_1025_chars() {
    assert!(command(&"a".repeat(1025)).validate().is_err());
}

#[test]
fn validate_accepts_commands_of_1_to_1024_chars() {
    assert_eq!(command("a").validate(), Ok(()));
    assert_eq!(command("ls").validate(), Ok(()));
    assert_eq!(command(&"x".repeat(1024)).validate(), Ok(()));
}

#[test]
fn validate_counts_characters_not_bytes() {
    assert_eq!(command(&"é".repeat(1024)).validate(), Ok(()));
    assert!(command(&"é".repeat(1025)).validate().is_err());
}

#[test]
fn validate_rejects_empty_error_and_accepts_any_response() {
    assert!(AppMessage::Error { message: String::new() }.validate().is_err());
    assert_eq!(AppMessage::Error { message: "boom".to_string() }.validate(), Ok(()));
    let empty = AppMessage::Response {
        success: false,
        stdout: String::new(),
        stderr: String::new(),
        exit_code: None,
    };
    assert_eq!(empty.validate(), Ok(()));
}

#[test]
fn command_encodes_as_tagged_json() {
    assert_eq!(command("ls").to_bytes(), br#"{"Command":{"command":"ls"}}"#.to_vec());
}

#[test]
fn response_encodes_as_tagged_json() {
    let m = AppMessage::Response {
        success: true,
        stdout: "a\nb\n".to_string(),
        stderr: String::new(),
        exit_code: Some(0),
    };
    let expected = br#"{"Response":{"success":true,"stdout":"a\nb\n","stderr":"","exit_code":0}}"#;
    assert_eq!(m.to_bytes(), expected.to_vec());
}

#[test]
fn error_and_null_exit_code_encode_as_json() {
    let e = AppMessage::Error { message: "say \"hi\" \\ \u{1}".to_string() };
    assert_eq!(e.to_bytes(), br#"{"Error":{"message":"say \"hi\" \\ \u0001"}}"#.to_vec());
    let r = AppMessage::Response {
        success: false,
        stdout: String::new(),
        stderr: "x".to_string(),
        exit_code: None,
    };
    assert_eq!(
        r.to_bytes(),
        br#"{"Response":{"success":false,"stdout":"","stderr":"x","exit_code":null}}"#.to_vec()
    );
}

#[test]
fn negative_exit_code_encodes_with_minus() {
    let r = AppMessage::Response {
        success: false,
        stdout: String::new(),
        stderr: String::new(),
        exit_code: Some(-17),
    };
    assert_eq!(
        r.to_bytes(),
        br#"{"Response":{"success":false,"stdout":"","stderr":"","exit_code":-17}}"#.to_vec()
    );
}

#[test]
fn round_trip_restores_every_message() {
    let samples = vec![
        command("ls"),
        command("echo \"quoted\" \\ back\tslash\r\n\u{7f}"),
        command("ünïcödé ✓ 𝄞"),
        AppMessage::Response {
            success: true,
            stdout: "a\nb\n".to_string(),
            stderr: String::new(),
            exit_code: Some(0),
        },
        AppMessage::Response {
            success: false,
            stdout: "\u{0}\u{1f}\u{8}\u{c}".to_string(),
            stderr: "err".to_string(),
            exit_code: Some(i32::MIN),
        },
        AppMessage::Response {
            success: true,
            stdout: String::new(),
            stderr: String::new(),
            exit_code: Some(i32::MAX),
        },
        AppMessage::Response {
            success: false,
            stdout: String::new(),
            stderr: String::new(),
            exit_code: None,
        },
        AppMessage::Error { message: "permission denied".to_string() },
    ];
    for m in samples {
        let bytes = m.to_bytes();
        assert_eq!(AppMessage::from_bytes(&bytes), Ok(m));
    }
}

#[test]
fn from_bytes_rejects_what_is_not_an_encoding() {
    let bad: Vec<&[u8]> = vec![
        b"",
        b"{}",
        b"not json",
        br#"{"Command":{"command":"ls"}} "#,
        br#"{"Command":{"command":"ls"}"#,
        br#"{"Command": {"command":"ls"}}"#,
        br#"{"Ping":{}}"#,
        br#"{"Response":{"success":true,"stdout":"","stderr":"","exit_code":007}}"#,
        br#"{"Response":{"success":true,"stdout":"","stderr":"","exit_code":2147483648}}"#,
        br#"{"Response":{"success":yes,"stdout":"","stderr":"","exit_code":1}}"#,
        br#"{"Error":{"message":"\q"}}"#,
        b"{\"Error\":{\"message\":\"\xff\"}}",
    ];
    for b in bad {
        assert!(matches!(AppMessage::from_bytes(b), Err(ProtocolError::Serialization(_))));
    }
}

#[test]
fn from_bytes_accepts_extreme_exit_codes() {
    let low = br#"{"Response":{"success":false,"stdout":"","stderr":"","exit_code":-2147483648}}"#;
    let m = AppMessage::from_bytes(low).unwrap();
    assert_eq!(
        m,
        AppMessage::Response {
            success: false,
            stdout: String::new(),
            stderr: String::new(),
            exit_code: Some(-2147483648),
        }
    );
}

#[test]
fn command_response_constructors() {
    let s = CommandResponse::success("out".to_string(), "warn".to_string(), Some(0));
    assert_eq!(
        s,
        CommandResponse {
            success: true,
            stdout: "out".to_string(),
            stderr: "warn".to_string(),
            exit_code: Some(0)
        }
    );
    let f = CommandResponse::failure("bad".to_string(), Some(2));
    assert_eq!(
        f,
        CommandResponse {
            success: false,
            stdout: String::new(),
            stderr: "bad".to_string(),
            exit_code: Some(2)
        }
    );
    let e = CommandResponse::error("oops".to_string());
    assert_eq!(
        e,
        CommandResponse {
            success: false,
            stdout: String::new(),
            stderr: "oops".to_string(),
            exit_code: None
        }
    );
}

#[test]
fn success_description_lists_code_and_outputs() {
    let r = CommandResponse::success("a\nb\n".to_string(), "warn".to_string(), Some(0));
    assert_eq!(
        r.to_string(),
        "Command executed successfully (exit code: 0)\nStdout:\na\nb\n\nStderr:\nwarn"
    );
    let quiet = CommandResponse::success(String::new(), String::new(), None);
    assert_eq!(quiet.to_string(), "Command executed successfully");
}

#[test]
fn failure_description_shows_stderr_only() {
    let r = CommandResponse {
        success: false,
        stdout: "ignored".to_string(),
        stderr: "bad".to_string(),
        exit_code: Some(-1),
    };
    assert_eq!(r.to_string(), "Command execution failed (exit code: -1)\nError:\nbad");
    assert_eq!(
        CommandResponse::error("oops".to_string()).to_string(),
        "Command execution failed\nError:\noops"
    );
    let big = CommandResponse::failure(String::new(), Some(i32::MIN));
    assert_eq!(big.to_string(), "Command execution failed (exit code: -2147483648)");
}

#[test]
fn validate_error_texts() {
    assert_eq!(command("").validate(), Err("Command cannot be empty".to_string()));
    assert_eq!(
        command(&"a".repeat(1025)).validate(),
        Err("Command too long (max 1024 characters)".to_string())
    );
    assert_eq!(
        AppMessage::Error { message: String::new() }.validate(),
        Err("Error message cannot be empty".to_string())
    );
}
