use portsage::json::Json;
use portsage::self_update::{
    brew_next, extract_tag_name, release_body, release_from_reply, release_tag, BrewStage, CurlReply, CommandRun,
    SelfUpdateError,
};

fn release(tag: Option<Json>) -> Json {
    let mut members = vec![(String::from("name"), Json::Str("Release 1.2.3".into()))];
    if let Some(t) = tag {
        members.insert(0, (String::from("tag_name"), t));
    }
    Json::Object(members)
}

#[test]
fn extract_tag_name_strips_v() {
    let body = r#"{"tag_name": "v1.2.3", "name": "Release 1.2.3"}"#;
    assert_eq!(extract_tag_name(body).unwrap(), "1.2.3");
}

#[test]
fn extract_tag_name_errors_when_missing() {
    let body = r#"{"name": "no tag here"}"#;
    let err = extract_tag_name(body).unwrap_err();
    assert!(matches!(err, SelfUpdateError::ParseFailed { .. }));
}

#[test]
fn extract_tag_name_errors_on_bad_json() {
    assert!(matches!(extract_tag_name("{ nope"), Err(SelfUpdateError::Json(_))));
}

#[test]
fn release_tag_reads_a_built_document() {
    let body = release(Some(Json::Str("v1.2.3".into())));
    assert_eq!(release_tag(&body).unwrap(), "1.2.3");
}

#[test]
fn release_tag_needs_a_string() {
    let body = release(Some(Json::Number("3".into())));
    match release_tag(&body) {
        Err(SelfUpdateError::ParseFailed { reason }) => {
            assert_eq!(reason, "tag_name missing from response")
        }
        _ => panic!("a numeric tag was accepted"),
    }
    assert_eq!(release_tag(&release(Some(Json::Str("0.9.0".into())))).unwrap(), "0.9.0");
}

#[test]
fn release_body_classifies_the_curl_run() {
    assert!(matches!(release_body(CommandRun::Missing), Err(SelfUpdateError::CurlMissing)));
    let failed = release_body(CommandRun::Exited {
        success: false,
        stdout: vec![],
        stderr: b"curl: (22) 404".to_vec(),
    });
    match failed {
        Err(SelfUpdateError::CurlFailed { stderr }) => assert_eq!(stderr, "curl: (22) 404"),
        _ => panic!(),
    }
    let ok = release_body(CommandRun::Exited {
        success: true,
        stdout: b"{\"tag_name\": \"v1\"}".to_vec(),
        stderr: vec![],
    });
    assert_eq!(ok.unwrap(), "{\"tag_name\": \"v1\"}");
    let bad = release_body(CommandRun::Exited { success: true, stdout: vec![0xff, 0xfe], stderr: vec![] });
    match bad {
        Err(SelfUpdateError::ParseFailed { reason }) => assert!(reason.starts_with("non-utf8 body: ")),
        _ => panic!(),
    }
    let io = std::io::Error::new(std::io::ErrorKind::Other, "boom");
    assert!(matches!(release_body(CommandRun::Failed(io)), Err(SelfUpdateError::Io(_))));
}

#[test]
fn brew_runs_update_then_upgrade() {
    assert!(matches!(brew_next(BrewStage::Update, Ok(true)), Ok(Some(BrewStage::Upgrade))));
    assert!(matches!(brew_next(BrewStage::Upgrade, Ok(true)), Ok(None)));
    match brew_next(BrewStage::Update, Ok(false)) {
        Err(e) => assert_eq!(e.describe(), "brew upgrade failed: brew update returned non-zero"),
        _ => panic!(),
    }
    match brew_next(BrewStage::Upgrade, Ok(false)) {
        Err(SelfUpdateError::BrewFailed { stderr }) => {
            assert_eq!(stderr, "brew upgrade --cask portsage returned non-zero")
        }
        _ => panic!(),
    }
}

#[test]
fn error_messages() {
    assert_eq!(
        SelfUpdateError::CurlMissing.describe(),
        "curl is required for self-update but was not found on PATH"
    );
    assert_eq!(
        SelfUpdateError::CurlFailed { stderr: "x".into() }.describe(),
        "curl failed: x"
    );
    assert_eq!(
        SelfUpdateError::ParseFailed { reason: "r".into() }.describe(),
        "could not parse latest release (r)"
    );
    assert_eq!(SelfUpdateError::Aborted.describe(), "aborted");
    let io = std::io::Error::new(std::io::ErrorKind::Other, "boom");
    assert_eq!(SelfUpdateError::Io(io).describe(), "io: boom");
}

#[test]
fn release_body_decodes_invalid_stderr_lossily() {
    let stderr = vec![b'x', 0xff, b'y'];
    let expected = String::from_utf8_lossy(&stderr).into_owned();
    match release_body(CommandRun::Exited { success: false, stdout: vec![], stderr }) {
        Err(SelfUpdateError::CurlFailed { stderr }) => assert_eq!(stderr, expected),
        _ => panic!(),
    }
    let stdout = vec![b'{', 0xc3];
    let expected = format!("non-utf8 body: {}", String::from_utf8(stdout.clone()).unwrap_err());
    match release_body(CommandRun::Exited { success: true, stdout, stderr: vec![] }) {
        Err(SelfUpdateError::ParseFailed { reason }) => assert_eq!(reason, expected),
        _ => panic!(),
    }
}

#[test]
fn release_from_reply_passes_texts_through() {
    match release_from_reply(CurlReply::Refused { stderr: "e".into() }) {
        Err(SelfUpdateError::CurlFailed { stderr }) => assert_eq!(stderr, "e"),
        _ => panic!(),
    }
    match release_from_reply(CurlReply::Answered { body: Err("bad byte".into()) }) {
        Err(SelfUpdateError::ParseFailed { reason }) => assert_eq!(reason, "non-utf8 body: bad byte"),
        _ => panic!(),
    }
    assert_eq!(release_from_reply(CurlReply::Answered { body: Ok("{}".into()) }).unwrap(), "{}");
    assert!(matches!(release_from_reply(CurlReply::Missing), Err(SelfUpdateError::CurlMissing)));
}

#[test]
fn extract_tag_name_needs_a_string_tag() {
    let err = extract_tag_name(r#"{"tag_name": 3}"#).unwrap_err();
    match err {
        SelfUpdateError::ParseFailed { reason } => assert_eq!(reason, "tag_name missing from response"),
        _ => panic!("expected ParseFailed"),
    }
    assert_eq!(extract_tag_name(r#"{"tag_name": "0.12.1"}"#).unwrap(), "0.12.1");
}
