//! The decisions of `portsage self-update`: what the release query gave, the
//! tag of the latest release, and the steps of a Homebrew upgrade.

use vstd::prelude::*;
use vstd::utf8::{decode_utf8, valid_utf8};
use crate::json::{Json, get, json_parse, member, parse_json_text};
use crate::version::{spec_strip_v, strip_v};

verus! {

pub const REPO: &'static str = "essedev/portsage";

pub const LATEST_API_URL: &'static str = "https://api.github.com/repos/essedev/portsage/releases/latest";

pub const RELEASES_PAGE_URL: &'static str = "https://github.com/essedev/portsage/releases/latest";

#[verifier::external_type_specification]
#[verifier::external_body]
pub struct ExIoError(std::io::Error);

#[verifier::external_type_specification]
#[verifier::external_body]
pub struct ExJsonError(serde_json::Error);

/// Why a self-update failed.
#[derive(Debug)]
pub enum SelfUpdateError {
    Io(std::io::Error),
    Json(serde_json::Error),
    CurlMissing,
    CurlFailed { stderr: String },
    ParseFailed { reason: String },
    BrewFailed { stderr: String },
    Aborted,
}

/// The `Display` text of an I/O error (`std::io::Error`'s `Display`); its
/// wording comes from the platform and is not stated.
#[verifier::external_body]
pub(crate) fn io_error_text(e: &std::io::Error) -> (r: String) {
    format!("{e}")
}

/// The `Display` text of a JSON error (`serde_json::Error`'s `Display`); its
/// wording is serde_json's and is not stated.
#[verifier::external_body]
fn json_error_text(e: &serde_json::Error) -> (r: String) {
    format!("{e}")
}

/// The text that `String::from_utf8_lossy` makes of the bytes `b`: invalid
/// sequences replaced by U+FFFD.
pub uninterp spec fn lossy_decode(b: Seq<u8>) -> Seq<char>;

/// The `Display` text of the error that `String::from_utf8` gives for the
/// bytes `b` (which names the position of the first invalid sequence).
pub uninterp spec fn utf8_error_text(b: Seq<u8>) -> Seq<char>;

/// `String::from_utf8_lossy`: its result is named `lossy_decode` of the
/// bytes, and is the decoded text when the bytes are UTF-8; how invalid
/// sequences are replaced is not spelled out.
#[verifier::external_body]
pub(crate) fn lossy_text(bytes: &Vec<u8>) -> (r: String)
    ensures
        r@ == lossy_decode(bytes@),
        valid_utf8(bytes@) ==> r@ == decode_utf8(bytes@),
{
    String::from_utf8_lossy(bytes).into_owned()
}

/// `String::from_utf8`: the text when the bytes are UTF-8, else the error's
/// `Display` text, named `utf8_error_text` of the bytes.
#[verifier::external_body]
fn utf8_text(bytes: Vec<u8>) -> (r: Result<String, String>)
    ensures
        r is Ok <==> valid_utf8(bytes@),
        r matches Ok(s) ==> s@ == decode_utf8(bytes@),
        r matches Err(m) ==> m@ == utf8_error_text(bytes@),
{
    String::from_utf8(bytes).map_err(|e| format!("{e}"))
}

impl SelfUpdateError {
    /// The message shown for this error.
    pub fn describe(&self) -> (r: String)
        ensures
            match self {
                SelfUpdateError::Io(_) => exists|t: Seq<char>| r@ == "io: "@ + t,
                SelfUpdateError::Json(_) => exists|t: Seq<char>| r@ == "parse: "@ + t,
                SelfUpdateError::CurlMissing => r@
                    == "curl is required for self-update but was not found on PATH"@,
                SelfUpdateError::CurlFailed { stderr } => r@ == "curl failed: "@ + stderr@,
                SelfUpdateError::ParseFailed { reason } => r@ == "could not parse latest release ("@
                    + reason@ + ")"@,
                SelfUpdateError::BrewFailed { stderr } => r@ == "brew upgrade failed: "@ + stderr@,
                SelfUpdateError::Aborted => r@ == "aborted"@,
            },
    {
        match self {
            SelfUpdateError::Io(e) => {
                let t = io_error_text(e);
                let mut r = String::from_str("io: ");
                r.append(t.as_str());
                r
            },
            SelfUpdateError::Json(e) => {
                let t = json_error_text(e);
                let mut r = String::from_str("parse: ");
                r.append(t.as_str());
                r
            },
            SelfUpdateError::CurlMissing => String::from_str(
                "curl is required for self-update but was not found on PATH",
            ),
            SelfUpdateError::CurlFailed { stderr } => {
                let mut r = String::from_str("curl failed: ");
                r.append(stderr.as_str());
                r
            },
            SelfUpdateError::ParseFailed { reason } => {
                let mut r = String::from_str("could not parse latest release (");
                r.append(reason.as_str());
                r.append(")");
                r
            },
            SelfUpdateError::BrewFailed { stderr } => {
                let mut r = String::from_str("brew upgrade failed: ");
                r.append(stderr.as_str());
                r
            },
            SelfUpdateError::Aborted => String::from_str("aborted"),
        }
    }
}

/// The version the release document `release` names: its `tag_name` without
/// a leading `v`, when that is a string.
pub fn release_tag(release: &Json) -> (r: Result<String, SelfUpdateError>)
    ensures
        match member(*release, "tag_name"@) {
            Json::Str(t) => r matches Ok(v) && v@ == spec_strip_v(t@),
            _ => r matches Err(SelfUpdateError::ParseFailed { reason }) && reason@
                == "tag_name missing from response"@,
        },
{
    match get(release, "tag_name") {
        Some(v) => match v {
            Json::Str(t) => Ok(String::from_str(strip_v(t.as_str()))),
            _ => Err(
                SelfUpdateError::ParseFailed {
                    reason: String::from_str("tag_name missing from response"),
                },
            ),
        },
        None => Err(
            SelfUpdateError::ParseFailed {
                reason: String::from_str("tag_name missing from response"),
            },
        ),
    }
}

/// The version that the release API's answer `body` names: a JSON document
/// whose `tag_name` is a string, taken without a leading `v`.
pub fn extract_tag_name(body: &str) -> (r: Result<String, SelfUpdateError>)
    ensures
        match json_parse(body@) {
            Err(_) => r matches Err(SelfUpdateError::Json(_)),
            Ok(j) => match member(j, "tag_name"@) {
                Json::Str(t) => r matches Ok(v) && v@ == spec_strip_v(t@),
                _ => r matches Err(SelfUpdateError::ParseFailed { reason }) && reason@
                    == "tag_name missing from response"@,
            },
        },
{
    match parse_json_text(body) {
        Ok(j) => release_tag(&j),
        Err((e, _)) => Err(SelfUpdateError::Json(e)),
    }
}

/// What came of running an external command (`curl`, `uv`).
pub enum CommandRun {
    /// The command is not on PATH.
    Missing,
    /// The command could not be started for another reason.
    Failed(std::io::Error),
    /// The command ran; whether it exited with success, and its output.
    Exited { success: bool, stdout: Vec<u8>, stderr: Vec<u8> },
}

/// What `curl` gave, its output decoded.
pub enum CurlReply {
    /// `curl` is not on PATH.
    Missing,
    /// `curl` could not be started for another reason.
    Failed(std::io::Error),
    /// `curl` exited with failure; its stderr, lossily decoded.
    Refused { stderr: String },
    /// `curl` succeeded; its stdout as UTF-8 text, or the decoding error's
    /// text.
    Answered { body: Result<String, String> },
}

/// The body of the release API's answer, or the error that the reply gives.
pub fn release_from_reply(reply: CurlReply) -> (r: Result<String, SelfUpdateError>)
    ensures
        match reply {
            CurlReply::Missing => r matches Err(SelfUpdateError::CurlMissing),
            CurlReply::Failed(e) => r matches Err(SelfUpdateError::Io(x)) && x == e,
            CurlReply::Refused { stderr } => r matches Err(SelfUpdateError::CurlFailed { stderr: t })
                && t == stderr,
            CurlReply::Answered { body: Ok(b) } => r == Ok::<String, SelfUpdateError>(b),
            CurlReply::Answered { body: Err(m) } => r matches Err(
                SelfUpdateError::ParseFailed { reason },
            ) && reason@ == "non-utf8 body: "@ + m@,
        },
{
    match reply {
        CurlReply::Missing => Err(SelfUpdateError::CurlMissing),
        CurlReply::Failed(e) => Err(SelfUpdateError::Io(e)),
        CurlReply::Refused { stderr } => Err(SelfUpdateError::CurlFailed { stderr }),
        CurlReply::Answered { body: Ok(b) } => Ok(b),
        CurlReply::Answered { body: Err(m) } => {
            let mut reason = String::from_str("non-utf8 body: ");
            reason.append(m.as_str());
            Err(SelfUpdateError::ParseFailed { reason })
        },
    }
}

/// The body of the release API's answer: curl's output when it succeeded and
/// is UTF-8; the error that the run gives otherwise.
pub fn release_body(run: CommandRun) -> (r: Result<String, SelfUpdateError>)
    ensures
        match run {
            CommandRun::Missing => r matches Err(SelfUpdateError::CurlMissing),
            CommandRun::Failed(e) => r matches Err(SelfUpdateError::Io(x)) && x == e,
            CommandRun::Exited { success, stdout, stderr } => if !success {
                r matches Err(SelfUpdateError::CurlFailed { stderr: t }) && t@ == lossy_decode(stderr@)
                    && (valid_utf8(stderr@) ==> t@ == decode_utf8(stderr@))
            } else if valid_utf8(stdout@) {
                r matches Ok(body) && body@ == decode_utf8(stdout@)
            } else {
                r matches Err(SelfUpdateError::ParseFailed { reason }) && reason@ == "non-utf8 body: "@
                    + utf8_error_text(stdout@)
            },
        },
{
    let reply = match run {
        CommandRun::Missing => CurlReply::Missing,
        CommandRun::Failed(e) => CurlReply::Failed(e),
        CommandRun::Exited { success, stdout, stderr } => {
            if !success {
                CurlReply::Refused { stderr: lossy_text(&stderr) }
            } else {
                CurlReply::Answered { body: utf8_text(stdout) }
            }
        },
    };
    release_from_reply(reply)
}

/// The Homebrew commands of an upgrade, in order.
#[derive(Debug, Clone, Copy, PartialEq, Eq, Structural)]
pub enum BrewStage {
    /// `brew update`, so that the cask sees what was just published.
    Update,
    /// `brew upgrade --cask portsage`.
    Upgrade,
}

/// After `stage` ran with `status` (whether it exited with success, or why
/// it could not run): the next stage (`None` when the upgrade is done) or
/// the error.
pub fn brew_next(stage: BrewStage, status: Result<bool, std::io::Error>) -> (r: Result<
    Option<BrewStage>,
    SelfUpdateError,
>)
    ensures
        match status {
            Err(e) => r matches Err(SelfUpdateError::Io(x)) && x == e,
            Ok(true) => r == match stage {
                BrewStage::Update => Ok::<Option<BrewStage>, SelfUpdateError>(Some(BrewStage::Upgrade)),
                BrewStage::Upgrade => Ok::<Option<BrewStage>, SelfUpdateError>(None),
            },
            Ok(false) => r matches Err(SelfUpdateError::BrewFailed { stderr }) && stderr@ == match stage {
                BrewStage::Update => "brew update returned non-zero"@,
                BrewStage::Upgrade => "brew upgrade --cask portsage returned non-zero"@,
            },
        },
{
    match status {
        Err(e) => Err(SelfUpdateError::Io(e)),
        Ok(true) => match stage {
            BrewStage::Update => Ok(Some(BrewStage::Upgrade)),
            BrewStage::Upgrade => Ok(None),
        },
        Ok(false) => match stage {
            BrewStage::Update => Err(
                SelfUpdateError::BrewFailed {
                    stderr: String::from_str("brew update returned non-zero"),
                },
            ),
            BrewStage::Upgrade => Err(
                SelfUpdateError::BrewFailed {
                    stderr: String::from_str("brew upgrade --cask portsage returned non-zero"),
                },
            ),
        },
    }
}

} // verus!
