//! The Puppet Forge: where a module's page is, and what the page says of the
//! module's latest release.

use crate::version::{parse_version, ParseError, Version};
use vstd::prelude::*;
use vstd::string::*;

verus! {

/// Why the Forge gave no latest release for a module.
#[derive(Debug, Clone, PartialEq, Eq)]
pub enum FetchError {
    /// No answer came, or the answer is not JSON.
    Transport,
    /// The answer names no release; holds the answer as it came.
    NotFound(String),
    /// The answer names a release that is no release number.
    Malformed(ParseError),
}

/// A JSON document as `serde_json` holds it in a `Value`. Numbers stand
/// without their value.
pub enum JsonModel {
    Null,
    Bool(bool),
    Number,
    Text(Seq<char>),
    Array(Seq<JsonModel>),
    Object(Map<Seq<char>, JsonModel>),
}

impl JsonModel {
    /// The member `key` of an object; `Null` where there is none, and for
    /// what is no object.
    pub open spec fn member(self, key: Seq<char>) -> JsonModel {
        match self {
            JsonModel::Object(members) => if members.contains_key(key) {
                members[key]
            } else {
                JsonModel::Null
            },
            _ => JsonModel::Null,
        }
    }

    /// The text of a JSON string; nothing for any other value.
    pub open spec fn text(self) -> Option<Seq<char>> {
        match self {
            JsonModel::Text(t) => Some(t),
            _ => None,
        }
    }
}

/// `serde_json::Value`, a JSON document in memory.
#[verifier::external_type_specification]
#[verifier::external_body]
pub struct ExValue(serde_json::Value);

/// `serde_json::Error`, the reason why a text is not JSON.
#[verifier::external_type_specification]
#[verifier::external_body]
pub struct ExError(serde_json::Error);

/// What a `serde_json::Value` holds.
pub uninterp spec fn json_model(v: serde_json::Value) -> JsonModel;

/// What `serde_json::from_str` reads from a text as a `Value`: the document,
/// or nothing where the text is not JSON.
pub uninterp spec fn json_document(text: Seq<char>) -> Option<JsonModel>;

/// `serde_json::from_str`, at the type `Value`: whether it succeeds and what
/// the value holds depend on the text alone.
#[verifier::external_body]
fn json_parse(text: &str) -> (r: Result<serde_json::Value, serde_json::Error>)
    ensures
        match r {
            Ok(v) => json_document(text@) == Some(json_model(v)),
            Err(_) => json_document(text@) is None,
        },
{
    serde_json::from_str::<serde_json::Value>(text)
}

/// Indexing a `serde_json::Value` by a string: the member of that name, or
/// a null value where there is none or the value is no object.
#[verifier::external_body]
fn json_member<'a>(v: &'a serde_json::Value, key: &str) -> (r: &'a serde_json::Value)
    ensures
        json_model(*r) == json_model(*v).member(key@),
{
    &v[key]
}

/// `serde_json::Value::as_str`: the text of a JSON string, and nothing for
/// any other value.
#[verifier::external_body]
fn json_text<'a>(v: &'a serde_json::Value) -> (r: Option<&'a str>)
    ensures
        match r {
            Some(t) => json_model(*v).text() == Some(t@),
            None => json_model(*v).text() is None,
        },
{
    v.as_str()
}

/// Where the Forge is.
pub const FORGE_URL: &'static str = "https://forgeapi.puppetlabs.com";

/// The address of a module's page: the Forge's address, then `/v3/modules/`
/// and the module's name.
pub open spec fn module_address(base: Seq<char>, name: Seq<char>) -> Seq<char> {
    base + "/v3/modules/"@ + name
}

/// The address of the page of the module `name` on the Forge at `base`.
pub fn module_url(base: &str, name: &str) -> (url: String)
    ensures
        url@ == module_address(base@, name@),
{
    let mut url = String::from_str(base);
    url.append("/v3/modules/");
    url.append(name);
    url
}

/// The release that a page names: the text at `current_release.version`,
/// if there is a text.
pub open spec fn release_text(page: JsonModel) -> Option<Seq<char>> {
    page.member("current_release"@).member("version"@).text()
}

/// `r` is the latest release according to an answer `body` whose release
/// text is `field`: the release that the text denotes, or the reason why it
/// denotes none; without a text, the answer itself as not found.
pub open spec fn is_latest(field: Option<Seq<char>>, body: Seq<char>, r: Result<Version, FetchError>) -> bool {
    match field {
        None => r matches Err(FetchError::NotFound(b)) && b@ == body,
        Some(t) => match parse_version(t) {
            Ok(v) => r == Ok::<Version, FetchError>(v),
            Err(e) => r == Err::<Version, FetchError>(FetchError::Malformed(e)),
        },
    }
}

/// The latest release, from the release text of an answer and the answer
/// itself.
pub fn version_from_field(field: Option<&str>, body: &str) -> (r: Result<Version, FetchError>)
    ensures
        is_latest(
            match field {
                Some(t) => Some(t@),
                None => None,
            },
            body@,
            r,
        ),
{
    match field {
        None => Err(FetchError::NotFound(String::from_str(body))),
        Some(t) => match Version::parse(t) {
            Ok(v) => Ok(v),
            Err(e) => Err(FetchError::Malformed(e)),
        },
    }
}

/// The latest release of a module, from the Forge's answer for it.
///
/// An answer that is not JSON is a transport error. Otherwise the release
/// is read from the text at `current_release.version`; where there is no
/// text, the module is not found.
pub fn latest_version(body: &str) -> (r: Result<Version, FetchError>)
    ensures
        match json_document(body@) {
            None => r == Err::<Version, FetchError>(FetchError::Transport),
            Some(page) => is_latest(release_text(page), body@, r),
        },
{
    match json_parse(body) {
        Err(_) => Err(FetchError::Transport),
        Ok(page) => {
            let release = json_member(&page, "current_release");
            let field = json_member(release, "version");
            version_from_field(json_text(field), body)
        },
    }
}

} // verus!
