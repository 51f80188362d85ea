use puppet_forge_updates::forge::latest_version;
use puppet_forge_updates::version::Version;

// An answer of the Forge for a well-known module, cut down to a few fields.
const STDLIB: &str = "{\"uri\":\"/v3/modules/puppetlabs-stdlib\",\"slug\":\"puppetlabs-stdlib\",\"name\":\"stdlib\",\"downloads\":123456789,\"deprecated_at\":null,\"owner\":{\"slug\":\"puppetlabs\",\"username\":\"puppetlabs\"},\"current_release\":{\"uri\":\"/v3/releases/puppetlabs-stdlib-9.6.0\",\"slug\":\"puppetlabs-stdlib-9.6.0\",\"version\":\"9.6.0\",\"supported\":true,\"metadata\":{\"name\":\"puppetlabs-stdlib\",\"version\":\"9.6.0\",\"dependencies\":[]}},\"releases\":[{\"slug\":\"puppetlabs-stdlib-9.6.0\",\"version\":\"9.6.0\"},{\"slug\":\"puppetlabs-stdlib-9.5.0\",\"version\":\"9.5.0\"}]}";

#[test]
fn test_forge_live_response_to_version_struct() {
    let module: serde_json::Value =
        serde_json::from_str(STDLIB).expect("Response is not valid JSON");
    let version_str = module["current_release"]["version"]
        .as_str()
        .expect("Version not found in Forge API response");
    let version = Version::from(version_str);
    assert!(version.major > 0, "Major version should be greater than 0");
    let _ = version.minor;
    let _ = version.patch;
    assert_eq!(latest_version(STDLIB), Ok(version));
}
