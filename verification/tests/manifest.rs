use puppet_forge_updates::manifest::{read_line, read_puppetfile, ModuleEntry};
use puppet_forge_updates::puppet_module::PuppetModule;
use puppet_forge_updates::text::{chars_of, is_white_space};
use puppet_forge_updates::version::{ParseError, Version};

fn entry(name: &str, major: u32, minor: u32, patch: u32) -> ModuleEntry {
    ModuleEntry {
        name: name.to_string(),
        version: Version {
            major,
            minor,
            patch,
        },
    }
}

#[test]
fn test_read_puppetfile_empty() {
    let modules = read_puppetfile("").unwrap();
    assert!(modules.is_empty());
}

#[test]
fn test_read_puppetfile_module_without_version() {
    let modules = read_puppetfile("mod 'foo'\n").unwrap();
    assert!(modules.is_empty());
}

#[test]
fn test_read_puppetfile_valid_module() {
    let entries = read_puppetfile("mod 'foo', '1.2.3'\n").unwrap();
    assert_eq!(entries, vec![entry("foo", 1, 2, 3)]);
    // "foo" is no module of the Forge, so nothing is left once it has answered
    let answer = "{\"message\":\"400 Bad Request\",\"errors\":[\"'foo' is not a valid full modulename\"]}";
    let mut modules = Vec::new();
    for e in entries {
        if let Ok(module) = PuppetModule::resolve(e, answer) {
            modules.push(module);
        }
    }
    assert!(modules.is_empty());
}

#[test]
fn declaration_yields_an_entry() {
    assert_eq!(
        read_line(&chars_of("mod 'foo', '1.2.3'")),
        Ok(Some(entry("foo", 1, 2, 3)))
    );
    assert_eq!(read_line(&chars_of("mod 'foo'")), Ok(None));
    assert_eq!(read_line(&chars_of("moduledir 'modules'")), Ok(None));
    assert_eq!(read_line(&chars_of("moduledir 'modules', '1.2.3'")), Ok(None));
}

#[test]
fn quotes_and_commas_are_stripped() {
    assert_eq!(
        read_line(&chars_of("mod \"puppetlabs-stdlib\", \"9.4.1\"")),
        Ok(Some(entry("puppetlabs-stdlib", 9, 4, 1)))
    );
    assert_eq!(
        read_line(&chars_of("mod puppetlabs/ntp 10.0.0")),
        Ok(Some(entry("puppetlabs/ntp", 10, 0, 0)))
    );
    assert_eq!(
        read_line(&chars_of("mod 'a',, '1.2.3',")),
        Ok(Some(entry("a", 1, 2, 3)))
    );
    assert_eq!(
        read_line(&chars_of("mod ''it's'', \"'1.2.3'\"")),
        Ok(Some(entry("it's", 1, 2, 3)))
    );
    assert_eq!(
        read_line(&chars_of("mod ',' '1.2.3,'")),
        Ok(Some(entry("", 1, 2, 3)))
    );
    assert_eq!(
        read_line(&chars_of("mod ,a'b,c 1.2.3")),
        Ok(Some(entry(",a'b,c", 1, 2, 3)))
    );
}

#[test]
fn words_are_cut_at_any_white_space() {
    assert_eq!(
        read_line(&chars_of("  mod\t'foo',\u{a0}'1.2.3'   # pinned\r")),
        Ok(Some(entry("foo", 1, 2, 3)))
    );
    assert_eq!(
        read_line(&chars_of("module 'foo', '1.2.3'")),
        Ok(Some(entry("foo", 1, 2, 3)))
    );
}

#[test]
fn space_is_unicode_white_space() {
    for code in 0u32..0x3100 {
        if let Some(c) = char::from_u32(code) {
            assert_eq!(is_white_space(c), c.is_whitespace(), "{:x}", code);
        }
    }
}

#[test]
fn other_lines_yield_nothing() {
    for line in [
        "",
        "   ",
        "# mod 'foo', '1.2.3'",
        "forge 'https://forge.puppet.com'",
        "mo 'foo', '1.2.3'",
        "Mod 'foo', '1.2.3'",
        "mod",
        "  :git => 'https://example.com/foo.git'",
    ] {
        assert_eq!(read_line(&chars_of(line)), Ok(None), "{:?}", line);
    }
}

#[test]
fn malformed_release_is_an_error() {
    assert_eq!(
        read_line(&chars_of("mod 'foo', '1.2'")),
        Err(ParseError::Parts(2))
    );
    assert_eq!(
        read_line(&chars_of("mod 'foo', :latest")),
        Err(ParseError::Parts(1))
    );
    assert_eq!(
        read_line(&chars_of("mod 'foo', '1.2.x'")),
        Err(ParseError::Patch)
    );
    assert_eq!(
        read_line(&chars_of("mod 'foo' , '1.2.3'")),
        Err(ParseError::Parts(1))
    );
}

#[test]
fn entries_come_in_the_order_of_their_lines() {
    let text = "forge 'https://forge.puppet.com'\nmoduledir 'modules'\n\nmod 'puppetlabs-stdlib', '9.4.1'\r\nmod 'local',\n    :git => 'https://example.com/local.git'\n# a comment\n  mod \"puppetlabs-apache\", \"12.0.2\"\nmod 'puppet-nginx', '5.0.0'";
    assert_eq!(
        read_puppetfile(text),
        Ok(vec![
            entry("puppetlabs-stdlib", 9, 4, 1),
            entry("puppetlabs-apache", 12, 0, 2),
            entry("puppet-nginx", 5, 0, 0),
        ])
    );
}

#[test]
fn first_malformed_release_fails_the_reading() {
    let text = "mod 'a', '1.2.3'\nmod 'b', '1.x.3'\nmod 'c', '1.2'\n";
    assert_eq!(read_puppetfile(text), Err(ParseError::Minor));
    let text = "mod 'a', '1.2.3'\nmod 'c', '1.2'\nmod 'b', '1.x.3'\n";
    assert_eq!(read_puppetfile(text), Err(ParseError::Parts(2)));
}
