//! A module with its pinned and its latest release, the update between the
//! two, and the line that reports it.

use crate::forge::{is_latest, json_document, latest_version, release_text, FetchError};
use crate::manifest::ModuleEntry;
use crate::version::{
    is_version_text, lemma_render_is_plain, parse_version, render_version, ParseError, Version,
};
use colored::Colorize;
use vstd::prelude::*;
use vstd::string::*;

verus! {

/// How far the latest release is ahead of the pinned one.
#[derive(Debug, Clone, Copy, PartialEq, Eq, Structural)]
pub enum VersionUpdate {
    Major,
    Minor,
    Patch,
}

/// The colour in which a report shows the latest release.
#[derive(Debug, Clone, Copy, PartialEq, Eq, Structural)]
pub enum Tint {
    Red,
    Yellow,
    Blue,
}

/// A module of a Puppetfile, with the release it is pinned to and the latest
/// release on the Forge.
#[derive(Debug, Clone, PartialEq, Eq)]
pub struct PuppetModule {
    pub name: String,
    pub current_version: Version,
    pub latest_version: Version,
}

/// The update from `pinned` to `latest`: major where the major number
/// grows; else minor where the minor number grows; else patch where the
/// patch number grows; else none.
pub open spec fn update_between(pinned: Version, latest: Version) -> Option<VersionUpdate> {
    if pinned.major < latest.major {
        Some(VersionUpdate::Major)
    } else if pinned.minor < latest.minor {
        Some(VersionUpdate::Minor)
    } else if pinned.patch < latest.patch {
        Some(VersionUpdate::Patch)
    } else {
        None
    }
}

/// Grades the update from `pinned` to `latest`.
pub fn classify(pinned: &Version, latest: &Version) -> (r: Option<VersionUpdate>)
    ensures
        r == update_between(*pinned, *latest),
{
    if pinned.major < latest.major {
        Some(VersionUpdate::Major)
    } else if pinned.minor < latest.minor {
        Some(VersionUpdate::Minor)
    } else if pinned.patch < latest.patch {
        Some(VersionUpdate::Patch)
    } else {
        None
    }
}

/// From a release to itself there is no update.
pub proof fn lemma_no_update_to_itself(v: Version)
    ensures
        update_between(v, v) is None,
{
}

/// The colour of an update: red for major, yellow for minor, blue for patch.
pub open spec fn tint_of(update: VersionUpdate) -> Tint {
    match update {
        VersionUpdate::Major => Tint::Red,
        VersionUpdate::Minor => Tint::Yellow,
        VersionUpdate::Patch => Tint::Blue,
    }
}

/// The number of a colour in an escape sequence of a terminal.
pub open spec fn tint_code(tint: Tint) -> Seq<char> {
    match tint {
        Tint::Red => seq!['3', '1'],
        Tint::Yellow => seq!['3', '3'],
        Tint::Blue => seq!['3', '4'],
    }
}

/// `text` between the escape sequence that switches the colour on and the
/// one that resets it.
pub open spec fn tinted(text: Seq<char>, tint: Tint) -> Seq<char> {
    seq!['\u{1b}', '['] + tint_code(tint) + seq!['m'] + text + seq!['\u{1b}', '[', '0', 'm']
}

/// `shown` is `text` as a report shows it in the colour `tint`: between the
/// escape sequences where colours are on; as it is where they are off; and
/// with the reset sequence alone behind it where they are switched off while
/// the text is written.
pub open spec fn shows(shown: Seq<char>, text: Seq<char>, tint: Tint) -> bool {
    ||| shown == tinted(text, tint)
    ||| shown == text
    ||| shown == text + seq!['\u{1b}', '[', '0', 'm']
}

/// The line that reports an update.
pub open spec fn line_text(name: Seq<char>, current: Seq<char>, latest: Seq<char>) -> Seq<char> {
    name + seq![' '] + current + seq![' ', '-', '>', ' '] + latest
}

/// `line` reports an update of the module `name` from the release `current`
/// to the release `latest`, the latter shown in the colour `tint`.
pub open spec fn is_report(
    line: Seq<char>,
    name: Seq<char>,
    current: Seq<char>,
    latest: Seq<char>,
    tint: Tint,
) -> bool {
    ||| line == line_text(name, current, tinted(latest, tint))
    ||| line == line_text(name, current, latest)
    ||| line == line_text(name, current, latest + seq!['\u{1b}', '[', '0', 'm'])
}

/// A line that reports an update begins with the module's name, then holds
/// the pinned release, and behind it the latest release.
pub proof fn lemma_report_holds_both_releases(
    line: Seq<char>,
    name: Seq<char>,
    current: Seq<char>,
    latest: Seq<char>,
    tint: Tint,
)
    requires
        is_report(line, name, current, latest, tint),
    ensures
        line.subrange(0, name.len() as int) == name,
        line.subrange(name.len() as int + 1, name.len() as int + 1 + current.len()) == current,
        exists|k: int|
            name.len() + 1 + current.len() <= k && k + latest.len() <= line.len()
                && #[trigger] line.subrange(k, k + latest.len()) == latest,
{
    let behind_name: int = name.len() as int + 1;
    let start: int = behind_name + current.len() + 4;
    assert(line.subrange(0, name.len() as int) =~= name);
    assert(line.subrange(behind_name, behind_name + current.len()) =~= current);
    if line == line_text(name, current, tinted(latest, tint)) {
        assert(line.subrange(start + 5, start + 5 + latest.len()) =~= latest);
    } else {
        assert(line.subrange(start, start + latest.len()) =~= latest);
    }
}

/// `colored::Colorize::color` on a `&str`, and the `Display` of the
/// `ColoredString` that it gives. Whether colours are on depends on the
/// environment, the terminal and `colored`'s override, which `Display`
/// looks up more than once. For a text without an escape character the
/// result is the text between the colour's escape sequence and the reset
/// sequence, or the text itself, or the text and the reset sequence.
#[verifier::external_body]
fn paint(text: &str, tint: Tint) -> (shown: String)
    ensures
        !text@.contains('\u{1b}') ==> shows(shown@, text@, tint),
{
    let color = match tint {
        Tint::Red => colored::Color::Red,
        Tint::Yellow => colored::Color::Yellow,
        Tint::Blue => colored::Color::Blue,
    };
    text.color(color).to_string()
}

/// The colour of an update.
pub fn tint(update: VersionUpdate) -> (t: Tint)
    ensures
        t == tint_of(update),
{
    match update {
        VersionUpdate::Major => Tint::Red,
        VersionUpdate::Minor => Tint::Yellow,
        VersionUpdate::Patch => Tint::Blue,
    }
}

/// The line that reports an update: the module's name, its pinned release,
/// an arrow and the latest release, the last as it is shown.
pub fn report_line(name: &str, current: &str, latest: &str) -> (line: String)
    ensures
        line@ == line_text(name@, current@, latest@),
{
    let mut line = String::from_str(name);
    line.push(' ');
    line.append(current);
    line.push(' ');
    line.push('-');
    line.push('>');
    line.push(' ');
    line.append(latest);
    assert(line@ =~= line_text(name@, current@, latest@));
    line
}

impl PuppetModule {
    /// The module `name`, pinned to the release that `current_version`
    /// denotes, with its latest release from the Forge's answer `body`.
    pub fn new(name: &str, current_version: &str, body: &str) -> (r: Result<
        PuppetModule,
        FetchError,
    >)
        requires
            is_version_text(current_version@),
        ensures
            PuppetModule::is_resolved(
                name@,
                parse_version(current_version@)->Ok_0,
                body@,
                r,
            ),
    {
        let current = Version::from(current_version);
        PuppetModule::resolve(ModuleEntry { name: String::from_str(name), version: current }, body)
    }

    /// `r` is what the Forge's answer `body` makes of the module `name`
    /// pinned to `current`: the module with the latest release that the
    /// answer gives, or the reason why it gives none.
    pub open spec fn is_resolved(
        name: Seq<char>,
        current: Version,
        body: Seq<char>,
        r: Result<PuppetModule, FetchError>,
    ) -> bool {
        let latest: Result<Version, FetchError> = match r {
            Ok(module) => Ok(module.latest_version),
            Err(e) => Err(e),
        };
        &&& r matches Ok(module) ==> module.name@ == name && module.current_version == current
        &&& match json_document(body) {
            None => latest == Err::<Version, FetchError>(FetchError::Transport),
            Some(page) => is_latest(release_text(page), body, latest),
        }
    }

    /// An entry of a Puppetfile with its latest release from the Forge's
    /// answer `body`.
    pub fn resolve(entry: ModuleEntry, body: &str) -> (r: Result<PuppetModule, FetchError>)
        ensures
            PuppetModule::is_resolved(entry.name@, entry.version, body@, r),
    {
        match latest_version(body) {
            Err(e) => Err(e),
            Ok(latest) => Ok(
                PuppetModule {
                    name: entry.name,
                    current_version: entry.version,
                    latest_version: latest,
                },
            ),
        }
    }

    /// The update that the Forge offers for this module, if any.
    pub fn determine_update(&self) -> (r: Option<VersionUpdate>)
        ensures
            r == update_between(self.current_version, self.latest_version),
    {
        classify(&self.current_version, &self.latest_version)
    }

    /// The line that reports this module: nothing where there is no update;
    /// else the name, the pinned release, an arrow and the latest release in
    /// the colour of the update.
    pub fn to_string(&self) -> (line: String)
        ensures
            match update_between(self.current_version, self.latest_version) {
                None => line@ == Seq::<char>::empty(),
                Some(update) => is_report(
                    line@,
                    self.name@,
                    render_version(self.current_version),
                    render_version(self.latest_version),
                    tint_of(update),
                ),
            },
    {
        match self.determine_update() {
            None => String::new(),
            Some(update) => {
                let current = self.current_version.to_string();
                let latest = self.latest_version.to_string();
                proof {
                    lemma_render_is_plain(self.latest_version);
                }
                let shown = paint(latest.as_str(), tint(update));
                report_line(self.name.as_str(), current.as_str(), shown.as_str())
            },
        }
    }
}

} // verus!
