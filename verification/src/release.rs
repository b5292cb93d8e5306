//! Releases of the server and the way they are written.

use crate::decimal;
use crate::decimal::{lemma_parsed_notation, notation, parsed, NumberError};
use crate::error::Error;
use vstd::prelude::*;
use vstd::string::*;

verus! {

/// The repository that publishes the releases.
pub const REPOSITORY: &'static str = "hecrj/llama-server";

/// A numbered release of the server. Releases are ordered by their number.
#[derive(Debug, Clone, Copy, PartialEq, Eq, PartialOrd, Ord, Hash, Structural)]
pub struct Build(pub u32);

/// Why a text does not name a release.
#[derive(Debug, Clone, Copy, PartialEq, Eq, Structural)]
pub enum ParseError {
    /// The text does not start with the letter `b`.
    MissingPrefix,
    /// What follows the letter is not a number that fits in 32 bits.
    Number(NumberError),
}

/// The address that describes the latest release.
pub open spec fn spec_latest_release_url() -> Seq<char> {
    "https://api.github.com/repos/"@ + REPOSITORY@ + "/releases/latest"@
}

/// The address that describes the latest release. What is found there names
/// the release in a field `tag_name`, in the form that `Build::latest` reads.
pub fn latest_release_url() -> (url: String)
    ensures
        url@ == spec_latest_release_url(),
{
    let mut url = String::from_str("https://api.github.com/repos/");
    url.append(REPOSITORY);
    url.append("/releases/latest");
    url
}

impl Build {
    /// The text of a release: the letter `b`, then its number in decimal
    /// notation.
    pub open spec fn text(self) -> Seq<char> {
        seq!['b'] + notation(self.0 as nat)
    }

    /// The release that a text names, if it names one: the letter `b`, once,
    /// and then a number, as `decimal::parsed` reads it.
    pub open spec fn named(s: Seq<char>) -> Result<Build, ParseError> {
        if s.len() == 0 || s[0] != 'b' {
            Err(ParseError::MissingPrefix)
        } else {
            match parsed(s.skip(1)) {
                Ok(number) => Ok(Build(number)),
                Err(error) => Err(ParseError::Number(error)),
            }
        }
    }

    /// The address below which the files of the release are published.
    pub open spec fn spec_url(self) -> Seq<char> {
        "https://github.com/"@ + REPOSITORY@ + "/releases/download/"@ + self.text()
    }

    /// The release with the given number.
    pub fn locked(number: u32) -> (build: Self)
        ensures
            build == Build(number),
    {
        Build(number)
    }

    /// The number of this release.
    pub fn number(self) -> (number: u32)
        ensures
            number == self.0,
    {
        self.0
    }

    /// Writes the release as text.
    pub fn to_string(&self) -> (text: String)
        ensures
            text@ == self.text(),
    {
        let mut text = String::from_str("b");
        let number = decimal::render(self.0);
        text.append(number.as_str());
        proof {
            reveal_strlit("b");
            assert(text@ =~= self.text());
        }
        text
    }

    /// The address below which the files of the release are published.
    pub fn url(self) -> (url: String)
        ensures
            url@ == self.spec_url(),
    {
        let mut url = String::from_str("https://github.com/");
        url.append(REPOSITORY);
        url.append("/releases/download/");
        url.append(self.to_string().as_str());
        url
    }

    /// The latest release, as the text names it that was found in the field
    /// `tag_name` at the address of the latest release. A text that names no
    /// release is a local error.
    pub fn latest(tag_name: &str) -> (result: Result<Build, Error>)
        ensures
            result == match Build::named(tag_name@) {
                Ok(build) => Ok::<Build, Error>(build),
                Err(_) => Err(Error::IOFailed),
            },
    {
        match <Build as std::str::FromStr>::from_str(tag_name) {
            Ok(build) => Ok(build),
            Err(error) => Err(Error::from(error)),
        }
    }
}

impl std::str::FromStr for Build {
    type Err = ParseError;

    /// Reads a release from its text.
    fn from_str(text: &str) -> (result: Result<Self, ParseError>)
        ensures
            result == Build::named(text@),
    {
        let length = text.unicode_len();
        if length == 0 || text.get_char(0) != 'b' {
            return Err(ParseError::MissingPrefix);
        }
        match decimal::parse(text.substring_char(1, length)) {
            Ok(number) => Ok(Build(number)),
            Err(error) => Err(ParseError::Number(error)),
        }
    }
}

/// Reading the text of a release gives the release back, and a text that
/// does not begin with `b` names no release.
pub proof fn lemma_text_round_trip(build: Build)
    ensures
        Build::named(build.text()) == Ok::<Build, ParseError>(build),
        forall|text: Seq<char>|
            text.len() == 0 || text[0] != 'b' ==> #[trigger] Build::named(text) == Err::<
                Build,
                ParseError,
            >(ParseError::MissingPrefix),
{
    lemma_parsed_notation(build.0);
    assert(build.text().skip(1) =~= notation(build.0 as nat));
}

/// Different releases have different texts.
pub proof fn lemma_text_tells_apart(first: Build, second: Build)
    requires
        first.text() == second.text(),
    ensures
        first == second,
{
    lemma_text_round_trip(first);
    lemma_text_round_trip(second);
}

} // verus!
