//! URL utilities.
use crate::errors::URLParseError;
use crate::note::NoteID;
use crate::text::push_all;
use vstd::prelude::*;

verus! {

/// The parts of a parsed URL that Notegraf reads: its scheme and, unless it
/// cannot be a base, its path segments.
pub struct UrlParts {
    pub scheme: String,
    pub path_segments: Option<Vec<String>>,
}

/// The view of [`UrlParts`].
pub struct UrlPartsView {
    pub scheme: Seq<char>,
    pub path_segments: Option<Seq<Seq<char>>>,
}

impl View for UrlParts {
    type V = UrlPartsView;

    open spec fn view(&self) -> UrlPartsView {
        UrlPartsView {
            scheme: self.scheme@,
            path_segments: match &self.path_segments {
                Some(v) => Some(v@.map_values(|s: String| s@)),
                None => None,
            },
        }
    }
}

/// What `url::Url::parse` makes of a text: its error when it is not an
/// absolute URL, else the scheme and path segments of the parsed URL.
pub uninterp spec fn url_parse_outcome(link: Seq<char>) -> Result<UrlPartsView, url::ParseError>;

/// A parse result, with the parts taken by their view.
pub open spec fn parsed_view(parsed: Result<UrlParts, url::ParseError>) -> Result<UrlPartsView, url::ParseError> {
    match parsed {
        Ok(p) => Ok(p@),
        Err(e) => Err(e),
    }
}

/// Parses a URL with the `url` crate.
///
/// Trusted: `url::Url::parse` is deterministic; on success the scheme is what
/// `Url::scheme` gives and the segments what `Url::path_segments` gives, and
/// on failure the error is the one `Url::parse` returns (a variant without
/// fields), both named by [`url_parse_outcome`].
#[verifier::external_body]
pub(crate) fn parse_url(link: &str) -> (r: Result<UrlParts, url::ParseError>)
    ensures
        parsed_view(r) == url_parse_outcome(link@),
{
    url::Url::parse(link).map(
        |u| UrlParts {
            scheme: u.scheme().to_string(),
            path_segments: u.path_segments().map(|c| c.map(|s| s.to_string()).collect()),
        },
    )
}

/// URL type for Notegraf.
#[derive(Debug)]
pub enum NotegrafURL {
    Note(NoteID),
}

/// The view of the outcome of parsing a Notegraf URL.
pub enum UrlOutcome {
    Note(Seq<char>),
    NotAURL(url::ParseError),
    WrongScheme(Seq<char>),
    CannotBeABase,
    SyntaxError(Seq<char>),
}

pub open spec fn outcome_of(r: Result<NotegrafURL, URLParseError>) -> UrlOutcome {
    match r {
        Ok(NotegrafURL::Note(id)) => UrlOutcome::Note(id@),
        Err(URLParseError::NotAURL(e)) => UrlOutcome::NotAURL(e),
        Err(URLParseError::WrongScheme(s)) => UrlOutcome::WrongScheme(s@),
        Err(URLParseError::CannotBeABase) => UrlOutcome::CannotBeABase,
        Err(URLParseError::SyntaxError(s)) => UrlOutcome::SyntaxError(s@),
    }
}

/// How a parsed URL reads as a Notegraf URL.
pub open spec fn notegraf_outcome(parsed: Result<UrlPartsView, url::ParseError>) -> UrlOutcome {
    match parsed {
        Err(e) => UrlOutcome::NotAURL(e),
        Ok(p) => if p.scheme != "notegraf"@ {
            UrlOutcome::WrongScheme(p.scheme)
        } else {
            match p.path_segments {
                None => UrlOutcome::CannotBeABase,
                Some(parts) => if parts.len() != 2 {
                    UrlOutcome::SyntaxError("URL has more than two parts."@)
                } else if parts[0] == "note"@ {
                    UrlOutcome::Note(parts[1])
                } else {
                    UrlOutcome::SyntaxError("First part of the URL not recognized."@)
                },
            }
        },
    }
}

/// How a text reads as a Notegraf URL.
pub open spec fn notegraf_url_outcome(link: Seq<char>) -> UrlOutcome {
    notegraf_outcome(url_parse_outcome(link))
}

impl NotegrafURL {
    /// Read a parsed URL as a Notegraf URL.
    pub fn from_parsed(parsed: Result<UrlParts, url::ParseError>) -> (r: Result<Self, URLParseError>)
        ensures
            outcome_of(r) == notegraf_outcome(parsed_view(parsed)),
    {
        let parts = match parsed {
            Ok(p) => p,
            Err(e) => return Err(URLParseError::NotAURL(e)),
        };
        let expected = "notegraf".to_owned();
        if parts.scheme != expected {
            return Err(URLParseError::WrongScheme(parts.scheme));
        }
        let segments = match parts.path_segments {
            Some(p) => p,
            None => {
                return Err(URLParseError::CannotBeABase);
            },
        };
        if segments.len() != 2 {
            return Err(URLParseError::SyntaxError("URL has more than two parts.".to_owned()));
        }
        let note_word = "note".to_owned();
        if segments[0] == note_word {
            let id = segments[1].clone();
            Ok(NotegrafURL::Note(NoteID::new(id)))
        } else {
            Err(URLParseError::SyntaxError("First part of the URL not recognized.".to_owned()))
        }
    }

    /// Parse a string into a Notegraf URL.
    pub fn parse(link: &str) -> (r: Result<Self, URLParseError>)
        ensures
            outcome_of(r) == notegraf_url_outcome(link@),
    {
        NotegrafURL::from_parsed(parse_url(link))
    }

    /// The text of the URL, `notegraf:/note/<id>`.
    pub fn to_url_string(&self) -> (r: String)
        ensures
            self matches NotegrafURL::Note(id) && r@ == "notegraf:/note/"@ + id@,
    {
        match self {
            NotegrafURL::Note(id) => {
                let mut s = "notegraf:/note/".to_owned();
                push_all(&mut s, id.as_str());
                s
            },
        }
    }
}

} // verus!
