//! What a run is set up with, checked once before anything is sent.

use crate::printer::{EmissionMode, EmissionModeView, Sink, SinkView};
use vstd::prelude::*;

verus! {

/// The version of the transport protocol.
#[derive(Clone, Copy, Debug, PartialEq, Eq, Structural)]
pub enum HttpVersion {
    Http1,
    Http2,
    Http3,
}

/// Why a run cannot be set up.
#[derive(Clone, Copy, Debug, PartialEq, Eq, Structural)]
pub enum ConfigError {
    /// Only one of the two credentials was given.
    PartialCredentials,
    /// The output path exists and is no directory.
    NotADirectory,
    /// No protocol version is selected.
    NoHttpVersion,
}

impl ConfigError {
    /// What the error says.
    pub open spec fn spec_message(self) -> Seq<char> {
        match self {
            ConfigError::PartialCredentials => "api_key and user_id must be specified together"@,
            ConfigError::NotADirectory => "Not a directory"@,
            ConfigError::NoHttpVersion => "Invalid combination of arguments"@,
        }
    }

    /// What the error says.
    pub fn message(&self) -> (text: String)
        ensures
            text@ == self.spec_message(),
    {
        match self {
            ConfigError::PartialCredentials => {
                "api_key and user_id must be specified together".to_owned()
            },
            ConfigError::NotADirectory => "Not a directory".to_owned(),
            ConfigError::NoHttpVersion => "Invalid combination of arguments".to_owned(),
        }
    }
}

/// The two credentials that a search may carry.
#[derive(Debug, PartialEq, Eq)]
pub struct Credentials {
    pub api_key: String,
    pub user_id: String,
}

/// Checks that the credentials come together. Both given: the pair. Neither
/// given: none. One alone is an error.
pub fn credentials(api_key: Option<String>, user_id: Option<String>) -> (checked: Result<
    Option<Credentials>,
    ConfigError,
>)
    ensures
        match (api_key, user_id) {
            (Some(key), Some(id)) => checked == Ok::<Option<Credentials>, ConfigError>(
                Some(Credentials { api_key: key, user_id: id }),
            ),
            (None, None) => checked == Ok::<Option<Credentials>, ConfigError>(None),
            _ => checked == Err::<Option<Credentials>, ConfigError>(
                ConfigError::PartialCredentials,
            ),
        },
{
    match (api_key, user_id) {
        (Some(key), Some(id)) => Ok(Some(Credentials { api_key: key, user_id: id })),
        (None, None) => Ok(None),
        _ => Err(ConfigError::PartialCredentials),
    }
}

/// The protocol version that the three switches select: the lowest one that
/// is set. None set is an error.
pub fn http_version(http1: bool, http2: bool, http3: bool) -> (version: Result<
    HttpVersion,
    ConfigError,
>)
    ensures
        version == if http1 {
            Ok::<HttpVersion, ConfigError>(HttpVersion::Http1)
        } else if http2 {
            Ok::<HttpVersion, ConfigError>(HttpVersion::Http2)
        } else if http3 {
            Ok::<HttpVersion, ConfigError>(HttpVersion::Http3)
        } else {
            Err::<HttpVersion, ConfigError>(ConfigError::NoHttpVersion)
        },
{
    if http1 {
        Ok(HttpVersion::Http1)
    } else if http2 {
        Ok(HttpVersion::Http2)
    } else if http3 {
        Ok(HttpVersion::Http3)
    } else {
        Err(ConfigError::NoHttpVersion)
    }
}

/// Checks the output path: it may be missing, or a directory. Anything else
/// in its place is an error.
pub fn check_output_dir(exists: bool, is_dir: bool) -> (checked: Result<(), ConfigError>)
    ensures
        checked == if exists && !is_dir {
            Err::<(), ConfigError>(ConfigError::NotADirectory)
        } else {
            Ok::<(), ConfigError>(())
        },
{
    if exists && !is_dir {
        Err(ConfigError::NotADirectory)
    } else {
        Ok(())
    }
}

/// The path of a request to write records, if it names one.
pub open spec fn path_view(path: Option<String>) -> Option<Seq<char>> {
    match path {
        Some(text) => Some(text@),
        None => None,
    }
}

/// A request to write records, with its path if it names one.
pub open spec fn request_view(request: Option<Option<String>>) -> Option<Option<Seq<char>>> {
    match request {
        Some(path) => Some(path_view(path)),
        None => None,
    }
}

/// Where a request writes to: `-` stands for the diagnostic stream, and no
/// path at all for `posts.json`.
pub open spec fn spec_sink(path: Option<Seq<char>>) -> SinkView {
    match path {
        Some(text) => if text == "-"@ {
            SinkView::Stderr
        } else {
            SinkView::File(text)
        },
        None => SinkView::File("posts.json"@),
    }
}

/// The mode that the two requests select: compact where the first is made,
/// else indented where the second is made, else off.
pub open spec fn spec_emission_mode(
    compact: Option<Option<Seq<char>>>,
    pretty: Option<Option<Seq<char>>>,
) -> EmissionModeView {
    match compact {
        Some(path) => EmissionModeView::Compact(spec_sink(path)),
        None => match pretty {
            Some(path) => EmissionModeView::Pretty(spec_sink(path)),
            None => EmissionModeView::Off,
        },
    }
}

/// Where a request writes to.
pub fn sink_for(path: Option<String>) -> (sink: Sink)
    ensures
        sink@ == spec_sink(path_view(path)),
{
    match path {
        Some(text) => {
            let dash = "-".to_owned();
            if text == dash {
                Sink::Stderr
            } else {
                Sink::File(text)
            }
        },
        None => Sink::File("posts.json".to_owned()),
    }
}

/// The mode that the two requests to write records select.
pub fn emission_mode(compact: Option<Option<String>>, pretty: Option<Option<String>>) -> (mode:
    EmissionMode)
    ensures
        mode@ == spec_emission_mode(request_view(compact), request_view(pretty)),
{
    match compact {
        Some(path) => EmissionMode::Compact(sink_for(path)),
        None => match pretty {
            Some(path) => EmissionMode::Pretty(sink_for(path)),
            None => EmissionMode::Off,
        },
    }
}

} // verus!
