//! What discovery reports about one integration point.

use vstd::prelude::*;

verus! {

/// How a location came to be known, or why there is none.
#[derive(Debug, Clone, Copy, PartialEq, Eq, Structural)]
pub enum DiscoveryState {
    /// The user picked the location.
    Selected,
    /// The location was found without the user's help.
    AutoDetected,
    /// No usable location was found.
    Missing,
    /// There is a location, but it cannot be used.
    Unsupported,
    /// The mode in use needs no such location.
    NotRequired,
}

/// The outcome of a search, as it is shown to the user.
#[derive(Debug, PartialEq, Eq)]
pub struct DiscoveryStatus {
    pub state: DiscoveryState,
    pub redacted_location: Option<String>,
    pub message: String,
}

/// A status by what its texts say.
#[verifier::ext_equal]
pub struct StatusView {
    pub state: DiscoveryState,
    pub redacted_location: Option<Seq<char>>,
    pub message: Seq<char>,
}

impl View for DiscoveryStatus {
    type V = StatusView;

    open spec fn view(&self) -> StatusView {
        StatusView {
            state: self.state,
            redacted_location: match self.redacted_location {
                Some(location) => Some(location@),
                None => None,
            },
            message: self.message@,
        }
    }
}

/// A status that names a location.
pub open spec fn located(
    state: DiscoveryState,
    location: Seq<char>,
    message: Seq<char>,
) -> StatusView {
    StatusView { state, redacted_location: Some(location), message }
}

/// A status that names no location.
pub open spec fn unlocated(state: DiscoveryState, message: Seq<char>) -> StatusView {
    StatusView { state, redacted_location: None, message }
}

impl DiscoveryStatus {
    /// The status of something that was not found anywhere.
    pub fn missing(message: &str) -> (status: DiscoveryStatus)
        ensures
            status@ == unlocated(DiscoveryState::Missing, message@),
    {
        DiscoveryStatus {
            state: DiscoveryState::Missing,
            redacted_location: None,
            message: message.to_owned(),
        }
    }

    /// The status of something that the mode in use does without.
    pub fn not_required(message: &str) -> (status: DiscoveryStatus)
        ensures
            status@ == unlocated(DiscoveryState::NotRequired, message@),
    {
        DiscoveryStatus {
            state: DiscoveryState::NotRequired,
            redacted_location: None,
            message: message.to_owned(),
        }
    }

    /// The status of a location that is already redacted.
    pub fn at(state: DiscoveryState, location: String, message: &str) -> (status: DiscoveryStatus)
        ensures
            status@ == located(state, location@, message@),
    {
        DiscoveryStatus { state, redacted_location: Some(location), message: message.to_owned() }
    }
}

/// What is reported about the App Server of the command line tool.
pub open spec fn app_server_view(binary_found: bool) -> StatusView {
    if binary_found {
        located(
            DiscoveryState::Unsupported,
            "CLI App Server"@,
            "Unavailable: App Server supervision is not integrated"@,
        )
    } else {
        unlocated(DiscoveryState::Missing, "Waiting for Codex executable"@)
    }
}

/// What is reported about the App Server in a mode: the desktop app needs none.
pub open spec fn app_server_mode_view(binary_found: bool, gui_mode: bool) -> StatusView {
    if gui_mode {
        unlocated(DiscoveryState::NotRequired, "Not required for desktop app"@)
    } else {
        app_server_view(binary_found)
    }
}

/// The status of the App Server of the command line tool.
pub fn app_server_status(binary_found: bool) -> (status: DiscoveryStatus)
    ensures
        status@ == app_server_view(binary_found),
{
    if binary_found {
        DiscoveryStatus::at(
            DiscoveryState::Unsupported,
            "CLI App Server".to_owned(),
            "Unavailable: App Server supervision is not integrated",
        )
    } else {
        DiscoveryStatus::missing("Waiting for Codex executable")
    }
}

/// The status of the App Server in a mode.
pub fn app_server_status_for_mode(binary_found: bool, gui_mode: bool) -> (status: DiscoveryStatus)
    ensures
        status@ == app_server_mode_view(binary_found, gui_mode),
{
    if gui_mode {
        DiscoveryStatus::not_required("Not required for desktop app")
    } else {
        app_server_status(binary_found)
    }
}

/// In desktop mode the report does not depend on whether an executable was found,
/// and in no mode does it claim a usable App Server.
pub proof fn law_app_server_is_never_usable(binary_found: bool, gui_mode: bool)
    ensures
        app_server_mode_view(binary_found, true) == app_server_mode_view(!binary_found, true),
        !(app_server_mode_view(binary_found, gui_mode).state is Selected),
        !(app_server_mode_view(binary_found, gui_mode).state is AutoDetected),
{
}

/// What is reported about the App Server: in desktop mode that none is needed; else that
/// it is not supervised, or without an executable that one is waited for.
pub proof fn law_app_server_reports(binary_found: bool)
    ensures
        app_server_mode_view(binary_found, true) == (StatusView {
            state: DiscoveryState::NotRequired,
            redacted_location: None,
            message: "Not required for desktop app"@,
        }),
        app_server_mode_view(binary_found, false) == app_server_view(binary_found),
        app_server_view(true) == (StatusView {
            state: DiscoveryState::Unsupported,
            redacted_location: Some("CLI App Server"@),
            message: "Unavailable: App Server supervision is not integrated"@,
        }),
        app_server_view(false) == (StatusView {
            state: DiscoveryState::Missing,
            redacted_location: None,
            message: "Waiting for Codex executable"@,
        }),
{
}

} // verus!
