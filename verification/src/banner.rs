//! Where an update stands, and what the window says of it.

use vstd::prelude::*;
use vstd::string::*;

use crate::updater::UpdateInfo;

verus! {

/// Where an update stands.
#[derive(Clone, PartialEq)]
pub enum UpdateState {
    /// There is none.
    Idle,
    /// The latest release is being looked up.
    Checking,
    /// There is a newer release.
    Available(UpdateInfo),
    /// The release is being fetched and put in place.
    Downloading,
    /// The release is in place and runs after a restart.
    Installed,
    /// The release could not be put in place.
    Error(String),
}

impl UpdateState {
    /// The state before anything was looked up.
    pub fn new() -> (r: UpdateState)
        ensures
            r == UpdateState::Idle,
    {
        UpdateState::Idle
    }

    /// The latest release is going to be looked up.
    pub fn begin_check(&mut self)
        ensures
            *final(self) == UpdateState::Checking,
    {
        *self = UpdateState::Checking;
    }

    /// The look-up ended. One that failed is passed over in silence.
    pub fn finish_check(&mut self, outcome: Result<Option<UpdateInfo>, String>)
        ensures
            *final(self) == (match outcome {
                Ok(Some(info)) => UpdateState::Available(info),
                _ => UpdateState::Idle,
            }),
    {
        *self = match outcome {
            Ok(Some(info)) => UpdateState::Available(info),
            Ok(None) => UpdateState::Idle,
            Err(_) => UpdateState::Idle,
        };
    }

    /// The release is going to be fetched.
    pub fn begin_install(&mut self)
        ensures
            *final(self) == UpdateState::Downloading,
    {
        *self = UpdateState::Downloading;
    }

    /// The installation ended.
    pub fn finish_install(&mut self, outcome: Result<(), String>)
        ensures
            *final(self) == (match outcome {
                Ok(()) => UpdateState::Installed,
                Err(message) => UpdateState::Error(message),
            }),
    {
        *self = match outcome {
            Ok(()) => UpdateState::Installed,
            Err(message) => UpdateState::Error(message),
        };
    }
}

/// What the window says of an update.
pub enum Banner {
    /// Nothing.
    Hidden,
    /// That there is a newer release, beside a button that installs it.
    Offer { text: String },
    /// That something is going on.
    Progress { text: String },
    /// That the release is in place.
    Done { text: String },
    /// What went wrong.
    Failure { text: String },
}

/// Whether `banner` is what the window says of an update that stands at `state`.
pub open spec fn announces(banner: Banner, state: UpdateState) -> bool {
    match state {
        UpdateState::Idle | UpdateState::Checking => banner == Banner::Hidden,
        UpdateState::Available(info) => banner matches Banner::Offer { text } && text@
            == "Доступно обновление: v"@ + info.version@,
        UpdateState::Downloading => banner matches Banner::Progress { text } && text@
            == "Скачивание обновления…"@,
        UpdateState::Installed => banner matches Banner::Done { text } && text@
            == "Обновление установлено. Перезапустите Runde."@,
        UpdateState::Error(message) => banner matches Banner::Failure { text } && text@
            == "Ошибка обновления: "@ + message@,
    }
}

/// What the window says of an update that stands at `state`.
pub fn banner(state: &UpdateState) -> (r: Banner)
    ensures
        announces(r, *state),
{
    match state {
        UpdateState::Idle => Banner::Hidden,
        UpdateState::Checking => Banner::Hidden,
        UpdateState::Available(info) => Banner::Offer {
            text: "Доступно обновление: v".to_owned().concat(info.version.as_str()),
        },
        UpdateState::Downloading => Banner::Progress { text: "Скачивание обновления…".to_owned() },
        UpdateState::Installed => Banner::Done {
            text: "Обновление установлено. Перезапустите Runde.".to_owned(),
        },
        UpdateState::Error(message) => Banner::Failure {
            text: "Ошибка обновления: ".to_owned().concat(message.as_str()),
        },
    }
}

/// Each state of an update has its own banner: none while there is nothing to tell, an offer with
/// the version in full, progress, success, and failure with its reason in full.
pub proof fn law_banner_tells_the_state(banner: Banner, state: UpdateState)
    requires
        announces(banner, state),
    ensures
        banner is Hidden <==> state is Idle || state is Checking,
        banner is Offer <==> state is Available,
        state matches UpdateState::Available(info) ==> banner->Offer_text@
            == "Доступно обновление: v"@ + info.version@,
        banner is Progress <==> state is Downloading,
        state is Downloading ==> banner->Progress_text@ == "Скачивание обновления…"@,
        banner is Done <==> state is Installed,
        state is Installed ==> banner->Done_text@
            == "Обновление установлено. Перезапустите Runde."@,
        banner is Failure <==> state is Error,
        state matches UpdateState::Error(message) ==> banner->Failure_text@
            == "Ошибка обновления: "@ + message@,
{
}

} // verus!
