//! The keys to the two services.
use vstd::prelude::*;

use crate::text::{parse_u64, parsed_u64};

verus! {

/// The keys to the two services, and where in the task service the tasks are kept.
#[derive(Debug, Clone)]
pub struct Secrets {
    pub asana_pat: String,
    pub asana_workspace_gid: u64,
    pub asana_project_gid: u64,
    pub pco_app_id: String,
    pub pco_secret: String,
}

/// The settings from which the keys are taken.
#[derive(Debug, Clone, Copy, PartialEq, Eq, Structural)]
pub enum Setting {
    AsanaPat,
    AsanaWorkspaceGid,
    AsanaProjectGid,
    PcoAppId,
    PcoSecret,
}

/// The name of the environment variable that holds a setting.
pub open spec fn variable_name(setting: Setting) -> Seq<char> {
    match setting {
        Setting::AsanaPat => "ASANA_PAT"@,
        Setting::AsanaWorkspaceGid => "ASANA_WORKSPACE_GID"@,
        Setting::AsanaProjectGid => "ASANA_PROJECT_GID"@,
        Setting::PcoAppId => "PCO_APP_ID"@,
        Setting::PcoSecret => "PCO_SECRET"@,
    }
}

impl Setting {
    /// The name of the environment variable that holds the setting.
    pub fn variable(&self) -> (name: &'static str)
        ensures
            name@ == variable_name(*self),
    {
        match self {
            Setting::AsanaPat => "ASANA_PAT",
            Setting::AsanaWorkspaceGid => "ASANA_WORKSPACE_GID",
            Setting::AsanaProjectGid => "ASANA_PROJECT_GID",
            Setting::PcoAppId => "PCO_APP_ID",
            Setting::PcoSecret => "PCO_SECRET",
        }
    }
}

/// What is wrong with a setting.
#[derive(Debug, Clone, Copy, PartialEq, Eq, Structural)]
pub enum SecretsError {
    NotSet(Setting),
    NotANumber(Setting),
}

/// The message of an error about a setting.
pub open spec fn secrets_error_message(error: SecretsError) -> Seq<char> {
    match error {
        SecretsError::NotSet(setting) => variable_name(setting) + " is not set"@,
        SecretsError::NotANumber(setting) => variable_name(setting)
            + " cannot be parsed as a number"@,
    }
}

impl SecretsError {
    /// The message of the error.
    pub fn message(&self) -> (text: String)
        ensures
            text@ == secrets_error_message(*self),
    {
        match self {
            SecretsError::NotSet(setting) => setting.variable().to_owned().concat(" is not set"),
            SecretsError::NotANumber(setting) => setting.variable().to_owned().concat(
                " cannot be parsed as a number",
            ),
        }
    }
}

/// What is wrong with a setting that is to hold a text.
pub open spec fn text_fault(value: Option<String>, setting: Setting) -> Option<SecretsError> {
    match value {
        Some(_) => None,
        None => Some(SecretsError::NotSet(setting)),
    }
}

/// What is wrong with a setting that is to hold a number.
pub open spec fn number_fault(value: Option<String>, setting: Setting) -> Option<SecretsError> {
    match value {
        Some(text) => if parsed_u64(text@) is Some {
            None
        } else {
            Some(SecretsError::NotANumber(setting))
        },
        None => Some(SecretsError::NotSet(setting)),
    }
}

/// The first of two faults.
pub open spec fn first_fault(
    first: Option<SecretsError>,
    second: Option<SecretsError>,
) -> Option<SecretsError> {
    if first is Some {
        first
    } else {
        second
    }
}

fn number_setting(value: Option<String>, setting: Setting) -> (number: Result<u64, SecretsError>)
    ensures
        match number {
            Ok(n) => value is Some && parsed_u64(value->0@) == Some(n),
            Err(error) => number_fault(value, setting) == Some(error),
        },
{
    match value {
        Some(text) => match parse_u64(text.as_str()) {
            Some(n) => Ok(n),
            None => Err(SecretsError::NotANumber(setting)),
        },
        None => Err(SecretsError::NotSet(setting)),
    }
}

impl Secrets {
    /// Takes the keys from the settings. The first setting that is missing, or that is to be a
    /// number and is none, is reported.
    pub fn new(
        asana_pat: Option<String>,
        asana_workspace_gid: Option<String>,
        asana_project_gid: Option<String>,
        pco_app_id: Option<String>,
        pco_secret: Option<String>,
    ) -> (secrets: Result<Secrets, SecretsError>)
        ensures
            ({
                let fault = first_fault(
                    text_fault(asana_pat, Setting::AsanaPat),
                    first_fault(
                        number_fault(asana_workspace_gid, Setting::AsanaWorkspaceGid),
                        first_fault(
                            number_fault(asana_project_gid, Setting::AsanaProjectGid),
                            first_fault(
                                text_fault(pco_app_id, Setting::PcoAppId),
                                text_fault(pco_secret, Setting::PcoSecret),
                            ),
                        ),
                    ),
                );
                match secrets {
                    Ok(keys) => {
                        &&& fault is None
                        &&& asana_pat == Some(keys.asana_pat)
                        &&& parsed_u64(asana_workspace_gid->0@) == Some(keys.asana_workspace_gid)
                        &&& parsed_u64(asana_project_gid->0@) == Some(keys.asana_project_gid)
                        &&& pco_app_id == Some(keys.pco_app_id)
                        &&& pco_secret == Some(keys.pco_secret)
                    },
                    Err(error) => fault == Some(error),
                }
            }),
    {
        let asana_pat = match asana_pat {
            Some(text) => text,
            None => return Err(SecretsError::NotSet(Setting::AsanaPat)),
        };
        let asana_workspace_gid: u64 = match number_setting(
            asana_workspace_gid,
            Setting::AsanaWorkspaceGid,
        ) {
            Ok(n) => n,
            Err(error) => return Err(error),
        };
        let asana_project_gid: u64 = match number_setting(
            asana_project_gid,
            Setting::AsanaProjectGid,
        ) {
            Ok(n) => n,
            Err(error) => return Err(error),
        };
        let pco_app_id = match pco_app_id {
            Some(text) => text,
            None => return Err(SecretsError::NotSet(Setting::PcoAppId)),
        };
        let pco_secret = match pco_secret {
            Some(text) => text,
            None => return Err(SecretsError::NotSet(Setting::PcoSecret)),
        };
        Ok(
            Secrets {
                asana_pat,
                asana_workspace_gid,
                asana_project_gid,
                pco_app_id,
                pco_secret,
            },
        )
    }
}

// ---------------------------------------------------------------------------
// Laws
// ---------------------------------------------------------------------------

/// A setting is at fault exactly where it is missing, or is to be a number and is none, and of
/// two faults the first one counts.
pub proof fn faults_are_missing_settings_and_no_numbers(
    value: Option<String>,
    setting: Setting,
    first: Option<SecretsError>,
    second: Option<SecretsError>,
)
    ensures
        value is None ==> text_fault(value, setting) == Some(SecretsError::NotSet(setting))
            && number_fault(value, setting) == Some(SecretsError::NotSet(setting)),
        value matches Some(text) ==> text_fault(value, setting) is None && (parsed_u64(
            text@,
        ) is Some ==> number_fault(value, setting) is None) && (parsed_u64(text@) is None
            ==> number_fault(value, setting) == Some(SecretsError::NotANumber(setting))),
        first is Some ==> first_fault(first, second) == first,
        first is None ==> first_fault(first, second) == second,
{
}

/// An error names the variable of its setting.
pub proof fn errors_name_their_variable(setting: Setting)
    ensures
        secrets_error_message(SecretsError::NotSet(setting)) == variable_name(setting)
            + " is not set"@,
        secrets_error_message(SecretsError::NotANumber(setting)) == variable_name(setting)
            + " cannot be parsed as a number"@,
{
}

} // verus!
