//! Which way the bridge logs in.

use vstd::prelude::*;

use crate::config;
use crate::config::Config;
use crate::ids;
use crate::ids::user_id_valid;
use crate::paths;
use crate::paths::join_path;

verus! {

/// A session that was saved so that a restart need not log in again.
#[derive(Debug)]
pub struct SavedSession {
    pub user_id: String,
    pub device_id: String,
    pub access_token: String,
}

/// The file that the session is saved in.
pub fn session_file_path(store_path: &str) -> (path: String)
    ensures
        path@ == paths::joined(store_path@, "session.json"@),
{
    join_path(store_path, "session.json")
}

/// A way to log in.
#[derive(Debug)]
pub enum LoginPlan {
    /// Restore the saved session.
    Restore,
    /// Log in by password, then save the session.
    Password { localpart: String, password: String, device_id: Option<String> },
    /// Use an access token as it is.
    Token { user_id: String, device_id: String, access_token: String },
}

/// A way to log in.
pub enum PlanModel {
    Restore,
    Password { localpart: Seq<char>, password: Seq<char>, device: Option<Seq<char>> },
    Token { user: Seq<char>, device: Seq<char>, token: Seq<char> },
}

impl View for LoginPlan {
    type V = PlanModel;

    open spec fn view(&self) -> PlanModel {
        match self {
            LoginPlan::Restore => PlanModel::Restore,
            LoginPlan::Password { localpart, password, device_id } => PlanModel::Password {
                localpart: localpart@,
                password: password@,
                device: match device_id {
                    Some(d) => Some(d@),
                    None => None,
                },
            },
            LoginPlan::Token { user_id, device_id, access_token } => PlanModel::Token {
                user: user_id@,
                device: device_id@,
                token: access_token@,
            },
        }
    }
}

/// Why there is no way to log in.
#[derive(Debug, PartialEq, Eq, Structural)]
pub enum LoginError {
    NoHomeserver,
    NoUserId,
    InvalidUserId,
    NoAuthentication,
}

/// The words for an error, where `user_id` is the user id that was set.
pub open spec fn login_error_words(error: LoginError, user_id: Seq<char>) -> Seq<char> {
    match error {
        LoginError::NoHomeserver => "MATRIX_HOMESERVER_URL is required"@,
        LoginError::NoUserId => "MATRIX_USER_ID is required"@,
        LoginError::InvalidUserId => "Invalid MATRIX_USER_ID: "@ + user_id,
        LoginError::NoAuthentication => "No authentication configured. Set MATRIX_PASSWORD for first-run E2EE setup, or MATRIX_ACCESS_TOKEN for token-based auth (limited E2EE)."@,
    }
}

impl LoginError {
    /// The words for the error, where `user_id` is the user id that was set.
    pub fn message(&self, user_id: &str) -> (words: String)
        ensures
            words@ == login_error_words(*self, user_id@),
    {
        match self {
            LoginError::NoHomeserver => "MATRIX_HOMESERVER_URL is required".to_owned(),
            LoginError::NoUserId => "MATRIX_USER_ID is required".to_owned(),
            LoginError::InvalidUserId => {
                let mut words = "Invalid MATRIX_USER_ID: ".to_owned();
                words.append(user_id);
                words
            },
            LoginError::NoAuthentication => "No authentication configured. Set MATRIX_PASSWORD for first-run E2EE setup, or MATRIX_ACCESS_TOKEN for token-based auth (limited E2EE).".to_owned(),
        }
    }
}

/// The way to log in with a user id that is in order: the saved session comes before the password,
/// and the password before the access token.
pub open spec fn plan_for(settings: Config, saved: bool) -> Result<PlanModel, LoginError> {
    if saved {
        Ok(PlanModel::Restore)
    } else {
        match (settings.password, settings.access_token) {
            (Some(password), _) => Ok(
                PlanModel::Password {
                    localpart: config::localpart_of(settings.user_id->0@),
                    password: password@,
                    device: match settings.device_id {
                        Some(d) => Some(d@),
                        None => None,
                    },
                },
            ),
            (None, Some(token)) => Ok(
                PlanModel::Token {
                    user: settings.user_id->0@,
                    device: match settings.device_id {
                        Some(d) => d@,
                        None => "cc_matrix_channel"@,
                    },
                    token: token@,
                },
            ),
            (None, None) => Err(LoginError::NoAuthentication),
        }
    }
}

/// The way to log in, where `valid` tells whether the user id, if one is set, is in order.
pub open spec fn plan_with(settings: Config, valid: bool, saved: bool) -> Result<
    PlanModel,
    LoginError,
> {
    if settings.homeserver_url is None {
        Err(LoginError::NoHomeserver)
    } else if settings.user_id is None {
        Err(LoginError::NoUserId)
    } else if !valid {
        Err(LoginError::InvalidUserId)
    } else {
        plan_for(settings, saved)
    }
}

/// What a way to log in says.
pub open spec fn plan_model(plan: Result<LoginPlan, LoginError>) -> Result<PlanModel, LoginError> {
    match plan {
        Ok(p) => Ok(p@),
        Err(e) => Err(e),
    }
}

/// The way to log in, where `valid` tells whether the user id, if one is set, is in order and
/// `saved` whether there is a saved session.
pub fn plan_login_with(settings: &Config, valid: bool, saved: bool) -> (plan: Result<
    LoginPlan,
    LoginError,
>)
    ensures
        plan_model(plan) == plan_with(*settings, valid, saved),
{
    if settings.homeserver_url.is_none() {
        return Err(LoginError::NoHomeserver);
    }
    let user_id: &String = match &settings.user_id {
        Some(id) => id,
        None => return Err(LoginError::NoUserId),
    };
    if !valid {
        return Err(LoginError::InvalidUserId);
    }
    if saved {
        return Ok(LoginPlan::Restore);
    }
    if let Some(password) = &settings.password {
        return Ok(
            LoginPlan::Password {
                localpart: config::localpart(user_id.as_str()),
                password: password.clone(),
                device_id: settings.device_id.clone(),
            },
        );
    }
    if let Some(token) = &settings.access_token {
        let device_id: String = match &settings.device_id {
            Some(d) => d.clone(),
            None => "cc_matrix_channel".to_owned(),
        };
        return Ok(
            LoginPlan::Token { user_id: user_id.clone(), device_id, access_token: token.clone() },
        );
    }
    Err(LoginError::NoAuthentication)
}

/// The way to log in, where `saved` tells whether there is a saved session.
pub fn plan_login(settings: &Config, saved: bool) -> (plan: Result<LoginPlan, LoginError>)
    ensures
        plan_model(plan) == plan_with(
            *settings,
            settings.user_id matches Some(id) && ids::is_user_id(id@),
            saved,
        ),
{
    let valid: bool = match &settings.user_id {
        Some(id) => user_id_valid(id.as_str()),
        None => false,
    };
    plan_login_with(settings, valid, saved)
}

/// Whether a saved session can be restored: the user id in it is in order.
pub fn restorable(session: &SavedSession) -> (yes: bool)
    ensures
        yes == ids::is_user_id(session.user_id@),
{
    user_id_valid(session.user_id.as_str())
}

/// With credentials set and a user id that is in order, there is a way to log in.
pub proof fn lemma_credentials_suffice(settings: Config, saved: bool)
    requires
        config::is_set(settings.homeserver_url),
        config::is_set(settings.user_id),
        config::is_set(settings.password) || config::is_set(settings.access_token),
    ensures
        plan_with(settings, true, saved) is Ok,
{
}

/// A saved session is restored, whatever other means there are to log in.
pub proof fn lemma_saved_session_comes_first(settings: Config)
    requires
        settings.homeserver_url is Some,
        settings.user_id is Some,
    ensures
        plan_with(settings, true, true) == Ok::<PlanModel, LoginError>(PlanModel::Restore),
{
}

/// How the bridge logs in. Without a homeserver, without a user id or with one that is not in order
/// it cannot. With a saved session it restores that; else it logs in by password, if there is one,
/// by the local part of its id; else it uses the access token, if there is one, under a name of its
/// own where no device is set; else it cannot.
pub proof fn lemma_how_the_bridge_logs_in(settings: Config, valid: bool, saved: bool)
    ensures
        settings.homeserver_url is None ==> plan_with(settings, valid, saved) == Err::<
            PlanModel,
            LoginError,
        >(LoginError::NoHomeserver),
        settings.homeserver_url is Some && settings.user_id is None ==> plan_with(
            settings,
            valid,
            saved,
        ) == Err::<PlanModel, LoginError>(LoginError::NoUserId),
        settings.homeserver_url is Some && settings.user_id is Some ==> {
            let id = settings.user_id->0@;
            &&& !valid ==> plan_with(settings, valid, saved) == Err::<PlanModel, LoginError>(
                LoginError::InvalidUserId,
            )
            &&& valid && saved ==> plan_with(settings, valid, saved) == Ok::<PlanModel, LoginError>(
                PlanModel::Restore,
            )
            &&& valid && !saved ==> (settings.password matches Some(password) ==> plan_with(
                settings,
                valid,
                saved,
            ) == Ok::<PlanModel, LoginError>(
                PlanModel::Password {
                    localpart: config::localpart_of(id),
                    password: password@,
                    device: match settings.device_id {
                        Some(d) => Some(d@),
                        None => None,
                    },
                },
            ))
            &&& valid && !saved && settings.password is None ==> (
            settings.access_token matches Some(token) ==> plan_with(settings, valid, saved) == Ok::<
                PlanModel,
                LoginError,
            >(
                PlanModel::Token {
                    user: id,
                    device: match settings.device_id {
                        Some(d) => d@,
                        None => "cc_matrix_channel"@,
                    },
                    token: token@,
                },
            ))
            &&& valid && !saved && settings.password is None && settings.access_token is None
                ==> plan_with(settings, valid, saved) == Err::<PlanModel, LoginError>(
                LoginError::NoAuthentication,
            )
        },
{
}

/// What is said of a way to log in is what it holds.
pub proof fn lemma_what_plans_say(plan: LoginPlan)
    ensures
        match plan {
            LoginPlan::Restore => plan@ == PlanModel::Restore,
            LoginPlan::Password { localpart, password, device_id } => plan@ == (
            PlanModel::Password {
                localpart: localpart@,
                password: password@,
                device: match device_id {
                    Some(d) => Some(d@),
                    None => None,
                },
            }),
            LoginPlan::Token { user_id, device_id, access_token } => plan@ == (PlanModel::Token {
                user: user_id@,
                device: device_id@,
                token: access_token@,
            }),
        },
        plan_model(Ok(plan)) == Ok::<PlanModel, LoginError>(plan@),
        plan_model(Err(LoginError::NoUserId)) == Err::<PlanModel, LoginError>(LoginError::NoUserId),
{
}

} // verus!
