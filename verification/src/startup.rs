//! The startup contract the parent process writes to the sidecar's stdin.
use vstd::prelude::*;

verus! {

/// VDevice group used when neither the contract nor the environment names
/// one.
pub const DEFAULT_VDEVICE_GROUP_ID: &'static str = "YU_SHARED";

/// The contract as parsed, before its rules are applied.
#[derive(Debug, Clone, PartialEq, Eq)]
pub struct RawStartupContract {
    pub instance_id: String,
    pub scan_roots: Vec<String>,
    pub auth_token: String,
    pub vdevice_group_id: Option<String>,
}

/// The contract the sidecar runs under.
#[derive(Debug, Clone, PartialEq, Eq)]
pub struct StartupContract {
    pub instance_id: String,
    pub scan_roots: Vec<String>,
    pub auth_token: String,
    pub vdevice_group_id: String,
}

/// Why the contract was refused.
#[derive(Debug, Clone, PartialEq, Eq)]
pub enum StartupError {
    /// Stdin could not be read.
    Io(String),
    /// The contract is not the expected JSON.
    Parse(String),
    /// `auth_token` is empty.
    EmptyToken,
}

impl StartupError {
    /// The error's message.
    pub fn message(&self) -> (r: String)
        ensures
            r@ == (match self {
                StartupError::Io(e) => "failed to read stdin: "@ + e@,
                StartupError::Parse(e) => "failed to parse startup contract JSON: "@ + e@,
                StartupError::EmptyToken => "auth_token must not be empty"@,
            }),
    {
        match self {
            StartupError::Io(e) => crate::text::cat("failed to read stdin: ", e.as_str()),
            StartupError::Parse(e) => crate::text::cat("failed to parse startup contract JSON: ", e.as_str()),
            StartupError::EmptyToken => String::from_str("auth_token must not be empty"),
        }
    }
}

/// Apply the contract's rules: the token must not be empty, and the VDevice
/// group is the contract's, else `env_group_id` (the value of
/// `HAILO_VDEVICE_GROUP_ID`), else `YU_SHARED`.
pub fn finish_startup_contract(raw: RawStartupContract, env_group_id: Option<String>) -> (r: Result<
    StartupContract,
    StartupError,
>)
    ensures
        r is Err <==> raw.auth_token@.len() == 0,
        r matches Err(e) ==> e is EmptyToken,
        r matches Ok(c) ==> {
            &&& c.instance_id@ == raw.instance_id@
            &&& c.scan_roots@ == raw.scan_roots@
            &&& c.auth_token@ == raw.auth_token@
            &&& c.vdevice_group_id@ == (match raw.vdevice_group_id {
                Some(g) => g@,
                None => match env_group_id {
                    Some(g) => g@,
                    None => "YU_SHARED"@,
                },
            })
        },
{
    if raw.auth_token.as_str().is_empty() {
        return Err(StartupError::EmptyToken);
    }
    proof {
        reveal_strlit("YU_SHARED");
    }
    let vdevice_group_id = match raw.vdevice_group_id {
        Some(g) => g,
        None => match env_group_id {
            Some(g) => g,
            None => String::from_str(DEFAULT_VDEVICE_GROUP_ID),
        },
    };
    Ok(
        StartupContract {
            instance_id: raw.instance_id,
            scan_roots: raw.scan_roots,
            auth_token: raw.auth_token,
            vdevice_group_id,
        },
    )
}

} // verus!
