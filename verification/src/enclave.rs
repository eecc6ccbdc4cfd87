//! Decisions around starting an enclave and calling into it.

use vstd::prelude::*;

verus! {

/// Number of bytes of a launch token.
pub const LAUNCH_TOKEN_SIZE: usize = 1024;

/// Roster indices for which the test key store holds path secrets.
pub const UNTIL_ROSTER_IDX: usize = 10;

/// Epochs for which the test key store holds path secrets.
pub const UNTIL_EPOCH: usize = 30;

/// The launch token that a token file holds: its 1024 bytes. `None` for a
/// file of another length.
pub fn get_launch_token(contents: &[u8]) -> (token: Option<[u8; 1024]>)
    ensures
        match token {
            Some(bytes) => contents@.len() == LAUNCH_TOKEN_SIZE && bytes@ == contents@,
            None => contents@.len() != LAUNCH_TOKEN_SIZE,
        },
{
    if contents.len() != 1024 {
        return None;
    }
    let mut token = [0u8;1024];
    let mut i: usize = 0;
    while i < 1024
        invariant
            0 <= i <= 1024,
            contents@.len() == 1024,
            token@.len() == 1024,
            forall|j: int| 0 <= j < i ==> token@[j] == contents@[j],
        decreases 1024 - i,
    {
        token[i] = contents[i];
        i += 1;
    }
    assert(token@ =~= contents@);
    Some(token)
}

/// The launch token to start with where there is no token file: all zero.
pub fn empty_launch_token() -> (token: [u8; 1024])
    ensures
        token@ == Seq::new(LAUNCH_TOKEN_SIZE as nat, |i: int| 0u8),
{
    let token = [0u8;1024];
    assert(token@ =~= Seq::new(LAUNCH_TOKEN_SIZE as nat, |i: int| 0u8));
    token
}

/// Whether the launch token has to be written back: the enclave changed it.
pub fn launch_token_changed(launch_token_updated: i32) -> (changed: bool)
    ensures
        changed == (launch_token_updated != 0),
{
    launch_token_updated != 0
}

/// Where the path secrets of the group come from.
#[derive(Clone, Debug, PartialEq, Eq)]
pub enum PathSecretSource {
    /// From this enclave.
    Local,
    /// From a key store filled for tests, up to a roster index and an epoch.
    LocalTestKV { until_roster_idx: usize, until_epoch: usize },
    /// From the auditor at this address.
    Remote(String),
}

/// The source of the path secrets for a value of `AUDITOR_ENDPOINT`: local
/// where it is not set, the test key store for `test`, and otherwise the
/// auditor at that address.
pub fn path_secret_source(auditor_endpoint: Option<String>) -> (source: PathSecretSource)
    ensures
        match auditor_endpoint {
            None => source == PathSecretSource::Local,
            Some(endpoint) => if endpoint@ == "test"@ {
                source == (PathSecretSource::LocalTestKV {
                    until_roster_idx: UNTIL_ROSTER_IDX,
                    until_epoch: UNTIL_EPOCH,
                })
            } else {
                source == PathSecretSource::Remote(endpoint)
            },
        },
{
    match auditor_endpoint {
        None => PathSecretSource::Local,
        Some(endpoint) => {
            if endpoint == "test".to_owned() {
                PathSecretSource::LocalTestKV {
                    until_roster_idx: UNTIL_ROSTER_IDX,
                    until_epoch: UNTIL_EPOCH,
                }
            } else {
                PathSecretSource::Remote(endpoint)
            }
        },
    }
}

/// Why a call into the enclave failed.
#[derive(Clone, Copy, Debug, PartialEq, Eq, Structural)]
pub enum EcallError {
    /// The platform reported a status other than success.
    SgxStatus { cmd: u32 },
    /// The enclave reported an error of its own.
    EnclaveError { cmd: u32 },
    /// The enclave wrote as much as the buffer holds, or more.
    OutputOverrun { cmd: u32 },
}

/// The enclave to call and the room given to its answers.
#[derive(Clone, Copy, Debug, PartialEq, Eq, Structural)]
pub struct EnclaveConnector {
    pub eid: u64,
    pub output_max_len: usize,
}

impl EnclaveConnector {
    pub fn new(eid: u64, output_max_len: usize) -> (connector: Self)
        ensures
            connector == (EnclaveConnector { eid, output_max_len }),
    {
        EnclaveConnector { eid, output_max_len }
    }

    /// What a call into the enclave came to: the number of bytes of its
    /// answer, or the first thing that went wrong. The status of the platform
    /// is looked at first, then that of the enclave, then the length.
    pub fn inner_invoke_ecall(
        &self,
        cmd: u32,
        sgx_success: bool,
        enclave_failed: bool,
        output_len: usize,
    ) -> (out: Result<usize, EcallError>)
        ensures
            out == (if !sgx_success {
                Err::<usize, EcallError>(EcallError::SgxStatus { cmd })
            } else if enclave_failed {
                Err(EcallError::EnclaveError { cmd })
            } else if output_len >= self.output_max_len {
                Err(EcallError::OutputOverrun { cmd })
            } else {
                Ok(output_len)
            }),
    {
        if !sgx_success {
            Err(EcallError::SgxStatus { cmd })
        } else if enclave_failed {
            Err(EcallError::EnclaveError { cmd })
        } else if output_len >= self.output_max_len {
            Err(EcallError::OutputOverrun { cmd })
        } else {
            Ok(output_len)
        }
    }
}

} // verus!
