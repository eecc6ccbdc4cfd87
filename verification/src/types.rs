//! Sizes and plain types shared between the host and the enclave.

use vstd::prelude::*;

verus! {

pub const STATE_SIZE: usize = 8;

pub const PUBKEY_SIZE: usize = 64;

pub const ADDRESS_SIZE: usize = 20;

pub const RANDOMNESS_SIZE: usize = 32;

pub const SIG_SIZE: usize = 65;

/// An address, a state and the randomness, one after the other.
pub const CIPHERTEXT_SIZE: usize = ADDRESS_SIZE + STATE_SIZE + RANDOMNESS_SIZE;

pub type PubKey = [u8; 64];

pub type Address = [u8; 20];

pub type Value = u64;

pub type Randomness = [u8; 32];

pub type Ciphertext = [u8; 60];

pub type Sig = [u8; 65];

pub type Msg = [u8; 32];

/// What a call into the enclave reports back.
#[derive(Debug, Clone, Copy, PartialEq, Eq, Structural)]
pub enum EnclaveReturn {
    /// Success, the function returned without any failure.
    Success,
}

impl Default for EnclaveReturn {
    fn default() -> (ret: EnclaveReturn)
        ensures
            ret == EnclaveReturn::Success,
    {
        EnclaveReturn::Success
    }
}

impl EnclaveReturn {
    /// The value in words.
    pub fn to_text(&self) -> (text: String)
        ensures
            text@ == match *self {
                EnclaveReturn::Success => "EnclaveReturn: Success"@,
            },
    {
        match self {
            EnclaveReturn::Success => "EnclaveReturn: Success".to_owned(),
        }
    }
}

} // verus!
