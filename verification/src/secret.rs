//! Secrets as the library sees them: always encrypted, tagged with the epoch
//! of the key that encrypted them.

use vstd::prelude::*;

verus! {

/// Numbers the master keys of a cluster, in the order of their rotation.
pub type KeyEpoch = u32;

/// A secret encrypted under the key of one epoch.
#[derive(Debug, PartialEq, Eq)]
pub struct EncryptedSecret {
    pub key_epoch: KeyEpoch,
    pub ciphertext: Vec<u8>,
    pub nonce: Vec<u8>,
    pub algorithm: String,
}

} // verus!
