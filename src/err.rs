//! The library's error kinds.
use vstd::prelude::*;

verus! {

#[verifier::external_type_specification]
#[verifier::external_body]
pub struct ExSledError(sled::Error);

#[verifier::external_type_specification]
#[verifier::external_body]
pub struct ExAeadError(aes_gcm_siv::aead::Error);

#[verifier::external_type_specification]
#[verifier::external_body]
pub struct ExBip39Error(bip39::Error);

/// Suggested Password Was Too Simple
#[derive(Debug)]
pub struct PasswordTooSimple;

/// Password Not Set, Must Set Initial Password Before Changing It
#[derive(Debug)]
pub struct PasswordNotSet;

/// Password Already Set, Must Use Old Password to Change
#[derive(Debug)]
pub struct PasswordSet;

/// Password Submission Did Not Match Record
#[derive(Debug)]
pub struct IncorrectPassword;

/// Credential Cannot Be Read When Store Is Locked
#[derive(Debug)]
pub struct Locked;

/// CAS Requires Valid Comparison Between Old and Existing Entry
#[derive(Debug)]
pub struct OldDNECurrent;

#[derive(Debug)]
pub enum DbError {
    SledError(sled::Error),
    /// Key Does Not Exist in Key Set
    KeyDNE,
    /// Insert Is Only For Fresh Keys
    CannotInsertIfValExists,
    /// Value Not Found For Provided Key
    ValueDNE,
}

/// Why a store operation failed.
#[derive(Debug)]
pub enum StoreError {
    PasswordTooSimple(PasswordTooSimple),
    PasswordNotSet(PasswordNotSet),
    PasswordSet(PasswordSet),
    IncorrectPassword(IncorrectPassword),
    Locked(Locked),
    OldDNECurrent(OldDNECurrent),
    Db(DbError),
}

#[derive(Debug)]
pub enum KeyPairError {
    AeadError(aes_gcm_siv::aead::Error),
    Bip39Error(bip39::Error),
    /// Empty Seed Provided
    EmptySeed,
    /// The restored entropy is shorter than a seed
    InsufficientEntropy,
}

} // verus!
