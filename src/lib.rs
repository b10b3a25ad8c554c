//! Local secret management: a fixed-size secret container, a key pair with envelope
//! encryption and mnemonic backup, a password-protected credential store, and the password
//! scoring and generation the store relies on.
pub mod arr;
pub mod err;
pub mod key;
pub mod passgen;
pub mod store;
