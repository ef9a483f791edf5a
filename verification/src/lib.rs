//! Interactive secure-credential access for a KeePass-style vault front-end.
//!
//! The verified core covers: the entry-path locator over the vault's group
//! tree, the TOTP secret normalizer and code computation, the credential
//! resolver protocol (keyring cache, pipe, bounded interactive retry), the
//! clipboard exposure countdown, and the terminal raw-mode model. Vault
//! decryption, the OS keyring, the fuzzy picker and all I/O are external
//! collaborators driven by the accompanying command-line front end.

pub mod clipboard;
pub mod errors;
pub mod picker;
pub mod pwd;
pub mod resolver;
pub mod terminal;
pub mod timer;
pub mod totp;
pub mod vault;
