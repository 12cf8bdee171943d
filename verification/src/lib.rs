//! Decryption of console content archives and game-card images.
//!
//! Four cipher modes over AES-128 are covered: the tweaked XTS construction
//! protecting archive headers, single-block ECB for key entries, CBC for the
//! encrypted game-card header region, and a random-access CTR cursor for
//! archive bodies. Keys are supplied by the caller as raw bytes.
//!
//! The AES computations themselves are performed by the RustCrypto crates and
//! are trusted; everything around them (length validation, tweak and counter
//! derivation, sector and block sequencing, chaining) is verified.

pub mod archive_header;
pub mod big_endian;
pub mod block_cipher;
pub mod bytes;
pub mod card_header;
pub mod cursor;
pub mod error;
pub mod key_area;
pub mod tweak;

pub use archive_header::{decrypt_nca_header, xts_decrypt_area};
pub use card_header::{cbc_decrypt, decrypt_xci_enc_header};
pub use cursor::{create_dec_ctr, CtrWrapper};
pub use error::DecryptError;
pub use key_area::decrypt_nca_area;
pub use tweak::get_nintendo_tweak;
