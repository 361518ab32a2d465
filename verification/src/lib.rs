//! Authenticated encryption of byte payloads and the buffer hand-off protocol
//! that lets a host without shared memory use it.
//!
//! * [`error`]: the failure taxonomy shared by every layer.
//! * [`encryption`]: AES-256-GCM key generation, sealing and opening.
//! * [`memory`]: the handle table that owns every buffer exchanged with the host.
//! * [`boundary`]: the engine's operations over `(address, length)` descriptors.
//! * [`storage`]: the transport packet that carries a nonce and a ciphertext as text.

pub mod error;
pub mod memory;
pub mod encryption;
pub mod boundary;
pub mod storage;

pub use boundary::decrypt_data_wasm;
pub use boundary::encrypt_data_wasm;
pub use boundary::generate_aes_key_wasm;
pub use memory::wasm_alloc;
pub use memory::wasm_dealloc;
