//! Setting up a session: cookies, identities, and the key exchange.

pub mod cookie;
pub mod hybrid_keys;
pub mod noise;
pub mod quantum;
pub mod state;

pub use cookie::CookieFactory;
pub use hybrid_keys::{
    kem_decapsulate, kem_encapsulate, mldsa_verify, pk_from_bytes, pk_to_bytes, HybridSharedSecret,
    IdentityKeypair, KemPublicKey, KemSecretKey, MLDSA_PK_LEN, MLDSA_SIG_LEN, MLDSA_SK_LEN,
};
pub use state::{exchange, ClientHandshake, HandshakeResult, IdentityProof, ServerHandshake};
