//! A light-client bridge ledger: relay-chain finality tracking, parachain-head
//! inclusion, per-lane message bookkeeping, relayer rewards, atomic batches and
//! their fees.
//!
//! Every operation is stated over `model::BridgeModel`: the executable state in
//! `bridge` follows the spec functions of `model` exactly, and `laws` proves the
//! properties that hold of them for all inputs.
//!
//! The cryptographic parts of a proof are not checked here: the ledger trusts
//! the precommit bitmap of a `FinalityProof`, the decoded trie entries of a
//! `HeadsProof`, and the message lists of `MessagesProof` and `DeliveryProof`
//! as they are handed in. What it checks is everything those facts must agree
//! with: the live authority set and quorum, certified anchors and state roots,
//! certified parachain heads, nonce order, and the unrewarded-relayer summary.
pub mod types;
pub mod weights;
pub mod model;
pub mod bridge;
pub mod fee;
pub mod laws;
