//! Audits of a domain's mail-sending policy and of its network topology.
//!
//! The crate holds the rules of both audits: reading SPF records, evaluating
//! them for a candidate address, walking their inclusion graph, following
//! host-name chains, and keeping resolved hosts in a bounded cache. It sends
//! no query itself. Each engine reads the DNS answers gathered so far from a
//! [`dns::DnsSnapshot`] and either states its result or names the question it
//! needs answered next; the caller asks the network and records the answer.
//! What an engine returns is a function of the answers alone; each such
//! function is written down beside the engine, and the engine is proved to
//! compute it.
//!
//! Around the audits stand the rules of what keeps them company: secrets and
//! their encryption ([`storage`], [`crypto`], [`api_keys`], [`passkey`]), the
//! audit log ([`audit`]), where exports go ([`export`]), the vendor's DNS
//! records ([`cloudflare`]), what is read from JSON ([`json`]), the
//! registrars' reports and the health check on them ([`registrar`],
//! [`namecheap`], [`providers`]), and the settings of the tool server
//! ([`mcp`]).

pub mod address;
pub mod api_keys;
pub mod audit;
pub mod cloudflare;
pub mod crypto;
pub mod dns;
pub mod encoding;
pub mod export;
pub mod json;
pub mod mcp;
pub mod namecheap;
pub mod passkey;
pub mod providers;
pub mod registrar;
pub mod spf;
pub mod storage;
pub mod text;
pub mod topology;
