//! Surrogate-key (tag) based cache purging for NGINX: the rules behind the
//! endpoints.
//!
//! An upstream response carries a header listing one or more tags. Every
//! cacheable response is recorded in an index from each tag to the set of
//! cache keys carrying it. A purge request naming a tag then invalidates every
//! cache entry in that set, without walking the cache directory. The index is
//! an accelerator, not the record: where it has no answer, the cache files
//! themselves are asked.

pub mod bytes;
pub mod cache_key;
pub mod conf;
pub mod decimal;
pub mod header;
pub mod history;
pub mod index;
pub mod index_laws;
pub mod lookup;
pub mod model;
pub mod purge;
pub mod record;
pub mod reply;
pub mod scan;
pub mod status;
pub mod store;
pub mod tags;
pub mod text;

pub use cache_key::{hex_decode, hex_encode, node_key, node_key_rest, CacheKey, CACHE_KEY_LEN};
pub use conf::{XkeyLocConf, XkeyMainConf};
pub use decimal::format_usize;
pub use header::find_header;
pub use tags::{split_tags, MAX_TAG_LEN};
