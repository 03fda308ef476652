//! OAuth 1.0a request signatures: percent-encoding, the base string URI,
//! parameter normalization, the signature base string and the signature.

pub mod base64;
pub mod encode;
pub mod example;
pub mod method;
pub mod order;
pub mod params;
pub mod permute;
pub mod request;
pub mod sign;
pub mod text;
pub mod uri;

pub use crate::encode::percent_encode;
pub use crate::example::{get_signature_base_string, params};
pub use crate::method::SignatureMethod;
pub use crate::params::normalize_parameters;
pub use crate::request::{oauth_parameters, signature_base_string};
pub use crate::sign::signature;
pub use crate::uri::{base_string_uri, Error, Uri};
