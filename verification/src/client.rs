//! The client handle: the validated connection parameters a command runs
//! with. The network transport itself is an external collaborator; the
//! handle only fixes which store the commands speak to.

use vstd::prelude::*;

use crate::config::S3Config;
use crate::errors::CliError;

verus! {

/// A handle on one remote store: credentials, region, bucket, and an
/// optional custom endpoint.
pub struct S3Client {
    pub access_key: String,
    pub secret_key: String,
    pub region: String,
    pub bucket: String,
    pub endpoint: Option<String>,
}

impl S3Client {
    /// Builds a client from the connection settings, carrying each field
    /// over unchanged.
    pub fn new(config: &S3Config) -> (r: Result<S3Client, CliError>)
        ensures
            r matches Result::Ok(c) && c.access_key@ == config.access_key@ && c.secret_key@
                == config.secret_key@ && c.region@ == config.region@ && c.bucket@
                == config.bucket@ && c.endpoint.deep_view() == config.endpoint.deep_view(),
    {
        let endpoint = match &config.endpoint {
            Option::Some(e) => Option::Some(e.clone()),
            Option::None => Option::None,
        };
        Result::Ok(S3Client {
            access_key: config.access_key.clone(),
            secret_key: config.secret_key.clone(),
            region: config.region.clone(),
            bucket: config.bucket.clone(),
            endpoint,
        })
    }
}

} // verus!
