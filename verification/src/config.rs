use vstd::prelude::*;

verus! {

/// The server's settings, read from the `ROCKET_`-prefixed environment.
#[derive(Debug)]
pub struct Config {
    pub db_url: String,
    pub db_user: String,
    pub db_password: String,
    pub db_config_file: String,
    pub jwt_secret: String,
    pub aes_key: String,
    pub token_expiration_seconds: i64,
    pub refresh_token_expiration_seconds: i64,
    pub s3_endpoint: Option<String>,
    pub s3_public_endpoint: Option<String>,
    pub s3_bucket: Option<String>,
    pub s3_access_key: Option<String>,
    pub s3_secret_key: Option<String>,
    pub cdn_base_url: Option<String>,
}

} // verus!
