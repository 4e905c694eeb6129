//! Immutable service configuration, passed explicitly into the admission
//! controller and the transform engine. Reading it from the environment is
//! the surrounding runtime's job.
use vstd::prelude::*;

verus! {

/// Where result bytes are kept.
#[derive(Clone)]
pub struct StorageConfig {
    /// `local` or `s3`.
    pub mode: String,
    pub local_path: String,
    pub s3_endpoint: Option<String>,
    pub s3_bucket: Option<String>,
    pub s3_access_key: Option<String>,
    pub s3_secret_key: Option<String>,
}

/// Per-tier admission ceilings.
#[derive(Clone)]
pub struct QuotaConfig {
    pub free_tier_image_daily: u32,
    pub free_tier_video_daily: u32,
    pub free_tier_concurrent: u32,
    pub pro_tier_video_daily: u32,
    pub pro_tier_concurrent: u32,
}

/// Limits and assets of the transform engine.
#[derive(Clone)]
pub struct ProcessingConfig {
    pub max_image_size_mb: u64,
    pub max_video_size_mb: u64,
    pub max_video_duration_seconds: u32,
    pub model_path: String,
    pub temp_dir: String,
}

/// The whole service configuration.
#[derive(Clone)]
pub struct Config {
    pub database_url: String,
    pub redis_url: String,
    pub jwt_secret: String,
    pub host: String,
    pub port: u16,
    pub storage: StorageConfig,
    pub quotas: QuotaConfig,
    pub processing: ProcessingConfig,
}

} // verus!
