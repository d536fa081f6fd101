//! Settings blocks that the server reads at startup.
use vstd::prelude::*;

verus! {

#[derive(Clone, Debug)]
pub struct NetworkSettings {
    pub domain: String,
}

#[derive(Clone, Debug)]
pub struct SecuritySettings {
    pub enable_cors: bool,
    pub allowed_origins: Vec<String>,
}

#[derive(Clone, Debug)]
pub struct GitHubSettings {
    pub access_token: String,
    pub repository: String,
    pub branch: String,
}

#[derive(Clone, Debug)]
pub struct RagFlowSettings {
    pub api_key: String,
    pub endpoint: String,
    pub base_url: String,
    pub timeout: u64,
    pub max_retries: u32,
}

#[derive(Clone, Debug)]
pub struct OpenAISettings {
    pub api_key: String,
    pub model: String,
    pub base_url: String,
    pub timeout: u64,
    pub rate_limit: u32,
}

#[derive(Clone, Debug)]
pub struct DefaultSettings {
    pub max_concurrent_requests: usize,
    pub request_timeout: u64,
}

/// Which text-to-speech backend serves speech requests.
#[derive(Clone, Copy, Debug, PartialEq, Eq, Structural)]
pub enum TTSProvider {
    OpenAI,
    Sonata,
}

} // verus!
