//! Settings of the embedding clients; the clients themselves perform network
//! I/O and live with the caller.
use vstd::prelude::*;

verus! {

/// Settings of the OpenAI embedding client.
#[derive(Debug)]
pub struct OpenAiEmbeddingConfig {
    pub endpoint: String,
    pub api_key: String,
    pub model: String,
    pub timeout: std::time::Duration,
}

/// Settings of the generic HTTP embedding client.
#[derive(Debug)]
pub struct HttpEmbeddingConfig {
    pub endpoint: String,
    pub model: String,
    pub timeout: std::time::Duration,
}

impl Clone for OpenAiEmbeddingConfig {
    fn clone(&self) -> (c: Self)
        ensures
            c == *self,
    {
        OpenAiEmbeddingConfig {
            endpoint: self.endpoint.clone(),
            api_key: self.api_key.clone(),
            model: self.model.clone(),
            timeout: self.timeout,
        }
    }
}

impl Clone for HttpEmbeddingConfig {
    fn clone(&self) -> (c: Self)
        ensures
            c == *self,
    {
        HttpEmbeddingConfig { endpoint: self.endpoint.clone(), model: self.model.clone(), timeout: self.timeout }
    }
}

} // verus!
