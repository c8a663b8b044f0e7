use vstd::prelude::*;

verus! {

/// The way the server talks to its client.
#[derive(Debug, PartialEq, Eq, Structural, Clone, Copy)]
pub enum Transport {
    Stdio,
}

/// The settings of the Jira tools: where the Jira REST API is and the token
/// that authenticates to it.
pub struct Jira {
    pub base_url: String,
    pub token: String,
}

impl Jira {
    /// The settings for the Jira REST API at `base_url`, authenticated by
    /// `token`.
    pub fn new(base_url: String, token: String) -> (r: Jira)
        ensures
            r.base_url@ == base_url@,
            r.token@ == token@,
    {
        Jira { base_url, token }
    }

    /// The base address of the Jira REST API.
    pub fn base_url(&self) -> (r: &str)
        ensures
            r@ == self.base_url@,
    {
        self.base_url.as_str()
    }

    /// The token that authenticates to Jira.
    pub fn token(&self) -> (r: &str)
        ensures
            r@ == self.token@,
    {
        self.token.as_str()
    }

    /// The answer of a tool whose Jira request failed with the message `e`.
    pub fn jira_client_error_response(&self, e: &str) -> (r: String)
        ensures
            r@ == "Error: "@ + e@,
    {
        let mut r = "Error: ".to_owned();
        r.append(e);
        r
    }
}

/// Builds a server.
pub struct ServerBuilder {
    pub transport: Transport,
}

impl ServerBuilder {
    /// A builder of a server that talks over standard input and output.
    pub fn stdio_server() -> (r: Self)
        ensures
            r.transport == Transport::Stdio,
    {
        ServerBuilder { transport: Transport::Stdio }
    }

    /// The server for the Jira REST API at `base_url`, authenticated by
    /// `token`, over the builder's transport.
    pub fn build(self, base_url: String, token: String) -> (r: Server)
        ensures
            r.transport == self.transport,
            r.handler.base_url@ == base_url@,
            r.handler.token@ == token@,
    {
        Server { transport: self.transport, handler: Jira::new(base_url, token) }
    }
}

/// A Jira server ready to run.
pub struct Server {
    pub transport: Transport,
    pub handler: Jira,
}

} // verus!
