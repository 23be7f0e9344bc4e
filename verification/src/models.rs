//! Data model: redirect rules and the request/response records that the
//! administrative surface exchanges with the coordinator.

use vstd::prelude::*;

verus! {

/// A registered redirect rule: requests for `source` under the virtual
/// hostname `host` forward to the URL template `target`.
pub struct Link {
    pub id: i32,
    pub host: String,
    /// A `/`-delimited path pattern whose final segment may be a parameter
    /// placeholder of the form `{name}`.
    pub source: String,
    /// A URL template; every literal occurrence of `{name}` is replaced by
    /// the captured path suffix when a parameterized rule matches.
    pub target: String,
    /// Creation time as seconds since the Unix epoch; informational only.
    pub created_at: i64,
}

/// Mathematical model of a `Link`.
pub ghost struct LinkModel {
    pub id: int,
    pub host: Seq<char>,
    pub source: Seq<char>,
    pub target: Seq<char>,
    pub created_at: int,
}

impl View for Link {
    type V = LinkModel;

    open spec fn view(&self) -> LinkModel {
        LinkModel {
            id: self.id as int,
            host: self.host@,
            source: self.source@,
            target: self.target@,
            created_at: self.created_at as int,
        }
    }
}

impl Clone for Link {
    fn clone(&self) -> (r: Link)
        ensures
            r@ == self@,
    {
        Link {
            id: self.id,
            host: self.host.clone(),
            source: self.source.clone(),
            target: self.target.clone(),
            created_at: self.created_at,
        }
    }
}

/// Request to register a new rule.
pub struct CreateLinkRequest {
    pub host: String,
    pub source: String,
    pub target: String,
}

/// Partial update of an existing rule: a field left as `None` keeps its
/// previous value.
pub struct UpdateLinkRequest {
    pub host: Option<String>,
    pub source: Option<String>,
    pub target: Option<String>,
}

/// A rule as reported back to the administrative caller.
pub struct LinkResponse {
    pub id: i32,
    pub host: String,
    pub source: String,
    pub target: String,
    pub created_at: i64,
}

impl LinkResponse {
    /// Copies every field of a rule into the response record.
    pub fn of_link(link: Link) -> (r: LinkResponse)
        ensures
            r.id == link.id,
            r.host@ == link.host@,
            r.source@ == link.source@,
            r.target@ == link.target@,
            r.created_at == link.created_at,
    {
        LinkResponse {
            id: link.id,
            host: link.host,
            source: link.source,
            target: link.target,
            created_at: link.created_at,
        }
    }
}

/// An error message for the administrative caller.
pub struct ErrorResponse {
    pub error: String,
}

/// Query parameters of a rule search.
pub struct SearchQuery {
    pub q: Option<String>,
    pub page: Option<i32>,
    pub per_page: Option<i32>,
}

/// Process configuration.
pub struct Config {
    pub admin_host: String,
    pub default_redirect_host: String,
    pub database_url: String,
    pub port: u16,
    pub host: String,
}

/// Form body of the "add rule" page.
pub struct AddFormData {
    pub host: String,
    pub source: String,
    pub target: String,
}

/// Form body of the "edit rule" page.
pub struct EditFormData {
    pub host: String,
    pub source: String,
    pub target: String,
}

/// Query parameters of the "add rule" page: an optional prefilled source.
pub struct AddPageQuery {
    pub source: Option<String>,
}

/// Data shown on the "add rule" page.
pub struct AddTemplate<'a> {
    pub source: &'a str,
    pub error: Option<&'a str>,
    pub default_redirect_host: &'a str,
}

} // verus!
