use vstd::prelude::*;

verus! {

/// What URL parsing yields for a given input text, when it parses: the
/// canonical serialization, the host (if the URL has one), and the path.  A
/// function of the input text alone.
pub uninterp spec fn url_parts(s: Seq<char>) -> Option<(Seq<char>, Option<Seq<char>>, Seq<char>)>;

/// What public-suffix parsing yields for a host: its registrable root
/// domain, or nothing when the host does not parse as a domain name or has
/// no root.  A function of the host text alone (the suffix rules are
/// compiled into the parsing crate).
pub uninterp spec fn root_of(host: Seq<char>) -> Option<Seq<char>>;

/// A parsed URL, reduced to what the routing logic reads: the canonical
/// text, the host, and the path.
#[derive(Debug, Clone, PartialEq)]
pub struct Link {
    pub text: String,
    pub host: Option<String>,
    pub path: String,
}

impl Link {
    /// The host as a character sequence, when there is one.
    pub open spec fn host_view(&self) -> Option<Seq<char>> {
        match self.host {
            Some(h) => Some(h@),
            None => None,
        }
    }

    /// The link holds exactly what parsing the text `s` yields.
    pub open spec fn wf(&self, s: Seq<char>) -> bool {
        match url_parts(s) {
            Some((t, h, p)) => self.text@ == t && self.host_view() == h && self.path@ == p,
            None => false,
        }
    }
}

/// Relies on url::Url::parse, and on Url::host_str, Url::path and the
/// Display serialization of the parsed value: together a function of the
/// input text alone, named by `url_parts`.
#[verifier::external_body]
pub fn parse_link(s: &str) -> (r: Option<Link>)
    ensures
        match r {
            Some(link) => url_parts(s@) is Some && link.wf(s@),
            None => url_parts(s@) is None,
        },
{
    match url::Url::parse(s) {
        Ok(u) => {
            let host = match u.host_str() {
                Some(h) => Some(h.to_string()),
                None => None,
            };
            Some(Link { text: u.to_string(), host, path: u.path().to_string() })
        },
        Err(_) => None,
    }
}

/// Relies on addr::parse_domain_name and addr::domain::Name::root: the
/// registrable root of `host`, named by `root_of`.
#[verifier::external_body]
pub fn registrable_root(host: &str) -> (r: Option<String>)
    ensures
        match r {
            Some(d) => root_of(host@) == Some(d@),
            None => root_of(host@) is None,
        },
{
    match addr::parse_domain_name(host) {
        Ok(name) => match name.root() {
            Some(root) => Some(root.to_string()),
            None => None,
        },
        Err(_) => None,
    }
}

} // verus!
