use vstd::prelude::*;
use crate::route::{lookup, vars_view};

verus! {

/// Authentication data for one service: the literal value its requests send
/// in the `Authorization` header, when one is configured.
#[derive(Debug, Clone, PartialEq)]
pub struct Authn {
    pub header: Option<String>,
}

/// One service's user configuration: optional authentication, and response
/// format overrides keyed by endpoint name.
#[derive(Debug, PartialEq)]
pub struct Service {
    pub auth: Option<Authn>,
    pub format: Option<Vec<(String, String)>>,
}

/// The mathematical counterpart of `Service`: the configured authorization
/// header, and the format overrides as a map.
pub struct SvcV {
    pub auth: Option<Seq<char>>,
    pub format: Map<Seq<char>, Seq<char>>,
}

impl View for Service {
    type V = SvcV;

    open spec fn view(&self) -> SvcV {
        SvcV {
            auth: match self.auth {
                Some(a) => match a.header {
                    Some(h) => Some(h@),
                    None => None,
                },
                None => None,
            },
            format: match self.format {
                Some(v) => vars_view(v@),
                None => Map::empty(),
            },
        }
    }
}

impl Service {
    /// A service entry with nothing configured.
    pub fn new() -> (r: Service)
        ensures
            r@.auth is None,
            r@.format == Map::<Seq<char>, Seq<char>>::empty(),
    {
        Service { auth: None, format: None }
    }

    /// The format override for endpoint `name`, if one is configured.
    pub fn format<'a>(&'a self, name: &str) -> (r: Option<&'a String>)
        ensures
            match r {
                Some(v) => self@.format.dom().contains(name@) && v@ == self@.format.index(name@),
                None => !self@.format.dom().contains(name@),
            },
    {
        match &self.format {
            Some(entries) => lookup(entries, name),
            None => None,
        }
    }

    /// A copy with the same configuration.
    pub fn duplicate(&self) -> (r: Service)
        ensures
            r@ == self@,
    {
        let auth = match &self.auth {
            Some(a) => Some(
                Authn {
                    header: match &a.header {
                        Some(h) => Some(h.clone()),
                        None => None,
                    },
                },
            ),
            None => None,
        };
        let format = match &self.format {
            Some(v) => Some(clone_entries(v)),
            None => None,
        };
        Service { auth, format }
    }
}

/// A copy of a list of string pairs.
pub fn clone_entries(v: &Vec<(String, String)>) -> (r: Vec<(String, String)>)
    ensures
        r@ == v@,
{
    let mut out: Vec<(String, String)> = Vec::new();
    let mut i: usize = 0;
    proof {
        assert(out@ =~= v@.take(0));
    }
    while i < v.len()
        invariant
            i <= v@.len(),
            out@ == v@.take(i as int),
        decreases v@.len() - i,
    {
        let e = &v[i];
        out.push((e.0.clone(), e.1.clone()));
        proof {
            assert(out@ =~= v@.take(i as int + 1));
        }
        i = i + 1;
    }
    proof {
        assert(v@.take(i as int) =~= v@);
    }
    out
}

/// The services table a list of keyed entries denotes; on a repeated key the
/// later entry wins.
pub open spec fn svcs_map(s: Seq<(String, Service)>) -> Map<Seq<char>, SvcV>
    decreases s.len(),
{
    if s.len() == 0 {
        Map::empty()
    } else {
        svcs_map(s.drop_last()).insert(s.last().0@, s.last().1@)
    }
}

/// The mathematical counterpart of `Config`.
pub struct CfgV {
    pub services: Map<Seq<char>, SvcV>,
    pub default: SvcV,
}

/// User configuration: per-service entries keyed by domain, and the defaults
/// used where no entry exists.
#[derive(Debug, PartialEq)]
pub struct Config {
    pub services: Vec<(String, Service)>,
    pub default_service: Service,
}

impl View for Config {
    type V = CfgV;

    open spec fn view(&self) -> CfgV {
        CfgV { services: svcs_map(self.services@), default: self.default_service@ }
    }
}

impl CfgV {
    /// The entry for `domain`, or the defaults when none exists.
    pub open spec fn service_or_default(self, domain: Seq<char>) -> SvcV {
        if self.services.dom().contains(domain) {
            self.services.index(domain)
        } else {
            self.default
        }
    }
}

impl Config {
    /// An empty configuration: no per-service entries, empty defaults.
    pub fn new() -> (r: Config)
        ensures
            r@.services == Map::<Seq<char>, SvcV>::empty(),
            r@.default.auth is None,
            r@.default.format == Map::<Seq<char>, Seq<char>>::empty(),
    {
        Config { services: Vec::new(), default_service: Service::new() }
    }

    /// The entry for `domain`, if the user configured one.
    pub fn service<'a>(&'a self, domain: &str) -> (r: Option<&'a Service>)
        ensures
            match r {
                Some(v) => self@.services.dom().contains(domain@) && v@ == self@.services.index(
                    domain@,
                ),
                None => !self@.services.dom().contains(domain@),
            },
    {
        let ghost s = self.services@;
        let mut i: usize = self.services.len();
        proof {
            assert(s.take(i as int) =~= s);
        }
        while i > 0
            invariant
                s == self.services@,
                i <= s.len(),
                self@.services.dom().contains(domain@) == svcs_map(s.take(i as int)).dom()
                    .contains(domain@),
                self@.services.dom().contains(domain@) ==> self@.services.index(domain@)
                    == svcs_map(s.take(i as int)).index(domain@),
            decreases i,
        {
            i = i - 1;
            proof {
                assert(s.take(i as int + 1).drop_last() =~= s.take(i as int));
                assert(s.take(i as int + 1).last() == s[i as int]);
            }
            let e = &self.services[i];
            if crate::strutil::str_eq(e.0.as_str(), domain) {
                return Some(&e.1);
            }
        }
        proof {
            assert(s.take(0) =~= Seq::<(String, Service)>::empty());
        }
        None
    }

    /// The defaults used where no per-domain entry exists.
    pub fn default_service<'a>(&'a self) -> (r: &'a Service)
        ensures
            r@ == self@.default,
    {
        &self.default_service
    }

    /// The entry for `domain`, or the defaults when none exists.
    pub fn service_or_default<'a>(&'a self, domain: &str) -> (r: &'a Service)
        ensures
            r@ == self@.service_or_default(domain@),
    {
        match self.service(domain) {
            Some(svc) => svc,
            None => self.default_service(),
        }
    }
}

} // verus!
