use vstd::prelude::*;
use vstd::string::*;
use crate::config::{clone_entries, CfgV, Config, Service, SvcV};
use crate::error::{ErrV, Error};
use crate::fetch::{pairs_view, GetRequest, GetV, Response};
use crate::link::{registrable_root, root_of, Link};
use crate::render::{render_json, render_json_spec, render_vars, render_vars_spec, Rendered};
use crate::route::{components, seg_bindings, segs_match, vars_view, Match, Pattern};
use crate::strutil::str_eq;

verus! {

/// A named, routed capability of a domain: the path pattern it recognizes,
/// the URL template that builds its outbound request, and its built-in
/// response format.
#[derive(Debug, PartialEq)]
pub struct Endpoint {
    pub name: String,
    pub route: Pattern,
    pub url: String,
    pub format: String,
}

/// The mathematical counterpart of `Endpoint`.
pub struct EptV {
    pub name: Seq<char>,
    pub route: Seq<char>,
    pub url: Seq<char>,
    pub format: Seq<char>,
}

impl View for Endpoint {
    type V = EptV;

    open spec fn view(&self) -> EptV {
        EptV { name: self.name@, route: self.route@, url: self.url@, format: self.format@ }
    }
}

/// The template context a URL template is rendered against: the match's
/// bindings, with `domain` bound to the URL's host when there is one.
pub open spec fn url_context(vars: Map<Seq<char>, Seq<char>>, host: Option<Seq<char>>) -> Map<
    Seq<char>,
    Seq<char>,
> {
    match host {
        Some(h) => vars.insert("domain"@, h),
        None => vars,
    }
}

impl Endpoint {
    /// The endpoint's name.
    pub fn name<'a>(&'a self) -> (r: &'a str)
        ensures
            r@ == self@.name,
    {
        self.name.as_str()
    }

    /// The endpoint's built-in response format.
    pub fn format<'a>(&'a self) -> (r: Option<&'a str>)
        ensures
            r matches Some(f) && f@ == self@.format,
    {
        Some(self.format.as_str())
    }

    /// The outbound URL for `link`: the endpoint's URL template rendered
    /// against the match's bindings plus the injected `domain` variable.
    pub fn url(&self, link: &Link, mat: &Match) -> (r: Result<String, Error>)
        ensures
            ({
                let cxt = url_context(vars_view(mat.vars@), link.host_view());
                match r {
                    Ok(u) => render_vars_spec(self@.name, self@.url, cxt) == Ok::<
                        Seq<char>,
                        Seq<char>,
                    >(u@),
                    Err(e) => e@ matches ErrV::Template(m) && render_vars_spec(
                        self@.name,
                        self@.url,
                        cxt,
                    ) == Err::<Seq<char>, Seq<char>>(m),
                }
            }),
    {
        let mut cxt = clone_entries(&mat.vars);
        match &link.host {
            Some(h) => {
                let ghost prev = cxt@;
                cxt.push((String::from_str("domain"), h.clone()));
                proof {
                    assert(cxt@.drop_last() =~= prev);
                    assert(vars_view(cxt@) == vars_view(prev).insert("domain"@, h@));
                }
            },
            None => {},
        }
        match render_vars(self.name.as_str(), self.url.as_str(), &cxt) {
            Ok(u) => Ok(u),
            Err(m) => Err(Error::Template(m)),
        }
    }
}

/// The configuration unit for one registrable domain: the user's entry for
/// it (once attached), its default headers, and its endpoints in order.
#[derive(Debug, PartialEq)]
pub struct Domain {
    pub config: Option<Service>,
    pub headers: Vec<(String, String)>,
    pub routes: Vec<Endpoint>,
}

/// The mathematical counterpart of `Domain`.
pub struct DomV {
    pub config: Option<SvcV>,
    pub headers: Seq<(Seq<char>, Seq<char>)>,
    pub routes: Seq<EptV>,
}

impl View for Domain {
    type V = DomV;

    open spec fn view(&self) -> DomV {
        DomV {
            config: match self.config {
                Some(c) => Some(c@),
                None => None,
            },
            headers: pairs_view(self.headers@),
            routes: self.routes@.map_values(|e: Endpoint| e@),
        }
    }
}

impl Domain {
    /// Attaches the user's configuration entry for this domain.
    pub fn set_config(&mut self, conf: Service)
        ensures
            final(self)@ == (DomV { config: Some(conf@), ..old(self)@ }),
    {
        self.config = Some(conf);
    }

    /// The domain-level format override for endpoint `name`, from the
    /// attached configuration entry.
    pub fn format<'a>(&'a self, name: &str) -> (r: Option<&'a String>)
        ensures
            match r {
                Some(v) => (match self@.config {
                    Some(sc) => sc.format.dom().contains(name@) && v@ == sc.format.index(name@),
                    None => false,
                }),
                None => (match self@.config {
                    Some(sc) => !sc.format.dom().contains(name@),
                    None => true,
                }),
            },
    {
        match &self.config {
            Some(conf) => conf.format(name),
            None => None,
        }
    }
}

/// The authorization header a service entry configures, if any.
fn auth_header_of<'a>(svc: &'a Service) -> (r: Option<&'a String>)
    ensures
        match r {
            Some(h) => svc@.auth == Some(h@),
            None => svc@.auth is None,
        },
{
    match &svc.auth {
        Some(a) => match &a.header {
            Some(h) => Some(h),
            None => None,
        },
        None => None,
    }
}

/// The domain table a list of keyed entries denotes; on a repeated key the
/// later entry wins.
pub open spec fn doms_map(s: Seq<(String, Domain)>) -> Map<Seq<char>, DomV>
    decreases s.len(),
{
    if s.len() == 0 {
        Map::empty()
    } else {
        doms_map(s.drop_last()).insert(s.last().0@, s.last().1@)
    }
}

/// The domain `d` as stored in a table built against configuration `c`
/// under key `k`: the user's entry for `k` attached, when there is one.
pub open spec fn configured(c: CfgV, k: Seq<char>, d: DomV) -> DomV {
    if c.services.dom().contains(k) {
        DomV { config: Some(c.services.index(k)), ..d }
    } else {
        d
    }
}

/// The domain owning `host`: the exact key when present, else the host's
/// registrable root.
pub open spec fn spec_find_host(t: Map<Seq<char>, DomV>, host: Seq<char>) -> Option<DomV> {
    if t.dom().contains(host) {
        Some(t.index(host))
    } else {
        match root_of(host) {
            Some(r) => if t.dom().contains(r) {
                Some(t.index(r))
            } else {
                None
            },
            None => None,
        }
    }
}

/// The first endpoint of `routes` whose pattern matches `path`, in
/// declaration order.
pub open spec fn first_route(routes: Seq<EptV>, path: Seq<char>) -> Option<int>
    decreases routes.len(),
{
    if routes.len() == 0 {
        None
    } else if segs_match(components(routes[0].route), components(path)) {
        Some(0int)
    } else {
        match first_route(routes.drop_first(), path) {
            Some(i) => Some(i + 1),
            None => None,
        }
    }
}

/// `first_route` finds the least matching endpoint.
pub proof fn lemma_first_route(routes: Seq<EptV>, path: Seq<char>)
    ensures
        match first_route(routes, path) {
            Some(i) => 0 <= i < routes.len() && segs_match(components(routes[i].route), components(path))
                && forall|j: int|
                    0 <= j < i ==> !segs_match(components(routes[j].route), components(path)),
            None => forall|j: int|
                0 <= j < routes.len() ==> !segs_match(components(routes[j].route), components(path)),
        },
    decreases routes.len(),
{
    if routes.len() == 0 {
    } else if segs_match(components(routes[0].route), components(path)) {
    } else {
        lemma_first_route(routes.drop_first(), path);
        match first_route(routes.drop_first(), path) {
            Some(i) => {
                assert(routes[i + 1] == routes.drop_first()[i]);
                assert forall|j: int|
                    0 <= j < i + 1 implies !segs_match(
                    components(routes[j].route),
                    components(path),
                ) by {
                    if j > 0 {
                        assert(routes[j] == routes.drop_first()[j - 1]);
                    }
                }
            },
            None => {
                assert forall|j: int|
                    0 <= j < routes.len() implies !segs_match(
                    components(routes[j].route),
                    components(path),
                ) by {
                    if j > 0 {
                        assert(routes[j] == routes.drop_first()[j - 1]);
                    }
                }
            },
        }
    }
}

/// The domain and endpoint that own a URL with the given host and path.
pub open spec fn spec_find_route(
    t: Map<Seq<char>, DomV>,
    host: Option<Seq<char>>,
    path: Seq<char>,
) -> Option<(DomV, EptV)> {
    match host {
        Some(h) => match spec_find_host(t, h) {
            Some(d) => match first_route(d.routes, path) {
                Some(i) => Some((d, d.routes[i])),
                None => None,
            },
            None => None,
        },
        None => None,
    }
}

/// The client identifier every outbound request carries.
pub open spec fn user_agent() -> Seq<char> {
    "unfurl/0.1.0"@
}

/// The authorization header for a request: the per-host entry's header when
/// one is configured, else the header of the entry attached to the domain.
pub open spec fn spec_auth(svc: SvcV, d: DomV) -> Option<Seq<char>> {
    match svc.auth {
        Some(h) => Some(h),
        None => match d.config {
            Some(sc) => sc.auth,
            None => None,
        },
    }
}

/// The headers of an outbound request: the client identifier, the domain's
/// default headers, then the authorization header, if any.
pub open spec fn spec_headers(svc: SvcV, d: DomV) -> Seq<(Seq<char>, Seq<char>)> {
    let base = seq![("User-Agent"@, user_agent())] + d.headers;
    match spec_auth(svc, d) {
        Some(h) => base + seq![("Authorization"@, h)],
        None => base,
    }
}

/// The outbound request for a URL against table `t` and configuration `c`:
/// the rendered URL template and the assembled headers, or the error that
/// stops that URL.
pub open spec fn spec_request(
    c: CfgV,
    t: Map<Seq<char>, DomV>,
    host: Option<Seq<char>>,
    path: Seq<char>,
) -> Result<GetV, ErrV> {
    match host {
        None => Err(ErrV::Invalid("No host"@)),
        Some(h) => match spec_find_route(t, host, path) {
            None => Err(ErrV::NotFound),
            Some((d, e)) => match render_vars_spec(
                e.name,
                e.url,
                url_context(seg_bindings(components(e.route), components(path)), host),
            ) {
                Ok(u) => Ok(GetV { url: u, headers: spec_headers(c.service_or_default(h), d) }),
                Err(m) => Err(ErrV::Template(m)),
            },
        },
    }
}

/// The format template chosen for endpoint `e` of domain `d`: the
/// per-service override, else the domain-level override, else the
/// endpoint's built-in default.
pub open spec fn spec_format_choice(c: CfgV, host: Seq<char>, d: DomV, e: EptV) -> Seq<char> {
    let svc = c.service_or_default(host);
    if svc.format.dom().contains(e.name) {
        svc.format.index(e.name)
    } else {
        match d.config {
            Some(sc) => if sc.format.dom().contains(e.name) {
                sc.format.index(e.name)
            } else {
                e.format
            },
            None => e.format,
        }
    }
}

/// The inline annotation for a URL whose fetch or body failed: the URL text
/// and the description.
pub open spec fn annotation(u: Seq<char>, m: Seq<char>) -> Seq<char> {
    u + " ("@ + m + ")"@
}

/// What the response formatter emits for a fetched URL: the rendered
/// template on success; the inline annotation on a failed fetch or an
/// unparseable body; the template error where the template itself fails.
pub open spec fn spec_format_response(
    u: Seq<char>,
    data: Result<Seq<u8>, ErrV>,
    name: Seq<char>,
    fmt: Seq<char>,
) -> Result<Seq<char>, ErrV> {
    match data {
        Err(e) => Ok(annotation(u, e.msg())),
        Ok(body) => match render_json_spec(name, fmt, body) {
            Ok(s) => Ok(s),
            Err((bad_body, m)) => if bad_body {
                Ok(annotation(u, m))
            } else {
                Err(ErrV::Template(m))
            },
        },
    }
}

/// The formatter's verdict for a whole URL: route it, choose its template,
/// and format its fetch outcome.
pub open spec fn spec_format(
    c: CfgV,
    t: Map<Seq<char>, DomV>,
    host: Option<Seq<char>>,
    path: Seq<char>,
    u: Seq<char>,
    data: Result<Seq<u8>, ErrV>,
) -> Result<Seq<char>, ErrV> {
    match host {
        None => Err(ErrV::Invalid("No host"@)),
        Some(h) => match spec_find_route(t, host, path) {
            None => Err(ErrV::NotFound),
            Some((d, e)) => spec_format_response(u, data, e.name, spec_format_choice(c, h, d, e)),
        },
    }
}

/// The inline annotation `u (m)`.
fn annotate(u: &str, m: &str) -> (r: String)
    ensures
        r@ == annotation(u@, m@),
{
    let mut s = String::from_str(u);
    s.append(" (");
    s.append(m);
    s.append(")");
    s
}

/// Formats one fetch outcome for the URL `link_text`, rendering `format`
/// (registered under `name`) against the body.
pub fn format_response(link_text: &str, rsp: &Response, name: &str, format: &str) -> (r: Result<
    String,
    Error,
>)
    ensures
        match r {
            Ok(s) => spec_format_response(link_text@, rsp@.data, name@, format@) == Ok::<
                Seq<char>,
                ErrV,
            >(s@),
            Err(e) => spec_format_response(link_text@, rsp@.data, name@, format@) == Err::<
                Seq<char>,
                ErrV,
            >(e@),
        },
{
    let data = match rsp.data() {
        Ok(d) => d,
        Err(err) => {
            return Ok(annotate(link_text, err.message()));
        },
    };
    match render_json(name, format, data) {
        Rendered::Done(s) => Ok(s),
        Rendered::BadBody(m) => Ok(annotate(link_text, m.as_str())),
        Rendered::BadTemplate(m) => Err(Error::Template(m)),
    }
}

/// The routing table: domains keyed by registrable name.  Built once from
/// route definitions and user configuration, then read-only.
pub struct Default {
    pub domains: Vec<(String, Domain)>,
}

impl View for Default {
    type V = Map<Seq<char>, DomV>;

    open spec fn view(&self) -> Map<Seq<char>, DomV> {
        doms_map(self.domains@)
    }
}

impl Default {
    /// Builds the table from parsed route definitions, attaching each
    /// domain's user configuration entry, keyed by the domain's table key.
    pub fn load_data(conf: &Config, domains: Vec<(String, Domain)>) -> (r: Default)
        ensures
            r.domains@.len() == domains@.len(),
            forall|i: int|
                0 <= i < domains@.len() ==> r.domains@[i].0@ == domains@[i].0@ && r.domains@[i].1@
                    == configured(conf@, domains@[i].0@, domains@[i].1@),
    {
        let ghost orig = domains@;
        let mut rest = domains;
        let mut out: Vec<(String, Domain)> = Vec::new();
        while rest.len() > 0
            invariant
                orig.len() == out@.len() + rest@.len(),
                forall|j: int| 0 <= j < rest@.len() ==> rest@[j] == orig[out@.len() + j],
                forall|j: int|
                    0 <= j < out@.len() ==> out@[j].0@ == orig[j].0@ && out@[j].1@ == configured(
                        conf@,
                        orig[j].0@,
                        orig[j].1@,
                    ),
            decreases rest@.len(),
        {
            let (k, mut d) = rest.remove(0);
            match conf.service(k.as_str()) {
                Some(svc) => {
                    let dup = svc.duplicate();
                    d.set_config(dup);
                },
                None => {},
            }
            out.push((k, d));
        }
        Default { domains: out }
    }

    /// Lays another table's domains over this one's: on a shared key the
    /// other table's domain wins.
    pub fn extend(&mut self, another: Default)
        ensures
            final(self).domains@ == old(self).domains@ + another.domains@,
            final(self)@ == old(self)@.union_prefer_right(doms_map(another.domains@)),
    {
        let ghost a = self.domains@;
        let ghost b = another.domains@;
        let mut other = another;
        self.domains.append(&mut other.domains);
        proof {
            lemma_doms_map_concat(a, b);
        }
    }

    /// The domain stored under `key`, scanning entries from the latest.
    fn domain_get<'a>(&'a self, key: &str) -> (r: Option<&'a Domain>)
        ensures
            match r {
                Some(d) => self@.dom().contains(key@) && d@ == self@.index(key@),
                None => !self@.dom().contains(key@),
            },
    {
        let ghost s = self.domains@;
        let mut i: usize = self.domains.len();
        proof {
            assert(s.take(i as int) =~= s);
        }
        while i > 0
            invariant
                s == self.domains@,
                i <= s.len(),
                self@.dom().contains(key@) == doms_map(s.take(i as int)).dom().contains(key@),
                self@.dom().contains(key@) ==> self@.index(key@) == doms_map(
                    s.take(i as int),
                ).index(key@),
            decreases i,
        {
            i = i - 1;
            proof {
                assert(s.take(i as int + 1).drop_last() =~= s.take(i as int));
                assert(s.take(i as int + 1).last() == s[i as int]);
            }
            let e = &self.domains[i];
            if str_eq(e.0.as_str(), key) {
                return Some(&e.1);
            }
        }
        proof {
            assert(s.take(0) =~= Seq::<(String, Domain)>::empty());
        }
        None
    }

    /// The domain owning `host`: looked up verbatim, then by the host's
    /// registrable root.
    pub fn find_host<'a>(&'a self, host: &str) -> (r: Option<&'a Domain>)
        ensures
            match r {
                Some(d) => spec_find_host(self@, host@) == Some(d@),
                None => spec_find_host(self@, host@) is None,
            },
    {
        if let Some(d) = self.domain_get(host) {
            return Some(d);
        }
        match registrable_root(host) {
            Some(root) => self.domain_get(root.as_str()),
            None => None,
        }
    }
}

/// Laying one table's entries over another concatenates the entry lists; at
/// map level the union prefers the later table on shared keys.
pub proof fn lemma_doms_map_concat(a: Seq<(String, Domain)>, b: Seq<(String, Domain)>)
    ensures
        doms_map(a + b) == doms_map(a).union_prefer_right(doms_map(b)),
    decreases b.len(),
{
    if b.len() == 0 {
        assert(a + b =~= a);
        assert(doms_map(a).union_prefer_right(doms_map(b)) =~= doms_map(a));
    } else {
        assert((a + b).drop_last() =~= a + b.drop_last());
        lemma_doms_map_concat(a, b.drop_last());
        assert((a + b).last() == b.last());
        assert(doms_map(a).union_prefer_right(doms_map(b.drop_last())).insert(
            b.last().0@,
            b.last().1@,
        ) =~= doms_map(a).union_prefer_right(
            doms_map(b.drop_last()).insert(b.last().0@, b.last().1@),
        ));
    }
}

impl Default {
    /// The domain, endpoint and bindings that own `link`: the first
    /// endpoint, in declaration order, of the domain owning the host whose
    /// pattern matches the link's path.
    pub fn find_route<'a>(&'a self, link: &Link) -> (r: Option<(&'a Domain, &'a Endpoint, Match)>)
        ensures
            match r {
                Some((d, e, m)) => spec_find_route(self@, link.host_view(), link.path@) == Some(
                    (d@, e@),
                ) && vars_view(m.vars@) == seg_bindings(
                    components(e@.route),
                    components(link.path@),
                ),
                None => spec_find_route(self@, link.host_view(), link.path@) is None,
            },
    {
        let host = match &link.host {
            Some(h) => h,
            None => return None,
        };
        let dom = match self.find_host(host.as_str()) {
            Some(d) => d,
            None => return None,
        };
        let mut i: usize = 0;
        while i < dom.routes.len()
            invariant
                link.host_view() == Some(host@),
                spec_find_host(self@, host@) == Some(dom@),
                dom@.routes == dom.routes@.map_values(|e: Endpoint| e@),
                i <= dom.routes@.len(),
                forall|j: int|
                    0 <= j < i ==> !segs_match(
                        components(dom@.routes[j].route),
                        components(link.path@),
                    ),
            decreases dom.routes@.len() - i,
        {
            let ept = &dom.routes[i];
            proof {
                assert(dom@.routes[i as int] == dom.routes@[i as int]@);
            }
            if let Some(m) = ept.route.match_path(link.path.as_str()) {
                proof {
                    lemma_first_route(dom@.routes, link.path@);
                    match first_route(dom@.routes, link.path@) {
                        Some(x) => {
                            if x < i as int {
                                assert(!segs_match(
                                    components(dom@.routes[x].route),
                                    components(link.path@),
                                ));
                            } else if (i as int) < x {
                                assert(!segs_match(
                                    components(dom@.routes[i as int].route),
                                    components(link.path@),
                                ));
                            }
                        },
                        None => {
                            assert(!segs_match(
                                components(dom@.routes[i as int].route),
                                components(link.path@),
                            ));
                        },
                    }
                }
                return Some((dom, ept, m));
            }
            i = i + 1;
        }
        proof {
            lemma_first_route(dom@.routes, link.path@);
            if first_route(dom@.routes, link.path@) is Some {
                let x = first_route(dom@.routes, link.path@)->Some_0;
                assert(!segs_match(components(dom@.routes[x].route), components(link.path@)));
            }
        }
        None
    }

    /// Builds the outbound GET for `url`: the client identifier header, the
    /// domain's default headers, then the authorization header the
    /// configuration merge yields, if any.
    fn get(&self, svc: &Service, domain: &Domain, url: String) -> (g: GetRequest)
        ensures
            g@.url == url@,
            g@.headers == spec_headers(svc@, domain@),
    {
        let mut headers: Vec<(String, String)> = Vec::new();
        headers.push((String::from_str("User-Agent"), String::from_str("unfurl/0.1.0")));
        let mut i: usize = 0;
        proof {
            assert(pairs_view(headers@) =~= seq![("User-Agent"@, user_agent())]);
            assert(pairs_view(domain.headers@.take(0)) =~= Seq::<(Seq<char>, Seq<char>)>::empty());
            assert(pairs_view(headers@) =~= seq![("User-Agent"@, user_agent())] + pairs_view(
                domain.headers@.take(0),
            ));
        }
        while i < domain.headers.len()
            invariant
                i <= domain.headers@.len(),
                pairs_view(headers@) == seq![("User-Agent"@, user_agent())] + pairs_view(
                    domain.headers@.take(i as int),
                ),
            decreases domain.headers@.len() - i,
        {
            let e = &domain.headers[i];
            let ghost prev = headers@;
            headers.push((e.0.clone(), e.1.clone()));
            proof {
                assert(pairs_view(headers@) =~= pairs_view(prev).push((e.0@, e.1@)));
                assert(domain.headers@.take(i as int + 1) =~= domain.headers@.take(i as int).push(
                    domain.headers@[i as int],
                ));
                assert(pairs_view(domain.headers@.take(i as int + 1)) =~= pairs_view(
                    domain.headers@.take(i as int),
                ).push((e.0@, e.1@)));
                assert(pairs_view(headers@) =~= seq![("User-Agent"@, user_agent())] + pairs_view(
                    domain.headers@.take(i as int + 1),
                ));
            }
            i = i + 1;
        }
        proof {
            assert(domain.headers@.take(i as int) =~= domain.headers@);
        }
        let auth: Option<&String> = match auth_header_of(svc) {
            Some(h) => Some(h),
            None => match &domain.config {
                Some(c) => auth_header_of(c),
                None => None,
            },
        };
        match auth {
            Some(h) => {
                let ghost prev = headers@;
                headers.push((String::from_str("Authorization"), h.clone()));
                proof {
                    assert(pairs_view(headers@) =~= pairs_view(prev).push(("Authorization"@, h@)));
                    assert(pairs_view(headers@) =~= (seq![("User-Agent"@, user_agent())]
                        + domain@.headers) + seq![("Authorization"@, h@)]);
                }
            },
            None => {},
        }
        GetRequest { url, headers }
    }

    /// Builds the outbound request for `link`: the owning endpoint's URL
    /// template rendered against the match, under the assembled headers.
    /// `Err(NotFound)` where no route owns the link; the error of the
    /// failing step otherwise.
    pub fn request(&self, conf: &Config, link: &Link) -> (r: Result<GetRequest, Error>)
        ensures
            match r {
                Ok(g) => spec_request(conf@, self@, link.host_view(), link.path@) == Ok::<
                    GetV,
                    ErrV,
                >(g@),
                Err(e) => spec_request(conf@, self@, link.host_view(), link.path@) == Err::<
                    GetV,
                    ErrV,
                >(e@),
            },
    {
        let host = match &link.host {
            Some(h) => h,
            None => return Err(Error::Invalid(String::from_str("No host"))),
        };
        match self.find_route(link) {
            Some((dom, ept, mat)) => {
                match ept.url(link, &mat) {
                    Ok(u) => Ok(self.get(conf.service_or_default(host.as_str()), dom, u)),
                    Err(e) => Err(e),
                }
            },
            None => Err(Error::NotFound),
        }
    }

    /// Formats one fetch outcome for `link`: routes it again, chooses the
    /// format template by precedence (per-service override, domain-level
    /// override, endpoint default), and renders it against the body.
    /// `Err(NotFound)` where no route owns the link.
    pub fn format(&self, conf: &Config, link: &Link, rsp: &Response) -> (r: Result<String, Error>)
        ensures
            match r {
                Ok(s) => spec_format(
                    conf@,
                    self@,
                    link.host_view(),
                    link.path@,
                    link.text@,
                    rsp@.data,
                ) == Ok::<Seq<char>, ErrV>(s@),
                Err(e) => spec_format(
                    conf@,
                    self@,
                    link.host_view(),
                    link.path@,
                    link.text@,
                    rsp@.data,
                ) == Err::<Seq<char>, ErrV>(e@),
            },
    {
        let host = match &link.host {
            Some(h) => h,
            None => return Err(Error::Invalid(String::from_str("No host"))),
        };
        match self.find_route(link) {
            Some((dom, ept, _)) => {
                let name = ept.name();
                let svc = conf.service_or_default(host.as_str());
                let fmt: &str = match svc.format(name) {
                    Some(f) => f.as_str(),
                    None => match dom.format(name) {
                        Some(f) => f.as_str(),
                        None => match ept.format() {
                            Some(f) => f,
                            None => "<NO FORMAT AVAILABLE>",
                        },
                    },
                };
                format_response(link.text.as_str(), rsp, name, fmt)
            },
            None => Err(Error::NotFound),
        }
    }
}

} // verus!
