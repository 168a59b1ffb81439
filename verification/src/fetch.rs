use vstd::prelude::*;
use vstd::string::*;
use crate::error::{ErrV, Error};
use crate::strutil::str_eq;

verus! {

/// An outbound HTTP GET, as data: the URL and the headers to send, in
/// order.
#[derive(Debug, PartialEq)]
pub struct GetRequest {
    pub url: String,
    pub headers: Vec<(String, String)>,
}

/// The mathematical counterpart of `GetRequest`.
pub struct GetV {
    pub url: Seq<char>,
    pub headers: Seq<(Seq<char>, Seq<char>)>,
}

/// The pairs of a header list, as character sequences.
pub open spec fn pairs_view(s: Seq<(String, String)>) -> Seq<(Seq<char>, Seq<char>)> {
    s.map_values(|p: (String, String)| (p.0@, p.1@))
}

impl View for GetRequest {
    type V = GetV;

    open spec fn view(&self) -> GetV {
        GetV { url: self.url@, headers: pairs_view(self.headers@) }
    }
}

/// One submitted request: a correlation key and the GET it stands for.
#[derive(Debug, PartialEq)]
pub struct Request {
    pub key: String,
    pub req: GetRequest,
}

/// The mathematical counterpart of `Request`.
pub struct ReqV {
    pub key: Seq<char>,
    pub req: GetV,
}

impl View for Request {
    type V = ReqV;

    open spec fn view(&self) -> ReqV {
        ReqV { key: self.key@, req: self.req@ }
    }
}

impl Request {
    /// A request under correlation key `key`.
    pub fn new(key: &str, req: GetRequest) -> (r: Request)
        ensures
            r@.key == key@,
            r@.req == req@,
    {
        Request { key: String::from_str(key), req }
    }
}

/// One fetched outcome: the submitting key, and the body bytes or the
/// per-request error.
#[derive(Debug)]
pub struct Response {
    pub key: String,
    pub data: Result<Vec<u8>, Error>,
}

/// The mathematical counterpart of `Response`.
pub struct RespV {
    pub key: Seq<char>,
    pub data: Result<Seq<u8>, ErrV>,
}

impl View for Response {
    type V = RespV;

    open spec fn view(&self) -> RespV {
        RespV {
            key: self.key@,
            data: match &self.data {
                Ok(b) => Ok(b@),
                Err(e) => Err(e@),
            },
        }
    }
}

impl Response {
    /// A response under correlation key `key`.
    pub fn new(key: &str, data: Result<Vec<u8>, Error>) -> (r: Response)
        ensures
            r@.key == key@,
            r.data == data,
    {
        Response { key: String::from_str(key), data }
    }

    /// The correlation key the response answers.
    pub fn key<'a>(&'a self) -> (r: &'a str)
        ensures
            r@ == self@.key,
    {
        self.key.as_str()
    }

    /// The fetched bytes, or the per-request error.
    pub fn data<'a>(&'a self) -> (r: &'a Result<Vec<u8>, Error>)
        ensures
            *r == self.data,
    {
        &self.data
    }
}

/// The key-to-outcome map a batch of responses denotes; on a duplicated key
/// the later response wins.
pub open spec fn responses_map(rs: Seq<Response>) -> Map<Seq<char>, Result<Seq<u8>, ErrV>>
    decreases rs.len(),
{
    if rs.len() == 0 {
        Map::empty()
    } else {
        responses_map(rs.drop_last()).insert(rs.last()@.key, rs.last()@.data)
    }
}

/// The outcome recorded for `key` in a batch of responses, scanning from the
/// latest.
pub fn find_response<'a>(rs: &'a Vec<Response>, key: &str) -> (r: Option<&'a Response>)
    ensures
        match r {
            Some(p) => responses_map(rs@).dom().contains(key@) && p@.key == key@ && p@.data
                == responses_map(rs@).index(key@),
            None => !responses_map(rs@).dom().contains(key@),
        },
{
    let ghost s = rs@;
    let mut i: usize = rs.len();
    proof {
        assert(s.take(i as int) =~= s);
    }
    while i > 0
        invariant
            s == rs@,
            i <= s.len(),
            responses_map(s).dom().contains(key@) == responses_map(s.take(i as int)).dom()
                .contains(key@),
            responses_map(s).dom().contains(key@) ==> responses_map(s).index(key@)
                == responses_map(s.take(i as int)).index(key@),
        decreases i,
    {
        i = i - 1;
        proof {
            assert(s.take(i as int + 1).drop_last() =~= s.take(i as int));
            assert(s.take(i as int + 1).last() == s[i as int]);
        }
        let e = &rs[i];
        if str_eq(e.key.as_str(), key) {
            return Some(e);
        }
    }
    proof {
        assert(s.take(0) =~= Seq::<Response>::empty());
    }
    None
}

/// Each response of a batch with pairwise distinct keys is found under its
/// own key: a batch of distinctly keyed requests that yields one response
/// apiece leaves every outcome locatable by its key, whatever the order the
/// responses arrived in.
pub proof fn lemma_responses_locatable(rs: Seq<Response>)
    requires
        forall|i: int, j: int| 0 <= i < j < rs.len() ==> rs[i]@.key != rs[j]@.key,
    ensures
        forall|i: int|
            0 <= i < rs.len() ==> responses_map(rs).dom().contains(rs[i]@.key) && responses_map(
                rs,
            ).index(rs[i]@.key) == rs[i]@.data,
    decreases rs.len(),
{
    if rs.len() > 0 {
        let head = rs.drop_last();
        assert(forall|i: int| 0 <= i < head.len() ==> head[i] == rs[i]);
        lemma_responses_locatable(head);
        assert forall|i: int| 0 <= i < rs.len() implies responses_map(rs).dom().contains(
            rs[i]@.key,
        ) && responses_map(rs).index(rs[i]@.key) == rs[i]@.data by {
            if i < rs.len() - 1 {
                assert(rs[i]@.key != rs[rs.len() - 1]@.key);
            }
        }
    }
}

} // verus!
