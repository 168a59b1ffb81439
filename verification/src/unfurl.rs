use vstd::prelude::*;
use vstd::string::*;
use crate::config::{CfgV, Config};
use crate::error::ErrV;
use crate::fetch::{find_response, responses_map, ReqV, Request, Response};
use crate::link::{parse_link, url_parts};
use crate::parse::{lemma_scan_progress, next, scan_tokens, Tok, Token};
use crate::service::{spec_find_host, spec_format, spec_request, DomV};

verus! {

/// One planned output item, in document order: plain text to emit, a URL
/// that did not parse (emitted as the invalid marker), or a resolved URL to
/// format from its fetch outcome, keyed by its literal text.
#[derive(Debug, PartialEq)]
pub enum Item {
    Text(String),
    Invalid(String),
    Fetch(String),
}

/// The mathematical counterpart of `Item`.
pub enum ItemV {
    Text(Seq<char>),
    Invalid(Seq<char>),
    Fetch(Seq<char>),
}

impl View for Item {
    type V = ItemV;

    open spec fn view(&self) -> ItemV {
        match self {
            Item::Text(s) => ItemV::Text(s@),
            Item::Invalid(s) => ItemV::Invalid(s@),
            Item::Fetch(s) => ItemV::Fetch(s@),
        }
    }
}

/// How one URL token resolves: an unparseable URL demotes to the invalid
/// marker, an unrouted or unbuildable one passes through as text, and a
/// routed one is fetched under its literal text as correlation key.
pub open spec fn spec_resolve_url(c: CfgV, t: Map<Seq<char>, DomV>, u: Seq<char>) -> (
    ItemV,
    Option<ReqV>,
) {
    match url_parts(u) {
        None => (ItemV::Invalid(u), None),
        Some((text, host, path)) => match spec_request(c, t, host, path) {
            Ok(g) => (ItemV::Fetch(u), Some(ReqV { key: u, req: g })),
            Err(_) => (ItemV::Text(u), None),
        },
    }
}

/// The resolving pass over a token stream: every token becomes one output
/// item, in order, and every routed URL contributes one request.
pub open spec fn spec_resolve(c: CfgV, t: Map<Seq<char>, DomV>, toks: Seq<Tok>) -> (
    Seq<ItemV>,
    Seq<ReqV>,
)
    decreases toks.len(),
{
    if toks.len() == 0 {
        (Seq::empty(), Seq::empty())
    } else {
        let rest = spec_resolve(c, t, toks.drop_first());
        match toks[0] {
            Tok::Text(s) => (seq![ItemV::Text(s)] + rest.0, rest.1),
            Tok::Url(u) => {
                let step = spec_resolve_url(c, t, u);
                match step.1 {
                    Some(q) => (seq![step.0] + rest.0, seq![q] + rest.1),
                    None => (seq![step.0] + rest.0, rest.1),
                }
            },
            Tok::End => rest,
        }
    }
}

/// The scanning and resolving passes of the pipeline: tokenizes `text`,
/// resolves every URL token against the table, and returns the ordered
/// output plan plus the requests to fetch.
pub fn scan_resolve(svc: &crate::service::Default, conf: &Config, text: &str) -> (r: (Vec<Item>, Vec<Request>))
    ensures
        r.0@.map_values(|it: Item| it@) == spec_resolve(conf@, svc@, scan_tokens(text@)).0,
        r.1@.map_values(|q: Request| q@) == spec_resolve(conf@, svc@, scan_tokens(text@)).1,
{
    let mut items: Vec<Item> = Vec::new();
    let mut reqs: Vec<Request> = Vec::new();
    let mut rest: &str = text;
    let mut len = rest.unicode_len();
    proof {
        assert(items@.map_values(|it: Item| it@) =~= Seq::<ItemV>::empty());
        assert(reqs@.map_values(|q: Request| q@) =~= Seq::<ReqV>::empty());
    }
    while len > 0
        invariant
            len == rest@.len(),
            spec_resolve(conf@, svc@, scan_tokens(text@)).0 == items@.map_values(|it: Item| it@)
                + spec_resolve(conf@, svc@, scan_tokens(rest@)).0,
            spec_resolve(conf@, svc@, scan_tokens(text@)).1 == reqs@.map_values(|q: Request| q@)
                + spec_resolve(conf@, svc@, scan_tokens(rest@)).1,
        decreases len,
    {
        proof {
            lemma_scan_progress(rest@);
        }
        let (tok, r2) = next(rest);
        let ghost remv = r2@;
        let ghost toks = scan_tokens(rest@);
        proof {
            assert(toks == seq![tok@] + scan_tokens(remv));
            assert(toks[0] == tok@);
            assert(toks.drop_first() =~= scan_tokens(remv));
        }
        match tok {
            Token::EOF => {
                proof {
                    // a non-empty input never scans to the end marker
                    assert(false);
                }
            },
            Token::Text(t) => {
                let ghost previ = items@;
                items.push(Item::Text(String::from_str(t)));
                proof {
                    assert(items@.map_values(|it: Item| it@) =~= previ.map_values(|it: Item| it@)
                        + seq![ItemV::Text(t@)]);
                    assert(previ.map_values(|it: Item| it@) + (seq![ItemV::Text(t@)]
                        + spec_resolve(conf@, svc@, scan_tokens(remv)).0) =~= items@.map_values(
                        |it: Item| it@,
                    ) + spec_resolve(conf@, svc@, scan_tokens(remv)).0);
                }
            },
            Token::URL(u) => {
                let ghost step = spec_resolve_url(conf@, svc@, u@);
                match parse_link(u) {
                    None => {
                        let ghost previ = items@;
                        items.push(Item::Invalid(String::from_str(u)));
                        proof {
                            assert(step == (ItemV::Invalid(u@), None::<ReqV>));
                            assert(items@.map_values(|it: Item| it@) =~= previ.map_values(
                                |it: Item| it@,
                            ) + seq![ItemV::Invalid(u@)]);
                            assert(previ.map_values(|it: Item| it@) + (seq![ItemV::Invalid(u@)]
                                + spec_resolve(conf@, svc@, scan_tokens(remv)).0)
                                =~= items@.map_values(|it: Item| it@) + spec_resolve(
                                conf@,
                                svc@,
                                scan_tokens(remv),
                            ).0);
                        }
                    },
                    Some(link) => {
                        match svc.request(conf, &link) {
                            Ok(g) => {
                                let ghost previ = items@;
                                let ghost prevq = reqs@;
                                items.push(Item::Fetch(String::from_str(u)));
                                reqs.push(Request::new(u, g));
                                proof {
                                    assert(step == (
                                        ItemV::Fetch(u@),
                                        Some(ReqV { key: u@, req: g@ }),
                                    ));
                                    assert(items@.map_values(|it: Item| it@) =~= previ.map_values(
                                        |it: Item| it@,
                                    ) + seq![ItemV::Fetch(u@)]);
                                    assert(previ.map_values(|it: Item| it@) + (seq![
                                        ItemV::Fetch(u@),
                                    ] + spec_resolve(conf@, svc@, scan_tokens(remv)).0)
                                        =~= items@.map_values(|it: Item| it@) + spec_resolve(
                                        conf@,
                                        svc@,
                                        scan_tokens(remv),
                                    ).0);
                                    assert(reqs@.map_values(|q: Request| q@) =~= prevq.map_values(
                                        |q: Request| q@,
                                    ) + seq![ReqV { key: u@, req: g@ }]);
                                    assert(prevq.map_values(|q: Request| q@) + (seq![
                                        ReqV { key: u@, req: g@ },
                                    ] + spec_resolve(conf@, svc@, scan_tokens(remv)).1)
                                        =~= reqs@.map_values(|q: Request| q@) + spec_resolve(
                                        conf@,
                                        svc@,
                                        scan_tokens(remv),
                                    ).1);
                                }
                            },
                            Err(_) => {
                                let ghost previ = items@;
                                items.push(Item::Text(String::from_str(u)));
                                proof {
                                    assert(step == (ItemV::Text(u@), None::<ReqV>));
                                    assert(items@.map_values(|it: Item| it@) =~= previ.map_values(
                                        |it: Item| it@,
                                    ) + seq![ItemV::Text(u@)]);
                                    assert(previ.map_values(|it: Item| it@) + (seq![
                                        ItemV::Text(u@),
                                    ] + spec_resolve(conf@, svc@, scan_tokens(remv)).0)
                                        =~= items@.map_values(|it: Item| it@) + spec_resolve(
                                        conf@,
                                        svc@,
                                        scan_tokens(remv),
                                    ).0);
                                }
                            },
                        }
                    },
                }
            },
        }
        rest = r2;
        len = rest.unicode_len();
    }
    proof {
        assert(scan_tokens(rest@) =~= Seq::<Tok>::empty());
        assert(items@.map_values(|it: Item| it@) + Seq::<ItemV>::empty() =~= items@.map_values(
            |it: Item| it@,
        ));
        assert(reqs@.map_values(|q: Request| q@) + Seq::<ReqV>::empty() =~= reqs@.map_values(
            |q: Request| q@,
        ));
    }
    (items, reqs)
}

/// The formatter's whole verdict for one fetched URL: its route, its
/// template choice, and its outcome rendered; the literal text stands in
/// wherever a step demotes the URL.
pub open spec fn spec_format_url(
    c: CfgV,
    t: Map<Seq<char>, DomV>,
    u: Seq<char>,
    outcome: Result<Seq<u8>, ErrV>,
) -> Seq<char> {
    match url_parts(u) {
        None => u,
        Some((text, host, path)) => match spec_format(c, t, host, path, text, outcome) {
            Ok(s) => s,
            Err(_) => u,
        },
    }
}

/// The emitted text for a plan: text items verbatim, invalid URLs as the
/// marker, fetched URLs formatted from their own outcome, in order.
pub open spec fn spec_emit(
    c: CfgV,
    t: Map<Seq<char>, DomV>,
    items: Seq<ItemV>,
    rmap: Map<Seq<char>, Result<Seq<u8>, ErrV>>,
) -> Seq<char>
    decreases items.len(),
{
    if items.len() == 0 {
        Seq::empty()
    } else {
        let head = match items[0] {
            ItemV::Text(s) => s,
            ItemV::Invalid(_) => "(INVALID)"@,
            ItemV::Fetch(u) => spec_format_url(c, t, u, rmap.index(u)),
        };
        head + spec_emit(c, t, items.drop_first(), rmap)
    }
}

/// When the item is a fetched URL, its key has an outcome in the map.
pub open spec fn item_covered(it: ItemV, rmap: Map<Seq<char>, Result<Seq<u8>, ErrV>>) -> bool {
    match it {
        ItemV::Fetch(u) => rmap.dom().contains(u),
        _ => true,
    }
}

/// Every fetched item's key has an outcome in the map.
pub open spec fn fetch_keys_covered(
    items: Seq<ItemV>,
    rmap: Map<Seq<char>, Result<Seq<u8>, ErrV>>,
) -> bool {
    forall|i: int| 0 <= i < items.len() ==> #[trigger] item_covered(items[i], rmap)
}

/// The formatting pass of the pipeline: emits the plan in original document
/// order, rendering every fetched URL from the response bearing its key.
pub fn emit(svc: &crate::service::Default, conf: &Config, items: &Vec<Item>, responses: &Vec<Response>) -> (out:
    String)
    requires
        fetch_keys_covered(items@.map_values(|it: Item| it@), responses_map(responses@)),
    ensures
        out@ == spec_emit(
            conf@,
            svc@,
            items@.map_values(|it: Item| it@),
            responses_map(responses@),
        ),
{
    let ghost iv = items@.map_values(|it: Item| it@);
    let ghost rmap = responses_map(responses@);
    let mut out = String::new();
    let mut i: usize = 0;
    proof {
        assert(iv.skip(0) =~= iv);
    }
    while i < items.len()
        invariant
            iv == items@.map_values(|it: Item| it@),
            rmap == responses_map(responses@),
            fetch_keys_covered(iv, rmap),
            i <= items@.len(),
            spec_emit(conf@, svc@, iv, rmap) == out@ + spec_emit(
                conf@,
                svc@,
                iv.skip(i as int),
                rmap,
            ),
        decreases items@.len() - i,
    {
        let ghost cur = iv.skip(i as int);
        proof {
            assert(cur[0] == iv[i as int]);
            assert(iv[i as int] == items@[i as int]@);
            assert(cur.drop_first() =~= iv.skip(i as int + 1));
        }
        let ghost preout = out@;
        match &items[i] {
            Item::Text(s) => {
                out.append(s.as_str());
                proof {
                    assert(preout + (s@ + spec_emit(conf@, svc@, iv.skip(i as int + 1), rmap))
                        =~= out@ + spec_emit(conf@, svc@, iv.skip(i as int + 1), rmap));
                }
            },
            Item::Invalid(_) => {
                out.append("(INVALID)");
                proof {
                    assert(preout + ("(INVALID)"@ + spec_emit(
                        conf@,
                        svc@,
                        iv.skip(i as int + 1),
                        rmap,
                    )) =~= out@ + spec_emit(conf@, svc@, iv.skip(i as int + 1), rmap));
                }
            },
            Item::Fetch(u) => {
                let rsp_opt = find_response(responses, u.as_str());
                proof {
                    assert(item_covered(iv[i as int], rmap));
                    assert(rmap.dom().contains(u@));
                }
                let rsp = match rsp_opt {
                    Some(p) => p,
                    None => {
                        return out;  // unreachable: the outcome map covers every fetched key
                    },
                };
                let formatted = match parse_link(u.as_str()) {
                    Some(link) => match svc.format(conf, &link, rsp) {
                        Ok(s) => s,
                        Err(_) => u.clone(),
                    },
                    None => u.clone(),
                };
                proof {
                    assert(formatted@ == spec_format_url(conf@, svc@, u@, rmap.index(u@)));
                }
                out.append(formatted.as_str());
                proof {
                    assert(preout + (formatted@ + spec_emit(
                        conf@,
                        svc@,
                        iv.skip(i as int + 1),
                        rmap,
                    )) =~= out@ + spec_emit(conf@, svc@, iv.skip(i as int + 1), rmap));
                }
            },
        }
        i = i + 1;
    }
    proof {
        assert(iv.skip(i as int) =~= Seq::<ItemV>::empty());
        assert(out@ + Seq::<char>::empty() =~= out@);
    }
    out
}

/// When the item is a fetched URL, the two outcome maps record the same
/// outcome for its key.
pub open spec fn item_agrees(
    it: ItemV,
    rmap1: Map<Seq<char>, Result<Seq<u8>, ErrV>>,
    rmap2: Map<Seq<char>, Result<Seq<u8>, ErrV>>,
) -> bool {
    match it {
        ItemV::Fetch(u) => rmap1.dom().contains(u) && rmap2.dom().contains(u) && rmap1.index(u)
            == rmap2.index(u),
        _ => true,
    }
}

/// Per-item independence of formatting: two outcome maps that agree on
/// every fetched key of a plan emit the same text, so one request's failure
/// cannot change how its siblings render.
pub proof fn lemma_emit_independent(
    c: CfgV,
    t: Map<Seq<char>, DomV>,
    items: Seq<ItemV>,
    rmap1: Map<Seq<char>, Result<Seq<u8>, ErrV>>,
    rmap2: Map<Seq<char>, Result<Seq<u8>, ErrV>>,
)
    requires
        forall|i: int| 0 <= i < items.len() ==> #[trigger] item_agrees(items[i], rmap1, rmap2),
    ensures
        spec_emit(c, t, items, rmap1) == spec_emit(c, t, items, rmap2),
    decreases items.len(),
{
    if items.len() > 0 {
        assert(item_agrees(items[0], rmap1, rmap2));
        assert forall|j: int|
            0 <= j < items.drop_first().len() implies #[trigger] item_agrees(
            items.drop_first()[j],
            rmap1,
            rmap2,
        ) by {
            assert(items.drop_first()[j] == items[j + 1]);
            assert(item_agrees(items[j + 1], rmap1, rmap2));
        }
        lemma_emit_independent(c, t, items.drop_first(), rmap1, rmap2);
    }
}

/// A URL whose host no table entry owns resolves to verbatim text and
/// contributes no request: it passes through unchanged, with no fetch
/// attempted.
pub proof fn lemma_unrouted_url_verbatim(c: CfgV, t: Map<Seq<char>, DomV>, u: Seq<char>)
    requires
        match url_parts(u) {
            Some((text, host, path)) => match host {
                Some(h) => spec_find_host(t, h) is None,
                None => true,
            },
            None => false,
        },
    ensures
        spec_resolve_url(c, t, u) == (ItemV::Text(u), None::<ReqV>),
{
}

} // verus!
