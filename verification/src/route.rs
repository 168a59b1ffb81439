use vstd::prelude::*;
use vstd::string::*;
use crate::strutil::{push_char, str_eq};

verus! {

/// One component of a slash-separated path: the leading separator, the
/// current-directory marker, the parent-directory marker, or a named part.
#[derive(Debug, Clone, PartialEq)]
pub enum Seg {
    Root,
    Cur,
    Parent,
    Part(String),
}

/// The mathematical counterpart of `Seg`.
pub enum SegV {
    Root,
    Cur,
    Parent,
    Part(Seq<char>),
}

impl View for Seg {
    type V = SegV;

    open spec fn view(&self) -> SegV {
        match self {
            Seg::Root => SegV::Root,
            Seg::Cur => SegV::Cur,
            Seg::Parent => SegV::Parent,
            Seg::Part(p) => SegV::Part(p@),
        }
    }
}

/// The slash-separated pieces of `s`, empty pieces included; always at least
/// one piece.
pub open spec fn split_slash(s: Seq<char>) -> Seq<Seq<char>>
    decreases s.len(),
{
    if s.len() == 0 {
        seq![Seq::<char>::empty()]
    } else if s[0] == '/' {
        seq![Seq::<char>::empty()] + split_slash(s.drop_first())
    } else {
        let r = split_slash(s.drop_first());
        seq![seq![s[0]] + r[0]] + r.skip(1)
    }
}

pub proof fn lemma_split_slash_nonempty(s: Seq<char>)
    ensures
        split_slash(s).len() >= 1,
    decreases s.len(),
{
    if s.len() > 0 {
        lemma_split_slash_nonempty(s.drop_first());
    }
}

pub open spec fn dot() -> Seq<char> {
    seq!['.']
}

pub open spec fn dotdot() -> Seq<char> {
    seq!['.', '.']
}

/// Normalizes raw pieces into path components: empty pieces vanish, `..`
/// becomes the parent marker, `.` is kept only as the leading component of a
/// rootless path, anything else is a named part.
pub open spec fn norm_pieces(pieces: Seq<Seq<char>>, leading: bool) -> Seq<SegV>
    decreases pieces.len(),
{
    if pieces.len() == 0 {
        Seq::empty()
    } else {
        let p = pieces[0];
        let rest = pieces.drop_first();
        if p.len() == 0 {
            norm_pieces(rest, leading)
        } else if p == dotdot() {
            seq![SegV::Parent] + norm_pieces(rest, false)
        } else if p == dot() {
            if leading {
                seq![SegV::Cur] + norm_pieces(rest, false)
            } else {
                norm_pieces(rest, false)
            }
        } else {
            seq![SegV::Part(p)] + norm_pieces(rest, false)
        }
    }
}

/// The components of the path `s`: a leading `/` becomes the root marker and
/// the slash-separated pieces follow, normalized.
pub open spec fn components(s: Seq<char>) -> Seq<SegV> {
    if s.len() > 0 && s[0] == '/' {
        seq![SegV::Root] + norm_pieces(split_slash(s), false)
    } else {
        norm_pieces(split_slash(s), true)
    }
}

/// The slash-separated pieces of `s`, as owned strings.
fn split_pieces(s: &str) -> (r: Vec<String>)
    ensures
        r@.map_values(|p: String| p@) == split_slash(s@),
{
    let n = s.unicode_len();
    let mut pieces: Vec<String> = Vec::new();
    let mut cur = String::new();
    let mut i: usize = 0;
    proof {
        assert(s@.skip(0) =~= s@);
        lemma_split_slash_nonempty(s@);
        assert(split_slash(s@) =~= seq![split_slash(s@)[0]] + split_slash(s@).skip(1));
        assert(cur@ + split_slash(s@)[0] =~= split_slash(s@)[0]);
        assert(pieces@.map_values(|p: String| p@) =~= Seq::<Seq<char>>::empty());
        assert(split_slash(s@) =~= pieces@.map_values(|p: String| p@) + seq![
            cur@ + split_slash(s@.skip(0))[0],
        ] + split_slash(s@.skip(0)).skip(1));
    }
    while i < n
        invariant
            n == s@.len(),
            i <= n,
            split_slash(s@) == pieces@.map_values(|p: String| p@) + seq![
                cur@ + split_slash(s@.skip(i as int))[0],
            ] + split_slash(s@.skip(i as int)).skip(1),
        decreases n - i,
    {
        let ghost rem = s@.skip(i as int);
        let ghost rem1 = s@.skip(i as int + 1);
        proof {
            assert(rem[0] == s@[i as int]);
            assert(rem.drop_first() =~= rem1);
            lemma_split_slash_nonempty(rem1);
        }
        let c = s.get_char(i);
        if c == '/' {
            let ghost oldpieces = pieces@;
            let ghost oldcur = cur@;
            pieces.push(cur);
            cur = String::new();
            proof {
                assert(split_slash(rem) == seq![Seq::<char>::empty()] + split_slash(rem1));
                assert(split_slash(rem)[0] =~= Seq::<char>::empty());
                assert(oldcur + split_slash(rem)[0] =~= oldcur);
                assert(split_slash(rem).skip(1) =~= split_slash(rem1));
                assert(pieces@.map_values(|p: String| p@) =~= oldpieces.map_values(|p: String| p@)
                    + seq![oldcur]);
                assert(cur@ + split_slash(rem1)[0] =~= split_slash(rem1)[0]);
                assert(split_slash(rem1) =~= seq![split_slash(rem1)[0]] + split_slash(rem1).skip(
                    1,
                ));
                assert(split_slash(s@) =~= pieces@.map_values(|p: String| p@) + seq![
                    cur@ + split_slash(rem1)[0],
                ] + split_slash(rem1).skip(1));
            }
        } else {
            let ghost oldcur = cur@;
            push_char(&mut cur, c);
            proof {
                let r = split_slash(rem1);
                assert(split_slash(rem) == seq![seq![rem[0]] + r[0]] + r.skip(1));
                assert(split_slash(rem)[0] == seq![rem[0]] + r[0]);
                assert(split_slash(rem).skip(1) =~= r.skip(1));
                assert(cur@ =~= oldcur + seq![c]);
                assert(cur@ + r[0] =~= oldcur + (seq![c] + r[0]));
                assert(split_slash(s@) =~= pieces@.map_values(|p: String| p@) + seq![cur@ + r[0]]
                    + r.skip(1));
            }
        }
        i = i + 1;
    }
    let ghost oldpieces = pieces@;
    let ghost oldcur = cur@;
    pieces.push(cur);
    proof {
        let rem = s@.skip(i as int);
        assert(rem =~= Seq::<char>::empty());
        assert(split_slash(rem) == seq![Seq::<char>::empty()]);
        assert(oldcur + split_slash(rem)[0] =~= oldcur);
        assert(split_slash(rem).skip(1) =~= Seq::<Seq<char>>::empty());
        assert(pieces@.map_values(|p: String| p@) =~= oldpieces.map_values(|p: String| p@) + seq![
            oldcur,
        ]);
        assert(split_slash(s@) =~= pieces@.map_values(|p: String| p@));
    }
    pieces
}

/// The components of the path `s`, as owned values.
pub fn split_components(s: &str) -> (r: Vec<Seg>)
    ensures
        r@.map_values(|g: Seg| g@) == components(s@),
{
    let n = s.unicode_len();
    let mut segs: Vec<Seg> = Vec::new();
    let rooted = n > 0 && s.get_char(0) == '/';
    if rooted {
        segs.push(Seg::Root);
    }
    let mut leading = !rooted;
    let pieces = split_pieces(s);
    let ghost all = split_slash(s@);
    let mut k: usize = 0;
    proof {
        assert(all.skip(0) =~= all);
        if rooted {
            assert(segs@.map_values(|g: Seg| g@) =~= seq![SegV::Root]);
        } else {
            assert(segs@.map_values(|g: Seg| g@) =~= Seq::<SegV>::empty());
        }
        assert(components(s@) == segs@.map_values(|g: Seg| g@) + norm_pieces(all, leading));
    }
    while k < pieces.len()
        invariant
            pieces@.map_values(|p: String| p@) == all,
            k <= pieces@.len(),
            components(s@) == segs@.map_values(|g: Seg| g@) + norm_pieces(
                all.skip(k as int),
                leading,
            ),
        decreases pieces@.len() - k,
    {
        let ghost rest = all.skip(k as int);
        proof {
            assert(rest[0] == all[k as int]);
            assert(all[k as int] == pieces@[k as int]@);
            assert(rest.drop_first() =~= all.skip(k as int + 1));
        }
        let p = &pieces[k];
        let ln = p.unicode_len();
        if ln == 0 {
        } else if ln == 2 && p.get_char(0) == '.' && p.get_char(1) == '.' {
            proof {
                assert(p@ =~= dotdot());
            }
            let ghost oldsegs = segs@;
            segs.push(Seg::Parent);
            leading = false;
            proof {
                assert(segs@.map_values(|g: Seg| g@) =~= oldsegs.map_values(|g: Seg| g@) + seq![
                    SegV::Parent,
                ]);
            }
        } else if ln == 1 && p.get_char(0) == '.' {
            proof {
                assert(p@ =~= dot());
                if p@ == dotdot() {
                    assert(p@.len() == 2);
                }
            }
            if leading {
                let ghost oldsegs = segs@;
                segs.push(Seg::Cur);
                proof {
                    assert(segs@.map_values(|g: Seg| g@) =~= oldsegs.map_values(|g: Seg| g@)
                        + seq![SegV::Cur]);
                }
            }
            leading = false;
        } else {
            proof {
                if p@ == dotdot() {
                    assert(p@.len() == 2 && p@[0] == '.' && p@[1] == '.');
                }
                if p@ == dot() {
                    assert(p@.len() == 1 && p@[0] == '.');
                }
            }
            let ghost oldsegs = segs@;
            segs.push(Seg::Part(p.clone()));
            leading = false;
            proof {
                assert(segs@.map_values(|g: Seg| g@) =~= oldsegs.map_values(|g: Seg| g@) + seq![
                    SegV::Part(p@),
                ]);
            }
        }
        k = k + 1;
    }
    proof {
        assert(all.skip(k as int) =~= Seq::<Seq<char>>::empty());
        assert(components(s@) =~= segs@.map_values(|g: Seg| g@));
    }
    segs
}

/// A pattern piece of the form `{name}`.
pub open spec fn is_var(p: Seq<char>) -> bool {
    p.len() > 2 && p[0] == '{' && p[p.len() - 1] == '}'
}

/// The name between the braces of a variable piece.
pub open spec fn var_name(p: Seq<char>) -> Seq<char> {
    p.subrange(1, p.len() - 1)
}

/// Whether one pattern component accepts one path component: markers must
/// agree exactly, a literal part must be equal, a variable part accepts
/// anything.
pub open spec fn seg_ok(l: SegV, r: SegV) -> bool {
    match (l, r) {
        (SegV::Part(lp), SegV::Part(rp)) => is_var(lp) || lp == rp,
        (l, r) => l == r,
    }
}

/// A pattern matches a path when the component lists have equal length and
/// agree pairwise.
pub open spec fn segs_match(pat: Seq<SegV>, path: Seq<SegV>) -> bool {
    pat.len() == path.len() && (forall|i: int| 0 <= i < pat.len() ==> seg_ok(pat[i], path[i]))
}

/// The bindings a match produces: each variable component binds its name to
/// the path component it faced; on a repeated name the later binding wins.
pub open spec fn seg_bindings(pat: Seq<SegV>, path: Seq<SegV>) -> Map<Seq<char>, Seq<char>>
    decreases pat.len(),
{
    if pat.len() == 0 || path.len() == 0 {
        Map::empty()
    } else {
        let rest = seg_bindings(pat.drop_last(), path.drop_last());
        match (pat.last(), path.last()) {
            (SegV::Part(lp), SegV::Part(rp)) => if is_var(lp) {
                rest.insert(var_name(lp), rp)
            } else {
                rest
            },
            _ => rest,
        }
    }
}

/// The name-to-value map a list of bindings denotes; on a repeated name the
/// later entry wins, as repeated insertion would have it.
pub open spec fn vars_view(s: Seq<(String, String)>) -> Map<Seq<char>, Seq<char>>
    decreases s.len(),
{
    if s.len() == 0 {
        Map::empty()
    } else {
        vars_view(s.drop_last()).insert(s.last().0@, s.last().1@)
    }
}

/// The value under `name` in a list of bindings, scanning from the latest.
pub fn lookup<'a>(entries: &'a Vec<(String, String)>, name: &str) -> (r: Option<&'a String>)
    ensures
        match r {
            Some(v) => vars_view(entries@).dom().contains(name@) && v@ == vars_view(
                entries@,
            ).index(name@),
            None => !vars_view(entries@).dom().contains(name@),
        },
{
    let ghost s = entries@;
    let mut i: usize = entries.len();
    proof {
        assert(s.take(i as int) =~= s);
    }
    while i > 0
        invariant
            s == entries@,
            i <= s.len(),
            vars_view(s).dom().contains(name@) == vars_view(s.take(i as int)).dom().contains(
                name@,
            ),
            vars_view(s).dom().contains(name@) ==> vars_view(s)[name@] == vars_view(
                s.take(i as int),
            )[name@],
        decreases i,
    {
        i = i - 1;
        proof {
            assert(s.take(i as int + 1).drop_last() =~= s.take(i as int));
            assert(s.take(i as int + 1).last() == s[i as int]);
        }
        let e = &entries[i];
        if str_eq(e.0.as_str(), name) {
            return Some(&e.1);
        }
    }
    proof {
        assert(s.take(0) =~= Seq::<(String, String)>::empty());
    }
    None
}

/// The variable bindings captured by a successful pattern match.
#[derive(Debug, PartialEq)]
pub struct Match {
    pub vars: Vec<(String, String)>,
}

impl Match {
    /// The value bound to `name`, if the match bound that variable.
    pub fn get<'a>(&'a self, name: &str) -> (r: Option<&'a String>)
        ensures
            match r {
                Some(v) => vars_view(self.vars@).dom().contains(name@) && v@ == vars_view(
                    self.vars@,
                )[name@],
                None => !vars_view(self.vars@).dom().contains(name@),
            },
    {
        lookup(&self.vars, name)
    }
}

/// A path template made of literal and `{name}` variable segments.
#[derive(Debug, PartialEq)]
pub struct Pattern {
    text: String,
}

impl View for Pattern {
    type V = Seq<char>;

    closed spec fn view(&self) -> Seq<char> {
        self.text@
    }
}

impl Pattern {
    /// A pattern over the literal path template `p`.
    pub fn new(p: &str) -> (r: Pattern)
        ensures
            r@ == p@,
    {
        Pattern { text: String::from_str(p) }
    }

    /// Matches `p` against the pattern, component by component: literal
    /// components must agree exactly, `{name}` components bind the component
    /// they face, and both paths must have the same number of components.
    pub fn match_path(&self, p: &str) -> (r: Option<Match>)
        ensures
            match r {
                Some(m) => segs_match(components(self@), components(p@)) && vars_view(m.vars@)
                    == seg_bindings(components(self@), components(p@)),
                None => !segs_match(components(self@), components(p@)),
            },
    {
        let lsegs = split_components(self.text.as_str());
        let rsegs = split_components(p);
        let ghost lv = components(self@);
        let ghost rv = components(p@);
        let n = lsegs.len();
        if rsegs.len() != n {
            return None;
        }
        let mut vars: Vec<(String, String)> = Vec::new();
        let mut i: usize = 0;
        proof {
            assert(lv.take(0) =~= Seq::<SegV>::empty());
            assert(rv.take(0) =~= Seq::<SegV>::empty());
        }
        while i < n
            invariant
                lv == components(self@),
                rv == components(p@),
                lsegs@.map_values(|g: Seg| g@) == lv,
                rsegs@.map_values(|g: Seg| g@) == rv,
                n == lsegs@.len(),
                n == rsegs@.len(),
                i <= n,
                forall|j: int| 0 <= j < i ==> seg_ok(lv[j], rv[j]),
                vars_view(vars@) == seg_bindings(lv.take(i as int), rv.take(i as int)),
            decreases n - i,
        {
            let ghost lvi = lv[i as int];
            let ghost rvi = rv[i as int];
            proof {
                assert(lvi == lsegs@[i as int]@);
                assert(rvi == rsegs@[i as int]@);
                assert(lv.take(i as int + 1).drop_last() =~= lv.take(i as int));
                assert(rv.take(i as int + 1).drop_last() =~= rv.take(i as int));
                assert(lv.take(i as int + 1).last() == lvi);
                assert(rv.take(i as int + 1).last() == rvi);
            }
            let l = &lsegs[i];
            let r = &rsegs[i];
            let ghost vprev = vars@;
            match l {
                Seg::Root => {
                    match r {
                        Seg::Root => {
                            proof {
                                assert(seg_ok(lvi, rvi));
                            }
                        },
                        _ => {
                            proof {
                                assert(!seg_ok(lvi, rvi));
                                assert(!segs_match(lv, rv));
                            }
                            return None;
                        },
                    }
                },
                Seg::Cur => {
                    match r {
                        Seg::Cur => {
                            proof {
                                assert(seg_ok(lvi, rvi));
                            }
                        },
                        _ => {
                            proof {
                                assert(!seg_ok(lvi, rvi));
                                assert(!segs_match(lv, rv));
                            }
                            return None;
                        },
                    }
                },
                Seg::Parent => {
                    match r {
                        Seg::Parent => {
                            proof {
                                assert(seg_ok(lvi, rvi));
                            }
                        },
                        _ => {
                            proof {
                                assert(!seg_ok(lvi, rvi));
                                assert(!segs_match(lv, rv));
                            }
                            return None;
                        },
                    }
                },
                Seg::Part(lp) => {
                    match r {
                        Seg::Part(rp) => {
                            let ln = lp.unicode_len();
                            if ln > 2 && lp.get_char(0) == '{' && lp.get_char(ln - 1) == '}' {
                                proof {
                                    assert(is_var(lp@));
                                }
                                let name = lp.substring_char(1, ln - 1);
                                vars.push((String::from_str(name), rp.clone()));
                                proof {
                                    assert(name@ == var_name(lp@));
                                    assert(vars@.drop_last() =~= vprev);
                                    assert(vars_view(vars@) == vars_view(vprev).insert(
                                        name@,
                                        rp@,
                                    ));
                                    assert(seg_bindings(
                                        lv.take(i as int + 1),
                                        rv.take(i as int + 1),
                                    ) == seg_bindings(lv.take(i as int), rv.take(i as int)).insert(
                                        var_name(lp@),
                                        rp@,
                                    ));
                                }
                            } else if str_eq(lp.as_str(), rp.as_str()) {
                                proof {
                                    assert(!is_var(lp@));
                                    assert(seg_ok(lvi, rvi));
                                }
                            } else {
                                proof {
                                    assert(!is_var(lp@));
                                    assert(!seg_ok(lvi, rvi));
                                    assert(!segs_match(lv, rv));
                                }
                                return None;
                            }
                        },
                        _ => {
                            proof {
                                assert(!seg_ok(lvi, rvi));
                                assert(!segs_match(lv, rv));
                            }
                            return None;
                        },
                    }
                },
            }
            i = i + 1;
        }
        proof {
            assert(lv.take(n as int) =~= lv);
            assert(rv.take(n as int) =~= rv);
        }
        Some(Match { vars })
    }
}

} // verus!
