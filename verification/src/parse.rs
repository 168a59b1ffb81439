use vstd::prelude::*;

verus! {

/// A classified span of the input document: plain text, a candidate URL, or
/// the end marker.
#[derive(Debug, Clone, PartialEq)]
pub enum Token<'a> {
    Text(&'a str),
    URL(&'a str),
    EOF,
}

/// The mathematical counterpart of `Token`, over character sequences.
pub enum Tok {
    Text(Seq<char>),
    Url(Seq<char>),
    End,
}

impl<'a> View for Token<'a> {
    type V = Tok;

    open spec fn view(&self) -> Tok {
        match self {
            Token::Text(t) => Tok::Text(t@),
            Token::URL(u) => Tok::Url(u@),
            Token::EOF => Tok::End,
        }
    }
}

/// The scheme marker that opens every URL token.
pub open spec fn url_marker() -> Seq<char> {
    seq!['h', 't', 't', 'p', 's', ':', '/', '/']
}

/// The marker occurs in `s` at position `i`.
pub open spec fn marker_at(s: Seq<char>, i: int) -> bool {
    0 <= i && i + 8 <= s.len() && s.subrange(i, i + 8) == url_marker()
}

/// Characters that end a URL token without being consumed by it.
pub open spec fn url_end_char(c: char) -> bool {
    c == ',' || c == ';' || c == '(' || c == ')' || c == '[' || c == ']' || c == '{' || c == '}'
}

/// Characters that end a URL token only when a whitespace or input boundary
/// follows: sentence punctuation, not part of the URL.
pub open spec fn url_maybe_end_char(c: char) -> bool {
    c == '.' || c == ':'
}

/// The Unicode whitespace characters.
pub open spec fn space_char(c: char) -> bool {
    let u = c as u32;
    (9 <= u && u <= 13) || u == 32 || u == 0x85 || u == 0xa0 || u == 0x1680 || (0x2000 <= u
        && u <= 0x200a) || u == 0x2028 || u == 0x2029 || u == 0x202f || u == 0x205f || u == 0x3000
}

/// Any character at which a URL token stops growing.
pub open spec fn stop_char(c: char) -> bool {
    space_char(c) || url_end_char(c)
}

/// Position of the first occurrence of the scheme marker in `s`.
pub open spec fn first_marker(s: Seq<char>) -> Option<int>
    decreases s.len(),
{
    if marker_at(s, 0) {
        Some(0int)
    } else if s.len() == 0 {
        None
    } else {
        match first_marker(s.drop_first()) {
            Some(i) => Some(i + 1),
            None => None,
        }
    }
}

/// Position of the first stop character in `s`.
pub open spec fn first_stop(s: Seq<char>) -> Option<int>
    decreases s.len(),
{
    if s.len() == 0 {
        None
    } else if stop_char(s[0]) {
        Some(0int)
    } else {
        match first_stop(s.drop_first()) {
            Some(i) => Some(i + 1),
            None => None,
        }
    }
}

/// Where a URL token beginning at position 0 of `s` ends: before the first
/// delimiter, before the first whitespace (backing off over one trailing `.`
/// or `:`), or at the end of input (backing off likewise).  `None` when the
/// whole input offers no token at all.
pub open spec fn url_token_end(s: Seq<char>) -> Option<int> {
    match first_stop(s) {
        Some(i) => if url_end_char(s[i]) {
            Some(i)
        } else if i == 0 {
            None
        } else if url_maybe_end_char(s[i - 1]) {
            Some(i - 1)
        } else {
            Some(i)
        },
        None => if s.len() == 0 {
            None
        } else if url_maybe_end_char(s[s.len() - 1]) {
            Some(s.len() - 1)
        } else {
            Some(s.len() as int)
        },
    }
}

/// One step of the scanner: the next token of `s` and the remaining input.
pub open spec fn scan_step(s: Seq<char>) -> (Tok, Seq<char>) {
    if s.len() == 0 {
        (Tok::End, s)
    } else {
        match first_marker(s) {
            None => (Tok::Text(s), Seq::empty()),
            Some(x) => if x > 0 {
                (Tok::Text(s.take(x)), s.skip(x))
            } else {
                match url_token_end(s) {
                    Some(y) => (Tok::Url(s.take(y)), s.skip(y)),
                    None => (Tok::Url(s), Seq::empty()),
                }
            },
        }
    }
}

/// `first_marker` finds the least position at which the marker occurs.
pub proof fn lemma_first_marker(s: Seq<char>)
    ensures
        match first_marker(s) {
            Some(i) => marker_at(s, i) && forall|j: int| 0 <= j < i ==> !marker_at(s, j),
            None => forall|j: int| !marker_at(s, j),
        },
    decreases s.len(),
{
    if marker_at(s, 0) {
    } else if s.len() == 0 {
        assert forall|j: int| !marker_at(s, j) by {}
    } else {
        lemma_first_marker(s.drop_first());
        assert forall|j: int| 0 <= j implies marker_at(s.drop_first(), j) == marker_at(
            s,
            j + 1,
        ) by {
            if j + 8 <= s.drop_first().len() {
                assert(s.drop_first().subrange(j, j + 8) =~= s.subrange(j + 1, j + 9));
            }
        }
        match first_marker(s.drop_first()) {
            Some(i) => {
                assert(marker_at(s, i + 1));
                assert forall|j: int| 0 <= j < i + 1 implies !marker_at(s, j) by {
                    if j > 0 {
                        assert(!marker_at(s.drop_first(), j - 1));
                    }
                }
            },
            None => {
                assert forall|j: int| !marker_at(s, j) by {
                    if j > 0 {
                        assert(!marker_at(s.drop_first(), j - 1));
                    }
                }
            },
        }
    }
}

/// `first_stop` finds the least position holding a stop character.
pub proof fn lemma_first_stop(s: Seq<char>)
    ensures
        match first_stop(s) {
            Some(i) => 0 <= i < s.len() && stop_char(s[i]) && forall|j: int|
                0 <= j < i ==> !stop_char(s[j]),
            None => forall|j: int| 0 <= j < s.len() ==> !stop_char(s[j]),
        },
    decreases s.len(),
{
    if s.len() == 0 {
    } else if stop_char(s[0]) {
    } else {
        lemma_first_stop(s.drop_first());
        match first_stop(s.drop_first()) {
            Some(i) => {
                assert(s[i + 1] == s.drop_first()[i]);
                assert forall|j: int| 0 <= j < i + 1 implies !stop_char(s[j]) by {
                    if j > 0 {
                        assert(s[j] == s.drop_first()[j - 1]);
                    }
                }
            },
            None => {
                assert forall|j: int| 0 <= j < s.len() implies !stop_char(s[j]) by {
                    if j > 0 {
                        assert(s[j] == s.drop_first()[j - 1]);
                    }
                }
            },
        }
    }
}

/// A found marker position with nothing before it is the first one.
proof fn lemma_first_marker_is(s: Seq<char>, x: int)
    requires
        marker_at(s, x),
        forall|j: int| 0 <= j < x ==> !marker_at(s, j),
    ensures
        first_marker(s) == Some(x),
{
    lemma_first_marker(s);
    match first_marker(s) {
        Some(i) => {
            if i < x {
                assert(!marker_at(s, i));
            } else if x < i {
                assert(!marker_at(s, x));
            }
        },
        None => {
            assert(!marker_at(s, x));
        },
    }
}

/// A found stop position with nothing before it is the first one.
proof fn lemma_first_stop_is(s: Seq<char>, x: int)
    requires
        0 <= x < s.len(),
        stop_char(s[x]),
        forall|j: int| 0 <= j < x ==> !stop_char(s[j]),
    ensures
        first_stop(s) == Some(x),
{
    lemma_first_stop(s);
    match first_stop(s) {
        Some(i) => {
            if i < x {
                assert(!stop_char(s[i]));
            } else if x < i {
                assert(!stop_char(s[x]));
            }
        },
        None => {
            assert(!stop_char(s[x]));
        },
    }
}

/// Whether `c` is one of the characters that always end a URL token.
pub fn is_url_end(c: char) -> (b: bool)
    ensures
        b == url_end_char(c),
{
    c == ',' || c == ';' || c == '(' || c == ')' || c == '[' || c == ']' || c == '{' || c == '}'
}

/// Whether `c` ends a URL token when it stands last before a boundary.
pub fn is_url_end_maybe(c: char) -> (b: bool)
    ensures
        b == url_maybe_end_char(c),
{
    c == '.' || c == ':'
}

/// Whether `c` is whitespace.
fn is_space(c: char) -> (b: bool)
    ensures
        b == space_char(c),
{
    let u = c as u32;
    (9 <= u && u <= 13) || u == 32 || u == 0x85 || u == 0xa0 || u == 0x1680 || (0x2000 <= u
        && u <= 0x200a) || u == 0x2028 || u == 0x2029 || u == 0x202f || u == 0x205f || u == 0x3000
}

/// Whether the scheme marker stands at position `i` of `text`.
fn marker_at_index(text: &str, i: usize, n: usize) -> (b: bool)
    requires
        n == text@.len(),
        i + 8 <= n,
    ensures
        b == marker_at(text@, i as int),
{
    let b = text.get_char(i) == 'h' && text.get_char(i + 1) == 't' && text.get_char(i + 2) == 't'
        && text.get_char(i + 3) == 'p' && text.get_char(i + 4) == 's' && text.get_char(i + 5)
        == ':' && text.get_char(i + 6) == '/' && text.get_char(i + 7) == '/';
    proof {
        let s = text@;
        let sub = s.subrange(i as int, i as int + 8);
        if b {
            assert(sub =~= url_marker());
        } else {
            if sub == url_marker() {
                assert(s[i as int] == sub[0]);
                assert(s[i as int + 1] == sub[1]);
                assert(s[i as int + 2] == sub[2]);
                assert(s[i as int + 3] == sub[3]);
                assert(s[i as int + 4] == sub[4]);
                assert(s[i as int + 5] == sub[5]);
                assert(s[i as int + 6] == sub[6]);
                assert(s[i as int + 7] == sub[7]);
            }
        }
    }
    b
}

/// Position of the first scheme marker in `text`, if any.
fn find_marker(text: &str, n: usize) -> (r: Option<usize>)
    requires
        n == text@.len(),
    ensures
        match r {
            Some(x) => first_marker(text@) == Some(x as int),
            None => first_marker(text@) is None,
        },
{
    if n < 8 {
        proof {
            lemma_first_marker(text@);
            if first_marker(text@) is Some {
                let i = first_marker(text@)->Some_0;
                assert(!(i + 8 <= text@.len()));
                assert(!marker_at(text@, i));
            }
        }
        return None;
    }
    let mut i: usize = 0;
    while i <= n - 8
        invariant
            n == text@.len(),
            n >= 8,
            i <= n - 8 + 1,
            forall|j: int| 0 <= j < i ==> !marker_at(text@, j),
        decreases n - i,
    {
        if marker_at_index(text, i, n) {
            proof {
                lemma_first_marker_is(text@, i as int);
            }
            return Some(i);
        }
        i = i + 1;
    }
    proof {
        lemma_first_marker(text@);
        if first_marker(text@) is Some {
            let x = first_marker(text@)->Some_0;
            assert(marker_at(text@, x));
            assert(x <= n - 8);
            assert(!marker_at(text@, x));
        }
    }
    None
}

/// Where the URL token that opens `text` ends: at the first delimiter,
/// before the first whitespace (stepping back over one trailing `.` or
/// `:`), or at the end of input.
pub fn next_url_end(text: &str) -> (r: Option<usize>)
    ensures
        match r {
            Some(y) => url_token_end(text@) == Some(y as int),
            None => url_token_end(text@) is None,
        },
{
    let n = text.unicode_len();
    let mut i: usize = 0;
    while i < n
        invariant
            n == text@.len(),
            i <= n,
            forall|j: int| 0 <= j < i ==> !stop_char(text@[j]),
        decreases n - i,
    {
        let c = text.get_char(i);
        if is_space(c) {
            proof {
                lemma_first_stop_is(text@, i as int);
            }
            if i == 0 {
                return None;
            }
            let p = text.get_char(i - 1);
            if is_url_end_maybe(p) {
                return Some(i - 1);
            } else {
                return Some(i);
            }
        }
        if is_url_end(c) {
            proof {
                lemma_first_stop_is(text@, i as int);
            }
            return Some(i);
        }
        i = i + 1;
    }
    proof {
        lemma_first_stop(text@);
        if first_stop(text@) is Some {
            let x = first_stop(text@)->Some_0;
            assert(!stop_char(text@[x]));
        }
    }
    if n == 0 {
        None
    } else {
        let p = text.get_char(n - 1);
        if is_url_end_maybe(p) {
            Some(n - 1)
        } else {
            Some(n)
        }
    }
}

/// The scanner: the next token of `text` and the remaining input.  Feeding
/// the remainder back yields the following token, until `EOF`.
pub fn next<'a>(text: &'a str) -> (r: (Token<'a>, &'a str))
    ensures
        (r.0@, r.1@) == scan_step(text@),
{
    let n = text.unicode_len();
    if n == 0 {
        return (Token::EOF, text);
    }
    match find_marker(text, n) {
        None => {
            let rest = text.substring_char(n, n);
            proof {
                assert(rest@ =~= Seq::<char>::empty());
            }
            (Token::Text(text), rest)
        },
        Some(x) => {
            proof {
                lemma_first_marker(text@);
            }
            if x > 0 {
                let tok = text.substring_char(0, x);
                let rest = text.substring_char(x, n);
                proof {
                    assert(tok@ =~= text@.take(x as int));
                    assert(rest@ =~= text@.skip(x as int));
                }
                (Token::Text(tok), rest)
            } else {
                match next_url_end(text) {
                    Some(y) => {
                        proof {
                            lemma_url_token_end_bounds(text@);
                        }
                        let tok = text.substring_char(0, y);
                        let rest = text.substring_char(y, n);
                        proof {
                            assert(tok@ =~= text@.take(y as int));
                            assert(rest@ =~= text@.skip(y as int));
                        }
                        (Token::URL(tok), rest)
                    },
                    None => {
                        let rest = text.substring_char(n, n);
                        proof {
                            assert(rest@ =~= Seq::<char>::empty());
                        }
                        (Token::URL(text), rest)
                    },
                }
            }
        },
    }
}

/// The end of a URL token lies within the input.
pub proof fn lemma_url_token_end_bounds(s: Seq<char>)
    ensures
        url_token_end(s) is Some ==> 0 <= url_token_end(s)->Some_0 <= s.len(),
{
    lemma_first_stop(s);
}

/// The scanner always consumes part of a non-empty input: the remainder is
/// strictly shorter, so the token stream is finite.
pub proof fn lemma_scan_progress(s: Seq<char>)
    requires
        s.len() > 0,
    ensures
        scan_step(s).1.len() < s.len(),
{
    lemma_first_marker(s);
    lemma_first_stop(s);
    match first_marker(s) {
        None => {},
        Some(x) => {
            if x > 0 {
            } else {
                assert(s.subrange(0, 8) == url_marker());
                assert(s[0] == s.subrange(0, 8)[0]);
                assert(s[0] == 'h');
                match url_token_end(s) {
                    Some(y) => {
                        match first_stop(s) {
                            Some(i) => {
                                assert(i > 0);
                            },
                            None => {},
                        }
                        assert(y >= 1);
                    },
                    None => {},
                }
            }
        },
    }
}

/// The token sequence of a whole document: what repeated calls of `next`
/// yield, in order, until `EOF`.
pub open spec fn scan_tokens(s: Seq<char>) -> Seq<Tok>
    decreases s.len(),
    when s.len() >= 0
    via scan_tokens_decreases
{
    if s.len() == 0 {
        Seq::empty()
    } else {
        seq![scan_step(s).0] + scan_tokens(scan_step(s).1)
    }
}

#[via_fn]
proof fn scan_tokens_decreases(s: Seq<char>) {
    if s.len() > 0 {
        lemma_scan_progress(s);
    }
}

/// Scanning input without the scheme marker yields exactly one `Text` token
/// covering the whole input, and the empty remainder then ends the stream.
pub proof fn lemma_scan_text_only(s: Seq<char>)
    requires
        s.len() > 0,
        forall|i: int| !marker_at(s, i),
    ensures
        scan_step(s) == (Tok::Text(s), Seq::<char>::empty()),
        scan_tokens(s) =~= seq![Tok::Text(s)],
{
    lemma_first_marker(s);
    match first_marker(s) {
        Some(i) => {
            assert(!marker_at(s, i));
        },
        None => {},
    }
    assert(scan_tokens(s) == seq![scan_step(s).0] + scan_tokens(scan_step(s).1));
    assert(scan_tokens(Seq::<char>::empty()) == Seq::<Tok>::empty());
}

/// Scanning `prefix + url + delim + suffix`, where `url` opens with the
/// scheme marker and holds no stop character, `delim` is a delimiter, and
/// `prefix` holds no marker, yields `Text(prefix)` (when the prefix is
/// non-empty) and then `URL(url)`, leaving `delim + suffix` to scan next.
pub proof fn lemma_scan_url_delimited(prefix: Seq<char>, url: Seq<char>, delim: char, suffix: Seq<char>)
    requires
        url.len() >= 8,
        url.subrange(0, 8) == url_marker(),
        forall|i: int| 0 <= i < url.len() ==> !stop_char(url[i]),
        url_end_char(delim),
        forall|i: int| 0 <= i < prefix.len() ==> !marker_at(prefix + url + seq![delim] + suffix, i),
    ensures
        prefix.len() > 0 ==> scan_step(prefix + url + seq![delim] + suffix) == (
            Tok::Text(prefix),
            url + seq![delim] + suffix,
        ),
        scan_step(url + seq![delim] + suffix) == (Tok::Url(url), seq![delim] + suffix),
{
    let rest = url + seq![delim] + suffix;
    let s = prefix + url + seq![delim] + suffix;
    assert(s =~= prefix + rest);

    // The remainder opens with the marker and stops first at `delim`.
    assert(rest.subrange(0, 8) =~= url.subrange(0, 8));
    assert(marker_at(rest, 0));
    lemma_first_marker_is(rest, 0);
    assert(rest[url.len() as int] == delim);
    assert forall|j: int| 0 <= j < url.len() implies !stop_char(rest[j]) by {
        assert(rest[j] == url[j]);
    }
    lemma_first_stop_is(rest, url.len() as int);
    assert(!space_char(delim) ==> !(url_end_char(delim) && space_char(delim)));
    assert(url_token_end(rest) == Some(url.len() as int));
    assert(rest.take(url.len() as int) =~= url);
    assert(rest.skip(url.len() as int) =~= seq![delim] + suffix);
    assert(scan_step(rest) == (Tok::Url(url), seq![delim] + suffix));

    if prefix.len() > 0 {
        assert(marker_at(s, prefix.len() as int)) by {
            assert(s.subrange(prefix.len() as int, prefix.len() as int + 8) =~= rest.subrange(
                0,
                8,
            ));
        }
        lemma_first_marker_is(s, prefix.len() as int);
        assert(s.take(prefix.len() as int) =~= prefix);
        assert(s.skip(prefix.len() as int) =~= rest);
    }
}

} // verus!
