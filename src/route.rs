//! Route records and the parser for the lines of the routing table.
use vstd::prelude::*;
use vstd::string::StrSliceExecFns;
use crate::errors::RouteError;
use crate::ip::{chars_of, decode_ip, parse_ip, Ipv4};

verus! {

/// One entry of the routing table.
#[derive(Debug, PartialEq)]
pub struct Route {
    /// Name of the interface the route goes through.
    pub iface: String,
    /// Network address of the route.
    pub destination: Ipv4,
    /// Next hop; `0.0.0.0` for a directly connected network.
    pub gateway: Ipv4,
}

/// The content of a `Route`, as values.
pub struct RouteModel {
    pub iface: Seq<char>,
    pub destination: Ipv4,
    pub gateway: Ipv4,
}

impl View for Route {
    type V = RouteModel;

    open spec fn view(&self) -> RouteModel {
        RouteModel { iface: self.iface@, destination: self.destination, gateway: self.gateway }
    }
}

/// The characters that separate the columns of a line: those with the
/// Unicode `White_Space` property.
pub open spec fn is_space(c: char) -> bool {
    ('\u{9}' <= c && c <= '\u{d}') || c == ' ' || c == '\u{85}' || c == '\u{a0}' || c
        == '\u{1680}' || ('\u{2000}' <= c && c <= '\u{200a}') || c == '\u{2028}' || c
        == '\u{2029}' || c == '\u{202f}' || c == '\u{205f}' || c == '\u{3000}'
}

/// The tokens of `cur + s` where `cur` is a token still being read: the
/// maximal runs of characters that are not whitespace, in order.
pub open spec fn tokens_after(cur: Seq<char>, s: Seq<char>) -> Seq<Seq<char>>
    decreases s.len(),
{
    if s.len() == 0 {
        if cur.len() == 0 {
            seq![]
        } else {
            seq![cur]
        }
    } else if is_space(s[0]) {
        if cur.len() == 0 {
            tokens_after(cur, s.drop_first())
        } else {
            seq![cur] + tokens_after(seq![], s.drop_first())
        }
    } else {
        tokens_after(cur.push(s[0]), s.drop_first())
    }
}

/// The whitespace-separated tokens of `s`, in order.
pub open spec fn tokens(s: Seq<char>) -> Seq<Seq<char>> {
    tokens_after(seq![], s)
}

/// What parsing one line of the table gives: the first three tokens are the
/// interface and the two address fields, later tokens are ignored.
#[verifier::opaque]
pub open spec fn line_result(line: Seq<char>) -> Result<RouteModel, RouteError> {
    let t = tokens(line);
    if t.len() < 3 {
        Err(RouteError::BadInput)
    } else {
        match decode_ip(t[1]) {
            Err(e) => Err(e),
            Ok(destination) => match decode_ip(t[2]) {
                Err(e) => Err(e),
                Ok(gateway) => Ok(RouteModel { iface: t[0], destination, gateway }),
            },
        }
    }
}

/// What a line of the table, or the failure to read it, gives.
pub open spec fn item_result(item: Result<String, std::io::Error>) -> Result<RouteModel, RouteError> {
    match item {
        Ok(line) => line_result(line@),
        Err(e) => Err(RouteError::Io(e)),
    }
}

/// Every line after the header is read and parses.
pub open spec fn all_routes_parse(ls: Seq<Result<String, std::io::Error>>) -> bool {
    forall|k: int| 1 <= k < ls.len() ==> (#[trigger] item_result(ls[k])) is Ok
}

/// The position of the first line after the header that fails.
pub open spec fn first_failure(ls: Seq<Result<String, std::io::Error>>) -> int
    recommends
        !all_routes_parse(ls),
{
    choose|f: int|
        1 <= f < ls.len() && item_result(ls[f]) is Err && forall|k: int|
            1 <= k < f ==> (#[trigger] item_result(ls[k])) is Ok
}

/// When some line after the header fails, `first_failure` is the first such line.
pub proof fn lemma_first_failure(ls: Seq<Result<String, std::io::Error>>)
    requires
        !all_routes_parse(ls),
    ensures
        1 <= first_failure(ls) < ls.len(),
        item_result(ls[first_failure(ls)]) is Err,
        forall|k: int| 1 <= k < first_failure(ls) ==> (#[trigger] item_result(ls[k])) is Ok,
{
    lemma_failure_from(ls, 1);
}

/// Some line from `i` on fails, when every line from the first to `i` parses.
proof fn lemma_failure_from(ls: Seq<Result<String, std::io::Error>>, i: int)
    requires
        !all_routes_parse(ls),
        1 <= i <= ls.len(),
        forall|k: int| 1 <= k < i ==> (#[trigger] item_result(ls[k])) is Ok,
    ensures
        exists|f: int|
            1 <= f < ls.len() && item_result(ls[f]) is Err && forall|k: int|
                1 <= k < f ==> (#[trigger] item_result(ls[k])) is Ok,
    decreases ls.len() - i,
{
    if i < ls.len() {
        if item_result(ls[i]) is Err {
            assert(1 <= i < ls.len() && item_result(ls[i]) is Err && forall|k: int|
                1 <= k < i ==> (#[trigger] item_result(ls[k])) is Ok);
        } else {
            lemma_failure_from(ls, i + 1);
        }
    }
}

/// The header line, if there is one, was read.
pub open spec fn header_read(ls: Seq<Result<String, std::io::Error>>) -> bool {
    ls.len() == 0 || ls[0] is Ok
}

/// What parsing a whole table gives: a failed read of the header line is an
/// `Io` error; the header's text is skipped; each later line gives one route,
/// in order, and the first failing line decides the error.
pub open spec fn table_result(ls: Seq<Result<String, std::io::Error>>) -> Result<
    Seq<RouteModel>,
    RouteError,
> {
    if !header_read(ls) {
        Err(RouteError::Io(ls[0]->Err_0))
    } else if !all_routes_parse(ls) {
        Err(item_result(ls[first_failure(ls)])->Err_0)
    } else if ls.len() == 0 {
        Ok(seq![])
    } else {
        Ok(Seq::new((ls.len() - 1) as nat, |k: int| item_result(ls[k + 1])->Ok_0))
    }
}

/// A parsed line, as values.
pub open spec fn route_result_model(r: Result<Route, RouteError>) -> Result<RouteModel, RouteError> {
    match r {
        Ok(route) => Ok(route@),
        Err(e) => Err(e),
    }
}

/// A parsed table, as values.
pub open spec fn routes_result_model(r: Result<Vec<Route>, RouteError>) -> Result<
    Seq<RouteModel>,
    RouteError,
> {
    match r {
        Ok(routes) => Ok(routes@.map_values(|route: Route| route@)),
        Err(e) => Err(e),
    }
}

/// Whether `c` separates columns.
fn is_space_exec(c: char) -> (r: bool)
    ensures
        r == is_space(c),
{
    ('\u{9}' <= c && c <= '\u{d}') || c == ' ' || c == '\u{85}' || c == '\u{a0}' || c
        == '\u{1680}' || ('\u{2000}' <= c && c <= '\u{200a}') || c == '\u{2028}' || c
        == '\u{2029}' || c == '\u{202f}' || c == '\u{205f}' || c == '\u{3000}'
}

/// The characters of `s` between the two positions of `p`.
pub open spec fn span_text(s: Seq<char>, p: (usize, usize)) -> Seq<char> {
    s.subrange(p.0 as int, p.1 as int)
}

/// The start and end positions, in characters, of each token of `cs`.
fn token_spans(cs: &Vec<char>) -> (r: Vec<(usize, usize)>)
    ensures
        r@.len() == tokens(cs@).len(),
        forall|k: int|
            0 <= k < r@.len() ==> {
                let (a, b) = #[trigger] r@[k];
                a <= b <= cs@.len() && cs@.subrange(a as int, b as int) == tokens(cs@)[k]
            },
{
    let ghost s = cs@;
    let mut r: Vec<(usize, usize)> = Vec::new();
    let mut start: usize = 0;
    let mut i: usize = 0;
    assert(s.subrange(0, 0) =~= seq![]);
    assert(s.subrange(0, s.len() as int) =~= s);
    assert(r@.map_values(|p: (usize, usize)| span_text(s, p)) =~= seq![]);
    assert(seq![] + tokens(s) =~= tokens(s));
    while i < cs.len()
        invariant
            s == cs@,
            start <= i <= cs.len(),
            forall|k: int|
                0 <= k < r@.len() ==> {
                    let (a, b) = #[trigger] r@[k];
                    a <= b <= cs@.len()
                },
            r@.map_values(|p: (usize, usize)| span_text(s, p)) + tokens_after(
                s.subrange(start as int, i as int),
                s.subrange(i as int, s.len() as int),
            ) == tokens(s),
        decreases cs.len() - i,
    {
        let ghost rest = s.subrange(i as int, s.len() as int);
        let ghost cur = s.subrange(start as int, i as int);
        let ghost before = r@.map_values(|p: (usize, usize)| span_text(s, p));
        assert(rest.drop_first() =~= s.subrange(i + 1, s.len() as int));
        assert(rest[0] == s[i as int]);
        if is_space_exec(cs[i]) {
            if start < i {
                assert(tokens_after(cur, rest) == seq![cur] + tokens_after(
                    seq![],
                    rest.drop_first(),
                ));
                let ghost old_r = r@;
                r.push((start, i));
                assert(r@ == old_r.push((start, i)));
                assert(span_text(s, (start, i)) == cur);
                assert(r@.map_values(|p: (usize, usize)| span_text(s, p)) =~= before.push(cur)) by {
                    assert forall|k: int| 0 <= k < before.len() implies r@.map_values(|p: (usize, usize)| span_text(s, p))[k]
                        == before[k] by {
                        assert(r@[k] == old_r[k]);
                    }
                }
                assert(before + (seq![cur] + tokens_after(seq![], rest.drop_first()))
                    =~= before.push(cur) + tokens_after(seq![], rest.drop_first()));
            }
            else {
                assert(cur =~= seq![]);
                assert(tokens_after(cur, rest) == tokens_after(cur, rest.drop_first()));
            }
            start = i + 1;
            assert(s.subrange(start as int, start as int) =~= seq![]);
        } else {
            assert(tokens_after(cur, rest) == tokens_after(
                cur.push(s[i as int]),
                rest.drop_first(),
            ));
            assert(cur.push(s[i as int]) =~= s.subrange(start as int, i + 1));
        }
        i = i + 1;
    }
    let ghost before = r@.map_values(|p: (usize, usize)| span_text(s, p));
    let ghost cur = s.subrange(start as int, i as int);
    assert(s.subrange(i as int, s.len() as int) =~= seq![]);
    if start < i {
        r.push((start, i));
        assert(r@.map_values(|p: (usize, usize)| span_text(s, p)) =~= before.push(cur));
        assert(before + seq![cur] =~= before.push(cur));
    } else {
        assert(before + seq![] =~= before);
    }
    assert(r@.map_values(|p: (usize, usize)| span_text(s, p)) =~= tokens(s));
    assert forall|k: int| 0 <= k < r@.len() implies {
        let (a, b) = #[trigger] r@[k];
        a <= b <= cs@.len() && cs@.subrange(a as int, b as int) == tokens(cs@)[k]
    } by {
        assert(r@.map_values(|p: (usize, usize)| span_text(s, p))[k] == span_text(s, r@[k]));
    }
    r
}

impl Route {
    /// Decodes an address field of the table; see [`parse_ip`].
    pub fn parse_ip(s: &str) -> (r: Result<Ipv4, RouteError>)
        ensures
            r == decode_ip(s@),
    {
        parse_ip(s)
    }
}

/// Parses one line of the table, other than the header.
pub fn parse_line(line: &str) -> (r: Result<Route, RouteError>)
    ensures
        route_result_model(r) == line_result(line@),
{
    reveal(line_result);
    let cs = chars_of(line);
    let spans = token_spans(&cs);
    if spans.len() < 3 {
        return Err(RouteError::BadInput);
    }
    let (i0, i1) = spans[0];
    let (d0, d1) = spans[1];
    let (g0, g1) = spans[2];
    let destination = match parse_ip(line.substring_char(d0, d1)) {
        Ok(a) => a,
        Err(e) => return Err(e),
    };
    let gateway = match parse_ip(line.substring_char(g0, g1)) {
        Ok(a) => a,
        Err(e) => return Err(e),
    };
    let iface = line.substring_char(i0, i1).to_owned();
    Ok(Route { iface, destination, gateway })
}

/// Parses the lines of the table, as read: the first line is the header, whose
/// text is skipped; each later line gives one route, and the first line that
/// fails to be read or parsed ends the parse with its error.
pub fn parse_proc_net_route(lines: Vec<Result<String, std::io::Error>>) -> (r: Result<
    Vec<Route>,
    RouteError,
>)
    ensures
        routes_result_model(r) == table_result(lines@),
{
    let ghost ls = lines@;
    let mut routes: Vec<Route> = Vec::new();
    let mut header = true;
    for item in it: lines.into_iter()
        invariant
            it.seq() == ls,
            header == (it.index() == 0),
            it.index() > 0 ==> ls[0] is Ok,
            routes@.len() == if it.index() == 0 { 0 } else { it.index() - 1 },
            forall|k: int| 1 <= k < it.index() ==> (#[trigger] item_result(ls[k])) is Ok,
            forall|j: int|
                0 <= j < routes@.len() ==> (#[trigger] routes@[j])@ == item_result(
                    ls[j + 1],
                )->Ok_0,
    {
        if header {
            if let Err(e) = item {
                return Err(RouteError::Io(e));
            }
            header = false;
        } else {
            let ghost f = it.index();
            assert(item == ls[f]);
            let res = match item {
                Ok(line) => parse_line(line.as_str()),
                Err(e) => Err(RouteError::Io(e)),
            };
            match res {
                Ok(route) => {
                    routes.push(route);
                },
                Err(e) => {
                    proof {
                        assert(!all_routes_parse(ls));
                        let p = first_failure(ls);
                        assert(p == f) by {
                            if p < f {
                                assert(item_result(ls[p]) is Ok);
                            } else if p > f {
                                assert(item_result(ls[f]) is Ok);
                            }
                        }
                    }
                    return Err(e);
                },
            }
        }
    }
    assert(routes@.map_values(|route: Route| route@) =~= table_result(ls)->Ok_0);
    Ok(routes)
}

} // verus!
