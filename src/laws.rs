//! Properties of the parser that hold for every input.
use vstd::prelude::*;
use crate::errors::RouteError;
use crate::ip::{all_hex, field_address};
use crate::route::{
    all_routes_parse, first_failure, item_result, lemma_first_failure, line_result, table_result,
    tokens, RouteModel,
};

verus! {

/// A field of eight hex digits, the form the table writes addresses in.
pub open spec fn is_address_field(s: Seq<char>) -> bool {
    s.len() == 8 && all_hex(s)
}

/// A table made of a header that was read and one line whose first three tokens are an
/// interface name and two eight-digit hex fields parses into exactly one
/// route, whose interface is the line's first token and whose addresses are
/// the two fields decoded.
pub proof fn lemma_well_formed_line(header: Result<String, std::io::Error>, line: String)
    requires
        header is Ok,
        tokens(line@).len() >= 3,
        is_address_field(tokens(line@)[1]),
        is_address_field(tokens(line@)[2]),
    ensures
        line_result(line@) is Ok,
        line_result(line@)->Ok_0.iface == tokens(line@)[0],
        line_result(line@)->Ok_0.destination == field_address(tokens(line@)[1]),
        line_result(line@)->Ok_0.gateway == field_address(tokens(line@)[2]),
        table_result(seq![header, Ok(line)]) is Ok,
        table_result(seq![header, Ok(line)])->Ok_0.len() == 1,
        table_result(seq![header, Ok(line)])->Ok_0[0] == line_result(line@)->Ok_0,
{
    reveal(line_result);
    let ls = seq![header, Ok(line)];
    assert(ls[1] == Ok::<String, std::io::Error>(line));
    assert(all_routes_parse(ls));
}

/// Whether every line after the header parses depends on those lines alone.
proof fn lemma_same_body_parses(
    ls: Seq<Result<String, std::io::Error>>,
    ms: Seq<Result<String, std::io::Error>>,
)
    requires
        ls.len() == ms.len(),
        forall|k: int| 1 <= k < ls.len() ==> #[trigger] ms[k] == ls[k],
    ensures
        all_routes_parse(ms) == all_routes_parse(ls),
{
    if all_routes_parse(ls) {
        assert forall|k: int| 1 <= k < ms.len() implies (#[trigger] item_result(ms[k])) is Ok by {
            assert(ms[k] == ls[k]);
        }
    }
    if all_routes_parse(ms) {
        assert forall|k: int| 1 <= k < ls.len() implies (#[trigger] item_result(ls[k])) is Ok by {
            assert(ms[k] == ls[k]);
        }
    }
}

/// Tables whose header was read, that parse, and that agree after the
/// header give the same routes.
proof fn lemma_same_body_routes(
    ls: Seq<Result<String, std::io::Error>>,
    ms: Seq<Result<String, std::io::Error>>,
)
    requires
        ls.len() == ms.len(),
        ls.len() > 0,
        ls[0] is Ok,
        ms[0] is Ok,
        forall|k: int| 1 <= k < ls.len() ==> #[trigger] ms[k] == ls[k],
        all_routes_parse(ls),
        all_routes_parse(ms),
    ensures
        table_result(ms) == table_result(ls),
{
    let a = Seq::new((ls.len() - 1) as nat, |k: int| item_result(ls[k + 1])->Ok_0);
    let b = Seq::new((ms.len() - 1) as nat, |k: int| item_result(ms[k + 1])->Ok_0);
    assert forall|k: int| 0 <= k < a.len() implies #[trigger] a[k] == b[k] by {
        assert(ms[k + 1] == ls[k + 1]);
    }
    assert(a =~= b);
}

/// Tables that fail and agree after the header fail on the same line.
proof fn lemma_same_body_failure(
    ls: Seq<Result<String, std::io::Error>>,
    ms: Seq<Result<String, std::io::Error>>,
)
    requires
        ls.len() == ms.len(),
        forall|k: int| 1 <= k < ls.len() ==> #[trigger] ms[k] == ls[k],
        !all_routes_parse(ls),
        !all_routes_parse(ms),
    ensures
        first_failure(ms) == first_failure(ls),
{
    lemma_first_failure(ls);
    lemma_first_failure(ms);
    let p = first_failure(ls);
    let q = first_failure(ms);
    assert(ms[q] == ls[q]);
    assert(ms[p] == ls[p]);
    if q < p {
        assert(item_result(ls[q]) is Ok);
    } else if p < q {
        assert(item_result(ms[p]) is Ok);
    }
}

/// The text of the header line is never looked at: replacing it by any other
/// text leaves the result unchanged, and a table of `n + 1` lines that parses
/// gives exactly `n` routes.
pub proof fn lemma_header_ignored(
    ls: Seq<Result<String, std::io::Error>>,
    header: Result<String, std::io::Error>,
)
    requires
        ls.len() >= 1,
        ls[0] is Ok,
        header is Ok,
    ensures
        table_result(ls.update(0, header)) == table_result(ls),
        table_result(ls) is Ok ==> table_result(ls)->Ok_0.len() == ls.len() - 1,
{
    let ms = ls.update(0, header);
    assert forall|k: int| 1 <= k < ls.len() implies #[trigger] ms[k] == ls[k] by {}
    lemma_same_body_parses(ls, ms);
    if all_routes_parse(ls) {
        lemma_same_body_routes(ls, ms);
    } else {
        lemma_same_body_failure(ls, ms);
        lemma_first_failure(ls);
        let p = first_failure(ls);
        assert(ms[p] == ls[p]);
        assert(table_result(ms) == table_result(ls));
    }
}

/// Only the first three tokens of a line count: lines that agree on them,
/// whatever else they hold and however their tokens are spaced, give the
/// same result.
pub proof fn lemma_first_three_tokens(a: Seq<char>, b: Seq<char>)
    requires
        tokens(a).len() >= 3,
        tokens(b).len() >= 3,
        tokens(a).take(3) == tokens(b).take(3),
    ensures
        line_result(a) == line_result(b),
{
    reveal(line_result);
    assert(tokens(a)[0] == tokens(a).take(3)[0]);
    assert(tokens(b)[0] == tokens(b).take(3)[0]);
    assert(tokens(a)[1] == tokens(a).take(3)[1]);
    assert(tokens(b)[1] == tokens(b).take(3)[1]);
    assert(tokens(a)[2] == tokens(a).take(3)[2]);
    assert(tokens(b)[2] == tokens(b).take(3)[2]);
}

/// A line with fewer than three tokens fails with `BadInput`, whatever it holds.
pub proof fn lemma_short_line_fails(line: Seq<char>)
    requires
        tokens(line).len() < 3,
    ensures
        line_result(line) == Err::<RouteModel, RouteError>(RouteError::BadInput),
{
    reveal(line_result);
}

} // verus!
