//! Persistence codec: the full state as a character document, and back.
//!
//! The format writes numbers as decimal digits, least significant first,
//! ended by `;`; a string as its length followed by its characters; a list
//! as its count followed by its items; a struct field by field; an enum as
//! a small code. `serialize` emits exactly `ser_state` of the state's
//! view; `deserialize` accepts exactly the documents that parse to one
//! state with nothing left over, and fails with `CorruptState` otherwise.

use vstd::prelude::*;
use crate::model::BoltContext;
use crate::model::ColSelection;
use crate::model::Collection;
use crate::model::CollectionV;
use crate::model::Method;
use crate::model::Page;
use crate::model::Request;
use crate::model::RequestTab;
use crate::model::RequestV;
use crate::model::Response;
use crate::model::ResponseTab;
use crate::model::ResponseType;
use crate::model::ResponseV;
use crate::model::SaveState;
use crate::model::StateV;
use crate::model::pairs_view;
use crate::numerals::dec_digit;
use crate::reducer::numbered_request_v;
use crate::strings::chars_of;
use crate::strings::numbered_name;
use crate::strings::string_from_chars;

verus! {

/// Failure of the persistence codec: the document does not hold one state.
#[derive(Debug, Clone, Copy, PartialEq, Eq, Structural)]
pub enum StateError {
    CorruptState,
}

// ---------------------------------------------------------------- numbers

/// The decimal digits of `n`, least significant first.
pub open spec fn le_digits(n: nat) -> Seq<char>
    decreases n,
{
    if n < 10 {
        seq![dec_digit(n)]
    } else {
        seq![dec_digit(n % 10)] + le_digits(n / 10)
    }
}

/// A serialized number: its digits, least significant first, then `;`.
pub open spec fn ser_nat(n: nat) -> Seq<char> {
    le_digits(n) + seq![';']
}

pub open spec fn ser_bool(b: bool) -> Seq<char> {
    ser_nat(if b { 1nat } else { 0nat })
}

pub open spec fn page_code(p: Page) -> nat {
    match p {
        Page::Home => 0,
        Page::Collections => 1,
    }
}

pub open spec fn method_code(m: Method) -> nat {
    match m {
        Method::GET => 0,
        Method::POST => 1,
        Method::PUT => 2,
        Method::PATCH => 3,
        Method::DELETE => 4,
    }
}

pub open spec fn rtype_code(t: ResponseType) -> nat {
    match t {
        ResponseType::TEXT => 0,
        ResponseType::JSON => 1,
    }
}

pub open spec fn req_tab_code(t: RequestTab) -> nat {
    match t {
        RequestTab::Body => 0,
        RequestTab::Params => 1,
        RequestTab::Headers => 2,
    }
}

pub open spec fn resp_tab_code(t: ResponseTab) -> nat {
    match t {
        ResponseTab::Body => 0,
        ResponseTab::Headers => 1,
    }
}

// ---------------------------------------------------------------- values

/// A serialized string: its length, then its characters.
pub open spec fn ser_str(t: Seq<char>) -> Seq<char> {
    ser_nat(t.len()) + t
}

pub open spec fn ser_pair(p: (Seq<char>, Seq<char>)) -> Seq<char> {
    ser_str(p.0) + ser_str(p.1)
}

pub open spec fn ser_pairs_items(ps: Seq<(Seq<char>, Seq<char>)>) -> Seq<char>
    decreases ps.len(),
{
    if ps.len() == 0 {
        Seq::empty()
    } else {
        ser_pair(ps[0]) + ser_pairs_items(ps.drop_first())
    }
}

/// A serialized pair list: its count, then the pairs.
pub open spec fn ser_pairs(ps: Seq<(Seq<char>, Seq<char>)>) -> Seq<char> {
    ser_nat(ps.len()) + ser_pairs_items(ps)
}

pub open spec fn ser_response(r: ResponseV) -> Seq<char> {
    ser_nat(r.status as nat) + ser_str(r.body) + ser_pairs(r.headers) + ser_nat(r.time as nat)
        + ser_nat(r.size as nat) + ser_nat(rtype_code(r.response_type)) + ser_nat(
        r.request_index as nat,
    ) + ser_bool(r.failed)
}

pub open spec fn ser_request(r: RequestV) -> Seq<char> {
    ser_str(r.url) + ser_str(r.body) + ser_pairs(r.headers) + ser_pairs(r.params) + ser_nat(
        method_code(r.method),
    ) + ser_response(r.response) + ser_str(r.name) + ser_nat(req_tab_code(r.req_tab)) + ser_nat(
        resp_tab_code(r.resp_tab),
    )
}

pub open spec fn ser_reqs_items(rs: Seq<RequestV>) -> Seq<char>
    decreases rs.len(),
{
    if rs.len() == 0 {
        Seq::empty()
    } else {
        ser_request(rs[0]) + ser_reqs_items(rs.drop_first())
    }
}

pub open spec fn ser_requests(rs: Seq<RequestV>) -> Seq<char> {
    ser_nat(rs.len()) + ser_reqs_items(rs)
}

pub open spec fn ser_collection(c: CollectionV) -> Seq<char> {
    ser_str(c.name) + ser_requests(c.requests) + ser_bool(c.collapsed)
}

pub open spec fn ser_cols_items(cs: Seq<CollectionV>) -> Seq<char>
    decreases cs.len(),
{
    if cs.len() == 0 {
        Seq::empty()
    } else {
        ser_collection(cs[0]) + ser_cols_items(cs.drop_first())
    }
}

pub open spec fn ser_collections(cs: Seq<CollectionV>) -> Seq<char> {
    ser_nat(cs.len()) + ser_cols_items(cs)
}

/// The document of a full state: page, the two selections, the working
/// collection, the named collections.
pub open spec fn ser_state(s: StateV) -> Seq<char> {
    ser_nat(page_code(s.page)) + ser_nat(s.main_current as nat) + ser_nat(s.col_current.col as nat)
        + ser_nat(s.col_current.req as nat) + ser_collection(s.main_col) + ser_collections(
        s.collections,
    )
}

// ---------------------------------------------------------------- parsing

/// The suffix of `s` from position `k`.
pub open spec fn rest_of(s: Seq<char>, k: int) -> Seq<char>
    recommends
        0 <= k <= s.len(),
{
    s.subrange(k, s.len() as int)
}

pub open spec fn is_dec_digit(c: char) -> bool {
    c == '0' || c == '1' || c == '2' || c == '3' || c == '4' || c == '5' || c == '6' || c == '7'
        || c == '8' || c == '9'
}

pub open spec fn digit_val(c: char) -> nat
    recommends
        is_dec_digit(c),
{
    if c == '0' {
        0
    } else if c == '1' {
        1
    } else if c == '2' {
        2
    } else if c == '3' {
        3
    } else if c == '4' {
        4
    } else if c == '5' {
        5
    } else if c == '6' {
        6
    } else if c == '7' {
        7
    } else if c == '8' {
        8
    } else {
        9
    }
}

/// Parses a number: digits up to and including the `;`. Returns the value
/// and how many characters were consumed.
pub open spec fn parse_nat(s: Seq<char>) -> Option<(nat, int)>
    decreases s.len(),
{
    if s.len() == 0 {
        None
    } else if s[0] == ';' {
        Some((0nat, 1int))
    } else if is_dec_digit(s[0]) {
        match parse_nat(s.drop_first()) {
            Some((m, k)) => Some((digit_val(s[0]) + 10 * m, k + 1)),
            None => None,
        }
    } else {
        None
    }
}

/// Parses a number and requires it to fit the given bound.
pub open spec fn parse_bounded(s: Seq<char>, bound: nat) -> Option<(nat, int)> {
    match parse_nat(s) {
        Some((n, k)) => if n <= bound {
            Some((n, k))
        } else {
            None
        },
        None => None,
    }
}

pub open spec fn parse_bool(s: Seq<char>) -> Option<(bool, int)> {
    match parse_bounded(s, 1) {
        Some((n, k)) => Some((n == 1, k)),
        None => None,
    }
}

pub open spec fn parse_str(s: Seq<char>) -> Option<(Seq<char>, int)> {
    match parse_bounded(s, usize::MAX as nat) {
        Some((n, k)) => if k + n <= s.len() {
            Some((s.subrange(k, k + n), k + n))
        } else {
            None
        },
        None => None,
    }
}

pub open spec fn parse_pair(s: Seq<char>) -> Option<((Seq<char>, Seq<char>), int)> {
    match parse_str(s) {
        Some((a, k1)) => match parse_str(rest_of(s, k1)) {
            Some((b, k2)) => Some(((a, b), k1 + k2)),
            None => None,
        },
        None => None,
    }
}

pub open spec fn parse_pairs_items(s: Seq<char>, n: nat) -> Option<
    (Seq<(Seq<char>, Seq<char>)>, int),
>
    decreases n,
{
    if n == 0 {
        Some((Seq::empty(), 0int))
    } else {
        match parse_pair(s) {
            Some((p, k1)) => match parse_pairs_items(rest_of(s, k1), (n - 1) as nat) {
                Some((ps, k2)) => Some((seq![p] + ps, k1 + k2)),
                None => None,
            },
            None => None,
        }
    }
}

pub open spec fn parse_pairs(s: Seq<char>) -> Option<(Seq<(Seq<char>, Seq<char>)>, int)> {
    match parse_bounded(s, usize::MAX as nat) {
        Some((n, k)) => match parse_pairs_items(rest_of(s, k), n) {
            Some((ps, k2)) => Some((ps, k + k2)),
            None => None,
        },
        None => None,
    }
}

pub open spec fn page_of_code(n: nat) -> Option<Page> {
    if n == 0 {
        Some(Page::Home)
    } else if n == 1 {
        Some(Page::Collections)
    } else {
        None
    }
}

pub open spec fn method_of_code(n: nat) -> Option<Method> {
    if n == 0 {
        Some(Method::GET)
    } else if n == 1 {
        Some(Method::POST)
    } else if n == 2 {
        Some(Method::PUT)
    } else if n == 3 {
        Some(Method::PATCH)
    } else if n == 4 {
        Some(Method::DELETE)
    } else {
        None
    }
}

pub open spec fn rtype_of_code(n: nat) -> Option<ResponseType> {
    if n == 0 {
        Some(ResponseType::TEXT)
    } else if n == 1 {
        Some(ResponseType::JSON)
    } else {
        None
    }
}

pub open spec fn req_tab_of_code(n: nat) -> Option<RequestTab> {
    if n == 0 {
        Some(RequestTab::Body)
    } else if n == 1 {
        Some(RequestTab::Params)
    } else if n == 2 {
        Some(RequestTab::Headers)
    } else {
        None
    }
}

pub open spec fn resp_tab_of_code(n: nat) -> Option<ResponseTab> {
    if n == 0 {
        Some(ResponseTab::Body)
    } else if n == 1 {
        Some(ResponseTab::Headers)
    } else {
        None
    }
}

pub open spec fn parse_response(s: Seq<char>) -> Option<(ResponseV, int)> {
    match parse_bounded(s, u16::MAX as nat) {
        Some((status, k1)) => match parse_str(rest_of(s, k1)) {
            Some((body, k2)) => match parse_pairs(rest_of(s, k1 + k2)) {
                Some((headers, k3)) => match parse_bounded(rest_of(s, k1 + k2 + k3), u32::MAX as nat) {
                    Some((time, k4)) => match parse_bounded(
                        rest_of(s, k1 + k2 + k3 + k4),
                        u64::MAX as nat,
                    ) {
                        Some((size, k5)) => match parse_bounded(
                            rest_of(s, k1 + k2 + k3 + k4 + k5),
                            1,
                        ) {
                            Some((tcode, k6)) => match parse_bounded(
                                rest_of(s, k1 + k2 + k3 + k4 + k5 + k6),
                                usize::MAX as nat,
                            ) {
                                Some((ridx, k7)) => match parse_bool(
                                    rest_of(s, k1 + k2 + k3 + k4 + k5 + k6 + k7),
                                ) {
                                    Some((failed, k8)) => Some(
                                        (
                                            ResponseV {
                                                status: status as u16,
                                                body: body,
                                                headers: headers,
                                                time: time as u32,
                                                size: size as u64,
                                                response_type: rtype_of_code(tcode)->Some_0,
                                                request_index: ridx as usize,
                                                failed: failed,
                                            },
                                            k1 + k2 + k3 + k4 + k5 + k6 + k7 + k8,
                                        ),
                                    ),
                                    None => None,
                                },
                                None => None,
                            },
                            None => None,
                        },
                        None => None,
                    },
                    None => None,
                },
                None => None,
            },
            None => None,
        },
        None => None,
    }
}

pub open spec fn parse_request(s: Seq<char>) -> Option<(RequestV, int)> {
    match parse_str(s) {
        Some((url, k1)) => match parse_str(rest_of(s, k1)) {
            Some((body, k2)) => match parse_pairs(rest_of(s, k1 + k2)) {
                Some((headers, k3)) => match parse_pairs(rest_of(s, k1 + k2 + k3)) {
                    Some((params, k4)) => match parse_bounded(rest_of(s, k1 + k2 + k3 + k4), 4) {
                        Some((mcode, k5)) => match parse_response(
                            rest_of(s, k1 + k2 + k3 + k4 + k5),
                        ) {
                            Some((resp, k6)) => match parse_str(
                                rest_of(s, k1 + k2 + k3 + k4 + k5 + k6),
                            ) {
                                Some((name, k7)) => match parse_bounded(
                                    rest_of(s, k1 + k2 + k3 + k4 + k5 + k6 + k7),
                                    2,
                                ) {
                                    Some((rtcode, k8)) => match parse_bounded(
                                        rest_of(s, k1 + k2 + k3 + k4 + k5 + k6 + k7 + k8),
                                        1,
                                    ) {
                                        Some((ptcode, k9)) => Some(
                                            (
                                                RequestV {
                                                    url: url,
                                                    body: body,
                                                    headers: headers,
                                                    params: params,
                                                    method: method_of_code(mcode)->Some_0,
                                                    response: resp,
                                                    name: name,
                                                    req_tab: req_tab_of_code(rtcode)->Some_0,
                                                    resp_tab: resp_tab_of_code(ptcode)->Some_0,
                                                },
                                                k1 + k2 + k3 + k4 + k5 + k6 + k7 + k8 + k9,
                                            ),
                                        ),
                                        None => None,
                                    },
                                    None => None,
                                },
                                None => None,
                            },
                            None => None,
                        },
                        None => None,
                    },
                    None => None,
                },
                None => None,
            },
            None => None,
        },
        None => None,
    }
}

pub open spec fn parse_reqs_items(s: Seq<char>, n: nat) -> Option<(Seq<RequestV>, int)>
    decreases n,
{
    if n == 0 {
        Some((Seq::empty(), 0int))
    } else {
        match parse_request(s) {
            Some((r, k1)) => match parse_reqs_items(rest_of(s, k1), (n - 1) as nat) {
                Some((rs, k2)) => Some((seq![r] + rs, k1 + k2)),
                None => None,
            },
            None => None,
        }
    }
}

pub open spec fn parse_requests(s: Seq<char>) -> Option<(Seq<RequestV>, int)> {
    match parse_bounded(s, usize::MAX as nat) {
        Some((n, k)) => match parse_reqs_items(rest_of(s, k), n) {
            Some((rs, k2)) => Some((rs, k + k2)),
            None => None,
        },
        None => None,
    }
}

pub open spec fn parse_collection(s: Seq<char>) -> Option<(CollectionV, int)> {
    match parse_str(s) {
        Some((name, k1)) => match parse_requests(rest_of(s, k1)) {
            Some((rs, k2)) => match parse_bool(rest_of(s, k1 + k2)) {
                Some((collapsed, k3)) => Some(
                    (CollectionV { name: name, requests: rs, collapsed: collapsed }, k1 + k2 + k3),
                ),
                None => None,
            },
            None => None,
        },
        None => None,
    }
}

pub open spec fn parse_cols_items(s: Seq<char>, n: nat) -> Option<(Seq<CollectionV>, int)>
    decreases n,
{
    if n == 0 {
        Some((Seq::empty(), 0int))
    } else {
        match parse_collection(s) {
            Some((c, k1)) => match parse_cols_items(rest_of(s, k1), (n - 1) as nat) {
                Some((cs, k2)) => Some((seq![c] + cs, k1 + k2)),
                None => None,
            },
            None => None,
        }
    }
}

pub open spec fn parse_collections(s: Seq<char>) -> Option<(Seq<CollectionV>, int)> {
    match parse_bounded(s, usize::MAX as nat) {
        Some((n, k)) => match parse_cols_items(rest_of(s, k), n) {
            Some((cs, k2)) => Some((cs, k + k2)),
            None => None,
        },
        None => None,
    }
}

pub open spec fn parse_state(s: Seq<char>) -> Option<(StateV, int)> {
    match parse_bounded(s, 1) {
        Some((pcode, k1)) => match parse_bounded(rest_of(s, k1), usize::MAX as nat) {
            Some((mc, k2)) => match parse_bounded(rest_of(s, k1 + k2), usize::MAX as nat) {
                Some((cc, k3)) => match parse_bounded(
                    rest_of(s, k1 + k2 + k3),
                    usize::MAX as nat,
                ) {
                    Some((cr, k4)) => match parse_collection(rest_of(s, k1 + k2 + k3 + k4)) {
                        Some((main_col, k5)) => match parse_collections(
                            rest_of(s, k1 + k2 + k3 + k4 + k5),
                        ) {
                            Some((cols, k6)) => Some(
                                (
                                    StateV {
                                        page: page_of_code(pcode)->Some_0,
                                        main_current: mc as usize,
                                        col_current: ColSelection {
                                            col: cc as usize,
                                            req: cr as usize,
                                        },
                                        main_col: main_col,
                                        collections: cols,
                                    },
                                    k1 + k2 + k3 + k4 + k5 + k6,
                                ),
                            ),
                            None => None,
                        },
                        None => None,
                    },
                    None => None,
                },
                None => None,
            },
            None => None,
        },
        None => None,
    }
}

/// What a whole document means: one state, with nothing left over.
pub open spec fn deser_spec(s: Seq<char>) -> Option<StateV> {
    match parse_state(s) {
        Some((v, k)) => if k == s.len() {
            Some(v)
        } else {
            None
        },
        None => None,
    }
}

// ---------------------------------------------------------------- emit

fn push_le_digits(out: &mut Vec<char>, n: u64)
    ensures
        final(out)@ == old(out)@ + le_digits(n as nat),
    decreases n,
{
    if n < 10 {
        out.push(crate::numerals::dec_digit_exec(n));
        assert(out@ =~= old(out)@ + le_digits(n as nat));
    } else {
        proof {
            vstd::arithmetic::div_mod::lemma_fundamental_div_mod(n as int, 10);
        }
        out.push(crate::numerals::dec_digit_exec(n % 10));
        push_le_digits(out, n / 10);
        assert(out@ =~= old(out)@ + le_digits(n as nat));
    }
}

fn emit_nat(out: &mut Vec<char>, n: u64)
    ensures
        final(out)@ == old(out)@ + ser_nat(n as nat),
{
    push_le_digits(out, n);
    out.push(';');
    assert(out@ =~= old(out)@ + ser_nat(n as nat));
}

fn emit_bool(out: &mut Vec<char>, b: bool)
    ensures
        final(out)@ == old(out)@ + ser_bool(b),
{
    emit_nat(out, if b { 1 } else { 0 });
}

fn emit_str(out: &mut Vec<char>, s: &String)
    ensures
        final(out)@ == old(out)@ + ser_str(s@),
{
    let mut cs = chars_of(s.as_str());
    emit_nat(out, cs.len() as u64);
    out.append(&mut cs);
    assert(out@ =~= old(out)@ + ser_str(s@));
}

fn emit_pairs(out: &mut Vec<char>, v: &Vec<(String, String)>)
    ensures
        final(out)@ == old(out)@ + ser_pairs(pairs_view(v@)),
{
    let ghost ps = pairs_view(v@);
    emit_nat(out, v.len() as u64);
    let ghost out1 = out@;
    let mut i: usize = 0;
    proof {
        assert(ser_pairs_items(ps.take(0)) =~= Seq::<char>::empty());
        assert(out@ =~= out1 + ser_pairs_items(ps.take(0)));
    }
    while i < v.len()
        invariant
            i <= v.len(),
            ps == pairs_view(v@),
            out@ == out1 + ser_pairs_items(ps.take(i as int)),
        decreases v.len() - i,
    {
        emit_str(out, &v[i].0);
        emit_str(out, &v[i].1);
        proof {
            lemma_ser_pairs_items_push(ps.take(i as int), ps[i as int]);
            assert(ps.take(i + 1) =~= ps.take(i as int).push(ps[i as int]));
            assert(ps[i as int] == (v@[i as int].0@, v@[i as int].1@));
            assert(out@ =~= out1 + ser_pairs_items(ps.take(i + 1)));
        }
        i = i + 1;
    }
    proof {
        assert(ps.take(v@.len() as int) =~= ps);
        assert(out@ =~= old(out)@ + ser_pairs(ps));
    }
}

proof fn lemma_ser_pairs_items_push(ps: Seq<(Seq<char>, Seq<char>)>, p: (Seq<char>, Seq<char>))
    ensures
        ser_pairs_items(ps.push(p)) == ser_pairs_items(ps) + ser_pair(p),
    decreases ps.len(),
{
    if ps.len() == 0 {
        assert(ps.push(p)[0] == p);
        assert(ps.push(p).drop_first() =~= Seq::<(Seq<char>, Seq<char>)>::empty());
        assert(ser_pairs_items(Seq::<(Seq<char>, Seq<char>)>::empty()) == Seq::<char>::empty());
        assert(ser_pairs_items(ps.push(p)) == ser_pair(p) + ser_pairs_items(
            Seq::<(Seq<char>, Seq<char>)>::empty(),
        ));
        assert(ser_pairs_items(ps.push(p)) =~= ser_pairs_items(ps) + ser_pair(p));
    } else {
        assert(ps.push(p)[0] == ps[0]);
        lemma_ser_pairs_items_push(ps.drop_first(), p);
        assert(ps.push(p).drop_first() =~= ps.drop_first().push(p));
        assert(ser_pairs_items(ps.push(p)) =~= ser_pairs_items(ps) + ser_pair(p));
    }
}

fn emit_response(out: &mut Vec<char>, r: &Response)
    ensures
        final(out)@ == old(out)@ + ser_response(r@),
{
    emit_nat(out, r.status as u64);
    emit_str(out, &r.body);
    emit_pairs(out, &r.headers);
    emit_nat(out, r.time as u64);
    emit_nat(out, r.size);
    emit_nat(out, if r.response_type == ResponseType::JSON { 1 } else { 0 });
    emit_nat(out, r.request_index as u64);
    emit_bool(out, r.failed);
    assert(out@ =~= old(out)@ + ser_response(r@));
}

#[verifier::rlimit(100)]
fn emit_request(out: &mut Vec<char>, r: &Request)
    ensures
        final(out)@ == old(out)@ + ser_request(r@),
{
    emit_str(out, &r.url);
    emit_str(out, &r.body);
    emit_pairs(out, &r.headers);
    emit_pairs(out, &r.params);
    emit_nat(
        out,
        match r.method {
            Method::GET => 0,
            Method::POST => 1,
            Method::PUT => 2,
            Method::PATCH => 3,
            Method::DELETE => 4,
        },
    );
    emit_response(out, &r.response);
    emit_str(out, &r.name);
    emit_nat(
        out,
        match r.req_tab {
            RequestTab::Body => 0,
            RequestTab::Params => 1,
            RequestTab::Headers => 2,
        },
    );
    emit_nat(
        out,
        match r.resp_tab {
            ResponseTab::Body => 0,
            ResponseTab::Headers => 1,
        },
    );
    assert(out@ =~= old(out)@ + ser_request(r@));
}

#[verifier::rlimit(100)]
proof fn lemma_ser_reqs_items_push(rs: Seq<RequestV>, r: RequestV)
    ensures
        ser_reqs_items(rs.push(r)) == ser_reqs_items(rs) + ser_request(r),
    decreases rs.len(),
{
    if rs.len() == 0 {
        assert(rs.push(r)[0] == r);
        assert(rs.push(r).drop_first() =~= Seq::<RequestV>::empty());
        assert(ser_reqs_items(Seq::<RequestV>::empty()) == Seq::<char>::empty());
        assert(ser_reqs_items(rs.push(r)) == ser_request(r) + ser_reqs_items(
            Seq::<RequestV>::empty(),
        ));
        assert(ser_reqs_items(rs.push(r)) =~= ser_reqs_items(rs) + ser_request(r));
    } else {
        assert(rs.push(r)[0] == rs[0]);
        lemma_ser_reqs_items_push(rs.drop_first(), r);
        assert(rs.push(r).drop_first() =~= rs.drop_first().push(r));
        assert(ser_reqs_items(rs.push(r)) =~= ser_reqs_items(rs) + ser_request(r));
    }
}

fn emit_collection(out: &mut Vec<char>, c: &Collection)
    ensures
        final(out)@ == old(out)@ + ser_collection(c@),
{
    emit_str(out, &c.name);
    let ghost rs = c@.requests;
    emit_nat(out, c.requests.len() as u64);
    let ghost out1 = out@;
    let mut i: usize = 0;
    proof {
        assert(ser_reqs_items(rs.take(0)) =~= Seq::<char>::empty());
        assert(out@ =~= out1 + ser_reqs_items(rs.take(0)));
    }
    while i < c.requests.len()
        invariant
            i <= c.requests.len(),
            rs == c@.requests,
            out@ == out1 + ser_reqs_items(rs.take(i as int)),
        decreases c.requests.len() - i,
    {
        emit_request(out, &c.requests[i]);
        proof {
            lemma_ser_reqs_items_push(rs.take(i as int), rs[i as int]);
            assert(rs.take(i + 1) =~= rs.take(i as int).push(rs[i as int]));
            assert(rs[i as int] == c.requests@[i as int]@);
            assert(out@ =~= out1 + ser_reqs_items(rs.take(i + 1)));
        }
        i = i + 1;
    }
    emit_bool(out, c.collapsed);
    proof {
        assert(rs.take(c.requests@.len() as int) =~= rs);
        assert(out@ =~= old(out)@ + ser_collection(c@));
    }
}

#[verifier::rlimit(100)]
proof fn lemma_ser_cols_items_push(cs: Seq<CollectionV>, c: CollectionV)
    ensures
        ser_cols_items(cs.push(c)) == ser_cols_items(cs) + ser_collection(c),
    decreases cs.len(),
{
    if cs.len() == 0 {
        assert(cs.push(c)[0] == c);
        assert(cs.push(c).drop_first() =~= Seq::<CollectionV>::empty());
        assert(ser_cols_items(Seq::<CollectionV>::empty()) == Seq::<char>::empty());
        assert(ser_cols_items(cs.push(c)) == ser_collection(c) + ser_cols_items(
            Seq::<CollectionV>::empty(),
        ));
        assert(ser_cols_items(cs.push(c)) =~= ser_cols_items(cs) + ser_collection(c));
    } else {
        assert(cs.push(c)[0] == cs[0]);
        lemma_ser_cols_items_push(cs.drop_first(), c);
        assert(cs.push(c).drop_first() =~= cs.drop_first().push(c));
        assert(ser_cols_items(cs.push(c)) =~= ser_cols_items(cs) + ser_collection(c));
    }
}

/// Writes the whole state as a character document: exactly `ser_state` of
/// its view.
pub fn serialize(s: &SaveState) -> (out: Vec<char>)
    ensures
        out@ == ser_state(s@),
{
    let mut out: Vec<char> = Vec::new();
    emit_nat(&mut out, if s.page == Page::Collections { 1 } else { 0 });
    emit_nat(&mut out, s.main_current as u64);
    emit_nat(&mut out, s.col_current.col as u64);
    emit_nat(&mut out, s.col_current.req as u64);
    emit_collection(&mut out, &s.main_col);
    let ghost cs = s@.collections;
    emit_nat(&mut out, s.collections.len() as u64);
    let ghost out1 = out@;
    let mut i: usize = 0;
    proof {
        assert(ser_cols_items(cs.take(0)) =~= Seq::<char>::empty());
        assert(out@ =~= out1 + ser_cols_items(cs.take(0)));
    }
    while i < s.collections.len()
        invariant
            i <= s.collections.len(),
            cs == s@.collections,
            out@ == out1 + ser_cols_items(cs.take(i as int)),
        decreases s.collections.len() - i,
    {
        emit_collection(&mut out, &s.collections[i]);
        proof {
            lemma_ser_cols_items_push(cs.take(i as int), cs[i as int]);
            assert(cs.take(i + 1) =~= cs.take(i as int).push(cs[i as int]));
            assert(cs[i as int] == s.collections@[i as int]@);
            assert(out@ =~= out1 + ser_cols_items(cs.take(i + 1)));
        }
        i = i + 1;
    }
    proof {
        assert(cs.take(s.collections@.len() as int) =~= cs);
        assert(out@ =~= ser_state(s@));
    }
    out
}


// ---------------------------------------------------------------- parse, executable

proof fn lemma_rest_rest(s: Seq<char>, a: int, b: int)
    requires
        0 <= a,
        0 <= b,
        a + b <= s.len(),
    ensures
        rest_of(rest_of(s, a), b) == rest_of(s, a + b),
{
    assert(rest_of(rest_of(s, a), b) =~= rest_of(s, a + b));
}

fn digit_val_exec(c: char) -> (r: Option<u64>)
    ensures
        (match r {
            Some(d) => is_dec_digit(c) && d < 10 && d as nat == digit_val(c),
            None => !is_dec_digit(c),
        }),
{
    if c == '0' {
        Some(0)
    } else if c == '1' {
        Some(1)
    } else if c == '2' {
        Some(2)
    } else if c == '3' {
        Some(3)
    } else if c == '4' {
        Some(4)
    } else if c == '5' {
        Some(5)
    } else if c == '6' {
        Some(6)
    } else if c == '7' {
        Some(7)
    } else if c == '8' {
        Some(8)
    } else if c == '9' {
        Some(9)
    } else {
        None
    }
}

#[verifier::rlimit(100)]
fn parse_nat_exec(v: &Vec<char>, i: usize) -> (r: Option<(u64, usize)>)
    requires
        i <= v@.len(),
    ensures
        (match r {
            Some((n, j)) => i < j <= v@.len() && parse_bounded(
                rest_of(v@, i as int),
                u64::MAX as nat,
            ) == Some((n as nat, (j - i) as int)),
            None => parse_bounded(rest_of(v@, i as int), u64::MAX as nat) is None,
        }),
    decreases v@.len() - i,
{
    let ghost s = rest_of(v@, i as int);
    if i >= v.len() {
        proof {
            assert(s.len() == 0);
        }
        return None;
    }
    let c = v[i];
    proof {
        assert(s[0] == v@[i as int]);
    }
    if c == ';' {
        proof {
            assert(parse_nat(s) == Some((0nat, 1int)));
        }
        Some((0, i + 1))
    } else {
        match digit_val_exec(c) {
            Some(d) => {
                proof {
                    assert(s.drop_first() =~= rest_of(v@, i + 1));
                }
                match parse_nat_exec(v, i + 1) {
                    Some((m, j)) => {
                        proof {
                            vstd::arithmetic::div_mod::lemma_fundamental_div_mod(
                                (u64::MAX - d) as int,
                                10,
                            );
                        }
                        if m <= (u64::MAX - d) / 10 {
                            proof {
                                assert(d + 10 * (m as nat) <= u64::MAX as nat);
                            }
                            Some((d + 10 * m, j))
                        } else {
                            proof {
                                assert(10 * (m as nat) >= 10 * (((u64::MAX - d) / 10) as nat
                                    + 1)) by (nonlinear_arith)
                                    requires
                                        m as nat >= ((u64::MAX - d) / 10) as nat + 1,
                                ;
                                assert(d + 10 * (m as nat) > u64::MAX as nat);
                            }
                            None
                        }
                    },
                    None => {
                        proof {
                            if parse_nat(s.drop_first()) is Some {
                                let (mn, _mk) = parse_nat(s.drop_first())->Some_0;
                                assert(mn > u64::MAX as nat);
                                assert(10 * mn >= mn) by (nonlinear_arith)
                                    requires
                                        mn >= 0,
                                ;
                            }
                        }
                        None
                    },
                }
            },
            None => {
                None
            },
        }
    }
}

fn parse_bounded_exec(v: &Vec<char>, i: usize, bound: u64) -> (r: Option<(u64, usize)>)
    requires
        i <= v@.len(),
    ensures
        (match r {
            Some((n, j)) => i < j <= v@.len() && n <= bound && parse_bounded(
                rest_of(v@, i as int),
                bound as nat,
            ) == Some((n as nat, (j - i) as int)),
            None => parse_bounded(rest_of(v@, i as int), bound as nat) is None,
        }),
{
    match parse_nat_exec(v, i) {
        Some((n, j)) => {
            if n <= bound {
                Some((n, j))
            } else {
                None
            }
        },
        None => None,
    }
}

fn parse_bool_exec(v: &Vec<char>, i: usize) -> (r: Option<(bool, usize)>)
    requires
        i <= v@.len(),
    ensures
        (match r {
            Some((b, j)) => i < j <= v@.len() && parse_bool(rest_of(v@, i as int)) == Some(
                (b, (j - i) as int),
            ),
            None => parse_bool(rest_of(v@, i as int)) is None,
        }),
{
    match parse_bounded_exec(v, i, 1) {
        Some((n, j)) => Some((n == 1, j)),
        None => None,
    }
}

#[verifier::rlimit(100)]
fn parse_str_exec(v: &Vec<char>, i: usize) -> (r: Option<(String, usize)>)
    requires
        i <= v@.len(),
    ensures
        (match r {
            Some((t, j)) => i <= j <= v@.len() && parse_str(rest_of(v@, i as int)) == Some(
                (t@, (j - i) as int),
            ),
            None => parse_str(rest_of(v@, i as int)) is None,
        }),
{
    let ghost s = rest_of(v@, i as int);
    match parse_bounded_exec(v, i, usize::MAX as u64) {
        Some((n, j)) => {
            let nu = n as usize;
            if nu <= v.len() - j {
                let mut cs: Vec<char> = Vec::new();
                let mut t: usize = 0;
                while t < nu
                    invariant
                        t <= nu,
                        j + nu <= v@.len(),
                        v@.len() <= usize::MAX,
                        cs@ == v@.subrange(j as int, j + t),
                    decreases nu - t,
                {
                    cs.push(v[j + t]);
                    t = t + 1;
                    proof {
                        assert(cs@ =~= v@.subrange(j as int, j + t));
                    }
                }
                let st = string_from_chars(&cs);
                proof {
                    assert(s.subrange((j - i) as int, (j - i) + n) =~= v@.subrange(
                        j as int,
                        j + n,
                    ));
                }
                Some((st, j + nu))
            } else {
                None
            }
        },
        None => None,
    }
}

fn parse_pair_exec(v: &Vec<char>, i: usize) -> (r: Option<((String, String), usize)>)
    requires
        i <= v@.len(),
    ensures
        (match r {
            Some((p, j)) => i <= j <= v@.len() && parse_pair(rest_of(v@, i as int)) == Some(
                ((p.0@, p.1@), (j - i) as int),
            ),
            None => parse_pair(rest_of(v@, i as int)) is None,
        }),
{
    match parse_str_exec(v, i) {
        Some((a, j1)) => {
            proof {
                lemma_rest_rest(v@, i as int, (j1 - i) as int);
            }
            match parse_str_exec(v, j1) {
                Some((b, j2)) => Some(((a, b), j2)),
                None => None,
            }
        },
        None => None,
    }
}

#[verifier::rlimit(100)]
fn parse_pairs_items_exec(v: &Vec<char>, i: usize, n: u64) -> (r: Option<
    (Vec<(String, String)>, usize),
>)
    requires
        i <= v@.len(),
    ensures
        (match r {
            Some((ps, j)) => i <= j <= v@.len() && parse_pairs_items(
                rest_of(v@, i as int),
                n as nat,
            ) == Some((pairs_view(ps@), (j - i) as int)),
            None => parse_pairs_items(rest_of(v@, i as int), n as nat) is None,
        }),
    decreases n,
{
    if n == 0 {
        let empty: Vec<(String, String)> = Vec::new();
        proof {
            assert(pairs_view(empty@) =~= Seq::<(Seq<char>, Seq<char>)>::empty());
        }
        Some((empty, i))
    } else {
        match parse_pair_exec(v, i) {
            Some((p, j1)) => {
                proof {
                    lemma_rest_rest(v@, i as int, (j1 - i) as int);
                }
                match parse_pairs_items_exec(v, j1, n - 1) {
                    Some((tail, j2)) => {
                        let ghost tail0 = tail@;
                        let ghost p0 = p.0@;
                        let ghost p1 = p.1@;
                        let mut out = tail;
                        out.insert(0, p);
                        proof {
                            assert(pairs_view(out@) =~= seq![(p0, p1)] + pairs_view(tail0));
                        }
                        Some((out, j2))
                    },
                    None => None,
                }
            },
            None => None,
        }
    }
}

fn parse_pairs_exec(v: &Vec<char>, i: usize) -> (r: Option<(Vec<(String, String)>, usize)>)
    requires
        i <= v@.len(),
    ensures
        (match r {
            Some((ps, j)) => i <= j <= v@.len() && parse_pairs(rest_of(v@, i as int)) == Some(
                (pairs_view(ps@), (j - i) as int),
            ),
            None => parse_pairs(rest_of(v@, i as int)) is None,
        }),
{
    match parse_bounded_exec(v, i, usize::MAX as u64) {
        Some((n, j1)) => {
            proof {
                lemma_rest_rest(v@, i as int, (j1 - i) as int);
            }
            match parse_pairs_items_exec(v, j1, n) {
                Some((ps, j2)) => Some((ps, j2)),
                None => None,
            }
        },
        None => None,
    }
}

#[verifier::rlimit(100)]
fn parse_response_exec(v: &Vec<char>, i: usize) -> (r: Option<(Response, usize)>)
    requires
        i <= v@.len(),
    ensures
        (match r {
            Some((resp, j)) => i <= j <= v@.len() && parse_response(rest_of(v@, i as int))
                == Some((resp@, (j - i) as int)),
            None => parse_response(rest_of(v@, i as int)) is None,
        }),
{
    let ghost s = rest_of(v@, i as int);
    match parse_bounded_exec(v, i, u16::MAX as u64) {
        Some((status, j1)) => {
            proof {
                lemma_rest_rest(v@, i as int, (j1 - i) as int);
            }
            match parse_str_exec(v, j1) {
                Some((body, j2)) => {
                    proof {
                        lemma_rest_rest(v@, i as int, (j2 - i) as int);
                    }
                    match parse_pairs_exec(v, j2) {
                        Some((headers, j3)) => {
                            proof {
                                lemma_rest_rest(v@, i as int, (j3 - i) as int);
                            }
                            match parse_bounded_exec(v, j3, u32::MAX as u64) {
                                Some((time, j4)) => {
                                    proof {
                                        lemma_rest_rest(v@, i as int, (j4 - i) as int);
                                    }
                                    match parse_bounded_exec(v, j4, u64::MAX) {
                                        Some((size, j5)) => {
                                            proof {
                                                lemma_rest_rest(v@, i as int, (j5 - i) as int);
                                            }
                                            match parse_bounded_exec(v, j5, 1) {
                                                Some((tcode, j6)) => {
                                                    proof {
                                                        lemma_rest_rest(
                                                            v@,
                                                            i as int,
                                                            (j6 - i) as int,
                                                        );
                                                    }
                                                    match parse_bounded_exec(
                                                        v,
                                                        j6,
                                                        usize::MAX as u64,
                                                    ) {
                                                        Some((ridx, j7)) => {
                                                            proof {
                                                                lemma_rest_rest(
                                                                    v@,
                                                                    i as int,
                                                                    (j7 - i) as int,
                                                                );
                                                            }
                                                            match parse_bool_exec(v, j7) {
                                                                Some((failed, j8)) => {
                                                                    let resp = Response {
                                                                        status: status as u16,
                                                                        body: body,
                                                                        headers: headers,
                                                                        time: time as u32,
                                                                        size: size,
                                                                        response_type: (if tcode
                                                                            == 1 {
                                                                            ResponseType::JSON
                                                                        } else {
                                                                            ResponseType::TEXT
                                                                        }),
                                                                        request_index: (
                                                                        ridx as usize),
                                                                        failed: failed,
                                                                    };
                                                                    proof {
                                                                        assert(resp@
                                                                            =~~= parse_response(
                                                                            s,
                                                                        )->Some_0.0);
                                                                    }
                                                                    Some((resp, j8))
                                                                },
                                                                None => None,
                                                            }
                                                        },
                                                        None => None,
                                                    }
                                                },
                                                None => None,
                                            }
                                        },
                                        None => None,
                                    }
                                },
                                None => None,
                            }
                        },
                        None => None,
                    }
                },
                None => None,
            }
        },
        None => None,
    }
}


#[verifier::rlimit(100)]
fn parse_request_exec(v: &Vec<char>, i: usize) -> (r: Option<(Request, usize)>)
    requires
        i <= v@.len(),
    ensures
        (match r {
            Some((rq, j)) => i <= j <= v@.len() && parse_request(rest_of(v@, i as int)) == Some(
                (rq@, (j - i) as int),
            ),
            None => parse_request(rest_of(v@, i as int)) is None,
        }),
{
    let ghost s = rest_of(v@, i as int);
    match parse_str_exec(v, i) {
        Some((url, j1)) => {
            proof {
                lemma_rest_rest(v@, i as int, (j1 - i) as int);
            }
            match parse_str_exec(v, j1) {
                Some((body, j2)) => {
                    proof {
                        lemma_rest_rest(v@, i as int, (j2 - i) as int);
                    }
                    match parse_pairs_exec(v, j2) {
                        Some((headers, j3)) => {
                            proof {
                                lemma_rest_rest(v@, i as int, (j3 - i) as int);
                            }
                            match parse_pairs_exec(v, j3) {
                                Some((params, j4)) => {
                                    proof {
                                        lemma_rest_rest(v@, i as int, (j4 - i) as int);
                                    }
                                    match parse_bounded_exec(v, j4, 4) {
                                        Some((mcode, j5)) => {
                                            proof {
                                                lemma_rest_rest(v@, i as int, (j5 - i) as int);
                                            }
                                            match parse_response_exec(v, j5) {
                                                Some((resp, j6)) => {
                                                    proof {
                                                        lemma_rest_rest(
                                                            v@,
                                                            i as int,
                                                            (j6 - i) as int,
                                                        );
                                                    }
                                                    match parse_str_exec(v, j6) {
                                                        Some((name, j7)) => {
                                                            proof {
                                                                lemma_rest_rest(
                                                                    v@,
                                                                    i as int,
                                                                    (j7 - i) as int,
                                                                );
                                                            }
                                                            match parse_bounded_exec(v, j7, 2) {
                                                                Some((rtcode, j8)) => {
                                                                    proof {
                                                                        lemma_rest_rest(
                                                                            v@,
                                                                            i as int,
                                                                            (j8 - i) as int,
                                                                        );
                                                                    }
                                                                    match parse_bounded_exec(
                                                                        v,
                                                                        j8,
                                                                        1,
                                                                    ) {
                                                                        Some((ptcode, j9)) => {
                                                                            let rq = Request {
                                                                                url: url,
                                                                                body: body,
                                                                                headers: headers,
                                                                                params: params,
                                                                                method: (
                                                                                if mcode == 0 {
                                                                                    Method::GET
                                                                                } else if mcode
                                                                                    == 1 {
                                                                                    Method::POST
                                                                                } else if mcode
                                                                                    == 2 {
                                                                                    Method::PUT
                                                                                } else if mcode
                                                                                    == 3 {
                                                                                    Method::PATCH
                                                                                } else {
                                                                                    Method::DELETE
                                                                                }),
                                                                                response: resp,
                                                                                name: name,
                                                                                req_tab: (
                                                                                if rtcode == 0 {
                                                                                    RequestTab::Body
                                                                                } else if rtcode
                                                                                    == 1 {
                                                                                    RequestTab::Params
                                                                                } else {
                                                                                    RequestTab::Headers
                                                                                }),
                                                                                resp_tab: (
                                                                                if ptcode == 0 {
                                                                                    ResponseTab::Body
                                                                                } else {
                                                                                    ResponseTab::Headers
                                                                                }),
                                                                            };
                                                                            proof {
                                                                                assert(rq@
                                                                                    =~~= parse_request(
                                                                                    s,
                                                                                )->Some_0.0);
                                                                            }
                                                                            Some((rq, j9))
                                                                        },
                                                                        None => None,
                                                                    }
                                                                },
                                                                None => None,
                                                            }
                                                        },
                                                        None => None,
                                                    }
                                                },
                                                None => None,
                                            }
                                        },
                                        None => None,
                                    }
                                },
                                None => None,
                            }
                        },
                        None => None,
                    }
                },
                None => None,
            }
        },
        None => None,
    }
}

#[verifier::rlimit(100)]
fn parse_reqs_items_exec(v: &Vec<char>, i: usize, n: u64) -> (r: Option<(Vec<Request>, usize)>)
    requires
        i <= v@.len(),
    ensures
        (match r {
            Some((rs, j)) => i <= j <= v@.len() && parse_reqs_items(
                rest_of(v@, i as int),
                n as nat,
            ) == Some((rs@.map_values(|q: Request| q@), (j - i) as int)),
            None => parse_reqs_items(rest_of(v@, i as int), n as nat) is None,
        }),
    decreases n,
{
    if n == 0 {
        let empty: Vec<Request> = Vec::new();
        proof {
            assert(empty@.map_values(|q: Request| q@) =~= Seq::<RequestV>::empty());
        }
        Some((empty, i))
    } else {
        match parse_request_exec(v, i) {
            Some((rq, j1)) => {
                proof {
                    lemma_rest_rest(v@, i as int, (j1 - i) as int);
                }
                match parse_reqs_items_exec(v, j1, n - 1) {
                    Some((tail, j2)) => {
                        let ghost tail0 = tail@;
                        let ghost rq0 = rq@;
                        let mut out = tail;
                        out.insert(0, rq);
                        proof {
                            assert(out@.map_values(|q: Request| q@) =~= seq![rq0]
                                + tail0.map_values(|q: Request| q@));
                        }
                        Some((out, j2))
                    },
                    None => None,
                }
            },
            None => None,
        }
    }
}

#[verifier::rlimit(100)]
fn parse_collection_exec(v: &Vec<char>, i: usize) -> (r: Option<(Collection, usize)>)
    requires
        i <= v@.len(),
    ensures
        (match r {
            Some((c, j)) => i <= j <= v@.len() && parse_collection(rest_of(v@, i as int))
                == Some((c@, (j - i) as int)),
            None => parse_collection(rest_of(v@, i as int)) is None,
        }),
{
    let ghost s = rest_of(v@, i as int);
    match parse_str_exec(v, i) {
        Some((name, j1)) => {
            proof {
                lemma_rest_rest(v@, i as int, (j1 - i) as int);
            }
            match parse_bounded_exec(v, j1, usize::MAX as u64) {
                Some((n, j2)) => {
                    proof {
                        lemma_rest_rest(v@, i as int, (j2 - i) as int);
                        lemma_rest_rest(v@, j1 as int, (j2 - j1) as int);
                    }
                    match parse_reqs_items_exec(v, j2, n) {
                        Some((rs, j3)) => {
                            proof {
                                lemma_rest_rest(v@, i as int, (j3 - i) as int);
                            }
                            match parse_bool_exec(v, j3) {
                                Some((collapsed, j4)) => {
                                    let c = Collection {
                                        name: name,
                                        requests: rs,
                                        collapsed: collapsed,
                                    };
                                    proof {
                                        assert(c@ =~~= parse_collection(s)->Some_0.0);
                                    }
                                    Some((c, j4))
                                },
                                None => None,
                            }
                        },
                        None => None,
                    }
                },
                None => None,
            }
        },
        None => None,
    }
}

#[verifier::rlimit(100)]
fn parse_cols_items_exec(v: &Vec<char>, i: usize, n: u64) -> (r: Option<(Vec<Collection>, usize)>)
    requires
        i <= v@.len(),
    ensures
        (match r {
            Some((cs, j)) => i <= j <= v@.len() && parse_cols_items(
                rest_of(v@, i as int),
                n as nat,
            ) == Some((cs@.map_values(|c: Collection| c@), (j - i) as int)),
            None => parse_cols_items(rest_of(v@, i as int), n as nat) is None,
        }),
    decreases n,
{
    if n == 0 {
        let empty: Vec<Collection> = Vec::new();
        proof {
            assert(empty@.map_values(|c: Collection| c@) =~= Seq::<CollectionV>::empty());
        }
        Some((empty, i))
    } else {
        match parse_collection_exec(v, i) {
            Some((c, j1)) => {
                proof {
                    lemma_rest_rest(v@, i as int, (j1 - i) as int);
                }
                match parse_cols_items_exec(v, j1, n - 1) {
                    Some((tail, j2)) => {
                        let ghost tail0 = tail@;
                        let ghost c0 = c@;
                        let mut out = tail;
                        out.insert(0, c);
                        proof {
                            assert(out@.map_values(|cc: Collection| cc@) =~= seq![c0]
                                + tail0.map_values(|cc: Collection| cc@));
                        }
                        Some((out, j2))
                    },
                    None => None,
                }
            },
            None => None,
        }
    }
}

#[verifier::rlimit(100)]
fn parse_state_exec(v: &Vec<char>, i: usize) -> (r: Option<(SaveState, usize)>)
    requires
        i <= v@.len(),
    ensures
        (match r {
            Some((st, j)) => i <= j <= v@.len() && parse_state(rest_of(v@, i as int)) == Some(
                (st@, (j - i) as int),
            ),
            None => parse_state(rest_of(v@, i as int)) is None,
        }),
{
    let ghost s = rest_of(v@, i as int);
    match parse_bounded_exec(v, i, 1) {
        Some((pcode, j1)) => {
            proof {
                lemma_rest_rest(v@, i as int, (j1 - i) as int);
            }
            match parse_bounded_exec(v, j1, usize::MAX as u64) {
                Some((mc, j2)) => {
                    proof {
                        lemma_rest_rest(v@, i as int, (j2 - i) as int);
                    }
                    match parse_bounded_exec(v, j2, usize::MAX as u64) {
                        Some((cc, j3)) => {
                            proof {
                                lemma_rest_rest(v@, i as int, (j3 - i) as int);
                            }
                            match parse_bounded_exec(v, j3, usize::MAX as u64) {
                                Some((cr, j4)) => {
                                    proof {
                                        lemma_rest_rest(v@, i as int, (j4 - i) as int);
                                    }
                                    match parse_collection_exec(v, j4) {
                                        Some((main_col, j5)) => {
                                            proof {
                                                lemma_rest_rest(v@, i as int, (j5 - i) as int);
                                            }
                                            match parse_bounded_exec(v, j5, usize::MAX as u64) {
                                                Some((n, j6)) => {
                                                    proof {
                                                        lemma_rest_rest(
                                                            v@,
                                                            i as int,
                                                            (j6 - i) as int,
                                                        );
                                                        lemma_rest_rest(
                                                            v@,
                                                            j5 as int,
                                                            (j6 - j5) as int,
                                                        );
                                                    }
                                                    match parse_cols_items_exec(v, j6, n) {
                                                        Some((cols, j7)) => {
                                                            let st = SaveState {
                                                                page: (if pcode == 0 {
                                                                    Page::Home
                                                                } else {
                                                                    Page::Collections
                                                                }),
                                                                main_current: mc as usize,
                                                                col_current: ColSelection {
                                                                    col: cc as usize,
                                                                    req: cr as usize,
                                                                },
                                                                main_col: main_col,
                                                                collections: cols,
                                                            };
                                                            proof {
                                                                assert(st@ =~~= parse_state(
                                                                    s,
                                                                )->Some_0.0);
                                                            }
                                                            Some((st, j7))
                                                        },
                                                        None => None,
                                                    }
                                                },
                                                None => None,
                                            }
                                        },
                                        None => None,
                                    }
                                },
                                None => None,
                            }
                        },
                        None => None,
                    }
                },
                None => None,
            }
        },
        None => None,
    }
}

/// Reads a whole document back into a state. Succeeds exactly on the
/// documents that hold one state with nothing left over; everything else
/// is `CorruptState`.
pub fn deserialize(v: &Vec<char>) -> (r: Result<SaveState, StateError>)
    ensures
        (match r {
            Ok(st) => deser_spec(v@) == Some(st@),
            Err(e) => deser_spec(v@) is None && e == StateError::CorruptState,
        }),
{
    proof {
        assert(rest_of(v@, 0) =~= v@);
    }
    match parse_state_exec(v, 0) {
        Some((st, j)) => {
            if j == v.len() {
                Ok(st)
            } else {
                Err(StateError::CorruptState)
            }
        },
        None => Err(StateError::CorruptState),
    }
}

/// The view of the seed state: `Home`, both selections at zero, no named
/// collections, and a working collection holding one fresh request named
/// `New Request 1`.
pub open spec fn default_state_v() -> StateV {
    StateV {
        page: Page::Home,
        main_current: 0usize,
        col_current: ColSelection { col: 0usize, req: 0usize },
        main_col: CollectionV {
            name: "New Collection "@,
            requests: seq![numbered_request_v(1)],
            collapsed: false,
        },
        collections: Seq::empty(),
    }
}

/// The seed state written on first run.
pub fn default_state() -> (r: SaveState)
    ensures
        r@ == default_state_v(),
{
    let mut main_col = Collection::new();
    let mut rq = Request::new();
    rq.name = numbered_name("New Request ", 1);
    main_col.requests.push(rq);
    let r = SaveState {
        page: Page::Home,
        main_current: 0,
        col_current: ColSelection { col: 0, req: 0 },
        main_col: main_col,
        collections: Vec::new(),
    };
    proof {
        assert(r@ =~~= default_state_v());
    }
    r
}

/// The state a document yields: the parsed state when the document is
/// whole, the seed state otherwise.
pub fn load_state(v: &Vec<char>) -> (r: SaveState)
    ensures
        (match deser_spec(v@) {
            Some(x) => r@ == x,
            None => r@ == default_state_v(),
        }),
{
    match deserialize(v) {
        Ok(st) => st,
        Err(_) => default_state(),
    }
}

/// A persisted state taken live: the same fields.
pub fn from_save(s: SaveState) -> (r: BoltContext)
    ensures
        r@ == s@,
{
    let r = BoltContext {
        page: s.page,
        main_current: s.main_current,
        col_current: s.col_current,
        main_col: s.main_col,
        collections: s.collections,
    };
    proof {
        assert(r@ =~~= s@);
    }
    r
}

/// A live state in its persisted shape: the same fields.
pub fn to_save(b: BoltContext) -> (r: SaveState)
    ensures
        r@ == b@,
{
    let r = SaveState {
        page: b.page,
        main_current: b.main_current,
        col_current: b.col_current,
        main_col: b.main_col,
        collections: b.collections,
    };
    proof {
        assert(r@ =~~= b@);
    }
    r
}


// ------------------------------------------------------------- round trip

/// Strings and lists a machine can hold: every length fits in `usize`.
pub open spec fn bounded_pairs(ps: Seq<(Seq<char>, Seq<char>)>) -> bool {
    &&& ps.len() <= usize::MAX
    &&& forall|k: int|
        0 <= k < ps.len() ==> (#[trigger] ps[k]).0.len() <= usize::MAX && ps[k].1.len()
            <= usize::MAX
}

pub open spec fn bounded_response(r: ResponseV) -> bool {
    &&& r.body.len() <= usize::MAX
    &&& bounded_pairs(r.headers)
}

pub open spec fn bounded_request(q: RequestV) -> bool {
    &&& q.url.len() <= usize::MAX
    &&& q.body.len() <= usize::MAX
    &&& q.name.len() <= usize::MAX
    &&& bounded_pairs(q.headers)
    &&& bounded_pairs(q.params)
    &&& bounded_response(q.response)
}

pub open spec fn bounded_collection(c: CollectionV) -> bool {
    &&& c.name.len() <= usize::MAX
    &&& c.requests.len() <= usize::MAX
    &&& forall|k: int| 0 <= k < c.requests.len() ==> bounded_request(#[trigger] c.requests[k])
}

/// The machine limit under which the round trip is stated: every string
/// and list of the state fits in `usize`. Any state held in memory does.
pub open spec fn bounded_state(s: StateV) -> bool {
    &&& bounded_collection(s.main_col)
    &&& s.collections.len() <= usize::MAX
    &&& forall|k: int| 0 <= k < s.collections.len() ==> bounded_collection(
        #[trigger] s.collections[k],
    )
}

proof fn lemma_digit_round(d: nat)
    requires
        d < 10,
    ensures
        is_dec_digit(dec_digit(d)),
        digit_val(dec_digit(d)) == d,
        dec_digit(d) != ';',
{
}

proof fn lemma_parse_ser_nat(n: nat, bound: nat, rest: Seq<char>)
    requires
        n <= bound,
    ensures
        parse_bounded(ser_nat(n) + rest, bound) == Some((n, ser_nat(n).len() as int)),
    decreases n,
{
    let s = ser_nat(n) + rest;
    lemma_digit_round(n % 10);
    if n < 10 {
        lemma_digit_round(n);
        assert(s[0] == dec_digit(n));
        assert(s.drop_first() =~= seq![';'] + rest);
        assert((seq![';'] + rest)[0] == ';');
        assert(parse_nat(s.drop_first()) == Some((0nat, 1int)));
        assert(parse_nat(s) == Some((n, 2int)));
        assert(ser_nat(n).len() == 2);
    } else {
        assert(s[0] == dec_digit(n % 10));
        assert(s.drop_first() =~= ser_nat(n / 10) + rest);
        assert(n / 10 <= n) by (nonlinear_arith)
            requires
                n >= 10,
        ;
        lemma_parse_ser_nat(n / 10, n, rest);
        assert(parse_nat(ser_nat(n / 10) + rest) == Some(
            (n / 10, ser_nat(n / 10).len() as int),
        ));
        vstd::arithmetic::div_mod::lemma_fundamental_div_mod(n as int, 10);
        assert(parse_nat(s) == Some((n, ser_nat(n).len() as int)));
    }
}

proof fn lemma_assoc(a: Seq<char>, b: Seq<char>, c: Seq<char>)
    ensures
        (a + b) + c == a + (b + c),
{
    assert((a + b) + c =~= a + (b + c));
}

proof fn lemma_add_empty(a: Seq<char>)
    ensures
        a + Seq::<char>::empty() == a,
{
    assert(a + Seq::<char>::empty() =~= a);
}

proof fn lemma_split(a: Seq<char>, b: Seq<char>)
    ensures
        rest_of(a + b, a.len() as int) == b,
{
    assert(rest_of(a + b, a.len() as int) =~= b);
}

proof fn lemma_parse_ser_str(t: Seq<char>, rest: Seq<char>)
    requires
        t.len() <= usize::MAX,
    ensures
        parse_str(ser_str(t) + rest) == Some((t, ser_str(t).len() as int)),
{
    let s = ser_str(t) + rest;
    assert(s =~= ser_nat(t.len()) + (t + rest));
    lemma_parse_ser_nat(t.len(), usize::MAX as nat, t + rest);
    let k = ser_nat(t.len()).len() as int;
    assert(parse_bounded(s, usize::MAX as nat) == Some((t.len(), k)));
    assert(s.subrange(k, k + t.len()) =~= t);
}

proof fn lemma_parse_ser_pair(p: (Seq<char>, Seq<char>), rest: Seq<char>)
    requires
        p.0.len() <= usize::MAX,
        p.1.len() <= usize::MAX,
    ensures
        parse_pair(ser_pair(p) + rest) == Some((p, ser_pair(p).len() as int)),
{
    let s = ser_pair(p) + rest;
    assert(s =~= ser_str(p.0) + (ser_str(p.1) + rest));
    lemma_parse_ser_str(p.0, ser_str(p.1) + rest);
    let k1 = ser_str(p.0).len() as int;
    lemma_split(ser_str(p.0), ser_str(p.1) + rest);
    assert(rest_of(s, k1) == ser_str(p.1) + rest);
    lemma_parse_ser_str(p.1, rest);
}

proof fn lemma_parse_ser_pairs_items(ps: Seq<(Seq<char>, Seq<char>)>, rest: Seq<char>)
    requires
        forall|k: int|
            0 <= k < ps.len() ==> (#[trigger] ps[k]).0.len() <= usize::MAX && ps[k].1.len()
                <= usize::MAX,
    ensures
        parse_pairs_items(ser_pairs_items(ps) + rest, ps.len()) == Some(
            (ps, ser_pairs_items(ps).len() as int),
        ),
    decreases ps.len(),
{
    let s = ser_pairs_items(ps) + rest;
    if ps.len() == 0 {
        assert(ps =~= Seq::<(Seq<char>, Seq<char>)>::empty());
        assert(parse_pairs_items(s, 0) == Some((Seq::<(Seq<char>, Seq<char>)>::empty(), 0int)));
    } else {
        assert(s =~= ser_pair(ps[0]) + (ser_pairs_items(ps.drop_first()) + rest));
        lemma_parse_ser_pair(ps[0], ser_pairs_items(ps.drop_first()) + rest);
        let k1 = ser_pair(ps[0]).len() as int;
        lemma_split(ser_pair(ps[0]), ser_pairs_items(ps.drop_first()) + rest);
        assert(rest_of(s, k1) == ser_pairs_items(ps.drop_first()) + rest);
        lemma_parse_ser_pairs_items(ps.drop_first(), rest);
        assert(seq![ps[0]] + ps.drop_first() =~= ps);
    }
}

proof fn lemma_parse_ser_pairs(ps: Seq<(Seq<char>, Seq<char>)>, rest: Seq<char>)
    requires
        bounded_pairs(ps),
    ensures
        parse_pairs(ser_pairs(ps) + rest) == Some((ps, ser_pairs(ps).len() as int)),
{
    let s = ser_pairs(ps) + rest;
    assert(s =~= ser_nat(ps.len()) + (ser_pairs_items(ps) + rest));
    lemma_parse_ser_nat(ps.len(), usize::MAX as nat, ser_pairs_items(ps) + rest);
    let k = ser_nat(ps.len()).len() as int;
    lemma_split(ser_nat(ps.len()), ser_pairs_items(ps) + rest);
    assert(rest_of(s, k) == ser_pairs_items(ps) + rest);
    lemma_parse_ser_pairs_items(ps, rest);
}

#[verifier::rlimit(100)]
#[verifier::spinoff_prover]
proof fn lemma_parse_ser_response(r: ResponseV, rest: Seq<char>)
    requires
        bounded_response(r),
    ensures
        parse_response(ser_response(r) + rest) == Some((r, ser_response(r).len() as int)),
{
    let s = ser_response(r) + rest;
    let a1 = ser_nat(r.status as nat);
    let a2 = ser_str(r.body);
    let a3 = ser_pairs(r.headers);
    let a4 = ser_nat(r.time as nat);
    let a5 = ser_nat(r.size as nat);
    let a6 = ser_nat(rtype_code(r.response_type));
    let a7 = ser_nat(r.request_index as nat);
    let a8 = ser_bool(r.failed);
    assert(s =~= a1 + (a2 + (a3 + (a4 + (a5 + (a6 + (a7 + (a8 + rest))))))));
    lemma_parse_ser_nat(r.status as nat, u16::MAX as nat, a2 + (a3 + (a4 + (a5 + (a6 + (a7 + (a8
        + rest)))))));
    let k1 = a1.len() as int;
    lemma_split(a1, a2 + (a3 + (a4 + (a5 + (a6 + (a7 + (a8 + rest)))))));
    assert(rest_of(s, k1) == a2 + (a3 + (a4 + (a5 + (a6 + (a7 + (a8 + rest)))))));
    lemma_parse_ser_str(r.body, a3 + (a4 + (a5 + (a6 + (a7 + (a8 + rest))))));
    let k2 = a2.len() as int;
    lemma_split(a2, a3 + (a4 + (a5 + (a6 + (a7 + (a8 + rest))))));
    assert(rest_of(rest_of(s, k1), k2) == a3 + (a4 + (a5 + (a6 + (a7 + (a8 + rest))))));
    assert(rest_of(s, k1 + k2) =~= rest_of(rest_of(s, k1), k2));
    lemma_parse_ser_pairs(r.headers, a4 + (a5 + (a6 + (a7 + (a8 + rest)))));
    let k3 = a3.len() as int;
    lemma_split(a3, a4 + (a5 + (a6 + (a7 + (a8 + rest)))));
    assert(rest_of(s, k1 + k2 + k3) =~= rest_of(rest_of(s, k1 + k2), k3));
    lemma_parse_ser_nat(r.time as nat, u32::MAX as nat, a5 + (a6 + (a7 + (a8 + rest))));
    let k4 = a4.len() as int;
    lemma_split(a4, a5 + (a6 + (a7 + (a8 + rest))));
    assert(rest_of(s, k1 + k2 + k3 + k4) =~= rest_of(rest_of(s, k1 + k2 + k3), k4));
    lemma_parse_ser_nat(r.size as nat, u64::MAX as nat, a6 + (a7 + (a8 + rest)));
    let k5 = a5.len() as int;
    lemma_split(a5, a6 + (a7 + (a8 + rest)));
    assert(rest_of(s, k1 + k2 + k3 + k4 + k5) =~= rest_of(rest_of(s, k1 + k2 + k3 + k4), k5));
    lemma_parse_ser_nat(rtype_code(r.response_type), 1, a7 + (a8 + rest));
    let k6 = a6.len() as int;
    lemma_split(a6, a7 + (a8 + rest));
    assert(rest_of(s, k1 + k2 + k3 + k4 + k5 + k6) =~= rest_of(
        rest_of(s, k1 + k2 + k3 + k4 + k5),
        k6,
    ));
    lemma_parse_ser_nat(r.request_index as nat, usize::MAX as nat, a8 + rest);
    let k7 = a7.len() as int;
    lemma_split(a7, a8 + rest);
    assert(rest_of(s, k1 + k2 + k3 + k4 + k5 + k6 + k7) =~= rest_of(
        rest_of(s, k1 + k2 + k3 + k4 + k5 + k6),
        k7,
    ));
    lemma_parse_ser_nat(if r.failed { 1nat } else { 0nat }, 1, rest);
    assert(parse_response(s)->Some_0.0 =~~= r);
}

#[verifier::rlimit(100)]
#[verifier::spinoff_prover]
proof fn lemma_parse_ser_request_prefix(q: RequestV, rest: Seq<char>)
    requires
        bounded_request(q),
    ensures
        ({
            let s = ser_request(q) + rest;
            let k1 = ser_str(q.url).len() as int;
            let k2 = ser_str(q.body).len() as int;
            let k3 = ser_pairs(q.headers).len() as int;
            let k4 = ser_pairs(q.params).len() as int;
            let k5 = ser_nat(method_code(q.method)).len() as int;
            &&& parse_str(s) == Some((q.url, k1))
            &&& parse_str(rest_of(s, k1)) == Some((q.body, k2))
            &&& parse_pairs(rest_of(s, k1 + k2)) == Some((q.headers, k3))
            &&& parse_pairs(rest_of(s, k1 + k2 + k3)) == Some((q.params, k4))
            &&& parse_bounded(rest_of(s, k1 + k2 + k3 + k4), 4) == Some(
                (method_code(q.method), k5),
            )
            &&& rest_of(s, k1 + k2 + k3 + k4 + k5) == ser_response(q.response) + (ser_str(q.name)
                + (ser_nat(req_tab_code(q.req_tab)) + (ser_nat(resp_tab_code(q.resp_tab))
                + rest)))
        }),
{
    let s = ser_request(q) + rest;
    let a1 = ser_str(q.url);
    let a2 = ser_str(q.body);
    let a3 = ser_pairs(q.headers);
    let a4 = ser_pairs(q.params);
    let a5 = ser_nat(method_code(q.method));
    let a6 = ser_response(q.response);
    let a7 = ser_str(q.name);
    let a8 = ser_nat(req_tab_code(q.req_tab));
    let a9 = ser_nat(resp_tab_code(q.resp_tab));
    assert(s =~= a1 + (a2 + (a3 + (a4 + (a5 + (a6 + (a7 + (a8 + (a9 + rest)))))))));
    lemma_parse_ser_str(q.url, a2 + (a3 + (a4 + (a5 + (a6 + (a7 + (a8 + (a9 + rest))))))));
    let k1 = a1.len() as int;
    lemma_split(a1, a2 + (a3 + (a4 + (a5 + (a6 + (a7 + (a8 + (a9 + rest))))))));
    assert(rest_of(s, k1) == a2 + (a3 + (a4 + (a5 + (a6 + (a7 + (a8 + (a9 + rest))))))));
    lemma_parse_ser_str(q.body, a3 + (a4 + (a5 + (a6 + (a7 + (a8 + (a9 + rest)))))));
    let k2 = a2.len() as int;
    lemma_split(a2, a3 + (a4 + (a5 + (a6 + (a7 + (a8 + (a9 + rest)))))));
    assert(rest_of(s, k1 + k2) =~= rest_of(rest_of(s, k1), k2));
    lemma_parse_ser_pairs(q.headers, a4 + (a5 + (a6 + (a7 + (a8 + (a9 + rest))))));
    let k3 = a3.len() as int;
    lemma_split(a3, a4 + (a5 + (a6 + (a7 + (a8 + (a9 + rest))))));
    assert(rest_of(s, k1 + k2 + k3) =~= rest_of(rest_of(s, k1 + k2), k3));
    lemma_parse_ser_pairs(q.params, a5 + (a6 + (a7 + (a8 + (a9 + rest)))));
    let k4 = a4.len() as int;
    lemma_split(a4, a5 + (a6 + (a7 + (a8 + (a9 + rest)))));
    assert(rest_of(s, k1 + k2 + k3 + k4) =~= rest_of(rest_of(s, k1 + k2 + k3), k4));
    lemma_parse_ser_nat(method_code(q.method), 4, a6 + (a7 + (a8 + (a9 + rest))));
    let k5 = a5.len() as int;
    lemma_split(a5, a6 + (a7 + (a8 + (a9 + rest))));
    assert(rest_of(s, k1 + k2 + k3 + k4 + k5) =~= rest_of(rest_of(s, k1 + k2 + k3 + k4), k5));
}

#[verifier::rlimit(100)]
#[verifier::spinoff_prover]
proof fn lemma_parse_ser_request(q: RequestV, rest: Seq<char>)
    requires
        bounded_request(q),
    ensures
        parse_request(ser_request(q) + rest) == Some((q, ser_request(q).len() as int)),
{
    let s = ser_request(q) + rest;
    let a6 = ser_response(q.response);
    let a7 = ser_str(q.name);
    let a8 = ser_nat(req_tab_code(q.req_tab));
    let a9 = ser_nat(resp_tab_code(q.resp_tab));
    lemma_parse_ser_request_prefix(q, rest);
    let k1 = ser_str(q.url).len() as int;
    let k2 = ser_str(q.body).len() as int;
    let k3 = ser_pairs(q.headers).len() as int;
    let k4 = ser_pairs(q.params).len() as int;
    let k5 = ser_nat(method_code(q.method)).len() as int;
    let p = k1 + k2 + k3 + k4 + k5;
    lemma_parse_ser_response(q.response, a7 + (a8 + (a9 + rest)));
    let k6 = a6.len() as int;
    lemma_split(a6, a7 + (a8 + (a9 + rest)));
    assert(rest_of(s, p + k6) =~= rest_of(rest_of(s, p), k6));
    lemma_parse_ser_str(q.name, a8 + (a9 + rest));
    let k7 = a7.len() as int;
    lemma_split(a7, a8 + (a9 + rest));
    assert(rest_of(s, p + k6 + k7) =~= rest_of(rest_of(s, p + k6), k7));
    lemma_parse_ser_nat(req_tab_code(q.req_tab), 2, a9 + rest);
    let k8 = a8.len() as int;
    lemma_split(a8, a9 + rest);
    assert(rest_of(s, p + k6 + k7 + k8) =~= rest_of(rest_of(s, p + k6 + k7), k8));
    lemma_parse_ser_nat(resp_tab_code(q.resp_tab), 1, rest);
    assert(parse_request(s)->Some_0.0 =~~= q);
}

proof fn lemma_parse_ser_reqs_items(rs: Seq<RequestV>, rest: Seq<char>)
    requires
        forall|k: int| 0 <= k < rs.len() ==> bounded_request(#[trigger] rs[k]),
    ensures
        parse_reqs_items(ser_reqs_items(rs) + rest, rs.len()) == Some(
            (rs, ser_reqs_items(rs).len() as int),
        ),
    decreases rs.len(),
{
    let s = ser_reqs_items(rs) + rest;
    if rs.len() == 0 {
        assert(rs =~= Seq::<RequestV>::empty());
        assert(parse_reqs_items(s, 0) == Some((Seq::<RequestV>::empty(), 0int)));
    } else {
        assert(s =~= ser_request(rs[0]) + (ser_reqs_items(rs.drop_first()) + rest));
        lemma_parse_ser_request(rs[0], ser_reqs_items(rs.drop_first()) + rest);
        let k1 = ser_request(rs[0]).len() as int;
        lemma_split(ser_request(rs[0]), ser_reqs_items(rs.drop_first()) + rest);
        assert(rest_of(s, k1) == ser_reqs_items(rs.drop_first()) + rest);
        lemma_parse_ser_reqs_items(rs.drop_first(), rest);
        assert(seq![rs[0]] + rs.drop_first() =~= rs);
    }
}

#[verifier::rlimit(100)]
#[verifier::spinoff_prover]
proof fn lemma_parse_ser_collection(c: CollectionV, rest: Seq<char>)
    requires
        bounded_collection(c),
    ensures
        parse_collection(ser_collection(c) + rest) == Some((c, ser_collection(c).len() as int)),
{
    let s = ser_collection(c) + rest;
    let a1 = ser_str(c.name);
    let a2 = ser_nat(c.requests.len());
    let a3 = ser_reqs_items(c.requests);
    let a4 = ser_bool(c.collapsed);
    assert(s =~= a1 + (a2 + (a3 + (a4 + rest))));
    lemma_parse_ser_str(c.name, a2 + (a3 + (a4 + rest)));
    let k1 = a1.len() as int;
    lemma_split(a1, a2 + (a3 + (a4 + rest)));
    assert(rest_of(s, k1) == a2 + (a3 + (a4 + rest)));
    lemma_parse_ser_nat(c.requests.len(), usize::MAX as nat, a3 + (a4 + rest));
    let k2 = a2.len() as int;
    lemma_split(a2, a3 + (a4 + rest));
    assert(rest_of(rest_of(s, k1), k2) == a3 + (a4 + rest));
    lemma_parse_ser_reqs_items(c.requests, a4 + rest);
    let k3 = a3.len() as int;
    lemma_split(a3, a4 + rest);
    assert(rest_of(rest_of(rest_of(s, k1), k2), k3) == a4 + rest);
    assert(rest_of(s, k1 + k2 + k3) =~= rest_of(rest_of(rest_of(s, k1), k2), k3));
    lemma_parse_ser_nat(if c.collapsed { 1nat } else { 0nat }, 1, rest);
    assert(parse_requests(rest_of(s, k1)) == Some(
        (c.requests, (k2 + k3) as int),
    ));
    assert(parse_collection(s)->Some_0.0 =~~= c);
}

proof fn lemma_parse_ser_cols_items(cs: Seq<CollectionV>, rest: Seq<char>)
    requires
        forall|k: int| 0 <= k < cs.len() ==> bounded_collection(#[trigger] cs[k]),
    ensures
        parse_cols_items(ser_cols_items(cs) + rest, cs.len()) == Some(
            (cs, ser_cols_items(cs).len() as int),
        ),
    decreases cs.len(),
{
    let s = ser_cols_items(cs) + rest;
    if cs.len() == 0 {
        assert(cs =~= Seq::<CollectionV>::empty());
        assert(parse_cols_items(s, 0) == Some((Seq::<CollectionV>::empty(), 0int)));
    } else {
        assert(s =~= ser_collection(cs[0]) + (ser_cols_items(cs.drop_first()) + rest));
        lemma_parse_ser_collection(cs[0], ser_cols_items(cs.drop_first()) + rest);
        let k1 = ser_collection(cs[0]).len() as int;
        lemma_split(ser_collection(cs[0]), ser_cols_items(cs.drop_first()) + rest);
        assert(rest_of(s, k1) == ser_cols_items(cs.drop_first()) + rest);
        lemma_parse_ser_cols_items(cs.drop_first(), rest);
        assert(seq![cs[0]] + cs.drop_first() =~= cs);
    }
}

/// Round trip of the codec: a document written from any state the machine
/// can hold reads back as exactly that state.
#[verifier::rlimit(100)]
#[verifier::spinoff_prover]
proof fn lemma_parse_ser_state_prefix(v: StateV)
    ensures
        ({
            let s = ser_state(v);
            let k1 = ser_nat(page_code(v.page)).len() as int;
            let k2 = ser_nat(v.main_current as nat).len() as int;
            let k3 = ser_nat(v.col_current.col as nat).len() as int;
            let k4 = ser_nat(v.col_current.req as nat).len() as int;
            &&& parse_bounded(s, 1) == Some((page_code(v.page), k1))
            &&& parse_bounded(rest_of(s, k1), usize::MAX as nat) == Some(
                (v.main_current as nat, k2),
            )
            &&& parse_bounded(rest_of(s, k1 + k2), usize::MAX as nat) == Some(
                (v.col_current.col as nat, k3),
            )
            &&& parse_bounded(rest_of(s, k1 + k2 + k3), usize::MAX as nat) == Some(
                (v.col_current.req as nat, k4),
            )
            &&& rest_of(s, k1 + k2 + k3 + k4) == ser_collection(v.main_col) + ser_collections(
                v.collections,
            )
        }),
{
    let s = ser_state(v);
    let a1 = ser_nat(page_code(v.page));
    let a2 = ser_nat(v.main_current as nat);
    let a3 = ser_nat(v.col_current.col as nat);
    let a4 = ser_nat(v.col_current.req as nat);
    let a5 = ser_collection(v.main_col);
    let a6 = ser_collections(v.collections);
    let t5 = a5 + a6;
    lemma_assoc(a1 + (a2 + a3), a4, a5);
    lemma_assoc(((a1 + a2) + a3) + a4, a5, a6);
    lemma_assoc((a1 + a2) + a3, a4, t5);
    lemma_assoc(a1 + a2, a3, a4 + t5);
    lemma_assoc(a1, a2, a3 + (a4 + t5));
    assert(s == a1 + (a2 + (a3 + (a4 + t5))));
    lemma_parse_ser_nat(page_code(v.page), 1, a2 + (a3 + (a4 + t5)));
    let k1 = a1.len() as int;
    lemma_split(a1, a2 + (a3 + (a4 + t5)));
    assert(rest_of(s, k1) == a2 + (a3 + (a4 + t5)));
    lemma_parse_ser_nat(v.main_current as nat, usize::MAX as nat, a3 + (a4 + t5));
    let k2 = a2.len() as int;
    lemma_split(a2, a3 + (a4 + t5));
    assert(rest_of(s, k1 + k2) =~= rest_of(rest_of(s, k1), k2));
    lemma_parse_ser_nat(v.col_current.col as nat, usize::MAX as nat, a4 + t5);
    let k3 = a3.len() as int;
    lemma_split(a3, a4 + t5);
    assert(rest_of(s, k1 + k2 + k3) =~= rest_of(rest_of(s, k1 + k2), k3));
    lemma_parse_ser_nat(v.col_current.req as nat, usize::MAX as nat, t5);
    let k4 = a4.len() as int;
    lemma_split(a4, t5);
    assert(rest_of(s, k1 + k2 + k3 + k4) =~= rest_of(rest_of(s, k1 + k2 + k3), k4));
}

/// Round trip of the codec: a document written from any state the machine
/// can hold reads back as exactly that state.
#[verifier::rlimit(100)]
#[verifier::spinoff_prover]
pub proof fn lemma_codec_round_trip(v: StateV)
    requires
        bounded_state(v),
    ensures
        deser_spec(ser_state(v)) == Some(v),
{
    let s = ser_state(v);
    let a5 = ser_collection(v.main_col);
    let a6 = ser_nat(v.collections.len());
    let a7 = ser_cols_items(v.collections);
    lemma_parse_ser_state_prefix(v);
    let k1 = ser_nat(page_code(v.page)).len() as int;
    let k2 = ser_nat(v.main_current as nat).len() as int;
    let k3 = ser_nat(v.col_current.col as nat).len() as int;
    let k4 = ser_nat(v.col_current.req as nat).len() as int;
    let p = k1 + k2 + k3 + k4;
    lemma_parse_ser_collection(v.main_col, ser_collections(v.collections));
    let k5 = a5.len() as int;
    lemma_split(a5, ser_collections(v.collections));
    assert(rest_of(s, p + k5) =~= rest_of(rest_of(s, p), k5));
    assert(rest_of(s, p + k5) == a6 + a7);
    lemma_parse_ser_nat(v.collections.len(), usize::MAX as nat, a7);
    let k6 = a6.len() as int;
    lemma_split(a6, a7);
    assert(rest_of(s, p + k5 + k6) =~= rest_of(rest_of(s, p + k5), k6));
    lemma_add_empty(a7);
    lemma_parse_ser_cols_items(v.collections, Seq::<char>::empty());
    let k7 = a7.len() as int;
    assert(parse_collections(rest_of(s, p + k5)) == Some((v.collections, (k6 + k7) as int)));
    assert(parse_state(s)->Some_0.0 =~~= v);
    assert(parse_state(s)->Some_0.1 == s.len());
}
} // verus!
