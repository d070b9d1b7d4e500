//! The DHCPv4 server without its socket: which options a reply carries, what
//! its bytes are and where they go.

use vstd::prelude::*;

use crate::net::{socket_v4, Ipv4Addr, SocketAddr};
use crate::options::{
    option_views, DhcpOption, MessageType, OptionView, DHCP_MESSAGE_TYPE, DOMAIN_NAME_SERVER,
    IP_ADDRESS_LEASE_TIME, PARAMETER_REQUEST_LIST, ROUTER, SERVER_IDENTIFIER, SUBNET_MASK,
};
use crate::packet::{
    announced_type, decodable, error_view, first_with_code, packet_bytes, packet_of, CustomErr,
    Packet, PacketView,
};

verus! {

// ---------------------------------------------------------------------------
// Choosing options
// ---------------------------------------------------------------------------

/// The options that a reply carries whether or not they were asked for.
pub open spec fn always_sent() -> Seq<u8> {
    seq![
        DHCP_MESSAGE_TYPE,
        SERVER_IDENTIFIER,
        SUBNET_MASK,
        IP_ADDRESS_LEASE_TIME,
        DOMAIN_NAME_SERVER,
        ROUTER,
    ]
}

/// The first position from `from` on with the given code.
pub open spec fn position_from(opts: Seq<OptionView>, from: int, code: u8) -> Option<int>
    decreases opts.len() - from,
{
    if from >= opts.len() {
        None
    } else if opts[from].code() == code {
        Some(from)
    } else {
        position_from(opts, from + 1, code)
    }
}

/// `s` with the elements at `i` and `j` exchanged.
pub open spec fn exchanged<A>(s: Seq<A>, i: int, j: int) -> Seq<A> {
    s.update(i, s[j]).update(j, s[i])
}

/// One step of the choice: the first option from `pos` on with the given code
/// changes places with the one at `pos`, behind those that were chosen before.
pub open spec fn chosen_step(opts: Seq<OptionView>, pos: int, code: u8) -> (
    Seq<OptionView>,
    int,
) {
    match position_from(opts, pos, code) {
        Some(i) => (exchanged(opts, i, pos), pos + 1),
        None => (opts, pos),
    }
}

/// The choice of the codes in `wanted`, one after the other.
pub open spec fn chosen(opts: Seq<OptionView>, pos: int, wanted: Seq<u8>) -> (Seq<OptionView>, int)
    decreases wanted.len(),
{
    if wanted.len() == 0 {
        (opts, pos)
    } else {
        let (o, p) = chosen_step(opts, pos, wanted.first());
        chosen(o, p, wanted.drop_first())
    }
}

/// The options that remain: those with a code in `requested`, in its order,
/// and then those that are always sent.
pub open spec fn filtered(opts: Seq<OptionView>, requested: Seq<u8>) -> Seq<OptionView> {
    let (o, p) = chosen(opts, 0, requested + always_sent());
    o.take(p)
}

proof fn lemma_position(opts: Seq<OptionView>, from: int, code: u8)
    requires
        0 <= from,
    ensures
        match position_from(opts, from, code) {
            Some(i) => {
                &&& from <= i < opts.len()
                &&& opts[i].code() == code
                &&& forall|j: int| from <= j < i ==> (#[trigger] opts[j]).code() != code
            },
            None => forall|j: int|
                from <= j < opts.len() ==> (#[trigger] opts[j]).code() != code,
        },
    decreases opts.len() - from,
{
    if from < opts.len() && opts[from].code() != code {
        lemma_position(opts, from + 1, code);
    }
}

/// A position is the first one if nothing before it has the code.
proof fn lemma_position_is(opts: Seq<OptionView>, from: int, i: int, code: u8)
    requires
        0 <= from <= i <= opts.len(),
        i < opts.len() ==> opts[i].code() == code,
        forall|j: int| from <= j < i ==> (#[trigger] opts[j]).code() != code,
    ensures
        position_from(opts, from, code) == if i < opts.len() {
            Some(i)
        } else {
            None
        },
    decreases i - from,
{
    if from < i {
        lemma_position_is(opts, from + 1, i, code);
    }
}

/// What a choice keeps: how many options there are, those that were chosen
/// before, and all options in some order.
proof fn lemma_chosen(opts: Seq<OptionView>, pos: int, wanted: Seq<u8>)
    requires
        0 <= pos <= opts.len(),
    ensures
        ({
            let (o, p) = chosen(opts, pos, wanted);
            &&& o.len() == opts.len()
            &&& pos <= p <= o.len()
            &&& forall|j: int| 0 <= j < pos ==> #[trigger] o[j] == opts[j]
            &&& o.to_multiset() == opts.to_multiset()
        }),
    decreases wanted.len(),
{
    if wanted.len() > 0 {
        lemma_position(opts, pos, wanted.first());
        let (o, p) = chosen_step(opts, pos, wanted.first());
        if p > pos {
            lemma_exchanged(opts, position_from(opts, pos, wanted.first())->0, pos);
        }
        lemma_chosen(o, p, wanted.drop_first());
    }
}

proof fn lemma_exchanged<A>(s: Seq<A>, i: int, j: int)
    requires
        0 <= i < s.len(),
        0 <= j < s.len(),
    ensures
        exchanged(s, i, j).to_multiset() == s.to_multiset(),
{
    broadcast use vstd::seq_lib::group_to_multiset_ensures;

    let a = s.update(i, s[j]);
    assert(a.to_multiset() =~= s.to_multiset().insert(s[j]).remove(s[i]));
    assert(a.update(j, s[i]).to_multiset() =~= a.to_multiset().insert(s[i]).remove(a[j]));
    assert(exchanged(s, i, j).to_multiset() =~= s.to_multiset());
}

proof fn lemma_chosen_concat(opts: Seq<OptionView>, pos: int, a: Seq<u8>, b: Seq<u8>)
    ensures
        chosen(opts, pos, a + b) == {
            let (o, p) = chosen(opts, pos, a);
            chosen(o, p, b)
        },
    decreases a.len(),
{
    if a.len() == 0 {
        assert(a + b =~= b);
    } else {
        let (o, p) = chosen_step(opts, pos, a.first());
        assert((a + b).drop_first() =~= a.drop_first() + b);
        lemma_chosen_concat(o, p, a.drop_first(), b);
    }
}

/// Exchanges two different options.
fn swap_options(opts: &mut Vec<DhcpOption>, i: usize, j: usize)
    requires
        i < old(opts)@.len(),
        j < old(opts)@.len(),
        i != j,
    ensures
        final(opts)@ == exchanged(old(opts)@, i as int, j as int),
        option_views(final(opts)@) == exchanged(option_views(old(opts)@), i as int, j as int),
{
    let mut spare = DhcpOption::IpAddressLeaseTime(0);
    std::mem::swap(&mut spare, &mut opts[i]);
    std::mem::swap(&mut spare, &mut opts[j]);
    std::mem::swap(&mut spare, &mut opts[i]);
    assert(opts@ =~= exchanged(old(opts)@, i as int, j as int));
    assert(option_views(opts@) =~= exchanged(option_views(old(opts)@), i as int, j as int));
}

/// Whether `codes` starts with the codes of all options.
spec fn codes_match(codes: Seq<u8>, opts: Seq<DhcpOption>) -> bool {
    &&& codes.len() == 64
    &&& opts.len() <= 64
    &&& forall|i: int| 0 <= i < opts.len() ==> codes[i] == (#[trigger] opts[i])@.code()
}

/// Chooses the codes in `wanted`, with the codes of all options at hand;
/// returns how many options have been chosen.
fn choose_by_codes(
    opts: &mut Vec<DhcpOption>,
    codes: &mut [u8; 64],
    start: usize,
    wanted: &[u8],
) -> (pos: usize)
    requires
        codes_match(old(codes)@, old(opts)@),
        start <= old(opts)@.len(),
    ensures
        codes_match(final(codes)@, final(opts)@),
        (option_views(final(opts)@), pos as int) == chosen(
            option_views(old(opts)@),
            start as int,
            wanted@,
        ),
        pos <= final(opts)@.len(),
{
    let n = opts.len();
    let ghost all = chosen(option_views(opts@), start as int, wanted@);
    let mut pos = start;
    let mut k: usize = 0;
    assert(wanted@.skip(0) =~= wanted@);
    while k < wanted.len()
        invariant
            k <= wanted@.len(),
            n == opts@.len(),
            pos <= n,
            codes_match(codes@, opts@),
            all == chosen(option_views(opts@), pos as int, wanted@.skip(k as int)),
        decreases wanted@.len() - k,
    {
        let r = wanted[k];
        let ghost views = option_views(opts@);
        let mut i = pos;
        while i < n && codes[i] != r
            invariant
                pos <= i <= n,
                n == opts@.len(),
                views == option_views(opts@),
                codes_match(codes@, opts@),
                forall|j: int| pos <= j < i ==> (#[trigger] views[j]).code() != r,
            decreases n - i,
        {
            assert(views[i as int] == opts@[i as int]@);
            i = i + 1;
        }
        proof {
            if i < n {
                assert(views[i as int] == opts@[i as int]@);
            }
            lemma_position_is(views, pos as int, i as int, r);
            assert(wanted@.skip(k as int).drop_first() =~= wanted@.skip(k + 1));
        }
        if i < n {
            if i != pos {
                swap_options(opts, i, pos);
                let c = codes[i];
                codes[i] = codes[pos];
                codes[pos] = c;
            } else {
                assert(exchanged(views, i as int, pos as int) =~= views);
            }
            pos = pos + 1;
        }
        k = k + 1;
    }
    pos
}

/// Chooses the codes in `wanted`; returns how many options have been chosen.
fn choose_by_scan(opts: &mut Vec<DhcpOption>, start: usize, wanted: &[u8]) -> (pos: usize)
    requires
        start <= old(opts)@.len(),
    ensures
        (option_views(final(opts)@), pos as int) == chosen(
            option_views(old(opts)@),
            start as int,
            wanted@,
        ),
        pos <= final(opts)@.len(),
{
    let n = opts.len();
    let ghost all = chosen(option_views(opts@), start as int, wanted@);
    let mut pos = start;
    let mut k: usize = 0;
    assert(wanted@.skip(0) =~= wanted@);
    while k < wanted.len()
        invariant
            k <= wanted@.len(),
            n == opts@.len(),
            pos <= n,
            all == chosen(option_views(opts@), pos as int, wanted@.skip(k as int)),
        decreases wanted@.len() - k,
    {
        let r = wanted[k];
        let ghost views = option_views(opts@);
        let mut i = pos;
        while i < n && opts[i].code() != r
            invariant
                pos <= i <= n,
                n == opts@.len(),
                views == option_views(opts@),
                forall|j: int| pos <= j < i ==> (#[trigger] views[j]).code() != r,
            decreases n - i,
        {
            assert(views[i as int] == opts@[i as int]@);
            i = i + 1;
        }
        proof {
            if i < n {
                assert(views[i as int] == opts@[i as int]@);
            }
            lemma_position_is(views, pos as int, i as int, r);
            assert(wanted@.skip(k as int).drop_first() =~= wanted@.skip(k + 1));
        }
        if i < n {
            if i != pos {
                swap_options(opts, i, pos);
            } else {
                assert(exchanged(views, i as int, pos as int) =~= views);
            }
            pos = pos + 1;
        }
        k = k + 1;
    }
    pos
}

/// Keeps the options that were requested, in the order of the request, and
/// then those that are always sent.
pub fn filter_options_by_req(opts: &mut Vec<DhcpOption>, req_params: &[u8])
    ensures
        option_views(final(opts)@) == filtered(option_views(old(opts)@), req_params@),
{
    let n = opts.len();
    if n > 64 {
        filter_options_by_req_slow(opts, req_params);
        return;
    }
    let mut codes: [u8; 64] = [0u8; 64];
    let mut i: usize = 0;
    while i < n
        invariant
            i <= n,
            n == opts@.len(),
            n <= 64,
            codes@.len() == 64,
            forall|j: int| 0 <= j < i ==> codes@[j] == (#[trigger] opts@[j])@.code(),
        decreases n - i,
    {
        codes[i] = opts[i].code();
        i = i + 1;
    }
    let always: [u8; 6] = [
        DHCP_MESSAGE_TYPE,
        SERVER_IDENTIFIER,
        SUBNET_MASK,
        IP_ADDRESS_LEASE_TIME,
        DOMAIN_NAME_SERVER,
        ROUTER,
    ];
    assert(always@ =~= always_sent());
    let pos = choose_by_codes(opts, &mut codes, 0, req_params);
    let pos = choose_by_codes(opts, &mut codes, pos, always.as_slice());
    proof {
        lemma_chosen_concat(option_views(old(opts)@), 0, req_params@, always_sent());
    }
    let ghost views = option_views(opts@);
    opts.truncate(pos);
    assert(option_views(opts@) =~= views.take(pos as int));
}

/// The same choice without the table of codes, for any number of options.
pub fn filter_options_by_req_slow(opts: &mut Vec<DhcpOption>, req_params: &[u8])
    ensures
        option_views(final(opts)@) == filtered(option_views(old(opts)@), req_params@),
{
    let always: [u8; 6] = [
        DHCP_MESSAGE_TYPE,
        SERVER_IDENTIFIER,
        SUBNET_MASK,
        IP_ADDRESS_LEASE_TIME,
        DOMAIN_NAME_SERVER,
        ROUTER,
    ];
    assert(always@ =~= always_sent());
    let pos = choose_by_scan(opts, 0, req_params);
    let pos = choose_by_scan(opts, pos, always.as_slice());
    proof {
        lemma_chosen_concat(option_views(old(opts)@), 0, req_params@, always_sent());
    }
    let ghost views = option_views(opts@);
    opts.truncate(pos);
    assert(option_views(opts@) =~= views.take(pos as int));
}

/// The codes of `opts`.
pub open spec fn codes_of(opts: Seq<OptionView>) -> Seq<u8> {
    opts.map_values(|o: OptionView| o.code())
}

/// Whether `a` can be had from `b` by leaving elements out.
pub open spec fn drawn_from(a: Seq<u8>, b: Seq<u8>) -> bool
    decreases b.len(),
{
    ||| a.len() == 0
    ||| b.len() > 0 && a.first() == b.first() && drawn_from(a.drop_first(), b.drop_first())
    ||| b.len() > 0 && drawn_from(a, b.drop_first())
}

proof fn lemma_drawn_from_contains(a: Seq<u8>, b: Seq<u8>, i: int)
    requires
        drawn_from(a, b),
        0 <= i < a.len(),
    ensures
        b.contains(a[i]),
    decreases b.len(),
{
    if a.first() == b.first() && drawn_from(a.drop_first(), b.drop_first()) {
        if i == 0 {
            assert(b[0] == a[i]);
        } else {
            lemma_drawn_from_contains(a.drop_first(), b.drop_first(), i - 1);
            let j = choose|j: int| 0 <= j < b.drop_first().len() && b.drop_first()[j] == a[i];
            assert(b[j + 1] == a[i]);
        }
    } else {
        lemma_drawn_from_contains(a, b.drop_first(), i);
        let j = choose|j: int| 0 <= j < b.drop_first().len() && b.drop_first()[j] == a[i];
        assert(b[j + 1] == a[i]);
    }
}

proof fn lemma_chosen_order(opts: Seq<OptionView>, pos: int, wanted: Seq<u8>)
    requires
        0 <= pos <= opts.len(),
    ensures
        ({
            let (o, p) = chosen(opts, pos, wanted);
            drawn_from(codes_of(o.subrange(pos, p)), wanted)
        }),
    decreases wanted.len(),
{
    let (o, p) = chosen(opts, pos, wanted);
    lemma_chosen(opts, pos, wanted);
    if wanted.len() > 0 {
        let (o1, p1) = chosen_step(opts, pos, wanted.first());
        lemma_position(opts, pos, wanted.first());
        lemma_chosen_order(o1, p1, wanted.drop_first());
        lemma_chosen(o1, p1, wanted.drop_first());
        if p1 > pos {
            let picked = codes_of(o.subrange(pos, p));
            assert(picked.drop_first() =~= codes_of(o.subrange(p1, p)));
            assert(o[pos] == o1[pos]);
            assert(picked.first() == wanted.first());
        }
    }
}

/// The options that remain stand in the order of the request, followed by
/// those that are always sent, so each of them was requested or is always
/// sent.
pub proof fn filter_keeps_request_order(opts: Seq<OptionView>, requested: Seq<u8>)
    ensures
        drawn_from(codes_of(filtered(opts, requested)), requested + always_sent()),
        forall|i: int|
            0 <= i < filtered(opts, requested).len() ==> {
                let c = (#[trigger] filtered(opts, requested)[i]).code();
                requested.contains(c) || always_sent().contains(c)
            },
{
    let wanted = requested + always_sent();
    let (o, p) = chosen(opts, 0, wanted);
    let out = filtered(opts, requested);
    lemma_chosen(opts, 0, wanted);
    lemma_chosen_order(opts, 0, wanted);
    assert(o.subrange(0, p) =~= out);
    assert forall|i: int| 0 <= i < out.len() implies ({
        let c = (#[trigger] out[i]).code();
        requested.contains(c) || always_sent().contains(c)
    }) by {
        lemma_drawn_from_contains(codes_of(out), wanted, i);
        let j = choose|j: int| 0 <= j < wanted.len() && wanted[j] == out[i].code();
        if j < requested.len() {
            assert(requested[j] == out[i].code());
        } else {
            assert(always_sent()[j - requested.len()] == out[i].code());
        }
    }
}

proof fn lemma_chosen_has(opts: Seq<OptionView>, pos: int, wanted: Seq<u8>, i: int)
    requires
        0 <= pos <= i < opts.len(),
        wanted.contains(opts[i].code()),
    ensures
        ({
            let (o, p) = chosen(opts, pos, wanted);
            exists|j: int| 0 <= j < p && (#[trigger] o[j]).code() == opts[i].code()
        }),
    decreases wanted.len(),
{
    let c = opts[i].code();
    let (o, p) = chosen(opts, pos, wanted);
    let (o1, p1) = chosen_step(opts, pos, wanted.first());
    lemma_position(opts, pos, wanted.first());
    lemma_chosen(o1, p1, wanted.drop_first());
    if wanted.first() == c {
        assert(o[pos] == o1[pos]);
        assert(o[pos].code() == c);
    } else {
        let k = choose|k: int| 0 <= k < wanted.len() && wanted[k] == c;
        assert(wanted.drop_first()[k - 1] == c);
        if p1 > pos {
            let f = position_from(opts, pos, wanted.first())->0;
            let i1 = if i == pos {
                f
            } else {
                i
            };
            assert(o1[i1].code() == c);
            lemma_chosen_has(o1, p1, wanted.drop_first(), i1);
        } else {
            lemma_chosen_has(o1, p1, wanted.drop_first(), i);
        }
    }
}

/// A code that was requested, or is always sent, is still there if it was
/// there before.
pub proof fn filter_keeps_what_is_wanted(opts: Seq<OptionView>, requested: Seq<u8>, i: int)
    requires
        0 <= i < opts.len(),
        requested.contains(opts[i].code()) || always_sent().contains(opts[i].code()),
    ensures
        exists|j: int|
            0 <= j < filtered(opts, requested).len() && (#[trigger] filtered(
                opts,
                requested,
            )[j]).code() == opts[i].code(),
{
    let c = opts[i].code();
    let wanted = requested + always_sent();
    if requested.contains(c) {
        let k = choose|k: int| 0 <= k < requested.len() && requested[k] == c;
        assert(wanted[k] == c);
    } else {
        let k = choose|k: int| 0 <= k < always_sent().len() && always_sent()[k] == c;
        assert(wanted[requested.len() + k] == c);
    }
    let (o, p) = chosen(opts, 0, wanted);
    lemma_chosen(opts, 0, wanted);
    lemma_chosen_has(opts, 0, wanted, i);
    let j = choose|j: int| 0 <= j < p && (#[trigger] o[j]).code() == c;
    assert(filtered(opts, requested)[j].code() == c);
}

/// Nothing is made up: what remains was there, and as often.
pub proof fn filter_only_removes(opts: Seq<OptionView>, requested: Seq<u8>)
    ensures
        filtered(opts, requested).to_multiset().subset_of(opts.to_multiset()),
{
    broadcast use vstd::seq_lib::group_to_multiset_ensures;

    let (o, p) = chosen(opts, 0, requested + always_sent());
    lemma_chosen(opts, 0, requested + always_sent());
    vstd::seq_lib::lemma_multiset_commutative(o.take(p), o.skip(p));
    assert(o.take(p) + o.skip(p) =~= o);
}

proof fn lemma_absent_stays(opts: Seq<OptionView>, pos: int, wanted: Seq<u8>, code: u8)
    requires
        0 <= pos <= opts.len(),
        forall|j: int| pos <= j < opts.len() ==> (#[trigger] opts[j]).code() != code,
    ensures
        ({
            let (o, p) = chosen(opts, pos, wanted);
            forall|j: int| pos <= j < o.len() ==> (#[trigger] o[j]).code() != code
        }),
    decreases wanted.len(),
{
    if wanted.len() > 0 {
        let (o1, p1) = chosen_step(opts, pos, wanted.first());
        lemma_position(opts, pos, wanted.first());
        lemma_absent_stays(o1, p1, wanted.drop_first(), code);
        lemma_chosen(o1, p1, wanted.drop_first());
    }
}

proof fn lemma_chosen_again(opts: Seq<OptionView>, pos: int, wanted: Seq<u8>)
    requires
        0 <= pos <= opts.len(),
    ensures
        ({
            let (o, p) = chosen(opts, pos, wanted);
            chosen(o.take(p), pos, wanted) == (o.take(p), p)
        }),
    decreases wanted.len(),
{
    if wanted.len() > 0 {
        let c = wanted.first();
        let (o, p) = chosen(opts, pos, wanted);
        let out = o.take(p);
        let (o1, p1) = chosen_step(opts, pos, c);
        lemma_chosen(opts, pos, wanted);
        lemma_position(opts, pos, c);
        lemma_chosen(o1, p1, wanted.drop_first());
        lemma_chosen_again(o1, p1, wanted.drop_first());
        if p1 > pos {
            assert(out[pos] == o1[pos]);
            lemma_position_is(out, pos, pos, c);
            assert(exchanged(out, pos, pos) =~= out);
        } else {
            lemma_absent_stays(opts, pos, wanted, c);
            lemma_position_is(out, pos, p, c);
        }
    }
}

/// Filtering again by the same request changes nothing.
pub proof fn filter_is_idempotent(opts: Seq<OptionView>, requested: Seq<u8>)
    ensures
        filtered(filtered(opts, requested), requested) == filtered(opts, requested),
{
    let wanted = requested + always_sent();
    let (o, p) = chosen(opts, 0, wanted);
    lemma_chosen(opts, 0, wanted);
    lemma_chosen_again(opts, 0, wanted);
    assert(o.take(p).take(p) =~= o.take(p));
}

/// How often `code` occurs in `codes`.
pub open spec fn occurrences(codes: Seq<u8>, code: u8) -> nat {
    codes.to_multiset().count(code)
}

proof fn lemma_occurrences_concat(a: Seq<u8>, b: Seq<u8>, code: u8)
    ensures
        occurrences(a + b, code) == occurrences(a, code) + occurrences(b, code),
{
    vstd::seq_lib::lemma_multiset_commutative(a, b);
}

proof fn lemma_occurrences_first(s: Seq<u8>, code: u8)
    requires
        s.len() > 0,
    ensures
        occurrences(s, code) == occurrences(s.drop_first(), code) + if s.first() == code {
            1nat
        } else {
            0nat
        },
{
    broadcast use vstd::seq_lib::group_to_multiset_ensures;

    assert(s =~= seq![s.first()] + s.drop_first());
    assert(seq![s.first()] =~= Seq::empty().push(s.first()));
    lemma_occurrences_concat(seq![s.first()], s.drop_first(), code);
}

proof fn lemma_occurrences_split(opts: Seq<OptionView>, pos: int, code: u8)
    requires
        0 <= pos <= opts.len(),
    ensures
        occurrences(codes_of(opts), code) == occurrences(codes_of(opts.take(pos)), code)
            + occurrences(codes_of(opts.skip(pos)), code),
{
    assert(codes_of(opts) =~= codes_of(opts.take(pos)) + codes_of(opts.skip(pos)));
    lemma_occurrences_concat(codes_of(opts.take(pos)), codes_of(opts.skip(pos)), code);
}

proof fn lemma_step_occurrences(opts: Seq<OptionView>, pos: int, i: int, code: u8)
    requires
        0 <= pos <= i < opts.len(),
    ensures
        ({
            let o = exchanged(opts, i, pos);
            let one = if opts[i].code() == code {
                1nat
            } else {
                0nat
            };
            &&& occurrences(codes_of(o.take(pos + 1)), code) == occurrences(
                codes_of(opts.take(pos)),
                code,
            ) + one
            &&& occurrences(codes_of(o.skip(pos + 1)), code) + one == occurrences(
                codes_of(opts.skip(pos)),
                code,
            )
        }),
{
    broadcast use vstd::seq_lib::group_to_multiset_ensures;

    let o = exchanged(opts, i, pos);
    assert(codes_of(o) =~= exchanged(codes_of(opts), i, pos));
    lemma_exchanged(codes_of(opts), i, pos);
    lemma_occurrences_split(opts, pos, code);
    lemma_occurrences_split(o, pos + 1, code);
    assert(codes_of(o.take(pos + 1)) =~= codes_of(opts.take(pos)).push(opts[i].code()));
}

proof fn lemma_no_occurrence(opts: Seq<OptionView>, code: u8)
    requires
        forall|j: int| 0 <= j < opts.len() ==> (#[trigger] opts[j]).code() != code,
    ensures
        occurrences(codes_of(opts), code) == 0,
{
    broadcast use vstd::seq_lib::group_to_multiset_ensures;

    assert(!codes_of(opts).contains(code));
}

proof fn lemma_chosen_occurrences(opts: Seq<OptionView>, pos: int, wanted: Seq<u8>, code: u8)
    requires
        0 <= pos <= opts.len(),
    ensures
        ({
            let (o, p) = chosen(opts, pos, wanted);
            occurrences(codes_of(o.take(p)), code) == occurrences(codes_of(opts.take(pos)), code)
                + vstd::math::min(
                occurrences(codes_of(opts.skip(pos)), code) as int,
                occurrences(wanted, code) as int,
            )
        }),
    decreases wanted.len(),
{
    broadcast use vstd::seq_lib::group_to_multiset_ensures;

    if wanted.len() == 0 {
        assert(wanted =~= Seq::empty());
        assert(occurrences(wanted, code) == 0);
    } else {
        let (o1, p1) = chosen_step(opts, pos, wanted.first());
        lemma_position(opts, pos, wanted.first());
        lemma_chosen_occurrences(o1, p1, wanted.drop_first(), code);
        lemma_occurrences_first(wanted, code);
        if p1 > pos {
            lemma_step_occurrences(opts, pos, position_from(opts, pos, wanted.first())->0, code);
        } else if wanted.first() == code {
            lemma_no_occurrence(opts.skip(pos), code);
        }
    }
}

/// Which codes remain, and how often: a code is there as often as it was
/// before, or as often as it is asked for, whichever is less. What is always
/// sent counts as asked for once more.
pub proof fn filter_keeps_counts(opts: Seq<OptionView>, requested: Seq<u8>, code: u8)
    ensures
        occurrences(codes_of(filtered(opts, requested)), code) == vstd::math::min(
            occurrences(codes_of(opts), code) as int,
            occurrences(requested + always_sent(), code) as int,
        ),
{
    broadcast use vstd::seq_lib::group_to_multiset_ensures;

    lemma_chosen_occurrences(opts, 0, requested + always_sent(), code);
    assert(opts.skip(0) =~= opts);
    lemma_no_occurrence(opts.take(0), code);
}

// ---------------------------------------------------------------------------
// The server
// ---------------------------------------------------------------------------

/// The server's identity and the peer that it answers.
pub struct Server {
    src: SocketAddr,
    server_ip: Ipv4Addr,
    /// Broadcast destinations, primary first.
    broadcasts: Vec<Ipv4Addr>,
}

/// What a server knows.
pub struct ServerView {
    pub src: SocketAddr,
    pub server_ip: Ipv4Addr,
    pub broadcasts: Seq<Ipv4Addr>,
}

impl View for Server {
    type V = ServerView;

    closed spec fn view(&self) -> ServerView {
        ServerView { src: self.src, server_ip: self.server_ip, broadcasts: self.broadcasts@ }
    }
}

/// Why a datagram was rejected, in a few words.
pub open spec fn error_reason(e: CustomErr<Seq<u8>>) -> Seq<char> {
    match e {
        CustomErr::NomError(_) => "bad magic cookie"@,
        CustomErr::NonUtf8String => "non-UTF8 string option"@,
        CustomErr::UnrecognizedMessageType => "unrecognized message type"@,
        CustomErr::InvalidHlen => "truncated header or option"@,
    }
}

/// Short reason for a rejected datagram.
pub fn describe_decode_error(e: &CustomErr<&[u8]>) -> (r: &'static str)
    ensures
        r@ == error_reason(error_view(*e)),
{
    match e {
        CustomErr::NomError(_) => "bad magic cookie",
        CustomErr::NonUtf8String => "non-UTF8 string option",
        CustomErr::UnrecognizedMessageType => "unrecognized message type",
        CustomErr::InvalidHlen => "truncated header or option",
    }
}

/// Where a reply goes. It goes back to the peer when the peer has a usable
/// source address and did not ask for broadcast. Otherwise it goes to every
/// broadcast address and, with the broadcast flag clear and an address
/// offered, to that address too (RFC 2131 section 4.1).
pub open spec fn routes(
    peer: SocketAddr,
    broadcast: bool,
    yiaddr: Ipv4Addr,
    broadcasts: Seq<Ipv4Addr>,
) -> Seq<SocketAddr> {
    if broadcast || peer.ip.spec_unspecified() {
        let out = broadcasts.map_values(|b: Ipv4Addr| socket_v4(b, peer.port));
        if !broadcast && yiaddr.bits != 0 {
            out.push(socket_v4(yiaddr, peer.port))
        } else {
            out
        }
    } else {
        seq![peer]
    }
}

/// The options of a reply before the client's request list is applied.
pub open spec fn reply_options(
    server_ip: Ipv4Addr,
    msg_type: MessageType,
    additional: Seq<OptionView>,
) -> Seq<OptionView> {
    seq![OptionView::DhcpMessageType(msg_type), OptionView::ServerIdentifier(server_ip)]
        + additional
}

/// The reply to `req`. Where `req` lists the options that it wants, the others
/// are left out.
pub open spec fn reply_to(
    server_ip: Ipv4Addr,
    msg_type: MessageType,
    additional: Seq<OptionView>,
    offer_ip: Ipv4Addr,
    req: PacketView,
) -> PacketView {
    let opts = reply_options(server_ip, msg_type, additional);
    PacketView {
        reply: true,
        hops: 0,
        xid: req.xid,
        secs: 0,
        broadcast: req.broadcast,
        ciaddr: if msg_type is Nak {
            Ipv4Addr { bits: 0 }
        } else {
            req.ciaddr
        },
        yiaddr: offer_ip,
        siaddr: Ipv4Addr { bits: 0 },
        giaddr: req.giaddr,
        chaddr: req.chaddr,
        options: match first_with_code(req.options, PARAMETER_REQUEST_LIST) {
            Some(OptionView::ParameterRequestList(list)) => filtered(opts, list),
            _ => opts,
        },
    }
}

/// Bytes, and where they are to be sent, in order.
#[derive(Debug)]
pub struct Delivery {
    pub wire: Vec<u8>,
    pub dests: Vec<SocketAddr>,
}

impl Server {
    /// Whether there is somewhere to broadcast to.
    pub open spec fn wf(&self) -> bool {
        self@.broadcasts.len() > 0
    }

    /// A server that has heard from nobody yet. Without any broadcast address
    /// it falls back to the limited broadcast address.
    pub fn new(server_ip: Ipv4Addr, broadcast_ips: Vec<Ipv4Addr>) -> (r: Server)
        ensures
            r.wf(),
            r@.server_ip == server_ip,
            r@.src == socket_v4(Ipv4Addr { bits: 0 }, 0),
            r@.broadcasts == if broadcast_ips@.len() == 0 {
                seq![Ipv4Addr { bits: 0xffff_ffff }]
            } else {
                broadcast_ips@
            },
    {
        let src = SocketAddr::v4(Ipv4Addr::unspecified(), 0);
        if broadcast_ips.len() == 0 {
            let mut broadcasts: Vec<Ipv4Addr> = Vec::new();
            broadcasts.push(Ipv4Addr::broadcast());
            assert(broadcasts@ =~= seq![Ipv4Addr { bits: 0xffff_ffff }]);
            Server { src, server_ip, broadcasts }
        } else {
            Server { src, server_ip, broadcasts: broadcast_ips }
        }
    }

    /// Takes in a datagram from `src`. A packet makes `src` the peer; of a
    /// datagram that is no packet the reason is given. Nothing is given where
    /// decoding is not defined.
    pub fn receive(&mut self, src: SocketAddr, datagram: &[u8]) -> (r: Option<
        Result<Packet, &'static str>,
    >)
        ensures
            r is Some <==> decodable(datagram@),
            match r {
                Some(Ok(p)) => {
                    &&& packet_of(datagram@) == Ok::<PacketView, CustomErr<Seq<u8>>>(p@)
                    &&& final(self)@ == (ServerView { src, ..old(self)@ })
                },
                Some(Err(reason)) => {
                    &&& packet_of(datagram@) matches Err(e) && reason@ == error_reason(e)
                    &&& final(self)@ == old(self)@
                },
                None => final(self)@ == old(self)@,
            },
    {
        match Packet::try_from(datagram) {
            Some(Ok(p)) => {
                self.src = src;
                Some(Ok(p))
            },
            Some(Err(e)) => Some(Err(describe_decode_error(&e))),
            None => None,
        }
    }

    /// Whether the packet was meant for this server, as opposed to another on
    /// the network.
    pub fn for_this_server(&self, packet: &Packet) -> (r: bool)
        ensures
            r == (first_with_code(packet@.options, SERVER_IDENTIFIER) == Some(
                OptionView::ServerIdentifier(self@.server_ip),
            )),
    {
        match packet.option(SERVER_IDENTIFIER) {
            Some(DhcpOption::ServerIdentifier(x)) => x.to_bits() == self.server_ip.to_bits(),
            _ => false,
        }
    }

    /// The peer of the last packet.
    pub fn peer(&self) -> (r: SocketAddr)
        ensures
            r == self@.src,
    {
        self.src
    }

    /// Where a reply goes.
    pub fn route_dests(
        peer: SocketAddr,
        broadcast: bool,
        yiaddr: Ipv4Addr,
        broadcasts: &[Ipv4Addr],
    ) -> (r: Vec<SocketAddr>)
        ensures
            r@ == routes(peer, broadcast, yiaddr, broadcasts@),
    {
        let mut out: Vec<SocketAddr> = Vec::new();
        if broadcast || peer.ip.is_unspecified() {
            let mut i: usize = 0;
            while i < broadcasts.len()
                invariant
                    i <= broadcasts@.len(),
                    out@.len() == i,
                    forall|j: int|
                        0 <= j < i ==> #[trigger] out@[j] == socket_v4(broadcasts@[j], peer.port),
                decreases broadcasts@.len() - i,
            {
                out.push(SocketAddr::v4(broadcasts[i], peer.port));
                i = i + 1;
            }
            assert(out@ =~= broadcasts@.map_values(|b: Ipv4Addr| socket_v4(b, peer.port)));
            if !broadcast && peer.ip.is_unspecified() && !yiaddr.is_unspecified() {
                out.push(SocketAddr::v4(yiaddr, peer.port));
            }
        } else {
            out.push(peer);
            assert(out@ =~= seq![peer]);
        }
        out
    }

    /// The bytes of a packet and where they go.
    pub fn send(&self, p: &Packet) -> (r: Delivery)
        ensures
            r.wire@ == packet_bytes(p@),
            r.dests@ == routes(self@.src, p@.broadcast, p@.yiaddr, self@.broadcasts),
    {
        Delivery {
            wire: p.to_wire(),
            dests: Server::route_dests(
                self.src,
                p.broadcast,
                p.yiaddr,
                self.broadcasts.as_slice(),
            ),
        }
    }

    /// The reply to a packet. `additional_options` should include neither the
    /// message type nor the server identifier: these are added here.
    pub fn reply_packet(
        &self,
        msg_type: MessageType,
        additional_options: Vec<DhcpOption>,
        offer_ip: Ipv4Addr,
        req_packet: &Packet,
    ) -> (r: Packet)
        ensures
            r@ == reply_to(
                self@.server_ip,
                msg_type,
                option_views(additional_options@),
                offer_ip,
                req_packet@,
            ),
    {
        let ciaddr = match msg_type {
            MessageType::Nak => Ipv4Addr::unspecified(),
            _ => req_packet.ciaddr,
        };
        let ghost additional = option_views(additional_options@);
        let mut additional_options = additional_options;
        let mut opts: Vec<DhcpOption> = Vec::new();
        opts.push(DhcpOption::DhcpMessageType(msg_type));
        opts.push(DhcpOption::ServerIdentifier(self.server_ip));
        opts.append(&mut additional_options);
        assert(option_views(opts@) =~= reply_options(self@.server_ip, msg_type, additional));
        match req_packet.option(PARAMETER_REQUEST_LIST) {
            Some(DhcpOption::ParameterRequestList(prl)) => {
                filter_options_by_req(&mut opts, prl.as_slice());
            },
            _ => {},
        }
        Packet {
            reply: true,
            hops: 0,
            xid: req_packet.xid,
            secs: 0,
            broadcast: req_packet.broadcast,
            ciaddr,
            yiaddr: offer_ip,
            siaddr: Ipv4Addr::unspecified(),
            giaddr: req_packet.giaddr,
            chaddr: req_packet.chaddr,
            options: opts,
        }
    }

    /// The reply to a packet as bytes, and where they go.
    pub fn reply(
        &self,
        msg_type: MessageType,
        additional_options: Vec<DhcpOption>,
        offer_ip: Ipv4Addr,
        req_packet: &Packet,
    ) -> (r: Delivery)
        ensures
            r.wire@ == packet_bytes(
                reply_to(
                    self@.server_ip,
                    msg_type,
                    option_views(additional_options@),
                    offer_ip,
                    req_packet@,
                ),
            ),
            r.dests@ == routes(
                self@.src,
                req_packet@.broadcast,
                offer_ip,
                self@.broadcasts,
            ),
    {
        let p = self.reply_packet(msg_type, additional_options, offer_ip, req_packet);
        self.send(&p)
    }
}

/// A reply always has somewhere to go.
pub proof fn reply_goes_somewhere(
    peer: SocketAddr,
    broadcast: bool,
    yiaddr: Ipv4Addr,
    broadcasts: Seq<Ipv4Addr>,
)
    requires
        broadcasts.len() > 0,
    ensures
        routes(peer, broadcast, yiaddr, broadcasts).len() > 0,
{
}

/// A peer that has a usable address and did not ask for broadcast gets the
/// reply, and nobody else does.
pub proof fn unicast_only_to_sourced_peer(
    peer: SocketAddr,
    broadcast: bool,
    yiaddr: Ipv4Addr,
    broadcasts: Seq<Ipv4Addr>,
)
    requires
        !broadcast,
        !peer.ip.spec_unspecified(),
    ensures
        routes(peer, broadcast, yiaddr, broadcasts) == seq![peer],
{
}

/// With the broadcast flag set, a reply goes to each broadcast address and
/// nowhere else.
pub proof fn broadcast_flag_is_honoured(
    peer: SocketAddr,
    yiaddr: Ipv4Addr,
    broadcasts: Seq<Ipv4Addr>,
)
    ensures
        routes(peer, true, yiaddr, broadcasts).len() == broadcasts.len(),
        forall|i: int|
            0 <= i < broadcasts.len() ==> #[trigger] routes(peer, true, yiaddr, broadcasts)[i]
                == socket_v4(broadcasts[i], peer.port),
{
}

/// A peer without an address that did not ask for broadcast is reached both by
/// broadcast and, last, at the address that it is given.
pub proof fn unsourced_peer_is_reached_both_ways(
    peer: SocketAddr,
    yiaddr: Ipv4Addr,
    broadcasts: Seq<Ipv4Addr>,
)
    requires
        peer.ip.spec_unspecified(),
        yiaddr.bits != 0,
    ensures
        routes(peer, false, yiaddr, broadcasts).len() == broadcasts.len() + 1,
        forall|i: int|
            0 <= i < broadcasts.len() ==> #[trigger] routes(peer, false, yiaddr, broadcasts)[i]
                == socket_v4(broadcasts[i], peer.port),
        routes(peer, false, yiaddr, broadcasts).last() == socket_v4(yiaddr, peer.port),
{
}

/// Where all options with a code are alike, the first one with it is like them.
proof fn lemma_only_first(opts: Seq<OptionView>, o: OptionView, j: int)
    requires
        0 <= j < opts.len(),
        opts[j].code() == o.code(),
        forall|i: int|
            0 <= i < opts.len() && (#[trigger] opts[i]).code() == o.code() ==> opts[i] == o,
    ensures
        first_with_code(opts, o.code()) == Some(o),
    decreases opts.len(),
{
    if opts.first().code() != o.code() {
        assert forall|i: int|
            0 <= i < opts.drop_first().len() && (#[trigger] opts.drop_first()[i]).code()
                == o.code() implies opts.drop_first()[i] == o by {
            assert(opts.drop_first()[i] == opts[i + 1]);
        }
        assert(opts.drop_first()[j - 1] == opts[j]);
        lemma_only_first(opts.drop_first(), o, j - 1);
    } else {
        assert(opts[0] == o);
    }
}

/// An option that no other shares its code with survives the filter as the
/// only one with that code, if the code was requested or is always sent.
proof fn lemma_survives(opts: Seq<OptionView>, requested: Seq<u8>, k: int)
    requires
        0 <= k < opts.len(),
        requested.contains(opts[k].code()) || always_sent().contains(opts[k].code()),
        forall|i: int|
            0 <= i < opts.len() && (#[trigger] opts[i]).code() == opts[k].code() ==> i == k,
    ensures
        first_with_code(filtered(opts, requested), opts[k].code()) == Some(opts[k]),
{
    broadcast use vstd::seq_lib::group_to_multiset_ensures;

    let out = filtered(opts, requested);
    let o = opts[k];
    filter_keeps_what_is_wanted(opts, requested, k);
    filter_only_removes(opts, requested);
    let j = choose|j: int| 0 <= j < out.len() && (#[trigger] out[j]).code() == o.code();
    assert forall|i: int|
        0 <= i < out.len() && (#[trigger] out[i]).code() == o.code() implies out[i] == o by {
        assert(out.contains(out[i]));
        assert(out.to_multiset().count(out[i]) > 0);
        assert(opts.to_multiset().count(out[i]) > 0);
        assert(opts.contains(out[i]));
    }
    lemma_only_first(out, o, j);
}

proof fn lemma_announced(opts: Seq<OptionView>, t: MessageType)
    requires
        first_with_code(opts, DHCP_MESSAGE_TYPE) == Some(OptionView::DhcpMessageType(t)),
    ensures
        announced_type(opts) == Ok::<MessageType, Seq<char>>(t),
    decreases opts.len(),
{
    if opts.first().code() != DHCP_MESSAGE_TYPE {
        lemma_announced(opts.drop_first(), t);
    }
}

/// Whatever options the client asks for, a reply names its type and its
/// server, unless the caller added options with these codes.
pub proof fn reply_names_type_and_server(
    server_ip: Ipv4Addr,
    msg_type: MessageType,
    additional: Seq<OptionView>,
    offer_ip: Ipv4Addr,
    req: PacketView,
)
    requires
        forall|i: int|
            0 <= i < additional.len() ==> (#[trigger] additional[i]).code() != DHCP_MESSAGE_TYPE
                && additional[i].code() != SERVER_IDENTIFIER,
    ensures
        announced_type(reply_to(server_ip, msg_type, additional, offer_ip, req).options) == Ok::<
            MessageType,
            Seq<char>,
        >(msg_type),
        first_with_code(
            reply_to(server_ip, msg_type, additional, offer_ip, req).options,
            SERVER_IDENTIFIER,
        ) == Some(OptionView::ServerIdentifier(server_ip)),
{
    let opts = reply_options(server_ip, msg_type, additional);
    let out = reply_to(server_ip, msg_type, additional, offer_ip, req).options;
    assert forall|i: int| 2 <= i < opts.len() implies (#[trigger] opts[i]).code()
        != DHCP_MESSAGE_TYPE && opts[i].code() != SERVER_IDENTIFIER by {
        assert(opts[i] == additional[i - 2]);
    }
    assert(always_sent()[0] == DHCP_MESSAGE_TYPE);
    assert(always_sent()[1] == SERVER_IDENTIFIER);
    match first_with_code(req.options, PARAMETER_REQUEST_LIST) {
        Some(OptionView::ParameterRequestList(list)) => {
            lemma_survives(opts, list, 0);
            lemma_survives(opts, list, 1);
        },
        _ => {
            lemma_only_first(opts, opts[0], 0);
            lemma_only_first(opts, opts[1], 1);
        },
    }
    lemma_announced(out, msg_type);
}

/// The header of a reply: it answers the request under its transaction id, for
/// the same machine and by way of the same relay, and gives it `offer_ip`. A
/// refusal gives back no address of the client.
pub proof fn reply_answers_the_request(
    server_ip: Ipv4Addr,
    msg_type: MessageType,
    additional: Seq<OptionView>,
    offer_ip: Ipv4Addr,
    req: PacketView,
)
    ensures
        ({
            let r = reply_to(server_ip, msg_type, additional, offer_ip, req);
            &&& r.reply
            &&& r.xid == req.xid
            &&& r.chaddr == req.chaddr
            &&& r.giaddr == req.giaddr
            &&& r.broadcast == req.broadcast
            &&& r.yiaddr == offer_ip
            &&& r.ciaddr.bits == if msg_type == MessageType::Nak {
                0
            } else {
                req.ciaddr.bits
            }
            &&& r.siaddr.bits == 0
            &&& r.hops == 0
            &&& r.secs == 0
        }),
{
}

/// A client that lists no options gets all of them: the type, the server and
/// what was added, in this order.
pub proof fn reply_without_list_is_complete(
    server_ip: Ipv4Addr,
    msg_type: MessageType,
    additional: Seq<OptionView>,
    offer_ip: Ipv4Addr,
    req: PacketView,
)
    requires
        !(first_with_code(req.options, PARAMETER_REQUEST_LIST) matches Some(
            OptionView::ParameterRequestList(_),
        )),
    ensures
        ({
            let r = reply_to(server_ip, msg_type, additional, offer_ip, req);
            &&& r.options.len() == additional.len() + 2
            &&& r.options[0] == OptionView::DhcpMessageType(msg_type)
            &&& r.options[1] == OptionView::ServerIdentifier(server_ip)
            &&& forall|i: int|
                0 <= i < additional.len() ==> r.options[i + 2] == #[trigger] additional[i]
        }),
{
}

/// Whether a client with the request `req` gets options with the given code: it
/// lists no options, or lists the code, or the code is that of the message
/// type, the server identifier, the subnet mask, the lease time, the name
/// servers or the router.
pub open spec fn wants(req: PacketView, code: u8) -> bool {
    match first_with_code(req.options, PARAMETER_REQUEST_LIST) {
        Some(OptionView::ParameterRequestList(list)) => list.contains(code) || code == 53 || code
            == 54 || code == 1 || code == 51 || code == 6 || code == 3,
        _ => true,
    }
}

/// An added option that the client wants arrives as it is, if no other has its
/// code.
pub proof fn wanted_options_arrive(
    server_ip: Ipv4Addr,
    msg_type: MessageType,
    additional: Seq<OptionView>,
    offer_ip: Ipv4Addr,
    req: PacketView,
    k: int,
)
    requires
        0 <= k < additional.len(),
        wants(req, additional[k].code()),
        additional[k].code() != DHCP_MESSAGE_TYPE,
        additional[k].code() != SERVER_IDENTIFIER,
        forall|i: int|
            0 <= i < additional.len() && (#[trigger] additional[i]).code() == additional[k].code()
                ==> i == k,
    ensures
        first_with_code(
            reply_to(server_ip, msg_type, additional, offer_ip, req).options,
            additional[k].code(),
        ) == Some(additional[k]),
{
    let opts = reply_options(server_ip, msg_type, additional);
    assert forall|i: int|
        0 <= i < opts.len() && (#[trigger] opts[i]).code() == opts[k + 2].code() implies i == k
        + 2 by {
        if i >= 2 {
            assert(opts[i] == additional[i - 2]);
        }
    }
    match first_with_code(req.options, PARAMETER_REQUEST_LIST) {
        Some(OptionView::ParameterRequestList(list)) => {
            assert(always_sent()[0] == 53 && always_sent()[1] == 54 && always_sent()[2] == 1
                && always_sent()[3] == 51 && always_sent()[4] == 6 && always_sent()[5] == 3);
            lemma_survives(opts, list, k + 2);
        },
        _ => {
            lemma_only_first(opts, opts[k + 2], k + 2);
        },
    }
}

/// Nothing arrives that the client does not want, and nothing that was neither
/// added nor names the type or the server.
pub proof fn only_wanted_options_arrive(
    server_ip: Ipv4Addr,
    msg_type: MessageType,
    additional: Seq<OptionView>,
    offer_ip: Ipv4Addr,
    req: PacketView,
    o: OptionView,
)
    requires
        reply_to(server_ip, msg_type, additional, offer_ip, req).options.contains(o),
    ensures
        wants(req, o.code()),
        o == OptionView::DhcpMessageType(msg_type) || o == OptionView::ServerIdentifier(server_ip)
            || additional.contains(o),
{
    broadcast use vstd::seq_lib::group_to_multiset_ensures;

    let opts = reply_options(server_ip, msg_type, additional);
    match first_with_code(req.options, PARAMETER_REQUEST_LIST) {
        Some(OptionView::ParameterRequestList(list)) => {
            let out = filtered(opts, list);
            filter_only_removes(opts, list);
            filter_keeps_request_order(opts, list);
            let i = choose|i: int| 0 <= i < out.len() && out[i] == o;
            assert(out.to_multiset().count(o) > 0);
            assert(opts.to_multiset().count(o) > 0);
            assert(opts.contains(o));
            let c = out[i].code();
            assert(list.contains(c) || always_sent().contains(c));
        },
        _ => {},
    }
    let j = choose|j: int| 0 <= j < opts.len() && opts[j] == o;
    if j >= 2 {
        assert(additional[j - 2] == o);
    }
}

/// A peer without an address that is given none is reached by broadcast alone.
pub proof fn refused_peer_is_reached_by_broadcast(
    peer: SocketAddr,
    broadcast: bool,
    broadcasts: Seq<Ipv4Addr>,
)
    requires
        peer.ip.spec_unspecified(),
    ensures
        routes(peer, broadcast, (Ipv4Addr { bits: 0 }), broadcasts).len() == broadcasts.len(),
        forall|i: int|
            0 <= i < broadcasts.len() ==> #[trigger] routes(
                peer,
                broadcast,
                Ipv4Addr { bits: 0 },
                broadcasts,
            )[i] == socket_v4(broadcasts[i], peer.port),
{
}

} // verus!
