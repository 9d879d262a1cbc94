//! What holds of the client: how commands are read, what comes of queries, and which leases are
//! held.

use crate::client::command::{
    command_of, plain_query, query_of, renew_of, target_of, CommandParseErrorView, CommandView,
    Query, QueryTargetView, QueryView, RenewView,
};
use crate::client::config::{list_text, server_lines};
use crate::client::execution::{
    average, is_job, longest, obtained, query_times, report_of, server_of, shortest, summary_text,
    total, QueryExecutionError, QueryFailureView, QueryPlan, QuerySuccess, QuerySuccessView,
};
use crate::client::leases::{entered, pruned, warnings, DuplicateLeaseView, Leases};
use crate::client::query::{Attempt, Errand, QueryAction, QueryError, QueryEvent, Stage};
use crate::client::shell::{effect_of, EffectView, CANNOT_RENEW};
use crate::client::{ack_in, error_lines, offer_in, CommunicationError};
use crate::net::{law_address_is_read_back, Ipv4Addr};
use crate::protocol::{
    law_mac_address_is_read_back, DhcpClientMessage, DhcpOffer, DhcpServerMessage, MacAddr,
    MacAddrParseError,
};
use crate::text::{
    decimal, law_decimal_is_read_back, lemma_decimal_starts_with_a_digit, lemma_number_is_bounded,
    number,
};
use crate::time::{Duration, Timestamp};
use vstd::prelude::*;

verus! {

/// Whether less than the lease time has passed at `now` since the lease was asked for.
pub open spec fn has_time_left(lease: QuerySuccessView, now: Timestamp) -> bool {
    lease.offer.lease_time > 0 && now.nanos - lease.started.nanos < lease.offer.lease_time
        * 1_000_000_000
}

/// A lease that was held before is held after those that have run out were struck out, and as it
/// was, iff less than its lease time has passed since it was asked for. No other lease is.
pub proof fn law_leases_are_held_for_their_lease_time(leases: Leases, now: Timestamp, ip: Ipv4Addr)
    ensures
        pruned(leases, now).contains_key(ip) <==> leases.contains_key(ip) && has_time_left(
            leases[ip],
            now,
        ),
        pruned(leases, now).contains_key(ip) ==> pruned(leases, now)[ip] == leases[ip],
{
}

/// A lease can be renewed, on the terms on which it is held, iff it is held and less than its
/// lease time has passed since it was asked for. Else the client says that it cannot.
pub proof fn law_leases_can_be_renewed_for_their_lease_time(
    leases: Leases,
    now: Timestamp,
    renew: RenewView,
    servers: Seq<String>,
    version: Seq<char>,
    effect: EffectView,
)
    requires
        0 <= renew.ip_address <= u32::MAX,
    ensures
        ({
            let ip = Ipv4Addr { bits: renew.ip_address as u32 };
            effect_of(CommandView::Renew(renew), servers, pruned(leases, now), version, effect)
                <==> effect == (if leases.contains_key(ip) && has_time_left(leases[ip], now) {
                EffectView::Renew(renew, leases[ip].offer)
            } else {
                EffectView::Show(CANNOT_RENEW@)
            })
        }),
{
}

/// Commands without arguments do what they are for.
pub proof fn law_what_commands_do(
    servers: Seq<String>,
    leases: Leases,
    version: Seq<char>,
    query: QueryView,
    effect: EffectView,
)
    ensures
        effect_of(CommandView::Nop, servers, leases, version, effect) <==> effect
            == EffectView::Nothing,
        effect_of(CommandView::Quit, servers, leases, version, effect) <==> effect
            == EffectView::Quit,
        effect_of(CommandView::Conf, servers, leases, version, effect) <==> effect
            == EffectView::ShowConfig,
        effect_of(CommandView::Query(query), servers, leases, version, effect) <==> effect
            == EffectView::Query(query),
        effect_of(CommandView::GenerateMac, servers, leases, version, effect) <==> exists|
            mac: MacAddr,
        |
            effect == EffectView::Show(#[trigger] mac.text() + "\n"@),
{
}

/// Entering a lease holds it, in place of one for the same address, and leaves all others as they
/// are. Entering several is entering one after the other.
pub proof fn law_how_leases_are_entered(
    leases: Leases,
    one: QuerySuccessView,
    some: Seq<QuerySuccessView>,
    more: Seq<QuerySuccessView>,
)
    ensures
        entered(leases, Seq::empty()) == leases,
        entered(leases, seq![one]) == leases.insert(one.offer.ip, one),
        entered(leases, some + more) == entered(entered(leases, some), more),
    decreases more.len(),
{
    reveal_with_fuel(entered, 2);
    assert(seq![one].drop_last() =~= Seq::empty());
    if more.len() > 0 {
        law_how_leases_are_entered(leases, one, some, more.drop_last());
        assert((some + more).drop_last() =~= some + more.drop_last());
    } else {
        assert(some + more =~= some);
    }
}

/// A lease for an address that is held already gives one warning, which names the address, the
/// server that granted it now and the one that granted it before. Any other lease gives none.
/// Entering several gives the warnings of each, in order.
pub proof fn law_what_is_warned_of(
    leases: Leases,
    one: QuerySuccessView,
    some: Seq<QuerySuccessView>,
    more: Seq<QuerySuccessView>,
)
    ensures
        warnings(leases, Seq::empty()).len() == 0,
        warnings(leases, seq![one]) == (if leases.contains_key(one.offer.ip) {
            seq![
                DuplicateLeaseView {
                    ip: one.offer.ip,
                    server: one.server,
                    previous: leases[one.offer.ip].server,
                },
            ]
        } else {
            Seq::empty()
        }),
        warnings(leases, some + more) == warnings(leases, some) + warnings(
            entered(leases, some),
            more,
        ),
    decreases more.len(),
{
    reveal_with_fuel(warnings, 2);
    assert(seq![one].drop_last() =~= Seq::empty());
    assert(warnings(leases, seq![one]) =~= (if leases.contains_key(one.offer.ip) {
        seq![
            DuplicateLeaseView {
                ip: one.offer.ip,
                server: one.server,
                previous: leases[one.offer.ip].server,
            },
        ]
    } else {
        Seq::empty()
    }));
    if more.len() > 0 {
        law_what_is_warned_of(leases, one, some, more.drop_last());
        law_how_leases_are_entered(leases, one, some, more.drop_last());
        assert((some + more).drop_last() =~= some + more.drop_last());
        assert(warnings(leases, some + more) =~= warnings(leases, some) + warnings(
            entered(leases, some),
            more,
        ));
    } else {
        assert(some + more =~= some);
        assert(warnings(leases, some + more) =~= warnings(leases, some) + warnings(
            entered(leases, some),
            more,
        ));
    }
}

/// The leases that were obtained are those of the results that succeeded, in order.
pub proof fn law_which_leases_are_obtained<E>(
    success: QuerySuccess,
    error: E,
    some: Seq<Result<QuerySuccess, E>>,
    more: Seq<Result<QuerySuccess, E>>,
)
    ensures
        obtained(Seq::<Result<QuerySuccess, E>>::empty()).len() == 0,
        obtained(seq![Ok::<QuerySuccess, E>(success)]) == seq![success@],
        obtained(seq![Err::<QuerySuccess, E>(error)]).len() == 0,
        obtained(some + more) == obtained(some) + obtained(more),
    decreases more.len(),
{
    reveal_with_fuel(obtained, 2);
    let none = Seq::<Result<QuerySuccess, E>>::empty();
    assert(seq![Ok::<QuerySuccess, E>(success)].drop_last() =~= none);
    assert(seq![Err::<QuerySuccess, E>(error)].drop_last() =~= none);
    assert(obtained(seq![Ok::<QuerySuccess, E>(success)]) =~= seq![success@]);
    if more.len() > 0 {
        law_which_leases_are_obtained(success, error, some, more.drop_last());
        assert((some + more).drop_last() =~= some + more.drop_last());
        assert(obtained(some + more) =~= obtained(some) + obtained(more));
    } else {
        assert(some + more =~= some);
        assert(obtained(some + more) =~= obtained(some) + obtained(more));
    }
}

/// The times of the queries are those of the leases, in order, but for those that take more than
/// 64 bits.
pub proof fn law_which_times_are_counted(
    one: QuerySuccessView,
    some: Seq<QuerySuccessView>,
    more: Seq<QuerySuccessView>,
)
    ensures
        query_times(Seq::empty()).len() == 0,
        query_times(seq![one]) == (if one.time.nanos < 0x1_0000_0000_0000_0000 {
            seq![one.time.nanos as int]
        } else {
            Seq::empty()
        }),
        query_times(some + more) == query_times(some) + query_times(more),
    decreases more.len(),
{
    reveal_with_fuel(query_times, 2);
    assert(seq![one].drop_last() =~= Seq::empty());
    assert(query_times(seq![one]) =~= (if one.time.nanos < 0x1_0000_0000_0000_0000 {
        seq![one.time.nanos as int]
    } else {
        Seq::empty()
    }));
    if more.len() > 0 {
        law_which_times_are_counted(one, some, more.drop_last());
        assert((some + more).drop_last() =~= some + more.drop_last());
        assert(query_times(some + more) =~= query_times(some) + query_times(more));
    } else {
        assert(some + more =~= some);
        assert(query_times(some + more) =~= query_times(some) + query_times(more));
    }
}

/// The shortest and the longest of some times are among them, and none is shorter or longer.
pub proof fn law_no_time_is_shorter_or_longer(times: Seq<int>, i: int)
    requires
        0 <= i < times.len(),
    ensures
        shortest(times) <= times[i] <= longest(times),
        times.contains(shortest(times)),
        times.contains(longest(times)),
    decreases times.len(),
{
    if times.len() == 1 {
        assert(times[0] == shortest(times));
    } else {
        let rest = times.drop_last();
        let last = times.len() - 1;
        law_no_time_is_shorter_or_longer(
            rest,
            if i < last {
                i
            } else {
                0
            },
        );
        let a = choose|a: int| 0 <= a < rest.len() && rest[a] == shortest(rest);
        let b = choose|b: int| 0 <= b < rest.len() && rest[b] == longest(rest);
        assert(times[a] == shortest(rest));
        assert(times[b] == longest(rest));
        assert(times[last] == times.last());
        if i < last {
            assert(rest[i] == times[i]);
        }
    }
}

/// The total of some times is that of its parts, and the average is the total divided by their
/// number, rounded down.
pub proof fn law_the_average_is_the_mean(one: int, some: Seq<int>, more: Seq<int>)
    ensures
        total(Seq::empty()) == 0,
        total(seq![one]) == one,
        total(some + more) == total(some) + total(more),
        some.len() > 0 ==> average(some) * some.len() <= total(some) < (average(some) + 1)
            * some.len(),
    decreases more.len(),
{
    reveal_with_fuel(total, 2);
    assert(seq![one].drop_last() =~= Seq::empty());
    if some.len() > 0 {
        let (sum, n) = (total(some), some.len() as int);
        assert(sum / n * n <= sum < (sum / n + 1) * n) by (nonlinear_arith)
            requires
                n > 0,
        ;
    }
    if more.len() > 0 {
        law_the_average_is_the_mean(one, some, more.drop_last());
        assert((some + more).drop_last() =~= some + more.drop_last());
    } else {
        assert(some + more =~= some);
    }
}

/// Which server is meant: any, the one with the number, if there is one, or the one that is named.
pub proof fn law_which_server_is_meant(servers: Seq<String>, i: int, host: Seq<char>)
    requires
        0 <= i <= usize::MAX,
        servers.len() <= usize::MAX,
    ensures
        server_of(QueryTargetView::Random, servers) == Ok::<Option<Seq<char>>, QueryExecutionError>(
            None,
        ),
        server_of(QueryTargetView::Arbitrary(host), servers) == Ok::<
            Option<Seq<char>>,
            QueryExecutionError,
        >(Some(host)),
        match server_of(QueryTargetView::Specific(i), servers) {
            Ok(server) => i < servers.len() && server == Some(servers[i]@),
            Err(QueryExecutionError::InvalidServerIndex(index, range)) => {
                &&& i >= servers.len()
                &&& index == i
                &&& range.start == 0
                &&& range.end == servers.len()
            },
        },
{
}

/// A report names the server that was asked. Of a lease it says what was granted, when it was
/// asked for, and how long that took.
pub proof fn law_what_is_reported(
    offer: DhcpOffer,
    error: QueryError,
    server: Seq<char>,
    started: Timestamp,
    time: Duration,
)
    requires
        started.wf(),
        time.wf(),
    ensures
        report_of(Ok(offer), server, started, started.spec_after(time)) == Ok::<
            QuerySuccessView,
            QueryFailureView,
        >(QuerySuccessView { offer, server, started, time }),
        report_of(Err(error), server, started, started.spec_after(time)) == Err::<
            QuerySuccessView,
            QueryFailureView,
        >(QueryFailureView { server, error }),
        time.nanos > 0 ==> report_of(Ok(offer), server, started.spec_after(time), started) == Ok::<
            QuerySuccessView,
            QueryFailureView,
        >(
            QuerySuccessView {
                offer,
                server,
                started: started.spec_after(time),
                time: Duration { nanos: 0 },
            },
        ),
{
}

/// How an attempt begins: at the first address, if there is one.
pub proof fn law_how_attempts_begin(errand: Errand, addresses: usize)
    ensures
        ({
            let (attempt, action) = Attempt::spec_start(errand, addresses);
            &&& attempt.errand == errand
            &&& attempt.addresses == addresses
            &&& addresses == 0 ==> attempt.stage == Stage::Finished && action
                == QueryAction::Finish(Err(QueryError::UnreachableServer))
            &&& addresses > 0 ==> attempt.stage == Stage::Connecting && attempt.current == 0
                && action == QueryAction::Dial(0)
        }),
{
}

/// What comes of a connection: the client asks for a lease, or for the one that is to be renewed.
/// Without a connection the attempt is over.
pub proof fn law_what_connections_lead_to(attempt: Attempt, error: QueryError)
    requires
        attempt.wf(),
        attempt.stage == Stage::Connecting,
    ensures
        attempt.spec_step(QueryEvent::Dialed(Err(error))) == (
            Attempt { stage: Stage::Finished, ..attempt },
            QueryAction::Finish(Err(error)),
        ),
        attempt.spec_step(QueryEvent::Dialed(Ok(()))) == (match attempt.errand {
            Errand::Query(mac_address) => (
                Attempt { stage: Stage::Discovering, ..attempt },
                QueryAction::Send(DhcpClientMessage::Discover { mac_address }),
            ),
            Errand::Renew(mac_address, lease) => (
                Attempt { stage: Stage::Requesting(lease), ..attempt },
                QueryAction::Send(DhcpClientMessage::Request { mac_address, ip: lease.ip }),
            ),
        }),
{
}

/// What a failed conversation leads to: another address, where there is one and nothing was
/// offered yet.
pub open spec fn failed(attempt: Attempt, error: CommunicationError) -> (Attempt, QueryAction) {
    if attempt.current + 1 < attempt.addresses && !(attempt.errand is Query && attempt.stage
        is Requesting) {
        let next = (attempt.current + 1) as usize;
        (
            Attempt { current: next, stage: Stage::Connecting, ..attempt },
            QueryAction::Dial(next),
        )
    } else {
        (
            Attempt { stage: Stage::Finished, ..attempt },
            QueryAction::Finish(Err(QueryError::Communication(error))),
        )
    }
}

/// What the answer to asking for a lease leads to: what is offered is requested, a refusal ends
/// the attempt, and anything else is a failed conversation.
pub proof fn law_what_answers_to_discover_lead_to(
    mac_address: MacAddr,
    attempt: Attempt,
    offer: DhcpOffer,
    error: CommunicationError,
)
    requires
        attempt.wf(),
        attempt.errand == Errand::Query(mac_address),
        attempt.stage == Stage::Discovering,
    ensures
        attempt.spec_step(QueryEvent::Answered(Ok(DhcpServerMessage::Offer(offer)))) == (
            Attempt { stage: Stage::Requesting(offer), ..attempt },
            QueryAction::Send(DhcpClientMessage::Request { mac_address, ip: offer.ip }),
        ),
        attempt.spec_step(QueryEvent::Answered(Ok(DhcpServerMessage::Nack))) == (
            Attempt { stage: Stage::Finished, ..attempt },
            QueryAction::Finish(Err(QueryError::DiscoverNack)),
        ),
        attempt.spec_step(QueryEvent::Answered(Ok(DhcpServerMessage::Ack))) == failed(
            attempt,
            CommunicationError::UnexpectedMessage(DhcpServerMessage::Ack),
        ),
        attempt.spec_step(QueryEvent::Answered(Err(error))) == failed(attempt, error),
{
}

/// What the answer to a request leads to: an acknowledged lease is obtained, a refusal ends the
/// attempt, and anything else is a failed conversation.
pub proof fn law_what_answers_to_request_lead_to(
    attempt: Attempt,
    lease: DhcpOffer,
    offer: DhcpOffer,
    error: CommunicationError,
)
    requires
        attempt.wf(),
        attempt.stage == Stage::Requesting(lease),
    ensures
        attempt.spec_step(QueryEvent::Answered(Ok(DhcpServerMessage::Ack))) == (
            Attempt { stage: Stage::Finished, ..attempt },
            QueryAction::Finish(Ok(lease)),
        ),
        attempt.spec_step(QueryEvent::Answered(Ok(DhcpServerMessage::Nack))) == (
            Attempt { stage: Stage::Finished, ..attempt },
            QueryAction::Finish(Err(QueryError::RequestNack)),
        ),
        attempt.spec_step(QueryEvent::Answered(Ok(DhcpServerMessage::Offer(offer)))) == failed(
            attempt,
            CommunicationError::UnexpectedMessage(DhcpServerMessage::Offer(offer)),
        ),
        attempt.spec_step(QueryEvent::Answered(Err(error))) == failed(attempt, error),
{
}

/// What the messages of a server say.
pub proof fn law_what_servers_say(offer: DhcpOffer)
    ensures
        offer_in(DhcpServerMessage::Offer(offer)) == Ok::<Option<DhcpOffer>, CommunicationError>(
            Some(offer),
        ),
        offer_in(DhcpServerMessage::Nack) == Ok::<Option<DhcpOffer>, CommunicationError>(None),
        offer_in(DhcpServerMessage::Ack) is Err,
        ack_in(DhcpServerMessage::Ack) == Ok::<bool, CommunicationError>(true),
        ack_in(DhcpServerMessage::Nack) == Ok::<bool, CommunicationError>(false),
        ack_in(DhcpServerMessage::Offer(offer)) is Err,
{
}

/// Whether the words begin with an option.
pub open spec fn begins_with_option(args: Seq<Seq<char>>) -> bool {
    ||| args.len() >= 1 && args[0] == "-v"@
    ||| args.len() >= 2 && (args[0] == "-t"@ || args[0] == "-n"@ || args[0] == "-m"@)
}

proof fn lemma_options_differ()
    ensures
        "-t"@ != "-n"@ && "-t"@ != "-v"@ && "-t"@ != "-m"@,
        "-n"@ != "-v"@ && "-n"@ != "-m"@ && "-v"@ != "-m"@,
{
    reveal_strlit("-t");
    reveal_strlit("-n");
    reveal_strlit("-v");
    reveal_strlit("-m");
    assert("-t"@[1] == 't' && "-n"@[1] == 'n' && "-v"@[1] == 'v' && "-m"@[1] == 'm');
}

/// Each option of a query sets what it is for, and the rest is read as if it was not there. A
/// number or an address that cannot be read is an error.
pub proof fn law_what_options_set(
    value: Seq<char>,
    rest: Seq<Seq<char>>,
    so_far: QueryView,
)
    ensures
        query_of(seq!["-t"@, value] + rest, so_far) == (match number(value, 10, usize::MAX as int) {
            Ok(n) => query_of(
                rest,
                QueryView {
                    threads: if n == 0 {
                        None
                    } else {
                        Some(n)
                    },
                    ..so_far
                },
            ),
            Err(e) => Err(CommandParseErrorView::InvalidNumber(e)),
        }),
        query_of(seq!["-n"@, value] + rest, so_far) == (match number(value, 10, 0xffff_ffff) {
            Ok(n) => query_of(rest, QueryView { batch: n, ..so_far }),
            Err(e) => Err(CommandParseErrorView::InvalidNumber(e)),
        }),
        query_of(seq!["-v"@] + rest, so_far) == query_of(
            rest,
            QueryView { verbose: true, ..so_far },
        ),
        query_of(seq!["-m"@, value] + rest, so_far) == (match MacAddr::spec_parse(value) {
            Ok(mac) => query_of(rest, QueryView { mac_address: Some(mac), ..so_far }),
            Err(e) => Err(CommandParseErrorView::InvalidMacAddress(e)),
        }),
{
    lemma_options_differ();
    assert((seq!["-t"@, value] + rest).skip(2) =~= rest);
    assert((seq!["-n"@, value] + rest).skip(2) =~= rest);
    assert((seq!["-v"@] + rest).skip(1) =~= rest);
    assert((seq!["-m"@, value] + rest).skip(2) =~= rest);
    assert((seq!["-t"@, value] + rest)[0] == "-t"@);
    assert((seq!["-n"@, value] + rest)[0] == "-n"@);
    assert((seq!["-v"@] + rest)[0] == "-v"@);
    assert((seq!["-m"@, value] + rest)[0] == "-m"@);
    lemma_number_is_bounded(value, 10, usize::MAX as int);
    assert((seq!["-t"@, value] + rest)[1] == value);
    assert((seq!["-n"@, value] + rest)[1] == value);
    assert((seq!["-m"@, value] + rest)[1] == value);
}

/// What follows the options of a query names the server; the options stay as they were read.
pub proof fn law_what_follows_the_options(args: Seq<Seq<char>>, so_far: QueryView)
    requires
        !begins_with_option(args),
    ensures
        query_of(args, so_far) == (match target_of(args) {
            Ok(target) => Ok(QueryView { target, ..so_far }),
            Err(e) => Err(e),
        }),
{
}

/// A query without words asks for one lease, of any server, for any client, without saying how
/// many threads to use.
pub proof fn law_the_plain_query()
    ensures
        query_of(Seq::empty(), plain_query()) == Ok::<QueryView, CommandParseErrorView>(
            QueryView {
                threads: None,
                batch: 1,
                target: QueryTargetView::Random,
                verbose: false,
                mac_address: None,
            },
        ),
{
}

/// How a server is named: not at all or as `random` for any, by its number, or by its host. More
/// words than one are an error.
pub proof fn law_how_servers_are_named(i: nat, host: Seq<char>, args: Seq<Seq<char>>)
    requires
        i <= usize::MAX,
        host != "random"@,
        number(host, 10, usize::MAX as int) is Err,
        args.len() > 1,
    ensures
        target_of(Seq::empty()) == Ok::<QueryTargetView, CommandParseErrorView>(
            QueryTargetView::Random,
        ),
        target_of(seq!["random"@]) == Ok::<QueryTargetView, CommandParseErrorView>(
            QueryTargetView::Random,
        ),
        target_of(seq![decimal(i)]) == Ok::<QueryTargetView, CommandParseErrorView>(
            QueryTargetView::Specific(i as int),
        ),
        target_of(seq![host]) == Ok::<QueryTargetView, CommandParseErrorView>(
            QueryTargetView::Arbitrary(host),
        ),
        target_of(args) == Err::<QueryTargetView, CommandParseErrorView>(
            CommandParseErrorView::UnrecognizedArguments(args),
        ),
{
    law_decimal_is_read_back(i, usize::MAX as int);
    lemma_decimal_starts_with_a_digit(i);
    reveal_strlit("random");
    assert("random"@[0] == 'r');
}

/// A renewal is read as it is written: the address of the client, the address that is leased, and
/// the server.
pub proof fn law_renewals_are_read_back(mac: MacAddr, ip: Ipv4Addr, server: Seq<Seq<char>>)
    ensures
        renew_of(seq![mac.text(), ip.text()] + server) == (match target_of(server) {
            Ok(target) => Ok(
                RenewView { target, mac_address: mac.0@, ip_address: ip.bits as int },
            ),
            Err(e) => Err(e),
        }),
{
    law_mac_address_is_read_back(mac);
    law_address_is_read_back(ip);
    let args = seq![mac.text(), ip.text()] + server;
    assert(args.skip(2) =~= server);
}

/// What is wrong with a renewal: too few words, the server, the address of the client, or the
/// address that is leased, in this order.
pub proof fn law_what_is_wrong_with_renewals(args: Seq<Seq<char>>)
    ensures
        match renew_of(args) {
            Ok(renew) => {
                &&& args.len() >= 2
                &&& target_of(args.skip(2)) == Ok::<QueryTargetView, CommandParseErrorView>(
                    renew.target,
                )
                &&& MacAddr::spec_parse(args[0]) == Ok::<Seq<u8>, MacAddrParseError>(
                    renew.mac_address,
                )
                &&& Ipv4Addr::spec_parse(args[1]) == Some(renew.ip_address)
            },
            Err(e) => if args.len() < 2 {
                e == CommandParseErrorView::UnrecognizedArguments(args)
            } else if target_of(args.skip(2)) is Err {
                target_of(args.skip(2)) == Err::<QueryTargetView, CommandParseErrorView>(e)
            } else if MacAddr::spec_parse(args[0]) is Err {
                e == CommandParseErrorView::InvalidMacAddress(
                    MacAddr::spec_parse(args[0])->Err_0,
                )
            } else {
                &&& Ipv4Addr::spec_parse(args[1]) is None
                &&& e is InvalidIpAddress
            },
        },
{
}

/// Whether a word is one of the names of the command that a word alone is.
pub open spec fn names(word: Seq<char>, command: CommandView) -> bool {
    match command {
        CommandView::Quit => word == "exit"@ || word == "quit"@ || word == "q"@,
        CommandView::GenerateMac => word == "generate"@ || word == "gen"@,
        CommandView::List => word == "list"@ || word == "ls"@,
        CommandView::Conf => word == "conf"@ || word == "cf"@,
        CommandView::Help => word == "help"@ || word == "h"@,
        _ => false,
    }
}

/// How commands are named. A query and a renewal take the words that follow; the other commands
/// take none, and any other word is no command.
pub proof fn law_how_commands_are_named(word: Seq<char>, args: Seq<Seq<char>>, command: CommandView)
    ensures
        command_of(Seq::empty()) == Ok::<CommandView, CommandParseErrorView>(CommandView::Nop),
        names(word, command) ==> command_of(seq![word] + args) == (if args.len() == 0 {
            Ok(command)
        } else {
            Err(CommandParseErrorView::UnrecognizedCommand(word))
        }),
        word == "query"@ || word == "qr"@ ==> command_of(seq![word] + args) == (match query_of(
            args,
            plain_query(),
        ) {
            Ok(query) => Ok(CommandView::Query(query)),
            Err(e) => Err(e),
        }),
        word == "renew"@ || word == "re"@ ==> command_of(seq![word] + args) == (match renew_of(
            args,
        ) {
            Ok(renew) => Ok(CommandView::Renew(renew)),
            Err(e) => Err(e),
        }),
        word != "query"@ && word != "qr"@ && word != "renew"@ && word != "re"@ && !names(
            word,
            CommandView::Quit,
        ) && !names(word, CommandView::GenerateMac) && !names(word, CommandView::List) && !names(
            word,
            CommandView::Conf,
        ) && !names(word, CommandView::Help) ==> command_of(seq![word] + args) == Err::<
            CommandView,
            CommandParseErrorView,
        >(CommandParseErrorView::UnrecognizedCommand(word)),
{
    crate::client::command::lemma_names_differ();
    let line = seq![word] + args;
    assert(line.skip(1) =~= args);
    assert(line[0] == word);
}

/// What a summary says: how many of the leases that were asked for were obtained, in green iff it
/// is all of them; the shortest, the mean and the longest time, if there is any; and how long it
/// took in all.
pub proof fn law_what_a_summary_says(
    successes: Seq<QuerySuccessView>,
    batch: u32,
    time: Duration,
)
    ensures
        ({
            let times = query_times(successes);
            let line = |label: Seq<char>, nanos: int|
                label + " query time: \x1b[32m"@ + (Duration { nanos: nanos as u128 }).text(0, 3)
                    + "\x1b[0m\n"@;
            let count = "Successful: "@ + (if successes.len() == batch {
                "\x1b[32m"@
            } else {
                "\x1b[31m"@
            }) + decimal(successes.len()) + "\x1b[0m / \x1b[32m"@ + decimal(batch as nat)
                + "\x1b[0m\n"@;
            let end = "Queries took \x1b[32m"@ + time.text(0, 3) + "\x1b[0m, "@;
            &&& times.len() == 0 ==> summary_text(successes, batch, time) == count + end
            &&& times.len() > 0 ==> summary_text(successes, batch, time) == count + line(
                "Min"@,
                shortest(times),
            ) + line("Avg"@, average(times)) + line("Max"@, longest(times)) + end
        }),
{
    let times = query_times(successes);
    let line = |label: Seq<char>, nanos: int|
        label + " query time: \x1b[32m"@ + (Duration { nanos: nanos as u128 }).text(0, 3)
            + "\x1b[0m\n"@;
    let count = "Successful: "@ + (if successes.len() == batch {
        "\x1b[32m"@
    } else {
        "\x1b[31m"@
    }) + decimal(successes.len()) + "\x1b[0m / \x1b[32m"@ + decimal(batch as nat) + "\x1b[0m\n"@;
    let end = "Queries took \x1b[32m"@ + time.text(0, 3) + "\x1b[0m, "@;
    if times.len() == 0 {
        assert(summary_text(successes, batch, time) =~= count + end);
    } else {
        assert(summary_text(successes, batch, time) =~= count + line("Min"@, shortest(times))
            + line("Avg"@, average(times)) + line("Max"@, longest(times)) + end);
    }
}

/// What a query of a batch is for: the server that is given, or one of the configured ones, and
/// the client that is given, or any.
pub proof fn law_what_a_job_is(
    plan: QueryPlan,
    cmd: Query,
    servers: Seq<String>,
    job: (String, MacAddr),
)
    ensures
        is_job(plan, cmd, servers, job) <==> {
            &&& plan.server is Some ==> job.0@ == plan.server->Some_0@
            &&& plan.server is None ==> exists|i: int|
                0 <= i < servers.len() && job.0@ == #[trigger] servers[i]@
            &&& cmd.mac_address is Some ==> job.1 == cmd.mac_address->Some_0
        },
{
}

/// The list shows each server under its number, one in a line.
pub proof fn law_the_list_shows_each_server(servers: Seq<String>, name: String)
    ensures
        list_text(Seq::empty()) == "---- Configured Servers ----\n"@ + "\n"@,
        list_text(servers.push(name)) == list_text(servers).drop_last() + "\x1b[36m"@ + decimal(
            servers.len(),
        ) + "\x1b[0m: "@ + name@ + "\n"@ + "\n"@,
{
    let all = servers.push(name);
    reveal_strlit("\n");
    lemma_first_lines(servers, name, servers.len());
    assert(list_text(servers).drop_last() =~= "---- Configured Servers ----\n"@ + server_lines(
        servers,
        servers.len(),
    ));
    assert(list_text(all) =~= list_text(servers).drop_last() + "\x1b[36m"@ + decimal(servers.len())
        + "\x1b[0m: "@ + name@ + "\n"@ + "\n"@);
    assert(list_text(Seq::empty()) =~= "---- Configured Servers ----\n"@ + "\n"@);
}

proof fn lemma_first_lines(servers: Seq<String>, name: String, n: nat)
    requires
        n <= servers.len(),
    ensures
        server_lines(servers.push(name), n) == server_lines(servers, n),
    decreases n,
{
    if n > 0 {
        lemma_first_lines(servers, name, (n - 1) as nat);
    }
}

/// How what the client obtains is shown: the terms of the lease, the server, and the time.
pub proof fn law_how_a_lease_is_reported(success: QuerySuccessView)
    ensures
        success.text() == "Got lease \x1b[32m"@ + success.offer.ip.text() + "/"@ + decimal(
            success.offer.subnet_mask as nat,
        ) + " for "@ + decimal(success.offer.lease_time as nat) + "s"@ + "\x1b[0m, from \x1b[32m"@
            + success.server + "\x1b[0m in \x1b[32m"@ + success.time.text(0, 3) + "\x1b[0m"@,
{
    assert(success.text() =~= "Got lease \x1b[32m"@ + success.offer.ip.text() + "/"@ + decimal(
        success.offer.subnet_mask as nat,
    ) + " for "@ + decimal(success.offer.lease_time as nat) + "s"@ + "\x1b[0m, from \x1b[32m"@
        + success.server + "\x1b[0m in \x1b[32m"@ + success.time.text(0, 3) + "\x1b[0m"@);
}

/// A warning names the address twice, the server that granted it now, and the one before.
pub proof fn law_how_a_duplicate_is_reported(
    ip: Ipv4Addr,
    server: Seq<char>,
    previous: Seq<char>,
)
    ensures
        (DuplicateLeaseView { ip, server, previous }).text()
            == "\x1b[31mGot duplicate lease for "@ + ip.text() + " from "@ + server
            + "\x1b[0m\n"@ + ip.text() + " was previously obtained from "@ + previous + "\n"@,
{
}

/// An error is shown first, and each of its causes in a line below it.
pub proof fn law_how_errors_are_shown(chain: Seq<String>, cause: String)
    requires
        chain.len() > 0,
    ensures
        error_lines(seq![cause], 1) == "\x1b[93m"@ + cause@ + "\x1b[0m\n"@,
        error_lines(chain.push(cause), chain.len() + 1) == error_lines(chain, chain.len())
            + "Caused by: \x1b[35m"@ + cause@ + "\x1b[0m\n"@,
{
    lemma_first_errors(chain, cause, chain.len());
}

proof fn lemma_first_errors(chain: Seq<String>, cause: String, n: nat)
    requires
        n <= chain.len(),
    ensures
        error_lines(chain.push(cause), n) == error_lines(chain, n),
    decreases n,
{
    if n > 1 {
        lemma_first_errors(chain, cause, (n - 1) as nat);
    }
}

} // verus!
