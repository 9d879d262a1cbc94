//! The command line client.

use dhcpcluster::client::command::{
    parse_command, Command, CommandParseError, Query, QueryTarget, Renew,
};
use dhcpcluster::client::config::{Config, File, DEFAULT_THREADS};
use dhcpcluster::client::execution::{
    conclude, handle_query_command, handle_renew_command, jobs, make_job, next_job, renewal_server,
    report_kind, successful, summary, QueryExecutionError, QueryFailure, QueryPlan, QuerySuccess,
    Report,
};
use dhcpcluster::client::leases::{DuplicateLease, LeaseBook};
use dhcpcluster::client::query::{
    get_addresses, Attempt, Errand, Lookup, LookupStep, QueryAction, QueryError, QueryEvent, Stage,
};
use dhcpcluster::client::random::{random_mac_addr, random_server, server_at};
use dhcpcluster::client::shell::{
    after_query, after_renewal, execute_command, handle_line, help, Effect, CANNOT_RENEW,
};
use dhcpcluster::client::{discover, error_text, get_ack, get_offer, request, CommunicationError};
use dhcpcluster::net::{AddrParseError, Ipv4Addr};
use dhcpcluster::protocol::{
    DhcpClientMessage, DhcpOffer, DhcpServerMessage, MacAddr, MacAddrParseError,
};
use dhcpcluster::text::ParseIntError;
use dhcpcluster::time::{Duration, Timestamp};

const SECOND: i128 = 1_000_000_000;
const MAC: MacAddr = MacAddr([1, 2, 3, 4, 5, 6]);
const OFFER: DhcpOffer = DhcpOffer {
    ip: Ipv4Addr { bits: 0x0a00_0002 },
    lease_time: 60,
    subnet_mask: 24,
};

fn at(secs: i128) -> Timestamp {
    Timestamp {
        nanos: secs * SECOND,
    }
}

fn config(servers: &[&str]) -> Config {
    Config::from_file(
        File {
            servers: servers.iter().map(|server| server.to_string()).collect(),
            default_port: 4321,
            timeout_seconds: Some(5),
            thread_count: Some(3),
        },
        None,
    )
}

fn query() -> Query {
    Query {
        threads: None,
        batch: 1,
        target: QueryTarget::Random,
        verbose: false,
        mac_address: None,
    }
}

fn success(bits: u32, server: &str, started: Timestamp, nanos: u128) -> QuerySuccess {
    QuerySuccess {
        offer: DhcpOffer {
            ip: Ipv4Addr::from_bits(bits),
            ..OFFER
        },
        server: server.to_string(),
        started,
        time: Duration { nanos },
    }
}

#[test]
fn the_configuration_of_a_client() {
    let file = |timeout_seconds, thread_count| File {
        servers: vec!["a".to_string(), "b".to_string()],
        default_port: 99,
        timeout_seconds,
        thread_count,
    };
    let config = Config::from_file(file(Some(2), Some(5)), Some(7));
    assert_eq!(config.servers, vec!["a", "b"]);
    assert_eq!(config.default_port, 99);
    assert_eq!(config.timeout, Some(Duration::from_secs(2)));
    assert_eq!(config.thread_count, 5);
    assert_eq!(Config::from_file(file(None, Some(0)), Some(7)).thread_count, 7);
    assert_eq!(Config::from_file(file(None, None), Some(7)).thread_count, 7);
    let bare = Config::from_file(file(None, None), None);
    assert_eq!(bare.thread_count, DEFAULT_THREADS);
    assert_eq!(bare.timeout, None);
}

#[test]
fn servers_are_listed_with_their_numbers() {
    assert_eq!(
        config(&["a.example.com", "b.example.com:1"]).list(),
        "---- Configured Servers ----\n\x1b[36m0\x1b[0m: a.example.com\n\
         \x1b[36m1\x1b[0m: b.example.com:1\n\n"
    );
    assert_eq!(config(&[]).list(), "---- Configured Servers ----\n\n");
}

#[test]
fn commands_and_their_short_names() {
    for (long, short, command) in [
        ("quit", "q", Command::Quit),
        ("generate", "gen", Command::GenerateMac),
        ("list", "ls", Command::List),
        ("conf", "cf", Command::Conf),
        ("help", "h", Command::Help),
        ("query", "qr", Command::Query(query())),
    ] {
        assert_eq!(parse_command(long).as_ref(), Ok(&command));
        assert_eq!(parse_command(short), Ok(command));
    }
    assert_eq!(parse_command("exit"), Ok(Command::Quit));
    assert_eq!(parse_command("   "), Ok(Command::Nop));
    assert_eq!(
        parse_command("re 01:02:03:04:05:06 10.0.0.2"),
        parse_command("renew 01:02:03:04:05:06 10.0.0.2")
    );
}

#[test]
fn unrecognized_commands() {
    let unrecognized = |cmd: &str| Err(CommandParseError::UnrecognizedCommand(cmd.to_string()));
    assert_eq!(parse_command("frobnicate now"), unrecognized("frobnicate"));
    assert_eq!(parse_command("quit now"), unrecognized("quit"));
    assert_eq!(parse_command("list all"), unrecognized("list"));
    assert_eq!(parse_command("Query"), unrecognized("Query"));
}

#[test]
fn queries_with_options() {
    assert_eq!(
        parse_command("query -t 8 -n 1000 -v -m 01:02:03:04:05:06 2"),
        Ok(Command::Query(Query {
            threads: Some(8),
            batch: 1000,
            target: QueryTarget::Specific(2),
            verbose: true,
            mac_address: Some(MAC),
        }))
    );
    assert_eq!(
        parse_command("query -n 3 -n 4 random"),
        Ok(Command::Query(Query {
            batch: 4,
            ..query()
        }))
    );
    assert_eq!(
        parse_command("query -t 0 -n 0 dhcp.example.com:4321"),
        Ok(Command::Query(Query {
            batch: 0,
            target: QueryTarget::Arbitrary("dhcp.example.com:4321".to_string()),
            ..query()
        }))
    );
    // An option without its value is taken for a host
    assert_eq!(
        parse_command("query -n"),
        Ok(Command::Query(Query {
            target: QueryTarget::Arbitrary("-n".to_string()),
            ..query()
        }))
    );
}

#[test]
fn queries_with_wrong_options() {
    assert_eq!(
        parse_command("query -n many"),
        Err(CommandParseError::InvalidNumber(ParseIntError::InvalidDigit))
    );
    assert_eq!(
        parse_command("query -n 4294967296"),
        Err(CommandParseError::InvalidNumber(ParseIntError::PosOverflow))
    );
    assert_eq!(
        parse_command("query -t -1"),
        Err(CommandParseError::InvalidNumber(ParseIntError::InvalidDigit))
    );
    assert_eq!(
        parse_command("query -m 1:2:3"),
        Err(CommandParseError::InvalidMacAddress(MacAddrParseError::Short(3)))
    );
    assert_eq!(
        parse_command("query 1 -v"),
        Err(CommandParseError::UnrecognizedArguments(vec![
            "1".to_string(),
            "-v".to_string()
        ]))
    );
}

#[test]
fn renewals() {
    assert_eq!(
        parse_command("renew 01:02:03:04:05:06 10.0.0.2 1"),
        Ok(Command::Renew(Renew {
            target: QueryTarget::Specific(1),
            mac_address: MAC,
            ip_address: OFFER.ip,
        }))
    );
    assert_eq!(
        parse_command("renew 01:02:03:04:05:06"),
        Err(CommandParseError::UnrecognizedArguments(vec![
            "01:02:03:04:05:06".to_string()
        ]))
    );
    assert_eq!(
        parse_command("renew x y 1 2"),
        Err(CommandParseError::UnrecognizedArguments(vec![
            "1".to_string(),
            "2".to_string()
        ]))
    );
    assert!(matches!(
        parse_command("renew x y"),
        Err(CommandParseError::InvalidMacAddress(_))
    ));
    assert_eq!(
        parse_command("renew 01:02:03:04:05:06 10.0.0"),
        Err(CommandParseError::InvalidIpAddress(AddrParseError))
    );
}

#[test]
fn what_servers_answer() {
    assert_eq!(discover(MAC), DhcpClientMessage::Discover { mac_address: MAC });
    assert_eq!(
        request(MAC, OFFER.ip),
        DhcpClientMessage::Request {
            mac_address: MAC,
            ip: OFFER.ip
        }
    );
    let offer = DhcpServerMessage::Offer(OFFER);
    assert_eq!(get_offer(offer), Ok(Some(OFFER)));
    assert_eq!(get_offer(DhcpServerMessage::Nack), Ok(None));
    assert_eq!(
        get_offer(DhcpServerMessage::Ack),
        Err(CommunicationError::UnexpectedMessage(DhcpServerMessage::Ack))
    );
    assert_eq!(get_ack(DhcpServerMessage::Ack), Ok(true));
    assert_eq!(get_ack(DhcpServerMessage::Nack), Ok(false));
    assert_eq!(
        get_ack(offer),
        Err(CommunicationError::UnexpectedMessage(offer))
    );
}

#[test]
fn names_without_a_port_are_looked_up_again() {
    let failed = LookupStep::Fail(QueryError::NameResolution);
    assert_eq!(get_addresses(Lookup::Resolved, false), LookupStep::Take);
    assert_eq!(get_addresses(Lookup::Resolved, true), LookupStep::Take);
    assert_eq!(
        get_addresses(Lookup::InvalidInput, false),
        LookupStep::UseDefaultPort
    );
    assert_eq!(get_addresses(Lookup::InvalidInput, true), failed);
    assert_eq!(get_addresses(Lookup::Failed, false), failed);
}

/// Runs an attempt in which these events happen.
fn run(errand: Errand, addresses: usize, events: &[QueryEvent]) -> Vec<QueryAction> {
    let (mut attempt, action) = Attempt::start(errand, addresses);
    let mut actions = vec![action];
    for event in events {
        let expected = match event {
            QueryEvent::Dialed(_) => attempt.stage == Stage::Connecting,
            QueryEvent::Answered(_) => matches!(attempt.stage, Stage::Discovering | Stage::Requesting(_)),
        };
        assert!(expected);
        actions.push(attempt.step(*event));
    }
    actions
}

fn answered(message: DhcpServerMessage) -> QueryEvent {
    QueryEvent::Answered(Ok(message))
}

#[test]
fn a_query_obtains_what_is_offered() {
    assert_eq!(
        run(
            Errand::Query(MAC),
            1,
            &[
                QueryEvent::Dialed(Ok(())),
                answered(DhcpServerMessage::Offer(OFFER)),
                answered(DhcpServerMessage::Ack),
            ]
        ),
        vec![
            QueryAction::Dial(0),
            QueryAction::Send(discover(MAC)),
            QueryAction::Send(request(MAC, OFFER.ip)),
            QueryAction::Finish(Ok(OFFER)),
        ]
    );
}

#[test]
fn queries_that_fail() {
    let outcome = |addresses, events: &[QueryEvent]| {
        *run(Errand::Query(MAC), addresses, events).last().unwrap()
    };
    let failed = |e| QueryAction::Finish(Err(e));
    assert_eq!(outcome(0, &[]), failed(QueryError::UnreachableServer));
    for e in [QueryError::Connect, QueryError::SetSocketTimeout] {
        assert_eq!(outcome(2, &[QueryEvent::Dialed(Err(e))]), failed(e));
    }
    let connected = QueryEvent::Dialed(Ok(()));
    assert_eq!(
        outcome(1, &[connected, answered(DhcpServerMessage::Nack)]),
        failed(QueryError::DiscoverNack)
    );
    let offered = answered(DhcpServerMessage::Offer(OFFER));
    assert_eq!(
        outcome(1, &[connected, offered, answered(DhcpServerMessage::Nack)]),
        failed(QueryError::RequestNack)
    );
    // What was offered at one address is not requested at another
    let lost = QueryEvent::Answered(Err(CommunicationError::ReceiveMessage));
    assert_eq!(
        outcome(2, &[connected, offered, lost]),
        failed(QueryError::Communication(CommunicationError::ReceiveMessage))
    );
}

#[test]
fn the_next_address_is_tried() {
    let connected = QueryEvent::Dialed(Ok(()));
    let lost = QueryEvent::Answered(Err(CommunicationError::SendMessage));
    let failed = QueryAction::Finish(Err(QueryError::Communication(
        CommunicationError::SendMessage,
    )));
    for errand in [Errand::Query(MAC), Errand::Renew(MAC, OFFER)] {
        let actions = run(errand, 2, &[connected, lost, connected, lost]);
        assert_eq!(actions[2], QueryAction::Dial(1));
        assert_eq!(actions[4], failed);
    }
}

#[test]
fn a_renewal_keeps_the_terms() {
    let connected = QueryEvent::Dialed(Ok(()));
    assert_eq!(
        run(
            Errand::Renew(MAC, OFFER),
            1,
            &[connected, answered(DhcpServerMessage::Ack)]
        ),
        vec![
            QueryAction::Dial(0),
            QueryAction::Send(request(MAC, OFFER.ip)),
            QueryAction::Finish(Ok(OFFER)),
        ]
    );
    assert_eq!(
        run(
            Errand::Renew(MAC, OFFER),
            1,
            &[connected, answered(DhcpServerMessage::Nack)]
        )[2],
        QueryAction::Finish(Err(QueryError::RequestNack))
    );
}

#[test]
fn the_plan_of_a_query() {
    let config = config(&["a", "b"]);
    let plan = |cmd: &Query| handle_query_command(cmd, &config);
    assert_eq!(
        plan(&query()),
        Ok(QueryPlan {
            server: None,
            threads: 3
        })
    );
    assert_eq!(
        plan(&Query {
            target: QueryTarget::Specific(1),
            threads: Some(9),
            ..query()
        }),
        Ok(QueryPlan {
            server: Some("b".to_string()),
            threads: 9
        })
    );
    assert_eq!(
        plan(&Query {
            target: QueryTarget::Arbitrary("c".to_string()),
            ..query()
        })
        .unwrap()
        .server,
        Some("c".to_string())
    );
    assert_eq!(
        plan(&Query {
            target: QueryTarget::Specific(2),
            ..query()
        }),
        Err(QueryExecutionError::InvalidServerIndex(2, 0..2))
    );
}

#[test]
fn jobs_of_a_query() {
    let config = config(&["a", "b"]);
    let cmd = Query {
        mac_address: Some(MAC),
        ..query()
    };
    let fixed = QueryPlan {
        server: Some("c".to_string()),
        threads: 1,
    };
    assert_eq!(next_job(&fixed, &cmd, &config), ("c".to_string(), MAC));
    let open = QueryPlan {
        server: None,
        threads: 1,
    };
    for _ in 0..20 {
        let (server, mac_address) = next_job(&open, &cmd, &config);
        assert!(server == "a" || server == "b");
        assert_eq!(mac_address, MAC);
    }
}

#[test]
fn what_was_drawn_is_used() {
    let config = config(&["a", "b"]);
    assert_eq!(server_at(&config, 0), "a");
    assert_eq!(server_at(&config, 1), "b");
    let plan = |server: Option<&str>| QueryPlan {
        server: server.map(str::to_string),
        threads: 1,
    };
    let other = MacAddr([9; 6]);
    let given = Query {
        mac_address: Some(MAC),
        ..query()
    };
    assert_eq!(
        make_job(&plan(None), &query(), Some("b"), Some(other)),
        ("b".to_string(), other)
    );
    assert_eq!(
        make_job(&plan(Some("c")), &given, Some("b"), Some(other)),
        ("c".to_string(), MAC)
    );
    assert_eq!(
        make_job(&plan(Some("c")), &given, None, None),
        ("c".to_string(), MAC)
    );
    let renew = |target| Renew {
        target,
        mac_address: MAC,
        ip_address: OFFER.ip,
    };
    assert_eq!(
        renewal_server(&renew(QueryTarget::Random), &config, Some("b")),
        Ok("b".to_string())
    );
    assert_eq!(
        renewal_server(&renew(QueryTarget::Specific(0)), &config, Some("b")),
        Ok("a".to_string())
    );
    assert_eq!(
        renewal_server(&renew(QueryTarget::Specific(2)), &config, None),
        Err(QueryExecutionError::InvalidServerIndex(2, 0..2))
    );
}

#[test]
fn a_batch_has_as_many_queries_as_asked_for() {
    let open = QueryPlan {
        server: None,
        threads: 1,
    };
    for batch in [0, 1, 7, 100] {
        let cmd = Query {
            batch,
            mac_address: Some(MAC),
            ..query()
        };
        let all = jobs(&open, &cmd, &config(&["a", "b"]));
        assert_eq!(all.len(), batch as usize);
        for (server, mac_address) in all {
            assert!(server == "a" || server == "b");
            assert_eq!(mac_address, MAC);
        }
    }
    let none = Query {
        batch: 0,
        ..query()
    };
    assert_eq!(jobs(&open, &none, &config(&[])), vec![]);
}

#[test]
fn attempts_are_concluded() {
    assert_eq!(
        conclude(Ok(OFFER), "a", at(100), at(103)),
        Ok(success(OFFER.ip.bits, "a", at(100), 3_000_000_000))
    );
    // A clock that was set back
    assert_eq!(
        conclude(Ok(OFFER), "a", at(100), at(99)),
        Ok(success(OFFER.ip.bits, "a", at(100), 0))
    );
    assert_eq!(
        conclude(Err(QueryError::DiscoverNack), "a", at(100), at(103)),
        Err(QueryFailure {
            server: "a".to_string(),
            error: QueryError::DiscoverNack
        })
    );
}

#[test]
fn failures_are_reported() {
    let lost = CommunicationError::ReceiveMessage;
    for (error, text) in [
        (QueryError::NameResolution, "Name resolution failed for a"),
        (QueryError::SetSocketTimeout, "Failed to set socket timeout"),
        (QueryError::Connect, "Failed to establish a connection to a"),
        (
            QueryError::UnreachableServer,
            "The server name a resolved to 0 addresses, can't reach server",
        ),
        (QueryError::Communication(lost), "Communication with a failed"),
        (QueryError::RequestNack, "Server a replied to Request with Nack"),
        (QueryError::DiscoverNack, "Server a replied to Discover with Nack"),
    ] {
        let server = "a".to_string();
        assert_eq!(QueryFailure { server, error }.to_text(), text);
    }
}

#[test]
fn outcomes_change_the_leases() {
    let ip = Ipv4Addr::from_bits(1);
    let mut leases = LeaseBook::new();
    assert_eq!(after_query(&mut leases, None), vec![]);
    assert_eq!(leases.get(ip), None);
    assert_eq!(
        after_query(&mut leases, Some(vec![success(1, "a", at(1), 5)])),
        vec![]
    );
    assert_eq!(leases.get(ip), Some(&success(1, "a", at(1), 5)));
    let again = after_query(&mut leases, Some(vec![success(1, "b", at(2), 5)]));
    assert_eq!(again.len(), 1);
    assert_eq!(again[0].previous, "a");
    after_renewal(&mut leases, None);
    assert_eq!(leases.get(ip), Some(&success(1, "b", at(2), 5)));
    after_renewal(&mut leases, Some(success(1, "c", at(3), 5)));
    assert_eq!(leases.get(ip), Some(&success(1, "c", at(3), 5)));
}

#[test]
fn the_server_of_a_renewal() {
    let config = config(&["a", "b"]);
    let server = |target| {
        handle_renew_command(
            &Renew {
                target,
                mac_address: MAC,
                ip_address: OFFER.ip,
            },
            &config,
        )
    };
    assert_eq!(server(QueryTarget::Specific(0)), Ok("a".to_string()));
    assert_eq!(
        server(QueryTarget::Arbitrary("c".to_string())),
        Ok("c".to_string())
    );
    assert_eq!(
        server(QueryTarget::Specific(7)),
        Err(QueryExecutionError::InvalidServerIndex(7, 0..2))
    );
    let any = server(QueryTarget::Random).unwrap();
    assert!(any == "a" || any == "b");
}

#[test]
fn chance_reaches_every_server() {
    let config = config(&["a", "b", "c"]);
    let mut seen = std::collections::HashSet::new();
    for _ in 0..1000 {
        seen.insert(random_server(&config).to_string());
    }
    assert_eq!(seen.len(), 3);
}

#[test]
fn random_mac_addresses_differ() {
    let first = random_mac_addr();
    assert!((0..20).any(|_| random_mac_addr() != first));
}

#[test]
fn successes_are_collected() {
    let results = vec![
        Ok(success(1, "a", at(1), 5)),
        Err("lost"),
        Ok(success(2, "b", at(2), 6)),
    ];
    assert_eq!(
        successful(&results),
        vec![success(1, "a", at(1), 5), success(2, "b", at(2), 6)]
    );
}

#[test]
fn how_to_report() {
    assert_eq!(report_kind(0, true), Report::Optimal);
    assert_eq!(report_kind(0, false), Report::Summary);
    assert_eq!(report_kind(1, false), Report::Each);
    assert_eq!(report_kind(1, true), Report::Each);
    assert_eq!(report_kind(2, true), Report::Each);
    assert_eq!(report_kind(2, false), Report::Summary);
}

#[test]
fn batches_are_summed_up() {
    let successes = vec![
        success(1, "a", at(1), 2_000_000),
        success(2, "a", at(1), 1_000_000),
        success(3, "a", at(1), 6_000_000),
    ];
    let took = Duration::from_millis(20);
    assert_eq!(
        summary(&successes, 3, took),
        "Successful: \x1b[32m3\x1b[0m / \x1b[32m3\x1b[0m\n\
         Min query time: \x1b[32m1.000ms\x1b[0m\n\
         Avg query time: \x1b[32m3.000ms\x1b[0m\n\
         Max query time: \x1b[32m6.000ms\x1b[0m\n\
         Queries took \x1b[32m20.000ms\x1b[0m, "
    );
    assert_eq!(
        summary(&vec![], 3, took),
        "Successful: \x1b[31m0\x1b[0m / \x1b[32m3\x1b[0m\n\
         Queries took \x1b[32m20.000ms\x1b[0m, "
    );
    // Times that take more than 64 bits are left out
    let slow = vec![success(1, "a", at(1), 1 << 64)];
    assert!(!summary(&slow, 1, took).contains("Min"));
}

#[test]
fn successes_are_reported() {
    assert_eq!(
        success(0x0a00_0002, "a.example.com", at(1), 1_234_567).to_text(),
        "Got lease \x1b[32m10.0.0.2/24 for 60s\x1b[0m, from \x1b[32ma.example.com\x1b[0m in \
         \x1b[32m1.235ms\x1b[0m"
    );
}

#[test]
fn errors_are_reported_with_their_causes() {
    assert_eq!(
        error_text(&vec!["a".to_string(), "b".to_string(), "c".to_string()]),
        "\x1b[93ma\x1b[0m\nCaused by: \x1b[35mb\x1b[0m\nCaused by: \x1b[35mc\x1b[0m\n"
    );
}

#[test]
fn leases_are_held_until_they_run_out() {
    let mut leases = LeaseBook::new();
    assert_eq!(leases.insert(success(1, "a", at(100), 5)), None);
    assert_eq!(leases.insert(success(2, "a", at(130), 5)), None);
    leases.prune(at(159));
    assert_eq!(
        leases.get(Ipv4Addr::from_bits(1)),
        Some(&success(1, "a", at(100), 5))
    );
    leases.prune(at(160));
    assert_eq!(leases.get(Ipv4Addr::from_bits(1)), None);
    assert!(leases.get(Ipv4Addr::from_bits(2)).is_some());
    // A clock that was set back
    leases.prune(at(0));
    assert!(leases.get(Ipv4Addr::from_bits(2)).is_some());
    // A renewal takes the place of the lease
    assert_eq!(
        leases.insert(success(2, "b", at(150), 5)),
        Some(success(2, "a", at(130), 5))
    );
    leases.prune(at(200));
    assert_eq!(
        leases.get(Ipv4Addr::from_bits(2)),
        Some(&success(2, "b", at(150), 5))
    );
}

#[test]
fn duplicates_are_reported() {
    let mut leases = LeaseBook::new();
    assert_eq!(
        leases.record(vec![success(1, "a", at(1), 5), success(2, "a", at(1), 5)]),
        vec![]
    );
    let duplicates = leases.record(vec![
        success(3, "b", at(2), 5),
        success(0x0a00_0002, "b", at(2), 5),
        success(2, "b", at(2), 5),
        success(0x0a00_0002, "c", at(2), 5),
    ]);
    let duplicate = |bits, server: &str, previous: &str| DuplicateLease {
        ip: Ipv4Addr::from_bits(bits),
        server: server.to_string(),
        previous: previous.to_string(),
    };
    assert_eq!(
        duplicates,
        vec![duplicate(2, "b", "a"), duplicate(0x0a00_0002, "c", "b")]
    );
    assert_eq!(
        duplicates[1].to_text(),
        "\x1b[31mGot duplicate lease for 10.0.0.2 from c\x1b[0m\n\
         10.0.0.2 was previously obtained from b\n"
    );
    assert_eq!(leases.get(Ipv4Addr::from_bits(2)).unwrap().server, "b");
}

#[test]
fn commands_have_their_effects() {
    let config = config(&["a"]);
    let mut leases = LeaseBook::new();
    let mut line = |line: &str, now| handle_line(line, &config, &mut leases, "1.0", now).unwrap();
    assert_eq!(line("", at(1)), Effect::Nothing);
    assert_eq!(line("q", at(1)), Effect::Quit);
    assert_eq!(line("query", at(1)), Effect::Query(query()));
    assert_eq!(line("ls", at(1)), Effect::Show(config.list()));
    assert_eq!(line("conf", at(1)), Effect::ShowConfig);
    assert_eq!(line("help", at(1)), Effect::Show(help("1.0")));
    assert_eq!(
        line("renew 01:02:03:04:05:06 10.0.0.2", at(1)),
        Effect::Show(CANNOT_RENEW.to_string())
    );
    match line("generate", at(1)) {
        Effect::Show(text) => {
            let mac = MacAddr::from_str(text.strip_suffix('\n').unwrap()).unwrap();
            assert_eq!(text, mac.to_text() + "\n");
        }
        other => panic!("{other:?}"),
    }
}

#[test]
fn expired_leases_are_not_renewed() {
    let config = config(&["a"]);
    let mut leases = LeaseBook::new();
    leases.insert(success(0x0a00_0002, "a", at(100), 5));
    let line = "renew 01:02:03:04:05:06 10.0.0.2 a";
    let renew = Renew {
        target: QueryTarget::Arbitrary("a".to_string()),
        mac_address: MAC,
        ip_address: OFFER.ip,
    };
    assert_eq!(
        handle_line(line, &config, &mut leases, "1.0", at(159)),
        Ok(Effect::Renew(renew, OFFER))
    );
    assert_eq!(
        handle_line(line, &config, &mut leases, "1.0", at(160)),
        Ok(Effect::Show(CANNOT_RENEW.to_string()))
    );
    assert_eq!(
        handle_line("what", &config, &mut leases, "1.0", at(160)),
        Err(CommandParseError::UnrecognizedCommand("what".to_string()))
    );
    assert_eq!(
        execute_command(Command::Quit, &config, &leases, "1.0"),
        Effect::Quit
    );
}

#[test]
fn the_help_names_the_version() {
    let text = help("1.2.3");
    assert!(text.starts_with("---- DHCP Client v1.2.3 ----\nSupported commands:\n"));
    assert!(text.ends_with("Supported shorthands: qr, re, gen, ls, cf, h, q\n\n"));
}
