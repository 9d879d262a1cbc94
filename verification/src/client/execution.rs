//! Carrying out the commands that ask for leases and renew them, and reporting on them.

use crate::client::command::{Query, QueryTarget, QueryTargetView, Renew};
use crate::client::config::Config;
use crate::client::query::QueryError;
use crate::client::random::{random_mac_addr, random_server};
use crate::protocol::{DhcpOffer, MacAddr};
use crate::text::{decimal, push_decimal};
use crate::time::{Duration, Timestamp, NANOS_PER_SEC};
use std::ops::Range;
use vstd::prelude::*;

verus! {

/// A lease that was obtained.
#[derive(Debug, PartialEq, Eq)]
pub struct QuerySuccess {
    pub offer: DhcpOffer,
    /// The server that granted it.
    pub server: String,
    /// When it was asked for.
    pub started: Timestamp,
    /// How long it took.
    pub time: Duration,
}

/// What a [`QuerySuccess`] says.
pub struct QuerySuccessView {
    pub offer: DhcpOffer,
    pub server: Seq<char>,
    pub started: Timestamp,
    pub time: Duration,
}

impl View for QuerySuccess {
    type V = QuerySuccessView;

    open spec fn view(&self) -> QuerySuccessView {
        QuerySuccessView {
            offer: self.offer,
            server: self.server@,
            started: self.started,
            time: self.time,
        }
    }
}

impl QuerySuccessView {
    /// Whether the lease still holds, given when it was asked for and the terms of the offer.
    pub open spec fn is_current(self, now: Timestamp) -> bool {
        let elapsed = if now.nanos < self.started.nanos {
            0
        } else {
            now.nanos - self.started.nanos
        };
        elapsed < self.offer.lease_time * NANOS_PER_SEC
    }

    /// The lease, where it comes from and how long it took, as a person reads it.
    pub open spec fn text(self) -> Seq<char> {
        "Got lease \x1b[32m"@ + self.offer.text() + "\x1b[0m, from \x1b[32m"@ + self.server
            + "\x1b[0m in \x1b[32m"@ + self.time.text(0, 3) + "\x1b[0m"@
    }
}

/// What several [`QuerySuccess`]es say.
pub open spec fn views(successes: Seq<QuerySuccess>) -> Seq<QuerySuccessView> {
    successes.map_values(|success: QuerySuccess| success@)
}

impl QuerySuccess {
    /// Copies the report.
    pub fn duplicate(&self) -> (copy: QuerySuccess)
        ensures
            copy@ == self@,
    {
        QuerySuccess {
            offer: self.offer,
            server: self.server.clone(),
            started: self.started,
            time: self.time,
        }
    }

    /// Whether the lease has not run out yet.
    pub fn is_current(&self, now: Timestamp) -> (current: bool)
        ensures
            current == self@.is_current(now),
    {
        let elapsed: u128 = match now.duration_since(self.started) {
            Some(d) => d.nanos,
            None => 0,
        };
        elapsed < Duration::from_secs(self.offer.lease_time as u64).nanos
    }

    /// The report as a person reads it.
    pub fn to_text(&self) -> (text: String)
        requires
            self.time.wf(),
        ensures
            text@ == self@.text(),
    {
        let mut text = String::new();
        text.append("Got lease \x1b[32m");
        self.offer.push_text(&mut text);
        text.append("\x1b[0m, from \x1b[32m");
        text.append(self.server.as_str());
        text.append("\x1b[0m in \x1b[32m");
        self.time.push_text(&mut text, 0, 3);
        text.append("\x1b[0m");
        assert(text@ =~= self@.text());
        text
    }
}

/// Why a command was not carried out.
#[derive(Debug, PartialEq, Eq)]
pub enum QueryExecutionError {
    /// There is no server with this number, only ones with these.
    InvalidServerIndex(usize, Range<usize>),
}

/// The server that is meant, or `None` where any of the configured ones will do.
pub open spec fn server_of(target: QueryTargetView, servers: Seq<String>) -> Result<
    Option<Seq<char>>,
    QueryExecutionError,
> {
    match target {
        QueryTargetView::Random => Ok(None),
        QueryTargetView::Specific(i) => if i < servers.len() {
            Ok(Some(servers[i]@))
        } else {
            Err(
                QueryExecutionError::InvalidServerIndex(
                    i as usize,
                    Range { start: 0usize, end: servers.len() as usize },
                ),
            )
        },
        QueryTargetView::Arbitrary(host) => Ok(Some(host)),
    }
}

/// Finds the server that is meant.
fn resolve_target(target: &QueryTarget, config: &Config) -> (server: Result<
    Option<String>,
    QueryExecutionError,
>)
    ensures
        match server {
            Ok(Some(server)) => server_of(target@, config.servers@) == Ok::<
                Option<Seq<char>>,
                QueryExecutionError,
            >(Some(server@)),
            Ok(None) => server_of(target@, config.servers@) == Ok::<
                Option<Seq<char>>,
                QueryExecutionError,
            >(None),
            Err(e) => server_of(target@, config.servers@) == Err::<
                Option<Seq<char>>,
                QueryExecutionError,
            >(e),
        },
{
    match target {
        QueryTarget::Random => Ok(None),
        QueryTarget::Specific(i) => if *i < config.servers.len() {
            Ok(Some(config.servers[*i].clone()))
        } else {
            Err(
                QueryExecutionError::InvalidServerIndex(
                    *i,
                    Range { start: 0usize, end: config.servers.len() },
                ),
            )
        },
        QueryTarget::Arbitrary(host) => Ok(Some(host.clone())),
    }
}

/// How to carry out a query.
#[derive(Debug, PartialEq, Eq)]
pub struct QueryPlan {
    /// The server to turn to, or `None` for any of the configured ones.
    pub server: Option<String>,
    /// How many threads to use.
    pub threads: usize,
}

/// Makes out how to carry out a query.
pub fn handle_query_command(cmd: &Query, config: &Config) -> (plan: Result<
    QueryPlan,
    QueryExecutionError,
>)
    ensures
        match plan {
            Ok(plan) => {
                &&& server_of(cmd.target@, config.servers@) == Ok::<
                    Option<Seq<char>>,
                    QueryExecutionError,
                >(
                    match plan.server {
                        Some(server) => Some(server@),
                        None => None,
                    },
                )
                &&& plan.threads == (match cmd.threads {
                    Some(threads) => threads,
                    None => config.thread_count,
                })
            },
            Err(e) => server_of(cmd.target@, config.servers@) == Err::<
                Option<Seq<char>>,
                QueryExecutionError,
            >(e),
        },
{
    match resolve_target(&cmd.target, config) {
        Ok(server) => {
            let threads: usize = match cmd.threads {
                Some(threads) => threads,
                None => config.thread_count,
            };
            Ok(QueryPlan { server, threads })
        },
        Err(e) => Err(e),
    }
}

/// Whether `server` is the name of one of the servers.
pub open spec fn is_one_of(server: Seq<char>, servers: Seq<String>) -> bool {
    exists|i: int| 0 <= i < servers.len() && server == #[trigger] servers[i]@
}

/// Whether a query of a batch, to this server and for this client, is one that was asked for: it
/// goes to the server that is given, or else to one of the configured ones, and is for the client
/// that is given, or else for any.
pub open spec fn is_job(
    plan: QueryPlan,
    cmd: Query,
    servers: Seq<String>,
    job: (String, MacAddr),
) -> bool {
    &&& match plan.server {
        Some(server) => job.0@ == server@,
        None => is_one_of(job.0@, servers),
    }
    &&& cmd.mac_address matches Some(mac_address) ==> job.1 == mac_address
}

/// The server and the client of a query: those that are given, and else those that were drawn.
pub fn make_job(plan: &QueryPlan, cmd: &Query, server: Option<&str>, mac_address: Option<MacAddr>) -> (
    job: (String, MacAddr))
    requires
        plan.server is None ==> server is Some,
        cmd.mac_address is None ==> mac_address is Some,
    ensures
        job.0@ == (match plan.server {
            Some(given) => given@,
            None => server->Some_0@,
        }),
        job.1 == (match cmd.mac_address {
            Some(given) => given,
            None => mac_address->Some_0,
        }),
{
    let server = match &plan.server {
        Some(given) => given.clone(),
        None => server.unwrap().to_owned(),
    };
    let mac_address = match cmd.mac_address {
        Some(given) => given,
        None => mac_address.unwrap(),
    };
    (server, mac_address)
}

/// Picks the server and the client of the next of a batch of queries: those that are given, and
/// else random ones.
pub fn next_job(plan: &QueryPlan, cmd: &Query, config: &Config) -> (job: (String, MacAddr))
    requires
        plan.server is None ==> config.servers@.len() > 0,
    ensures
        is_job(*plan, *cmd, config.servers@, job),
{
    let server = match plan.server {
        Some(_) => None,
        None => Some(random_server(config)),
    };
    let mac_address = match cmd.mac_address {
        Some(_) => None,
        None => Some(random_mac_addr()),
    };
    make_job(plan, cmd, server, mac_address)
}

/// Picks the servers and the clients of a batch of queries: as many as were asked for.
pub fn jobs(plan: &QueryPlan, cmd: &Query, config: &Config) -> (jobs: Vec<(String, MacAddr)>)
    requires
        plan.server is None && cmd.batch > 0 ==> config.servers@.len() > 0,
    ensures
        jobs@.len() == cmd.batch,
        forall|i: int|
            0 <= i < jobs@.len() ==> is_job(*plan, *cmd, config.servers@, #[trigger] jobs@[i]),
{
    let mut jobs: Vec<(String, MacAddr)> = Vec::new();
    let mut i: u32 = 0;
    while i < cmd.batch
        invariant
            plan.server is None && cmd.batch > 0 ==> config.servers@.len() > 0,
            i <= cmd.batch,
            jobs@.len() == i,
            forall|j: int|
                0 <= j < jobs@.len() ==> is_job(*plan, *cmd, config.servers@, #[trigger] jobs@[j]),
        decreases cmd.batch - i,
    {
        jobs.push(next_job(plan, cmd, config));
        i = i + 1;
    }
    jobs
}

/// The server at which to renew a lease: the one that is meant, or else the one that was drawn.
pub fn renewal_server(cmd: &Renew, config: &Config, drawn: Option<&str>) -> (server: Result<
    String,
    QueryExecutionError,
>)
    requires
        cmd.target == QueryTarget::Random ==> drawn is Some,
    ensures
        match server_of(cmd.target@, config.servers@) {
            Ok(Some(name)) => server is Ok && server->Ok_0@ == name,
            Ok(None) => server is Ok && server->Ok_0@ == drawn->Some_0@,
            Err(e) => server == Err::<String, QueryExecutionError>(e),
        },
{
    match resolve_target(&cmd.target, config) {
        Ok(Some(server)) => Ok(server),
        Ok(None) => Ok(drawn.unwrap().to_owned()),
        Err(e) => Err(e),
    }
}

/// Picks the server at which to renew a lease.
pub fn handle_renew_command(cmd: &Renew, config: &Config) -> (server: Result<
    String,
    QueryExecutionError,
>)
    requires
        cmd.target == QueryTarget::Random ==> config.servers@.len() > 0,
    ensures
        match server_of(cmd.target@, config.servers@) {
            Ok(Some(name)) => server is Ok && server->Ok_0@ == name,
            Ok(None) => server is Ok && is_one_of(server->Ok_0@, config.servers@),
            Err(e) => server == Err::<String, QueryExecutionError>(e),
        },
{
    let drawn = match cmd.target {
        QueryTarget::Random => Some(random_server(config)),
        QueryTarget::Specific(_) => None,
        QueryTarget::Arbitrary(_) => None,
    };
    renewal_server(cmd, config, drawn)
}

/// Why no lease was obtained of a server.
#[derive(Debug, PartialEq, Eq)]
pub struct QueryFailure {
    pub server: String,
    pub error: QueryError,
}

/// What a [`QueryFailure`] says.
pub struct QueryFailureView {
    pub server: Seq<char>,
    pub error: QueryError,
}

impl View for QueryFailure {
    type V = QueryFailureView;

    open spec fn view(&self) -> QueryFailureView {
        QueryFailureView { server: self.server@, error: self.error }
    }
}

impl QueryFailureView {
    /// The failure as a person reads it.
    pub open spec fn text(self) -> Seq<char> {
        match self.error {
            QueryError::NameResolution => "Name resolution failed for "@ + self.server,
            QueryError::SetSocketTimeout => "Failed to set socket timeout"@,
            QueryError::Connect => "Failed to establish a connection to "@ + self.server,
            QueryError::UnreachableServer => "The server name "@ + self.server
                + " resolved to 0 addresses, can't reach server"@,
            QueryError::Communication(_) => "Communication with "@ + self.server + " failed"@,
            QueryError::RequestNack => "Server "@ + self.server + " replied to Request with Nack"@,
            QueryError::DiscoverNack => "Server "@ + self.server
                + " replied to Discover with Nack"@,
        }
    }
}

impl QueryFailure {
    /// The failure as a person reads it.
    pub fn to_text(&self) -> (text: String)
        ensures
            text@ == self@.text(),
    {
        let (before, named, after) = match self.error {
            QueryError::NameResolution => ("Name resolution failed for ", true, ""),
            QueryError::SetSocketTimeout => ("Failed to set socket timeout", false, ""),
            QueryError::Connect => ("Failed to establish a connection to ", true, ""),
            QueryError::UnreachableServer => (
                "The server name ",
                true,
                " resolved to 0 addresses, can't reach server",
            ),
            QueryError::Communication(_) => ("Communication with ", true, " failed"),
            QueryError::RequestNack => ("Server ", true, " replied to Request with Nack"),
            QueryError::DiscoverNack => ("Server ", true, " replied to Discover with Nack"),
        };
        proof {
            reveal_strlit("");
        }
        let mut text = String::new();
        text.append(before);
        if named {
            text.append(self.server.as_str());
        }
        text.append(after);
        assert(text@ =~= self@.text());
        text
    }
}

/// What is reported of an attempt at `server` that ended with `outcome`: the lease, with when it
/// was asked for and how long that took, or why there is none.
pub open spec fn report_of(
    outcome: Result<DhcpOffer, QueryError>,
    server: Seq<char>,
    started: Timestamp,
    finished: Timestamp,
) -> Result<QuerySuccessView, QueryFailureView> {
    match outcome {
        Ok(offer) => Ok(
            QuerySuccessView {
                offer,
                server,
                started,
                time: match finished.spec_since(started) {
                    Some(time) => time,
                    None => Duration { nanos: 0 },
                },
            },
        ),
        Err(error) => Err(QueryFailureView { server, error }),
    }
}

/// Reports on an attempt at `server` that began at `started`, and ended at `finished` with
/// `outcome`.
pub fn conclude(
    outcome: Result<DhcpOffer, QueryError>,
    server: &str,
    started: Timestamp,
    finished: Timestamp,
) -> (report: Result<QuerySuccess, QueryFailure>)
    ensures
        match report {
            Ok(success) => report_of(outcome, server@, started, finished) == Ok::<
                QuerySuccessView,
                QueryFailureView,
            >(success@),
            Err(failure) => report_of(outcome, server@, started, finished) == Err::<
                QuerySuccessView,
                QueryFailureView,
            >(failure@),
        },
{
    match outcome {
        Ok(offer) => {
            let time = match finished.duration_since(started) {
                Some(time) => time,
                None => Duration { nanos: 0 },
            };
            Ok(QuerySuccess { offer, server: server.to_owned(), started, time })
        },
        Err(error) => Err(QueryFailure { server: server.to_owned(), error }),
    }
}

/// The leases that were obtained, in order.
pub open spec fn obtained<E>(results: Seq<Result<QuerySuccess, E>>) -> Seq<QuerySuccessView>
    decreases results.len(),
{
    if results.len() == 0 {
        Seq::empty()
    } else {
        match results.last() {
            Ok(success) => obtained(results.drop_last()).push(success@),
            Err(_) => obtained(results.drop_last()),
        }
    }
}

/// Collects the leases that were obtained.
pub fn successful<E>(results: &Vec<Result<QuerySuccess, E>>) -> (successes: Vec<QuerySuccess>)
    ensures
        views(successes@) == obtained(results@),
{
    let mut successes: Vec<QuerySuccess> = Vec::new();
    let mut i: usize = 0;
    assert(results@.take(0) =~= Seq::empty());
    assert(views(successes@) =~= obtained(results@.take(0)));
    while i < results.len()
        invariant
            i <= results@.len(),
            views(successes@) == obtained(results@.take(i as int)),
        decreases results@.len() - i,
    {
        assert(results@.take(i + 1).drop_last() =~= results@.take(i as int));
        if let Ok(success) = &results[i] {
            let copy = success.duplicate();
            let ghost before = successes@;
            successes.push(copy);
            assert(views(successes@) =~= views(before).push(copy@));
        }
        i = i + 1;
    }
    assert(results@.take(i as int) =~= results@);
    successes
}

/// How to report on a batch of queries.
#[derive(Debug, Clone, Copy, PartialEq, Eq, Structural)]
pub enum Report {
    /// There is nothing to report on, and all of it was asked for.
    Optimal,
    /// Every result by itself.
    Each,
    /// All of them in a few lines.
    Summary,
}

/// How to report on a batch of queries.
pub fn report_kind(batch: u32, verbose: bool) -> (report: Report)
    ensures
        report == Report::Optimal <==> batch == 0 && verbose,
        report == Report::Each <==> batch == 1 || batch > 1 && verbose,
        report == Report::Summary <==> batch != 1 && !verbose,
{
    match (batch, verbose) {
        (0, true) => Report::Optimal,
        (1, _) => Report::Each,
        (_, true) => Report::Each,
        _ => Report::Summary,
    }
}

/// How long the queries took, in nanoseconds, without those that took longer than a `u64` can
/// hold.
pub open spec fn query_times(successes: Seq<QuerySuccessView>) -> Seq<int>
    decreases successes.len(),
{
    if successes.len() == 0 {
        Seq::empty()
    } else {
        let nanos = successes.last().time.nanos;
        if nanos <= u64::MAX {
            query_times(successes.drop_last()).push(nanos as int)
        } else {
            query_times(successes.drop_last())
        }
    }
}

/// The shortest of some times.
pub open spec fn shortest(times: Seq<int>) -> int
    decreases times.len(),
{
    if times.len() <= 1 {
        times[0]
    } else {
        let rest = shortest(times.drop_last());
        if times.last() < rest {
            times.last()
        } else {
            rest
        }
    }
}

/// The longest of some times.
pub open spec fn longest(times: Seq<int>) -> int
    decreases times.len(),
{
    if times.len() <= 1 {
        times[0]
    } else {
        let rest = longest(times.drop_last());
        if times.last() > rest {
            times.last()
        } else {
            rest
        }
    }
}

/// All the times together.
pub open spec fn total(times: Seq<int>) -> int
    decreases times.len(),
{
    if times.len() == 0 {
        0
    } else {
        total(times.drop_last()) + times.last()
    }
}

/// The mean of some times, rounded down.
pub open spec fn average(times: Seq<int>) -> int {
    total(times) / times.len() as int
}

/// A line on a time.
pub open spec fn time_line(label: Seq<char>, nanos: int) -> Seq<char> {
    label + " query time: \x1b[32m"@ + (Duration { nanos: nanos as u128 }).text(0, 3)
        + "\x1b[0m\n"@
}

/// The lines on the times.
pub open spec fn time_lines(times: Seq<int>) -> Seq<char> {
    if times.len() == 0 {
        Seq::empty()
    } else {
        time_line("Min"@, shortest(times)) + time_line("Avg"@, average(times)) + time_line(
            "Max"@,
            longest(times),
        )
    }
}

/// The summary of a batch of queries.
pub open spec fn summary_text(
    successes: Seq<QuerySuccessView>,
    batch: u32,
    time: Duration,
) -> Seq<char> {
    "Successful: "@ + (if successes.len() == batch {
        "\x1b[32m"@
    } else {
        "\x1b[31m"@
    }) + decimal(successes.len()) + "\x1b[0m / \x1b[32m"@ + decimal(batch as nat) + "\x1b[0m\n"@
        + time_lines(query_times(successes)) + "Queries took \x1b[32m"@ + time.text(0, 3)
        + "\x1b[0m, "@
}

/// The shortest time, the total, the count and the longest time of some queries.
struct Statistics {
    shortest: u64,
    total: u64,
    count: u64,
    longest: u64,
}

/// Goes through the times of some queries.
fn measure(successes: &Vec<QuerySuccess>) -> (found: Statistics)
    requires
        total(query_times(views(successes@))) <= u64::MAX,
    ensures
        ({
            let times = query_times(views(successes@));
            &&& found.count == times.len()
            &&& found.total == total(times)
            &&& times.len() > 0 ==> found.shortest == shortest(times) && found.longest == longest(
                times,
            )
        }),
{
    let mut found = Statistics { shortest: 0, total: 0, count: 0, longest: 0 };
    let ghost all = views(successes@);
    let mut i: usize = 0;
    assert(all.take(0) =~= Seq::empty());
    while i < successes.len()
        invariant
            i <= successes@.len(),
            all == views(successes@),
            total(query_times(all)) <= u64::MAX,
            ({
                let times = query_times(all.take(i as int));
                &&& times.len() <= i
                &&& found.count == times.len()
                &&& found.total == total(times)
                &&& times.len() > 0 ==> found.shortest == shortest(times) && found.longest
                    == longest(times)
            }),
        decreases successes@.len() - i,
    {
        let ghost before = query_times(all.take(i as int));
        let ghost after = query_times(all.take(i + 1));
        assert(all.take(i + 1).drop_last() =~= all.take(i as int));
        assert(all.take(i + 1).last() == successes@[i as int]@);
        proof {
            lemma_total_grows(all, i + 1);
        }
        let nanos: u128 = successes[i].time.nanos;
        if nanos <= u64::MAX as u128 {
            let time: u64 = nanos as u64;
            assert(after == before.push(time as int));
            assert(after.drop_last() =~= before);
            if found.count == 0 || time < found.shortest {
                found.shortest = time;
            }
            if found.count == 0 || time > found.longest {
                found.longest = time;
            }
            found.total = found.total + time;
            found.count = found.count + 1;
        }
        i = i + 1;
    }
    assert(all.take(i as int) =~= all);
    found
}

/// No part of the queries takes longer than all of them.
proof fn lemma_total_grows(successes: Seq<QuerySuccessView>, n: int)
    requires
        0 <= n <= successes.len(),
    ensures
        total(query_times(successes.take(n))) <= total(query_times(successes)),
    decreases successes.len() - n,
{
    if n < successes.len() {
        lemma_total_grows(successes, n + 1);
        let next = successes.take(n + 1);
        assert(next.drop_last() =~= successes.take(n));
        if next.last().time.nanos <= u64::MAX {
            assert(query_times(next).drop_last() =~= query_times(successes.take(n)));
        }
    } else {
        assert(successes.take(n) =~= successes);
    }
}

fn push_time_line(out: &mut String, label: &str, nanos: u64)
    ensures
        final(out)@ == old(out)@ + time_line(label@, nanos as int),
{
    out.append(label);
    out.append(" query time: \x1b[32m");
    let time = Duration { nanos: nanos as u128 };
    time.push_text(out, 0, 3);
    out.append("\x1b[0m\n");
    assert(out@ =~= old(out)@ + time_line(label@, nanos as int));
}

/// Sums up a batch of queries that took `time` in all: how many leases were obtained, and in what
/// time. The rate remains to be added.
pub fn summary(successes: &Vec<QuerySuccess>, batch: u32, time: Duration) -> (text: String)
    requires
        total(query_times(views(successes@))) <= u64::MAX,
        time.wf(),
    ensures
        text@ == summary_text(views(successes@), batch, time),
{
    let ghost times = query_times(views(successes@));
    let mut text = String::new();
    text.append("Successful: ");
    if successes.len() as u64 == batch as u64 {
        text.append("\x1b[32m");
    } else {
        text.append("\x1b[31m");
    }
    push_decimal(&mut text, successes.len() as u64);
    text.append("\x1b[0m / \x1b[32m");
    push_decimal(&mut text, batch as u64);
    text.append("\x1b[0m\n");
    let ghost head = text@;
    let found = measure(successes);
    if found.count > 0 {
        push_time_line(&mut text, "Min", found.shortest);
        push_time_line(&mut text, "Avg", found.total / found.count);
        push_time_line(&mut text, "Max", found.longest);
    }
    assert(text@ =~= head + time_lines(times));
    text.append("Queries took \x1b[32m");
    time.push_text(&mut text, 0, 3);
    text.append("\x1b[0m, ");
    assert(text@ =~= summary_text(views(successes@), batch, time));
    text
}

/// The mean of some times lies between the shortest and the longest of them.
pub proof fn law_the_average_lies_in_between(times: Seq<int>)
    requires
        times.len() > 0,
    ensures
        shortest(times) <= average(times) <= longest(times),
{
    lemma_total_is_bounded(times);
    let n = times.len() as int;
    let sum = total(times);
    let low = shortest(times);
    let high = longest(times);
    assert(low <= sum / n <= high) by (nonlinear_arith)
        requires
            n > 0,
            low * n <= sum <= high * n,
    ;
}

/// Each of some times is at least the shortest and at most the longest of them.
proof fn lemma_total_is_bounded(times: Seq<int>)
    requires
        times.len() > 0,
    ensures
        shortest(times) * times.len() <= total(times) <= longest(times) * times.len(),
    decreases times.len(),
{
    let rest = times.drop_last();
    let n = rest.len() as int;
    if n == 0 {
        assert(total(rest) == 0);
    } else {
        lemma_total_is_bounded(rest);
        let (low, high) = (shortest(times), longest(times));
        let (low_rest, high_rest) = (shortest(rest), longest(rest));
        assert(low * n <= low_rest * n && low * (n + 1) == low * n + low) by (nonlinear_arith)
            requires
                n > 0,
                low <= low_rest,
        ;
        assert(high_rest * n <= high * n && high * (n + 1) == high * n + high) by (nonlinear_arith)
            requires
                n > 0,
                high_rest <= high,
        ;
    }
}

/// A server that is given by its number is the one that the list shows under this number, and
/// every number on the list will do.
pub proof fn law_listed_servers_can_be_chosen(servers: Seq<String>, i: int)
    requires
        0 <= i,
    ensures
        server_of(QueryTargetView::Specific(i), servers) is Ok <==> i < servers.len(),
        i < servers.len() ==> server_of(QueryTargetView::Specific(i), servers) == Ok::<
            Option<Seq<char>>,
            QueryExecutionError,
        >(Some(servers[i]@)),
{
}

} // verus!
