//! The commands that the client takes.
//!
//! A command is a line of words. The first says what to do; all but the names of servers and
//! hosts are fixed words, numbers and addresses.

use crate::net::{AddrParseError, Ipv4Addr};
use crate::protocol::{MacAddr, MacAddrParseError};
use crate::text::{lemma_number_is_bounded, number, parse_number, same, split_words, texts, words, ParseIntError};
use vstd::prelude::*;

verus! {

/// Which server to turn to.
#[derive(Debug, PartialEq, Eq)]
pub enum QueryTarget {
    /// Any of the configured ones.
    Random,
    /// The configured one with this number.
    Specific(usize),
    /// The one with this name.
    Arbitrary(String),
}

/// What a [`QueryTarget`] says.
pub enum QueryTargetView {
    Random,
    Specific(int),
    Arbitrary(Seq<char>),
}

impl View for QueryTarget {
    type V = QueryTargetView;

    open spec fn view(&self) -> QueryTargetView {
        match self {
            QueryTarget::Random => QueryTargetView::Random,
            QueryTarget::Specific(index) => QueryTargetView::Specific(*index as int),
            QueryTarget::Arbitrary(host) => QueryTargetView::Arbitrary(host@),
        }
    }
}

/// Ask for leases.
#[derive(Debug, PartialEq, Eq)]
pub struct Query {
    /// How many threads to use, if not as many as configured.
    pub threads: Option<usize>,
    /// How many leases to ask for.
    pub batch: u32,
    pub target: QueryTarget,
    pub verbose: bool,
    pub mac_address: Option<MacAddr>,
}

/// What a [`Query`] says.
pub struct QueryView {
    pub threads: Option<int>,
    pub batch: int,
    pub target: QueryTargetView,
    pub verbose: bool,
    pub mac_address: Option<Seq<u8>>,
}

/// The number in an option, if there is one.
pub open spec fn as_int(n: Option<usize>) -> Option<int> {
    match n {
        Some(n) => Some(n as int),
        None => None,
    }
}

/// The octets of the address in an option, if there is one.
pub open spec fn as_octets(mac: Option<MacAddr>) -> Option<Seq<u8>> {
    match mac {
        Some(mac) => Some(mac.0@),
        None => None,
    }
}

impl View for Query {
    type V = QueryView;

    open spec fn view(&self) -> QueryView {
        QueryView {
            threads: as_int(self.threads),
            batch: self.batch as int,
            target: self.target@,
            verbose: self.verbose,
            mac_address: as_octets(self.mac_address),
        }
    }
}

/// Renew a lease.
#[derive(Debug, PartialEq, Eq)]
pub struct Renew {
    pub target: QueryTarget,
    pub mac_address: MacAddr,
    pub ip_address: Ipv4Addr,
}

/// What a [`Renew`] says.
pub struct RenewView {
    pub target: QueryTargetView,
    pub mac_address: Seq<u8>,
    pub ip_address: int,
}

impl View for Renew {
    type V = RenewView;

    open spec fn view(&self) -> RenewView {
        RenewView {
            target: self.target@,
            mac_address: self.mac_address.0@,
            ip_address: self.ip_address.bits as int,
        }
    }
}

/// A command.
#[derive(Debug, PartialEq, Eq)]
pub enum Command {
    Nop,
    Query(Query),
    Renew(Renew),
    GenerateMac,
    List,
    Help,
    Conf,
    Quit,
}

/// What a [`Command`] says.
pub enum CommandView {
    Nop,
    Query(QueryView),
    Renew(RenewView),
    GenerateMac,
    List,
    Help,
    Conf,
    Quit,
}

impl View for Command {
    type V = CommandView;

    open spec fn view(&self) -> CommandView {
        match self {
            Command::Nop => CommandView::Nop,
            Command::Query(query) => CommandView::Query(query@),
            Command::Renew(renew) => CommandView::Renew(renew@),
            Command::GenerateMac => CommandView::GenerateMac,
            Command::List => CommandView::List,
            Command::Help => CommandView::Help,
            Command::Conf => CommandView::Conf,
            Command::Quit => CommandView::Quit,
        }
    }
}

/// Why a line is not a command.
#[derive(Debug, PartialEq, Eq)]
pub enum CommandParseError {
    /// There is something else in the place of a number.
    InvalidNumber(ParseIntError),
    /// These words have no place in the command.
    UnrecognizedArguments(Vec<String>),
    /// There is no such command.
    UnrecognizedCommand(String),
    /// There is something else in the place of a MAC address.
    InvalidMacAddress(MacAddrParseError),
    /// There is something else in the place of an IP address.
    InvalidIpAddress(AddrParseError),
}

/// What a [`CommandParseError`] says.
pub enum CommandParseErrorView {
    InvalidNumber(ParseIntError),
    UnrecognizedArguments(Seq<Seq<char>>),
    UnrecognizedCommand(Seq<char>),
    InvalidMacAddress(MacAddrParseError),
    InvalidIpAddress,
}

impl View for CommandParseError {
    type V = CommandParseErrorView;

    open spec fn view(&self) -> CommandParseErrorView {
        match self {
            CommandParseError::InvalidNumber(e) => CommandParseErrorView::InvalidNumber(*e),
            CommandParseError::UnrecognizedArguments(args) => {
                CommandParseErrorView::UnrecognizedArguments(texts(args@))
            },
            CommandParseError::UnrecognizedCommand(cmd) => {
                CommandParseErrorView::UnrecognizedCommand(cmd@)
            },
            CommandParseError::InvalidMacAddress(e) => CommandParseErrorView::InvalidMacAddress(
                *e,
            ),
            CommandParseError::InvalidIpAddress(_) => CommandParseErrorView::InvalidIpAddress,
        }
    }
}

/// The server that the last words of a command name: at most one word, and any server where there
/// is none.
pub open spec fn target_of(args: Seq<Seq<char>>) -> Result<QueryTargetView, CommandParseErrorView> {
    if args.len() == 0 {
        Ok(QueryTargetView::Random)
    } else if args.len() > 1 {
        Err(CommandParseErrorView::UnrecognizedArguments(args))
    } else if args[0] == "random"@ {
        Ok(QueryTargetView::Random)
    } else {
        match number(args[0], 10, usize::MAX as int) {
            Ok(index) => Ok(QueryTargetView::Specific(index)),
            Err(_) => Ok(QueryTargetView::Arbitrary(args[0])),
        }
    }
}

/// The query that `args` describe, where the options that have been read already are those of
/// `so_far`. Options come before the server. Of an option that occurs twice, the last one counts.
pub open spec fn query_of(args: Seq<Seq<char>>, so_far: QueryView) -> Result<
    QueryView,
    CommandParseErrorView,
>
    decreases args.len(),
{
    if args.len() >= 2 && args[0] == "-t"@ {
        match number(args[1], 10, usize::MAX as int) {
            Ok(n) => query_of(
                args.skip(2),
                QueryView {
                    threads: if n > 0 {
                        Some(n)
                    } else {
                        None
                    },
                    ..so_far
                },
            ),
            Err(e) => Err(CommandParseErrorView::InvalidNumber(e)),
        }
    } else if args.len() >= 2 && args[0] == "-n"@ {
        match number(args[1], 10, u32::MAX as int) {
            Ok(n) => query_of(args.skip(2), QueryView { batch: n, ..so_far }),
            Err(e) => Err(CommandParseErrorView::InvalidNumber(e)),
        }
    } else if args.len() >= 1 && args[0] == "-v"@ {
        query_of(args.skip(1), QueryView { verbose: true, ..so_far })
    } else if args.len() >= 2 && args[0] == "-m"@ {
        match MacAddr::spec_parse(args[1]) {
            Ok(mac) => query_of(args.skip(2), QueryView { mac_address: Some(mac), ..so_far }),
            Err(e) => Err(CommandParseErrorView::InvalidMacAddress(e)),
        }
    } else {
        match target_of(args) {
            Ok(target) => Ok(QueryView { target, ..so_far }),
            Err(e) => Err(e),
        }
    }
}

/// A query without options: one lease, of any server.
pub open spec fn plain_query() -> QueryView {
    QueryView {
        threads: None,
        batch: 1,
        target: QueryTargetView::Random,
        verbose: false,
        mac_address: None,
    }
}

/// The renewal that `args` describe: a MAC address, an IP address, and a server.
pub open spec fn renew_of(args: Seq<Seq<char>>) -> Result<RenewView, CommandParseErrorView> {
    if args.len() < 2 {
        Err(CommandParseErrorView::UnrecognizedArguments(args))
    } else {
        match target_of(args.skip(2)) {
            Err(e) => Err(e),
            Ok(target) => match MacAddr::spec_parse(args[0]) {
                Err(e) => Err(CommandParseErrorView::InvalidMacAddress(e)),
                Ok(mac_address) => match Ipv4Addr::spec_parse(args[1]) {
                    None => Err(CommandParseErrorView::InvalidIpAddress),
                    Some(ip_address) => Ok(RenewView { target, mac_address, ip_address }),
                },
            },
        }
    }
}

/// The command that a line of these words is. Each has a short name too.
pub open spec fn command_of(line: Seq<Seq<char>>) -> Result<CommandView, CommandParseErrorView> {
    if line.len() == 0 {
        Ok(CommandView::Nop)
    } else if line.len() == 1 && (line[0] == "exit"@ || line[0] == "quit"@ || line[0] == "q"@) {
        Ok(CommandView::Quit)
    } else if line[0] == "query"@ || line[0] == "qr"@ {
        match query_of(line.skip(1), plain_query()) {
            Ok(query) => Ok(CommandView::Query(query)),
            Err(e) => Err(e),
        }
    } else if line[0] == "renew"@ || line[0] == "re"@ {
        match renew_of(line.skip(1)) {
            Ok(renew) => Ok(CommandView::Renew(renew)),
            Err(e) => Err(e),
        }
    } else if line.len() == 1 && (line[0] == "generate"@ || line[0] == "gen"@) {
        Ok(CommandView::GenerateMac)
    } else if line.len() == 1 && (line[0] == "list"@ || line[0] == "ls"@) {
        Ok(CommandView::List)
    } else if line.len() == 1 && (line[0] == "conf"@ || line[0] == "cf"@) {
        Ok(CommandView::Conf)
    } else if line.len() == 1 && (line[0] == "help"@ || line[0] == "h"@) {
        Ok(CommandView::Help)
    } else {
        Err(CommandParseErrorView::UnrecognizedCommand(line[0]))
    }
}

/// The outcome of reading something, in terms of what it says.
pub open spec fn said<T: View>(outcome: Result<T, CommandParseError>) -> Result<
    T::V,
    CommandParseErrorView,
> {
    match outcome {
        Ok(value) => Ok(value@),
        Err(e) => Err(e@),
    }
}

/// Copies the words from `from` on.
fn words_from(args: &Vec<String>, from: usize) -> (rest: Vec<String>)
    requires
        from <= args@.len(),
    ensures
        texts(rest@) == texts(args@).skip(from as int),
{
    let mut rest: Vec<String> = Vec::new();
    let mut i: usize = from;
    assert(texts(rest@) =~= texts(args@).subrange(from as int, from as int));
    while i < args.len()
        invariant
            from <= i <= args@.len(),
            texts(rest@) == texts(args@).subrange(from as int, i as int),
        decreases args@.len() - i,
    {
        let ghost before = texts(rest@);
        rest.push(args[i].clone());
        assert(texts(rest@) =~= before.push(args@[i as int]@));
        assert(texts(args@).subrange(from as int, i + 1) =~= texts(args@).subrange(
            from as int,
            i as int,
        ).push(texts(args@)[i as int]));
        i = i + 1;
    }
    assert(texts(args@).subrange(from as int, i as int) =~= texts(args@).skip(from as int));
    rest
}

/// Reads the server that the words from `from` on name.
fn parse_target(args: &Vec<String>, from: usize) -> (target: Result<QueryTarget, CommandParseError>)
    requires
        from <= args@.len(),
    ensures
        said(target) == target_of(texts(args@).skip(from as int)),
{
    let ghost rest = texts(args@).skip(from as int);
    if from == args.len() {
        return Ok(QueryTarget::Random);
    }
    assert(rest[0] == args@[from as int]@);
    if args.len() - from > 1 {
        return Err(CommandParseError::UnrecognizedArguments(words_from(args, from)));
    }
    if same(args[from].as_str(), "random") {
        return Ok(QueryTarget::Random);
    }
    match parse_number(args[from].as_str(), 10, usize::MAX as u64) {
        Ok(index) => Ok(QueryTarget::Specific(index as usize)),
        Err(_) => Ok(QueryTarget::Arbitrary(args[from].clone())),
    }
}

impl Query {
    /// Reads a query from the words from `from` on.
    pub fn parse(args: &Vec<String>, from: usize) -> (query: Result<Query, CommandParseError>)
        requires
            from <= args@.len(),
        ensures
            said(query) == query_of(texts(args@).skip(from as int), plain_query()),
    {
        let mut threads: Option<usize> = None;
        let mut batch: u32 = 1;
        let mut verbose = false;
        let mut mac_address: Option<MacAddr> = None;
        let ghost all = texts(args@);
        let ghost wanted = query_of(all.skip(from as int), plain_query());
        let mut i: usize = from;
        loop
            invariant
                from <= i <= args@.len(),
                all == texts(args@),
                wanted == query_of(all.skip(from as int), plain_query()),
                wanted == query_of(
                    all.skip(i as int),
                    QueryView {
                        threads: as_int(threads),
                        batch: batch as int,
                        target: QueryTargetView::Random,
                        verbose,
                        mac_address: as_octets(mac_address),
                    },
                ),
            decreases args@.len() - i,
        {
            let ghost rest = all.skip(i as int);
            let left: usize = args.len() - i;
            if left >= 1 {
                assert(rest[0] == args@[i as int]@);
                assert(rest.skip(1) =~= all.skip(i + 1));
            }
            if left >= 2 {
                assert(rest[1] == args@[i + 1]@);
                assert(rest.skip(2) =~= all.skip(i + 2));
            }
            if left >= 2 && same(args[i].as_str(), "-t") {
                match parse_number(args[i + 1].as_str(), 10, usize::MAX as u64) {
                    Ok(count) => {
                        threads = if count > 0 {
                            Some(count as usize)
                        } else {
                            None
                        };
                    },
                    Err(e) => return Err(CommandParseError::InvalidNumber(e)),
                }
                i = i + 2;
            } else if left >= 2 && same(args[i].as_str(), "-n") {
                match parse_number(args[i + 1].as_str(), 10, u32::MAX as u64) {
                    Ok(count) => {
                        batch = count as u32;
                    },
                    Err(e) => return Err(CommandParseError::InvalidNumber(e)),
                }
                i = i + 2;
            } else if left >= 1 && same(args[i].as_str(), "-v") {
                verbose = true;
                i = i + 1;
            } else if left >= 2 && same(args[i].as_str(), "-m") {
                match MacAddr::from_str(args[i + 1].as_str()) {
                    Ok(address) => {
                        mac_address = Some(address);
                    },
                    Err(e) => return Err(CommandParseError::InvalidMacAddress(e)),
                }
                i = i + 2;
            } else {
                return match parse_target(args, i) {
                    Ok(target) => Ok(Query { threads, batch, target, verbose, mac_address }),
                    Err(e) => Err(e),
                };
            }
        }
    }
}

impl Renew {
    /// Reads a renewal from the words from `from` on.
    pub fn parse(args: &Vec<String>, from: usize) -> (renew: Result<Renew, CommandParseError>)
        requires
            from <= args@.len(),
        ensures
            said(renew) == renew_of(texts(args@).skip(from as int)),
    {
        let ghost rest = texts(args@).skip(from as int);
        if args.len() - from < 2 {
            return Err(CommandParseError::UnrecognizedArguments(words_from(args, from)));
        }
        assert(rest[0] == args@[from as int]@);
        assert(rest[1] == args@[from + 1]@);
        assert(rest.skip(2) =~= texts(args@).skip(from + 2));
        let target = match parse_target(args, from + 2) {
            Ok(target) => target,
            Err(e) => return Err(e),
        };
        let mac_address = match MacAddr::from_str(args[from].as_str()) {
            Ok(mac_address) => mac_address,
            Err(e) => return Err(CommandParseError::InvalidMacAddress(e)),
        };
        match Ipv4Addr::parse(args[from + 1].as_str()) {
            Ok(ip_address) => Ok(Renew { target, mac_address, ip_address }),
            Err(e) => Err(CommandParseError::InvalidIpAddress(e)),
        }
    }
}

/// Whether a word is one of two.
fn is_either(word: &String, long: &str, short: &str) -> (found: bool)
    ensures
        found == (word@ == long@ || word@ == short@),
{
    same(word.as_str(), long) || same(word.as_str(), short)
}

/// Reads a command.
pub fn parse_command(line: &str) -> (command: Result<Command, CommandParseError>)
    ensures
        said(command) == command_of(words(line@)),
{
    let command = split_words(line);
    let ghost all = texts(command@);
    assert(all.len() == command@.len());
    if command.len() == 0 {
        return Ok(Command::Nop);
    }
    let first = &command[0];
    assert(all[0] == first@);
    let alone = command.len() == 1;
    if alone && (same(first.as_str(), "exit") || is_either(first, "quit", "q")) {
        Ok(Command::Quit)
    } else if is_either(first, "query", "qr") {
        match Query::parse(&command, 1) {
            Ok(query) => Ok(Command::Query(query)),
            Err(e) => Err(e),
        }
    } else if is_either(first, "renew", "re") {
        match Renew::parse(&command, 1) {
            Ok(renew) => Ok(Command::Renew(renew)),
            Err(e) => Err(e),
        }
    } else if alone && is_either(first, "generate", "gen") {
        Ok(Command::GenerateMac)
    } else if alone && is_either(first, "list", "ls") {
        Ok(Command::List)
    } else if alone && is_either(first, "conf", "cf") {
        Ok(Command::Conf)
    } else if alone && is_either(first, "help", "h") {
        Ok(Command::Help)
    } else {
        Err(CommandParseError::UnrecognizedCommand(first.clone()))
    }
}

/// The short name of a command does what the long one does.
pub proof fn law_short_names_are_equivalent(args: Seq<Seq<char>>)
    ensures
        command_of(seq!["query"@] + args) == command_of(seq!["qr"@] + args),
        command_of(seq!["renew"@] + args) == command_of(seq!["re"@] + args),
        command_of(seq!["generate"@]) == command_of(seq!["gen"@]),
        command_of(seq!["list"@]) == command_of(seq!["ls"@]),
        command_of(seq!["conf"@]) == command_of(seq!["cf"@]),
        command_of(seq!["help"@]) == command_of(seq!["h"@]),
        command_of(seq!["quit"@]) == command_of(seq!["q"@]),
{
    assert((seq!["query"@] + args).skip(1) =~= args);
    assert((seq!["qr"@] + args).skip(1) =~= args);
    assert((seq!["renew"@] + args).skip(1) =~= args);
    assert((seq!["re"@] + args).skip(1) =~= args);
    lemma_names_differ();
}

/// Whatever the options, a query that was read asks for at least one thread, if it says a number,
/// and for a number of leases that can be counted.
pub proof fn law_queries_are_sensible(args: Seq<Seq<char>>, so_far: QueryView)
    requires
        so_far.threads matches Some(n) ==> 0 < n <= usize::MAX,
        0 <= so_far.batch <= u32::MAX,
        query_of(args, so_far) is Ok,
    ensures
        query_of(args, so_far)->Ok_0.threads matches Some(n) ==> 0 < n <= usize::MAX,
        0 <= query_of(args, so_far)->Ok_0.batch <= u32::MAX,
    decreases args.len(),
{
    if args.len() >= 2 && args[0] == "-t"@ {
        let n = number(args[1], 10, usize::MAX as int)->Ok_0;
        lemma_number_is_bounded(args[1], 10, usize::MAX as int);
        law_queries_are_sensible(
            args.skip(2),
            QueryView {
                threads: if n > 0 {
                    Some(n)
                } else {
                    None
                },
                ..so_far
            },
        );
    } else if args.len() >= 2 && args[0] == "-n"@ {
        lemma_number_is_bounded(args[1], 10, u32::MAX as int);
        let n = number(args[1], 10, u32::MAX as int)->Ok_0;
        law_queries_are_sensible(args.skip(2), QueryView { batch: n, ..so_far });
    } else if args.len() >= 1 && args[0] == "-v"@ {
        law_queries_are_sensible(args.skip(1), QueryView { verbose: true, ..so_far });
    } else if args.len() >= 2 && args[0] == "-m"@ {
        let mac = MacAddr::spec_parse(args[1])->Ok_0;
        law_queries_are_sensible(args.skip(2), QueryView { mac_address: Some(mac), ..so_far });
    }
}

/// The names of commands begin with a letter of their own, or differ in length.
pub proof fn lemma_names_differ()
    ensures
        "exit"@.len() == 4 && "exit"@[0] == 'e',
        "quit"@.len() == 4 && "quit"@[0] == 'q',
        "q"@.len() == 1 && "q"@[0] == 'q',
        "query"@.len() == 5 && "query"@[0] == 'q',
        "qr"@.len() == 2 && "qr"@[0] == 'q',
        "renew"@.len() == 5 && "renew"@[0] == 'r',
        "re"@.len() == 2 && "re"@[0] == 'r',
        "generate"@.len() == 8 && "generate"@[0] == 'g',
        "gen"@.len() == 3 && "gen"@[0] == 'g',
        "list"@.len() == 4 && "list"@[0] == 'l',
        "ls"@.len() == 2 && "ls"@[0] == 'l',
        "conf"@.len() == 4 && "conf"@[0] == 'c',
        "cf"@.len() == 2 && "cf"@[0] == 'c',
        "help"@.len() == 4 && "help"@[0] == 'h',
        "h"@.len() == 1 && "h"@[0] == 'h',
{
    reveal_strlit("exit");
    reveal_strlit("quit");
    reveal_strlit("q");
    reveal_strlit("query");
    reveal_strlit("qr");
    reveal_strlit("renew");
    reveal_strlit("re");
    reveal_strlit("generate");
    reveal_strlit("gen");
    reveal_strlit("list");
    reveal_strlit("ls");
    reveal_strlit("conf");
    reveal_strlit("cf");
    reveal_strlit("help");
    reveal_strlit("h");
}

} // verus!
