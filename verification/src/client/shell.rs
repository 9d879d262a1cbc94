//! The prompt: lines are read as commands, and commands say what is to be done.

use crate::client::command::{
    command_of, parse_command, said, Command, CommandParseError, CommandParseErrorView, CommandView,
    Query, QueryView, Renew, RenewView,
};
use crate::client::config::{list_text, Config};
use crate::client::execution::{views, QuerySuccess, QuerySuccessView};
use crate::client::leases::{
    duplicate_views, entered, pruned, warnings, DuplicateLease, LeaseBook, Leases,
};
use crate::client::random::random_mac_addr;
use crate::net::Ipv4Addr;
use crate::protocol::{DhcpOffer, MacAddr};
use crate::text::words;
use crate::time::Timestamp;
use vstd::prelude::*;

verus! {

/// What comes before the version in the help.
pub const HELP_TITLE: &'static str = "---- DHCP Client v";

/// What comes after the version in the help.
pub const HELP_TEXT: &'static str = " ----
Supported commands:
    \x1b[32mquery\x1b[0m [\x1b[36mOPTION\x1b[0m]... [\x1b[36mSERVER\x1b[0m]
        \x1b[36mOPTION\x1b[0m:
            -n <N>           number of batch queries (default: 1)
            -t <N>           number of threads to use (default: check conf)
            -v               print all responses even when batch querying
            -m <MAC_ADDRESS> specify MAC-address (otherwise randomized)
        \x1b[36mSERVER\x1b[0m: 
            random           pick randomly from configured servers (default)
            <index>          index number of server to connect to (see list)
            <host>           arbitrary host, e.g. dhcp.example.com:4321
    \x1b[32mrenew\x1b[0m <\x1b[36mMAC_ADDRESS\x1b[0m> <\x1b[36mIP_ADDRESS\x1b[0m> [\x1b[36mSERVER\x1b[0m]
        Renew an existing lease with MAC_ADDRESS and IP_ADDRESS from SERVER
    \x1b[32mgenerate\x1b[0m
        Generate a random MAC-address
    \x1b[32mlist\x1b[0m
        List configured servers
    \x1b[32mconf\x1b[0m
        Print current configuration
    \x1b[32mhelp\x1b[0m
        Print this help
    \x1b[32mquit\x1b[0m
        Exit the CLI

Supported shorthands: qr, re, gen, ls, cf, h, q

";

/// What the client says where it cannot renew a lease.
pub const CANNOT_RENEW: &'static str = "Client currently cannot attempt to renew:
- Leases it did not acquire previously
- Expired leases
";

/// The help, for a client of this version.
pub fn help(version: &str) -> (text: String)
    ensures
        text@ == HELP_TITLE@ + version@ + HELP_TEXT@,
{
    let mut text = String::new();
    text.append(HELP_TITLE);
    text.append(version);
    text.append(HELP_TEXT);
    assert(text@ =~= HELP_TITLE@ + version@ + HELP_TEXT@);
    text
}

/// What a command makes the client do.
#[derive(Debug, PartialEq, Eq)]
pub enum Effect {
    /// Nothing at all.
    Nothing,
    /// End the client.
    Quit,
    /// Ask for leases.
    Query(Query),
    /// Renew a lease that was granted on these terms.
    Renew(Renew, DhcpOffer),
    /// Show a text.
    Show(String),
    /// Show the configuration.
    ShowConfig,
}

/// What an [`Effect`] says.
pub enum EffectView {
    Nothing,
    Quit,
    Query(QueryView),
    Renew(RenewView, DhcpOffer),
    Show(Seq<char>),
    ShowConfig,
}

impl View for Effect {
    type V = EffectView;

    open spec fn view(&self) -> EffectView {
        match self {
            Effect::Nothing => EffectView::Nothing,
            Effect::Quit => EffectView::Quit,
            Effect::Query(query) => EffectView::Query(query@),
            Effect::Renew(renew, lease) => EffectView::Renew(renew@, *lease),
            Effect::Show(text) => EffectView::Show(text@),
            Effect::ShowConfig => EffectView::ShowConfig,
        }
    }
}

/// Whether `effect` is what a command makes the client do that holds these leases. A MAC address
/// is generated at random; all else is determined.
pub open spec fn effect_of(
    command: CommandView,
    servers: Seq<String>,
    leases: Leases,
    version: Seq<char>,
    effect: EffectView,
) -> bool {
    match command {
        CommandView::Nop => effect == EffectView::Nothing,
        CommandView::Quit => effect == EffectView::Quit,
        CommandView::Query(query) => effect == EffectView::Query(query),
        CommandView::Renew(renew) => {
            let ip = Ipv4Addr { bits: renew.ip_address as u32 };
            if leases.contains_key(ip) {
                effect == EffectView::Renew(renew, leases[ip].offer)
            } else {
                effect == EffectView::Show(CANNOT_RENEW@)
            }
        },
        CommandView::GenerateMac => exists|mac: MacAddr|
            effect == EffectView::Show(#[trigger] mac.text() + "\n"@),
        CommandView::List => effect == EffectView::Show(list_text(servers)),
        CommandView::Conf => effect == EffectView::ShowConfig,
        CommandView::Help => effect == EffectView::Show(HELP_TITLE@ + version + HELP_TEXT@),
    }
}

/// Makes out what a command makes the client do.
pub fn execute_command(command: Command, config: &Config, leases: &LeaseBook, version: &str) -> (
    effect: Effect)
    requires
        leases.wf(),
    ensures
        effect_of(command@, config.servers@, leases@, version@, effect@),
{
    match command {
        Command::Nop => Effect::Nothing,
        Command::Quit => Effect::Quit,
        Command::Query(query) => Effect::Query(query),
        Command::Renew(renew) => match leases.get(renew.ip_address) {
            Some(lease) => Effect::Renew(renew, lease.offer),
            None => Effect::Show(CANNOT_RENEW.to_owned()),
        },
        Command::GenerateMac => {
            let mac = random_mac_addr();
            let mut text = mac.to_text();
            text.append("\n");
            assert(text@ == mac.text() + "\n"@);
            Effect::Show(text)
        },
        Command::List => Effect::Show(config.list()),
        Command::Conf => Effect::ShowConfig,
        Command::Help => Effect::Show(help(version)),
    }
}

/// Handles a line at the prompt: leases that have run out are forgotten, and then the command is
/// read and carried out.
pub fn handle_line(
    line: &str,
    config: &Config,
    leases: &mut LeaseBook,
    version: &str,
    now: Timestamp,
) -> (effect: Result<Effect, CommandParseError>)
    requires
        old(leases).wf(),
    ensures
        final(leases).wf(),
        final(leases)@ == pruned(old(leases)@, now),
        match command_of(words(line@)) {
            Ok(command) => effect is Ok && effect_of(
                command,
                config.servers@,
                pruned(old(leases)@, now),
                version@,
                effect->Ok_0@,
            ),
            Err(e) => said(effect) == Err::<EffectView, CommandParseErrorView>(e),
        },
{
    leases.prune(now);
    match parse_command(line) {
        Ok(command) => Ok(execute_command(command, config, leases, version)),
        Err(e) => Err(e),
    }
}

/// Takes over what came of asking for leases: those that were obtained, or `None` where the
/// command was not carried out. Warns of leases for addresses that there is a lease for already.
pub fn after_query(leases: &mut LeaseBook, outcome: Option<Vec<QuerySuccess>>) -> (duplicates: Vec<
    DuplicateLease,
>)
    requires
        old(leases).wf(),
    ensures
        final(leases).wf(),
        match outcome {
            Some(successes) => {
                &&& final(leases)@ == entered(old(leases)@, views(successes@))
                &&& duplicate_views(duplicates@) == warnings(old(leases)@, views(successes@))
            },
            None => final(leases)@ == old(leases)@ && duplicates@.len() == 0,
        },
{
    match outcome {
        Some(successes) => leases.record(successes),
        None => Vec::new(),
    }
}

/// Takes over what came of renewing a lease: the lease, or `None` where it was not renewed.
pub fn after_renewal(leases: &mut LeaseBook, outcome: Option<QuerySuccess>)
    requires
        old(leases).wf(),
    ensures
        final(leases).wf(),
        final(leases)@ == (match outcome {
            Some(success) => old(leases)@.insert(success.offer.ip, success@),
            None => old(leases)@,
        }),
{
    if let Some(success) = outcome {
        leases.insert(success);
    }
}

/// A lease that was renewed can be renewed again until it runs out.
pub proof fn law_renewed_leases_can_be_renewed(
    leases: Leases,
    success: QuerySuccessView,
    renew: RenewView,
    servers: Seq<String>,
    version: Seq<char>,
    now: Timestamp,
    effect: EffectView,
)
    requires
        success.is_current(now),
        renew.ip_address == success.offer.ip.bits,
        effect_of(
            CommandView::Renew(renew),
            servers,
            pruned(leases.insert(success.offer.ip, success), now),
            version,
            effect,
        ),
    ensures
        effect == EffectView::Renew(renew, success.offer),
{
}

/// A lease that has run out cannot be renewed any more.
pub proof fn law_expired_leases_are_not_renewed(
    renew: RenewView,
    servers: Seq<String>,
    leases: Leases,
    version: Seq<char>,
    now: Timestamp,
    effect: EffectView,
)
    requires
        effect_of(CommandView::Renew(renew), servers, pruned(leases, now), version, effect),
        effect is Renew,
    ensures
        ({
            let ip = Ipv4Addr { bits: renew.ip_address as u32 };
            leases.contains_key(ip) && leases[ip].is_current(now) && effect == EffectView::Renew(
                renew,
                leases[ip].offer,
            )
        }),
{
}

} // verus!
