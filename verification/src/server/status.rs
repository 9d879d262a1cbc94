//! The state of a server as a person reads it.

use crate::server::peer::Id;
use crate::server::{ElectionState, Server, ServerState};
use crate::text::{decimal, push_decimal, push_repeated, repeated};
use crate::time::Timestamp;
use vstd::prelude::*;
use vstd::relations::sorted_by;
use vstd::seq_lib::group_to_multiset_ensures;

verus! {

/// The width that labels are filled up to.
pub const LABEL_WIDTH: usize = 16;

/// The order of ids.
pub open spec fn ascending_ids() -> spec_fn(Id, Id) -> bool {
    |a: Id, b: Id| a <= b
}

/// A label at the start of a line.
pub open spec fn label(name: Seq<char>) -> Seq<char> {
    "    "@ + name + repeated(' ', (LABEL_WIDTH - name.len()) as nat) + " "@
}

fn push_label(out: &mut String, name: &str)
    requires
        name@.len() <= LABEL_WIDTH,
    ensures
        final(out)@ == old(out)@ + label(name@),
{
    proof {
        reveal_strlit(" ");
    }
    out.append("    ");
    out.append(name);
    push_repeated(out, " ", LABEL_WIDTH - name.unicode_len());
    out.append(" ");
    assert(out@ =~= old(out)@ + label(name@));
}

/// The name of the part that a server has in an election.
pub open spec fn role(state: ElectionState) -> Seq<char> {
    match state {
        ElectionState::WaitingForElection => "WaitingForElection"@,
        ElectionState::Coordinator => "Coordinator"@,
        ElectionState::Follower => "Follower"@,
    }
}

/// An id in the list of ids; the server's own one is in bold type.
pub open spec fn marked(id: Id, own: Id) -> Seq<char> {
    if id == own {
        "\x1B[1m"@ + decimal(id as nat) + "\x1B[0m"@
    } else {
        decimal(id as nat)
    }
}

/// The first `n` of `ids`, with commas between all of them.
pub open spec fn id_list(ids: Seq<Id>, own: Id, n: nat) -> Seq<char>
    decreases n,
{
    if n == 0 {
        Seq::empty()
    } else {
        let front = id_list(ids, own, (n - 1) as nat) + marked(ids[n - 1], own);
        if n < ids.len() {
            front + ", "@
        } else {
            front
        }
    }
}

impl ServerState {
    /// Who the server is.
    pub open spec fn title(self) -> Seq<char> {
        "Server "@ + decimal(self.config.id as nat) + " listening to peers on "@
            + self.config.listen_cluster@
    }

    /// A line as long as the title.
    pub open spec fn rule(self) -> Seq<char> {
        "\x1B[90m"@ + repeated('-', self.title().len()) + "\x1B[0m"@
    }

    /// The ids of the servers that are in contact, this one included, in ascending order.
    pub open spec fn active_ids(self) -> Seq<Id> {
        self.peers.push(self.config.id).sort_by(ascending_ids())
    }

    /// The lines from the coordinator to the role.
    pub open spec fn cluster_text(self) -> Seq<char> {
        label("Coordinator id"@) + (match self.coordinator_id {
            Some(id) => decimal(id as nat),
            None => "Unknown"@,
        }) + "\n"@ + label("Active peers"@) + "[ "@ + id_list(
            self.active_ids(),
            self.config.id,
            self.active_ids().len(),
        ) + " ]\n"@ + label("Current role"@) + role(self.election_state) + "\n"@
    }

    /// The lines on the service.
    pub open spec fn service_text(self, now: Timestamp) -> Seq<char> {
        label("Service"@) + (if self.majority {
            self.config.listen_dhcp@
        } else {
            "No majority"@
        }) + "\n"@ + label("Assigned range"@) + self.service.text(now) + "\n"@
    }

    pub open spec fn text(self, now: Timestamp) -> Seq<char> {
        self.rule() + "\n"@ + self.title() + "\n\n"@ + self.cluster_text() + self.service_text(now)
            + self.rule() + "\n"@
    }
}

/// Two sequences in ascending order with the same elements are the same.
proof fn lemma_sorted_is_unique(a: Seq<Id>, b: Seq<Id>)
    requires
        sorted_by(a, ascending_ids()),
        sorted_by(b, ascending_ids()),
        a.to_multiset() == b.to_multiset(),
    ensures
        a == b,
    decreases a.len(),
{
    broadcast use group_to_multiset_ensures;

    assert(a.len() == a.to_multiset().len() && b.len() == b.to_multiset().len());
    if a.len() > 0 {
        let last = a.len() - 1;
        assert(a.contains(a[last]) && b.contains(b[last]));
        assert(b.to_multiset().count(a[last]) > 0 && a.to_multiset().count(b[last]) > 0);
        assert(b.contains(a[last]) && a.contains(b[last]));
        let i = choose|i: int| 0 <= i < b.len() && b[i] == a[last];
        let j = choose|j: int| 0 <= j < a.len() && a[j] == b[last];
        assert(i < last ==> ascending_ids()(b[i], b[last]));
        assert(j < last ==> ascending_ids()(a[j], a[last]));
        assert(a[last] == b[last]);
        assert(a.drop_last() =~= a.remove(last));
        assert(b.drop_last() =~= b.remove(last));
        lemma_sorted_is_unique(a.drop_last(), b.drop_last());
        assert(a =~= a.drop_last().push(a[last]));
        assert(b =~= b.drop_last().push(b[last]));
    } else {
        assert(a =~= b);
    }
}

/// Puts `id` at its place among ids in ascending order.
fn insert_sorted(ids: &mut Vec<Id>, id: Id)
    requires
        sorted_by(old(ids)@, ascending_ids()),
        old(ids)@.len() < usize::MAX,
    ensures
        sorted_by(final(ids)@, ascending_ids()),
        final(ids)@.to_multiset() == old(ids)@.to_multiset().insert(id),
        final(ids)@.len() == old(ids)@.len() + 1,
{
    broadcast use group_to_multiset_ensures;

    let mut i: usize = 0;
    while i < ids.len() && ids[i] < id
        invariant
            i <= ids@.len(),
            ids@ == old(ids)@,
            forall|j: int| 0 <= j < i ==> ids@[j] < id,
        decreases ids@.len() - i,
    {
        i = i + 1;
    }
    proof {
        assert forall|j: int| i <= j < ids@.len() implies id <= ids@[j] by {
            if i < j {
                assert(ascending_ids()(ids@[i as int], ids@[j]));
            }
        }
    }
    ids.insert(i, id);
    proof {
        let before = old(ids)@;
        assert(ids@ == before.insert(i as int, id));
        assert forall|j: int, k: int| 0 <= j < k < ids@.len() implies #[trigger] ascending_ids()(
            ids@[j],
            ids@[k],
        ) by {
            let from = if j > i {
                j - 1
            } else {
                j
            };
            let to = if k > i {
                k - 1
            } else {
                k
            };
            if j != i && k != i {
                assert(ascending_ids()(before[from], before[to]));
            }
        }
    }
}

impl Server {
    /// The ids of the servers that are in contact, in ascending order.
    fn active_ids(&self) -> (ids: Vec<Id>)
        requires
            self@.peers.len() < u32::MAX,
        ensures
            ids@ == self@.active_ids(),
    {
        broadcast use group_to_multiset_ensures;

        let mut ids: Vec<Id> = Vec::new();
        ids.push(self.config.id);
        let mut i: usize = 0;
        assert(self.peers@.take(0).push(self.config.id) =~= ids@);
        while i < self.peers.len()
            invariant
                i <= self.peers@.len(),
                self.peers@.len() < u32::MAX,
                ids@.len() == i + 1,
                sorted_by(ids@, ascending_ids()),
                ids@.to_multiset() == self.peers@.take(i as int).push(
                    self.config.id,
                ).to_multiset(),
            decreases self.peers@.len() - i,
        {
            let peer_id: Id = self.peers[i];
            let ghost before = self.peers@.take(i as int);
            insert_sorted(&mut ids, peer_id);
            proof {
                broadcast use group_to_multiset_ensures;

                assert(self.peers@.take(i + 1) =~= before.push(peer_id));
                assert(before.push(self.config.id).to_multiset() =~= before.to_multiset().insert(
                    self.config.id,
                ));
                assert(before.push(peer_id).push(self.config.id).to_multiset()
                    =~= before.to_multiset().insert(peer_id).insert(self.config.id));
                assert(ids@.to_multiset() =~= self.peers@.take(i + 1).push(
                    self.config.id,
                ).to_multiset());
            }
            i = i + 1;
        }
        proof {
            let all = self.peers@.push(self.config.id);
            assert(self.peers@.take(i as int) =~= self.peers@);
            all.lemma_sort_by_ensures(ascending_ids());
            lemma_sorted_is_unique(ids@, self@.active_ids());
        }
        ids
    }

    fn push_cluster_text(&self, out: &mut String)
        requires
            self@.peers.len() < u32::MAX,
        ensures
            final(out)@ == old(out)@ + self@.cluster_text(),
    {
        proof {
            reveal_strlit("Coordinator id");
            reveal_strlit("Active peers");
            reveal_strlit("Current role");
        }
        // Coordinator
        push_label(out, "Coordinator id");
        match self.coordinator_id {
            Some(coordinator) => push_decimal(out, coordinator as u64),
            None => out.append("Unknown"),
        }
        out.append("\n");

        // Peers
        push_label(out, "Active peers");
        out.append("[ ");
        let ids = self.active_ids();
        let ghost head = out@;
        let mut i: usize = 0;
        assert(out@ =~= head + id_list(ids@, self.config.id, 0));
        while i < ids.len()
            invariant
                i <= ids@.len(),
                out@ == head + id_list(ids@, self.config.id, i as nat),
            decreases ids@.len() - i,
        {
            let id: Id = ids[i];
            if id == self.config.id {
                out.append("\x1B[1m");
                push_decimal(out, id as u64);
                out.append("\x1B[0m");
            } else {
                push_decimal(out, id as u64);
            }
            if i != ids.len() - 1 {
                out.append(", ");
            }
            assert(out@ =~= head + id_list(ids@, self.config.id, (i + 1) as nat));
            i = i + 1;
        }
        out.append(" ]\n");

        // Role
        push_label(out, "Current role");
        match self.election_state {
            ElectionState::WaitingForElection => out.append("WaitingForElection"),
            ElectionState::Coordinator => out.append("Coordinator"),
            ElectionState::Follower => out.append("Follower"),
        }
        out.append("\n");
        assert(out@ =~= old(out)@ + self@.cluster_text());
    }

    fn push_service_text(&self, out: &mut String, now: Timestamp)
        requires
            self@.service.is_shown_at(now),
        ensures
            final(out)@ == old(out)@ + self@.service_text(now),
    {
        proof {
            reveal_strlit("Service");
            reveal_strlit("Assigned range");
        }
        // Majority and dhcp address
        push_label(out, "Service");
        if self.majority {
            out.append(self.config.listen_dhcp.as_str());
        } else {
            out.append("No majority");
        }
        out.append("\n");

        // Pool assignment
        push_label(out, "Assigned range");
        self.dhcp_service.push_text(out, now);
        out.append("\n");
        assert(out@ =~= old(out)@ + self@.service_text(now));
    }

    /// The state of the server at `now`, as a person reads it.
    pub fn to_text(&self, now: Timestamp) -> (text: String)
        requires
            self@.peers.len() < u32::MAX,
            self@.service.is_shown_at(now),
        ensures
            text@ == self@.text(now),
    {
        let mut title = String::new();
        title.append("Server ");
        push_decimal(&mut title, self.config.id as u64);
        title.append(" listening to peers on ");
        title.append(self.config.listen_cluster.as_str());
        assert(title@ =~= self@.title());

        proof {
            reveal_strlit("-");
        }
        let mut rule = String::new();
        rule.append("\x1B[90m");
        push_repeated(&mut rule, "-", title.as_str().unicode_len());
        rule.append("\x1B[0m");
        assert(rule@ =~= self@.rule());

        let mut out = String::new();
        out.append(rule.as_str());
        out.append("\n");
        out.append(title.as_str());
        out.append("\n\n");
        self.push_cluster_text(&mut out);
        self.push_service_text(&mut out, now);
        out.append(rule.as_str());
        out.append("\n");
        assert(out@ =~= self@.text(now));
        out
    }
}

/// The ids that are shown are those of the peers and the server's own, in ascending order.
pub proof fn law_all_servers_in_contact_are_shown(state: ServerState, id: Id)
    ensures
        state.active_ids().contains(id) <==> state.peers.contains(id) || id == state.config.id,
        state.active_ids().len() == state.peers.len() + 1,
        forall|i: int, j: int|
            0 <= i < j < state.active_ids().len() ==> state.active_ids()[i]
                <= state.active_ids()[j],
{
    broadcast use group_to_multiset_ensures;

    let all = state.peers.push(state.config.id);
    let ids = state.active_ids();
    all.lemma_sort_by_ensures(ascending_ids());
    assert(ids.to_multiset().count(id) == all.to_multiset().count(id));
    assert(ids.contains(id) <==> all.contains(id));
    assert(ids.len() == ids.to_multiset().len() && all.len() == all.to_multiset().len());
    assert(all[state.peers.len() as int] == state.config.id);
    if state.peers.contains(id) {
        let k = choose|k: int| 0 <= k < state.peers.len() && state.peers[k] == id;
        assert(all[k] == id);
    }
    assert forall|i: int, j: int| 0 <= i < j < ids.len() implies ids[i] <= ids[j] by {
        assert(ascending_ids()(ids[i], ids[j]));
    }
}

/// What is shown of a server: its id and its address between two rules as long as that, the
/// coordinator, the servers in contact, its part in elections, where it serves clients, and its
/// lease table.
pub proof fn law_what_is_shown_of_a_server(state: ServerState, now: Timestamp)
    ensures
        ({
            let title = "Server "@ + decimal(state.config.id as nat) + " listening to peers on "@
                + state.config.listen_cluster@;
            let rule = "\x1B[90m"@ + Seq::new(title.len(), |i: int| '-') + "\x1B[0m"@;
            let coordinator = match state.coordinator_id {
                Some(id) => decimal(id as nat),
                None => "Unknown"@,
            };
            let part = match state.election_state {
                ElectionState::WaitingForElection => "WaitingForElection"@,
                ElectionState::Coordinator => "Coordinator"@,
                ElectionState::Follower => "Follower"@,
            };
            let service = if state.majority {
                state.config.listen_dhcp@
            } else {
                "No majority"@
            };
            let ids = state.active_ids();
            let cluster = label("Coordinator id"@) + coordinator + "\n"@ + label("Active peers"@)
                + "[ "@ + id_list(ids, state.config.id, ids.len()) + " ]\n"@ + label(
                "Current role"@,
            ) + part + "\n"@;
            let serving = label("Service"@) + service + "\n"@ + label("Assigned range"@)
                + state.service.text(now) + "\n"@;
            state.text(now) == rule + "\n"@ + title + "\n\n"@ + cluster + serving + rule + "\n"@
        }),
{
    let title = state.title();
    assert(repeated('-', title.len()) =~= Seq::new(title.len(), |i: int| '-'));
}

/// A label is filled up with spaces, so that what follows starts in the same column.
pub proof fn law_labels_line_up(name: Seq<char>)
    requires
        name.len() <= 16,
    ensures
        label(name).len() == 21,
        label(name).subrange(4, (4 + name.len()) as int) == name,
        forall|i: int|
            0 <= i < 4 || 4 + name.len() <= i < 21 ==> #[trigger] label(name)[i] == ' ',
{
    reveal_strlit("    ");
    reveal_strlit(" ");
    assert(label(name).subrange(4, (4 + name.len()) as int) =~= name);
}

/// Ids are listed with commas between them, the server's own in bold type.
pub proof fn law_how_ids_are_listed(ids: Seq<Id>, id: Id, own: Id)
    ensures
        id_list(Seq::empty(), own, 0).len() == 0,
        id_list(ids.push(id), own, ids.len() + 1) == (if ids.len() == 0 {
            Seq::empty()
        } else {
            id_list(ids, own, ids.len()) + ", "@
        }) + (if id == own {
            "\x1B[1m"@ + decimal(id as nat) + "\x1B[0m"@
        } else {
            decimal(id as nat)
        }),
{
    let all = ids.push(id);
    let n = ids.len();
    assert(all[n as int] == id);
    assert(id_list(all, own, (n + 1) as nat) == id_list(all, own, n) + marked(id, own));
    if n > 0 {
        lemma_first_ids(ids, id, own, (n - 1) as nat);
        assert(id_list(all, own, n) == id_list(ids, own, n) + ", "@);
    }
}

proof fn lemma_first_ids(ids: Seq<Id>, id: Id, own: Id, n: nat)
    requires
        n < ids.len(),
    ensures
        id_list(ids.push(id), own, n) == id_list(ids, own, n),
    decreases n,
{
    if n > 0 {
        lemma_first_ids(ids, id, own, (n - 1) as nat);
    }
}

} // verus!
