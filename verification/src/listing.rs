//! The listing of all active ports: a row for each socket and each process
//! that holds it, in the order of port, protocol and process, and no row
//! twice.

use crate::access::ProcAccess;
use crate::holders::command_text;
use crate::net::{
    collect_inodes, inodes_where, proto_label_and_sort, proto_label_text, proto_rank,
    select_sockets, socket_selected, socket_state_label, state_label_text, ProcNetSocketEntry,
};
use crate::order::{
    covers, dedup, in_order, is_total, is_transitive, lemma_deduped_views, lemma_sorted_unique,
    lemma_stable_sorted_views, likeness, no_two_alike, ranking, reversed, sort_stable,
    sorted_unique, Alike, Ranked,
};
use crate::port::DescriptorProbe;
use crate::procfs::DescriptorEntry;
use crate::scan::{parse_socket_inode, read_comm_best_effort, socket_inode_of, unknown_command};
use crate::sweep::{SweepAction, SweepEvent};
use crate::text::{
    lemma_lex_antisymmetric, lemma_lex_total, lemma_lex_transitive, lex_le, parsed_items, text_le,
};
use std::collections::BTreeMap;
use std::collections::BTreeSet;
use vstd::prelude::*;
use vstd::string::StringExecFns;

verus! {

broadcast use {vstd::std_specs::btree::group_btree_axioms, vstd::laws_cmp::group_laws_cmp};

/// One row of the listing: a socket, by port and protocol, a process that
/// holds it, and the state of the socket.
#[derive(Clone, Debug, PartialEq, Eq)]
pub struct PortRow {
    pub port: u16,
    pub proto: &'static str,
    pub proto_sort: u8,
    pub pid: i32,
    pub command: String,
    pub state: String,
}

/// A row as a value: its texts as sequences of characters.
pub struct PortRowView {
    pub port: u16,
    pub proto: Seq<char>,
    pub proto_sort: u8,
    pub pid: i32,
    pub command: Seq<char>,
    pub state: Seq<char>,
}

impl View for PortRow {
    type V = PortRowView;

    open spec fn view(&self) -> PortRowView {
        PortRowView {
            port: self.port,
            proto: self.proto@,
            proto_sort: self.proto_sort,
            pid: self.pid,
            command: self.command@,
            state: self.state@,
        }
    }
}

/// The order of the rows: by port, then TCP before UDP, then by process id.
pub open spec fn row_order() -> spec_fn(PortRowView, PortRowView) -> bool {
    |a: PortRowView, b: PortRowView|
        a.port < b.port || (a.port == b.port && (a.proto_sort < b.proto_sort || (a.proto_sort
            == b.proto_sort && a.pid <= b.pid)))
}

/// The order by which the rows are sorted: the order of the rows, and among
/// rows for the same port, protocol and process the state in dictionary
/// order. Rows that say the same, and no others, tie in it.
pub open spec fn row_sort_order() -> spec_fn(PortRowView, PortRowView) -> bool {
    |a: PortRowView, b: PortRowView|
        a.port < b.port || (a.port == b.port && (a.proto_sort < b.proto_sort || (a.proto_sort
            == b.proto_sort && (a.pid < b.pid || (a.pid == b.pid && lex_le(a.state, b.state))))))
}

/// Rows that say the same: the same port, protocol, process and state.
pub open spec fn row_repeat() -> spec_fn(PortRowView, PortRowView) -> bool {
    |a: PortRowView, b: PortRowView|
        a.port == b.port && a.proto_sort == b.proto_sort && a.pid == b.pid && a.state == b.state
}

impl Ranked for PortRow {
    open spec fn precedes(&self, other: &Self) -> bool {
        row_sort_order()(self@, other@)
    }

    fn comes_no_later(&self, other: &Self) -> (b: bool) {
        if self.port != other.port {
            self.port < other.port
        } else if self.proto_sort != other.proto_sort {
            self.proto_sort < other.proto_sort
        } else if self.pid != other.pid {
            self.pid < other.pid
        } else {
            text_le(self.state.as_str(), other.state.as_str())
        }
    }
}

impl Alike for PortRow {
    open spec fn alike(&self, other: &Self) -> bool {
        row_repeat()(self@, other@)
    }

    fn is_alike(&self, other: &Self) -> (b: bool) {
        self.port == other.port && self.proto_sort == other.proto_sort && self.pid == other.pid
            && self.state == other.state
    }
}

/// The rows that a vector holds, as values.
pub open spec fn row_views(rows: Seq<PortRow>) -> Seq<PortRowView> {
    rows.map_values(|r: PortRow| r@)
}

/// The listing: its rows, and how many processes could not be looked into
/// for lack of permission.
#[derive(Clone, Debug, PartialEq, Eq)]
pub struct PortListing {
    pub rows: Vec<PortRow>,
    pub skipped_permission_denied: usize,
}

/// The listing as a value.
pub struct ListingView {
    pub rows: Seq<PortRowView>,
    pub skipped_permission_denied: nat,
}

impl View for PortListing {
    type V = ListingView;

    open spec fn view(&self) -> ListingView {
        ListingView {
            rows: row_views(self.rows@),
            skipped_permission_denied: self.skipped_permission_denied as nat,
        }
    }
}

/// What a scan of the processes has collected: for each descriptor found
/// that is one of the sockets looked for, the socket's inode and the process;
/// the command name of each process with such a descriptor; and the
/// processes that could not be looked into.
pub struct HitsView {
    pub hits: Seq<(u64, i32)>,
    pub commands: Map<i32, Seq<char>>,
    pub skipped: Set<i32>,
}

/// The inodes of some sockets.
pub open spec fn socket_inodes(sockets: Seq<ProcNetSocketEntry>) -> Set<u64> {
    Set::new(|inode: u64| exists|i: int| 0 <= i < sockets.len() && (#[trigger] sockets[i]).inode == inode)
}

/// The inode of a descriptor where it is a socket with one of these inodes.
pub open spec fn inode_if_among(inodes: Set<u64>) -> spec_fn(DescriptorEntry) -> Option<u64> {
    |link: DescriptorEntry|
        match socket_inode_of(link.link_target@) {
            Some(inode) => if inodes.contains(inode) {
                Some(inode)
            } else {
                None
            },
            None => None,
        }
}

/// The inodes of the sockets looked for that a process holds, one for each
/// of its descriptors that is such a socket, in the order of the
/// descriptors.
pub open spec fn held_inodes(links: Seq<DescriptorEntry>, inodes: Set<u64>) -> Seq<u64> {
    parsed_items(links, inode_if_among(inodes))
}

/// The scan after one more process. A process whose descriptors could be
/// read adds a hit for each socket it holds and, if it holds one, its
/// command name, unless a name is known for its id already. One whose
/// descriptors were refused joins the skipped ones, one that was gone changes
/// nothing, and a fatal outcome ends the scan with its error.
pub open spec fn observed(scan: HitsView, probe: DescriptorProbe, inodes: Set<u64>) -> Result<
    HitsView,
    std::io::Error,
> {
    match probe.links {
        ProcAccess::Success(links) => {
            let held = held_inodes(links@, inodes);
            Ok(
                HitsView {
                    hits: scan.hits + held.map_values(|inode: u64| (inode, probe.pid)),
                    commands: if held.len() > 0 && !scan.commands.contains_key(probe.pid) {
                        scan.commands.insert(probe.pid, command_text(probe.command))
                    } else {
                        scan.commands
                    },
                    skipped: scan.skipped,
                },
            )
        },
        ProcAccess::PermissionDenied => Ok(
            HitsView {
                hits: scan.hits,
                commands: scan.commands,
                skipped: scan.skipped.insert(probe.pid),
            },
        ),
        ProcAccess::Gone => Ok(scan),
        ProcAccess::Fatal(e) => Err(e),
    }
}

/// What a scan has collected that has seen no process.
pub open spec fn no_hits() -> HitsView {
    HitsView { hits: Seq::empty(), commands: Map::empty(), skipped: Set::empty() }
}

/// Whether the command name of a process is needed to enter it into a scan:
/// its descriptors could be read, it holds one of the sockets looked for, and
/// no name is known for its id.
pub open spec fn name_needed(
    scan: HitsView,
    pid: i32,
    links: ProcAccess<Vec<DescriptorEntry>>,
    inodes: Set<u64>,
) -> bool {
    links matches ProcAccess::Success(l) && held_inodes(l@, inodes).len() > 0
        && !scan.commands.contains_key(pid)
}

/// The sockets that a process holds among its first descriptors it holds
/// among all of them.
pub proof fn lemma_held_grows(links: Seq<DescriptorEntry>, inodes: Set<u64>, k: int)
    requires
        0 <= k <= links.len(),
    ensures
        held_inodes(links.take(k), inodes).len() <= held_inodes(links, inodes).len(),
    decreases links.len(),
{
    if k < links.len() {
        assert(links.drop_last().take(k) =~= links.take(k));
        lemma_held_grows(links.drop_last(), inodes, k);
    } else {
        assert(links.take(k) =~= links);
    }
}

/// A scan over the processes seen, in their order.
pub open spec fn hits_scan(probes: Seq<DescriptorProbe>, inodes: Set<u64>) -> Result<
    HitsView,
    std::io::Error,
>
    decreases probes.len(),
{
    if probes.len() == 0 {
        Ok(no_hits())
    } else {
        match hits_scan(probes.drop_last(), inodes) {
            Ok(scan) => observed(scan, probes.last(), inodes),
            Err(e) => Err(e),
        }
    }
}

/// The process of a hit where the hit is on this inode.
pub open spec fn pid_if_on(inode: u64) -> spec_fn((u64, i32)) -> Option<i32> {
    |hit: (u64, i32)|
        if hit.0 == inode {
            Some(hit.1)
        } else {
            None
        }
}

/// The processes that hold the socket with this inode: ascending, each once.
pub open spec fn socket_pids(hits: Seq<(u64, i32)>, inode: u64) -> Seq<i32> {
    sorted_unique(parsed_items(hits, pid_if_on(inode)), ranking::<i32>(), likeness::<i32>())
}

/// The row of a socket and a process that holds it.
pub open spec fn row_of(s: ProcNetSocketEntry, pid: i32, commands: Map<i32, Seq<char>>) -> PortRowView {
    PortRowView {
        port: s.local_port,
        proto: proto_label_text(s.proto),
        proto_sort: proto_rank(s.proto),
        pid,
        command: if commands.contains_key(pid) {
            commands[pid]
        } else {
            unknown_command()
        },
        state: state_label_text(s.proto, s.state),
    }
}

/// The rows of one socket: one for each process that holds it.
pub open spec fn socket_rows(s: ProcNetSocketEntry, scan: HitsView) -> Seq<PortRowView> {
    socket_pids(scan.hits, s.inode).map_values(|pid: i32| row_of(s, pid, scan.commands))
}

/// The rows of the sockets, socket after socket in table order.
pub open spec fn table_rows(sockets: Seq<ProcNetSocketEntry>, scan: HitsView) -> Seq<PortRowView>
    decreases sockets.len(),
{
    if sockets.len() == 0 {
        Seq::empty()
    } else {
        table_rows(sockets.drop_last(), scan) + socket_rows(sockets.last(), scan)
    }
}

/// The rows of the listing: those of the sockets, sorted by port, protocol,
/// process and state, and of rows that say the same only the first. Sorted
/// so, rows that say the same stand together, and no repeat is left.
pub open spec fn listed_rows(sockets: Seq<ProcNetSocketEntry>, scan: HitsView) -> Seq<PortRowView> {
    sorted_unique(table_rows(sockets, scan), row_sort_order(), row_repeat())
}

/// The sockets that a listing shows.
pub open spec fn shown_sockets(sockets: Seq<ProcNetSocketEntry>, listening: bool, established: bool) -> Seq<
    ProcNetSocketEntry,
> {
    sockets.filter(|s: ProcNetSocketEntry| socket_selected(s, listening, established))
}

/// The listing of the ports in use. Where no socket is to be shown no
/// process is looked at: the listing is empty and nothing is skipped,
/// whatever was seen of the processes.
pub open spec fn port_listing(
    sockets: Seq<ProcNetSocketEntry>,
    listening: bool,
    established: bool,
    probes: Seq<DescriptorProbe>,
) -> Result<ListingView, std::io::Error> {
    let shown = shown_sockets(sockets, listening, established);
    if shown.len() == 0 {
        Ok(ListingView { rows: Seq::empty(), skipped_permission_denied: 0 })
    } else {
        match hits_scan(probes, socket_inodes(shown)) {
            Ok(scan) => Ok(
                ListingView {
                    rows: listed_rows(shown, scan),
                    skipped_permission_denied: scan.skipped.len(),
                },
            ),
            Err(e) => Err(e),
        }
    }
}

/// The outcome of a listing as a value.
pub open spec fn listing_view(r: Result<PortListing, std::io::Error>) -> Result<
    ListingView,
    std::io::Error,
> {
    match r {
        Ok(listing) => Ok(listing@),
        Err(e) => Err(e),
    }
}

/// Once a scan has failed, the processes that follow change nothing.
pub proof fn lemma_hits_scan_stays_failed(probes: Seq<DescriptorProbe>, inodes: Set<u64>, k: int)
    requires
        0 <= k <= probes.len(),
        hits_scan(probes.take(k), inodes) is Err,
    ensures
        hits_scan(probes, inodes) == hits_scan(probes.take(k), inodes),
    decreases probes.len(),
{
    if k == probes.len() {
        assert(probes.take(k) =~= probes);
    } else {
        assert(probes.drop_last().take(k) =~= probes.take(k));
        lemma_hits_scan_stays_failed(probes.drop_last(), inodes, k);
    }
}

/// The inodes of some sockets, as a set.
pub fn inode_set(sockets: &Vec<ProcNetSocketEntry>) -> (set: BTreeSet<u64>)
    ensures
        set@ == socket_inodes(sockets@),
{
    assert(inodes_where(sockets@, None) =~= socket_inodes(sockets@));
    collect_inodes(sockets, None)
}

/// What a scan of the processes has collected so far.
struct Hits {
    hits: Vec<(u64, i32)>,
    commands: BTreeMap<i32, String>,
    skipped: BTreeSet<i32>,
}

impl View for Hits {
    type V = HitsView;

    closed spec fn view(&self) -> HitsView {
        HitsView {
            hits: self.hits@,
            commands: self.commands@.map_values(|c: String| c@),
            skipped: self.skipped@,
        }
    }
}

impl Hits {
    /// Enters one process into the scan.
    fn observe(&mut self, probe: DescriptorProbe, inodes: &BTreeSet<u64>) -> (r: Result<
        (),
        std::io::Error,
    >)
        ensures
            match observed(old(self)@, probe, inodes@) {
                Ok(scan) => r is Ok && final(self)@ == scan,
                Err(e) => r == Err::<(), std::io::Error>(e) && final(self)@ == old(self)@,
            },
    {
        let DescriptorProbe { pid, links, command } = probe;
        let entries = match links {
            ProcAccess::Success(l) => l,
            ProcAccess::PermissionDenied => {
                self.skipped.insert(pid);
                return Ok(());
            },
            ProcAccess::Gone => {
                return Ok(());
            },
            ProcAccess::Fatal(e) => {
                return Err(e);
            },
        };
        let ghost start = self.hits@;
        let ghost pick = inode_if_among(inodes@);
        let ghost pair = |inode: u64| (inode, pid);
        let mut found = false;
        let mut i: usize = 0;
        assert(entries@.take(0) =~= Seq::<DescriptorEntry>::empty());
        assert(start + Seq::<u64>::empty().map_values(pair) =~= start);
        while i < entries.len()
            invariant
                i <= entries.len(),
                pick == inode_if_among(inodes@),
                pair == |inode: u64| (inode, pid),
                self.hits@ == start + parsed_items(entries@.take(i as int), pick).map_values(pair),
                found == (parsed_items(entries@.take(i as int), pick).len() > 0),
                self.commands == old(self).commands,
                self.skipped == old(self).skipped,
            decreases entries.len() - i,
        {
            assert(entries@.take(i + 1).drop_last() =~= entries@.take(i as int));
            assert(entries@.take(i + 1).last() == entries@[i as int]);
            let ghost done = parsed_items(entries@.take(i as int), pick);
            match parse_socket_inode(entries[i].link_target.as_str()) {
                Some(inode) => {
                    if inodes.contains(&inode) {
                        self.hits.push((inode, pid));
                        found = true;
                        assert(self.hits@ =~= start + done.push(inode).map_values(pair));
                    }
                },
                None => {},
            }
            i += 1;
        }
        assert(entries@.take(i as int) =~= entries@);
        if found && !self.commands.contains_key(&pid) {
            let name = read_comm_best_effort(command);
            let ghost before = self.commands@;
            self.commands.insert(pid, name);
            assert(self.commands@.map_values(|c: String| c@) =~= before.map_values(
                |c: String| c@,
            ).insert(pid, name@));
        }
        Ok(())
    }

    /// The processes that hold the socket with this inode, ascending, each
    /// once.
    fn pids_of(&self, inode: u64) -> (pids: Vec<i32>)
        ensures
            pids@ == socket_pids(self.hits@, inode),
    {
        let ghost pick = pid_if_on(inode);
        let mut found: Vec<i32> = Vec::new();
        let mut i: usize = 0;
        assert(self.hits@.take(0) =~= Seq::<(u64, i32)>::empty());
        while i < self.hits.len()
            invariant
                i <= self.hits.len(),
                pick == pid_if_on(inode),
                found@ == parsed_items(self.hits@.take(i as int), pick),
            decreases self.hits.len() - i,
        {
            assert(self.hits@.take(i + 1).drop_last() =~= self.hits@.take(i as int));
            assert(self.hits@.take(i + 1).last() == self.hits@[i as int]);
            if self.hits[i].0 == inode {
                found.push(self.hits[i].1);
            }
            i += 1;
        }
        assert(self.hits@.take(i as int) =~= self.hits@);
        dedup(sort_stable(found))
    }

    /// Appends the rows of one socket.
    fn push_socket_rows(&self, rows: &mut Vec<PortRow>, s: &ProcNetSocketEntry)
        ensures
            row_views(final(rows)@) == row_views(old(rows)@) + socket_rows(*s, self@),
    {
        let ghost start = row_views(rows@);
        let ghost make = |pid: i32| row_of(*s, pid, self@.commands);
        let pids = self.pids_of(s.inode);
        let mut i: usize = 0;
        assert(start + pids@.take(0).map_values(make) =~= start);
        while i < pids.len()
            invariant
                i <= pids.len(),
                make == |pid: i32| row_of(*s, pid, self@.commands),
                row_views(rows@) == start + pids@.take(i as int).map_values(make),
            decreases pids.len() - i,
        {
            let pid = pids[i];
            let command = match self.commands.get(&pid) {
                Some(name) => name.clone(),
                None => String::from_str("<unknown>"),
            };
            let (proto, proto_sort) = proto_label_and_sort(s.proto);
            let row = PortRow {
                port: s.local_port,
                proto,
                proto_sort,
                pid,
                command,
                state: socket_state_label(s.proto, s.state),
            };
            let ghost held = rows@;
            rows.push(row);
            proof {
                assert(row@ == make(pid));
                assert(row_views(held.push(row)) =~= row_views(held).push(row@));
                assert(pids@.take(i + 1).map_values(make) =~= pids@.take(i as int).map_values(
                    make,
                ).push(make(pid)));
                assert(row_views(rows@) =~= start + pids@.take(i + 1).map_values(make));
            }
            i += 1;
        }
        assert(pids@.take(i as int) =~= pids@);
    }

    /// The listing of the sockets shown, from what the scan has collected.
    fn listing(&self, shown: &Vec<ProcNetSocketEntry>) -> (listing: PortListing)
        ensures
            listing@ == (ListingView {
                rows: listed_rows(shown@, self@),
                skipped_permission_denied: self@.skipped.len(),
            }),
            well_listed(listing@.rows, table_rows(shown@, self@)),
    {
        proof {
            lemma_listed_rows(shown@, self@);
        }
        let mut rows: Vec<PortRow> = Vec::new();
        let mut i: usize = 0;
        assert(row_views(rows@) =~= table_rows(shown@.take(0), self@));
        while i < shown.len()
            invariant
                i <= shown.len(),
                row_views(rows@) == table_rows(shown@.take(i as int), self@),
            decreases shown.len() - i,
        {
            assert(shown@.take(i + 1).drop_last() =~= shown@.take(i as int));
            assert(shown@.take(i + 1).last() == shown@[i as int]);
            self.push_socket_rows(&mut rows, &shown[i]);
            i += 1;
        }
        assert(shown@.take(i as int) =~= shown@);
        let sorted = sort_stable(rows);
        proof {
            assert forall|a: PortRow, b: PortRow| #[trigger]
                ranking::<PortRow>()(a, b) == row_sort_order()(a@, b@) by {}
            assert forall|a: PortRow, b: PortRow| #[trigger]
                likeness::<PortRow>()(a, b) == row_repeat()(a@, b@) by {}
            lemma_stable_sorted_views(
                rows@,
                |r: PortRow| r@,
                ranking::<PortRow>(),
                row_sort_order(),
            );
            lemma_deduped_views(sorted@, |r: PortRow| r@, likeness::<PortRow>(), row_repeat());
        }
        let rows = dedup(sorted);
        PortListing { rows, skipped_permission_denied: self.skipped.len() }
    }

    /// A scan that has seen no process.
    fn new() -> (scan: Hits)
        ensures
            scan@ == no_hits(),
    {
        let scan = Hits { hits: Vec::new(), commands: BTreeMap::new(), skipped: BTreeSet::new() };
        assert(scan@.commands =~= Map::<i32, Seq<char>>::empty());
        scan
    }

    /// Whether the command name of a process is needed to enter it: it
    /// holds one of the sockets looked for, and no name is known for its id.
    fn needs_name(&self, pid: i32, links: &ProcAccess<Vec<DescriptorEntry>>, inodes: &BTreeSet<u64>) -> (r:
        bool)
        ensures
            r == name_needed(self@, pid, *links, inodes@),
    {
        let entries = match links {
            ProcAccess::Success(l) => l,
            _ => {
                return false;
            },
        };
        if self.commands.contains_key(&pid) {
            return false;
        }
        let ghost pick = inode_if_among(inodes@);
        let mut i: usize = 0;
        assert(entries@.take(0) =~= Seq::<DescriptorEntry>::empty());
        while i < entries.len()
            invariant
                i <= entries.len(),
                pick == inode_if_among(inodes@),
                *links == ProcAccess::Success(*entries),
                !self@.commands.contains_key(pid),
                parsed_items(entries@.take(i as int), pick).len() == 0,
            decreases entries.len() - i,
        {
            assert(entries@.take(i + 1).drop_last() =~= entries@.take(i as int));
            assert(entries@.take(i + 1).last() == entries@[i as int]);
            match parse_socket_inode(entries[i].link_target.as_str()) {
                Some(inode) => {
                    if inodes.contains(&inode) {
                        proof {
                            lemma_held_grows(entries@, inodes@, i + 1);
                        }
                        return true;
                    }
                },
                None => {},
            }
            i += 1;
        }
        assert(entries@.take(i as int) =~= entries@);
        false
    }
}

/// Lists the ports in use with the processes that hold them, from the socket
/// tables and from what was seen of each process. With `listening`, only
/// listening sockets are shown; else with `established`, only established
/// connections. The rows come by port, protocol and process, and no two of
/// them say the same, however often a process holds a socket and however the
/// sockets stand in the tables.
pub fn whoholds_ports(
    listening: bool,
    established: bool,
    sockets: &Vec<ProcNetSocketEntry>,
    probes: Vec<DescriptorProbe>,
) -> (r: Result<PortListing, std::io::Error>)
    ensures
        listing_view(r) == port_listing(sockets@, listening, established, probes@),
        r matches Ok(listing) ==> in_order(listing@.rows, row_order()) && no_two_alike(
            listing@.rows,
            row_repeat(),
        ),
{
    let shown = select_sockets(sockets, listening, established);
    if shown.len() == 0 {
        let empty = PortListing { rows: Vec::new(), skipped_permission_denied: 0 };
        assert(empty@.rows =~= Seq::<PortRowView>::empty());
        return Ok(empty);
    }
    let inodes = inode_set(&shown);
    let ghost all = probes@;
    let mut scan = Hits::new();
    let mut rest = reversed(probes);
    assert(all.take(0) =~= Seq::<DescriptorProbe>::empty());
    while rest.len() > 0
        invariant
            all == probes@,
            shown@ == shown_sockets(sockets@, listening, established),
            shown@.len() > 0,
            inodes@ == socket_inodes(shown@),
            rest@.len() <= all.len(),
            forall|i: int| 0 <= i < rest@.len() ==> rest@[i] == all[all.len() - 1 - i],
            hits_scan(all.take(all.len() - rest@.len()), inodes@) == Ok::<HitsView, std::io::Error>(
                scan@,
            ),
        decreases rest@.len(),
    {
        let ghost k = all.len() - rest@.len();
        let probe = rest.pop().unwrap();
        proof {
            assert(probe == all[k]);
            assert(all.take(k + 1).drop_last() =~= all.take(k));
            assert(all.take(k + 1).last() == probe);
        }
        match scan.observe(probe, &inodes) {
            Ok(()) => {},
            Err(e) => {
                proof {
                    lemma_hits_scan_stays_failed(all, inodes@, k + 1);
                }
                return Err(e);
            },
        }
    }
    assert(all.take(all.len() as int) =~= all);
    Ok(scan.listing(&shown))
}

/// What holds of the rows of a listing, given the rows of the sockets: they
/// are in the order of rows, no two of them say the same, each of them is a
/// row of a socket, and every row of a socket has one among them that says
/// the same.
pub open spec fn well_listed(rows: Seq<PortRowView>, table: Seq<PortRowView>) -> bool {
    &&& in_order(rows, row_order())
    &&& no_two_alike(rows, row_repeat())
    &&& forall|i: int| 0 <= i < rows.len() ==> table.contains(#[trigger] rows[i])
    &&& covers(rows, table, row_repeat())
}

/// The order by which rows are sorted is total and transitive, and exactly
/// the rows that say the same tie in it.
pub proof fn lemma_row_sort_order()
    ensures
        is_total(row_sort_order()),
        is_transitive(row_sort_order()),
        forall|a: PortRowView, b: PortRowView| #[trigger]
            row_repeat()(a, b) <==> row_sort_order()(a, b) && row_sort_order()(b, a),
        forall|a: PortRowView, b: PortRowView| #[trigger]
            row_sort_order()(a, b) ==> row_order()(a, b),
{
    let le = row_sort_order();
    assert forall|a: PortRowView, b: PortRowView| #[trigger] le(a, b) || #[trigger] le(b, a) by {
        lemma_lex_total(a.state, b.state, 0);
    }
    assert forall|a: PortRowView, b: PortRowView, c: PortRowView| #[trigger]
        le(a, b) && #[trigger] le(b, c) implies le(a, c) by {
        if lex_le(a.state, b.state) && lex_le(b.state, c.state) {
            lemma_lex_transitive(a.state, b.state, c.state, 0);
        }
    }
    assert forall|a: PortRowView, b: PortRowView| #[trigger]
        row_repeat()(a, b) <==> le(a, b) && le(b, a) by {
        lemma_lex_total(a.state, a.state, 0);
        if lex_le(a.state, b.state) && lex_le(b.state, a.state) {
            lemma_lex_antisymmetric(a.state, b.state, 0);
            assert(a.state.skip(0) =~= a.state);
            assert(b.state.skip(0) =~= b.state);
        }
    }
}

/// The name of the protocol that has this place in listings.
pub open spec fn label_of_rank(rank: u8) -> Seq<char> {
    if rank == 0 {
        "tcp"@
    } else {
        "udp"@
    }
}

/// Every row of a socket carries the place of TCP or that of UDP in
/// listings, and the name of the protocol that has this place.
pub proof fn lemma_table_rows_labelled(sockets: Seq<ProcNetSocketEntry>, scan: HitsView)
    ensures
        forall|i: int|
            0 <= i < table_rows(sockets, scan).len() ==> (#[trigger] table_rows(
                sockets,
                scan,
            )[i]).proto_sort <= 1 && table_rows(sockets, scan)[i].proto == label_of_rank(
                table_rows(sockets, scan)[i].proto_sort,
            ),
    decreases sockets.len(),
{
    if sockets.len() > 0 {
        lemma_table_rows_labelled(sockets.drop_last(), scan);
        let before = table_rows(sockets.drop_last(), scan);
        let more = socket_rows(sockets.last(), scan);
        let table = table_rows(sockets, scan);
        assert forall|i: int| 0 <= i < table.len() implies (#[trigger] table[i]).proto_sort <= 1
            && table[i].proto == label_of_rank(table[i].proto_sort) by {
            if i < before.len() {
                assert(table[i] == before[i]);
            } else {
                assert(table[i] == more[i - before.len()]);
            }
        }
    }
}

/// No two rows of a listing agree on port, name of the protocol, process and
/// state.
pub proof fn lemma_listed_rows_differ(sockets: Seq<ProcNetSocketEntry>, scan: HitsView)
    ensures
        forall|i: int, j: int|
            #![trigger listed_rows(sockets, scan)[i], listed_rows(sockets, scan)[j]]
            0 <= i < j < listed_rows(sockets, scan).len() ==> !({
                let a = listed_rows(sockets, scan)[i];
                let b = listed_rows(sockets, scan)[j];
                a.port == b.port && a.proto == b.proto && a.pid == b.pid && a.state == b.state
            }),
{
    let table = table_rows(sockets, scan);
    let rows = listed_rows(sockets, scan);
    assert(no_two_alike(rows, row_repeat())) by {
        lemma_listed_rows(sockets, scan);
    }
    assert(forall|i: int| 0 <= i < rows.len() ==> table.contains(#[trigger] rows[i])) by {
        lemma_listed_rows(sockets, scan);
    }
    assert("tcp"@ != "udp"@) by {
        reveal_strlit("tcp");
        reveal_strlit("udp");
        assert("tcp"@[0] == 't');
        assert("udp"@[0] == 'u');
    }
    assert forall|i: int, j: int| #![trigger rows[i], rows[j]] 0 <= i < j < rows.len() implies !(rows[i].port
        == rows[j].port && rows[i].proto == rows[j].proto && rows[i].pid == rows[j].pid
        && rows[i].state == rows[j].state) by {
        lemma_table_rows_labelled(sockets, scan);
        assert(table.contains(rows[i]));
        assert(table.contains(rows[j]));
        let m = choose|m: int| 0 <= m < table.len() && table[m] == rows[i];
        let n = choose|n: int| 0 <= n < table.len() && table[n] == rows[j];
        assert(table[m].proto == label_of_rank(table[m].proto_sort));
        assert(table[n].proto == label_of_rank(table[n].proto_sort));
        assert(!row_repeat()(rows[i], rows[j]));
    }
}

/// The rows of a listing are in the order of rows, by port, TCP before UDP,
/// and by process id; no two of them agree on port, protocol, process and
/// state, however many descriptors a process holds to one socket and however
/// the sockets stand in the tables; each is a row of a socket; and every row
/// of a socket has one among them that says the same.
pub proof fn lemma_listed_rows(sockets: Seq<ProcNetSocketEntry>, scan: HitsView)
    ensures
        well_listed(listed_rows(sockets, scan), table_rows(sockets, scan)),
{
    let table = table_rows(sockets, scan);
    let rows = listed_rows(sockets, scan);
    assert(rows == sorted_unique(table, row_sort_order(), row_repeat()));
    assert(in_order(rows, row_sort_order()) && no_two_alike(rows, row_repeat()) && covers(
        rows,
        table,
        row_repeat(),
    ) && forall|i: int| 0 <= i < rows.len() ==> table.contains(#[trigger] rows[i])) by {
        lemma_row_sort_order();
        lemma_sorted_unique(table, row_sort_order(), row_repeat());
    }
    assert(in_order(rows, row_order())) by {
        lemma_row_sort_order();
        assert forall|i: int, j: int|
            #![trigger rows[i], rows[j]]
            0 <= i < j < rows.len() implies row_order()(rows[i], rows[j]) by {
            assert(row_sort_order()(rows[i], rows[j]));
        }
    }
}

/// Where no socket is to be shown the listing is empty and counts no skipped
/// process, whatever was seen of the processes.
pub proof fn lemma_nothing_shown_lists_nothing(
    sockets: Seq<ProcNetSocketEntry>,
    listening: bool,
    established: bool,
    probes: Seq<DescriptorProbe>,
)
    requires
        forall|i: int|
            0 <= i < sockets.len() ==> !socket_selected(#[trigger] sockets[i], listening, established),
    ensures
        port_listing(sockets, listening, established, probes) == Ok::<ListingView, std::io::Error>(
            ListingView { rows: Seq::empty(), skipped_permission_denied: 0 },
        ),
{
    let pred = |s: ProcNetSocketEntry| socket_selected(s, listening, established);
    let shown = sockets.filter(pred);
    if shown.len() > 0 {
        sockets.lemma_filter_pred(pred, 0);
        sockets.lemma_filter_contains_rev(pred, shown[0]);
    }
}

/// What a sweep for the listing waits for.
pub enum ListingStageView {
    /// The list of processes.
    AwaitPids,
    /// The descriptors of the process at hand.
    AwaitDescriptors,
    /// The command name of the process at hand, whose descriptors these are.
    AwaitName(ProcAccess<Vec<DescriptorEntry>>),
    /// Nothing more.
    Done,
}

/// A sweep for the listing as a value: the sockets to be shown, the
/// processes to look at, how many of them are dealt with, what the sweep
/// waits for, what it has collected, and the failure that ended it, if one
/// did.
pub struct ListingSweepView {
    pub shown: Seq<ProcNetSocketEntry>,
    pub pids: Seq<i32>,
    pub at: int,
    pub stage: ListingStageView,
    pub scan: HitsView,
    pub failure: Option<std::io::Error>,
}

/// A sweep for the listing at its beginning. Where no socket is to be shown
/// it has ended already, and no process is listed.
pub open spec fn listing_begun(
    sockets: Seq<ProcNetSocketEntry>,
    listening: bool,
    established: bool,
) -> ListingSweepView {
    let shown = shown_sockets(sockets, listening, established);
    ListingSweepView {
        shown,
        pids: Seq::empty(),
        at: 0,
        stage: if shown.len() == 0 {
            ListingStageView::Done
        } else {
            ListingStageView::AwaitPids
        },
        scan: no_hits(),
        failure: None,
    }
}

/// Whether a sweep has a process at hand.
pub open spec fn listing_at_hand(v: ListingSweepView) -> bool {
    0 <= v.at < v.pids.len()
}

/// What a sweep for the listing asks for.
pub open spec fn listing_action(v: ListingSweepView) -> SweepAction {
    if v.stage is AwaitPids {
        SweepAction::ListProcesses
    } else if v.stage is Done || !listing_at_hand(v) {
        SweepAction::Finished
    } else if v.stage is AwaitDescriptors {
        SweepAction::ReadDescriptors(v.pids[v.at])
    } else {
        SweepAction::ReadCommand(v.pids[v.at])
    }
}

/// A sweep into which what was seen of the process at hand is entered: it
/// turns to the next process, or ends where there is none or where the read
/// of the descriptors failed fatally.
pub open spec fn listing_entered(v: ListingSweepView, probe: DescriptorProbe) -> ListingSweepView {
    match observed(v.scan, probe, socket_inodes(v.shown)) {
        Ok(scan) => ListingSweepView {
            at: v.at + 1,
            stage: if v.at + 1 < v.pids.len() {
                ListingStageView::AwaitDescriptors
            } else {
                ListingStageView::Done
            },
            scan,
            ..v
        },
        Err(e) => ListingSweepView { stage: ListingStageView::Done, failure: Some(e), ..v },
    }
}

/// A sweep for the listing after an event. An event that was not asked for
/// changes nothing.
///
/// The list of processes starts the round over the processes, in the order
/// of the list; a failure to list them ends the sweep with the error. The
/// descriptors of a process are entered at once unless its command name is
/// needed; then the name is asked for, and the process is entered with it.
pub open spec fn listing_stepped(v: ListingSweepView, event: SweepEvent) -> ListingSweepView {
    match (v.stage, event) {
        (ListingStageView::AwaitPids, SweepEvent::Listed(Ok(pids))) => ListingSweepView {
            pids: pids@,
            at: 0,
            stage: if pids@.len() > 0 {
                ListingStageView::AwaitDescriptors
            } else {
                ListingStageView::Done
            },
            ..v
        },
        (ListingStageView::AwaitPids, SweepEvent::Listed(Err(e))) => ListingSweepView {
            stage: ListingStageView::Done,
            failure: Some(e),
            ..v
        },
        (ListingStageView::AwaitDescriptors, SweepEvent::Descriptors(links)) => if listing_at_hand(
            v,
        ) {
            if name_needed(v.scan, v.pids[v.at], links, socket_inodes(v.shown)) {
                ListingSweepView { stage: ListingStageView::AwaitName(links), ..v }
            } else {
                listing_entered(
                    v,
                    DescriptorProbe { pid: v.pids[v.at], links, command: ProcAccess::Gone },
                )
            }
        } else {
            v
        },
        (ListingStageView::AwaitName(links), SweepEvent::Named(read)) => if listing_at_hand(v) {
            listing_entered(v, DescriptorProbe { pid: v.pids[v.at], links, command: read })
        } else {
            v
        },
        _ => v,
    }
}

/// What a sweep for the listing reports: the failure that ended it, or the
/// listing of the sockets shown.
pub open spec fn listing_outcome(v: ListingSweepView) -> Result<ListingView, std::io::Error> {
    match v.failure {
        Some(e) => Err(e),
        None => Ok(
            ListingView {
                rows: listed_rows(v.shown, v.scan),
                skipped_permission_denied: v.scan.skipped.len(),
            },
        ),
    }
}

/// What a sweep for the listing waits for.
enum ListingStage {
    AwaitPids,
    AwaitDescriptors,
    AwaitName(ProcAccess<Vec<DescriptorEntry>>),
    Done,
}

/// The listing of the ports in use, made step by step: the sweep says what
/// to read next, the caller reads it and hands back what the read came to.
pub struct ListingSweep {
    shown: Vec<ProcNetSocketEntry>,
    pids: Vec<i32>,
    at: usize,
    stage: ListingStage,
    scan: Hits,
    failure: Option<std::io::Error>,
}

impl View for ListingSweep {
    type V = ListingSweepView;

    closed spec fn view(&self) -> ListingSweepView {
        ListingSweepView {
            shown: self.shown@,
            pids: self.pids@,
            at: self.at as int,
            stage: match self.stage {
                ListingStage::AwaitPids => ListingStageView::AwaitPids,
                ListingStage::AwaitDescriptors => ListingStageView::AwaitDescriptors,
                ListingStage::AwaitName(links) => ListingStageView::AwaitName(links),
                ListingStage::Done => ListingStageView::Done,
            },
            scan: self.scan@,
            failure: self.failure,
        }
    }
}

impl ListingSweep {
    /// Begins a sweep for the listing of the sockets in the tables; with
    /// `listening`, of the listening ones only, else with `established`, of
    /// the established connections only.
    pub fn begin(sockets: &Vec<ProcNetSocketEntry>, listening: bool, established: bool) -> (sweep:
        ListingSweep)
        ensures
            sweep@ == listing_begun(sockets@, listening, established),
    {
        let shown = select_sockets(sockets, listening, established);
        let stage = if shown.len() == 0 {
            ListingStage::Done
        } else {
            ListingStage::AwaitPids
        };
        ListingSweep { shown, pids: Vec::new(), at: 0, stage, scan: Hits::new(), failure: None }
    }

    /// What is to be done next.
    pub fn action(&self) -> (a: SweepAction)
        ensures
            a == listing_action(self@),
    {
        if self.at >= self.pids.len() {
            return match &self.stage {
                ListingStage::AwaitPids => SweepAction::ListProcesses,
                _ => SweepAction::Finished,
            };
        }
        let pid = self.pids[self.at];
        match &self.stage {
            ListingStage::AwaitPids => SweepAction::ListProcesses,
            ListingStage::AwaitDescriptors => SweepAction::ReadDescriptors(pid),
            ListingStage::AwaitName(_) => SweepAction::ReadCommand(pid),
            ListingStage::Done => SweepAction::Finished,
        }
    }

    /// Enters what was seen of the process at hand.
    fn enter(&mut self, probe: DescriptorProbe)
        requires
            old(self).at < old(self).pids@.len(),
        ensures
            final(self)@ == listing_entered(old(self)@, probe),
    {
        let count = self.pids.len();
        let inodes = inode_set(&self.shown);
        match self.scan.observe(probe, &inodes) {
            Ok(()) => {
                self.at = self.at + 1;
                self.stage = if self.at < count {
                    ListingStage::AwaitDescriptors
                } else {
                    ListingStage::Done
                };
            },
            Err(e) => {
                self.stage = ListingStage::Done;
                self.failure = Some(e);
            },
        }
    }

    /// Takes in what the caller has read.
    pub fn step(&mut self, event: SweepEvent)
        ensures
            final(self)@ == listing_stepped(old(self)@, event),
    {
        let has_process = self.at < self.pids.len();
        let mut stage = ListingStage::Done;
        std::mem::swap(&mut self.stage, &mut stage);
        match (stage, event) {
            (ListingStage::AwaitPids, SweepEvent::Listed(Ok(pids))) => {
                self.at = 0;
                self.stage = if pids.len() > 0 {
                    ListingStage::AwaitDescriptors
                } else {
                    ListingStage::Done
                };
                self.pids = pids;
            },
            (ListingStage::AwaitPids, SweepEvent::Listed(Err(e))) => {
                self.failure = Some(e);
            },
            (ListingStage::AwaitDescriptors, SweepEvent::Descriptors(links)) => {
                if has_process {
                    let pid = self.pids[self.at];
                    let inodes = inode_set(&self.shown);
                    if self.scan.needs_name(pid, &links, &inodes) {
                        self.stage = ListingStage::AwaitName(links);
                    } else {
                        self.stage = ListingStage::AwaitDescriptors;
                        self.enter(DescriptorProbe { pid, links, command: ProcAccess::Gone });
                    }
                } else {
                    self.stage = ListingStage::AwaitDescriptors;
                }
            },
            (ListingStage::AwaitName(links), SweepEvent::Named(read)) => {
                if has_process {
                    let pid = self.pids[self.at];
                    self.stage = ListingStage::AwaitDescriptors;
                    self.enter(DescriptorProbe { pid, links, command: read });
                } else {
                    self.stage = ListingStage::AwaitName(links);
                }
            },
            (waiting, _) => {
                self.stage = waiting;
            },
        }
    }

    /// Ends the sweep and hands out what it has come to.
    pub fn finish(self) -> (r: Result<PortListing, std::io::Error>)
        ensures
            listing_view(r) == listing_outcome(self@),
            r matches Ok(listing) ==> in_order(listing@.rows, row_order()) && no_two_alike(
                listing@.rows,
                row_repeat(),
            ),
    {
        match self.failure {
            Some(e) => Err(e),
            None => Ok(self.scan.listing(&self.shown)),
        }
    }
}

/// The ids of the processes that were seen.
pub open spec fn listed_probe_pids(probes: Seq<DescriptorProbe>) -> Seq<i32> {
    probes.map_values(|p: DescriptorProbe| p.pid)
}

/// A sweep for the listing after a process was dealt with: the sweep is
/// handed what it asks for, one read after the other, from what is to be seen
/// of the process.
pub open spec fn listing_after_probe(v: ListingSweepView, probe: DescriptorProbe) -> ListingSweepView {
    let read = listing_stepped(v, SweepEvent::Descriptors(probe.links));
    if read.stage is AwaitName {
        listing_stepped(read, SweepEvent::Named(probe.command))
    } else {
        read
    }
}

/// A sweep for the listing after some processes were dealt with, one after
/// the other.
pub open spec fn listing_after_probes(v: ListingSweepView, probes: Seq<DescriptorProbe>) -> ListingSweepView
    decreases probes.len(),
{
    if probes.len() == 0 {
        v
    } else {
        listing_after_probe(listing_after_probes(v, probes.drop_last()), probes.last())
    }
}

/// A sweep for the listing that has dealt with the first `k` processes has
/// collected what a scan of these collects.
pub proof fn lemma_listing_sweep_so_far(
    sockets: Seq<ProcNetSocketEntry>,
    listening: bool,
    established: bool,
    pids: Vec<i32>,
    probes: Seq<DescriptorProbe>,
    k: int,
)
    requires
        pids@ == listed_probe_pids(probes),
        0 <= k <= probes.len(),
        probes.len() > 0,
        shown_sockets(sockets, listening, established).len() > 0,
    ensures
        ({
            let shown = shown_sockets(sockets, listening, established);
            let start = listing_stepped(
                listing_begun(sockets, listening, established),
                SweepEvent::Listed(Ok(pids)),
            );
            let now = listing_after_probes(start, probes.take(k));
            match hits_scan(probes.take(k), socket_inodes(shown)) {
                Ok(scan) => now == (ListingSweepView {
                    shown,
                    pids: pids@,
                    at: k,
                    stage: if k < probes.len() {
                        ListingStageView::AwaitDescriptors
                    } else {
                        ListingStageView::Done
                    },
                    scan,
                    failure: None,
                }),
                Err(e) => now.stage is Done && now.failure == Some(e),
            }
        }),
    decreases k,
{
    if k > 0 {
        lemma_listing_sweep_so_far(sockets, listening, established, pids, probes, k - 1);
        assert(probes.take(k).drop_last() =~= probes.take(k - 1));
        assert(probes.take(k).last() == probes[k - 1]);
        assert(pids@[k - 1] == probes[k - 1].pid);
    } else {
        assert(probes.take(0) =~= Seq::<DescriptorProbe>::empty());
    }
}

/// A sweep for the listing that has ended stays as it is, whatever it is
/// handed.
pub proof fn lemma_ended_listing_sweep_stays(v: ListingSweepView, probes: Seq<DescriptorProbe>)
    requires
        v.stage is Done,
    ensures
        listing_after_probes(v, probes) == v,
    decreases probes.len(),
{
    if probes.len() > 0 {
        lemma_ended_listing_sweep_stays(v, probes.drop_last());
    }
}

/// A sweep for the listing, handed what it asks for until it has ended,
/// reports the listing that the processes give; and where no socket is to be
/// shown it has ended before a process is listed.
pub proof fn lemma_listing_sweep_makes_the_listing(
    sockets: Seq<ProcNetSocketEntry>,
    listening: bool,
    established: bool,
    pids: Vec<i32>,
    probes: Seq<DescriptorProbe>,
)
    requires
        pids@ == listed_probe_pids(probes),
    ensures
        shown_sockets(sockets, listening, established).len() == 0 ==> listing_action(
            listing_begun(sockets, listening, established),
        ) == SweepAction::Finished,
        ({
            let start = listing_stepped(
                listing_begun(sockets, listening, established),
                SweepEvent::Listed(Ok(pids)),
            );
            let end = listing_after_probes(start, probes);
            end.stage is Done && listing_outcome(end) == port_listing(
                sockets,
                listening,
                established,
                probes,
            )
        }),
{
    let shown = shown_sockets(sockets, listening, established);
    let start = listing_stepped(
        listing_begun(sockets, listening, established),
        SweepEvent::Listed(Ok(pids)),
    );
    if shown.len() == 0 {
        lemma_ended_listing_sweep_stays(start, probes);
        assert(table_rows(shown, no_hits()) =~= Seq::<PortRowView>::empty());
        assert(listed_rows(shown, no_hits()) =~= Seq::<PortRowView>::empty());
    } else if probes.len() > 0 {
        lemma_listing_sweep_so_far(
            sockets,
            listening,
            established,
            pids,
            probes,
            probes.len() as int,
        );
        assert(probes.take(probes.len() as int) =~= probes);
    } else {
        assert(hits_scan(probes, socket_inodes(shown)) == Ok::<HitsView, std::io::Error>(no_hits()));
    }
}

} // verus!
