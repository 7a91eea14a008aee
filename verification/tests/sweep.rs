use std::collections::BTreeMap;
use std::io;
use zenlixem::{
    whoholds_path, whoholds_port, whoholds_ports, whyopen_path, whyopen_port, DescriptorEntry,
    DescriptorProbe, FileId, ListingSweep, PathProbe, ProcAccess, ProcMapEntry, ProcNetProto,
    ProcNetSocketEntry, Sweep, SweepAction, SweepEvent,
};

const TARGET: FileId = FileId { dev: 0x0801, inode: 4242 };

/// What the reads of one process come to.
struct Seen {
    ids: fn() -> ProcAccess<Vec<Option<FileId>>>,
    maps: fn() -> ProcAccess<Vec<ProcMapEntry>>,
    links: fn() -> ProcAccess<Vec<DescriptorEntry>>,
    name: fn() -> ProcAccess<String>,
}

fn fatal(msg: &str) -> io::Error {
    io::Error::new(io::ErrorKind::Other, msg.to_string())
}

fn link(fd: i32, target: &str) -> DescriptorEntry {
    DescriptorEntry { fd, raw_path: format!("/proc/1/fd/{}", fd), link_target: target.to_string() }
}

fn region(dev_major: u32, dev_minor: u32, inode: u64) -> ProcMapEntry {
    ProcMapEntry { dev_major, dev_minor, inode, pathname: None }
}

fn opens() -> ProcAccess<Vec<Option<FileId>>> {
    ProcAccess::Success(vec![None, Some(TARGET)])
}

fn opens_not() -> ProcAccess<Vec<Option<FileId>>> {
    ProcAccess::Success(vec![None, Some(FileId { dev: 1, inode: 1 })])
}

fn ids_denied() -> ProcAccess<Vec<Option<FileId>>> {
    ProcAccess::PermissionDenied
}

fn ids_gone() -> ProcAccess<Vec<Option<FileId>>> {
    ProcAccess::Gone
}

fn ids_fatal() -> ProcAccess<Vec<Option<FileId>>> {
    ProcAccess::Fatal(fatal("ids"))
}

fn maps() -> ProcAccess<Vec<ProcMapEntry>> {
    ProcAccess::Success(vec![region(8, 1, 4242)])
}

fn maps_not() -> ProcAccess<Vec<ProcMapEntry>> {
    ProcAccess::Success(vec![region(8, 2, 4242)])
}

fn maps_denied() -> ProcAccess<Vec<ProcMapEntry>> {
    ProcAccess::PermissionDenied
}

fn maps_fatal() -> ProcAccess<Vec<ProcMapEntry>> {
    ProcAccess::Fatal(fatal("maps"))
}

fn web_links() -> ProcAccess<Vec<DescriptorEntry>> {
    ProcAccess::Success(vec![link(0, "/dev/null"), link(3, "socket:[100]"), link(4, "socket:[101]")])
}

fn ssh_links() -> ProcAccess<Vec<DescriptorEntry>> {
    ProcAccess::Success(vec![link(3, "socket:[200]")])
}

fn no_links() -> ProcAccess<Vec<DescriptorEntry>> {
    ProcAccess::Success(vec![link(0, "/dev/null")])
}

fn links_denied() -> ProcAccess<Vec<DescriptorEntry>> {
    ProcAccess::PermissionDenied
}

fn links_fatal() -> ProcAccess<Vec<DescriptorEntry>> {
    ProcAccess::Fatal(fatal("links"))
}

fn name() -> ProcAccess<String> {
    ProcAccess::Success("proc".to_string())
}

fn name_gone() -> ProcAccess<String> {
    ProcAccess::Gone
}

fn seen(
    ids: fn() -> ProcAccess<Vec<Option<FileId>>>,
    maps: fn() -> ProcAccess<Vec<ProcMapEntry>>,
) -> Seen {
    Seen { ids, maps, links: no_links, name }
}

fn with_links(links: fn() -> ProcAccess<Vec<DescriptorEntry>>) -> Seen {
    Seen { ids: opens_not, maps: maps_not, links, name }
}

fn perform(world: &BTreeMap<i32, Seen>, action: SweepAction) -> Option<SweepEvent> {
    match action {
        SweepAction::ListProcesses => Some(SweepEvent::Listed(Ok(world.keys().copied().collect()))),
        SweepAction::ReadDescriptorIds(pid) => Some(SweepEvent::DescriptorIds((world[&pid].ids)())),
        SweepAction::ReadMappings(pid) => Some(SweepEvent::Mappings((world[&pid].maps)())),
        SweepAction::ReadDescriptors(pid) => Some(SweepEvent::Descriptors((world[&pid].links)())),
        SweepAction::ReadCommand(pid) => Some(SweepEvent::Named((world[&pid].name)())),
        SweepAction::Finished => None,
    }
}

/// Runs a sweep against a world and tells what was asked for, in order.
fn run(mut sweep: Sweep, world: &BTreeMap<i32, Seen>) -> (Vec<SweepAction>, Sweep) {
    let mut asked = Vec::new();
    loop {
        let action = sweep.action();
        match perform(world, action) {
            Some(event) => {
                asked.push(action);
                sweep.step(event);
            }
            None => return (asked, sweep),
        }
    }
}

fn run_listing(mut sweep: ListingSweep, world: &BTreeMap<i32, Seen>) -> (Vec<SweepAction>, ListingSweep) {
    let mut asked = Vec::new();
    loop {
        let action = sweep.action();
        match perform(world, action) {
            Some(event) => {
                asked.push(action);
                sweep.step(event);
            }
            None => return (asked, sweep),
        }
    }
}

fn path_probes(world: &BTreeMap<i32, Seen>) -> Vec<PathProbe> {
    world
        .iter()
        .map(|(pid, s)| PathProbe {
            pid: *pid,
            descriptors: (s.ids)(),
            mappings: (s.maps)(),
            command: (s.name)(),
        })
        .collect()
}

fn descriptor_probes(world: &BTreeMap<i32, Seen>) -> Vec<DescriptorProbe> {
    world
        .iter()
        .map(|(pid, s)| DescriptorProbe { pid: *pid, links: (s.links)(), command: (s.name)() })
        .collect()
}

fn table() -> Vec<ProcNetSocketEntry> {
    vec![
        ProcNetSocketEntry { proto: ProcNetProto::Tcp, local_port: 80, inode: 100, state: 0x0A },
        ProcNetSocketEntry { proto: ProcNetProto::Tcp, local_port: 80, inode: 101, state: 0x01 },
        ProcNetSocketEntry { proto: ProcNetProto::Tcp, local_port: 22, inode: 200, state: 0x0A },
    ]
}

fn path_world() -> BTreeMap<i32, Seen> {
    let mut w = BTreeMap::new();
    w.insert(10, seen(opens, maps));
    w.insert(20, seen(opens_not, maps));
    w.insert(30, seen(opens_not, maps_not));
    w.insert(40, seen(ids_denied, maps_denied));
    w.insert(50, seen(ids_gone, maps_fatal));
    w.insert(60, seen(ids_denied, maps_not));
    w
}

fn port_world() -> BTreeMap<i32, Seen> {
    let mut w = BTreeMap::new();
    w.insert(10, with_links(web_links));
    w.insert(20, with_links(ssh_links));
    w.insert(30, with_links(no_links));
    w.insert(40, with_links(links_denied));
    w
}

#[test]
fn holder_sweep_reads_only_what_it_needs() {
    let (asked, sweep) = run(Sweep::for_path(TARGET, false), &path_world());
    assert_eq!(
        asked,
        vec![
            SweepAction::ListProcesses,
            // an open descriptor settles it: no memory map is read
            SweepAction::ReadDescriptorIds(10),
            SweepAction::ReadCommand(10),
            SweepAction::ReadDescriptorIds(20),
            SweepAction::ReadMappings(20),
            SweepAction::ReadCommand(20),
            // no holder: no command name is read
            SweepAction::ReadDescriptorIds(30),
            SweepAction::ReadMappings(30),
            SweepAction::ReadDescriptorIds(40),
            SweepAction::ReadMappings(40),
            // gone: nothing more is read, not even the map that would fail
            SweepAction::ReadDescriptorIds(50),
            SweepAction::ReadDescriptorIds(60),
            SweepAction::ReadMappings(60),
        ]
    );
    let r = sweep.finish().unwrap();
    assert_eq!(r.holders.keys().copied().collect::<Vec<i32>>(), vec![10, 20]);
    assert_eq!(r.holders[&10].reasons, vec!["open fd"]);
    assert_eq!(r.holders[&20].reasons, vec!["mmap"]);
    assert_eq!(r.holders[&10].command, "proc");
    assert_eq!(r.skipped_permission_denied, 1);
}

#[test]
fn reasons_sweep_makes_both_checks() {
    let (asked, sweep) = run(Sweep::for_path(TARGET, true), &path_world());
    assert_eq!(
        asked,
        vec![
            SweepAction::ListProcesses,
            SweepAction::ReadDescriptorIds(10),
            SweepAction::ReadMappings(10),
            SweepAction::ReadCommand(10),
            SweepAction::ReadDescriptorIds(20),
            SweepAction::ReadMappings(20),
            SweepAction::ReadCommand(20),
            SweepAction::ReadDescriptorIds(30),
            SweepAction::ReadMappings(30),
            SweepAction::ReadDescriptorIds(40),
            SweepAction::ReadMappings(40),
            SweepAction::ReadDescriptorIds(50),
            SweepAction::ReadDescriptorIds(60),
            SweepAction::ReadMappings(60),
        ]
    );
    let r = sweep.finish().unwrap();
    assert_eq!(r.holders[&10].reasons, vec!["memory mapped", "open fd"]);
    assert_eq!(r.holders[&20].reasons, vec!["memory mapped"]);
    assert_eq!(r.skipped_permission_denied, 1);
}

#[test]
fn path_sweep_agrees_with_the_pass() {
    for explain in [false, true] {
        let (_, sweep) = run(Sweep::for_path(TARGET, explain), &path_world());
        let pass = if explain {
            whyopen_path(TARGET, path_probes(&path_world()))
        } else {
            whoholds_path(TARGET, path_probes(&path_world()))
        };
        assert_eq!(sweep.finish().unwrap(), pass.unwrap());
    }
}

#[test]
fn path_sweep_ends_at_a_fatal_outcome() {
    let mut w = BTreeMap::new();
    w.insert(1, seen(opens, maps));
    w.insert(2, seen(ids_fatal, maps));
    w.insert(3, seen(opens, maps));
    let (asked, sweep) = run(Sweep::for_path(TARGET, false), &w);
    assert_eq!(
        asked,
        vec![
            SweepAction::ListProcesses,
            SweepAction::ReadDescriptorIds(1),
            SweepAction::ReadCommand(1),
            SweepAction::ReadDescriptorIds(2),
        ]
    );
    assert_eq!(sweep.finish().unwrap_err().to_string(), "ids");

    let mut w = BTreeMap::new();
    w.insert(1, seen(opens_not, maps_fatal));
    let (asked, sweep) = run(Sweep::for_path(TARGET, true), &w);
    assert_eq!(
        asked,
        vec![
            SweepAction::ListProcesses,
            SweepAction::ReadDescriptorIds(1),
            SweepAction::ReadMappings(1),
        ]
    );
    assert_eq!(sweep.finish().unwrap_err().to_string(), "maps");
}

#[test]
fn sweep_without_processes_and_with_a_failed_listing() {
    let (asked, sweep) = run(Sweep::for_path(TARGET, false), &BTreeMap::new());
    assert_eq!(asked, vec![SweepAction::ListProcesses]);
    let r = sweep.finish().unwrap();
    assert!(r.holders.is_empty());
    assert_eq!(r.skipped_permission_denied, 0);

    let mut sweep = Sweep::for_path(TARGET, false);
    assert_eq!(sweep.action(), SweepAction::ListProcesses);
    sweep.step(SweepEvent::Listed(Err(fatal("no /proc"))));
    assert_eq!(sweep.action(), SweepAction::Finished);
    assert_eq!(sweep.finish().unwrap_err().to_string(), "no /proc");
}

#[test]
fn sweep_ignores_what_it_did_not_ask_for() {
    let mut sweep = Sweep::for_path(TARGET, false);
    sweep.step(SweepEvent::Named(name()));
    sweep.step(SweepEvent::Mappings(maps()));
    sweep.step(SweepEvent::DescriptorIds(opens()));
    assert_eq!(sweep.action(), SweepAction::ListProcesses);
    sweep.step(SweepEvent::Listed(Ok(vec![7])));
    assert_eq!(sweep.action(), SweepAction::ReadDescriptorIds(7));
    sweep.step(SweepEvent::Descriptors(web_links()));
    sweep.step(SweepEvent::Listed(Ok(vec![8, 9])));
    sweep.step(SweepEvent::Named(name()));
    assert_eq!(sweep.action(), SweepAction::ReadDescriptorIds(7));
    sweep.step(SweepEvent::DescriptorIds(opens()));
    assert_eq!(sweep.action(), SweepAction::ReadCommand(7));
    sweep.step(SweepEvent::DescriptorIds(opens()));
    assert_eq!(sweep.action(), SweepAction::ReadCommand(7));
    sweep.step(SweepEvent::Named(name_gone()));
    assert_eq!(sweep.action(), SweepAction::Finished);
    sweep.step(SweepEvent::Named(name()));
    sweep.step(SweepEvent::Listed(Ok(vec![8])));
    assert_eq!(sweep.action(), SweepAction::Finished);
    let r = sweep.finish().unwrap();
    assert_eq!(r.holders.len(), 1);
    assert_eq!(r.holders[&7].command, "<unknown>");
}

#[test]
fn port_sweep_reads_the_name_of_holders_only() {
    let (asked, sweep) = run(Sweep::for_port(table(), 80, false), &port_world());
    assert_eq!(
        asked,
        vec![
            SweepAction::ListProcesses,
            SweepAction::ReadDescriptors(10),
            SweepAction::ReadCommand(10),
            SweepAction::ReadDescriptors(20),
            SweepAction::ReadDescriptors(30),
            SweepAction::ReadDescriptors(40),
        ]
    );
    let r = sweep.finish().unwrap();
    assert_eq!(r.holders.keys().copied().collect::<Vec<i32>>(), vec![10]);
    assert_eq!(r.holders[&10].reasons, vec!["open fd"]);
    assert_eq!(r.skipped_permission_denied, 1);
}

#[test]
fn port_sweep_agrees_with_the_pass() {
    for port in [22u16, 80, 8080] {
        let (_, sweep) = run(Sweep::for_port(table(), port, false), &port_world());
        let pass = whoholds_port(port, &table(), descriptor_probes(&port_world()));
        assert_eq!(sweep.finish().unwrap(), pass.unwrap());
        let (_, sweep) = run(Sweep::for_port(table(), port, true), &port_world());
        let pass = whyopen_port(port, &table(), descriptor_probes(&port_world()));
        assert_eq!(sweep.finish().unwrap(), pass.unwrap());
    }
}

#[test]
fn port_sweep_for_an_unused_port_lists_no_process() {
    let (asked, sweep) = run(Sweep::for_port(table(), 8080, true), &port_world());
    assert_eq!(asked, vec![]);
    let r = sweep.finish().unwrap();
    assert!(r.holders.is_empty());
    assert_eq!(r.skipped_permission_denied, 0);
}

#[test]
fn port_sweep_ends_at_a_fatal_outcome() {
    let mut w = port_world();
    w.insert(15, with_links(links_fatal));
    let (asked, sweep) = run(Sweep::for_port(table(), 80, true), &w);
    assert_eq!(
        asked,
        vec![
            SweepAction::ListProcesses,
            SweepAction::ReadDescriptors(10),
            SweepAction::ReadCommand(10),
            SweepAction::ReadDescriptors(15),
        ]
    );
    assert_eq!(sweep.finish().unwrap_err().to_string(), "links");
}

#[test]
fn listing_sweep_reads_the_name_of_holders_only() {
    let (asked, sweep) = run_listing(ListingSweep::begin(&table(), false, false), &port_world());
    assert_eq!(
        asked,
        vec![
            SweepAction::ListProcesses,
            SweepAction::ReadDescriptors(10),
            SweepAction::ReadCommand(10),
            SweepAction::ReadDescriptors(20),
            SweepAction::ReadCommand(20),
            SweepAction::ReadDescriptors(30),
            SweepAction::ReadDescriptors(40),
        ]
    );
    let l = sweep.finish().unwrap();
    let got: Vec<(u16, i32, &str)> = l.rows.iter().map(|r| (r.port, r.pid, r.state.as_str())).collect();
    assert_eq!(got, vec![(22, 20, "listening"), (80, 10, "established"), (80, 10, "listening")]);
    assert_eq!(l.skipped_permission_denied, 1);
}

#[test]
fn listing_sweep_agrees_with_the_listing() {
    for (listening, established) in [(false, false), (true, false), (false, true)] {
        let (_, sweep) = run_listing(ListingSweep::begin(&table(), listening, established), &port_world());
        let listing =
            whoholds_ports(listening, established, &table(), descriptor_probes(&port_world()));
        assert_eq!(sweep.finish().unwrap(), listing.unwrap());
    }
}

#[test]
fn listing_sweep_with_nothing_to_show_lists_no_process() {
    let (asked, sweep) = run_listing(ListingSweep::begin(&Vec::new(), false, false), &port_world());
    assert_eq!(asked, vec![]);
    let l = sweep.finish().unwrap();
    assert!(l.rows.is_empty());
    assert_eq!(l.skipped_permission_denied, 0);
}

#[test]
fn listing_sweep_ends_at_a_fatal_outcome() {
    let mut w = port_world();
    w.insert(5, with_links(links_fatal));
    let (asked, sweep) = run_listing(ListingSweep::begin(&table(), false, false), &w);
    assert_eq!(asked, vec![SweepAction::ListProcesses, SweepAction::ReadDescriptors(5)]);
    assert_eq!(sweep.finish().unwrap_err().to_string(), "links");
}
