//! The system-wide socket tables: their lines, the entries read from them,
//! and the labels of protocols and connection states.

use crate::number::{
    hex_byte_text, parse_hex_u16, parse_hex_u8, parse_u64, push_hex_byte, unsigned_value,
};
use crate::text::{
    chars_of, copy_range, fields, find_char, first_index_from, lemma_rejected_item_skipped,
    line_views, parsed_items,
    split_fields, word_views,
};
use std::collections::BTreeSet;
use vstd::prelude::*;
use vstd::string::StringExecFns;

verus! {

broadcast use {vstd::std_specs::btree::group_btree_axioms, vstd::laws_cmp::group_laws_cmp};

/// The protocol table that a socket was listed in.
#[derive(Clone, Copy, Debug, PartialEq, Eq, Structural)]
pub enum ProcNetProto {
    Tcp,
    Tcp6,
    Udp,
    Udp6,
}

/// One socket of a protocol table. `state` is the kernel's code for the
/// connection state, in the encoding of the protocol.
#[derive(Clone, Copy, Debug, PartialEq, Eq, Structural)]
pub struct ProcNetSocketEntry {
    pub proto: ProcNetProto,
    pub local_port: u16,
    pub inode: u64,
    pub state: u8,
}

/// TCP state code of an established connection.
pub const TCP_ESTABLISHED: u8 = 0x01;

/// TCP state code of a listening socket.
pub const TCP_LISTEN: u8 = 0x0A;

/// UDP state code that marks a bound socket.
pub const UDP_BOUND: u8 = 0x07;

/// Whether a protocol is TCP, over either address family.
pub open spec fn is_tcp(proto: ProcNetProto) -> bool {
    proto == ProcNetProto::Tcp || proto == ProcNetProto::Tcp6
}

/// The port of a local address `address:port`: what follows the first colon,
/// read as 16 bits of hexadecimal, most significant digit first.
pub open spec fn local_port_of(address: Seq<char>) -> Option<u16> {
    let colon = first_index_from(address, ':', 0);
    if colon >= address.len() {
        None
    } else {
        match unsigned_value(address.skip(colon + 1), 16, u16::MAX as nat) {
            Some(p) => Some(p as u16),
            None => None,
        }
    }
}

/// The entry that a data line of a socket table denotes: the line needs ten
/// fields, of which the second is the local address, the fourth the state as
/// a hexadecimal byte and the tenth the inode in decimal. `None` for a line
/// with fewer fields or with one of the three unreadable.
pub open spec fn socket_line_entry(line: Seq<char>, proto: ProcNetProto) -> Option<
    ProcNetSocketEntry,
> {
    let f = fields(line);
    if f.len() < 10 {
        None
    } else {
        match (
            local_port_of(f[1]),
            unsigned_value(f[3], 16, u8::MAX as nat),
            unsigned_value(f[9], 10, u64::MAX as nat),
        ) {
            (Some(port), Some(state), Some(inode)) => Some(
                ProcNetSocketEntry {
                    proto,
                    local_port: port,
                    inode: inode as u64,
                    state: state as u8,
                },
            ),
            _ => None,
        }
    }
}

/// The entries of a socket table: its first line is a header, each further
/// line gives an entry or is skipped.
pub open spec fn socket_table_entries(lines: Seq<Seq<char>>, proto: ProcNetProto) -> Seq<
    ProcNetSocketEntry,
> {
    if lines.len() == 0 {
        Seq::empty()
    } else {
        parsed_items(lines.drop_first(), |line: Seq<char>| socket_line_entry(line, proto))
    }
}

/// The entries of a table that may be missing: a table that could not be
/// opened has none.
pub open spec fn optional_table_entries(lines: Option<&Vec<String>>, proto: ProcNetProto) -> Seq<
    ProcNetSocketEntry,
> {
    match lines {
        Some(l) => socket_table_entries(line_views(l@), proto),
        None => Seq::empty(),
    }
}

/// Reads the port of a local address.
pub fn parse_local_port(address: &Vec<char>) -> (r: Option<u16>)
    ensures
        r == local_port_of(address@),
{
    let colon = find_char(address, ':', 0);
    if colon >= address.len() {
        return None;
    }
    let port_hex = copy_range(address, colon + 1, address.len());
    assert(address@.subrange(colon + 1, address@.len() as int) =~= address@.skip(colon + 1));
    parse_hex_u16(&port_hex)
}

/// Reads one data line of a socket table.
pub fn parse_socket_line(line: &str, proto: ProcNetProto) -> (r: Option<ProcNetSocketEntry>)
    ensures
        r == socket_line_entry(line@, proto),
{
    let chars = chars_of(line);
    let f = split_fields(&chars);
    assert(word_views(f@).len() == f@.len());
    if f.len() < 10 {
        return None;
    }
    assert(word_views(f@)[1] == f@[1]@);
    assert(word_views(f@)[3] == f@[3]@);
    assert(word_views(f@)[9] == f@[9]@);
    let port = parse_local_port(&f[1]);
    let state = parse_hex_u8(&f[3]);
    let inode = parse_u64(&f[9]);
    match (port, state, inode) {
        (Some(local_port), Some(state), Some(inode)) => Some(
            ProcNetSocketEntry { proto, local_port, inode, state },
        ),
        _ => None,
    }
}

/// Reads the lines of one socket table. The first line, the header, is not
/// read; a line that does not give an entry is skipped.
pub fn parse_proc_net_file(lines: &Vec<String>, proto: ProcNetProto) -> (out: Vec<
    ProcNetSocketEntry,
>)
    ensures
        out@ == socket_table_entries(line_views(lines@), proto),
{
    let mut out: Vec<ProcNetSocketEntry> = Vec::new();
    if lines.len() == 0 {
        return out;
    }
    let ghost data = line_views(lines@).drop_first();
    let ghost parse = |line: Seq<char>| socket_line_entry(line, proto);
    let mut i: usize = 1;
    assert(data.take(0) =~= Seq::<Seq<char>>::empty());
    while i < lines.len()
        invariant
            1 <= i <= lines.len(),
            data == line_views(lines@).drop_first(),
            parse == |line: Seq<char>| socket_line_entry(line, proto),
            out@ == parsed_items(data.take(i - 1), parse),
        decreases lines.len() - i,
    {
        assert(data.take(i as int).drop_last() =~= data.take(i - 1));
        assert(data.take(i as int).last() == lines@[i as int]@);
        match parse_socket_line(lines[i].as_str(), proto) {
            Some(e) => {
                out.push(e);
            },
            None => {},
        }
        i += 1;
    }
    assert(data.take(i - 1) =~= data);
    out
}

/// Reads the four socket tables and joins their entries: TCP, TCP over IPv6,
/// UDP, UDP over IPv6, in this order. A table that is missing contributes no
/// entry and fails nothing.
pub fn read_proc_net_sockets(
    tcp: Option<&Vec<String>>,
    tcp6: Option<&Vec<String>>,
    udp: Option<&Vec<String>>,
    udp6: Option<&Vec<String>>,
) -> (r: Result<Vec<ProcNetSocketEntry>, std::io::Error>)
    ensures
        r matches Ok(out) && out@ == optional_table_entries(tcp, ProcNetProto::Tcp)
            + optional_table_entries(tcp6, ProcNetProto::Tcp6) + optional_table_entries(
            udp,
            ProcNetProto::Udp,
        ) + optional_table_entries(udp6, ProcNetProto::Udp6),
{
    let mut out: Vec<ProcNetSocketEntry> = Vec::new();
    append_table(&mut out, tcp, ProcNetProto::Tcp);
    append_table(&mut out, tcp6, ProcNetProto::Tcp6);
    append_table(&mut out, udp, ProcNetProto::Udp);
    append_table(&mut out, udp6, ProcNetProto::Udp6);
    Ok(out)
}

/// Appends the entries of one table, if it is there.
fn append_table(out: &mut Vec<ProcNetSocketEntry>, lines: Option<&Vec<String>>, proto: ProcNetProto)
    ensures
        final(out)@ == old(out)@ + optional_table_entries(lines, proto),
{
    match lines {
        Some(l) => {
            let mut entries = parse_proc_net_file(l, proto);
            out.append(&mut entries);
        },
        None => {
            assert(old(out)@ + Seq::<ProcNetSocketEntry>::empty() =~= old(out)@);
        },
    }
}

/// The short name of a protocol: `tcp` or `udp`, whatever the address family.
pub open spec fn proto_label_text(proto: ProcNetProto) -> Seq<char> {
    if is_tcp(proto) {
        "tcp"@
    } else {
        "udp"@
    }
}

/// The place of a protocol in listings: TCP before UDP.
pub open spec fn proto_rank(proto: ProcNetProto) -> u8 {
    if is_tcp(proto) {
        0
    } else {
        1
    }
}

/// The short name of a protocol.
pub fn proto_label(proto: ProcNetProto) -> (r: &'static str)
    ensures
        r@ == proto_label_text(proto),
{
    match proto {
        ProcNetProto::Tcp | ProcNetProto::Tcp6 => "tcp",
        ProcNetProto::Udp | ProcNetProto::Udp6 => "udp",
    }
}

/// The short name of a protocol and its place in listings.
pub fn proto_label_and_sort(proto: ProcNetProto) -> (r: (&'static str, u8))
    ensures
        r.0@ == proto_label_text(proto),
        r.1 == proto_rank(proto),
{
    match proto {
        ProcNetProto::Tcp | ProcNetProto::Tcp6 => ("tcp", 0),
        ProcNetProto::Udp | ProcNetProto::Udp6 => ("udp", 1),
    }
}

/// A socket that listens: a TCP socket in the listening state, or a UDP
/// socket that is bound.
pub open spec fn is_listening(s: ProcNetSocketEntry) -> bool {
    if is_tcp(s.proto) {
        s.state == TCP_LISTEN
    } else {
        s.state == UDP_BOUND
    }
}

/// A socket with an established connection: TCP only.
pub open spec fn is_established(s: ProcNetSocketEntry) -> bool {
    is_tcp(s.proto) && s.state == TCP_ESTABLISHED
}

/// How a connection state reads: `established` and `listening` where the
/// protocol has such a state, any other code as `0x` and two hexadecimal
/// digits.
pub open spec fn state_label_text(proto: ProcNetProto, state: u8) -> Seq<char> {
    let s = ProcNetSocketEntry { proto, local_port: 0, inode: 0, state };
    if is_established(s) {
        "established"@
    } else if is_listening(s) {
        "listening"@
    } else {
        hex_byte_text(state)
    }
}

/// How a connection state reads.
pub fn socket_state_label(proto: ProcNetProto, state: u8) -> (r: String)
    ensures
        r@ == state_label_text(proto, state),
{
    let tcp = match proto {
        ProcNetProto::Tcp | ProcNetProto::Tcp6 => true,
        ProcNetProto::Udp | ProcNetProto::Udp6 => false,
    };
    if tcp && state == TCP_ESTABLISHED {
        String::from_str("established")
    } else if (tcp && state == TCP_LISTEN) || (!tcp && state == UDP_BOUND) {
        String::from_str("listening")
    } else {
        let mut out = String::new();
        push_hex_byte(&mut out, state);
        assert(Seq::<char>::empty() + hex_byte_text(state) =~= hex_byte_text(state));
        out
    }
}

/// Whether a listing restricted to listening or to established sockets shows
/// a socket. Listening is asked first; with neither, every socket is shown.
pub open spec fn socket_selected(s: ProcNetSocketEntry, listening: bool, established: bool) -> bool {
    if listening {
        is_listening(s)
    } else if established {
        is_established(s)
    } else {
        true
    }
}

/// Whether a restricted listing shows a socket.
pub fn socket_is_selected(s: &ProcNetSocketEntry, listening: bool, established: bool) -> (r: bool)
    ensures
        r == socket_selected(*s, listening, established),
{
    let tcp = match s.proto {
        ProcNetProto::Tcp | ProcNetProto::Tcp6 => true,
        ProcNetProto::Udp | ProcNetProto::Udp6 => false,
    };
    if listening {
        if tcp {
            s.state == TCP_LISTEN
        } else {
            s.state == UDP_BOUND
        }
    } else if established {
        tcp && s.state == TCP_ESTABLISHED
    } else {
        true
    }
}

/// The sockets that a restricted listing shows, in table order.
pub fn select_sockets(sockets: &Vec<ProcNetSocketEntry>, listening: bool, established: bool) -> (out:
    Vec<ProcNetSocketEntry>)
    ensures
        out@ == sockets@.filter(|s: ProcNetSocketEntry| socket_selected(s, listening, established)),
{
    let ghost pred = |s: ProcNetSocketEntry| socket_selected(s, listening, established);
    let mut out: Vec<ProcNetSocketEntry> = Vec::new();
    let mut i: usize = 0;
    proof {
        reveal(Seq::filter);
        assert(sockets@.take(0) =~= Seq::<ProcNetSocketEntry>::empty());
    }
    while i < sockets.len()
        invariant
            i <= sockets.len(),
            pred == |s: ProcNetSocketEntry| socket_selected(s, listening, established),
            out@ == sockets@.take(i as int).filter(pred),
        decreases sockets.len() - i,
    {
        proof {
            reveal(Seq::filter);
            assert(sockets@.take(i + 1).drop_last() =~= sockets@.take(i as int));
        }
        if socket_is_selected(&sockets[i], listening, established) {
            out.push(sockets[i]);
        }
        i += 1;
    }
    assert(sockets@.take(i as int) =~= sockets@);
    out
}

/// A data line of a socket table that gives no entry is skipped: the table
/// reads as it does without the line, and the lines after it are read all the
/// same.
pub proof fn lemma_malformed_socket_line_skipped(
    header: Seq<char>,
    before: Seq<Seq<char>>,
    line: Seq<char>,
    after: Seq<Seq<char>>,
    proto: ProcNetProto,
)
    requires
        socket_line_entry(line, proto) is None,
    ensures
        socket_table_entries(seq![header] + before.push(line) + after, proto)
            == socket_table_entries(seq![header] + before + after, proto),
{
    let parse = |l: Seq<char>| socket_line_entry(l, proto);
    lemma_rejected_item_skipped(before, line, after, parse);
    assert((seq![header] + before.push(line) + after).drop_first() =~= before.push(line) + after);
    assert((seq![header] + before + after).drop_first() =~= before + after);
}

/// Whether a socket is bound to the port asked for; with no port asked for,
/// every socket is.
pub open spec fn bound_to(s: ProcNetSocketEntry, port: Option<u16>) -> bool {
    match port {
        Some(p) => s.local_port == p,
        None => true,
    }
}

/// The inodes of the sockets bound to the port asked for; with no port asked
/// for, those of all the sockets.
pub open spec fn inodes_where(sockets: Seq<ProcNetSocketEntry>, port: Option<u16>) -> Set<u64> {
    Set::new(
        |inode: u64|
            exists|i: int|
                0 <= i < sockets.len() && bound_to(#[trigger] sockets[i], port) && sockets[i].inode
                    == inode,
    )
}

/// Collects the inodes of the sockets bound to the port asked for.
pub fn collect_inodes(sockets: &Vec<ProcNetSocketEntry>, port: Option<u16>) -> (set: BTreeSet<u64>)
    ensures
        set@ == inodes_where(sockets@, port),
{
    let mut set: BTreeSet<u64> = BTreeSet::new();
    let mut i: usize = 0;
    assert(set@ =~= inodes_where(sockets@.take(0), port));
    while i < sockets.len()
        invariant
            i <= sockets.len(),
            set@ == inodes_where(sockets@.take(i as int), port),
        decreases sockets.len() - i,
    {
        let ghost before = sockets@.take(i as int);
        let ghost after = sockets@.take(i + 1);
        let wanted = match port {
            Some(p) => sockets[i].local_port == p,
            None => true,
        };
        if wanted {
            set.insert(sockets[i].inode);
        }
        proof {
            assert forall|inode: u64| set@.contains(inode) == inodes_where(after, port).contains(
                inode,
            ) by {
                if inodes_where(after, port).contains(inode) {
                    let j = choose|j: int|
                        0 <= j < after.len() && bound_to(#[trigger] after[j], port)
                            && after[j].inode == inode;
                    if j < i {
                        assert(before[j] == after[j]);
                        assert(inodes_where(before, port).contains(inode));
                    }
                }
                if inodes_where(before, port).contains(inode) {
                    let j = choose|j: int|
                        0 <= j < before.len() && bound_to(#[trigger] before[j], port)
                            && before[j].inode == inode;
                    assert(after[j] == before[j]);
                }
                if wanted && sockets@[i as int].inode == inode {
                    assert(after[i as int] == sockets@[i as int]);
                }
            }
            assert(set@ =~= inodes_where(after, port));
        }
        i += 1;
    }
    assert(sockets@.take(i as int) =~= sockets@);
    set
}

} // verus!
