//! The checks made on one process: whether one of its descriptors, or one of
//! its memory mappings, is the target, and whether one of its descriptors is
//! a socket of the target port.

use crate::access::ProcAccess;
use crate::identity::FileId;
use crate::number::{parse_u64, unsigned_value};
use crate::procfs::{DescriptorEntry, ProcMapEntry};
use crate::text::{chars_of, copy_range};
use std::collections::BTreeSet;
use vstd::prelude::*;
use vstd::string::StringExecFns;

verus! {

broadcast use {vstd::std_specs::btree::group_btree_axioms, vstd::laws_cmp::group_laws_cmp};

/// Why a process counts as a holder when only the fact is asked for.
#[derive(Clone, Copy, Debug, PartialEq, Eq, Structural)]
pub enum Reason {
    OpenFd,
    Mmap,
}

/// How a reason reads.
pub open spec fn reason_text(reason: Reason) -> Seq<char> {
    match reason {
        Reason::OpenFd => "open fd"@,
        Reason::Mmap => "mmap"@,
    }
}

impl Reason {
    /// How the reason reads.
    pub fn as_str(&self) -> (r: &'static str)
        ensures
            r@ == reason_text(*self),
    {
        match self {
            Reason::OpenFd => "open fd",
            Reason::Mmap => "mmap",
        }
    }
}

/// The name shown for a process whose command name could not be read.
pub open spec fn unknown_command() -> Seq<char> {
    "<unknown>"@
}

/// The command name to show for a process: the one that was read, or
/// `<unknown>` where the read did not succeed, whatever the reason.
pub fn read_comm_best_effort(read: ProcAccess<String>) -> (r: String)
    ensures
        r@ == match read {
            ProcAccess::Success(name) => name@,
            _ => unknown_command(),
        },
{
    match read {
        ProcAccess::Success(name) => name,
        ProcAccess::PermissionDenied | ProcAccess::Gone | ProcAccess::Fatal(_) => String::from_str(
            "<unknown>",
        ),
    }
}

/// The outcome of a check made on what a read gave: the check's answer where
/// the read succeeded, and the read's own outcome where it did not.
pub open spec fn checked<T>(read: ProcAccess<T>, answer: spec_fn(T) -> bool) -> ProcAccess<bool> {
    match read {
        ProcAccess::Success(v) => ProcAccess::Success(answer(v)),
        ProcAccess::PermissionDenied => ProcAccess::PermissionDenied,
        ProcAccess::Gone => ProcAccess::Gone,
        ProcAccess::Fatal(e) => ProcAccess::Fatal(e),
    }
}

/// One of the descriptors is the target: its identity could be had and is
/// that of the target.
pub open spec fn some_descriptor_is(ids: Seq<Option<FileId>>, target: FileId) -> bool {
    exists|i: int| 0 <= i < ids.len() && #[trigger] ids[i] == Some(target)
}

/// The open-descriptor check of one process. `links` holds, for each of its
/// descriptors, the identity of what the descriptor refers to, or `None`
/// where that could not be had.
pub fn scan_pid_open_fd_file(links: ProcAccess<Vec<Option<FileId>>>, target: FileId) -> (r:
    ProcAccess<bool>)
    ensures
        r == checked(links, |ids: Vec<Option<FileId>>| some_descriptor_is(ids@, target)),
{
    let ids = match links {
        ProcAccess::Success(v) => v,
        ProcAccess::PermissionDenied => return ProcAccess::PermissionDenied,
        ProcAccess::Gone => return ProcAccess::Gone,
        ProcAccess::Fatal(e) => return ProcAccess::Fatal(e),
    };
    let mut i: usize = 0;
    while i < ids.len()
        invariant
            i <= ids.len(),
            links == ProcAccess::Success(ids),
            forall|j: int| 0 <= j < i ==> ids@[j] != Some(target),
        decreases ids.len() - i,
    {
        match ids[i] {
            Some(id) => {
                if id.dev == target.dev && id.inode == target.inode {
                    assert(ids@[i as int] == Some(target));
                    assert(some_descriptor_is(ids@, target));
                    return ProcAccess::Success(true);
                }
            },
            None => {},
        }
        i += 1;
    }
    ProcAccess::Success(false)
}

/// A region maps the file with these device numbers and this inode. A region
/// with inode zero is backed by no file and maps none.
pub open spec fn maps_file(e: ProcMapEntry, major: u32, minor: u32, inode: u64) -> bool {
    e.inode != 0 && e.inode == inode && e.dev_major == major && e.dev_minor == minor
}

/// One of the regions maps the file.
pub open spec fn some_region_maps(maps: Seq<ProcMapEntry>, major: u32, minor: u32, inode: u64) -> bool {
    exists|i: int| 0 <= i < maps.len() && maps_file(#[trigger] maps[i], major, minor, inode)
}

/// The mapping check of one process.
pub fn scan_pid_mmap_file(
    maps: ProcAccess<Vec<ProcMapEntry>>,
    target_major: u32,
    target_minor: u32,
    target_inode: u64,
) -> (r: ProcAccess<bool>)
    ensures
        r == checked(
            maps,
            |regions: Vec<ProcMapEntry>|
                some_region_maps(regions@, target_major, target_minor, target_inode),
        ),
{
    let regions = match maps {
        ProcAccess::Success(v) => v,
        ProcAccess::PermissionDenied => return ProcAccess::PermissionDenied,
        ProcAccess::Gone => return ProcAccess::Gone,
        ProcAccess::Fatal(e) => return ProcAccess::Fatal(e),
    };
    let mut i: usize = 0;
    while i < regions.len()
        invariant
            i <= regions.len(),
            maps == ProcAccess::Success(regions),
            forall|j: int|
                0 <= j < i ==> !maps_file(
                    #[trigger] regions@[j],
                    target_major,
                    target_minor,
                    target_inode,
                ),
        decreases regions.len() - i,
    {
        let entry = &regions[i];
        if entry.inode != 0 && entry.inode == target_inode && entry.dev_major == target_major
            && entry.dev_minor == target_minor {
            assert(maps_file(regions@[i as int], target_major, target_minor, target_inode));
            assert(some_region_maps(regions@, target_major, target_minor, target_inode));
            return ProcAccess::Success(true);
        }
        i += 1;
    }
    ProcAccess::Success(false)
}

/// What the link of a socket descriptor starts with.
pub open spec fn socket_prefix() -> Seq<char> {
    seq!['s', 'o', 'c', 'k', 'e', 't', ':', '[']
}

/// The inode of the socket that a descriptor's link names: the link has the
/// form `socket:[inode]`, the inode in decimal. Any other link names none.
pub open spec fn socket_inode_of(link: Seq<char>) -> Option<u64> {
    if link.len() >= 9 && link.take(8) == socket_prefix() && link.last() == ']' {
        match unsigned_value(link.subrange(8, link.len() - 1), 10, u64::MAX as nat) {
            Some(inode) => Some(inode as u64),
            None => None,
        }
    } else {
        None
    }
}

/// Reads the inode out of the link of a socket descriptor.
pub fn parse_socket_inode(link: &str) -> (r: Option<u64>)
    ensures
        r == socket_inode_of(link@),
{
    let chars = chars_of(link);
    let n = chars.len();
    if n < 9 {
        return None;
    }
    if !(chars[0] == 's' && chars[1] == 'o' && chars[2] == 'c' && chars[3] == 'k' && chars[4] == 'e'
        && chars[5] == 't' && chars[6] == ':' && chars[7] == '[') {
        assert(chars@.take(8) != socket_prefix()) by {
            if chars@.take(8) == socket_prefix() {
                assert(chars@.take(8)[0] == 's');
                assert(chars@.take(8)[1] == 'o');
                assert(chars@.take(8)[2] == 'c');
                assert(chars@.take(8)[3] == 'k');
                assert(chars@.take(8)[4] == 'e');
                assert(chars@.take(8)[5] == 't');
                assert(chars@.take(8)[6] == ':');
                assert(chars@.take(8)[7] == '[');
            }
        }
        return None;
    }
    assert(chars@.take(8) =~= socket_prefix());
    if chars[n - 1] != ']' {
        return None;
    }
    let digits = copy_range(&chars, 8, n - 1);
    parse_u64(&digits)
}

/// One of the descriptors is a socket whose inode is among `inodes`.
pub open spec fn some_socket_among(links: Seq<DescriptorEntry>, inodes: Set<u64>) -> bool {
    exists|i: int|
        0 <= i < links.len() && (#[trigger] socket_inode_of(links[i].link_target@) matches Some(
            inode,
        ) && inodes.contains(inode))
}

/// The socket check of one process: whether one of its descriptors is a
/// socket with one of the given inodes.
pub fn scan_pid_open_fd_socket(links: ProcAccess<Vec<DescriptorEntry>>, inodes: &BTreeSet<u64>) -> (r:
    ProcAccess<bool>)
    ensures
        r == checked(links, |l: Vec<DescriptorEntry>| some_socket_among(l@, inodes@)),
{
    let entries = match links {
        ProcAccess::Success(v) => v,
        ProcAccess::PermissionDenied => return ProcAccess::PermissionDenied,
        ProcAccess::Gone => return ProcAccess::Gone,
        ProcAccess::Fatal(e) => return ProcAccess::Fatal(e),
    };
    let mut i: usize = 0;
    while i < entries.len()
        invariant
            i <= entries.len(),
            links == ProcAccess::Success(entries),
            forall|j: int|
                0 <= j < i ==> !(#[trigger] socket_inode_of(entries@[j].link_target@) matches Some(
                    inode,
                ) && inodes@.contains(inode)),
        decreases entries.len() - i,
    {
        match parse_socket_inode(entries[i].link_target.as_str()) {
            Some(inode) => {
                if inodes.contains(&inode) {
                    assert(socket_inode_of(entries@[i as int].link_target@) == Some(inode));
                    assert(some_socket_among(entries@, inodes@));
                    return ProcAccess::Success(true);
                }
            },
            None => {},
        }
        i += 1;
    }
    ProcAccess::Success(false)
}

/// The port that a target names: a target that reads as 16 bits in decimal
/// is a port, and any other target is a path.
pub fn target_port(target: &str) -> (r: Option<u16>)
    ensures
        match r {
            Some(port) => unsigned_value(target@, 10, u16::MAX as nat) == Some(port as nat),
            None => unsigned_value(target@, 10, u16::MAX as nat) is None,
        },
{
    let chars = chars_of(target);
    match crate::number::parse_unsigned(&chars, 10, 0xffff) {
        Some(port) => Some(port as u16),
        None => None,
    }
}

} // verus!
