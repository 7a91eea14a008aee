//! What the process-information filesystem says of one process: its command
//! name, its open descriptors and its memory mappings, read from the text
//! that was found there.

use crate::access::{classified, classify_proc_io_error, ProcAccess};
use crate::number::{
    parse_hex_u32, parse_i32, parse_u64, push_signed_decimal, signed_decimal_text, signed_value,
    unsigned_value,
};
use crate::order::{ranking, sort_stable, stable_sorted, Ranked};
use crate::text::{
    chars_of, copy_range, field_ranges, fields, find_char, first_index_from,
    lemma_rejected_item_skipped, line_views,
    parsed_items, range_views,
};
use vstd::prelude::*;
use vstd::string::{StrSliceExecFns, StringExecFns};

verus! {

/// The path of the directory of a process's descriptors.
pub open spec fn fd_dir_text(pid: i32) -> Seq<char> {
    "/proc/"@ + signed_decimal_text(pid as int) + "/fd"@
}

/// The path of the directory that holds the descriptors of a process.
pub fn fd_dir(pid: i32) -> (r: String)
    ensures
        r@ == fd_dir_text(pid),
{
    let mut out = String::from_str("/proc/");
    push_signed_decimal(&mut out, pid);
    out.append("/fd");
    out
}

/// The device numbers that a text `major:minor` denotes, both in hexadecimal
/// of at most 32 bits. What follows a second colon is not looked at. `None`
/// without a colon or where one of the two numbers cannot be read.
pub open spec fn dev_hex_value(s: Seq<char>) -> Option<(u32, u32)> {
    let first = first_index_from(s, ':', 0);
    if first >= s.len() {
        None
    } else {
        let second = first_index_from(s, ':', first + 1);
        match (
            unsigned_value(s.subrange(0, first), 16, u32::MAX as nat),
            unsigned_value(s.subrange(first + 1, second), 16, u32::MAX as nat),
        ) {
            (Some(major), Some(minor)) => Some((major as u32, minor as u32)),
            _ => None,
        }
    }
}

/// Reads device numbers written as `major:minor` in hexadecimal.
pub fn parse_dev_chars(dev: &Vec<char>) -> (r: Option<(u32, u32)>)
    ensures
        r == dev_hex_value(dev@),
{
    let first = find_char(dev, ':', 0);
    if first >= dev.len() {
        return None;
    }
    let second = find_char(dev, ':', first + 1);
    let major_text = copy_range(dev, 0, first);
    let minor_text = copy_range(dev, first + 1, second);
    match (parse_hex_u32(&major_text), parse_hex_u32(&minor_text)) {
        (Some(major), Some(minor)) => Some((major, minor)),
        _ => None,
    }
}

/// Reads device numbers written as `major:minor` in hexadecimal.
pub fn parse_dev_hex(dev: &str) -> (r: Option<(u32, u32)>)
    ensures
        r == dev_hex_value(dev@),
{
    let chars = chars_of(dev);
    parse_dev_chars(&chars)
}

/// One region of a process's memory map. An inode of zero marks a region
/// that no file backs.
#[derive(Clone, Debug, PartialEq, Eq)]
pub struct ProcMapEntry {
    pub dev_major: u32,
    pub dev_minor: u32,
    pub inode: u64,
    pub pathname: Option<String>,
}

/// A memory-map region as a value: the path as a sequence of characters.
pub struct MapEntryView {
    pub dev_major: u32,
    pub dev_minor: u32,
    pub inode: u64,
    pub pathname: Option<Seq<char>>,
}

impl View for ProcMapEntry {
    type V = MapEntryView;

    open spec fn view(&self) -> MapEntryView {
        MapEntryView {
            dev_major: self.dev_major,
            dev_minor: self.dev_minor,
            inode: self.inode,
            pathname: match self.pathname {
                Some(p) => Some(p@),
                None => None,
            },
        }
    }
}

/// The regions that a vector holds, as values.
pub open spec fn map_entry_views(entries: Seq<ProcMapEntry>) -> Seq<MapEntryView> {
    entries.map_values(|e: ProcMapEntry| e@)
}

/// The region that a line of a memory map denotes: the line needs five
/// fields, of which the fourth is the device as `major:minor` in hexadecimal
/// and the fifth the inode in decimal; a sixth field, if there is one, is the
/// path. `None` for a line with fewer fields or with one of the two
/// unreadable.
pub open spec fn map_line_entry(line: Seq<char>) -> Option<MapEntryView> {
    let f = fields(line);
    if f.len() < 5 {
        None
    } else {
        match (dev_hex_value(f[3]), unsigned_value(f[4], 10, u64::MAX as nat)) {
            (Some(dev), Some(inode)) => Some(
                MapEntryView {
                    dev_major: dev.0,
                    dev_minor: dev.1,
                    inode: inode as u64,
                    pathname: if f.len() > 5 {
                        Some(f[5])
                    } else {
                        None
                    },
                },
            ),
            _ => None,
        }
    }
}

/// The regions of a memory map, in the order of its lines; a line that does
/// not give a region is skipped.
pub open spec fn map_entries(lines: Seq<Seq<char>>) -> Seq<MapEntryView> {
    parsed_items(lines, |line: Seq<char>| map_line_entry(line))
}

/// Reads one line of a memory map.
pub fn parse_map_line(line: &str) -> (r: Option<ProcMapEntry>)
    ensures
        match r {
            Some(e) => map_line_entry(line@) == Some(e@),
            None => map_line_entry(line@) is None,
        },
{
    let chars = chars_of(line);
    let ranges = field_ranges(&chars);
    let ghost f = fields(line@);
    assert(f.len() == ranges@.len());
    if ranges.len() < 5 {
        return None;
    }
    let (dev_from, dev_to) = ranges[3];
    let (inode_from, inode_to) = ranges[4];
    assert(f[3] == range_views(chars@, ranges@)[3]);
    assert(f[4] == range_views(chars@, ranges@)[4]);
    assert(ranges@[3].0 <= ranges@[3].1 <= chars@.len());
    assert(ranges@[4].0 <= ranges@[4].1 <= chars@.len());
    let dev_text = copy_range(&chars, dev_from, dev_to);
    let inode_text = copy_range(&chars, inode_from, inode_to);
    let dev = parse_dev_chars(&dev_text);
    let inode = parse_u64(&inode_text);
    match (dev, inode) {
        (Some((dev_major, dev_minor)), Some(inode)) => {
            let pathname = if ranges.len() > 5 {
                let (from, to) = ranges[5];
                assert(f[5] == range_views(chars@, ranges@)[5]);
                assert(ranges@[5].0 <= ranges@[5].1 <= chars@.len());
                Some(String::from_str(line.substring_char(from, to)))
            } else {
                None
            };
            Some(ProcMapEntry { dev_major, dev_minor, inode, pathname })
        },
        _ => None,
    }
}

/// Reads the lines of a memory map.
pub fn read_proc_maps(lines: &Vec<String>) -> (out: Vec<ProcMapEntry>)
    ensures
        map_entry_views(out@) == map_entries(line_views(lines@)),
{
    let mut out: Vec<ProcMapEntry> = Vec::new();
    let ghost all = line_views(lines@);
    let ghost parse = |line: Seq<char>| map_line_entry(line);
    let mut i: usize = 0;
    assert(all.take(0) =~= Seq::<Seq<char>>::empty());
    assert(map_entry_views(out@) =~= Seq::<MapEntryView>::empty());
    while i < lines.len()
        invariant
            i <= lines.len(),
            all == line_views(lines@),
            parse == |line: Seq<char>| map_line_entry(line),
            map_entry_views(out@) == parsed_items(all.take(i as int), parse),
        decreases lines.len() - i,
    {
        assert(all.take(i + 1).drop_last() =~= all.take(i as int));
        assert(all.take(i + 1).last() == lines@[i as int]@);
        let ghost before = map_entry_views(out@);
        match parse_map_line(lines[i].as_str()) {
            Some(e) => {
                out.push(e);
                assert(map_entry_views(out@) =~= before.push(e@));
            },
            None => {},
        }
        i += 1;
    }
    assert(all.take(i as int) =~= all);
    out
}

/// What a read of a memory map comes to: the regions of its lines, or the
/// class of the failure.
pub fn read_proc_maps_access(read: Result<Vec<String>, std::io::Error>) -> (r: ProcAccess<
    Vec<ProcMapEntry>,
>)
    ensures
        match read {
            Ok(lines) => r matches ProcAccess::Success(out) && map_entry_views(out@)
                == map_entries(line_views(lines@)),
            Err(e) => r == classified::<Vec<ProcMapEntry>>(e),
        },
{
    match read {
        Ok(lines) => ProcAccess::Success(read_proc_maps(&lines)),
        Err(e) => classify_proc_io_error(e),
    }
}

/// A text without the line ends that trail it: every `\n` and `\r` at its
/// end is dropped.
pub open spec fn without_line_end(s: Seq<char>) -> Seq<char>
    decreases s.len(),
{
    if s.len() > 0 && (s.last() == '\n' || s.last() == '\r') {
        without_line_end(s.drop_last())
    } else {
        s
    }
}

/// The command name that the contents of a process's name file give.
pub fn read_comm(contents: &str) -> (r: String)
    ensures
        r@ == without_line_end(contents@),
{
    let chars = chars_of(contents);
    let mut n: usize = chars.len();
    assert(chars@.take(n as int) =~= chars@);
    while n > 0 && (chars[n - 1] == '\n' || chars[n - 1] == '\r')
        invariant
            n <= chars.len(),
            without_line_end(chars@) == without_line_end(chars@.take(n as int)),
        decreases n,
    {
        assert(chars@.take(n as int).drop_last() =~= chars@.take(n - 1));
        n -= 1;
    }
    assert(chars@.take(n as int) =~= contents@.subrange(0, n as int));
    String::from_str(contents.substring_char(0, n))
}

/// What a read of a process's name file comes to: the command name, or the
/// class of the failure.
pub fn read_comm_access(read: Result<String, std::io::Error>) -> (r: ProcAccess<String>)
    ensures
        match read {
            Ok(contents) => r matches ProcAccess::Success(name) && name@ == without_line_end(
                contents@,
            ),
            Err(e) => r == classified::<String>(e),
        },
{
    match read {
        Ok(contents) => ProcAccess::Success(read_comm(contents.as_str())),
        Err(e) => classify_proc_io_error(e),
    }
}

/// The process id that a directory name denotes: a positive integer of 32
/// bits in decimal. Any other name denotes none.
pub open spec fn pid_of_name(name: Seq<char>) -> Option<i32> {
    match signed_value(name, 10, i32::MIN as int, i32::MAX as int) {
        Some(v) => if v > 0 {
            Some(v as i32)
        } else {
            None
        },
        None => None,
    }
}

/// The process ids that some names denote, in the order of the names.
pub open spec fn named_pids(names: Seq<Seq<char>>) -> Seq<i32> {
    parsed_items(names, |name: Seq<char>| pid_of_name(name))
}

/// The process ids that some names denote, ascending.
pub open spec fn listed_pids(names: Seq<Seq<char>>) -> Seq<i32> {
    stable_sorted(named_pids(names), ranking::<i32>())
}

/// The listed process ids are positive and ascend, and they are the ids that
/// the names denote, each as often as it is named.
pub proof fn lemma_listed_pids(names: Seq<Seq<char>>)
    ensures
        forall|i: int, j: int|
            0 <= i < j < listed_pids(names).len() ==> listed_pids(names)[i] <= listed_pids(
                names,
            )[j],
        listed_pids(names).to_multiset() == named_pids(names).to_multiset(),
        forall|i: int| 0 <= i < listed_pids(names).len() ==> listed_pids(names)[i] > 0,
{
    let le = ranking::<i32>();
    let found = named_pids(names);
    let out = listed_pids(names);
    assert(crate::order::is_total(le));
    assert(crate::order::is_transitive(le));
    crate::order::lemma_stable_sorted_in_order(found, le);
    crate::order::lemma_stable_sorted_permutes(found, le);
    assert forall|i: int, j: int| 0 <= i < j < out.len() implies out[i] <= out[j] by {
        assert(le(out[i], out[j]));
    }
    lemma_named_pids_positive(names);
    assert forall|i: int| 0 <= i < out.len() implies out[i] > 0 by {
        broadcast use vstd::seq_lib::group_to_multiset_ensures;

        assert(out.contains(out[i]));
        assert(out.to_multiset().count(out[i]) > 0);
        assert(found.to_multiset().count(out[i]) > 0);
        assert(found.contains(out[i]));
    }
}

/// The process ids that names denote are positive.
pub proof fn lemma_named_pids_positive(names: Seq<Seq<char>>)
    ensures
        forall|v: i32| named_pids(names).contains(v) ==> v > 0,
    decreases names.len(),
{
    if names.len() > 0 {
        lemma_named_pids_positive(names.drop_last());
        let before = named_pids(names.drop_last());
        assert forall|v: i32| named_pids(names).contains(v) implies v > 0 by {
            let k = choose|k: int| 0 <= k < named_pids(names).len() && named_pids(names)[k] == v;
            if k < before.len() {
                assert(before[k] == v);
                assert(before.contains(v));
            }
        }
    }
}

/// The ids of the live processes, ascending, from the names found in the
/// root of the process-information filesystem. Names that are no process id
/// are skipped.
pub fn list_pids(names: &Vec<String>) -> (out: Vec<i32>)
    ensures
        out@ == listed_pids(line_views(names@)),
{
    let mut found: Vec<i32> = Vec::new();
    let ghost all = line_views(names@);
    let ghost parse = |name: Seq<char>| pid_of_name(name);
    let mut i: usize = 0;
    assert(all.take(0) =~= Seq::<Seq<char>>::empty());
    while i < names.len()
        invariant
            i <= names.len(),
            all == line_views(names@),
            parse == |name: Seq<char>| pid_of_name(name),
            found@ == parsed_items(all.take(i as int), parse),
        decreases names.len() - i,
    {
        assert(all.take(i + 1).drop_last() =~= all.take(i as int));
        assert(all.take(i + 1).last() == names@[i as int]@);
        let chars = chars_of(names[i].as_str());
        match parse_i32(&chars) {
            Some(pid) => {
                if pid > 0 {
                    found.push(pid);
                }
            },
            None => {},
        }
        i += 1;
    }
    assert(all.take(i as int) =~= all);
    sort_stable(found)
}

/// One open descriptor of a process: its number, the path of its entry in
/// the descriptor directory, and what the entry links to. The link is a
/// filesystem path or has the form `socket:[inode]`; it is empty where it
/// could not be read.
#[derive(Clone, Debug, PartialEq, Eq)]
pub struct DescriptorEntry {
    pub fd: i32,
    pub raw_path: String,
    pub link_target: String,
}

/// A descriptor as a value: its texts as sequences of characters.
pub struct DescriptorView {
    pub fd: i32,
    pub raw_path: Seq<char>,
    pub link_target: Seq<char>,
}

impl View for DescriptorEntry {
    type V = DescriptorView;

    open spec fn view(&self) -> DescriptorView {
        DescriptorView { fd: self.fd, raw_path: self.raw_path@, link_target: self.link_target@ }
    }
}

impl Ranked for DescriptorEntry {
    open spec fn precedes(&self, other: &Self) -> bool {
        self.fd <= other.fd
    }

    fn comes_no_later(&self, other: &Self) -> (b: bool) {
        self.fd <= other.fd
    }
}

/// The descriptors that a vector holds, as values.
pub open spec fn descriptor_views(entries: Seq<DescriptorEntry>) -> Seq<DescriptorView> {
    entries.map_values(|e: DescriptorEntry| e@)
}

/// The entries of a descriptor directory as values: the name of each, and
/// what it links to where that could be read.
pub open spec fn listing_views(listing: Seq<(String, Option<String>)>) -> Seq<
    (Seq<char>, Option<Seq<char>>),
> {
    listing.map_values(
        |item: (String, Option<String>)|
            (
                item.0@,
                match item.1 {
                    Some(target) => Some(target@),
                    None => None,
                },
            ),
    )
}

/// The descriptor that a directory entry stands for: its name is the
/// descriptor number in decimal. An entry with any other name stands for
/// none. A link that could not be read is kept as the empty text.
pub open spec fn descriptor_of(pid: i32, item: (Seq<char>, Option<Seq<char>>)) -> Option<
    DescriptorView,
> {
    match signed_value(item.0, 10, i32::MIN as int, i32::MAX as int) {
        Some(fd) => Some(
            DescriptorView {
                fd: fd as i32,
                raw_path: fd_dir_text(pid) + seq!['/'] + item.0,
                link_target: match item.1 {
                    Some(target) => target,
                    None => Seq::empty(),
                },
            },
        ),
        None => None,
    }
}

/// Descriptors are listed by number.
pub open spec fn by_fd() -> spec_fn(DescriptorView, DescriptorView) -> bool {
    |a: DescriptorView, b: DescriptorView| a.fd <= b.fd
}

/// The descriptors of a process, ascending by number, from the entries of
/// its descriptor directory.
pub open spec fn descriptors_of(pid: i32, listing: Seq<(Seq<char>, Option<Seq<char>>)>) -> Seq<
    DescriptorView,
> {
    stable_sorted(
        parsed_items(listing, |item: (Seq<char>, Option<Seq<char>>)| descriptor_of(pid, item)),
        by_fd(),
    )
}

/// The descriptors of a process ascend by number, and they are the
/// descriptors that the entries stand for, each as often as it is listed.
pub proof fn lemma_descriptors_ascend(pid: i32, listing: Seq<(Seq<char>, Option<Seq<char>>)>)
    ensures
        forall|i: int, j: int|
            0 <= i < j < descriptors_of(pid, listing).len() ==> descriptors_of(pid, listing)[i].fd
                <= descriptors_of(pid, listing)[j].fd,
        descriptors_of(pid, listing).to_multiset() == parsed_items(
            listing,
            |item: (Seq<char>, Option<Seq<char>>)| descriptor_of(pid, item),
        ).to_multiset(),
{
    let found = parsed_items(listing, |item: (Seq<char>, Option<Seq<char>>)| descriptor_of(pid, item));
    let out = descriptors_of(pid, listing);
    assert(crate::order::is_total(by_fd()));
    assert(crate::order::is_transitive(by_fd()));
    crate::order::lemma_stable_sorted_in_order(found, by_fd());
    crate::order::lemma_stable_sorted_permutes(found, by_fd());
    assert forall|i: int, j: int| 0 <= i < j < out.len() implies out[i].fd <= out[j].fd by {
        assert(by_fd()(out[i], out[j]));
    }
}

/// Reads one entry of a descriptor directory.
fn read_fd_entry(pid: i32, name: &String, target: &Option<String>) -> (r: Option<DescriptorEntry>)
    ensures
        match r {
            Some(e) => descriptor_of(
                pid,
                (
                    name@,
                    match target {
                        Some(t) => Some(t@),
                        None => None,
                    },
                ),
            ) == Some(e@),
            None => signed_value(name@, 10, i32::MIN as int, i32::MAX as int) is None,
        },
{
    let chars = chars_of(name.as_str());
    match parse_i32(&chars) {
        Some(fd) => {
            let mut raw_path = fd_dir(pid);
            proof {
                reveal_strlit("/");
                assert("/"@ =~= seq!['/']);
            }
            raw_path.append("/");
            raw_path.append(name.as_str());
            let link_target = match target {
                Some(t) => t.clone(),
                None => String::new(),
            };
            Some(DescriptorEntry { fd, raw_path, link_target })
        },
        None => None,
    }
}

/// The descriptors of a process, ascending by number, from the entries of
/// its descriptor directory: for each entry its name and, where it could be
/// read, its link. Entries whose name is no descriptor number are skipped.
pub fn read_fd_links(pid: i32, listing: &Vec<(String, Option<String>)>) -> (out: Vec<
    DescriptorEntry,
>)
    ensures
        descriptor_views(out@) == descriptors_of(pid, listing_views(listing@)),
{
    let mut found: Vec<DescriptorEntry> = Vec::new();
    let ghost all = listing_views(listing@);
    let ghost parse = |item: (Seq<char>, Option<Seq<char>>)| descriptor_of(pid, item);
    let mut i: usize = 0;
    assert(all.take(0) =~= Seq::<(Seq<char>, Option<Seq<char>>)>::empty());
    assert(descriptor_views(found@) =~= Seq::<DescriptorView>::empty());
    while i < listing.len()
        invariant
            i <= listing.len(),
            all == listing_views(listing@),
            parse == |item: (Seq<char>, Option<Seq<char>>)| descriptor_of(pid, item),
            descriptor_views(found@) == parsed_items(all.take(i as int), parse),
        decreases listing.len() - i,
    {
        assert(all.take(i + 1).drop_last() =~= all.take(i as int));
        assert(all.take(i + 1).last() == all[i as int]);
        let ghost before = descriptor_views(found@);
        match read_fd_entry(pid, &listing[i].0, &listing[i].1) {
            Some(e) => {
                found.push(e);
                assert(descriptor_views(found@) =~= before.push(e@));
            },
            None => {},
        }
        i += 1;
    }
    assert(all.take(i as int) =~= all);
    proof {
        assert forall|a: DescriptorEntry, b: DescriptorEntry| #[trigger]
            ranking::<DescriptorEntry>()(a, b) == by_fd()(a@, b@) by {}
        crate::order::lemma_stable_sorted_views(
            found@,
            |e: DescriptorEntry| e@,
            ranking::<DescriptorEntry>(),
            by_fd(),
        );
    }
    sort_stable(found)
}

/// What a read of a descriptor directory comes to: the descriptors, or the
/// class of the failure.
pub fn read_fd_links_access(
    pid: i32,
    read: Result<Vec<(String, Option<String>)>, std::io::Error>,
) -> (r: ProcAccess<Vec<DescriptorEntry>>)
    ensures
        match read {
            Ok(listing) => r matches ProcAccess::Success(out) && descriptor_views(out@)
                == descriptors_of(pid, listing_views(listing@)),
            Err(e) => r == classified::<Vec<DescriptorEntry>>(e),
        },
{
    match read {
        Ok(listing) => ProcAccess::Success(read_fd_links(pid, &listing)),
        Err(e) => classify_proc_io_error(e),
    }
}

/// A line of a memory map that gives no region is skipped: the map reads as
/// it does without the line, and the lines after it are read all the same.
pub proof fn lemma_malformed_map_line_skipped(
    before: Seq<Seq<char>>,
    line: Seq<char>,
    after: Seq<Seq<char>>,
)
    requires
        map_line_entry(line) is None,
    ensures
        map_entries(before.push(line) + after) == map_entries(before + after),
{
    lemma_rejected_item_skipped(before, line, after, |l: Seq<char>| map_line_entry(l));
}

} // verus!
