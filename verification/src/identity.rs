//! Object identity: the (device, inode) pair that names a filesystem object,
//! and the split of a raw device id into its major and minor numbers. Also
//! how a point in time reads relative to the present.

use crate::number::{decimal_text, push_decimal};
use std::time::{Duration, SystemTime};
use vstd::prelude::*;
use vstd::string::StringExecFns;

verus! {

/// The identity of a filesystem object. Two objects are the same object
/// exactly when both fields are equal.
#[derive(Clone, Copy, Debug, PartialEq, Eq, Hash, Structural)]
pub struct FileId {
    pub dev: u64,
    pub inode: u64,
}

/// Major number of a raw device id: bits 8..=19 give its low twelve bits,
/// bits 44..=63 its high twenty.
pub open spec fn dev_major(dev: u64) -> u32 {
    (((dev & 0x0000_0000_000f_ff00u64) >> 8) | ((dev & 0xffff_f000_0000_0000u64) >> 32)) as u32
}

/// Minor number of a raw device id: bits 0..=7 give its low eight bits,
/// bits 20..=31 the twelve above them.
pub open spec fn dev_minor(dev: u64) -> u32 {
    ((dev & 0x0000_0000_0000_00ffu64) | ((dev & 0x0000_0000_fff0_0000u64) >> 12)) as u32
}

/// The raw device id that the kernel's encoding gives to a major and a minor
/// number (as `makedev` does for a minor below 2^20).
pub open spec fn dev_pack(major: u32, minor: u32) -> u64 {
    (((major as u64) & 0x0000_0fffu64) << 8) | (((major as u64) & 0xffff_f000u64) << 32) | ((minor
        as u64) & 0x0000_00ffu64) | (((minor as u64) & 0xffff_ff00u64) << 12)
}

/// Splits a raw device id into (major, minor). Total: every 64-bit value has
/// exactly one decomposition.
// Layout fixed by the kernel ABI (see `gnu_dev_major` / `gnu_dev_minor`):
// major = dev[8..=19] | dev[44..=63] >> 32, minor = dev[0..=7] | dev[20..=31] >> 12.
pub fn dev_major_minor(dev: u64) -> (r: (u32, u32))
    ensures
        r.0 == dev_major(dev),
        r.1 == dev_minor(dev),
{
    let major: u64 = ((dev & 0x0000_0000_000f_ff00u64) >> 8) | ((dev & 0xffff_f000_0000_0000u64)
        >> 32);
    let minor: u64 = (dev & 0x0000_0000_0000_00ffu64) | ((dev & 0x0000_0000_fff0_0000u64) >> 12);
    assert(((dev & 0x0000_0000_000f_ff00u64) >> 8) | ((dev & 0xffff_f000_0000_0000u64) >> 32)
        <= 0xffff_ffffu64) by (bit_vector);
    assert((dev & 0x0000_0000_0000_00ffu64) | ((dev & 0x0000_0000_fff0_0000u64) >> 12)
        <= 0xffff_ffffu64) by (bit_vector);
    (major as u32, minor as u32)
}

/// Decomposition inverts the kernel's packing: a device id packed from a
/// major number and a minor number below 2^20 splits back into exactly those.
pub proof fn lemma_decompose_inverts_packing(major: u32, minor: u32)
    requires
        minor <= 0x000f_ffffu32,
    ensures
        dev_major(dev_pack(major, minor)) == major,
        dev_minor(dev_pack(major, minor)) == minor,
{
    assert(dev_major(dev_pack(major, minor)) == major) by (bit_vector);
    assert(dev_minor(dev_pack(major, minor)) == minor) by (bit_vector)
        requires
            minor <= 0x000f_ffffu32,
    ;
}

/// `std::time::SystemTime`, carried through without looking inside.
#[verifier::external_type_specification]
#[verifier::external_body]
pub struct ExSystemTime(SystemTime);

/// The whole seconds of a duration.
pub uninterp spec fn duration_secs(d: Duration) -> u64;

/// `Duration::as_secs`: the number of whole seconds in a duration. The
/// contract only gives that number its name.
#[verifier::external_body]
fn duration_as_secs(d: &Duration) -> (secs: u64)
    ensures
        secs == duration_secs(*d),
{
    d.as_secs()
}

/// `SystemTime::now`: the current time of the system clock. Nothing is
/// claimed of it.
#[verifier::external_body]
fn system_now() -> SystemTime {
    SystemTime::now()
}

/// The time that has passed from one point in time to another: `None`
/// where `earlier` is the later of the two.
pub uninterp spec fn elapsed_between(later: SystemTime, earlier: SystemTime) -> Option<Duration>;

/// `SystemTime::duration_since`: the time from `earlier` to `later`, or
/// `None` where `earlier` is the later of the two. It depends on the two
/// points in time alone; the contract only gives it its name.
#[verifier::external_body]
fn time_between(later: &SystemTime, earlier: &SystemTime) -> (r: Option<Duration>)
    ensures
        r == elapsed_between(*later, *earlier),
{
    later.duration_since(*earlier).ok()
}

/// The whole seconds of an elapsed time; a time that has not passed, because
/// its start lies ahead of its end, counts as zero.
pub open spec fn elapsed_secs(elapsed: Option<Duration>) -> u64 {
    match elapsed {
        Some(d) => duration_secs(d),
        None => 0,
    }
}

/// How an elapsed time reads: whole seconds below a minute, whole minutes
/// below an hour, whole hours below a day, and whole days from there on, each
/// rounded down.
pub open spec fn ago_text(secs: u64) -> Seq<char> {
    if secs < 60 {
        decimal_text(secs as nat) + "s ago"@
    } else if secs < 3600 {
        decimal_text((secs / 60) as nat) + "m ago"@
    } else if secs < 86400 {
        decimal_text((secs / 3600) as nat) + "h ago"@
    } else {
        decimal_text((secs / 86400) as nat) + "d ago"@
    }
}

/// Writes a number of elapsed seconds as a relative time.
pub fn format_seconds_ago(secs: u64) -> (r: String)
    ensures
        r@ == ago_text(secs),
{
    let mut out = String::new();
    if secs < 60 {
        push_decimal(&mut out, secs);
        out.append("s ago");
    } else if secs < 3600 {
        push_decimal(&mut out, secs / 60);
        out.append("m ago");
    } else if secs < 86400 {
        push_decimal(&mut out, secs / 3600);
        out.append("h ago");
    } else {
        push_decimal(&mut out, secs / 86400);
        out.append("d ago");
    }
    assert(out@ =~= ago_text(secs));
    out
}

/// Writes a duration as a relative time, by its whole seconds.
pub fn format_duration_ago(d: Duration) -> (r: String)
    ensures
        r@ == ago_text(duration_secs(d)),
{
    format_seconds_ago(duration_as_secs(&d))
}

/// Writes an elapsed time as a relative time, by its whole seconds. A time
/// that has not passed reads as zero seconds ago.
pub fn format_elapsed_ago(elapsed: Option<Duration>) -> (r: String)
    ensures
        r@ == ago_text(elapsed_secs(elapsed)),
{
    match elapsed {
        Some(d) => format_duration_ago(d),
        None => format_seconds_ago(0),
    }
}

/// Writes how long ago a point in time was, by the system clock: the time
/// that has passed from it to the time that the clock gives. A point in time
/// that lies ahead of the clock reads as zero seconds ago.
pub fn format_systemtime_ago(t: SystemTime) -> (r: String)
    ensures
        exists|now: SystemTime| r@ == ago_text(elapsed_secs(#[trigger] elapsed_between(now, t))),
{
    let now = system_now();
    format_elapsed_ago(time_between(&now, &t))
}

} // verus!
