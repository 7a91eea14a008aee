//! Finds which processes hold a file or a network port open, from the text
//! that the process-information filesystem exposes and from what the reads of
//! it came to; and, beside that, who last modified a file, where a command is
//! found on the search path, and whether the host offers what all this needs.
//!
//! The library reads nothing itself. A pass is either made in one go from
//! what was seen of every process (`whoholds_path`, `whoholds_port`,
//! `whoholds_ports` and their kin), or step by step with a [`Sweep`], which
//! asks for one read at a time and for no read that the pass does not need.

pub mod access;
pub mod attribution;
pub mod audit;
pub mod buildinfo;
pub mod doctor;
pub mod holders;
pub mod identity;
pub mod listing;
pub mod net;
pub mod number;
pub mod order;
pub mod passwd;
pub mod pathvar;
pub mod port;
pub mod procfs;
pub mod scan;
pub mod sweep;
pub mod text;

pub use access::{
    classify_proc_io_error, classify_target_error, ErrorClass, Failure, ProcAccess,
};
pub use attribution::{
    escape_journal_regex, line_is_blank, metadata_touch, try_audit_log, try_journalctl,
    AuditEvent, TouchInfo, TouchTime,
};
pub use audit::{
    audit_event_is_modification, contains_text, extract_audit_msg_id, extract_audit_seconds,
    extract_kv_hex_u64, extract_kv_string, extract_kv_u32, extract_kv_u64, find_text,
    open_flags_modify,
};
pub use buildinfo::{build_target, git_sha, short_sha};
pub use doctor::{
    check_audit_log, check_build_metadata, collect_checks, check_journalctl, check_list_pids, check_os,
    check_proc_access_smoke, check_proc_net, check_procfs, tally, AuditLogState, CheckResult,
    CheckStatus, HostFindings, Tally,
};
pub use holders::{
    holder_finding_for_path, reasons_finding_for_path, whoholds_path, whyopen_path,
    CorrelationPass, CorrelationResult, Finding, HolderRecord, PathProbe,
};
pub use identity::{
    dev_major_minor, format_duration_ago, format_elapsed_ago, format_seconds_ago,
    format_systemtime_ago, FileId,
};
pub use listing::{inode_set, whoholds_ports, ListingSweep, PortListing, PortRow};
pub use net::{
    parse_proc_net_file, parse_socket_line, proto_label, proto_label_and_sort,
    read_proc_net_sockets, select_sockets, socket_is_selected, socket_state_label, ProcNetProto,
    ProcNetSocketEntry,
};
pub use passwd::{parse_passwd, parse_passwd_line, uid_to_user};
pub use pathvar::{is_bare_command, is_executable, path_entries, select_entry};
pub use port::{
    holder_finding_for_port, reasons_finding_for_port, socket_label, target_inodes, whoholds_port,
    whyopen_port, DescriptorProbe,
};
pub use procfs::{
    fd_dir, list_pids, parse_dev_hex, parse_map_line, read_comm, read_comm_access, read_fd_links,
    read_fd_links_access, read_proc_maps, read_proc_maps_access, DescriptorEntry, ProcMapEntry,
};
pub use sweep::{Sweep, SweepAction, SweepEvent};
pub use scan::{
    parse_socket_inode, read_comm_best_effort, scan_pid_mmap_file, scan_pid_open_fd_file,
    scan_pid_open_fd_socket, target_port, Reason,
};
