use termscp::fs::{FsDirectory, FsEntry, FsFile, FsPath};
use termscp::memfs::MemProvider;
use termscp::provider::Provider;
use termscp::session::{
    FileTransferActivity, LogEvent, TransferParams, TransferPayload,
};
use termscp::ui::ScriptedUi;

fn path(segs: &[&str]) -> FsPath {
    FsPath::from_segs(segs.iter().map(|s| s.to_string()).collect())
}

fn file_entry(segs: &[&str], size: u64) -> FsFile {
    FsFile {
        path: path(segs),
        name: segs.last().unwrap().to_string(),
        size,
        unix_pex: None,
    }
}

fn dir_entry(segs: &[&str]) -> FsDirectory {
    FsDirectory { path: path(segs), name: segs.last().unwrap().to_string() }
}

fn params() -> TransferParams {
    TransferParams {
        address: String::from("127.0.0.1"),
        port: 22,
        username: String::from("user"),
        password: None,
        entry_directory: None,
    }
}

fn session(
    host: MemProvider,
    client: MemProvider,
    ui: ScriptedUi,
) -> FileTransferActivity<MemProvider, MemProvider, ScriptedUi> {
    FileTransferActivity::new(host, client, ui, params(), None)
}

#[test]
fn test_send_single_file_full_progress() {
    // A file of size S transferred without cancellation or error:
    // full.transferred rises to exactly S and progress reaches 100%.
    let mut host = MemProvider::new();
    assert!(host.put_file(&path(&["data.bin"]), 100));
    let client = MemProvider::new();
    let mut act = session(host, client, ScriptedUi::new(1000));
    act.set_chunk_size(16);
    let f = file_entry(&["data.bin"], 100);
    let r = act.filetransfer_send(TransferPayload::File(f), &FsPath::root(), None);
    assert!(r.is_ok());
    assert_eq!(act.transfer.full.total, 100);
    assert_eq!(act.transfer.full.transferred, 100);
    assert_eq!(act.transfer.full.calc_progress(), 100);
    assert_eq!(act.transfer.partial.transferred, 100);
    assert!(act.client.contains_file_of_size(&path(&["data.bin"]), 100));
}

#[test]
fn test_send_empty_file_counts_as_complete() {
    // An empty transfer is a completed no-op: progress is 100% at once and
    // the empty file exists at the destination.
    let mut host = MemProvider::new();
    assert!(host.put_file(&path(&["empty"]), 0));
    let client = MemProvider::new();
    let mut act = session(host, client, ScriptedUi::new(1000));
    let f = file_entry(&["empty"], 0);
    let r = act.filetransfer_send(TransferPayload::File(f), &FsPath::root(), None);
    assert!(r.is_ok());
    assert_eq!(act.transfer.full.total, 0);
    assert_eq!(act.transfer.full.calc_progress(), 100);
    assert!(act.client.contains_file_of_size(&path(&["empty"]), 0));
}

#[test]
fn test_send_batch_total_is_sum_of_sizes() {
    // A batch of plain files: the aggregate total is exactly the sum.
    let mut host = MemProvider::new();
    assert!(host.put_file(&path(&["a.bin"]), 11));
    assert!(host.put_file(&path(&["b.bin"]), 22));
    assert!(host.put_file(&path(&["c.bin"]), 33));
    let client = MemProvider::new();
    let mut act = session(host, client, ScriptedUi::new(1000));
    act.set_chunk_size(8);
    let entries = vec![
        FsEntry::File(file_entry(&["a.bin"], 11)),
        FsEntry::File(file_entry(&["b.bin"], 22)),
        FsEntry::File(file_entry(&["c.bin"], 33)),
    ];
    let r = act.filetransfer_send(TransferPayload::Many(entries), &FsPath::root(), None);
    assert!(r.is_ok());
    assert_eq!(act.transfer.full.total, 66);
    assert_eq!(act.transfer.full.transferred, 66);
    assert!(act.client.contains_file_of_size(&path(&["a.bin"]), 11));
    assert!(act.client.contains_file_of_size(&path(&["b.bin"]), 22));
    assert!(act.client.contains_file_of_size(&path(&["c.bin"]), 33));
}

#[test]
fn test_send_cancel_mid_batch_removes_partial_keeps_earlier() {
    // Cancelling mid-copy of the second file: its partial remote copy no
    // longer exists afterwards, while the first, fully sent file remains.
    let mut host = MemProvider::new();
    assert!(host.put_file(&path(&["first.bin"]), 10));
    assert!(host.put_file(&path(&["second.bin"]), 100));
    let client = MemProvider::new();
    let mut ui = ScriptedUi::new(1000);
    ui.abort_after(2);
    let mut act = session(host, client, ui);
    act.set_chunk_size(10);
    let entries = vec![
        FsEntry::File(file_entry(&["first.bin"], 10)),
        FsEntry::File(file_entry(&["second.bin"], 100)),
    ];
    let r = act.filetransfer_send(TransferPayload::Many(entries), &FsPath::root(), None);
    assert!(r.is_ok());
    assert!(act.transfer.aborted());
    assert!(act.client.contains_file_of_size(&path(&["first.bin"]), 10));
    assert!(!act.client.exists_node(&path(&["second.bin"])));
    assert!(act
        .log_records
        .iter()
        .any(|rec| matches!(rec.event, LogEvent::TransferAborted { .. })));
}

#[test]
fn test_send_into_existing_remote_dir_continues() {
    // Creating a remote directory that already exists is not an error: the
    // files under it are still processed.
    let mut host = MemProvider::new();
    assert!(host.mkdir(&path(&["dir"]), false).is_ok());
    assert!(host.put_file(&path(&["dir", "a.txt"]), 10));
    assert!(host.put_file(&path(&["dir", "b.txt"]), 20));
    let mut client = MemProvider::new();
    assert!(client.mkdir(&path(&["dir"]), false).is_ok());
    let mut act = session(host, client, ScriptedUi::new(1000));
    act.set_chunk_size(8);
    let entry = FsEntry::Directory(dir_entry(&["dir"]));
    let r = act.filetransfer_send(TransferPayload::Any(entry), &FsPath::root(), None);
    assert!(r.is_ok());
    assert!(act.client.contains_file_of_size(&path(&["dir", "a.txt"]), 10));
    assert!(act.client.contains_file_of_size(&path(&["dir", "b.txt"]), 20));
    assert!(act
        .log_records
        .iter()
        .any(|rec| matches!(rec.event, LogEvent::DirAlreadyExists { .. })));
}

#[test]
fn test_send_rename_applies_to_top_level_only() {
    // A rename hint renames the top-level directory being sent; its children
    // keep their own names.
    let mut host = MemProvider::new();
    assert!(host.mkdir(&path(&["dir"]), false).is_ok());
    assert!(host.put_file(&path(&["dir", "a.txt"]), 10));
    assert!(host.mkdir(&path(&["dir", "sub"]), false).is_ok());
    assert!(host.put_file(&path(&["dir", "sub", "c.txt"]), 5));
    let client = MemProvider::new();
    let mut act = session(host, client, ScriptedUi::new(1000));
    act.set_chunk_size(8);
    let entry = FsEntry::Directory(dir_entry(&["dir"]));
    let r = act.filetransfer_send(
        TransferPayload::Any(entry),
        &FsPath::root(),
        Some(String::from("renamed")),
    );
    assert!(r.is_ok());
    assert!(act.client.contains_dir(&path(&["renamed"])));
    assert!(act.client.contains_file_of_size(&path(&["renamed", "a.txt"]), 10));
    assert!(act.client.contains_dir(&path(&["renamed", "sub"])));
    assert!(act.client.contains_file_of_size(&path(&["renamed", "sub", "c.txt"]), 5));
    assert!(!act.client.exists_node(&path(&["dir"])));
}

#[test]
fn test_send_directory_tree_totals_and_structure() {
    // A directory of two files (10 B, 20 B) and a subdirectory of one file
    // (5 B): the total is 35 B, fully transferred, with the structure kept.
    let mut host = MemProvider::new();
    assert!(host.mkdir(&path(&["dir"]), false).is_ok());
    assert!(host.put_file(&path(&["dir", "a.txt"]), 10));
    assert!(host.put_file(&path(&["dir", "b.txt"]), 20));
    assert!(host.mkdir(&path(&["dir", "sub"]), false).is_ok());
    assert!(host.put_file(&path(&["dir", "sub", "c.txt"]), 5));
    let client = MemProvider::new();
    let mut act = session(host, client, ScriptedUi::new(1000));
    act.set_chunk_size(4);
    let entry = FsEntry::Directory(dir_entry(&["dir"]));
    let r = act.filetransfer_send(TransferPayload::Any(entry), &FsPath::root(), None);
    assert!(r.is_ok());
    assert_eq!(act.transfer.full.total, 35);
    assert_eq!(act.transfer.full.transferred, 35);
    assert!(act.client.contains_file_of_size(&path(&["dir", "a.txt"]), 10));
    assert!(act.client.contains_file_of_size(&path(&["dir", "b.txt"]), 20));
    assert!(act.client.contains_file_of_size(&path(&["dir", "sub", "c.txt"]), 5));
}

#[test]
fn test_recv_cancel_mid_copy_removes_partial_local_file() {
    // Receiving a single 100 B file with cancellation requested after 40 B:
    // the operation reports the abort and the partial local file is removed.
    let host = MemProvider::new();
    let mut client = MemProvider::new();
    assert!(client.put_file(&path(&["f.bin"]), 100));
    let mut ui = ScriptedUi::new(1000);
    ui.abort_after(2);
    let mut act = session(host, client, ui);
    act.set_chunk_size(20);
    let f = file_entry(&["f.bin"], 100);
    let r = act.filetransfer_recv(TransferPayload::File(f), &path(&["f.bin"]), None);
    assert!(r.is_err());
    assert_eq!(r.unwrap_err(), String::from("File transfer aborted"));
    assert!(act.transfer.aborted());
    assert!(!act.host.exists_node(&path(&["f.bin"])));
}

#[test]
fn test_send_scan_failure_excludes_subtree_but_siblings_complete() {
    // A failing scan of one subdirectory: the batch total excludes that
    // subtree's contents, and the sibling entries still transfer.
    let mut host = MemProvider::new();
    assert!(host.mkdir(&path(&["dir"]), false).is_ok());
    assert!(host.put_file(&path(&["dir", "a.txt"]), 10));
    assert!(host.put_file(&path(&["dir", "b.txt"]), 20));
    assert!(host.mkdir(&path(&["dir", "sub"]), false).is_ok());
    assert!(host.put_file(&path(&["dir", "sub", "c.txt"]), 5));
    host.deny_scan_on(&path(&["dir", "sub"]));
    let client = MemProvider::new();
    let mut act = session(host, client, ScriptedUi::new(1000));
    act.set_chunk_size(8);
    let entry = FsEntry::Directory(dir_entry(&["dir"]));
    let r = act.filetransfer_send(TransferPayload::Any(entry), &FsPath::root(), None);
    assert!(r.is_ok());
    assert_eq!(act.transfer.full.total, 30);
    assert_eq!(act.transfer.full.transferred, 30);
    assert!(act.client.contains_file_of_size(&path(&["dir", "a.txt"]), 10));
    assert!(act.client.contains_file_of_size(&path(&["dir", "b.txt"]), 20));
    assert!(!act.client.exists_node(&path(&["dir", "sub", "c.txt"])));
    assert!(act
        .log_records
        .iter()
        .any(|rec| matches!(rec.event, LogEvent::ScanFailed { .. })));
}

#[test]
fn test_recv_directory_tree() {
    // The receive path mirrors the send path, walking the remote tree.
    let host = MemProvider::new();
    let mut client = MemProvider::new();
    assert!(client.mkdir(&path(&["remote"]), false).is_ok());
    assert!(client.put_file(&path(&["remote", "x.dat"]), 7));
    assert!(client.put_file(&path(&["remote", "y.dat"]), 9));
    let mut act = session(host, client, ScriptedUi::new(1000));
    act.set_chunk_size(4);
    let entry = FsEntry::Directory(dir_entry(&["remote"]));
    let r = act.filetransfer_recv(TransferPayload::Any(entry), &FsPath::root(), None);
    assert!(r.is_ok());
    assert_eq!(act.transfer.full.total, 16);
    assert_eq!(act.transfer.full.transferred, 16);
    assert!(act.host.contains_file_of_size(&path(&["remote", "x.dat"]), 7));
    assert!(act.host.contains_file_of_size(&path(&["remote", "y.dat"]), 9));
}

#[test]
fn test_recv_applies_source_permissions() {
    // A received file gets the source permission triple re-applied.
    let host = MemProvider::new();
    let mut client = MemProvider::new();
    assert!(client.put_file(&path(&["f.bin"]), 8));
    let mut act = session(host, client, ScriptedUi::new(1000));
    act.set_chunk_size(8);
    let mut f = file_entry(&["f.bin"], 8);
    f.unix_pex = Some((7, 5, 5));
    let r = act.filetransfer_recv(TransferPayload::File(f), &path(&["f.bin"]), None);
    assert!(r.is_ok());
    assert!(act.host.contains_file_of_size(&path(&["f.bin"]), 8));
    assert_eq!(act.host.file_pex(&path(&["f.bin"])), Some((7, 5, 5)));
}

#[test]
fn test_download_file_as_temp_without_cache_fails() {
    let host = MemProvider::new();
    let mut client = MemProvider::new();
    assert!(client.put_file(&path(&["f.bin"]), 8));
    let mut act = session(host, client, ScriptedUi::new(1000));
    let f = file_entry(&["f.bin"], 8);
    let r = act.download_file_as_temp(&f);
    assert!(r.is_err());
}

#[test]
fn test_download_file_as_temp_into_cache() {
    let mut host = MemProvider::new();
    assert!(host.mkdir(&path(&["cache"]), false).is_ok());
    let mut client = MemProvider::new();
    assert!(client.put_file(&path(&["f.bin"]), 8));
    let mut act = FileTransferActivity::new(
        host,
        client,
        ScriptedUi::new(1000),
        params(),
        Some(path(&["cache"])),
    );
    act.set_chunk_size(8);
    let f = file_entry(&["f.bin"], 8);
    let r = act.download_file_as_temp(&f);
    assert!(r.is_ok());
    let tmp = r.unwrap();
    assert!(tmp.eq_path(&path(&["cache", "f.bin"])));
    assert!(act.host.contains_file_of_size(&path(&["cache", "f.bin"]), 8));
}

#[test]
fn test_send_remote_io_error_removes_partial() {
    // An I/O error on the side being written to triggers removal of the
    // partially written destination file.
    let mut host = MemProvider::new();
    assert!(host.put_file(&path(&["big.bin"]), 100));
    let mut client = MemProvider::new();
    client.fail_chunks_on(&path(&["big.bin"]));
    let mut act = session(host, client, ScriptedUi::new(1000));
    act.set_chunk_size(20);
    let f = file_entry(&["big.bin"], 100);
    let r = act.filetransfer_send(TransferPayload::File(f), &FsPath::root(), None);
    assert!(r.is_err());
    assert_eq!(
        r.unwrap_err(),
        String::from("I/O error on remote: write refused")
    );
    assert!(!act.client.exists_node(&path(&["big.bin"])));
    assert!(act
        .log_records
        .iter()
        .any(|rec| matches!(rec.event, LogEvent::UploadFailed { .. })));
}

#[test]
fn test_send_protocol_error_no_cleanup() {
    // A protocol-level failure opening the destination stream writes
    // nothing, so nothing is cleaned up: the remote tree is untouched.
    let mut host = MemProvider::new();
    assert!(host.put_file(&path(&["f.bin"]), 10));
    let mut client = MemProvider::new();
    client.fail_writes_on(&path(&["f.bin"]));
    let mut act = session(host, client, ScriptedUi::new(1000));
    act.set_chunk_size(10);
    let f = file_entry(&["f.bin"], 10);
    let r = act.filetransfer_send(TransferPayload::File(f), &FsPath::root(), None);
    assert!(r.is_err());
    assert_eq!(
        r.unwrap_err(),
        String::from("File transfer error: write refused")
    );
    assert!(!act.client.exists_node(&path(&["f.bin"])));
    assert!(!act
        .log_records
        .iter()
        .any(|rec| matches!(rec.event, LogEvent::CleanupFailed { .. })));
}

#[test]
fn test_send_missing_local_file_is_host_error() {
    // A failure opening the side being read from leaves the destination
    // untouched and is reported as a host error.
    let host = MemProvider::new();
    let client = MemProvider::new();
    let mut act = session(host, client, ScriptedUi::new(1000));
    let f = file_entry(&["ghost.bin"], 10);
    let r = act.filetransfer_send(TransferPayload::File(f), &FsPath::root(), None);
    assert!(r.is_err());
    assert_eq!(r.unwrap_err(), String::from("Host error: no such file"));
    assert!(!act.client.exists_node(&path(&["ghost.bin"])));
}

#[test]
fn test_recv_local_io_error_removes_partial() {
    // The receive mirror of the cleanup policy: a local write error removes
    // the partial local file.
    let mut host = MemProvider::new();
    host.fail_chunks_on(&path(&["f.bin"]));
    let mut client = MemProvider::new();
    assert!(client.put_file(&path(&["f.bin"]), 50));
    let mut act = session(host, client, ScriptedUi::new(1000));
    act.set_chunk_size(10);
    let f = file_entry(&["f.bin"], 50);
    let r = act.filetransfer_recv(TransferPayload::File(f), &path(&["f.bin"]), None);
    assert!(r.is_err());
    assert_eq!(
        r.unwrap_err(),
        String::from("I/O error on localhost: write refused")
    );
    assert!(!act.host.exists_node(&path(&["f.bin"])));
}

#[test]
fn test_changedir_updates_browser_and_stack() {
    let mut host = MemProvider::new();
    assert!(host.mkdir(&path(&["d"]), false).is_ok());
    assert!(host.put_file(&path(&["d", "x"]), 1));
    let client = MemProvider::new();
    let mut act = session(host, client, ScriptedUi::new(1000));
    act.local_changedir(&path(&["d"]), true);
    assert!(act.local.wrkdir.eq_path(&path(&["d"])));
    assert_eq!(act.local.files.len(), 1);
    assert_eq!(act.local.dirstack.len(), 1);
    // A change into a missing directory is alerted and leaves the state.
    act.local_changedir(&path(&["nope"]), true);
    assert!(act.local.wrkdir.eq_path(&path(&["d"])));
    assert!(act.alert.is_some());
}

#[test]
fn test_connect_enters_entry_directory() {
    let host = MemProvider::new();
    let mut client = MemProvider::new();
    assert!(client.mkdir(&path(&["inbox"]), false).is_ok());
    let mut p = params();
    p.entry_directory = Some(path(&["inbox"]));
    let mut act = FileTransferActivity::new(host, client, ScriptedUi::new(1000), p, None);
    act.connect();
    assert!(act.fatal.is_none());
    assert!(act.remote.wrkdir.eq_path(&path(&["inbox"])));
}

#[test]
fn test_connect_and_disconnect() {
    let host = MemProvider::new();
    let client = MemProvider::new();
    let mut act = session(host, client, ScriptedUi::new(1000));
    act.connect();
    assert!(act.fatal.is_none());
    act.disconnect_and_quit();
    assert!(act.exit_reason.is_some());
}
