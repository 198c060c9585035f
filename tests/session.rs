use std::sync::Arc;

use ftp_core::cmd::SocketAddress;
use ftp_core::file::{dir_entry_action, EntryAction, FileManager, FileType};
use ftp_core::thread_pool::{pool_size, shutdown_signals, PoolError, Task};
use ftp_core::transfer::{ITransfer, Transfer, TransferMode};
use ftp_core::user::{User, UserError, UserState};

fn local() -> SocketAddress {
    SocketAddress { a: 127, b: 0, c: 0, d: 1, port: 2121 }
}

#[test]
fn test_set_file() {
    let mut manager: FileManager<u32> = FileManager::new(1);

    manager.set_file("temp/test1.txt", 1);
    assert_eq!(manager.len(), 1);

    manager.set_file("temp/test2.txt", 2);
    assert_eq!(manager.len(), 1);
}

#[test]
fn cache_at_capacity_keeps_only_new_entry() {
    let mut m: FileManager<u32> = FileManager::new(1);
    m.set_file("temp/test1.txt", 1);
    m.set_file("temp/test2.txt", 2);
    assert!(!m.is_exist("temp/test1.txt"));
    assert_eq!(m.get_file("temp/test2.txt"), Some(&2));
}

#[test]
fn cache_set_is_idempotent_and_removal_works() {
    let mut m: FileManager<u32> = FileManager::new(3);
    m.set_file("a", 1);
    m.set_file("a", 9);
    assert_eq!(m.get_file("a"), Some(&1));
    m.set_file("b", 2);
    assert_eq!(m.len(), 2);
    m.remove_file("a");
    assert_eq!(m.len(), 1);
    assert_eq!(m.get_file("a"), None);
    m.remove_file("zzz");
    assert_eq!(m.len(), 1);
    m.clear();
    assert_eq!(m.len(), 0);
}

#[test]
fn aborted_transfer_stops_advancing() {
    let mut t = Transfer::new(TransferMode::Port(7u8));
    t.total_size = 100;
    assert_eq!(t.next_chunk(40), 40);
    assert!(t.record_progress(40));
    assert_eq!(t.finished_size, 40);
    t.abort();
    assert!(t.aborted);
    assert_eq!(t.next_chunk(40), 0);
    assert!(!t.record_progress(40));
    assert_eq!(t.finished_size, 40);
}

#[test]
fn transfer_progress_is_capped_by_total() {
    let mut t = Transfer::new(TransferMode::Pasv(1u8));
    assert_eq!(*t.get_socket(), 1);
    t.total_size = 50;
    assert_eq!(t.next_chunk(64), 50);
    t.record_progress(64);
    assert_eq!(t.finished_size, 50);
    t.finish();
    t.abort();
    assert!(t.is_finished && !t.aborted);
    t.set_offset(10);
    assert_eq!(t.offset, 10);
}

#[test]
fn get_transfer_before_and_after_set() {
    let mut u: User<u8> = User::new("bob", local(), "/srv");
    assert_eq!(u.state, UserState::Logging);
    assert_eq!(u.transfer_type, FileType::Ascii);
    assert!(matches!(u.get_transfer(), Err(UserError::TransferNotFound)));
    u.set_transfer(Transfer::new(TransferMode::Port(3u8)));
    let a = u.get_transfer().unwrap();
    let b = u.get_transfer().unwrap();
    assert!(Arc::ptr_eq(&a, &b));
    assert_eq!(a.lock().unwrap().finished_size, 0);
}

#[test]
fn anonymous_user_is_online() {
    let u: User<u8> = User::new_anonymous(local(), "/pub");
    assert_eq!(u.username, "anonymous");
    assert_eq!(u.state, UserState::Online);
    assert_eq!(u.home, "/pub");
    assert_eq!(u.address, local());
}

#[test]
fn pool_size_and_signals() {
    assert_eq!(pool_size(0), Err(PoolError::NoWorkers));
    assert_eq!(pool_size(3), Ok(3));
    let s: Vec<Task<u8>> = shutdown_signals(4);
    assert_eq!(s.len(), 4);
    assert!(s.into_iter().all(|t| t.into_work().is_none()));
    assert_eq!(Task::NewTask(5u8).into_work(), Some(5));
}

#[test]
fn cache_write_through_mutable_handle() {
    let mut m: FileManager<Vec<u8>> = FileManager::new(2);
    m.set_file("log", Vec::new());
    m.get_file_mut("log").unwrap().extend_from_slice(b"HIHIHI");
    assert_eq!(m.get_file("log").map(|v| v.as_slice()), Some(&b"HIHIHI"[..]));
    assert!(m.get_file_mut("other").is_none());
}

#[test]
fn dir_entry_actions() {
    assert_eq!(dir_entry_action(true, false, "d/x.txt", "d"), EntryAction::DeleteFile);
    assert_eq!(dir_entry_action(false, true, "d/sub", "d"), EntryAction::RemoveDir);
    assert_eq!(dir_entry_action(false, true, "d", "d"), EntryAction::Skip);
}
