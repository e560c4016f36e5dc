//! The wake channel and the pause/resume valve observed on concrete values.

use jobq::controller::{BackendStream, Controller};
use jobq::notify::{Notifier, Notify, NOTIFY_CAPACITY};

#[test]
fn notify_keeps_fifo_order() {
    let mut n: Notify<u32> = Notify::new();
    n.notify(1);
    n.notify(2);
    n.notify(3);
    assert_eq!(n.poll_next(), Some(1));
    assert_eq!(n.poll_next(), Some(2));
    assert_eq!(n.poll_next(), Some(3));
    assert_eq!(n.poll_next(), None);
}

#[test]
fn notify_drops_silently_when_full() {
    let mut n: Notify<usize> = Notify::new();
    for i in 0..NOTIFY_CAPACITY + 5 {
        n.notify(i);
    }
    assert_eq!(n.len(), NOTIFY_CAPACITY);
    // The first CAPACITY items survived, in order; the overflow was dropped.
    for i in 0..NOTIFY_CAPACITY {
        assert_eq!(n.poll_next(), Some(i));
    }
    assert_eq!(n.poll_next(), None);
}

#[test]
fn notifier_trait_reports_ok() {
    let mut n: Notify<u8> = Notify::new();
    let r = Notifier::notify(&mut n, 7);
    assert_eq!(r, Ok(()));
    assert_eq!(n.poll_next(), Some(7));
}

#[test]
fn paused_stream_yields_nothing_and_loses_nothing() {
    let controller = Controller::new();
    let mut s = BackendStream::new(vec![10u32, 20, 30], controller);
    s.pause();
    assert_eq!(s.poll_next(), None);
    assert_eq!(s.poll_next(), None);
    s.resume();
    // The same underlying sequence continues, nothing lost.
    assert_eq!(s.poll_next(), Some(10));
    assert_eq!(s.poll_next(), Some(20));
    assert_eq!(s.poll_next(), Some(30));
    assert_eq!(s.poll_next(), None);
}

#[test]
fn running_stream_forwards_polls() {
    let controller = Controller::new();
    assert!(!controller.is_paused());
    let mut s = BackendStream::new(vec![1u8], controller);
    assert_eq!(s.poll_next(), Some(1));
    assert_eq!(s.poll_next(), None);
}

#[test]
fn controller_flag_transitions() {
    let mut c = Controller::new();
    assert!(!c.is_paused());
    c.pause();
    assert!(c.is_paused());
    c.resume();
    assert!(!c.is_paused());
}
