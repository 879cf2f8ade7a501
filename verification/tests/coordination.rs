//! The broadcast bus, the readiness barrier, and process control.

use alone::appctl::AppCtl;
use alone::bus::{Bus, Recv, RecvOutcome};
use alone::ready::Ready;
use alone::status::Status;
use std::sync::{Arc, Mutex};

fn recv_msg(bus: &mut Bus<String>, reader: usize) -> Option<String> {
    match bus.recv(reader) {
        Recv::Msg(m) => Some(m),
        _ => None,
    }
}

#[test]
fn bus_reader_from_start_sees_all_in_order() {
    let mut bus: Bus<String> = Bus::new(10);
    let r0 = bus.subscribe();
    bus.publish(String::from("one"));
    bus.publish(String::from("two"));
    bus.publish(String::from("three"));
    assert_eq!(recv_msg(&mut bus, r0), Some(String::from("one")));
    assert_eq!(recv_msg(&mut bus, r0), Some(String::from("two")));
    assert_eq!(recv_msg(&mut bus, r0), Some(String::from("three")));
    assert!(matches!(bus.recv(r0), Recv::Empty));
}

#[test]
fn bus_late_subscriber_sees_only_later_messages() {
    let mut bus: Bus<String> = Bus::new(10);
    let r0 = bus.subscribe();
    bus.publish(String::from("one"));
    bus.publish(String::from("two"));
    let r1 = bus.subscribe();
    assert!(matches!(bus.recv(r1), Recv::Empty));
    bus.publish(String::from("three"));
    bus.publish(String::from("four"));
    // the late reader gets only what came after it subscribed
    assert_eq!(recv_msg(&mut bus, r1), Some(String::from("three")));
    assert_eq!(recv_msg(&mut bus, r1), Some(String::from("four")));
    assert!(matches!(bus.recv(r1), Recv::Empty));
    // the early reader still gets everything
    assert_eq!(recv_msg(&mut bus, r0), Some(String::from("one")));
    assert_eq!(recv_msg(&mut bus, r0), Some(String::from("two")));
    assert_eq!(recv_msg(&mut bus, r0), Some(String::from("three")));
    assert_eq!(recv_msg(&mut bus, r0), Some(String::from("four")));
}

#[test]
fn bus_drops_oldest_for_slow_reader_only() {
    let mut bus: Bus<String> = Bus::new(2);
    let slow = bus.subscribe();
    bus.publish(String::from("a"));
    bus.publish(String::from("b"));
    bus.publish(String::from("c"));
    // capacity 2: "a" was dropped for the slow reader
    assert_eq!(bus.unread(slow), 2);
    assert_eq!(recv_msg(&mut bus, slow), Some(String::from("b")));
    assert_eq!(recv_msg(&mut bus, slow), Some(String::from("c")));
    assert!(matches!(bus.recv(slow), Recv::Empty));
}

#[test]
fn bus_closed_is_distinct_from_empty() {
    let mut bus: Bus<String> = Bus::new(4);
    let r = bus.subscribe();
    assert!(matches!(bus.recv(r), Recv::Empty));
    bus.publish(String::from("last words"));
    bus.close();
    // a pending message is still delivered after the close
    assert_eq!(recv_msg(&mut bus, r), Some(String::from("last words")));
    // and only then does the reader see the disconnect
    assert!(matches!(bus.recv(r), Recv::Closed));
    assert!(matches!(bus.recv(r), Recv::Closed));
}

#[test]
fn bus_try_recv_hands_out_indexes() {
    let mut bus: Bus<String> = Bus::new(4);
    let r = bus.subscribe();
    bus.publish(String::from("x"));
    match bus.try_recv(r) {
        RecvOutcome::Ready(i) => assert_eq!(bus.get(i), "x"),
        _ => panic!("expected a pending message"),
    }
}

#[test]
fn barrier_blocks_until_every_registered_name_is_ready() {
    let mut ready = Ready::new();
    // an empty barrier blocks nobody
    assert!(ready.all_ready());
    ready.not_ready("conv");
    ready.not_ready("images");
    assert!(!ready.all_ready());
    ready.ready("conv");
    assert!(!ready.all_ready());
    ready.ready("images");
    assert!(ready.all_ready());
}

#[test]
fn barrier_reset_closes_it_again() {
    let mut ready = Ready::new();
    ready.ready("conv");
    ready.ready("images");
    assert!(ready.all_ready());
    ready.set_all(false);
    assert!(!ready.all_ready());
    ready.ready("images");
    assert!(!ready.all_ready());
    ready.ready("conv");
    assert!(ready.all_ready());
}

#[test]
fn barrier_ignores_worker_that_never_registered() {
    // two workers exist, but one is disabled by configuration and never
    // touches the barrier: it must not be waited on
    let mut ready = Ready::new();
    ready.not_ready("conv");
    ready.ready("conv");
    assert!(ready.all_ready());
}

#[test]
fn stop_flips_liveness_for_good() {
    let mut status = Status::new();
    assert!(status.is_alive());
    status.stop();
    assert!(!status.is_alive());
    // stopping twice is harmless
    status.stop();
    assert!(!status.is_alive());
}

#[test]
fn stop_aborts_registered_operations() {
    let mut status = Status::new();
    let (handle, _registration) = futures::future::AbortHandle::new_pair();
    let watcher = handle.clone();
    status.add_abortable("telegram", handle);
    assert!(!watcher.is_aborted());
    status.stop();
    assert!(watcher.is_aborted());
}

#[test]
fn replacing_an_abortable_does_not_cancel_the_old_one() {
    let mut status = Status::new();
    let (first, _r1) = futures::future::AbortHandle::new_pair();
    let (second, _r2) = futures::future::AbortHandle::new_pair();
    let old = first.clone();
    let new = second.clone();
    status.add_abortable("telegram", first);
    status.add_abortable("telegram", second);
    assert!(!old.is_aborted());
    status.stop();
    // only the handle currently registered is cancelled
    assert!(!old.is_aborted());
    assert!(new.is_aborted());
}

#[test]
fn stop_reaches_every_holder_of_the_shared_control() {
    let ctl = Arc::new(Mutex::new(Status::new()));
    let a = ctl.clone();
    let b = ctl.clone();
    assert!(a.lock().unwrap().is_alive());
    assert!(b.lock().unwrap().is_alive());
    a.lock().unwrap().stop();
    assert!(!a.lock().unwrap().is_alive());
    assert!(!b.lock().unwrap().is_alive());
}

#[test]
fn images_flag_is_independent_of_liveness() {
    let mut status = Status::new();
    assert!(!status.images_enabled());
    status.enable_images(true);
    assert!(status.images_enabled());
    status.stop();
    assert!(status.images_enabled());
    status.enable_images(false);
    assert!(!status.images_enabled());
}

#[test]
fn appctl_wires_channels_and_control_together() {
    let mut ctl = AppCtl::new();
    assert!(ctl.is_alive());
    let me = ctl.listen_me_channel();
    let bot = ctl.listen_bot_channel();
    let pic = ctl.listen_bot_pic_channel();

    ctl.broadcast_me_channel("hello there.");
    match ctl.recv_me_channel(me) {
        Recv::Msg(m) => assert_eq!(m, "hello there."),
        _ => panic!("worker should see the utterance"),
    }

    ctl.broadcast_bot_channel("General greeting");
    match ctl.recv_bot_channel(bot) {
        Recv::Msg(m) => assert_eq!(m, "General greeting"),
        _ => panic!("front end should see the reply"),
    }

    ctl.broadcast_bot_pic_channel(Some(String::from("cat.png")));
    match ctl.recv_bot_pic_channel(pic) {
        Recv::Msg(Some(p)) => assert_eq!(p, "cat.png"),
        _ => panic!("front end should see the picture"),
    }
    ctl.broadcast_bot_pic_channel(None);
    match ctl.recv_bot_pic_channel(pic) {
        Recv::Msg(None) => {}
        _ => panic!("an empty picture round is still an answer"),
    }

    // shutdown closes every channel so blocked readers wake to Closed
    ctl.stop();
    assert!(!ctl.is_alive());
    assert!(matches!(ctl.recv_me_channel(me), Recv::Closed));
    assert!(matches!(ctl.recv_bot_channel(bot), Recv::Closed));
    assert!(matches!(ctl.recv_bot_pic_channel(pic), Recv::Closed));
}
