use heq_core::backend::null::NullBackend;
use heq_core::backend::platform::{default_kind, BackendKind};
use heq_core::backend::{BackendError, Status};

#[test]
fn statuses() {
    let s = Status::ok("applied".to_string());
    assert!(s.connected);
    assert_eq!(s.message, "applied");
    let s = Status::offline("not connected".to_string());
    assert!(!s.connected);
    assert_eq!(s.message, "not connected");
}

#[test]
fn null_backend_is_always_offline() {
    let b = NullBackend::new("Equalizer APO not found".to_string());
    let s = b.status();
    assert!(!s.connected);
    assert_eq!(s.message, "Equalizer APO not found");
}

#[test]
fn error_messages() {
    assert_eq!(BackendError::NotAvailable("gone".to_string()).message(), "gone");
    assert_eq!(BackendError::Protocol("bad".to_string()).message(), "bad");
    let io = std::io::Error::new(std::io::ErrorKind::Other, "disk");
    let e: BackendError = io.into();
    assert!(matches!(e, BackendError::Io(_)));
    assert_eq!(e.message(), "disk");
}

#[test]
fn labels() {
    assert_eq!(BackendKind::Apo.label(), "Equalizer APO");
    assert_eq!(BackendKind::Camilla.label(), "CamillaDSP");
    assert_eq!(BackendKind::PipeWire.label(), "PipeWire");
}

#[test]
fn labels_read_back_among_the_supported() {
    let linux = [BackendKind::Camilla, BackendKind::PipeWire];
    for k in linux {
        assert_eq!(BackendKind::from_label(k.label(), &linux), Some(k));
    }
    assert_eq!(BackendKind::from_label("Equalizer APO", &linux), None);
    assert_eq!(BackendKind::from_label("camilladsp", &linux), None);
    assert_eq!(BackendKind::from_label("Equalizer APO", &[BackendKind::Apo]), Some(BackendKind::Apo));
}

#[test]
fn default_is_the_first_supported() {
    assert_eq!(default_kind(&[BackendKind::Camilla, BackendKind::PipeWire]), BackendKind::Camilla);
    assert_eq!(default_kind(&[BackendKind::Apo]), BackendKind::Apo);
}

use heq_core::backend::worker::{Debounce, Step, Wake, Worker, QUIET_MS};

#[test]
fn only_the_last_snapshot_of_a_burst_is_applied() {
    let mut d: Debounce<u32> = Debounce::new();
    assert!(matches!(d.wake(Wake::Snapshot(1)), Step::Arm(140)));
    assert!(matches!(d.wake(Wake::Snapshot(2)), Step::Arm(140)));
    assert!(matches!(d.wake(Wake::Snapshot(3)), Step::Arm(140)));
    assert!(matches!(d.wake(Wake::Timeout), Step::Apply(3)));
    assert!(matches!(d.wake(Wake::Timeout), Step::Disarm));
}

#[test]
fn the_worker_stops_when_its_sender_is_gone() {
    let mut d: Debounce<u32> = Debounce::new();
    assert!(matches!(d.wake(Wake::Snapshot(1)), Step::Arm(140)));
    assert!(matches!(d.wake(Wake::Disconnected), Step::Stop));
}

#[test]
fn the_quiet_period_is_140_ms() {
    assert_eq!(QUIET_MS, 140);
    let mut d: Debounce<u32> = Debounce::new();
    assert!(matches!(d.wake(Wake::Snapshot(9)), Step::Arm(140)));
}

#[test]
fn the_clocked_worker_waits_out_the_quiet_period_after_the_last_snapshot() {
    let mut w: Worker<u32> = Worker::new();
    assert_eq!(w.wait(0), None);
    assert!(matches!(w.event(1000, Wake::Snapshot(1)), Step::Arm(140)));
    assert_eq!(w.wait(1000), Some(140));
    assert!(matches!(w.event(1100, Wake::Snapshot(2)), Step::Arm(140)));
    assert_eq!(w.wait(1100), Some(140));
    assert_eq!(w.wait(1200), Some(40));
    assert_eq!(w.wait(1300), Some(0));
    assert!(matches!(w.event(1240, Wake::Timeout), Step::Apply(2)));
    assert_eq!(w.wait(1240), None);
    assert!(matches!(w.event(5000, Wake::Timeout), Step::Disarm));
    assert!(matches!(w.event(5001, Wake::Disconnected), Step::Stop));
}

use heq_core::backend::Backend;

#[test]
fn the_null_backend_applies_nothing_and_stays_offline() {
    let mut b = NullBackend::new("no output".to_string());
    assert_eq!(b.name(), "none");
    assert!(Backend::<u8>::apply(&mut b, &7).is_ok());
    let s = Backend::<u8>::status(&b);
    assert!(!s.connected);
    assert_eq!(s.message, "no output");
    assert_eq!(Backend::<u8>::name(&b), "none");
}
