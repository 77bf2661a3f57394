use tarssh::control::{
    on_accept_error, on_signal, AcceptAction, Ending, Signal, SignalAction,
    ACCEPT_BACKOFF_MILLIS, LISTEN_BACKLOG, RECV_BUFFER_SIZE, SEND_BUFFER_SIZE,
};
use tarssh::elapsed::Elapsed;
use tarssh::error::{DeadlineFault, Error, IoFailure, IoKind, TimerFault};
use tarssh::peer_addr::{PeerAddr, PeerIp};

#[test]
fn elapsed_keeps_whole_deciseconds() {
    assert_eq!(Elapsed::from_parts(0, 0).millis(), 0);
    assert_eq!(Elapsed::from_parts(12, 345).millis(), 12300);
    assert_eq!(Elapsed::from_parts(12, 399).millis(), 12300);
    assert_eq!(Elapsed::from_parts(12, 400).millis(), 12400);
    assert_eq!(Elapsed::from_parts(0, 99).millis(), 0);
    assert_eq!(Elapsed::from_parts(3, 999).millis(), 3900);
}

#[test]
fn elapsed_wraps_after_thirteen_years() {
    // 429_496_729 s and 600 ms are 2^32 deciseconds.
    assert_eq!(Elapsed::from_parts(429_496_729, 500).millis(), 429_496_729_500);
    assert_eq!(Elapsed::from_parts(429_496_729, 600).millis(), 0);
    assert_eq!(Elapsed::from_parts(429_496_729, 700).millis(), 100);
    assert_eq!(Elapsed::from_parts(429_496_730, 0), Elapsed::from_parts(0, 400));
    assert_eq!(Elapsed::from_parts(u64::MAX, 999).millis(), ((((u64::MAX as u128) * 10 + 9) % (1u128 << 32)) as u64) * 100);
}

#[test]
fn elapsed_takes_oversized_milliseconds() {
    assert_eq!(Elapsed::from_parts(0, 2500).millis(), 2500);
    assert_eq!(Elapsed::from_parts(1, u32::MAX).millis(), (10 + 42_949_672) * 100);
}

#[test]
fn elapsed_since_the_stamp() {
    let stamp = Elapsed::from_parts(12, 345);
    assert_eq!(stamp.elapsed(20_000), 7_700);
    assert_eq!(stamp.elapsed(12_300), 0);
    assert_eq!(stamp.elapsed(12_345), 45);
}

#[test]
fn elapsed_is_a_plain_value() {
    let a = Elapsed::from_parts(5, 0);
    let b = a;
    assert_eq!(a, b);
    assert_ne!(a, Elapsed::from_parts(5, 100));
}

#[test]
fn peer_v4_round_trip() {
    for ip in [0u32, 1, 0x7f00_0001, 0xc0a8_0101, u32::MAX] {
        for port in [0u16, 22, 2222, u16::MAX] {
            let peer = PeerAddr::new(PeerIp::V4(ip), port);
            assert_eq!(peer.ip(), PeerIp::V4(ip));
            assert_eq!(peer.port(), port);
        }
    }
}

#[test]
fn peer_v4_is_stored_mapped() {
    let peer = PeerAddr::new(PeerIp::V4(0x0102_0304), 22);
    assert_eq!(peer.bits(), 0x0000_0000_0000_0000_0000_ffff_0102_0304);
    let lowest = PeerAddr::new(PeerIp::V4(0), 22);
    assert_eq!(lowest.bits(), 0xffff_0000_0000);
}

#[test]
fn peer_v6_round_trip() {
    let loopback: u128 = 1;
    let documentation: u128 = 0x2001_0db8_0000_0000_0000_0000_0000_0001;
    let below_mapped: u128 = 0xfffe_ffff_ffff;
    let above_mapped: u128 = 0x1_0000_0000_0000;
    for ip in [0u128, loopback, documentation, below_mapped, above_mapped, u128::MAX] {
        let peer = PeerAddr::new(PeerIp::V6(ip), 2222);
        assert_eq!(peer.ip(), PeerIp::V6(ip));
        assert_eq!(peer.bits(), ip);
        assert_eq!(peer.port(), 2222);
    }
}

#[test]
fn peer_mapped_v6_is_shown_as_v4() {
    let peer = PeerAddr::new(PeerIp::V6(0xffff_0102_0304), 22);
    assert_eq!(peer.ip(), PeerIp::V4(0x0102_0304));
    let first = PeerAddr::new(PeerIp::V6(0xffff_0000_0000), 22);
    assert_eq!(first.ip(), PeerIp::V4(0));
    let last = PeerAddr::new(PeerIp::V6(0xffff_ffff_ffff), 22);
    assert_eq!(last.ip(), PeerIp::V4(u32::MAX));
}

#[test]
fn peer_is_a_plain_value() {
    let a = PeerAddr::new(PeerIp::V4(5), 6);
    let b = a;
    assert_eq!(a, b);
    assert_eq!(a, PeerAddr::new(PeerIp::V6(0xffff_0000_0005), 6));
    assert_ne!(a, PeerAddr::new(PeerIp::V4(5), 7));
}

fn failure(kind: IoKind, message: &str) -> IoFailure {
    IoFailure { kind, message: message.to_string() }
}

#[test]
fn error_descriptions() {
    assert_eq!(Error::Timeout.description(), "timed out");
    assert_eq!(Error::TimerFull.description(), "timer at capacity");
    assert_eq!(Error::TimerShutdown.description(), "timer shutdown");
    assert_eq!(Error::Io(failure(IoKind::ConnectionReset, "connection reset")).description(), "connection reset");
    assert_eq!(Error::Io(failure(IoKind::Other, "")).description(), "");
}

#[test]
fn error_from_io_failure() {
    let made: Error = failure(IoKind::Other, "broken pipe").into();
    assert_eq!(made, Error::Io(failure(IoKind::Other, "broken pipe")));
}

#[test]
fn error_from_timer_fault() {
    assert_eq!(Error::from(TimerFault::AtCapacity), Error::TimerFull);
    assert_eq!(Error::from(TimerFault::Shutdown), Error::TimerShutdown);
}

#[test]
fn error_from_deadline_fault() {
    assert_eq!(Error::from(DeadlineFault::Elapsed), Error::Timeout);
    assert_eq!(
        Error::from(DeadlineFault::Inner(failure(IoKind::ConnectionAborted, "aborted"))),
        Error::Io(failure(IoKind::ConnectionAborted, "aborted"))
    );
    assert_eq!(Error::from(DeadlineFault::Timer(TimerFault::AtCapacity)), Error::TimerFull);
    assert_eq!(Error::from(DeadlineFault::Timer(TimerFault::Shutdown)), Error::TimerShutdown);
}

#[test]
fn info_and_hangup_ask_for_a_report() {
    assert_eq!(on_signal(Signal::Info), SignalAction::Report);
    assert_eq!(on_signal(Signal::Hangup), SignalAction::Report);
    assert!(on_signal(Signal::Hangup).keeps_running());
    assert_eq!(on_signal(Signal::Info).label(), "info");
}

#[test]
fn terminate_and_interrupt_ask_for_the_end() {
    assert_eq!(on_signal(Signal::Terminate), SignalAction::Shutdown);
    assert_eq!(on_signal(Signal::Interrupt), SignalAction::Shutdown);
    assert!(!on_signal(Signal::Interrupt).keeps_running());
    assert_eq!(on_signal(Signal::Terminate).label(), "shutdown");
}

#[test]
fn signal_names() {
    assert_eq!(Signal::Info.name(), "INFO");
    assert_eq!(Signal::Hangup.name(), "HUP");
    assert_eq!(Signal::Terminate.name(), "TERM");
    assert_eq!(Signal::Interrupt.name(), "INT");
}

#[test]
fn vanished_peers_are_ignored_on_accept() {
    assert_eq!(on_accept_error(IoKind::ConnectionRefused), AcceptAction::Ignore);
    assert_eq!(on_accept_error(IoKind::ConnectionAborted), AcceptAction::Ignore);
    assert_eq!(on_accept_error(IoKind::ConnectionReset), AcceptAction::Ignore);
}

#[test]
fn other_accept_errors_pause_for_a_tenth_of_a_second() {
    assert_eq!(on_accept_error(IoKind::Other), AcceptAction::Backoff(100));
    assert_eq!(on_accept_error(IoKind::WouldBlock), AcceptAction::Backoff(100));
    assert_eq!(on_accept_error(IoKind::Interrupted), AcceptAction::Backoff(100));
    assert_eq!(ACCEPT_BACKOFF_MILLIS, 100);
}

#[test]
fn listener_settings() {
    assert_eq!(LISTEN_BACKLOG, 1024);
    assert_eq!(RECV_BUFFER_SIZE, 1);
    assert_eq!(SEND_BUFFER_SIZE, 32);
}

#[test]
fn clean_ending_exits_with_zero() {
    assert_eq!(Ending::Clean.exit_status(), 0);
}

#[test]
fn each_failure_has_its_own_exit_status() {
    assert_eq!(Ending::Usage.exit_status(), 64);
    assert_eq!(Ending::System.exit_status(), 71);
    assert_eq!(Ending::Unavailable.exit_status(), 69);
}
