use ser2tcp_tester::generator::{Generator, MismatchError};
use ser2tcp_tester::worker::{
    after_write, receive_step, session_ended, Meter, ReadEvent, ReceiveStep, Verdict,
    WorkerState, WriteEvent, PACE_MILLIS, READ_BUFFER_SIZE, WINDOW_MILLIS,
};
use std::collections::VecDeque;

#[test]
fn reference_limits() {
    assert_eq!(READ_BUFFER_SIZE, 2048);
    assert_eq!(WINDOW_MILLIS, 1000);
    assert_eq!(PACE_MILLIS, 1);
}

#[test]
fn after_write_table() {
    assert_eq!(after_write(WriteEvent::Complete, false), Verdict::Continue);
    assert_eq!(after_write(WriteEvent::Complete, true), Verdict::Shutdown);
    assert_eq!(after_write(WriteEvent::Failed, false), Verdict::TransportFault);
    assert_eq!(after_write(WriteEvent::Failed, true), Verdict::TransportFault);
}

#[test]
fn meter_counts_and_reports_exact_rate() {
    let mut m = Meter::new();
    assert_eq!(m.count(), 0);
    m.record(2000);
    m.record(500);
    assert_eq!(m.count(), 2500);
    assert_eq!(m.close_window(999), None);
    assert_eq!(m.count(), 2500);
    assert_eq!(m.close_window(1250), Some(2000));
    assert_eq!(m.count(), 0);
    assert_eq!(m.close_window(1000), Some(0));
}

#[test]
fn meter_rate_rounds_down() {
    let mut m = Meter::new();
    m.record(1);
    assert_eq!(m.close_window(3000), Some(0));
    m.record(100);
    assert_eq!(m.close_window(1000), Some(100));
    m.record(1000);
    assert_eq!(m.close_window(1001), Some(999));
}

#[test]
fn meter_has_room_at_the_limit() {
    let mut m = Meter::new();
    assert!(m.has_room(usize::MAX));
    m.record(1);
    assert_eq!(m.has_room(usize::MAX), (usize::MAX as u128) + 1 <= u64::MAX as u128);
    assert!(m.has_room(0));
    assert!(m.has_room(2048));
}

#[test]
fn meter_rate_of_a_full_counter() {
    let mut m = Meter::new();
    m.record(usize::MAX);
    let expected = (usize::MAX as u128 * 1000 / 1000) as u64;
    assert_eq!(m.close_window(1000), Some(expected));
}

#[test]
fn receive_failed_read_is_a_fault() {
    let mut g = Generator::create().unwrap();
    g.generate();
    let mut m = Meter::new();
    m.record(5);
    let step = receive_step(&mut g, &mut m, ReadEvent::Failed, true, 5000);
    assert_eq!(step, ReceiveStep { verdict: Verdict::TransportFault, report: None });
    assert_eq!(g.backlog_len(), 100);
    assert_eq!(m.count(), 5);
}

#[test]
fn receive_idle_read_keeps_going() {
    let mut g = Generator::create().unwrap();
    g.generate();
    let mut m = Meter::new();
    let step = receive_step(&mut g, &mut m, ReadEvent::Idle, false, 10);
    assert_eq!(step, ReceiveStep { verdict: Verdict::Continue, report: None });
    assert_eq!(g.backlog_len(), 100);
    assert_eq!(m.count(), 0);
}

#[test]
fn receive_counts_validated_bytes() {
    let mut g = Generator::create().unwrap();
    g.generate();
    let mut m = Meter::new();
    let data = [0u8; 30];
    let step = receive_step(&mut g, &mut m, ReadEvent::Data(&data), false, 999);
    assert_eq!(step, ReceiveStep { verdict: Verdict::Continue, report: None });
    assert_eq!(g.backlog_len(), 70);
    assert_eq!(m.count(), 30);
    let step = receive_step(&mut g, &mut m, ReadEvent::Data(&data), false, 1000);
    assert_eq!(step, ReceiveStep { verdict: Verdict::Continue, report: Some(60) });
    assert_eq!(g.backlog_len(), 40);
    assert_eq!(m.count(), 0);
}

#[test]
fn receive_shutdown_wins_over_window() {
    let mut g = Generator::create().unwrap();
    g.generate();
    let mut m = Meter::new();
    let data = [0u8; 100];
    let step = receive_step(&mut g, &mut m, ReadEvent::Data(&data), true, 4000);
    assert_eq!(step, ReceiveStep { verdict: Verdict::Shutdown, report: None });
    assert_eq!(g.backlog_len(), 0);
    assert_eq!(m.count(), 100);
    let step = receive_step(&mut g, &mut m, ReadEvent::Idle, true, 0);
    assert_eq!(step.verdict, Verdict::Shutdown);
}

#[test]
fn receive_mismatch_stops_the_loop() {
    let mut g = Generator::create().unwrap();
    g.generate();
    let mut m = Meter::new();
    m.record(7);
    let mut data = [0u8; 10];
    data[4] = 0x10;
    let step = receive_step(&mut g, &mut m, ReadEvent::Data(&data), false, 2000);
    assert_eq!(
        step,
        ReceiveStep {
            verdict: Verdict::Corrupted(MismatchError::ByteDiffers { offset: 4 }),
            report: None
        }
    );
    assert_eq!(m.count(), 7);
    assert_eq!(g.backlog_len(), 90);
}

#[test]
fn receive_more_than_was_sent_stops_the_loop() {
    let mut g = Generator::with_chunk_size(4);
    g.generate();
    let mut m = Meter::new();
    let data = [0u8; 5];
    let step = receive_step(&mut g, &mut m, ReadEvent::Data(&data), true, 0);
    assert_eq!(
        step.verdict,
        Verdict::Corrupted(MismatchError::BacklogTooShort { backlog: 4, requested: 5 })
    );
    assert_eq!(step.report, None);
    assert_eq!(g.backlog_len(), 4);
    assert_eq!(m.count(), 0);
}

/// Runs both loops by turns over a pipe that loses and changes nothing, one
/// millisecond of pretended time per turn, and returns the reports and the
/// bytes left in the backlog and in the pipe.
fn run_loopback(g: &mut Generator, millis: u64, stop_at: u64) -> (Vec<u64>, usize, usize, u64, u64) {
    let mut pipe: VecDeque<u8> = VecDeque::new();
    let mut meter = Meter::new();
    let mut reports = Vec::new();
    let mut window_start = 0u64;
    let mut sent = 0u64;
    let mut received = 0u64;
    let mut tx_running = true;
    let mut rx_running = true;
    let mut now = 0u64;
    while now < millis && (tx_running || rx_running) {
        now += PACE_MILLIS;
        let stop = now >= stop_at;
        if tx_running {
            let chunk = g.generate();
            sent += chunk.len() as u64;
            pipe.extend(chunk.iter());
            match after_write(WriteEvent::Complete, stop) {
                Verdict::Continue => {}
                Verdict::Shutdown => tx_running = false,
                other => panic!("transmit loop ended with {:?}", other),
            }
        }
        if rx_running {
            let n = pipe.len().min(READ_BUFFER_SIZE).min(64);
            let buf: Vec<u8> = pipe.drain(..n).collect();
            let event = if n == 0 { ReadEvent::Idle } else { ReadEvent::Data(&buf) };
            assert!(meter.has_room(n));
            let step = receive_step(g, &mut meter, event, stop, now - window_start);
            received += n as u64;
            if let Some(rate) = step.report {
                reports.push(rate);
                window_start = now;
            }
            match step.verdict {
                Verdict::Continue => {}
                Verdict::Shutdown => rx_running = false,
                other => panic!("receive loop ended with {:?}", other),
            }
        }
    }
    (reports, g.backlog_len(), pipe.len(), sent, received)
}

#[test]
fn loopback_has_no_mismatch_and_consistent_backlog() {
    let mut g = Generator::create().unwrap();
    let (reports, backlog, in_pipe, sent, received) = run_loopback(&mut g, 5000, 5000);
    assert_eq!(sent, 500_000);
    assert_eq!(received, 5000 * 64);
    assert_eq!(backlog as u64, sent - received);
    assert_eq!(backlog, in_pipe);
    assert_eq!(reports, vec![64_000, 64_000, 64_000, 64_000]);
}

#[test]
fn loopback_three_seconds_reports_each_second() {
    for _ in 0..2 {
        let mut g = Generator::with_chunk_size(100);
        let (reports, backlog, _, sent, received) = run_loopback(&mut g, 3001, 3001);
        assert_eq!(reports.len(), 3);
        assert!(reports.iter().all(|r| *r > 0));
        assert_eq!(backlog as u64, sent - received);
    }
}

#[test]
fn loopback_stops_in_the_turn_that_sees_the_flag() {
    let mut g = Generator::create().unwrap();
    let (reports, backlog, _, sent, received) = run_loopback(&mut g, 10_000, 1500);
    assert_eq!(sent, 1500 * 100);
    assert_eq!(received, 1500 * 64);
    assert_eq!(reports, vec![64_000]);
    assert_eq!(backlog as u64, sent - received);
}

#[test]
fn worker_state_moves_forward_only() {
    let fault = Verdict::Corrupted(MismatchError::ByteDiffers { offset: 0 });
    assert_eq!(WorkerState::Running.after(Verdict::Continue), WorkerState::Running);
    assert_eq!(WorkerState::Running.after(Verdict::Shutdown), WorkerState::Stopping);
    assert_eq!(WorkerState::Running.after(Verdict::TransportFault), WorkerState::Stopping);
    assert_eq!(WorkerState::Running.after(fault), WorkerState::Stopping);
    assert_eq!(WorkerState::Stopping.after(Verdict::Continue), WorkerState::Stopping);
    assert_eq!(WorkerState::Stopped.after(Verdict::Continue), WorkerState::Stopped);
    assert_eq!(WorkerState::Running.joined(), WorkerState::Running);
    assert_eq!(WorkerState::Stopping.joined(), WorkerState::Stopped);
    assert_eq!(WorkerState::Stopped.joined(), WorkerState::Stopped);
}

#[test]
fn session_ends_when_both_loops_are_stopped() {
    let all = [WorkerState::Running, WorkerState::Stopping, WorkerState::Stopped];
    for tx in all {
        for rx in all {
            assert_eq!(
                session_ended(tx, rx),
                tx == WorkerState::Stopped && rx == WorkerState::Stopped
            );
        }
    }
}
