use lib::session::{
    boot_start, boot_step, exchange_start, exchange_step, Action, Boot, BootAction, BootReport,
    Exchange, Report, RECEIVE_CAPACITY,
};

fn run_exchange(results: &[i32]) -> (Exchange, Vec<Action>, Vec<Report>) {
    let (mut state, first) = exchange_start();
    assert_eq!(first, Action::Connect);
    let mut actions = Vec::new();
    let mut reports = Vec::new();
    for &r in results {
        let step = exchange_step(state, r);
        state = step.next;
        actions.push(step.action);
        reports.push(step.report);
    }
    (state, actions, reports)
}

#[test]
fn exchange_connect_failure() {
    let (state, actions, reports) = run_exchange(&[-1, 0, 0, 0]);
    assert_eq!(state, Exchange::Done);
    assert_eq!(actions, vec![Action::Finish; 4]);
    assert_eq!(reports[0], Report::ConnectFailed);
}

#[test]
fn exchange_with_ack() {
    let (state, actions, reports) = run_exchange(&[3, 400, 17, 0]);
    assert_eq!(state, Exchange::Done);
    assert_eq!(
        actions,
        vec![
            Action::Send { fd: 3 },
            Action::Receive { fd: 3, capacity: RECEIVE_CAPACITY },
            Action::Close { fd: 3 },
            Action::Finish
        ]
    );
    assert_eq!(
        reports,
        vec![Report::Connected, Report::RequestSent, Report::AckReceived, Report::SocketClosed]
    );
    assert_eq!(RECEIVE_CAPACITY, 255);
}

#[test]
fn exchange_without_ack() {
    let (_, actions, reports) = run_exchange(&[0, 10, 0, 0]);
    assert_eq!(actions[2], Action::Close { fd: 0 });
    assert_eq!(reports[2], Report::NoAck);
}

#[test]
fn exchange_send_failure_still_closes() {
    let (state, actions, reports) = run_exchange(&[5, -1, 0, 0]);
    assert_eq!(state, Exchange::Done);
    assert_eq!(
        actions,
        vec![Action::Send { fd: 5 }, Action::Close { fd: 5 }, Action::Finish, Action::Finish]
    );
    assert_eq!(reports[1], Report::SendFailed);
    assert_eq!(reports[2], Report::SocketClosed);
    assert_eq!(reports[3], Report::Nothing);
}

#[test]
fn boot_wifi_failure_halts() {
    let (state, first) = boot_start();
    assert_eq!(first, BootAction::JoinWifi);
    let step = boot_step(state, -5);
    assert_eq!(step.next, Boot::Halted);
    assert_eq!(step.action, BootAction::Halt);
    assert_eq!(step.report, BootReport::WifiFailed);
    let again = boot_step(step.next, 0);
    assert_eq!(again.next, Boot::Halted);
}

#[test]
fn boot_dhcp_timeout_halts() {
    let step = boot_step(Boot::JoiningWifi, 0);
    assert_eq!(step.action, BootAction::WaitNetwork);
    assert_eq!(step.report, BootReport::AwaitingAddress);
    let step = boot_step(step.next, 1);
    assert_eq!(step.next, Boot::Halted);
    assert_eq!(step.report, BootReport::DhcpTimeout);
}

#[test]
fn boot_cycles_count_from_one() {
    let mut step = boot_step(Boot::JoiningWifi, 0);
    step = boot_step(step.next, 0);
    assert_eq!(step.report, BootReport::NetworkReady);
    assert_eq!(step.action, BootAction::RunCycle { seq: 1 });
    for k in 2..=5u32 {
        step = boot_step(step.next, 0);
        assert_eq!(step.action, BootAction::RunCycle { seq: k });
        assert_eq!(step.next, Boot::Running { seq: k });
    }
}

#[test]
fn boot_sequence_wraps() {
    let step = boot_step(Boot::Running { seq: u32::MAX }, 0);
    assert_eq!(step.next, Boot::Running { seq: 0 });
    assert_eq!(step.action, BootAction::RunCycle { seq: 0 });
}


#[test]
fn finished_exchange_stays_finished() {
    for r in [-1, 0, 7] {
        let step = exchange_step(Exchange::Done, r);
        assert_eq!(step.next, Exchange::Done);
        assert_eq!(step.action, Action::Finish);
        assert_eq!(step.report, Report::Nothing);
    }
}
