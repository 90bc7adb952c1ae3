//! The decisions taken around the outside work: the socket exchange that
//! delivers one report, and the start-up and collection cycle of the device.
//! Each is a step function from the current state and the result of the last
//! outside call to the next state, the next outside call and what to log.

use vstd::prelude::*;

verus! {

/// Where the exchange that delivers one report stands.
#[derive(Clone, Copy, Debug, PartialEq, Eq)]
pub enum Exchange {
    /// Waiting for the result of the TCP connect.
    Connecting,
    /// Waiting for the result of sending the request on socket `fd`.
    Sending { fd: i32 },
    /// Waiting for the result of receiving the answer on socket `fd`.
    Receiving { fd: i32 },
    /// Waiting for the socket to be closed.
    Closing,
    /// The exchange is over.
    Done,
}

/// The outside call to make next.
#[derive(Clone, Copy, Debug, PartialEq, Eq)]
pub enum Action {
    /// Open a TCP connection to the server.
    Connect,
    /// Send the request on socket `fd`.
    Send { fd: i32 },
    /// Receive at most `capacity` bytes of answer on socket `fd`.
    Receive { fd: i32, capacity: u32 },
    /// Close socket `fd`.
    Close { fd: i32 },
    /// Nothing more to do.
    Finish,
}

/// What to log about the last outside call.
#[derive(Clone, Copy, Debug, PartialEq, Eq)]
pub enum Report {
    ConnectFailed,
    Connected,
    RequestSent,
    SendFailed,
    AckReceived,
    NoAck,
    SocketClosed,
    Nothing,
}

/// One step of the exchange.
#[derive(Clone, Copy, Debug, PartialEq, Eq)]
pub struct Step {
    pub next: Exchange,
    pub action: Action,
    pub report: Report,
}

/// How many bytes of answer are asked for: the receive buffer less one byte.
pub const RECEIVE_CAPACITY: u32 = 255;

/// The step taken in `state` when the last outside call returned `result`
/// (a socket or an error for the connect, a byte count for send and receive;
/// the result of closing is not looked at).
pub open spec fn exchange_next(state: Exchange, result: i32) -> Step {
    match state {
        Exchange::Connecting => if result < 0 {
            Step { next: Exchange::Done, action: Action::Finish, report: Report::ConnectFailed }
        } else {
            Step {
                next: Exchange::Sending { fd: result },
                action: Action::Send { fd: result },
                report: Report::Connected,
            }
        },
        Exchange::Sending { fd } => if result > 0 {
            Step {
                next: Exchange::Receiving { fd },
                action: Action::Receive { fd, capacity: RECEIVE_CAPACITY },
                report: Report::RequestSent,
            }
        } else {
            Step { next: Exchange::Closing, action: Action::Close { fd }, report: Report::SendFailed }
        },
        Exchange::Receiving { fd } => Step {
            next: Exchange::Closing,
            action: Action::Close { fd },
            report: if result > 0 { Report::AckReceived } else { Report::NoAck },
        },
        Exchange::Closing => Step {
            next: Exchange::Done,
            action: Action::Finish,
            report: Report::SocketClosed,
        },
        Exchange::Done => Step { next: Exchange::Done, action: Action::Finish, report: Report::Nothing },
    }
}

/// The state an exchange starts in, and the first outside call it makes.
pub fn exchange_start() -> (start: (Exchange, Action))
    ensures
        start == (Exchange::Connecting, Action::Connect),
{
    (Exchange::Connecting, Action::Connect)
}

/// The step taken in `state` when the last outside call returned `result`.
pub fn exchange_step(state: Exchange, result: i32) -> (step: Step)
    ensures
        step == exchange_next(state, result),
{
    match state {
        Exchange::Connecting => {
            if result < 0 {
                Step { next: Exchange::Done, action: Action::Finish, report: Report::ConnectFailed }
            } else {
                Step {
                    next: Exchange::Sending { fd: result },
                    action: Action::Send { fd: result },
                    report: Report::Connected,
                }
            }
        },
        Exchange::Sending { fd } => {
            if result > 0 {
                Step {
                    next: Exchange::Receiving { fd },
                    action: Action::Receive { fd, capacity: RECEIVE_CAPACITY },
                    report: Report::RequestSent,
                }
            } else {
                Step { next: Exchange::Closing, action: Action::Close { fd }, report: Report::SendFailed }
            }
        },
        Exchange::Receiving { fd } => {
            let report = if result > 0 { Report::AckReceived } else { Report::NoAck };
            Step { next: Exchange::Closing, action: Action::Close { fd }, report }
        },
        Exchange::Closing => Step {
            next: Exchange::Done,
            action: Action::Finish,
            report: Report::SocketClosed,
        },
        Exchange::Done => Step { next: Exchange::Done, action: Action::Finish, report: Report::Nothing },
    }
}

/// The state reached from `state` after the outside calls returned `results`, in order.
pub open spec fn exchange_after(state: Exchange, results: Seq<i32>) -> Exchange
    decreases results.len(),
{
    if results.len() == 0 {
        state
    } else {
        exchange_after(exchange_next(state, results[0]).next, results.drop_first())
    }
}

/// The outside calls made from `state` while the calls returned `results`, in order.
pub open spec fn exchange_actions(state: Exchange, results: Seq<i32>) -> Seq<Action>
    decreases results.len(),
{
    if results.len() == 0 {
        Seq::empty()
    } else {
        let step = exchange_next(state, results[0]);
        seq![step.action] + exchange_actions(step.next, results.drop_first())
    }
}

/// An exchange is over after at most four outside results, whatever they are.
/// A failed connect makes no other call; a socket that was opened is used for
/// the request, for the answer only if the request went out, and closed
/// exactly once, as the last call.
pub proof fn lemma_exchange_outcomes(r0: i32, r1: i32, r2: i32, r3: i32)
    ensures
        exchange_after(Exchange::Connecting, seq![r0, r1, r2, r3]) == Exchange::Done,
        r0 < 0 ==> exchange_actions(Exchange::Connecting, seq![r0, r1, r2, r3]) == seq![
            Action::Finish,
            Action::Finish,
            Action::Finish,
            Action::Finish,
        ],
        r0 >= 0 && r1 > 0 ==> exchange_actions(Exchange::Connecting, seq![r0, r1, r2, r3]) == seq![
            Action::Send { fd: r0 },
            Action::Receive { fd: r0, capacity: RECEIVE_CAPACITY },
            Action::Close { fd: r0 },
            Action::Finish,
        ],
        r0 >= 0 && r1 <= 0 ==> exchange_actions(Exchange::Connecting, seq![r0, r1, r2, r3]) == seq![
            Action::Send { fd: r0 },
            Action::Close { fd: r0 },
            Action::Finish,
            Action::Finish,
        ],
{
    let rs = seq![r0, r1, r2, r3];
    reveal_with_fuel(exchange_after, 5);
    reveal_with_fuel(exchange_actions, 5);
    assert(rs.drop_first() =~= seq![r1, r2, r3]);
    assert(seq![r1, r2, r3].drop_first() =~= seq![r2, r3]);
    assert(seq![r2, r3].drop_first() =~= seq![r3]);
    assert(seq![r3].drop_first() =~= Seq::<i32>::empty());
    assert(exchange_actions(Exchange::Connecting, rs) =~= seq![
        exchange_next(Exchange::Connecting, r0).action,
        exchange_next(exchange_next(Exchange::Connecting, r0).next, r1).action,
        exchange_next(exchange_next(exchange_next(Exchange::Connecting, r0).next, r1).next, r2).action,
        exchange_next(
            exchange_next(exchange_next(exchange_next(Exchange::Connecting, r0).next, r1).next, r2).next,
            r3,
        ).action,
    ]);
}

/// Once over, an exchange stays over and makes no more calls.
pub proof fn lemma_exchange_done_is_final(results: Seq<i32>)
    ensures
        exchange_after(Exchange::Done, results) == Exchange::Done,
        forall|i: int| 0 <= i < results.len() ==> #[trigger] exchange_actions(Exchange::Done, results)[i] == Action::Finish,
        exchange_actions(Exchange::Done, results).len() == results.len(),
    decreases results.len(),
{
    if results.len() > 0 {
        lemma_exchange_done_is_final(results.drop_first());
        let rest = exchange_actions(Exchange::Done, results.drop_first());
        assert forall|i: int| 0 <= i < results.len() implies #[trigger] exchange_actions(Exchange::Done, results)[i] == Action::Finish by {
            if i > 0 {
                assert(exchange_actions(Exchange::Done, results)[i] == rest[i - 1]);
            }
        }
    }
}

/// Where the device stands between start-up and the collection cycles.
#[derive(Clone, Copy, Debug, PartialEq, Eq)]
pub enum Boot {
    /// Waiting for the result of joining the Wi-Fi network.
    JoiningWifi,
    /// Waiting for the network to be configured (DHCP).
    AwaitingNetwork,
    /// Collecting; `seq` is the sequence number of the cycle under way.
    Running { seq: u32 },
    /// Stopped for good after a start-up failure.
    Halted,
}

/// The outside work to do next.
#[derive(Clone, Copy, Debug, PartialEq, Eq)]
pub enum BootAction {
    /// Join the Wi-Fi network.
    JoinWifi,
    /// Wait for the network to be configured.
    WaitNetwork,
    /// Blink, collect and send the metrics under sequence number `seq`, then sleep.
    RunCycle { seq: u32 },
    /// Stop.
    Halt,
}

/// What to log about the last outside work.
#[derive(Clone, Copy, Debug, PartialEq, Eq)]
pub enum BootReport {
    WifiFailed,
    AwaitingAddress,
    DhcpTimeout,
    NetworkReady,
    Nothing,
}

/// One step of the start-up and collection cycle.
#[derive(Clone, Copy, Debug, PartialEq, Eq)]
pub struct BootStep {
    pub next: Boot,
    pub action: BootAction,
    pub report: BootReport,
}

/// The sequence number after `seq`; it wraps around after `u32::MAX`.
pub open spec fn next_seq(seq: u32) -> u32 {
    if seq == u32::MAX { 0 } else { (seq + 1) as u32 }
}

/// The step taken in `state` when the last outside work returned `result`
/// (zero for success when joining and configuring the network; not looked at
/// after a cycle).
pub open spec fn boot_next(state: Boot, result: i32) -> BootStep {
    match state {
        Boot::JoiningWifi => if result != 0 {
            BootStep { next: Boot::Halted, action: BootAction::Halt, report: BootReport::WifiFailed }
        } else {
            BootStep {
                next: Boot::AwaitingNetwork,
                action: BootAction::WaitNetwork,
                report: BootReport::AwaitingAddress,
            }
        },
        Boot::AwaitingNetwork => if result != 0 {
            BootStep { next: Boot::Halted, action: BootAction::Halt, report: BootReport::DhcpTimeout }
        } else {
            BootStep {
                next: Boot::Running { seq: 1 },
                action: BootAction::RunCycle { seq: 1 },
                report: BootReport::NetworkReady,
            }
        },
        Boot::Running { seq } => BootStep {
            next: Boot::Running { seq: next_seq(seq) },
            action: BootAction::RunCycle { seq: next_seq(seq) },
            report: BootReport::Nothing,
        },
        Boot::Halted => BootStep { next: Boot::Halted, action: BootAction::Halt, report: BootReport::Nothing },
    }
}

/// The state the device starts in, and the first outside work it does.
pub fn boot_start() -> (start: (Boot, BootAction))
    ensures
        start == (Boot::JoiningWifi, BootAction::JoinWifi),
{
    (Boot::JoiningWifi, BootAction::JoinWifi)
}

/// The step taken in `state` when the last outside work returned `result`.
pub fn boot_step(state: Boot, result: i32) -> (step: BootStep)
    ensures
        step == boot_next(state, result),
{
    match state {
        Boot::JoiningWifi => {
            if result != 0 {
                BootStep { next: Boot::Halted, action: BootAction::Halt, report: BootReport::WifiFailed }
            } else {
                BootStep {
                    next: Boot::AwaitingNetwork,
                    action: BootAction::WaitNetwork,
                    report: BootReport::AwaitingAddress,
                }
            }
        },
        Boot::AwaitingNetwork => {
            if result != 0 {
                BootStep { next: Boot::Halted, action: BootAction::Halt, report: BootReport::DhcpTimeout }
            } else {
                BootStep {
                    next: Boot::Running { seq: 1 },
                    action: BootAction::RunCycle { seq: 1 },
                    report: BootReport::NetworkReady,
                }
            }
        },
        Boot::Running { seq } => {
            let seq = seq.wrapping_add(1);
            BootStep {
                next: Boot::Running { seq },
                action: BootAction::RunCycle { seq },
                report: BootReport::Nothing,
            }
        },
        Boot::Halted => BootStep { next: Boot::Halted, action: BootAction::Halt, report: BootReport::Nothing },
    }
}

/// The state reached from `state` after the outside work returned `results`, in order.
pub open spec fn boot_after(state: Boot, results: Seq<i32>) -> Boot
    decreases results.len(),
{
    if results.len() == 0 {
        state
    } else {
        boot_after(boot_next(state, results[0]).next, results.drop_first())
    }
}

/// Once running, each cycle takes the next sequence number: after `n` more
/// cycles from sequence number `seq` the device runs cycle `seq + n`, modulo 2^32.
pub proof fn lemma_cycles_count_up(seq: u32, results: Seq<i32>)
    ensures
        boot_after((Boot::Running { seq }), results) == (Boot::Running {
            seq: ((seq + results.len()) % 0x1_0000_0000) as u32,
        }),
    decreases results.len(),
{
    if results.len() > 0 {
        lemma_cycles_count_up(next_seq(seq), results.drop_first());
        assert((next_seq(seq) + (results.len() - 1)) % 0x1_0000_0000 == (seq + results.len()) % 0x1_0000_0000);
    } else {
        assert((seq as int) % 0x1_0000_0000 == seq);
    }
}

/// After a successful start-up the first cycle is number 1, and the k-th is number k
/// (for k below 2^32); a failed start-up stops the device for good.
pub proof fn lemma_boot_outcomes(wifi: i32, dhcp: i32, results: Seq<i32>)
    ensures
        wifi != 0 ==> boot_after(Boot::JoiningWifi, seq![wifi, dhcp] + results) == Boot::Halted,
        wifi == 0 && dhcp != 0 ==> boot_after(Boot::JoiningWifi, seq![wifi, dhcp] + results) == Boot::Halted,
        wifi == 0 && dhcp == 0 && results.len() < 0xffff_ffff ==> boot_after(
            Boot::JoiningWifi,
            seq![wifi, dhcp] + results,
        ) == (Boot::Running { seq: (results.len() + 1) as u32 }),
{
    let all = seq![wifi, dhcp] + results;
    let rest = all.drop_first();
    assert(all[0] == wifi);
    assert(rest[0] == dhcp);
    assert(rest.drop_first() =~= results);
    assert(boot_after(Boot::JoiningWifi, all) == boot_after(boot_next(Boot::JoiningWifi, wifi).next, rest));
    if wifi != 0 {
        lemma_halted_is_final(rest);
    } else {
        assert(boot_after(Boot::AwaitingNetwork, rest) == boot_after(
            boot_next(Boot::AwaitingNetwork, dhcp).next,
            results,
        ));
        if dhcp != 0 {
            lemma_halted_is_final(results);
        } else {
            lemma_cycles_count_up(1, results);
        }
    }
}

/// A halted device stays halted.
pub proof fn lemma_halted_is_final(results: Seq<i32>)
    ensures
        boot_after(Boot::Halted, results) == Boot::Halted,
    decreases results.len(),
{
    if results.len() > 0 {
        lemma_halted_is_final(results.drop_first());
    }
}

/// Every step of the exchange acts on the socket it holds: a failed connect
/// ends it, a successful one sends on the new socket; the answer is asked for
/// on the socket the request went out on, which is then closed, and once over
/// nothing more is done.
pub proof fn lemma_exchange_step_acts_on_its_socket(state: Exchange, result: i32)
    ensures
        state == Exchange::Connecting && result < 0 ==> exchange_next(state, result).next
            == Exchange::Done && exchange_next(state, result).action == Action::Finish,
        state == Exchange::Connecting && result >= 0 ==> exchange_next(state, result).next == (
        Exchange::Sending { fd: result }),
        exchange_next(state, result).next matches Exchange::Sending { fd } ==> exchange_next(
            state,
            result,
        ).action == (Action::Send { fd }),
        exchange_next(state, result).next matches Exchange::Receiving { fd } ==> exchange_next(
            state,
            result,
        ).action == (Action::Receive { fd, capacity: 255 }),
        state matches Exchange::Sending { fd } ==> exchange_next(state, result).action == (
        Action::Receive { fd, capacity: 255 }) || exchange_next(state, result).action == (
        Action::Close { fd }),
        state matches Exchange::Receiving { fd } ==> exchange_next(state, result).action == (
        Action::Close { fd }),
        exchange_next(state, result).next == Exchange::Done ==> exchange_next(state, result).action
            == Action::Finish,
{
}

/// A step that halts does no more outside work; a failure to join the
/// network or to get an address halts; and the cycle that is run carries the
/// sequence number of the state it enters, one more than the last (wrapping
/// after `u32::MAX`), starting from 1.
pub proof fn lemma_boot_step_runs_what_it_enters(state: Boot, result: i32)
    ensures
        boot_next(state, result).next == Boot::Halted ==> boot_next(state, result).action
            == BootAction::Halt,
        boot_next(state, result).next matches Boot::Running { seq } ==> boot_next(
            state,
            result,
        ).action == (BootAction::RunCycle { seq }),
        state == Boot::JoiningWifi && result != 0 ==> boot_next(state, result).next == Boot::Halted,
        state == Boot::AwaitingNetwork && result != 0 ==> boot_next(state, result).next
            == Boot::Halted,
        state == Boot::AwaitingNetwork && result == 0 ==> boot_next(state, result).next == (
        Boot::Running { seq: 1 }),
        state matches Boot::Running { seq } ==> boot_next(state, result).next == (Boot::Running {
            seq: ((seq + 1) % 0x1_0000_0000) as u32,
        }),
{
}

} // verus!
