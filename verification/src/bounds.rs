//! How far an operation can go: how many steps it takes, how long it waits, and
//! which registers it writes.

use vstd::prelude::*;

use crate::codec;
use crate::interface::Transfer;
use crate::protocol;
use crate::protocol::Calibration;
use crate::register::Register;
use crate::trace;
use crate::trace::{Event, Trace};
use crate::types::{Error, MagConfig, PowerMode, Sensor3DData};

verus! {

/// The time that a history waits, in microseconds.
pub open spec fn waited<X>(t: Seq<Event<X>>) -> nat
    decreases t.len(),
{
    if t.len() == 0 {
        0
    } else {
        waited(t.drop_last()) + match t.last() {
            Event::Pause(us) => us,
            Event::Access(_) => 0,
        }
    }
}

/// A write goes to one of `registers`; anything else does not write.
pub open spec fn writes_to<X>(event: Event<X>, registers: Set<u8>) -> bool {
    match event {
        Event::Access(Transfer::Write { bytes, .. }) => bytes.len() > 0 && registers.contains(
            bytes[0],
        ),
        Event::Access(Transfer::Read { .. }) => true,
        Event::Access(Transfer::Burst { .. }) => true,
        Event::Access(Transfer::Other) => false,
        Event::Pause(_) => true,
    }
}

/// The history has at most `steps` events, waits at most `us` microseconds, and
/// writes only to `registers`.
pub open spec fn within<X>(t: Seq<Event<X>>, steps: nat, us: nat, registers: Set<u8>) -> bool {
    &&& t.len() <= steps
    &&& waited(t) <= us
    &&& forall|i: int| 0 <= i < t.len() ==> writes_to(#[trigger] t[i], registers)
}

/// The registers that an initialization writes.
pub open spec fn init_registers() -> Set<u8> {
    set![Register::CMD, Register::OTP_CMD_REG, Register::PMU_CMD]
}

proof fn lemma_waited<X>(a: Seq<Event<X>>, b: Seq<Event<X>>)
    ensures
        waited(a + b) == waited(a) + waited(b),
    decreases b.len(),
{
    if b.len() == 0 {
        assert(a + b =~= a);
    } else {
        assert((a + b).drop_last() =~= a + b.drop_last());
        lemma_waited(a, b.drop_last());
    }
}

/// What two steps take is what each takes.
proof fn lemma_join<X>(
    a: Seq<Event<X>>,
    m: nat,
    x: nat,
    b: Seq<Event<X>>,
    n: nat,
    y: nat,
    registers: Set<u8>,
)
    requires
        within(a, m, x, registers),
        within(b, n, y, registers),
    ensures
        within(a + b, m + n, x + y, registers),
{
    lemma_waited(a, b);
    assert forall|i: int| 0 <= i < (a + b).len() implies writes_to(
        #[trigger] (a + b)[i],
        registers,
    ) by {
        if i < a.len() {
            assert((a + b)[i] == a[i]);
        } else {
            assert((a + b)[i] == b[i - a.len()]);
        }
    }
}

proof fn lemma_widen<X>(t: Seq<Event<X>>, n: nat, us: nat, few: Set<u8>, many: Set<u8>)
    requires
        within(t, n, us, few),
        few.subset_of(many),
    ensures
        within(t, n, us, many),
{
}

/// The time of a short history.
proof fn lemma_short<X>(t: Seq<Event<X>>)
    requires
        t.len() <= 4,
    ensures
        waited(t) == (if t.len() > 0 {
            pause_of(t[0])
        } else {
            0
        }) + (if t.len() > 1 {
            pause_of(t[1])
        } else {
            0
        }) + (if t.len() > 2 {
            pause_of(t[2])
        } else {
            0
        }) + (if t.len() > 3 {
            pause_of(t[3])
        } else {
            0
        }),
{
    reveal_with_fuel(waited, 5);
}

/// The time that one event waits.
spec fn pause_of<X>(event: Event<X>) -> nat {
    match event {
        Event::Pause(us) => us,
        Event::Access(_) => 0,
    }
}

/// The longest that a mode takes to settle, in microseconds.
pub open spec fn settle_max(mode: PowerMode) -> nat {
    match mode {
        PowerMode::Normal => 38_000,
        PowerMode::Forced => 28_000,
        PowerMode::ForcedFast => 16_000,
        _ => 0,
    }
}

proof fn lemma_mode<E>(mode: PowerMode, t: Trace<E>, r: Result<(), Error<E>>)
    requires
        protocol::mode_run(mode, t, r),
    ensures
        within(t, 3, settle_max(mode), set![Register::PMU_CMD]),
{
    lemma_short(t);
}

/// [`set_power_mode`](crate::device::Bmm350::set_power_mode) writes only the
/// power management command, and waits for the suspension and the mode.
pub proof fn set_power_mode_within<E>(mode: PowerMode, t: Trace<E>, r: Result<(), Error<E>>)
    requires
        protocol::switch_run(mode, t, r),
    ensures
        within(t, 6, 6_000 + settle_max(mode), set![Register::PMU_CMD]),
{
    if t.len() <= 2 {
        lemma_short(t);
    }
    if !(r is Err && t == seq![trace::read::<E>(Register::PMU_CMD, Err(r->Err_0))]) {
        let last = choose|last: u8| #[trigger] protocol::switch_from_run(last, mode, t, r);
        let lead = protocol::mode_prelude::<E>(last);
        if last <= Register::PMU_CMD_NM_TC && !(protocol::must_suspend(last) && r is Err && t
            == seq![
            trace::read::<E>(Register::PMU_CMD, Ok(last)),
            trace::wrote::<E>(Register::PMU_CMD, Register::PMU_CMD_SUS, Err(r->Err_0)),
        ]) {
            let tail = choose|tail: Trace<E>|
                t == lead + tail && #[trigger] protocol::mode_run(mode, tail, r);
            lemma_short(lead);
            lemma_mode(mode, tail, r);
            lemma_join(lead, 3, 6_000, tail, 3, settle_max(mode), set![Register::PMU_CMD]);
        }
    }
}

proof fn lemma_enter<E>(t: Trace<E>, r: Result<bool, Error<E>>)
    requires
        protocol::enter_run(t, r),
    ensures
        within(t, 7, 6_000, set![Register::PMU_CMD]),
{
    if t.len() <= 1 {
        lemma_short(t);
    }
    if !(r is Err && t == seq![trace::read::<E>(Register::PMU_CMD_STATUS_0, Err(r->Err_0))]) {
        let status = choose|status: u8| #[trigger] protocol::enter_from_run(status, t, r);
        if codec::bit(status, 3) == 1 {
            let first = seq![trace::read::<E>(Register::PMU_CMD_STATUS_0, Ok(status))];
            let tail = choose|tail: Trace<E>|
                t == first + tail && #[trigger] protocol::suspend_run(tail, r);
            let rs = match r {
                Ok(_) => Ok(()),
                Err(e) => Err(e),
            };
            lemma_short(first);
            set_power_mode_within(PowerMode::Suspend, tail, rs);
            lemma_join(first, 1, 0, tail, 6, 6_000, set![Register::PMU_CMD]);
        }
    }
}

proof fn lemma_pulse<E>(
    command: PowerMode,
    us: nat,
    confirmation: u8,
    t: Trace<E>,
    r: Result<(), Error<E>>,
)
    requires
        protocol::pulse_run(command, us, confirmation, t, r),
    ensures
        within(t, 3, us, set![Register::PMU_CMD]),
{
    lemma_short(t);
}

proof fn lemma_after_bit_reset<E>(normal: bool, t: Trace<E>, r: Result<(), Error<E>>)
    requires
        protocol::after_bit_reset_run(normal, t, r),
    ensures
        within(t, 9, 62_000, set![Register::PMU_CMD]),
{
    let (command, us, ok) = (
        PowerMode::FluxGuideReset,
        18_000nat,
        Register::PMU_CMD_STATUS_0_FGR,
    );
    if r is Err && protocol::flux_guide_reset_run(t, r) {
        lemma_pulse(command, us, ok, t, r);
    } else {
        let (a, b) = choose|a: Trace<E>, b: Trace<E>|
            t == a + b && #[trigger] protocol::flux_guide_reset_run(a, Ok(()))
                && #[trigger] protocol::restore_run(normal, b, r);
        lemma_pulse::<E>(command, us, ok, a, Ok(()));
        if normal {
            set_power_mode_within(PowerMode::Normal, b, r);
        }
        lemma_join(a, 3, us, b, 6, 44_000, set![Register::PMU_CMD]);
    }
}

/// [`magnetic_reset`](crate::device::Bmm350::magnetic_reset) writes only the
/// power management command, and waits for 82 ms at most.
pub proof fn magnetic_reset_within<E>(t: Trace<E>, r: Result<(), Error<E>>)
    requires
        protocol::reset_run(t, r),
    ensures
        within(t, 19, 82_000, set![Register::PMU_CMD]),
{
    let (command, us, ok) = (PowerMode::BitReset, 14_000nat, Register::PMU_CMD_STATUS_0_BR);
    let registers = set![Register::PMU_CMD];
    if r is Err && protocol::enter_run::<E>(t, Err(r->Err_0)) {
        lemma_enter::<E>(t, Err(r->Err_0));
    } else {
        let (normal, a, b) = choose|normal: bool, a: Trace<E>, b: Trace<E>|
            t == a + b && #[trigger] protocol::enter_run(a, Ok(normal))
                && #[trigger] protocol::after_enter_run(normal, b, r);
        lemma_enter::<E>(a, Ok(normal));
        if r is Err && protocol::bit_reset_run(b, r) {
            lemma_pulse(command, us, ok, b, r);
        } else {
            let (c, d) = choose|c: Trace<E>, d: Trace<E>|
                b == c + d && #[trigger] protocol::bit_reset_run(c, Ok(()))
                    && #[trigger] protocol::after_bit_reset_run(normal, d, r);
            lemma_pulse::<E>(command, us, ok, c, Ok(()));
            lemma_after_bit_reset(normal, d, r);
            lemma_join(c, 3, us, d, 9, 62_000, registers);
        }
        lemma_join(a, 7, 6_000, b, 12, 76_000, registers);
    }
}

proof fn lemma_otp_polls<E>(statuses: Seq<u8>)
    ensures
        within(
            protocol::otp_polls::<E>(statuses),
            2 * statuses.len(),
            300 * statuses.len(),
            Set::<u8>::empty(),
        ),
    decreases statuses.len(),
{
    if statuses.len() > 0 {
        let less = statuses.drop_last();
        let last = seq![
            trace::paused::<E>(300),
            trace::read::<E>(Register::OTP_STATUS_REG, Ok(statuses.last())),
        ];
        lemma_otp_polls::<E>(less);
        lemma_short(last);
        lemma_join(
            protocol::otp_polls::<E>(less),
            2 * less.len(),
            300 * less.len(),
            last,
            2,
            300,
            Set::empty(),
        );
    }
}

/// A wait for the memory reads its status ten times at most, and takes 3 ms at
/// most.
pub proof fn otp_wait_within<E>(t: Trace<E>, r: Result<(), Error<E>>)
    requires
        protocol::otp_wait_run(t, r),
    ensures
        within(t, 20, 3_000, Set::<u8>::empty()),
{
    let statuses = choose|statuses: Seq<u8>| #[trigger] protocol::otp_waited(statuses, t, r);
    let polls = protocol::otp_polls::<E>(statuses);
    lemma_otp_polls::<E>(statuses);
    if r is Err {
        let last = seq![
            trace::paused::<E>(300),
            trace::read::<E>(Register::OTP_STATUS_REG, Err(r->Err_0)),
        ];
        lemma_short(last);
        lemma_join(polls, 18, 2_700, last, 2, 300, Set::empty());
    }
}

proof fn lemma_otp_word<E>(addr: u8, t: Trace<E>, r: Result<u16, Error<E>>)
    requires
        protocol::otp_word_run(addr, t, r),
    ensures
        within(t, 23, 3_000, set![Register::OTP_CMD_REG]),
{
    let registers = set![Register::OTP_CMD_REG];
    let command = codec::otp_read_command(addr);
    if t.len() <= 1 {
        lemma_short(t);
    }
    if !(r is Err && t == seq![
        trace::wrote::<E>(Register::OTP_CMD_REG, command, Err(r->Err_0)),
    ]) {
        let first = seq![trace::wrote::<E>(Register::OTP_CMD_REG, command, Ok(()))];
        let tail = choose|tail: Trace<E>|
            t == first + tail && #[trigger] protocol::otp_fetch_run(tail, r);
        lemma_short(first);
        if r is Err && protocol::otp_wait_run::<E>(tail, Err(r->Err_0)) {
            otp_wait_within::<E>(tail, Err(r->Err_0));
        } else {
            let (a, b) = choose|a: Trace<E>, b: Trace<E>|
                tail == a + b && #[trigger] protocol::otp_wait_run(a, Ok(()))
                    && #[trigger] protocol::otp_data_run(b, r);
            otp_wait_within::<E>(a, Ok(()));
            lemma_short(b);
            lemma_join(a, 20, 3_000, b, 2, 0, Set::empty());
        }
        lemma_widen(tail, 22, 3_000, Set::empty(), registers);
        lemma_join(first, 1, 0, tail, 22, 3_000, registers);
    }
}

proof fn lemma_otp_words<E>(words: Seq<u16>, t: Trace<E>)
    requires
        protocol::otp_words_run(words, t),
    ensures
        within(t, 23 * words.len(), 3_000 * words.len(), set![Register::OTP_CMD_REG]),
    decreases words.len(),
{
    if words.len() > 0 {
        let less = words.drop_last();
        let (a, b) = choose|a: Trace<E>, b: Trace<E>|
            t == #[trigger] (a + b) && protocol::otp_words_run(less, a) && protocol::otp_word_run(
                (words.len() - 1) as u8,
                b,
                Ok(words.last()),
            );
        lemma_otp_words(less, a);
        lemma_otp_word((words.len() - 1) as u8, b, Ok(words.last()));
        lemma_join(
            a,
            23 * less.len(),
            3_000 * less.len(),
            b,
            23,
            3_000,
            set![Register::OTP_CMD_REG],
        );
    }
}

proof fn lemma_otp_dump<E>(t: Trace<E>, r: Result<Seq<u16>, Error<E>>)
    requires
        protocol::otp_dump_run(t, r),
    ensures
        within(t, 736, 96_000, set![Register::OTP_CMD_REG]),
{
    match r {
        Ok(words) => lemma_otp_words(words, t),
        Err(e) => {
            let (words, a, b) = choose|words: Seq<u16>, a: Trace<E>, b: Trace<E>|
                t == a + b && words.len() < codec::OTP_WORDS
                    && #[trigger] protocol::otp_words_run(words, a)
                    && #[trigger] protocol::otp_word_run(words.len() as u8, b, Err(e));
            lemma_otp_words(words, a);
            lemma_otp_word(words.len() as u8, b, Err(e));
            lemma_join(a, 713, 93_000, b, 23, 3_000, set![Register::OTP_CMD_REG]);
        },
    }
}

/// [`init`](crate::device::Bmm350::init) writes only the device command, the
/// memory command and the power management command, and waits for 205 ms at
/// most.
pub proof fn init_within<E>(
    before: Calibration,
    after: Calibration,
    t: Trace<E>,
    r: Result<(), Error<E>>,
)
    requires
        protocol::init_run(before, after, t, r),
    ensures
        within(t, 760, 205_000, init_registers()),
{
    let registers = init_registers();
    let hello = protocol::greeting::<E>(Ok(Register::BMM350_CHIP_ID));
    lemma_short(hello);
    if t.len() <= 4 {
        lemma_short(t);
    }
    if exists|tail: Trace<E>|
        t == hello + tail && #[trigger] protocol::setup_run(before, after, tail, r) {
        let tail = choose|tail: Trace<E>|
            t == hello + tail && #[trigger] protocol::setup_run(before, after, tail, r);
        if r is Err && protocol::boot_run(before, after, tail, r) {
            lemma_otp_dump::<E>(tail, Err(r->Err_0));
            lemma_widen(tail, 736, 96_000, set![Register::OTP_CMD_REG], registers);
        } else {
            let (a, b) = choose|a: Trace<E>, b: Trace<E>|
                tail == a + b && #[trigger] protocol::boot_run(before, after, a, Ok(()))
                    && #[trigger] protocol::after_boot_run(b, r);
            let words = choose|words: Seq<u16>| #[trigger]
                protocol::otp_dump_run::<E>(a, Ok(words)) && after == protocol::calibration_of(
                    words,
                );
            lemma_otp_dump::<E>(a, Ok(words));
            lemma_widen(a, 736, 96_000, set![Register::OTP_CMD_REG], registers);
            lemma_after_boot(b, r);
            lemma_join(a, 736, 96_000, b, 20, 82_000, registers);
        }
        lemma_join(hello, 4, 27_000, tail, 756, 178_000, registers);
    }
}

proof fn lemma_after_boot<E>(t: Trace<E>, r: Result<(), Error<E>>)
    requires
        protocol::after_boot_run(t, r),
    ensures
        within(t, 20, 82_000, init_registers()),
{
    let off = Register::OTP_CMD_PWR_OFF_OTP;
    if t.len() <= 1 {
        lemma_short(t);
    }
    if !(r is Err && t == seq![trace::wrote::<E>(Register::OTP_CMD_REG, off, Err(r->Err_0))]) {
        let first = seq![trace::wrote::<E>(Register::OTP_CMD_REG, off, Ok(()))];
        let tail = choose|tail: Trace<E>|
            t == first + tail && #[trigger] protocol::reset_run(tail, r);
        lemma_short(first);
        magnetic_reset_within(tail, r);
        lemma_widen(tail, 19, 82_000, set![Register::PMU_CMD], init_registers());
        lemma_join(first, 1, 0, tail, 19, 82_000, init_registers());
    }
}

proof fn lemma_ready_polls<E>(statuses: Seq<u8>)
    ensures
        within(
            protocol::ready_polls::<E>(statuses),
            2 * statuses.len(),
            1_000 * statuses.len(),
            Set::<u8>::empty(),
        ),
        waited(protocol::ready_polls::<E>(statuses)) == 1_000 * statuses.len(),
    decreases statuses.len(),
{
    if statuses.len() > 0 {
        let less = statuses.drop_last();
        let last = seq![
            trace::read::<E>(Register::STATUS, Ok(statuses.last())),
            trace::paused::<E>(1_000),
        ];
        lemma_ready_polls::<E>(less);
        lemma_short(last);
        lemma_waited(protocol::ready_polls::<E>(less), last);
        lemma_join(
            protocol::ready_polls::<E>(less),
            2 * less.len(),
            1_000 * less.len(),
            last,
            2,
            1_000,
            Set::empty(),
        );
    }
}

/// A wait for data takes 100 ms at most, and it takes 100 ms exactly before the
/// driver gives up.
pub proof fn ready_wait_within<E>(t: Trace<E>, r: Result<(), Error<E>>)
    requires
        protocol::ready_run(t, r),
    ensures
        within(t, 200, 100_000, Set::<u8>::empty()),
        r is Err && (t.len() == 0 || trace::fault(t.last()) is None) ==> waited(t) == 100_000,
{
    let statuses = choose|statuses: Seq<u8>| #[trigger] protocol::ready_waited(statuses, t, r);
    let polls = protocol::ready_polls::<E>(statuses);
    lemma_ready_polls::<E>(statuses);
    if t != polls {
        let rest = t.skip(polls.len() as int);
        assert(t =~= polls + rest);
        lemma_short(rest);
        lemma_join(polls, 198, 99_000, rest, 1, 0, Set::empty());
    }
}

/// [`set_mag_config`](crate::device::Bmm350::set_mag_config) writes from the
/// data rate and averaging register on, and waits for 100 ms at most.
pub proof fn set_mag_config_within<E>(config: MagConfig, t: Trace<E>, r: Result<(), Error<E>>)
    requires
        protocol::config_run(config, t, r),
    ensures
        within(t, 201, 100_000, set![Register::PMU_CMD_AGGR_SET]),
{
    let registers = set![Register::PMU_CMD_AGGR_SET];
    let bits = config.spec_bits();
    if t.len() <= 1 {
        lemma_short(t);
    }
    if !(r is Err && t == seq![
        trace::wrote_word::<E>(Register::PMU_CMD_AGGR_SET, bits, Err(r->Err_0)),
    ]) {
        let first = seq![trace::wrote_word::<E>(Register::PMU_CMD_AGGR_SET, bits, Ok(()))];
        let tail = choose|tail: Trace<E>|
            t == first + tail && #[trigger] protocol::ready_run(tail, r);
        lemma_short(first);
        ready_wait_within(tail, r);
        lemma_widen(tail, 200, 100_000, Set::empty(), registers);
        lemma_join(first, 1, 0, tail, 200, 100_000, registers);
    }
}

/// [`get_interrupt_status`](crate::device::Bmm350::get_interrupt_status) writes
/// nothing and does not wait.
pub proof fn get_interrupt_status_within<E>(t: Trace<E>, r: Result<bool, Error<E>>)
    requires
        protocol::interrupt_status_run(t, r),
    ensures
        within(t, 1, 0, Set::<u8>::empty()),
{
    lemma_short(t);
}

/// [`read_mag_data`](crate::device::Bmm350::read_mag_data) writes nothing and
/// does not wait.
pub proof fn read_mag_data_within<E>(t: Trace<E>, r: Result<Sensor3DData, Error<E>>)
    requires
        protocol::sample_run(t, r),
    ensures
        within(t, 1, 0, Set::<u8>::empty()),
{
    lemma_short(t);
}

/// [`enable_interrupt`](crate::device::Bmm350::enable_interrupt) and
/// [`configure_interrupt`](crate::device::Bmm350::configure_interrupt) write
/// only the interrupt control register and do not wait.
pub proof fn interrupt_control_within<E>(value: u8, t: Trace<E>, r: Result<(), Error<E>>)
    requires
        protocol::interrupt_control_run(value, t, r),
    ensures
        within(t, 2, 0, set![Register::INT_CTRL]),
{
    lemma_short(t);
}

/// [`enable_axes`](crate::device::Bmm350::enable_axes) and
/// [`set_i2c_watchdog`](crate::device::Bmm350::set_i2c_watchdog) write only
/// their register and do not wait.
pub proof fn write_within<E>(register: u8, value: u8, t: Trace<E>, r: Result<(), Error<E>>)
    requires
        protocol::write_run(register, value, t, r),
    ensures
        within(t, 1, 0, set![register]),
{
    lemma_short(t);
}

/// [`set_odr_performance`](crate::device::Bmm350::set_odr_performance) writes
/// only the data rate and averaging register and the power management command,
/// and waits for 1 ms at most.
pub proof fn set_odr_performance_within<E>(value: u8, t: Trace<E>, r: Result<(), Error<E>>)
    requires
        protocol::rate_run(value, t, r),
    ensures
        within(t, 3, 1_000, set![Register::PMU_CMD_AGGR_SET, Register::PMU_CMD]),
{
    lemma_short(t);
}

/// A self-test writes only the power management command and from the data rate
/// and averaging register on, and waits for 144 ms at most.
pub proof fn self_test_within<E>(t: Trace<E>, r: Result<bool, Error<E>>)
    requires
        protocol::self_test_run(t, r),
    ensures
        within(t, 211, 144_000, set![Register::PMU_CMD_AGGR_SET, Register::PMU_CMD]),
{
    let registers = set![Register::PMU_CMD_AGGR_SET, Register::PMU_CMD];
    let config = protocol::self_test_config();
    if t.len() <= 2 {
        lemma_short(t);
    }
    if exists|power: u8, odr: u8, tail: Trace<E>|
        t == seq![
            trace::read::<E>(Register::PMU_CMD, Ok(power)),
            trace::read::<E>(Register::PMU_CMD_AGGR_SET, Ok(odr)),
        ] + tail && #[trigger] protocol::self_test_mode_run(power, odr, tail, r) {
        let (power, odr, tail) = choose|power: u8, odr: u8, tail: Trace<E>|
            t == seq![
                trace::read::<E>(Register::PMU_CMD, Ok(power)),
                trace::read::<E>(Register::PMU_CMD_AGGR_SET, Ok(odr)),
            ] + tail && #[trigger] protocol::self_test_mode_run(power, odr, tail, r);
        let first = seq![
            trace::read::<E>(Register::PMU_CMD, Ok(power)),
            trace::read::<E>(Register::PMU_CMD_AGGR_SET, Ok(odr)),
        ];
        lemma_short(first);
        if r is Err && protocol::switch_run::<E>(PowerMode::Normal, tail, Err(r->Err_0)) {
            set_power_mode_within::<E>(PowerMode::Normal, tail, Err(r->Err_0));
            lemma_widen(tail, 6, 44_000, set![Register::PMU_CMD], registers);
        } else {
            let (a, b) = choose|a: Trace<E>, b: Trace<E>|
                tail == a + b && #[trigger] protocol::switch_run(PowerMode::Normal, a, Ok(()))
                    && #[trigger] protocol::self_test_config_run(power, odr, b, r);
            set_power_mode_within::<E>(PowerMode::Normal, a, Ok(()));
            lemma_widen(a, 6, 44_000, set![Register::PMU_CMD], registers);
            if r is Err && protocol::config_run::<E>(config, b, Err(r->Err_0)) {
                set_mag_config_within::<E>(config, b, Err(r->Err_0));
                lemma_widen(b, 201, 100_000, set![Register::PMU_CMD_AGGR_SET], registers);
            } else {
                let (c, d) = choose|c: Trace<E>, d: Trace<E>|
                    b == c + d && #[trigger] protocol::config_run(config, c, Ok(()))
                        && #[trigger] protocol::self_test_restore_run(power, odr, d, r);
                set_mag_config_within::<E>(config, c, Ok(()));
                lemma_widen(c, 201, 100_000, set![Register::PMU_CMD_AGGR_SET], registers);
                lemma_short(d);
                lemma_join(c, 201, 100_000, d, 2, 0, registers);
            }
            lemma_join(a, 6, 44_000, b, 203, 100_000, registers);
        }
        lemma_join(first, 2, 0, tail, 209, 144_000, registers);
    }
}

} // verus!
