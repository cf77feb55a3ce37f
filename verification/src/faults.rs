//! A failed access ends an operation.
//!
//! For each operation: no access follows one that failed, its error is what the
//! operation returns, and an error that did not come from the last access is
//! one of the verdicts that the operation passes itself.

use vstd::prelude::*;

use crate::codec;
use crate::protocol;
use crate::protocol::Calibration;
use crate::register::Register;
use crate::trace;
use crate::trace::{Event, Trace};
use crate::types::{Error, MagConfig, PowerMode, Sensor3DData};

verus! {

/// The error of a result.
pub open spec fn error_of<T, X>(r: Result<T, X>) -> Option<X> {
    match r {
        Ok(_) => None,
        Err(e) => Some(e),
    }
}

/// The history `t` goes with the error `error` of a result: only its last
/// access can have failed, and then with that error; an error of any other
/// origin is among `verdicts`.
pub open spec fn ends<X>(t: Seq<Event<X>>, error: Option<X>, verdicts: Set<X>) -> bool {
    &&& forall|i: int| 0 <= i < t.len() - 1 ==> trace::fault(#[trigger] t[i]) is None
    &&& t.len() > 0 && trace::fault(t.last()) is Some ==> error == trace::fault(t.last())
    &&& error matches Some(e) ==> {
        ||| t.len() > 0 && trace::fault(t.last()) == Some(e)
        ||| verdicts.contains(e)
    }
}

/// The law carries over to two steps, the first of which succeeded.
proof fn lemma_join<X>(a: Seq<Event<X>>, b: Seq<Event<X>>, error: Option<X>, verdicts: Set<X>)
    requires
        ends(a, None, verdicts),
        ends(b, error, verdicts),
    ensures
        ends(a + b, error, verdicts),
{
    let t = a + b;
    assert forall|i: int| 0 <= i < t.len() - 1 implies trace::fault(#[trigger] t[i]) is None by {
        if i < a.len() {
            assert(t[i] == a[i]);
            if i == a.len() - 1 {
                assert(a[i] == a.last());
            }
        } else {
            assert(t[i] == b[i - a.len()]);
        }
    }
    if b.len() > 0 {
        assert(t.last() == b.last());
    } else {
        assert(t =~= a);
    }
}

/// More verdicts allow for more.
proof fn lemma_widen<X>(t: Seq<Event<X>>, error: Option<X>, few: Set<X>, many: Set<X>)
    requires
        ends(t, error, few),
        few.subset_of(many),
    ensures
        ends(t, error, many),
{
}

/// A change of mode is refused for a command that is not known.
pub open spec fn mode_verdicts<E>() -> Set<Error<E>> {
    set![Error::InvalidConfig]
}

/// A magnetic reset can also remain unconfirmed.
pub open spec fn reset_verdicts<E>() -> Set<Error<E>> {
    set![Error::InvalidConfig, Error::ResetUnfinished]
}

/// An initialization can also meet another device.
pub open spec fn init_verdicts<E>() -> Set<Error<E>> {
    set![Error::InvalidConfig, Error::ResetUnfinished, Error::InvalidDevice]
}

/// A configuration can see no data.
pub open spec fn config_verdicts<E>() -> Set<Error<E>> {
    set![Error::Timeout]
}

/// A self-test can meet what a change of mode and a configuration can.
pub open spec fn self_test_verdicts<E>() -> Set<Error<E>> {
    set![Error::InvalidConfig, Error::Timeout]
}

proof fn lemma_mode<E>(mode: PowerMode, t: Trace<E>, r: Result<(), Error<E>>)
    requires
        protocol::mode_run(mode, t, r),
    ensures
        ends(t, error_of(r), Set::<Error<E>>::empty()),
{
}

/// A failed access ends [`set_power_mode`](crate::device::Bmm350::set_power_mode).
pub proof fn set_power_mode_ends<E>(mode: PowerMode, t: Trace<E>, r: Result<(), Error<E>>)
    requires
        protocol::switch_run(mode, t, r),
    ensures
        ends(t, error_of(r), mode_verdicts()),
{
    if !(r is Err && t == seq![trace::read::<E>(Register::PMU_CMD, Err(r->Err_0))]) {
        let last = choose|last: u8| #[trigger] protocol::switch_from_run(last, mode, t, r);
        if last <= Register::PMU_CMD_NM_TC {
            if !(protocol::must_suspend(last) && r is Err && t == seq![
                trace::read::<E>(Register::PMU_CMD, Ok(last)),
                trace::wrote::<E>(Register::PMU_CMD, Register::PMU_CMD_SUS, Err(r->Err_0)),
            ]) {
                let tail = choose|tail: Trace<E>|
                    t == protocol::mode_prelude::<E>(last) + tail && #[trigger] protocol::mode_run(
                        mode,
                        tail,
                        r,
                    );
                lemma_mode(mode, tail, r);
                lemma_widen(tail, error_of(r), Set::empty(), mode_verdicts());
                lemma_join(protocol::mode_prelude::<E>(last), tail, error_of(r), mode_verdicts());
            }
        }
    }
}

proof fn lemma_enter<E>(t: Trace<E>, r: Result<bool, Error<E>>)
    requires
        protocol::enter_run(t, r),
    ensures
        ends(t, error_of(r), mode_verdicts()),
{
    if !(r is Err && t == seq![trace::read::<E>(Register::PMU_CMD_STATUS_0, Err(r->Err_0))]) {
        let status = choose|status: u8| #[trigger] protocol::enter_from_run(status, t, r);
        let first = seq![trace::read::<E>(Register::PMU_CMD_STATUS_0, Ok(status))];
        if codec::bit(status, 3) == 1 {
            let tail = choose|tail: Trace<E>|
                t == first + tail && #[trigger] protocol::suspend_run(tail, r);
            match r {
                Ok(_) => set_power_mode_ends::<E>(PowerMode::Suspend, tail, Ok(())),
                Err(e) => set_power_mode_ends::<E>(PowerMode::Suspend, tail, Err(e)),
            }
            lemma_join(first, tail, error_of(r), mode_verdicts());
        }
    }
}

proof fn lemma_pulse<E>(
    command: PowerMode,
    us: nat,
    confirmation: u8,
    t: Trace<E>,
    r: Result<(), Error<E>>,
)
    requires
        protocol::pulse_run(command, us, confirmation, t, r),
    ensures
        ends(t, error_of(r), reset_verdicts()),
{
}

proof fn lemma_after_bit_reset<E>(normal: bool, t: Trace<E>, r: Result<(), Error<E>>)
    requires
        protocol::after_bit_reset_run(normal, t, r),
    ensures
        ends(t, error_of(r), reset_verdicts()),
{
    if r is Err && protocol::flux_guide_reset_run(t, r) {
        lemma_pulse(
            PowerMode::FluxGuideReset,
            18_000,
            Register::PMU_CMD_STATUS_0_FGR,
            t,
            r,
        );
    } else {
        let (a, b) = choose|a: Trace<E>, b: Trace<E>|
            t == a + b && #[trigger] protocol::flux_guide_reset_run(a, Ok(()))
                && #[trigger] protocol::restore_run(normal, b, r);
        lemma_pulse::<E>(
            PowerMode::FluxGuideReset,
            18_000,
            Register::PMU_CMD_STATUS_0_FGR,
            a,
            Ok(()),
        );
        if normal {
            set_power_mode_ends(PowerMode::Normal, b, r);
            lemma_widen(b, error_of(r), mode_verdicts(), reset_verdicts());
        }
        lemma_join(a, b, error_of(r), reset_verdicts());
    }
}

/// A failed access ends [`magnetic_reset`](crate::device::Bmm350::magnetic_reset).
pub proof fn magnetic_reset_ends<E>(t: Trace<E>, r: Result<(), Error<E>>)
    requires
        protocol::reset_run(t, r),
    ensures
        ends(t, error_of(r), reset_verdicts()),
{
    if r is Err && protocol::enter_run::<E>(t, Err(r->Err_0)) {
        lemma_enter::<E>(t, Err(r->Err_0));
        lemma_widen(t, error_of(r), mode_verdicts(), reset_verdicts());
    } else {
        let (normal, a, b) = choose|normal: bool, a: Trace<E>, b: Trace<E>|
            t == a + b && #[trigger] protocol::enter_run(a, Ok(normal))
                && #[trigger] protocol::after_enter_run(normal, b, r);
        lemma_enter::<E>(a, Ok(normal));
        lemma_widen(a, None, mode_verdicts(), reset_verdicts());
        if r is Err && protocol::bit_reset_run(b, r) {
            lemma_pulse(PowerMode::BitReset, 14_000, Register::PMU_CMD_STATUS_0_BR, b, r);
        } else {
            let (c, d) = choose|c: Trace<E>, d: Trace<E>|
                b == c + d && #[trigger] protocol::bit_reset_run(c, Ok(()))
                    && #[trigger] protocol::after_bit_reset_run(normal, d, r);
            lemma_pulse::<E>(
                PowerMode::BitReset,
                14_000,
                Register::PMU_CMD_STATUS_0_BR,
                c,
                Ok(()),
            );
            lemma_after_bit_reset(normal, d, r);
            lemma_join(c, d, error_of(r), reset_verdicts());
        }
        lemma_join(a, b, error_of(r), reset_verdicts());
    }
}

proof fn lemma_otp_polls<E>(statuses: Seq<u8>)
    ensures
        ends(protocol::otp_polls::<E>(statuses), None, Set::<Error<E>>::empty()),
    decreases statuses.len(),
{
    if statuses.len() > 0 {
        lemma_otp_polls::<E>(statuses.drop_last());
        lemma_join(
            protocol::otp_polls::<E>(statuses.drop_last()),
            seq![
                trace::paused::<E>(300),
                trace::read::<E>(Register::OTP_STATUS_REG, Ok(statuses.last())),
            ],
            None,
            Set::empty(),
        );
    }
}

proof fn lemma_otp_word<E>(addr: u8, t: Trace<E>, r: Result<u16, Error<E>>)
    requires
        protocol::otp_word_run(addr, t, r),
    ensures
        ends(t, error_of(r), Set::<Error<E>>::empty()),
{
    let none = Set::<Error<E>>::empty();
    let command = codec::otp_read_command(addr);
    if !(r is Err && t == seq![trace::wrote::<E>(Register::OTP_CMD_REG, command, Err(r->Err_0))]) {
        let first = seq![trace::wrote::<E>(Register::OTP_CMD_REG, command, Ok(()))];
        let tail = choose|tail: Trace<E>|
            t == first + tail && #[trigger] protocol::otp_fetch_run(tail, r);
        if r is Err && protocol::otp_wait_run::<E>(tail, Err(r->Err_0)) {
            let e = r->Err_0;
            let statuses = choose|statuses: Seq<u8>| #[trigger]
                protocol::otp_waited::<E>(statuses, tail, Err(e));
            lemma_otp_polls::<E>(statuses);
            lemma_join(
                protocol::otp_polls::<E>(statuses),
                seq![
                    trace::paused::<E>(300),
                    trace::read::<E>(Register::OTP_STATUS_REG, Err(e)),
                ],
                Some(e),
                none,
            );
        } else {
            let (a, b) = choose|a: Trace<E>, b: Trace<E>|
                tail == a + b && #[trigger] protocol::otp_wait_run(a, Ok(()))
                    && #[trigger] protocol::otp_data_run(b, r);
            let statuses = choose|statuses: Seq<u8>| #[trigger]
                protocol::otp_waited::<E>(statuses, a, Ok(()));
            lemma_otp_polls::<E>(statuses);
            lemma_join(a, b, error_of(r), none);
        }
        lemma_join(first, tail, error_of(r), none);
    }
}

proof fn lemma_otp_words<E>(words: Seq<u16>, t: Trace<E>)
    requires
        protocol::otp_words_run(words, t),
    ensures
        ends(t, None, Set::<Error<E>>::empty()),
    decreases words.len(),
{
    if words.len() > 0 {
        let (a, b) = choose|a: Trace<E>, b: Trace<E>|
            t == #[trigger] (a + b) && protocol::otp_words_run(words.drop_last(), a)
                && protocol::otp_word_run((words.len() - 1) as u8, b, Ok(words.last()));
        lemma_otp_words(words.drop_last(), a);
        lemma_otp_word((words.len() - 1) as u8, b, Ok(words.last()));
        lemma_join(a, b, None, Set::empty());
    }
}

proof fn lemma_otp_dump<E>(t: Trace<E>, r: Result<Seq<u16>, Error<E>>)
    requires
        protocol::otp_dump_run(t, r),
    ensures
        ends(t, error_of(r), Set::<Error<E>>::empty()),
{
    match r {
        Ok(words) => lemma_otp_words(words, t),
        Err(e) => {
            let (words, a, b) = choose|words: Seq<u16>, a: Trace<E>, b: Trace<E>|
                t == a + b && words.len() < codec::OTP_WORDS && #[trigger] protocol::otp_words_run(
                    words,
                    a,
                ) && #[trigger] protocol::otp_word_run(words.len() as u8, b, Err(e));
            lemma_otp_words(words, a);
            lemma_otp_word::<E>(words.len() as u8, b, Err(e));
            lemma_join(a, b, Some(e), Set::empty());
        },
    }
}

/// A failed access ends [`init`](crate::device::Bmm350::init).
pub proof fn init_ends<E>(
    before: Calibration,
    after: Calibration,
    t: Trace<E>,
    r: Result<(), Error<E>>,
)
    requires
        protocol::init_run(before, after, t, r),
    ensures
        ends(t, error_of(r), init_verdicts()),
{
    let verdicts = init_verdicts::<E>();
    let hello = protocol::greeting::<E>(Ok(Register::BMM350_CHIP_ID));
    if exists|tail: Trace<E>|
        t == hello + tail && #[trigger] protocol::setup_run(before, after, tail, r) {
        let tail = choose|tail: Trace<E>|
            t == hello + tail && #[trigger] protocol::setup_run(before, after, tail, r);
        if r is Err && protocol::boot_run(before, after, tail, r) {
            lemma_otp_dump::<E>(tail, Err(r->Err_0));
            lemma_widen(tail, error_of(r), Set::empty(), verdicts);
        } else {
            let (a, b) = choose|a: Trace<E>, b: Trace<E>|
                tail == a + b && #[trigger] protocol::boot_run(before, after, a, Ok(()))
                    && #[trigger] protocol::after_boot_run(b, r);
            let words = choose|words: Seq<u16>| #[trigger]
                protocol::otp_dump_run::<E>(a, Ok(words)) && after == protocol::calibration_of(
                    words,
                );
            lemma_otp_dump::<E>(a, Ok(words));
            lemma_widen(a, None, Set::empty(), verdicts);
            let off = seq![
                trace::wrote::<E>(Register::OTP_CMD_REG, Register::OTP_CMD_PWR_OFF_OTP, Ok(())),
            ];
            if !(r is Err && b == seq![
                trace::wrote::<E>(
                    Register::OTP_CMD_REG,
                    Register::OTP_CMD_PWR_OFF_OTP,
                    Err(r->Err_0),
                ),
            ]) {
                let c = choose|c: Trace<E>| b == off + c && #[trigger] protocol::reset_run(c, r);
                magnetic_reset_ends(c, r);
                lemma_widen(c, error_of(r), reset_verdicts(), verdicts);
                lemma_join(off, c, error_of(r), verdicts);
            }
            lemma_join(a, b, error_of(r), verdicts);
        }
        lemma_join(hello, tail, error_of(r), verdicts);
    }
}

proof fn lemma_ready_polls<E>(statuses: Seq<u8>)
    ensures
        ends(protocol::ready_polls::<E>(statuses), None, Set::<Error<E>>::empty()),
    decreases statuses.len(),
{
    if statuses.len() > 0 {
        lemma_ready_polls::<E>(statuses.drop_last());
        lemma_join(
            protocol::ready_polls::<E>(statuses.drop_last()),
            seq![
                trace::read::<E>(Register::STATUS, Ok(statuses.last())),
                trace::paused::<E>(1_000),
            ],
            None,
            Set::empty(),
        );
    }
}

/// A failed access ends [`set_mag_config`](crate::device::Bmm350::set_mag_config).
pub proof fn set_mag_config_ends<E>(config: MagConfig, t: Trace<E>, r: Result<(), Error<E>>)
    requires
        protocol::config_run(config, t, r),
    ensures
        ends(t, error_of(r), config_verdicts()),
{
    let verdicts = config_verdicts::<E>();
    let bits = config.spec_bits();
    if !(r is Err && t == seq![
        trace::wrote_word::<E>(Register::PMU_CMD_AGGR_SET, bits, Err(r->Err_0)),
    ]) {
        let first = seq![trace::wrote_word::<E>(Register::PMU_CMD_AGGR_SET, bits, Ok(()))];
        let tail = choose|tail: Trace<E>|
            t == first + tail && #[trigger] protocol::ready_run(tail, r);
        let statuses = choose|statuses: Seq<u8>| #[trigger]
            protocol::ready_waited(statuses, tail, r);
        let polls = protocol::ready_polls::<E>(statuses);
        lemma_ready_polls::<E>(statuses);
        lemma_widen(polls, None, Set::empty(), verdicts);
        let rest = tail.skip(polls.len() as int);
        assert(tail =~= polls + rest);
        match r {
            Ok(_) => {
                let last = choose|last: u8|
                    codec::data_ready(last) && tail == polls + seq![
                        #[trigger] trace::read::<E>(Register::STATUS, Ok(last)),
                    ];
                assert(rest =~= seq![trace::read::<E>(Register::STATUS, Ok(last))]);
            },
            Err(e) => {
                if statuses.len() < protocol::READY_POLLS {
                    assert(rest =~= seq![trace::read::<E>(Register::STATUS, Err(e))]);
                }
            },
        }
        lemma_join(polls, rest, error_of(r), verdicts);
        lemma_join(first, tail, error_of(r), verdicts);
    }
}

/// A failed access ends
/// [`get_interrupt_status`](crate::device::Bmm350::get_interrupt_status).
pub proof fn get_interrupt_status_ends<E>(t: Trace<E>, r: Result<bool, Error<E>>)
    requires
        protocol::interrupt_status_run(t, r),
    ensures
        ends(t, error_of(r), Set::<Error<E>>::empty()),
{
}

/// A failed access ends the operations that write one byte:
/// [`enable_axes`](crate::device::Bmm350::enable_axes) and
/// [`set_i2c_watchdog`](crate::device::Bmm350::set_i2c_watchdog).
pub proof fn write_ends<E>(register: u8, value: u8, t: Trace<E>, r: Result<(), Error<E>>)
    requires
        protocol::write_run(register, value, t, r),
    ensures
        ends(t, error_of(r), Set::<Error<E>>::empty()),
{
}

/// A failed access ends the operations on the interrupt control register:
/// [`enable_interrupt`](crate::device::Bmm350::enable_interrupt) and
/// [`configure_interrupt`](crate::device::Bmm350::configure_interrupt).
pub proof fn interrupt_control_ends<E>(value: u8, t: Trace<E>, r: Result<(), Error<E>>)
    requires
        protocol::interrupt_control_run(value, t, r),
    ensures
        ends(t, error_of(r), Set::<Error<E>>::empty()),
{
}

/// A failed access ends
/// [`set_odr_performance`](crate::device::Bmm350::set_odr_performance).
pub proof fn set_odr_performance_ends<E>(value: u8, t: Trace<E>, r: Result<(), Error<E>>)
    requires
        protocol::rate_run(value, t, r),
    ensures
        ends(t, error_of(r), Set::<Error<E>>::empty()),
{
}

/// A failed access ends [`read_mag_data`](crate::device::Bmm350::read_mag_data).
pub proof fn read_mag_data_ends<E>(t: Trace<E>, r: Result<Sensor3DData, Error<E>>)
    requires
        protocol::sample_run(t, r),
    ensures
        ends(t, error_of(r), Set::<Error<E>>::empty()),
{
}

/// A failed access ends the self-test.
pub proof fn self_test_ends<E>(t: Trace<E>, r: Result<bool, Error<E>>)
    requires
        protocol::self_test_run(t, r),
    ensures
        ends(t, error_of(r), self_test_verdicts()),
{
    let verdicts = self_test_verdicts::<E>();
    if exists|power: u8, odr: u8, tail: Trace<E>|
        t == seq![
            trace::read::<E>(Register::PMU_CMD, Ok(power)),
            trace::read::<E>(Register::PMU_CMD_AGGR_SET, Ok(odr)),
        ] + tail && #[trigger] protocol::self_test_mode_run(power, odr, tail, r) {
        let (power, odr, tail) = choose|power: u8, odr: u8, tail: Trace<E>|
            t == seq![
                trace::read::<E>(Register::PMU_CMD, Ok(power)),
                trace::read::<E>(Register::PMU_CMD_AGGR_SET, Ok(odr)),
            ] + tail && #[trigger] protocol::self_test_mode_run(power, odr, tail, r);
        let first = seq![
            trace::read::<E>(Register::PMU_CMD, Ok(power)),
            trace::read::<E>(Register::PMU_CMD_AGGR_SET, Ok(odr)),
        ];
        if r is Err && protocol::switch_run::<E>(PowerMode::Normal, tail, Err(r->Err_0)) {
            set_power_mode_ends::<E>(PowerMode::Normal, tail, Err(r->Err_0));
            lemma_widen(tail, error_of(r), mode_verdicts(), verdicts);
        } else {
            let (a, b) = choose|a: Trace<E>, b: Trace<E>|
                tail == a + b && #[trigger] protocol::switch_run(PowerMode::Normal, a, Ok(()))
                    && #[trigger] protocol::self_test_config_run(power, odr, b, r);
            set_power_mode_ends::<E>(PowerMode::Normal, a, Ok(()));
            lemma_widen(a, None, mode_verdicts(), verdicts);
            let config = protocol::self_test_config();
            if r is Err && protocol::config_run::<E>(config, b, Err(r->Err_0)) {
                set_mag_config_ends::<E>(config, b, Err(r->Err_0));
                lemma_widen(b, error_of(r), config_verdicts(), verdicts);
            } else {
                let (c, d) = choose|c: Trace<E>, d: Trace<E>|
                    b == c + d && #[trigger] protocol::config_run(config, c, Ok(()))
                        && #[trigger] protocol::self_test_restore_run(power, odr, d, r);
                set_mag_config_ends::<E>(config, c, Ok(()));
                lemma_widen(c, None, config_verdicts(), verdicts);
                lemma_join(c, d, error_of(r), verdicts);
            }
            lemma_join(a, b, error_of(r), verdicts);
        }
        lemma_join(first, tail, error_of(r), verdicts);
    }
}

} // verus!
