//! An operation fails for a reason.
//!
//! When no access failed, an operation returns an error only on answers of the
//! device that call for it. On all other answers it succeeds. The operations that
//! are not listed here fail for a failed access alone, as [`faults`](crate::faults)
//! states.

use vstd::prelude::*;

use crate::codec;
use crate::protocol;
use crate::protocol::Calibration;
use crate::register::Register;
use crate::trace;
use crate::trace::Trace;
use crate::types::{Error, MagConfig, PowerMode};

verus! {

/// The end of the history calls for the error `e`.
pub open spec fn grounds<E>(t: Trace<E>, e: Error<E>) -> bool {
    match e {
        // The device holds a command that is not known.
        Error::InvalidConfig => exists|last: u8|
            ends_with(t, seq![#[trigger] trace::read::<E>(Register::PMU_CMD, Ok(last))]) && last
                > Register::PMU_CMD_NM_TC,
        // After a reset command the status shows another command.
        Error::ResetUnfinished => exists|command: PowerMode, us: nat, status: u8|
            #![trigger trace::wrote::<E>(Register::PMU_CMD, command.spec_code(), Ok(())),
                trace::paused::<E>(us), trace::read::<E>(Register::PMU_CMD_STATUS_0, Ok(status))]
            ends_with(
                t,
                seq![
                    trace::wrote::<E>(Register::PMU_CMD, command.spec_code(), Ok(())),
                    trace::paused::<E>(us),
                    trace::read::<E>(Register::PMU_CMD_STATUS_0, Ok(status)),
                ],
            ) && (command is BitReset || command is FluxGuideReset) && status as int / 32
                != command.spec_code(),
        // The device identifies itself as another.
        Error::InvalidDevice => exists|id: u8|
            ends_with(t, seq![#[trigger] trace::read::<E>(Register::CHIPID, Ok(id))]) && id
                != Register::BMM350_CHIP_ID,
        // No reading shows data.
        Error::Timeout => exists|statuses: Seq<u8>|
            ends_with(t, #[trigger] protocol::ready_polls::<E>(statuses)) && statuses.len()
                == protocol::READY_POLLS && forall|i: int|
                0 <= i < statuses.len() ==> !codec::data_ready(#[trigger] statuses[i]),
        Error::Comm(_) => false,
    }
}

/// The history ends with `end`.
pub open spec fn ends_with<E>(t: Trace<E>, end: Trace<E>) -> bool {
    end.is_suffix_of(t)
}

/// An error is that of the last access or one that the answers call for.
pub open spec fn justified<T, E>(t: Trace<E>, r: Result<T, Error<E>>) -> bool {
    r matches Err(e) ==> t.len() > 0 && (trace::fault(t.last()) == Some(e) || grounds(t, e))
}

proof fn lemma_later<E>(a: Trace<E>, b: Trace<E>, e: Error<E>)
    requires
        grounds(b, e),
    ensures
        grounds(a + b, e),
{
    assert forall|end: Trace<E>| #[trigger] ends_with(b, end) implies ends_with(a + b, end) by {
        assert(end =~= (a + b).subrange((a + b).len() - end.len(), (a + b).len() as int));
    }
    match e {
        Error::InvalidConfig => {
            let last = choose|last: u8|
                ends_with(b, seq![#[trigger] trace::read::<E>(Register::PMU_CMD, Ok(last))]) && last
                    > Register::PMU_CMD_NM_TC;
            assert(ends_with(a + b, seq![trace::read::<E>(Register::PMU_CMD, Ok(last))]));
        },
        Error::InvalidDevice => {
            let id = choose|id: u8|
                ends_with(b, seq![#[trigger] trace::read::<E>(Register::CHIPID, Ok(id))]) && id
                    != Register::BMM350_CHIP_ID;
            assert(ends_with(a + b, seq![trace::read::<E>(Register::CHIPID, Ok(id))]));
        },
        _ => {},
    }
}

/// What justifies the second of two steps justifies both.
proof fn lemma_join<T, E>(a: Trace<E>, b: Trace<E>, r: Result<T, Error<E>>)
    requires
        justified(b, r),
    ensures
        justified(a + b, r),
{
    if let Err(e) = r {
        assert((a + b).last() == b.last());
        if grounds(b, e) {
            lemma_later(a, b, e);
        }
    }
}

/// [`set_power_mode`](crate::device::Bmm350::set_power_mode) fails for a failed
/// access or a command that is not known.
pub proof fn set_power_mode_justified<E>(mode: PowerMode, t: Trace<E>, r: Result<(), Error<E>>)
    requires
        protocol::switch_run(mode, t, r),
    ensures
        justified(t, r),
{
    if !(r is Err && t == seq![trace::read::<E>(Register::PMU_CMD, Err(r->Err_0))]) {
        let last = choose|last: u8| #[trigger] protocol::switch_from_run(last, mode, t, r);
        if last > Register::PMU_CMD_NM_TC {
            let end = seq![trace::read::<E>(Register::PMU_CMD, Ok(last))];
            assert(end =~= t.subrange(0, 1));
            assert(ends_with(t, end));
        } else {
            let lead = protocol::mode_prelude::<E>(last);
            if exists|tail: Trace<E>|
                t == lead + tail && #[trigger] protocol::mode_run(mode, tail, r) {
                let tail = choose|tail: Trace<E>|
                    t == lead + tail && #[trigger] protocol::mode_run(mode, tail, r);
                lemma_join(lead, tail, r);
            }
        }
    }
}

proof fn lemma_enter<E>(t: Trace<E>, r: Result<bool, Error<E>>)
    requires
        protocol::enter_run(t, r),
    ensures
        justified(t, r),
{
    if r is Err && t != seq![trace::read::<E>(Register::PMU_CMD_STATUS_0, Err(r->Err_0))] {
        let status = choose|status: u8| #[trigger] protocol::enter_from_run(status, t, r);
        let first = seq![trace::read::<E>(Register::PMU_CMD_STATUS_0, Ok(status))];
        let tail = choose|tail: Trace<E>|
            t == first + tail && #[trigger] protocol::suspend_run(tail, r);
        set_power_mode_justified::<E>(PowerMode::Suspend, tail, Err(r->Err_0));
        lemma_join(first, tail, r);
    }
}

proof fn lemma_pulse<E>(command: PowerMode, us: nat, t: Trace<E>, r: Result<(), Error<E>>)
    requires
        protocol::pulse_run(command, us, command.spec_code(), t, r),
        command is BitReset || command is FluxGuideReset,
    ensures
        justified(t, r),
{
    if r is Err && trace::fault(t.last()) != Some(r->Err_0) {
        let status = choose|status: u8|
            t == seq![
                trace::wrote::<E>(Register::PMU_CMD, command.spec_code(), Ok(())),
                trace::paused::<E>(us),
                #[trigger] trace::read::<E>(Register::PMU_CMD_STATUS_0, Ok(status)),
            ] && status as int / 32 != command.spec_code();
        let end = seq![
            trace::wrote::<E>(Register::PMU_CMD, command.spec_code(), Ok(())),
            trace::paused::<E>(us),
            trace::read::<E>(Register::PMU_CMD_STATUS_0, Ok(status)),
        ];
        assert(end =~= t.subrange(0, 3));
        assert(ends_with(t, end));
    }
}

/// [`magnetic_reset`](crate::device::Bmm350::magnetic_reset) fails for a failed
/// access, a command that is not known or a reset that is not confirmed.
pub proof fn magnetic_reset_justified<E>(t: Trace<E>, r: Result<(), Error<E>>)
    requires
        protocol::reset_run(t, r),
    ensures
        justified(t, r),
{
    if r is Err {
        if protocol::enter_run::<E>(t, Err(r->Err_0)) {
            lemma_enter::<E>(t, Err(r->Err_0));
        } else {
            let (normal, a, b) = choose|normal: bool, a: Trace<E>, b: Trace<E>|
                t == a + b && #[trigger] protocol::enter_run(a, Ok(normal))
                    && #[trigger] protocol::after_enter_run(normal, b, r);
            if protocol::bit_reset_run(b, r) {
                lemma_pulse(PowerMode::BitReset, 14_000, b, r);
            } else {
                let (c, d) = choose|c: Trace<E>, d: Trace<E>|
                    b == c + d && #[trigger] protocol::bit_reset_run(c, Ok(()))
                        && #[trigger] protocol::after_bit_reset_run(normal, d, r);
                if protocol::flux_guide_reset_run(d, r) {
                    lemma_pulse(PowerMode::FluxGuideReset, 18_000, d, r);
                } else {
                    let (e, f) = choose|e: Trace<E>, f: Trace<E>|
                        d == e + f && #[trigger] protocol::flux_guide_reset_run(e, Ok(()))
                            && #[trigger] protocol::restore_run(normal, f, r);
                    set_power_mode_justified(PowerMode::Normal, f, r);
                    lemma_join(e, f, r);
                }
                lemma_join(c, d, r);
            }
            lemma_join(a, b, r);
        }
    }
}

proof fn lemma_otp_word<E>(addr: u8, t: Trace<E>, r: Result<u16, Error<E>>)
    requires
        protocol::otp_word_run(addr, t, r),
    ensures
        justified(t, r),
{
    let command = codec::otp_read_command(addr);
    if r is Err && t != seq![trace::wrote::<E>(Register::OTP_CMD_REG, command, Err(r->Err_0))] {
        let first = seq![trace::wrote::<E>(Register::OTP_CMD_REG, command, Ok(()))];
        let tail = choose|tail: Trace<E>|
            t == first + tail && #[trigger] protocol::otp_fetch_run(tail, r);
        if !protocol::otp_wait_run::<E>(tail, Err(r->Err_0)) {
            let (a, b) = choose|a: Trace<E>, b: Trace<E>|
                tail == a + b && #[trigger] protocol::otp_wait_run(a, Ok(()))
                    && #[trigger] protocol::otp_data_run(b, r);
            lemma_join(a, b, r);
        }
        lemma_join(first, tail, r);
    }
}

/// [`init`](crate::device::Bmm350::init) fails for a failed access, another
/// device, or for what a magnetic reset fails for.
pub proof fn init_justified<E>(
    before: Calibration,
    after: Calibration,
    t: Trace<E>,
    r: Result<(), Error<E>>,
)
    requires
        protocol::init_run(before, after, t, r),
    ensures
        justified(t, r),
{
    let hello = protocol::greeting::<E>(Ok(Register::BMM350_CHIP_ID));
    if r is Err {
        if exists|tail: Trace<E>|
            t == hello + tail && #[trigger] protocol::setup_run(before, after, tail, r) {
            let tail = choose|tail: Trace<E>|
                t == hello + tail && #[trigger] protocol::setup_run(before, after, tail, r);
            if protocol::boot_run(before, after, tail, r) {
                let (words, a, b) = choose|words: Seq<u16>, a: Trace<E>, b: Trace<E>|
                    tail == a + b && words.len() < codec::OTP_WORDS
                        && #[trigger] protocol::otp_words_run(words, a)
                        && #[trigger] protocol::otp_word_run::<E>(
                        words.len() as u8,
                        b,
                        Err(r->Err_0),
                    );
                lemma_otp_word::<E>(words.len() as u8, b, Err(r->Err_0));
                lemma_join(a, b, r);
            } else {
                let (a, b) = choose|a: Trace<E>, b: Trace<E>|
                    tail == a + b && #[trigger] protocol::boot_run(before, after, a, Ok(()))
                        && #[trigger] protocol::after_boot_run(b, r);
                let off = Register::OTP_CMD_PWR_OFF_OTP;
                if b != seq![trace::wrote::<E>(Register::OTP_CMD_REG, off, Err(r->Err_0))] {
                    let first = seq![trace::wrote::<E>(Register::OTP_CMD_REG, off, Ok(()))];
                    let c = choose|c: Trace<E>|
                        b == first + c && #[trigger] protocol::reset_run(c, r);
                    magnetic_reset_justified(c, r);
                    lemma_join(first, c, r);
                }
                lemma_join(a, b, r);
            }
            lemma_join(hello, tail, r);
        } else if trace::fault(t.last()) != Some(r->Err_0) {
            let id = choose|id: u8|
                id != Register::BMM350_CHIP_ID && t == #[trigger] protocol::greeting::<E>(Ok(id));
            let end = seq![trace::read::<E>(Register::CHIPID, Ok(id))];
            assert(end =~= t.subrange(3, 4));
            assert(ends_with(t, end));
        }
    }
}

/// [`set_mag_config`](crate::device::Bmm350::set_mag_config) fails for a failed
/// access or for want of data.
pub proof fn set_mag_config_justified<E>(config: MagConfig, t: Trace<E>, r: Result<(), Error<E>>)
    requires
        protocol::config_run(config, t, r),
    ensures
        justified(t, r),
{
    let bits = config.spec_bits();
    if r is Err && t != seq![
        trace::wrote_word::<E>(Register::PMU_CMD_AGGR_SET, bits, Err(r->Err_0)),
    ] {
        let first = seq![trace::wrote_word::<E>(Register::PMU_CMD_AGGR_SET, bits, Ok(()))];
        let tail = choose|tail: Trace<E>|
            t == first + tail && #[trigger] protocol::ready_run(tail, r);
        let statuses = choose|statuses: Seq<u8>| #[trigger]
            protocol::ready_waited(statuses, tail, r);
        let polls = protocol::ready_polls::<E>(statuses);
        if tail == polls {
            assert(polls =~= tail.subrange(0, tail.len() as int));
            assert(ends_with(tail, polls));
        }
        lemma_join(first, tail, r);
    }
}

/// A self-test fails for what a change of mode and a configuration fail for.
pub proof fn self_test_justified<E>(t: Trace<E>, r: Result<bool, Error<E>>)
    requires
        protocol::self_test_run(t, r),
    ensures
        justified(t, r),
{
    let config = protocol::self_test_config();
    if r is Err && trace::fault(t.last()) != Some(r->Err_0) {
        let (power, odr, tail) = choose|power: u8, odr: u8, tail: Trace<E>|
            t == seq![
                trace::read::<E>(Register::PMU_CMD, Ok(power)),
                trace::read::<E>(Register::PMU_CMD_AGGR_SET, Ok(odr)),
            ] + tail && #[trigger] protocol::self_test_mode_run(power, odr, tail, r);
        let first = seq![
            trace::read::<E>(Register::PMU_CMD, Ok(power)),
            trace::read::<E>(Register::PMU_CMD_AGGR_SET, Ok(odr)),
        ];
        if protocol::switch_run::<E>(PowerMode::Normal, tail, Err(r->Err_0)) {
            set_power_mode_justified::<E>(PowerMode::Normal, tail, Err(r->Err_0));
        } else {
            let (a, b) = choose|a: Trace<E>, b: Trace<E>|
                tail == a + b && #[trigger] protocol::switch_run(PowerMode::Normal, a, Ok(()))
                    && #[trigger] protocol::self_test_config_run(power, odr, b, r);
            if protocol::config_run::<E>(config, b, Err(r->Err_0)) {
                set_mag_config_justified::<E>(config, b, Err(r->Err_0));
            } else {
                let (c, d) = choose|c: Trace<E>, d: Trace<E>|
                    b == c + d && #[trigger] protocol::config_run(config, c, Ok(()))
                        && #[trigger] protocol::self_test_restore_run(power, odr, d, r);
                lemma_join(c, d, r);
            }
            lemma_join(a, b, r);
        }
        lemma_join(first, tail, r);
    }
}

} // verus!
