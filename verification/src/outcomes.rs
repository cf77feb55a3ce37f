//! What a result says about the device.

use vstd::prelude::*;

use crate::codec;
use crate::interface::Transfer;
use crate::protocol;
use crate::protocol::Calibration;
use crate::register::Register;
use crate::trace;
use crate::trace::{Event, Trace};
use crate::types::{Error, MagConfig, PowerMode};

verus! {

/// The values that were written to `register` alone, in order.
pub open spec fn written<X>(register: u8, t: Seq<Event<X>>) -> Seq<u8>
    decreases t.len(),
{
    if t.len() == 0 {
        Seq::empty()
    } else {
        let before = written(register, t.drop_last());
        match t.last() {
            Event::Access(Transfer::Write { bytes, .. }) => if bytes.len() == 2 && bytes[0]
                == register {
                before.push(bytes[1])
            } else {
                before
            },
            _ => before,
        }
    }
}

/// The power management commands of a history.
pub open spec fn commands<E>(t: Trace<E>) -> Seq<u8> {
    written(Register::PMU_CMD, t)
}

proof fn lemma_written<X>(register: u8, a: Seq<Event<X>>, b: Seq<Event<X>>)
    ensures
        written(register, a + b) == written(register, a) + written(register, b),
    decreases b.len(),
{
    if b.len() == 0 {
        assert(a + b =~= a);
        assert(written(register, a) + written(register, b) =~= written(register, a));
    } else {
        assert((a + b).drop_last() =~= a + b.drop_last());
        lemma_written(register, a, b.drop_last());
        assert(written(register, a + b) =~= written(register, a) + written(register, b));
    }
}

proof fn lemma_mode<E>(mode: PowerMode, t: Trace<E>)
    requires
        protocol::mode_run(mode, t, Ok(())),
    ensures
        commands(t) == seq![mode.spec_code()],
{
    reveal_with_fuel(written, 4);
    assert(commands(t) =~= seq![mode.spec_code()]);
}

/// A successful change of mode ends with the command for the mode. The only
/// other command that there can be is a suspension before it, which there is
/// exactly if the device was in normal mode or updating.
pub proof fn set_power_mode_commands<E>(mode: PowerMode, t: Trace<E>)
    requires
        protocol::switch_run(mode, t, Ok(())),
    ensures
        exists|last: u8|
            t[0] == #[trigger] trace::read::<E>(Register::PMU_CMD, Ok(last)) && last
                <= Register::PMU_CMD_NM_TC && commands(t) == (if protocol::must_suspend(last) {
                seq![Register::PMU_CMD_SUS, mode.spec_code()]
            } else {
                seq![mode.spec_code()]
            }),
{
    let r = Ok::<(), Error<E>>(());
    let last = choose|last: u8| #[trigger] protocol::switch_from_run(last, mode, t, r);
    let lead = protocol::mode_prelude::<E>(last);
    let tail = choose|tail: Trace<E>|
        t == lead + tail && #[trigger] protocol::mode_run(mode, tail, r);
    lemma_mode(mode, tail);
    lemma_written(Register::PMU_CMD, lead, tail);
    reveal_with_fuel(written, 4);
    assert(t[0] == trace::read::<E>(Register::PMU_CMD, Ok(last)));
    if protocol::must_suspend(last) {
        assert(commands(lead) =~= seq![Register::PMU_CMD_SUS]);
        assert(commands(t) =~= seq![Register::PMU_CMD_SUS, mode.spec_code()]);
    } else {
        assert(commands(lead) =~= Seq::<u8>::empty());
        assert(commands(t) =~= seq![mode.spec_code()]);
    }
}

/// A change of mode that is refused writes nothing.
pub proof fn set_power_mode_refused<E>(
    mode: PowerMode,
    last: u8,
    t: Trace<E>,
    r: Result<(), Error<E>>,
)
    requires
        protocol::switch_run(mode, t, r),
        t[0] == trace::read::<E>(Register::PMU_CMD, Ok(last)),
        last > Register::PMU_CMD_NM_TC,
    ensures
        r == Err::<(), Error<E>>(Error::InvalidConfig),
        t == seq![trace::read::<E>(Register::PMU_CMD, Ok(last))],
{
    let x = choose|x: u8| #[trigger] protocol::switch_from_run(x, mode, t, r);
    assert(t[0] == trace::read::<E>(Register::PMU_CMD, Ok(x)));
}

/// The command of every mode is one that a later change of mode accepts.
pub proof fn modes_are_known(mode: PowerMode)
    ensures
        mode.spec_code() <= Register::PMU_CMD_NM_TC,
{
}

/// Before a reset.
pub open spec fn into_suspend(normal: bool, commands: Seq<u8>) -> bool {
    if normal {
        ||| commands == seq![Register::PMU_CMD_SUS]
        ||| commands == seq![Register::PMU_CMD_SUS, Register::PMU_CMD_SUS]
    } else {
        commands == Seq::<u8>::empty()
    }
}

/// After a reset.
pub open spec fn back_to_normal(normal: bool, commands: Seq<u8>) -> bool {
    if normal {
        ||| commands == seq![Register::PMU_CMD_NM]
        ||| commands == seq![Register::PMU_CMD_SUS, Register::PMU_CMD_NM]
    } else {
        commands == Seq::<u8>::empty()
    }
}

proof fn lemma_enter<E>(t: Trace<E>, normal: bool)
    requires
        protocol::enter_run(t, Ok(normal)),
    ensures
        into_suspend(normal, commands(t)),
        exists|status: u8|
            t[0] == #[trigger] trace::read::<E>(Register::PMU_CMD_STATUS_0, Ok(status)) && normal
                == (codec::bit(status, 3) == 1),
{
    let r = Ok::<bool, Error<E>>(normal);
    let status = choose|status: u8| #[trigger] protocol::enter_from_run(status, t, r);
    let first = seq![trace::read::<E>(Register::PMU_CMD_STATUS_0, Ok(status))];
    reveal_with_fuel(written, 2);
    assert(commands(first) =~= Seq::<u8>::empty());
    assert(t[0] == first[0]);
    if codec::bit(status, 3) == 1 {
        let tail = choose|tail: Trace<E>|
            t == first + tail && #[trigger] protocol::suspend_run(tail, r);
        set_power_mode_commands(PowerMode::Suspend, tail);
        lemma_written(Register::PMU_CMD, first, tail);
        assert(commands(t) =~= commands(tail));
    }
}

proof fn lemma_pulse<E>(command: PowerMode, us: nat, confirmation: u8, t: Trace<E>)
    requires
        protocol::pulse_run(command, us, confirmation, t, Ok(())),
    ensures
        commands(t) == seq![command.spec_code()],
{
    reveal_with_fuel(written, 4);
    assert(commands(t) =~= seq![command.spec_code()]);
}

/// A successful magnetic reset gives the two reset commands, each confirmed by
/// the device, and in between nothing else. A device that reported normal mode
/// was suspended before and is put back into normal mode after; any other
/// device gets no other command.
pub proof fn magnetic_reset_commands<E>(t: Trace<E>) -> (parts: (
    bool,
    Trace<E>,
    Trace<E>,
    Trace<E>,
    Trace<E>,
))
    requires
        protocol::reset_run(t, Ok(())),
    ensures
        ({
            let (normal, enter, bit_reset, flux_guide_reset, restore) = parts;
            &&& t == enter + (bit_reset + (flux_guide_reset + restore))
            &&& into_suspend(normal, commands(enter))
            &&& exists|status: u8|
                t[0] == #[trigger] trace::read::<E>(Register::PMU_CMD_STATUS_0, Ok(status))
                    && normal == (codec::bit(status, 3) == 1)
            &&& protocol::bit_reset_run(bit_reset, Ok(()))
            &&& commands(bit_reset) == seq![PowerMode::BitReset.spec_code()]
            &&& protocol::flux_guide_reset_run(flux_guide_reset, Ok(()))
            &&& commands(flux_guide_reset) == seq![PowerMode::FluxGuideReset.spec_code()]
            &&& back_to_normal(normal, commands(restore))
            &&& !normal ==> restore.len() == 0
        }),
{
    let r = Ok::<(), Error<E>>(());
    let (normal, a, b) = choose|normal: bool, a: Trace<E>, b: Trace<E>|
        t == a + b && #[trigger] protocol::enter_run(a, Ok(normal))
            && #[trigger] protocol::after_enter_run(normal, b, r);
    let (c, d) = choose|c: Trace<E>, d: Trace<E>|
        b == c + d && #[trigger] protocol::bit_reset_run(c, Ok(()))
            && #[trigger] protocol::after_bit_reset_run(normal, d, r);
    let (e, f) = choose|e: Trace<E>, f: Trace<E>|
        d == e + f && #[trigger] protocol::flux_guide_reset_run(e, Ok(()))
            && #[trigger] protocol::restore_run(normal, f, r);
    lemma_enter(a, normal);
    let status = choose|status: u8|
        a[0] == #[trigger] trace::read::<E>(Register::PMU_CMD_STATUS_0, Ok(status)) && normal == (
        codec::bit(status, 3) == 1);
    assert(a.len() > 0);
    assert(t[0] == trace::read::<E>(Register::PMU_CMD_STATUS_0, Ok(status)));
    lemma_pulse(PowerMode::BitReset, 14_000, Register::PMU_CMD_STATUS_0_BR, c);
    lemma_pulse(PowerMode::FluxGuideReset, 18_000, Register::PMU_CMD_STATUS_0_FGR, e);
    if normal {
        set_power_mode_commands(PowerMode::Normal, f);
    }
    (normal, a, c, e, f)
}

/// A device that is not a BMM350 gets nothing but the soft reset, and nothing is
/// learnt from it.
pub proof fn init_refused<E>(
    before: Calibration,
    after: Calibration,
    id: u8,
    t: Trace<E>,
    r: Result<(), Error<E>>,
)
    requires
        protocol::init_run(before, after, t, r),
        t.len() > 3,
        t[3] == trace::read::<E>(Register::CHIPID, Ok(id)),
        id != Register::BMM350_CHIP_ID,
    ensures
        r == Err::<(), Error<E>>(Error::InvalidDevice),
        after == before,
        t == protocol::greeting::<E>(Ok(id)),
{
    let hello = protocol::greeting::<E>(Ok(Register::BMM350_CHIP_ID));
    assert(hello[3] == trace::read::<E>(Register::CHIPID, Ok(Register::BMM350_CHIP_ID)));
    assert forall|tail: Trace<E>| t != #[trigger] (hello + tail) by {
        if t == hello + tail {
            assert(t[3] == hello[3]);
        }
    }
    assert forall|x: u8| t == #[trigger] protocol::greeting::<E>(Ok(x)) implies x == id by {
        assert(t[3] == trace::read::<E>(Register::CHIPID, Ok(x)));
    }
}

/// A successful initialization has identified the device, read the whole memory,
/// kept what it says, powered the memory off, and reset the sensor.
pub proof fn init_steps<E>(before: Calibration, after: Calibration, t: Trace<E>) -> (parts: (
    Seq<u16>,
    Trace<E>,
    Trace<E>,
))
    requires
        protocol::init_run(before, after, t, Ok(())),
    ensures
        ({
            let (words, dump, reset) = parts;
            &&& t == protocol::greeting::<E>(Ok(Register::BMM350_CHIP_ID)) + (dump + (seq![
                trace::wrote::<E>(Register::OTP_CMD_REG, Register::OTP_CMD_PWR_OFF_OTP, Ok(())),
            ] + reset))
            &&& words.len() == codec::OTP_WORDS
            &&& protocol::otp_dump_run(dump, Ok(words))
            &&& after == protocol::calibration_of(words)
            &&& protocol::reset_run(reset, Ok(()))
        }),
{
    let r = Ok::<(), Error<E>>(());
    let hello = protocol::greeting::<E>(Ok(Register::BMM350_CHIP_ID));
    let tail = choose|tail: Trace<E>|
        t == hello + tail && #[trigger] protocol::setup_run(before, after, tail, r);
    let (a, b) = choose|a: Trace<E>, b: Trace<E>|
        tail == a + b && #[trigger] protocol::boot_run(before, after, a, Ok(()))
            && #[trigger] protocol::after_boot_run(b, r);
    let words = choose|words: Seq<u16>| #[trigger]
        protocol::otp_dump_run::<E>(a, Ok(words)) && after == protocol::calibration_of(words);
    let off = seq![
        trace::wrote::<E>(Register::OTP_CMD_REG, Register::OTP_CMD_PWR_OFF_OTP, Ok(())),
    ];
    let c = choose|c: Trace<E>| b == off + c && #[trigger] protocol::reset_run(c, r);
    (words, a, c)
}

/// What was known before a successful initialization does not matter.
pub proof fn init_forgets<E>(
    before: Calibration,
    other: Calibration,
    after: Calibration,
    t: Trace<E>,
)
    requires
        protocol::init_run(before, after, t, Ok(())),
    ensures
        protocol::init_run(other, after, t, Ok(())),
{
    let r = Ok::<(), Error<E>>(());
    let hello = protocol::greeting::<E>(Ok(Register::BMM350_CHIP_ID));
    let tail = choose|tail: Trace<E>|
        t == hello + tail && #[trigger] protocol::setup_run(before, after, tail, r);
    let (a, b) = choose|a: Trace<E>, b: Trace<E>|
        tail == a + b && #[trigger] protocol::boot_run(before, after, a, Ok(()))
            && #[trigger] protocol::after_boot_run(b, r);
    assert(protocol::boot_run(other, after, a, r));
    assert(protocol::setup_run(other, after, tail, r));
}

/// What was known before never matters to what an initialization does and
/// returns.
pub proof fn init_unaffected<E>(
    before: Calibration,
    other: Calibration,
    after: Calibration,
    t: Trace<E>,
    r: Result<(), Error<E>>,
)
    requires
        protocol::init_run(before, after, t, r),
    ensures
        exists|kept: Calibration| #[trigger] protocol::init_run(other, kept, t, r),
{
    let hello = protocol::greeting::<E>(Ok(Register::BMM350_CHIP_ID));
    if exists|tail: Trace<E>|
        t == hello + tail && #[trigger] protocol::setup_run(before, after, tail, r) {
        let tail = choose|tail: Trace<E>|
            t == hello + tail && #[trigger] protocol::setup_run(before, after, tail, r);
        if r is Err && protocol::boot_run(before, after, tail, r) {
            assert(protocol::boot_run(other, other, tail, r));
            assert(protocol::setup_run(other, other, tail, r));
            assert(protocol::init_run(other, other, t, r));
        } else {
            let (a, b) = choose|a: Trace<E>, b: Trace<E>|
                tail == a + b && #[trigger] protocol::boot_run(before, after, a, Ok(()))
                    && #[trigger] protocol::after_boot_run(b, r);
            assert(protocol::boot_run::<E>(other, after, a, Ok(())));
            assert(protocol::setup_run(other, after, tail, r));
            assert(protocol::init_run(other, after, t, r));
        }
    } else {
        assert(protocol::init_run(other, other, t, r));
    }
}

/// What an initialization keeps is in range: a variant of six bits, offsets of
/// twelve bits with a sign.
pub proof fn calibration_range(words: Seq<u16>)
    requires
        words.len() == codec::OTP_WORDS,
    ensures
        ({
            let known = protocol::calibration_of(words);
            &&& known.var_id < 64
            &&& -2048 <= known.mag_comp.offset_x < 2048
            &&& -2048 <= known.mag_comp.offset_y < 2048
            &&& -2048 <= known.mag_comp.offset_z < 2048
        }),
{
}

/// A failed initialization keeps what was known, unless the memory was read
/// whole.
pub proof fn init_keeps<E>(
    before: Calibration,
    after: Calibration,
    t: Trace<E>,
    r: Result<(), Error<E>>,
)
    requires
        protocol::init_run(before, after, t, r),
    ensures
        after == before || exists|words: Seq<u16>, dump: Trace<E>| #[trigger]
            protocol::otp_dump_run(dump, Ok(words)) && after == protocol::calibration_of(words)
                && (protocol::greeting::<E>(Ok(Register::BMM350_CHIP_ID)) + dump).is_prefix_of(t),
{
    let hello = protocol::greeting::<E>(Ok(Register::BMM350_CHIP_ID));
    if after != before {
        let tail = choose|tail: Trace<E>|
            t == hello + tail && #[trigger] protocol::setup_run(before, after, tail, r);
        let (a, b) = choose|a: Trace<E>, b: Trace<E>|
            tail == a + b && #[trigger] protocol::boot_run(before, after, a, Ok(()))
                && #[trigger] protocol::after_boot_run(b, r);
        let words = choose|words: Seq<u16>| #[trigger]
            protocol::otp_dump_run::<E>(a, Ok(words)) && after == protocol::calibration_of(words);
        assert(t =~= (hello + a) + b);
        assert((hello + a).is_prefix_of(t));
    }
}

/// A configuration that succeeds ends with a reading that shows data; one that
/// gives up has read the interrupt status a hundred times and never seen any.
pub proof fn set_mag_config_waits<E>(config: MagConfig, t: Trace<E>, r: Result<(), Error<E>>)
    requires
        protocol::config_run(config, t, r),
        trace::fault(t.last()) is None,
    ensures
        match r {
            Ok(_) => exists|status: u8|
                t.last() == #[trigger] trace::read::<E>(Register::STATUS, Ok(status))
                    && codec::data_ready(status),
            Err(e) => {
                &&& e == Error::<E>::Timeout
                &&& t.len() == 1 + 2 * protocol::READY_POLLS
                &&& forall|i: int|
                    0 <= i < protocol::READY_POLLS ==> exists|status: u8|
                        #[trigger] t[1 + 2 * i] == #[trigger] trace::read::<E>(
                            Register::STATUS,
                            Ok(status),
                        ) && !codec::data_ready(status)
            },
        },
{
    let bits = config.spec_bits();
    let first = seq![trace::wrote_word::<E>(Register::PMU_CMD_AGGR_SET, bits, Ok(()))];
    let tail = choose|tail: Trace<E>| t == first + tail && #[trigger] protocol::ready_run(tail, r);
    let statuses = choose|statuses: Seq<u8>| #[trigger] protocol::ready_waited(statuses, tail, r);
    protocol::lemma_ready_polls::<E>(statuses);
    match r {
        Ok(_) => {
            let last = choose|last: u8|
                codec::data_ready(last) && tail == protocol::ready_polls::<E>(statuses) + seq![
                    #[trigger] trace::read::<E>(Register::STATUS, Ok(last)),
                ];
            assert(t.last() == trace::read::<E>(Register::STATUS, Ok(last)));
        },
        Err(e) => {
            assert forall|i: int| 0 <= i < protocol::READY_POLLS implies exists|status: u8|
                #[trigger] t[1 + 2 * i] == #[trigger] trace::read::<E>(Register::STATUS, Ok(status))
                    && !codec::data_ready(status) by {
                let event = trace::read::<E>(Register::STATUS, Ok(statuses[i]));
                assert(tail[2 * i] == event);
                assert(t[1 + 2 * i] == event);
            }
        },
    }
}

/// A successful self-test ends by writing back what the two registers held when
/// it began.
pub proof fn self_test_restores<E>(t: Trace<E>, passed: bool)
    requires
        protocol::self_test_run(t, Ok(passed)),
    ensures
        passed,
        exists|power: u8, odr: u8|
            #![trigger trace::read::<E>(Register::PMU_CMD, Ok(power)),
                trace::read::<E>(Register::PMU_CMD_AGGR_SET, Ok(odr))]
            {
                &&& t.len() > 4
                &&& t[0] == trace::read::<E>(Register::PMU_CMD, Ok(power))
                &&& t[1] == trace::read::<E>(Register::PMU_CMD_AGGR_SET, Ok(odr))
                &&& t[t.len() - 2] == trace::wrote::<E>(Register::PMU_CMD, power, Ok(()))
                &&& t[t.len() - 1] == trace::wrote::<E>(Register::PMU_CMD_AGGR_SET, odr, Ok(()))
            },
{
    let r = Ok::<bool, Error<E>>(passed);
    let config = protocol::self_test_config();
    let (power, odr, tail) = choose|power: u8, odr: u8, tail: Trace<E>|
        t == seq![
            trace::read::<E>(Register::PMU_CMD, Ok(power)),
            trace::read::<E>(Register::PMU_CMD_AGGR_SET, Ok(odr)),
        ] + tail && #[trigger] protocol::self_test_mode_run(power, odr, tail, r);
    let (a, b) = choose|a: Trace<E>, b: Trace<E>|
        tail == a + b && #[trigger] protocol::switch_run(PowerMode::Normal, a, Ok(()))
            && #[trigger] protocol::self_test_config_run(power, odr, b, r);
    let (c, d) = choose|c: Trace<E>, d: Trace<E>|
        b == c + d && #[trigger] protocol::config_run(config, c, Ok(()))
            && #[trigger] protocol::self_test_restore_run(power, odr, d, r);
    assert(c.len() > 0);
    assert(d.len() == 2);
    assert(t[0] == trace::read::<E>(Register::PMU_CMD, Ok(power)));
    assert(t[1] == trace::read::<E>(Register::PMU_CMD_AGGR_SET, Ok(odr)));
    assert(t[t.len() - 2] == d[0]);
    assert(t[t.len() - 1] == d[1]);
}

} // verus!
