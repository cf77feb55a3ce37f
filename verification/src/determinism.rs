//! What an operation does is decided by the answers of the device.
//!
//! Two runs of the same operation are the same, with the same result, unless
//! at some point the driver did the same thing and got two different answers.

use vstd::prelude::*;

use crate::codec;
use crate::interface::Transfer;
use crate::protocol;
use crate::protocol::Calibration;
use crate::register::Register;
use crate::trace;
use crate::trace::{Event, Trace};
use crate::types::{Error, MagConfig, PmuCmdStatus0, PowerMode, Sensor3DData};

verus! {

/// The driver did the same thing, whatever came of it.
pub open spec fn same_action<X>(a: Event<X>, b: Event<X>) -> bool {
    match (a, b) {
        (
            Event::Access(Transfer::Write { bytes: x, .. }),
            Event::Access(Transfer::Write { bytes: y, .. }),
        ) => x == y,
        (
            Event::Access(Transfer::Read { register: x, .. }),
            Event::Access(Transfer::Read { register: y, .. }),
        ) => x == y,
        (
            Event::Access(Transfer::Burst { register: x, buffer: m, .. }),
            Event::Access(Transfer::Burst { register: y, buffer: n, .. }),
        ) => x == y && m == n,
        (Event::Pause(x), Event::Pause(y)) => x == y,
        _ => false,
    }
}

/// The histories part at `i`: up to there they are the same, and there the
/// same thing had two outcomes.
pub open spec fn part_at<X>(s: Seq<Event<X>>, t: Seq<Event<X>>, i: int) -> bool {
    &&& 0 <= i < s.len()
    &&& i < t.len()
    &&& forall|j: int| 0 <= j < i ==> s[j] == #[trigger] t[j]
    &&& s[i] != t[i]
    &&& same_action(s[i], t[i])
}

/// The histories part at an answer of the device.
pub open spec fn part<X>(s: Seq<Event<X>>, t: Seq<Event<X>>) -> bool {
    exists|i: int| #[trigger] part_at(s, t, i)
}

/// Two runs are the same unless they part at an answer.
pub open spec fn decided<X, R>(s: Seq<Event<X>>, q: R, t: Seq<Event<X>>, r: R) -> bool {
    part(s, t) || (s == t && q == r)
}

/// Histories that have parted stay so.
proof fn lemma_part_more<X>(
    a: Seq<Event<X>>,
    b: Seq<Event<X>>,
    c: Seq<Event<X>>,
    d: Seq<Event<X>>,
)
    requires
        part(a, c),
    ensures
        part(a + b, c + d),
        part(a, c + d),
        part(a + b, c),
{
    let i = choose|i: int| #[trigger] part_at(a, c, i);
    assert forall|j: int| 0 <= j < i implies (a + b)[j] == #[trigger] (c + d)[j] by {
        assert(a[j] == c[j]);
    }
    assert(part_at(a + b, c + d, i));
    assert(part_at(a, c + d, i)) by {
        assert forall|j: int| 0 <= j < i implies a[j] == #[trigger] (c + d)[j] by {
            assert(a[j] == c[j]);
        }
    }
    assert(part_at(a + b, c, i));
}

/// A common beginning does not matter.
proof fn lemma_part_later<X>(a: Seq<Event<X>>, b: Seq<Event<X>>, d: Seq<Event<X>>)
    requires
        part(b, d),
    ensures
        part(a + b, a + d),
{
    let i = choose|i: int| #[trigger] part_at(b, d, i);
    let k = a.len() + i;
    assert forall|j: int| 0 <= j < k implies (a + b)[j] == #[trigger] (a + d)[j] by {
        if j >= a.len() {
            assert(b[j - a.len()] == d[j - a.len()]);
        }
    }
    assert(part_at(a + b, a + d, k));
}

/// Of two histories that do the same things, either one begins with the other
/// or they part.
proof fn lemma_align<X>(s: Seq<Event<X>>, t: Seq<Event<X>>, n: int)
    requires
        0 <= n <= s.len(),
        n <= t.len(),
        forall|i: int| 0 <= i < n ==> same_action(s[i], #[trigger] t[i]),
    ensures
        part(s, t) || forall|i: int| 0 <= i < n ==> s[i] == #[trigger] t[i],
    decreases n,
{
    if n > 0 {
        lemma_align(s, t, n - 1);
        if !part(s, t) && s[n - 1] != t[n - 1] {
            assert(part_at(s, t, n - 1));
        }
    }
}

/// Parting is symmetric.
proof fn lemma_part_sym<X>(s: Seq<Event<X>>, t: Seq<Event<X>>)
    requires
        part(s, t),
    ensures
        part(t, s),
{
    let i = choose|i: int| #[trigger] part_at(s, t, i);
    assert forall|j: int| 0 <= j < i implies t[j] == #[trigger] s[j] by {
        assert(s[j] == t[j]);
    }
    assert(part_at(t, s, i));
}

/// Two steps after one another are decided if each is: here both first steps
/// succeeded.
proof fn lemma_both<X, Q, R>(
    a: Seq<Event<X>>,
    p: Q,
    b: Seq<Event<X>>,
    r: R,
    c: Seq<Event<X>>,
    q: Q,
    d: Seq<Event<X>>,
    s: R,
)
    requires
        decided(a, p, c, q),
        p == q ==> decided(b, r, d, s),
    ensures
        decided(a + b, r, c + d, s),
{
    if part(a, c) {
        lemma_part_more(a, b, c, d);
    } else if part(b, d) {
        lemma_part_later(a, b, d);
    }
}

/// Here only one of the first steps succeeded.
proof fn lemma_one<X, Q>(
    a: Seq<Event<X>>,
    p: Q,
    c: Seq<Event<X>>,
    q: Q,
    d: Seq<Event<X>>,
)
    requires
        decided(a, p, c, q),
        p != q,
    ensures
        part(a, c + d),
        part(c + d, a),
{
    lemma_part_more(a, Seq::empty(), c, d);
    lemma_part_sym(a, c + d);
}

/// One more event: the histories part there or agree there.
proof fn lemma_step<X>(s: Seq<Event<X>>, t: Seq<Event<X>>, i: int)
    requires
        0 <= i < s.len(),
        i < t.len(),
        forall|j: int| 0 <= j < i ==> s[j] == #[trigger] t[j],
        same_action(s[i], t[i]),
    ensures
        part(s, t) || s[i] == t[i],
{
    if s[i] != t[i] {
        assert(part_at(s, t, i));
    }
}

/// There is one way to succeed with nothing to say.
proof fn lemma_unit<X>(q: Result<(), X>, r: Result<(), X>)
    requires
        q is Ok,
        r is Ok,
    ensures
        q == r,
        r == Ok::<(), X>(()),
{
    assert(q->Ok_0 == ());
    assert(r->Ok_0 == ());
}

/// What the command for a mode leads to is decided by the answers of the device.
pub proof fn mode_decided<E>(
    mode: PowerMode,
    s: Trace<E>,
    q: Result<(), Error<E>>,
    t: Trace<E>,
    r: Result<(), Error<E>>,
)
    requires
        protocol::mode_run(mode, s, q),
        protocol::mode_run(mode, t, r),
    ensures
        decided(s, q, t, r),
{
    lemma_step(s, t, 0);
    if !part(s, t) && s.len() > 1 && t.len() > 1 {
        lemma_step(s, t, 1);
        if !part(s, t) && q is Ok && r is Ok {
            let x = choose|x: u8|
                s == seq![
                    trace::wrote::<E>(Register::PMU_CMD, mode.spec_code(), Ok(())),
                    #[trigger] trace::read::<E>(Register::PMU_CMD_AGGR_SET, Ok(x)),
                    trace::paused::<E>(codec::settle_time(mode, x) as nat),
                ];
            let y = choose|y: u8|
                t == seq![
                    trace::wrote::<E>(Register::PMU_CMD, mode.spec_code(), Ok(())),
                    #[trigger] trace::read::<E>(Register::PMU_CMD_AGGR_SET, Ok(y)),
                    trace::paused::<E>(codec::settle_time(mode, y) as nat),
                ];
            assert(s[1] == trace::read::<E>(Register::PMU_CMD_AGGR_SET, Ok(x)));
            assert(t[1] == trace::read::<E>(Register::PMU_CMD_AGGR_SET, Ok(y)));
            lemma_unit(q, r);
        }
    }
    if !part(s, t) {
        assert(s =~= t);
    }
}

proof fn switch_from_decided<E>(
    last: u8,
    mode: PowerMode,
    s: Trace<E>,
    q: Result<(), Error<E>>,
    t: Trace<E>,
    r: Result<(), Error<E>>,
)
    requires
        protocol::switch_from_run(last, mode, s, q),
        protocol::switch_from_run(last, mode, t, r),
    ensures
        decided(s, q, t, r),
{
    if last <= Register::PMU_CMD_NM_TC {
        let lead = protocol::mode_prelude::<E>(last);
        let fails = |t: Trace<E>, r: Result<(), Error<E>>|
            protocol::must_suspend(last) && r is Err && t == seq![
                trace::read::<E>(Register::PMU_CMD, Ok(last)),
                trace::wrote::<E>(Register::PMU_CMD, Register::PMU_CMD_SUS, Err(r->Err_0)),
            ];
        if fails(s, q) || fails(t, r) {
            lemma_step(s, t, 0);
            lemma_step(s, t, 1);
            if !part(s, t) {
                assert(s =~= t);
            }
        } else {
            let a = choose|a: Trace<E>| s == lead + a && #[trigger] protocol::mode_run(mode, a, q);
            let b = choose|b: Trace<E>| t == lead + b && #[trigger] protocol::mode_run(mode, b, r);
            mode_decided(mode, a, q, b, r);
            lemma_both(lead, (), a, q, lead, (), b, r);
        }
    }
}

/// What [`set_power_mode`](crate::device::Bmm350::set_power_mode) does and
/// returns is decided by the answers of the device.
pub proof fn set_power_mode_decided<E>(
    mode: PowerMode,
    s: Trace<E>,
    q: Result<(), Error<E>>,
    t: Trace<E>,
    r: Result<(), Error<E>>,
)
    requires
        protocol::switch_run(mode, s, q),
        protocol::switch_run(mode, t, r),
    ensures
        decided(s, q, t, r),
{
    lemma_step(s, t, 0);
    if !part(s, t) {
        let fails = |t: Trace<E>, r: Result<(), Error<E>>|
            r is Err && t == seq![trace::read::<E>(Register::PMU_CMD, Err(r->Err_0))];
        if fails(s, q) || fails(t, r) {
            assert(s =~= t);
        } else {
            let x = choose|x: u8| #[trigger] protocol::switch_from_run(x, mode, s, q);
            let y = choose|y: u8| #[trigger] protocol::switch_from_run(y, mode, t, r);
            assert(s[0] == trace::read::<E>(Register::PMU_CMD, Ok(x)));
            assert(t[0] == trace::read::<E>(Register::PMU_CMD, Ok(y)));
            switch_from_decided(x, mode, s, q, t, r);
        }
    }
}

/// What the reading of the power management status does and returns is decided by
/// the answers of the device.
pub proof fn status_decided<E>(
    s: Trace<E>,
    q: Result<PmuCmdStatus0, Error<E>>,
    t: Trace<E>,
    r: Result<PmuCmdStatus0, Error<E>>,
)
    requires
        protocol::status_run(s, q),
        protocol::status_run(t, r),
    ensures
        decided(s, q, t, r),
{
    lemma_step(s, t, 0);
    if !part(s, t) {
        assert(s =~= t);
        if q is Ok {
            let x = choose|x: u8|
                s == seq![#[trigger] trace::read::<E>(Register::PMU_CMD_STATUS_0, Ok(x))]
                    && q->Ok_0 == codec::pmu_status_of(x);
            let y = choose|y: u8|
                t == seq![#[trigger] trace::read::<E>(Register::PMU_CMD_STATUS_0, Ok(y))]
                    && r->Ok_0 == codec::pmu_status_of(y);
            assert(s[0] == trace::read::<E>(Register::PMU_CMD_STATUS_0, Ok(x)));
            assert(t[0] == trace::read::<E>(Register::PMU_CMD_STATUS_0, Ok(y)));
        }
    }
}

proof fn enter_decided<E>(
    s: Trace<E>,
    q: Result<bool, Error<E>>,
    t: Trace<E>,
    r: Result<bool, Error<E>>,
)
    requires
        protocol::enter_run(s, q),
        protocol::enter_run(t, r),
    ensures
        decided(s, q, t, r),
{
    lemma_step(s, t, 0);
    if !part(s, t) {
        let fails = |t: Trace<E>, r: Result<bool, Error<E>>|
            r is Err && t == seq![trace::read::<E>(Register::PMU_CMD_STATUS_0, Err(r->Err_0))];
        if fails(s, q) || fails(t, r) {
            assert(s =~= t);
        } else {
            let x = choose|x: u8| #[trigger] protocol::enter_from_run(x, s, q);
            let y = choose|y: u8| #[trigger] protocol::enter_from_run(y, t, r);
            assert(s[0] == trace::read::<E>(Register::PMU_CMD_STATUS_0, Ok(x)));
            assert(t[0] == trace::read::<E>(Register::PMU_CMD_STATUS_0, Ok(y)));
            if codec::bit(x, 3) == 1 {
                let first = seq![trace::read::<E>(Register::PMU_CMD_STATUS_0, Ok(x))];
                let a = choose|a: Trace<E>|
                    s == first + a && #[trigger] protocol::suspend_run(a, q);
                let b = choose|b: Trace<E>|
                    t == first + b && #[trigger] protocol::suspend_run(b, r);
                let qs = match q {
                    Ok(_) => Ok(()),
                    Err(e) => Err(e),
                };
                let rs = match r {
                    Ok(_) => Ok(()),
                    Err(e) => Err(e),
                };
                set_power_mode_decided(PowerMode::Suspend, a, qs, b, rs);
                lemma_both(first, (), a, qs, first, (), b, rs);
            }
        }
    }
}

proof fn pulse_decided<E>(
    command: PowerMode,
    us: nat,
    confirmation: u8,
    s: Trace<E>,
    q: Result<(), Error<E>>,
    t: Trace<E>,
    r: Result<(), Error<E>>,
)
    requires
        protocol::pulse_run(command, us, confirmation, s, q),
        protocol::pulse_run(command, us, confirmation, t, r),
    ensures
        decided(s, q, t, r),
{
    lemma_step(s, t, 0);
    if !part(s, t) && s.len() > 1 && t.len() > 1 {
        lemma_step(s, t, 1);
        lemma_step(s, t, 2);
        if !part(s, t) {
            assert(s =~= t);
            if trace::fault(s[2]) is None {
                let x = choose|x: u8|
                    s == seq![
                        trace::wrote::<E>(Register::PMU_CMD, command.spec_code(), Ok(())),
                        trace::paused::<E>(us),
                        #[trigger] trace::read::<E>(Register::PMU_CMD_STATUS_0, Ok(x)),
                    ] && (q is Ok <==> x as int / 32 == confirmation);
                let y = choose|y: u8|
                    t == seq![
                        trace::wrote::<E>(Register::PMU_CMD, command.spec_code(), Ok(())),
                        trace::paused::<E>(us),
                        #[trigger] trace::read::<E>(Register::PMU_CMD_STATUS_0, Ok(y)),
                    ] && (r is Ok <==> y as int / 32 == confirmation);
                assert(s[2] == trace::read::<E>(Register::PMU_CMD_STATUS_0, Ok(x)));
                assert(t[2] == trace::read::<E>(Register::PMU_CMD_STATUS_0, Ok(y)));
                if q is Ok {
                    lemma_unit(q, r);
                }
            }
        }
    }
    if !part(s, t) {
        assert(s =~= t);
    }
}

proof fn after_bit_reset_decided<E>(
    normal: bool,
    s: Trace<E>,
    q: Result<(), Error<E>>,
    t: Trace<E>,
    r: Result<(), Error<E>>,
)
    requires
        protocol::after_bit_reset_run(normal, s, q),
        protocol::after_bit_reset_run(normal, t, r),
    ensures
        decided(s, q, t, r),
{
    let mode = PowerMode::FluxGuideReset;
    let ok = Register::PMU_CMD_STATUS_0_FGR;
    let fails = |t: Trace<E>, r: Result<(), Error<E>>|
        r is Err && protocol::flux_guide_reset_run(t, r);
    let (a, b) = choose|a: Trace<E>, b: Trace<E>|
        s == a + b && #[trigger] protocol::flux_guide_reset_run(a, Ok(()))
            && #[trigger] protocol::restore_run(normal, b, q);
    let (c, d) = choose|c: Trace<E>, d: Trace<E>|
        t == c + d && #[trigger] protocol::flux_guide_reset_run(c, Ok(()))
            && #[trigger] protocol::restore_run(normal, d, r);
    let done = Ok::<(), Error<E>>(());
    if fails(s, q) && fails(t, r) {
        pulse_decided(mode, 18_000, ok, s, q, t, r);
    } else if fails(s, q) {
        pulse_decided(mode, 18_000, ok, s, q, c, done);
        lemma_one(s, q, c, done, d);
    } else if fails(t, r) {
        pulse_decided(mode, 18_000, ok, t, r, a, done);
        lemma_one(t, r, a, done, b);
    } else {
        pulse_decided(mode, 18_000, ok, a, done, c, done);
        if normal {
            set_power_mode_decided(PowerMode::Normal, b, q, d, r);
        } else {
            assert(b =~= d);
        }
        lemma_both(a, done, b, q, c, done, d, r);
    }
}

proof fn after_enter_decided<E>(
    normal: bool,
    s: Trace<E>,
    q: Result<(), Error<E>>,
    t: Trace<E>,
    r: Result<(), Error<E>>,
)
    requires
        protocol::after_enter_run(normal, s, q),
        protocol::after_enter_run(normal, t, r),
    ensures
        decided(s, q, t, r),
{
    let mode = PowerMode::BitReset;
    let ok = Register::PMU_CMD_STATUS_0_BR;
    let fails = |t: Trace<E>, r: Result<(), Error<E>>| r is Err && protocol::bit_reset_run(t, r);
    let (a, b) = choose|a: Trace<E>, b: Trace<E>|
        s == a + b && #[trigger] protocol::bit_reset_run(a, Ok(()))
            && #[trigger] protocol::after_bit_reset_run(normal, b, q);
    let (c, d) = choose|c: Trace<E>, d: Trace<E>|
        t == c + d && #[trigger] protocol::bit_reset_run(c, Ok(()))
            && #[trigger] protocol::after_bit_reset_run(normal, d, r);
    let done = Ok::<(), Error<E>>(());
    if fails(s, q) && fails(t, r) {
        pulse_decided(mode, 14_000, ok, s, q, t, r);
    } else if fails(s, q) {
        pulse_decided(mode, 14_000, ok, s, q, c, done);
        lemma_one(s, q, c, done, d);
    } else if fails(t, r) {
        pulse_decided(mode, 14_000, ok, t, r, a, done);
        lemma_one(t, r, a, done, b);
    } else {
        pulse_decided(mode, 14_000, ok, a, done, c, done);
        after_bit_reset_decided(normal, b, q, d, r);
        lemma_both(a, done, b, q, c, done, d, r);
    }
}

/// What [`magnetic_reset`](crate::device::Bmm350::magnetic_reset) does and
/// returns is decided by the answers of the device.
pub proof fn magnetic_reset_decided<E>(
    s: Trace<E>,
    q: Result<(), Error<E>>,
    t: Trace<E>,
    r: Result<(), Error<E>>,
)
    requires
        protocol::reset_run(s, q),
        protocol::reset_run(t, r),
    ensures
        decided(s, q, t, r),
{
    let fails = |t: Trace<E>, r: Result<(), Error<E>>|
        r is Err && protocol::enter_run::<E>(t, Err(r->Err_0));
    let (m, a, b) = choose|m: bool, a: Trace<E>, b: Trace<E>|
        s == a + b && #[trigger] protocol::enter_run(a, Ok(m))
            && #[trigger] protocol::after_enter_run(m, b, q);
    let (n, c, d) = choose|n: bool, c: Trace<E>, d: Trace<E>|
        t == c + d && #[trigger] protocol::enter_run(c, Ok(n))
            && #[trigger] protocol::after_enter_run(n, d, r);
    let eq = Err::<bool, Error<E>>(q->Err_0);
    let er = Err::<bool, Error<E>>(r->Err_0);
    let om = Ok::<bool, Error<E>>(m);
    let on = Ok::<bool, Error<E>>(n);
    if fails(s, q) && fails(t, r) {
        enter_decided(s, eq, t, er);
    } else if fails(s, q) {
        enter_decided(s, eq, c, on);
        lemma_one(s, eq, c, on, d);
    } else if fails(t, r) {
        enter_decided(t, er, a, om);
        lemma_one(t, er, a, om, b);
    } else {
        enter_decided(a, om, c, on);
        if om == on {
            after_enter_decided(m, b, q, d, r);
        }
        lemma_both(a, om, b, q, c, on, d, r);
    }
}

/// Event `k` of a wait for the memory: a pause or a reading of the status.
proof fn lemma_otp_waited<E>(statuses: Seq<u8>, t: Trace<E>, r: Result<(), Error<E>>, k: int)
    requires
        protocol::otp_waited(statuses, t, r),
        0 <= k < t.len(),
    ensures
        t.len() == 2 * statuses.len() + (if r is Err {
            2int
        } else {
            0
        }),
        k % 2 == 0 ==> t[k] == trace::paused::<E>(300),
        k % 2 == 1 && k / 2 < statuses.len() ==> t[k] == trace::read::<E>(
            Register::OTP_STATUS_REG,
            Ok(statuses[k / 2]),
        ),
        k % 2 == 1 && k / 2 >= statuses.len() ==> r is Err && t[k] == trace::read::<E>(
            Register::OTP_STATUS_REG,
            Err(r->Err_0),
        ),
{
    protocol::lemma_otp_polls::<E>(statuses);
    let polls = protocol::otp_polls::<E>(statuses);
    if k < polls.len() {
        let status = statuses[k / 2];
        assert(k == 2 * (k / 2) + k % 2);
        assert(t[k] == polls[k]);
    }
}

proof fn otp_wait_decided<E>(
    s: Trace<E>,
    q: Result<(), Error<E>>,
    t: Trace<E>,
    r: Result<(), Error<E>>,
)
    requires
        protocol::otp_wait_run(s, q),
        protocol::otp_wait_run(t, r),
    ensures
        decided(s, q, t, r),
{
    let x = choose|x: Seq<u8>| #[trigger] protocol::otp_waited(x, s, q);
    let y = choose|y: Seq<u8>| #[trigger] protocol::otp_waited(y, t, r);
    protocol::lemma_otp_polls::<E>(x);
    protocol::lemma_otp_polls::<E>(y);
    let n = if s.len() <= t.len() {
        s.len() as int
    } else {
        t.len() as int
    };
    assert forall|i: int| 0 <= i < n implies same_action(s[i], #[trigger] t[i]) by {
        lemma_otp_waited(x, s, q, i);
        lemma_otp_waited(y, t, r, i);
    }
    lemma_align(s, t, n);
    if !part(s, t) {
        lemma_otp_waited(x, s, q, n - 1);
        lemma_otp_waited(y, t, r, n - 1);
        assert(s[n - 1] == t[n - 1]);
        // The last common reading decides: it failed, completed or was the last.
        let k = (n - 1) / 2;
        assert((n - 1) % 2 == 1);
        if k < x.len() && k < y.len() {
            assert(x[k] == y[k]);
        }
        assert(s.len() == t.len());
        assert(s =~= t);
        if q is Ok {
            lemma_unit(q, r);
        }
    }
}

proof fn otp_data_decided<E>(
    s: Trace<E>,
    q: Result<u16, Error<E>>,
    t: Trace<E>,
    r: Result<u16, Error<E>>,
)
    requires
        protocol::otp_data_run(s, q),
        protocol::otp_data_run(t, r),
    ensures
        decided(s, q, t, r),
{
    lemma_step(s, t, 0);
    if !part(s, t) && s.len() > 1 && t.len() > 1 {
        lemma_step(s, t, 1);
        if !part(s, t) && q is Ok && r is Ok {
            let (m, n) = choose|m: u8, n: u8|
                s == seq![
                    #[trigger] trace::read::<E>(Register::OTP_DATA_MSB_REG, Ok(m)),
                    #[trigger] trace::read::<E>(Register::OTP_DATA_LSB_REG, Ok(n)),
                ] && q->Ok_0 == codec::word(m, n);
            let (x, y) = choose|x: u8, y: u8|
                t == seq![
                    #[trigger] trace::read::<E>(Register::OTP_DATA_MSB_REG, Ok(x)),
                    #[trigger] trace::read::<E>(Register::OTP_DATA_LSB_REG, Ok(y)),
                ] && r->Ok_0 == codec::word(x, y);
            assert(s[0] == trace::read::<E>(Register::OTP_DATA_MSB_REG, Ok(m)));
            assert(t[0] == trace::read::<E>(Register::OTP_DATA_MSB_REG, Ok(x)));
            assert(s[1] == trace::read::<E>(Register::OTP_DATA_LSB_REG, Ok(n)));
            assert(t[1] == trace::read::<E>(Register::OTP_DATA_LSB_REG, Ok(y)));
        }
    }
    if !part(s, t) {
        assert(s =~= t);
    }
}

proof fn otp_fetch_decided<E>(
    s: Trace<E>,
    q: Result<u16, Error<E>>,
    t: Trace<E>,
    r: Result<u16, Error<E>>,
)
    requires
        protocol::otp_fetch_run(s, q),
        protocol::otp_fetch_run(t, r),
    ensures
        decided(s, q, t, r),
{
    let fails = |t: Trace<E>, r: Result<u16, Error<E>>|
        r is Err && protocol::otp_wait_run::<E>(t, Err(r->Err_0));
    let (a, b) = choose|a: Trace<E>, b: Trace<E>|
        s == a + b && #[trigger] protocol::otp_wait_run(a, Ok(()))
            && #[trigger] protocol::otp_data_run(b, q);
    let (c, d) = choose|c: Trace<E>, d: Trace<E>|
        t == c + d && #[trigger] protocol::otp_wait_run(c, Ok(()))
            && #[trigger] protocol::otp_data_run(d, r);
    let done = Ok::<(), Error<E>>(());
    let eq = Err::<(), Error<E>>(q->Err_0);
    let er = Err::<(), Error<E>>(r->Err_0);
    if fails(s, q) && fails(t, r) {
        otp_wait_decided(s, eq, t, er);
    } else if fails(s, q) {
        otp_wait_decided(s, eq, c, done);
        lemma_one(s, eq, c, done, d);
    } else if fails(t, r) {
        otp_wait_decided(t, er, a, done);
        lemma_one(t, er, a, done, b);
    } else {
        otp_wait_decided(a, done, c, done);
        otp_data_decided(b, q, d, r);
        lemma_both(a, done, b, q, c, done, d, r);
    }
}

/// What the reading of one word of the memory does and returns is decided by the
/// answers of the device.
pub proof fn otp_word_decided<E>(
    addr: u8,
    s: Trace<E>,
    q: Result<u16, Error<E>>,
    t: Trace<E>,
    r: Result<u16, Error<E>>,
)
    requires
        protocol::otp_word_run(addr, s, q),
        protocol::otp_word_run(addr, t, r),
    ensures
        decided(s, q, t, r),
{
    let command = codec::otp_read_command(addr);
    lemma_step(s, t, 0);
    if !part(s, t) {
        let fails = |t: Trace<E>, r: Result<u16, Error<E>>|
            r is Err && t == seq![
                trace::wrote::<E>(Register::OTP_CMD_REG, command, Err(r->Err_0)),
            ];
        if fails(s, q) || fails(t, r) {
            assert(s =~= t);
        } else {
            let first = seq![trace::wrote::<E>(Register::OTP_CMD_REG, command, Ok(()))];
            let a = choose|a: Trace<E>| s == first + a && #[trigger] protocol::otp_fetch_run(a, q);
            let b = choose|b: Trace<E>| t == first + b && #[trigger] protocol::otp_fetch_run(b, r);
            otp_fetch_decided(a, q, b, r);
            lemma_both(first, (), a, q, first, (), b, r);
        }
    }
}

proof fn otp_words_decided<E>(x: Seq<u16>, s: Trace<E>, y: Seq<u16>, t: Trace<E>)
    requires
        x.len() == y.len(),
        protocol::otp_words_run(x, s),
        protocol::otp_words_run(y, t),
    ensures
        decided(s, x, t, y),
    decreases x.len(),
{
    if x.len() == 0 {
        assert(s =~= t);
        assert(x =~= y);
    } else {
        let addr = (x.len() - 1) as u8;
        let (a, b) = choose|a: Trace<E>, b: Trace<E>|
            s == #[trigger] (a + b) && protocol::otp_words_run(x.drop_last(), a)
                && protocol::otp_word_run(addr, b, Ok(x.last()));
        let (c, d) = choose|c: Trace<E>, d: Trace<E>|
            t == #[trigger] (c + d) && protocol::otp_words_run(y.drop_last(), c)
                && protocol::otp_word_run(addr, d, Ok(y.last()));
        otp_words_decided(x.drop_last(), a, y.drop_last(), c);
        let p = Ok::<u16, Error<E>>(x.last());
        let q = Ok::<u16, Error<E>>(y.last());
        otp_word_decided(addr, b, p, d, q);
        if part(a, c) {
            lemma_part_more(a, b, c, d);
        } else if part(b, d) {
            lemma_part_later(a, b, d);
        } else {
            assert(x =~= x.drop_last().push(x.last()));
            assert(y =~= y.drop_last().push(y.last()));
        }
    }
}

/// A reading of more words begins with the reading of the first `n` and of the
/// word after them.
proof fn lemma_otp_split<E>(words: Seq<u16>, t: Trace<E>, n: int) -> (pieces: (
    Trace<E>,
    Trace<E>,
    Trace<E>,
))
    requires
        protocol::otp_words_run(words, t),
        0 <= n < words.len() <= 256,
    ensures
        t == pieces.0 + pieces.1 + pieces.2,
        protocol::otp_words_run(words.take(n), pieces.0),
        protocol::otp_word_run(n as u8, pieces.1, Ok(words[n])),
    decreases words.len(),
{
    let less = words.drop_last();
    let (a, b) = choose|a: Trace<E>, b: Trace<E>|
        t == #[trigger] (a + b) && protocol::otp_words_run(less, a) && protocol::otp_word_run(
            (words.len() - 1) as u8,
            b,
            Ok(words.last()),
        );
    if n == words.len() - 1 {
        assert(words.take(n) =~= less);
        assert(t =~= a + b + Seq::<Event<Error<E>>>::empty());
        (a, b, Seq::empty())
    } else {
        let (x, y, z) = lemma_otp_split(less, a, n);
        assert(less.take(n) =~= words.take(n));
        assert(t =~= x + y + (z + b));
        (x, y, z + b)
    }
}

/// A reading that fails at word `n` parts from one that comes further.
proof fn lemma_otp_cut<E>(
    x: Seq<u16>,
    a: Trace<E>,
    b: Trace<E>,
    e: Error<E>,
    y: Seq<u16>,
    t: Trace<E>,
)
    requires
        protocol::otp_words_run(x, a),
        protocol::otp_word_run(x.len() as u8, b, Err(e)),
        protocol::otp_words_run(y, t),
        x.len() < y.len() <= 256,
    ensures
        part(a + b, t),
{
    let n = x.len() as int;
    let (p, q, z) = lemma_otp_split(y, t, n);
    otp_words_decided(x, a, y.take(n), p);
    let bad = Err::<u16, Error<E>>(e);
    let good = Ok::<u16, Error<E>>(y[n]);
    otp_word_decided(x.len() as u8, b, bad, q, good);
    if part(a, p) {
        lemma_part_more(a, b, p, q);
    } else {
        lemma_part_later(a, b, q);
    }
    lemma_part_more(a + b, Seq::empty(), p + q, z);
}

proof fn otp_dump_decided<E>(
    s: Trace<E>,
    q: Result<Seq<u16>, Error<E>>,
    t: Trace<E>,
    r: Result<Seq<u16>, Error<E>>,
)
    requires
        protocol::otp_dump_run(s, q),
        protocol::otp_dump_run(t, r),
    ensures
        decided(s, q, t, r),
{
    let (x, a, b) = choose|x: Seq<u16>, a: Trace<E>, b: Trace<E>|
        s == a + b && x.len() < codec::OTP_WORDS && #[trigger] protocol::otp_words_run(x, a)
            && #[trigger] protocol::otp_word_run::<E>(x.len() as u8, b, Err(q->Err_0));
    let (y, c, d) = choose|y: Seq<u16>, c: Trace<E>, d: Trace<E>|
        t == c + d && y.len() < codec::OTP_WORDS && #[trigger] protocol::otp_words_run(y, c)
            && #[trigger] protocol::otp_word_run::<E>(y.len() as u8, d, Err(r->Err_0));
    match (q, r) {
        (Ok(v), Ok(w)) => otp_words_decided(v, s, w, t),
        (Err(e), Ok(w)) => lemma_otp_cut(x, a, b, e, w, t),
        (Ok(v), Err(f)) => {
            lemma_otp_cut(y, c, d, f, v, s);
            lemma_part_sym(t, s);
        },
        (Err(e), Err(f)) => {
            let eq = Err::<u16, Error<E>>(e);
            let er = Err::<u16, Error<E>>(f);
            if x.len() == y.len() {
                otp_words_decided(x, a, y, c);
                otp_word_decided(x.len() as u8, b, eq, d, er);
                lemma_both(a, x, b, eq, c, y, d, er);
            } else if x.len() < y.len() {
                lemma_otp_cut(x, a, b, e, y, c);
                lemma_part_more(a + b, Seq::empty(), c, d);
            } else {
                lemma_otp_cut(y, c, d, f, x, a);
                lemma_part_more(c + d, Seq::empty(), a, b);
                lemma_part_sym(c + d, a + b);
            }
        },
    }
}

/// What [`init`](crate::device::Bmm350::init) does, returns and learns of the
/// device is decided by the answers of the device.
pub proof fn init_decided<E>(
    before: Calibration,
    s: Trace<E>,
    q: Result<(), Error<E>>,
    m: Calibration,
    t: Trace<E>,
    r: Result<(), Error<E>>,
    n: Calibration,
)
    requires
        protocol::init_run(before, m, s, q),
        protocol::init_run(before, n, t, r),
    ensures
        decided(s, (q, m), t, (r, n)),
{
    lemma_step(s, t, 0);
    lemma_step(s, t, 1);
    if !part(s, t) && s.len() > 2 && t.len() > 2 {
        lemma_step(s, t, 2);
        lemma_step(s, t, 3);
    }
    if !part(s, t) {
        let hello = protocol::greeting::<E>(Ok(Register::BMM350_CHIP_ID));
        if s.len() == 2 || t.len() == 2 {
            assert(s =~= t);
        } else if s[3] != hello[3] {
            assert(s =~= t);
            if trace::fault(s[3]) is None {
                assert(q->Err_0 == Error::<E>::InvalidDevice);
            }
        } else {
            assert(hello.len() == 4);
            assert forall|id: u8| id != Register::BMM350_CHIP_ID implies hello
                != #[trigger] protocol::greeting::<E>(Ok(id)) && s[3] != protocol::greeting::<E>(
                Ok(id),
            )[3] by {
                let other = trace::read::<E>(Register::CHIPID, Ok(id));
                assert(protocol::greeting::<E>(Ok(id))[3] == other);
            }
            let a = choose|a: Trace<E>|
                s == hello + a && #[trigger] protocol::setup_run(before, m, a, q);
            let b = choose|b: Trace<E>|
                t == hello + b && #[trigger] protocol::setup_run(before, n, b, r);
            setup_decided(before, a, q, m, b, r, n);
            lemma_both(hello, (), a, (q, m), hello, (), b, (r, n));
        }
    }
}

/// What the reading of the whole memory does, returns and learns of the device is
/// decided by the answers of the device.
pub proof fn boot_decided<E>(
    before: Calibration,
    s: Trace<E>,
    q: Result<(), Error<E>>,
    m: Calibration,
    t: Trace<E>,
    r: Result<(), Error<E>>,
    n: Calibration,
)
    requires
        protocol::boot_run(before, m, s, q),
        protocol::boot_run(before, n, t, r),
    ensures
        decided(s, (q, m), t, (r, n)),
{
    let x = choose|x: Seq<u16>| #[trigger]
        protocol::otp_dump_run::<E>(s, Ok(x)) && m == protocol::calibration_of(x);
    let y = choose|y: Seq<u16>| #[trigger]
        protocol::otp_dump_run::<E>(t, Ok(y)) && n == protocol::calibration_of(y);
    let qs = if q is Ok {
        Ok::<Seq<u16>, Error<E>>(x)
    } else {
        Err(q->Err_0)
    };
    let rs = if r is Ok {
        Ok::<Seq<u16>, Error<E>>(y)
    } else {
        Err(r->Err_0)
    };
    otp_dump_decided(s, qs, t, rs);
    if q is Ok && r is Ok {
        lemma_unit(q, r);
    }
}

proof fn after_boot_decided<E>(
    s: Trace<E>,
    q: Result<(), Error<E>>,
    t: Trace<E>,
    r: Result<(), Error<E>>,
)
    requires
        protocol::after_boot_run(s, q),
        protocol::after_boot_run(t, r),
    ensures
        decided(s, q, t, r),
{
    let off = Register::OTP_CMD_PWR_OFF_OTP;
    lemma_step(s, t, 0);
    if !part(s, t) {
        let fails = |t: Trace<E>, r: Result<(), Error<E>>|
            r is Err && t == seq![trace::wrote::<E>(Register::OTP_CMD_REG, off, Err(r->Err_0))];
        if fails(s, q) || fails(t, r) {
            assert(s =~= t);
        } else {
            let first = seq![trace::wrote::<E>(Register::OTP_CMD_REG, off, Ok(()))];
            let a = choose|a: Trace<E>| s == first + a && #[trigger] protocol::reset_run(a, q);
            let b = choose|b: Trace<E>| t == first + b && #[trigger] protocol::reset_run(b, r);
            magnetic_reset_decided(a, q, b, r);
            lemma_both(first, (), a, q, first, (), b, r);
        }
    }
}

proof fn setup_decided<E>(
    before: Calibration,
    s: Trace<E>,
    q: Result<(), Error<E>>,
    m: Calibration,
    t: Trace<E>,
    r: Result<(), Error<E>>,
    n: Calibration,
)
    requires
        protocol::setup_run(before, m, s, q),
        protocol::setup_run(before, n, t, r),
    ensures
        decided(s, (q, m), t, (r, n)),
{
    let fails = |t: Trace<E>, r: Result<(), Error<E>>, n: Calibration|
        r is Err && protocol::boot_run(before, n, t, r);
    let (a, b) = choose|a: Trace<E>, b: Trace<E>|
        s == a + b && #[trigger] protocol::boot_run(before, m, a, Ok(()))
            && #[trigger] protocol::after_boot_run(b, q);
    let (c, d) = choose|c: Trace<E>, d: Trace<E>|
        t == c + d && #[trigger] protocol::boot_run(before, n, c, Ok(()))
            && #[trigger] protocol::after_boot_run(d, r);
    let done = Ok::<(), Error<E>>(());
    if fails(s, q, m) && fails(t, r, n) {
        boot_decided(before, s, q, m, t, r, n);
    } else if fails(s, q, m) {
        boot_decided(before, s, q, m, c, done, n);
        lemma_one(s, (q, m), c, (done, n), d);
    } else if fails(t, r, n) {
        boot_decided(before, t, r, n, a, done, m);
        lemma_one(t, (r, n), a, (done, m), b);
    } else {
        boot_decided(before, a, done, m, c, done, n);
        after_boot_decided(b, q, d, r);
        lemma_both(a, (done, m), b, q, c, (done, n), d, r);
        if part(a, c) {
            lemma_part_more(a, b, c, d);
        }
    }
}

/// The byte that the last reading of a wait for data brought.
spec fn last_status<E>(t: Trace<E>) -> u8 {
    choose|last: u8| t.last() == #[trigger] trace::read::<E>(Register::STATUS, Ok(last))
}

/// Event `k` of a wait for data: a reading of the status or a pause.
proof fn lemma_ready_waited<E>(statuses: Seq<u8>, t: Trace<E>, r: Result<(), Error<E>>, k: int)
    requires
        protocol::ready_waited(statuses, t, r),
        0 <= k < t.len(),
    ensures
        t.len() == 2 * statuses.len() || t.len() == 2 * statuses.len() + 1,
        t.len() == 2 * statuses.len() ==> statuses.len() == protocol::READY_POLLS && r == Err::<
            (),
            Error<E>,
        >(Error::Timeout),
        t.len() > 2 * statuses.len() ==> statuses.len() < protocol::READY_POLLS,
        k % 2 == 1 ==> t[k] == trace::paused::<E>(1_000),
        k % 2 == 0 && k / 2 < statuses.len() ==> t[k] == trace::read::<E>(
            Register::STATUS,
            Ok(statuses[k / 2]),
        ),
        k % 2 == 0 && k / 2 >= statuses.len() ==> k == t.len() - 1 && match r {
            Ok(_) => t[k] == trace::read::<E>(Register::STATUS, Ok(last_status(t)))
                && codec::data_ready(last_status(t)),
            Err(e) => t[k] == trace::read::<E>(Register::STATUS, Err(e)),
        },
{
    protocol::lemma_ready_polls::<E>(statuses);
    let polls = protocol::ready_polls::<E>(statuses);
    if k < polls.len() {
        let status = statuses[k / 2];
        assert(k == 2 * (k / 2) + k % 2);
        assert(t[k] == polls[k]);
    } else if r is Ok {
        let last = choose|last: u8|
            codec::data_ready(last) && t == polls + seq![
                #[trigger] trace::read::<E>(Register::STATUS, Ok(last)),
            ];
        assert(t.last() == trace::read::<E>(Register::STATUS, Ok(last)));
    }
}

/// What a wait for data does and returns is decided by the answers of the device.
pub proof fn ready_decided<E>(
    s: Trace<E>,
    q: Result<(), Error<E>>,
    t: Trace<E>,
    r: Result<(), Error<E>>,
)
    requires
        protocol::ready_run(s, q),
        protocol::ready_run(t, r),
    ensures
        decided(s, q, t, r),
{
    let x = choose|x: Seq<u8>| #[trigger] protocol::ready_waited(x, s, q);
    let y = choose|y: Seq<u8>| #[trigger] protocol::ready_waited(y, t, r);
    protocol::lemma_ready_polls::<E>(x);
    protocol::lemma_ready_polls::<E>(y);
    let n = if s.len() <= t.len() {
        s.len() as int
    } else {
        t.len() as int
    };
    lemma_ready_waited(x, s, q, 0);
    lemma_ready_waited(y, t, r, 0);
    assert forall|i: int| 0 <= i < n implies same_action(s[i], #[trigger] t[i]) by {
        lemma_ready_waited(x, s, q, i);
        lemma_ready_waited(y, t, r, i);
    }
    lemma_align(s, t, n);
    if !part(s, t) {
        lemma_ready_waited(x, s, q, n - 1);
        lemma_ready_waited(y, t, r, n - 1);
        assert(s[n - 1] == t[n - 1]);
        // The last common reading decides: it failed, showed data or was the last.
        assert(s.len() == t.len());
        assert(s =~= t);
        if q is Ok {
            lemma_unit(q, r);
        }
    }
}

/// What [`set_mag_config`](crate::device::Bmm350::set_mag_config) does and
/// returns is decided by the answers of the device.
pub proof fn set_mag_config_decided<E>(
    config: MagConfig,
    s: Trace<E>,
    q: Result<(), Error<E>>,
    t: Trace<E>,
    r: Result<(), Error<E>>,
)
    requires
        protocol::config_run(config, s, q),
        protocol::config_run(config, t, r),
    ensures
        decided(s, q, t, r),
{
    let bits = config.spec_bits();
    lemma_step(s, t, 0);
    if !part(s, t) {
        let fails = |t: Trace<E>, r: Result<(), Error<E>>|
            r is Err && t == seq![
                trace::wrote_word::<E>(Register::PMU_CMD_AGGR_SET, bits, Err(r->Err_0)),
            ];
        if fails(s, q) || fails(t, r) {
            assert(s =~= t);
        } else {
            let first = seq![trace::wrote_word::<E>(Register::PMU_CMD_AGGR_SET, bits, Ok(()))];
            let a = choose|a: Trace<E>| s == first + a && #[trigger] protocol::ready_run(a, q);
            let b = choose|b: Trace<E>| t == first + b && #[trigger] protocol::ready_run(b, r);
            ready_decided(a, q, b, r);
            lemma_both(first, (), a, q, first, (), b, r);
        }
    }
}

/// What [`get_interrupt_status`](crate::device::Bmm350::get_interrupt_status)
/// does and returns is decided by the answers of the device.
pub proof fn get_interrupt_status_decided<E>(
    s: Trace<E>,
    q: Result<bool, Error<E>>,
    t: Trace<E>,
    r: Result<bool, Error<E>>,
)
    requires
        protocol::interrupt_status_run(s, q),
        protocol::interrupt_status_run(t, r),
    ensures
        decided(s, q, t, r),
{
    lemma_step(s, t, 0);
    if !part(s, t) {
        assert(s =~= t);
        if q is Ok {
            let x = choose|x: u8|
                s == seq![#[trigger] trace::read::<E>(Register::STATUS, Ok(x))] && q->Ok_0
                    == codec::data_ready(x);
            let y = choose|y: u8|
                t == seq![#[trigger] trace::read::<E>(Register::STATUS, Ok(y))] && r->Ok_0
                    == codec::data_ready(y);
            assert(s[0] == trace::read::<E>(Register::STATUS, Ok(x)));
            assert(t[0] == trace::read::<E>(Register::STATUS, Ok(y)));
        }
    }
}

/// What an operation that writes one byte does and returns is decided by the
/// answers of the device.
pub proof fn write_decided<E>(
    register: u8,
    value: u8,
    s: Trace<E>,
    q: Result<(), Error<E>>,
    t: Trace<E>,
    r: Result<(), Error<E>>,
)
    requires
        protocol::write_run(register, value, s, q),
        protocol::write_run(register, value, t, r),
    ensures
        decided(s, q, t, r),
{
    lemma_step(s, t, 0);
    if !part(s, t) {
        assert(s =~= t);
    }
}

/// What [`enable_interrupt`](crate::device::Bmm350::enable_interrupt) and
/// [`configure_interrupt`](crate::device::Bmm350::configure_interrupt) do and
/// return is decided by the answers of the device.
pub proof fn interrupt_control_decided<E>(
    value: u8,
    s: Trace<E>,
    q: Result<(), Error<E>>,
    t: Trace<E>,
    r: Result<(), Error<E>>,
)
    requires
        protocol::interrupt_control_run(value, s, q),
        protocol::interrupt_control_run(value, t, r),
    ensures
        decided(s, q, t, r),
{
    lemma_step(s, t, 0);
    if !part(s, t) && s.len() > 1 && t.len() > 1 {
        lemma_step(s, t, 1);
    }
    if !part(s, t) {
        assert(s =~= t);
    }
}

/// What [`set_odr_performance`](crate::device::Bmm350::set_odr_performance)
/// does and returns is decided by the answers of the device.
pub proof fn set_odr_performance_decided<E>(
    value: u8,
    s: Trace<E>,
    q: Result<(), Error<E>>,
    t: Trace<E>,
    r: Result<(), Error<E>>,
)
    requires
        protocol::rate_run(value, s, q),
        protocol::rate_run(value, t, r),
    ensures
        decided(s, q, t, r),
{
    lemma_step(s, t, 0);
    if !part(s, t) && s.len() > 1 && t.len() > 1 {
        lemma_step(s, t, 1);
    }
    if !part(s, t) {
        assert(s =~= t);
        if q is Ok {
            lemma_unit(q, r);
        }
    }
}

/// What [`read_mag_data`](crate::device::Bmm350::read_mag_data) does and
/// returns is decided by the answers of the device.
pub proof fn read_mag_data_decided<E>(
    s: Trace<E>,
    q: Result<Sensor3DData, Error<E>>,
    t: Trace<E>,
    r: Result<Sensor3DData, Error<E>>,
)
    requires
        protocol::sample_run(s, q),
        protocol::sample_run(t, r),
    ensures
        decided(s, q, t, r),
{
    lemma_step(s, t, 0);
    if !part(s, t) {
        assert(s =~= t);
    }
}

proof fn self_test_restore_decided<E>(
    power: u8,
    odr: u8,
    s: Trace<E>,
    q: Result<bool, Error<E>>,
    t: Trace<E>,
    r: Result<bool, Error<E>>,
)
    requires
        protocol::self_test_restore_run(power, odr, s, q),
        protocol::self_test_restore_run(power, odr, t, r),
    ensures
        decided(s, q, t, r),
{
    lemma_step(s, t, 0);
    if !part(s, t) && s.len() > 1 && t.len() > 1 {
        lemma_step(s, t, 1);
    }
    if !part(s, t) {
        assert(s =~= t);
    }
}

proof fn self_test_config_decided<E>(
    power: u8,
    odr: u8,
    s: Trace<E>,
    q: Result<bool, Error<E>>,
    t: Trace<E>,
    r: Result<bool, Error<E>>,
)
    requires
        protocol::self_test_config_run(power, odr, s, q),
        protocol::self_test_config_run(power, odr, t, r),
    ensures
        decided(s, q, t, r),
{
    let config = protocol::self_test_config();
    let fails = |t: Trace<E>, r: Result<bool, Error<E>>|
        r is Err && protocol::config_run::<E>(config, t, Err(r->Err_0));
    let (a, b) = choose|a: Trace<E>, b: Trace<E>|
        s == a + b && #[trigger] protocol::config_run(config, a, Ok(()))
            && #[trigger] protocol::self_test_restore_run(power, odr, b, q);
    let (c, d) = choose|c: Trace<E>, d: Trace<E>|
        t == c + d && #[trigger] protocol::config_run(config, c, Ok(()))
            && #[trigger] protocol::self_test_restore_run(power, odr, d, r);
    let done = Ok::<(), Error<E>>(());
    let eq = Err::<(), Error<E>>(q->Err_0);
    let er = Err::<(), Error<E>>(r->Err_0);
    if fails(s, q) && fails(t, r) {
        set_mag_config_decided(config, s, eq, t, er);
    } else if fails(s, q) {
        set_mag_config_decided(config, s, eq, c, done);
        lemma_one(s, eq, c, done, d);
    } else if fails(t, r) {
        set_mag_config_decided(config, t, er, a, done);
        lemma_one(t, er, a, done, b);
    } else {
        set_mag_config_decided(config, a, done, c, done);
        self_test_restore_decided(power, odr, b, q, d, r);
        lemma_both(a, done, b, q, c, done, d, r);
    }
}

proof fn self_test_mode_decided<E>(
    power: u8,
    odr: u8,
    s: Trace<E>,
    q: Result<bool, Error<E>>,
    t: Trace<E>,
    r: Result<bool, Error<E>>,
)
    requires
        protocol::self_test_mode_run(power, odr, s, q),
        protocol::self_test_mode_run(power, odr, t, r),
    ensures
        decided(s, q, t, r),
{
    let mode = PowerMode::Normal;
    let fails = |t: Trace<E>, r: Result<bool, Error<E>>|
        r is Err && protocol::switch_run::<E>(mode, t, Err(r->Err_0));
    let (a, b) = choose|a: Trace<E>, b: Trace<E>|
        s == a + b && #[trigger] protocol::switch_run(mode, a, Ok(()))
            && #[trigger] protocol::self_test_config_run(power, odr, b, q);
    let (c, d) = choose|c: Trace<E>, d: Trace<E>|
        t == c + d && #[trigger] protocol::switch_run(mode, c, Ok(()))
            && #[trigger] protocol::self_test_config_run(power, odr, d, r);
    let done = Ok::<(), Error<E>>(());
    let eq = Err::<(), Error<E>>(q->Err_0);
    let er = Err::<(), Error<E>>(r->Err_0);
    if fails(s, q) && fails(t, r) {
        set_power_mode_decided(mode, s, eq, t, er);
    } else if fails(s, q) {
        set_power_mode_decided(mode, s, eq, c, done);
        lemma_one(s, eq, c, done, d);
    } else if fails(t, r) {
        set_power_mode_decided(mode, t, er, a, done);
        lemma_one(t, er, a, done, b);
    } else {
        set_power_mode_decided(mode, a, done, c, done);
        self_test_config_decided(power, odr, b, q, d, r);
        lemma_both(a, done, b, q, c, done, d, r);
    }
}

/// What a self-test does and returns is decided by the answers of the device.
pub proof fn self_test_decided<E>(
    s: Trace<E>,
    q: Result<bool, Error<E>>,
    t: Trace<E>,
    r: Result<bool, Error<E>>,
)
    requires
        protocol::self_test_run(s, q),
        protocol::self_test_run(t, r),
    ensures
        decided(s, q, t, r),
{
    lemma_step(s, t, 0);
    if !part(s, t) && s.len() > 1 && t.len() > 1 {
        lemma_step(s, t, 1);
        if !part(s, t) && trace::fault(s[1]) is None {
            let (m, n, a) = choose|m: u8, n: u8, a: Trace<E>|
                s == seq![
                    trace::read::<E>(Register::PMU_CMD, Ok(m)),
                    trace::read::<E>(Register::PMU_CMD_AGGR_SET, Ok(n)),
                ] + a && #[trigger] protocol::self_test_mode_run(m, n, a, q);
            let (x, y, b) = choose|x: u8, y: u8, b: Trace<E>|
                t == seq![
                    trace::read::<E>(Register::PMU_CMD, Ok(x)),
                    trace::read::<E>(Register::PMU_CMD_AGGR_SET, Ok(y)),
                ] + b && #[trigger] protocol::self_test_mode_run(x, y, b, r);
            assert(s[0] == trace::read::<E>(Register::PMU_CMD, Ok(m)));
            assert(t[0] == trace::read::<E>(Register::PMU_CMD, Ok(x)));
            assert(s[1] == trace::read::<E>(Register::PMU_CMD_AGGR_SET, Ok(n)));
            assert(t[1] == trace::read::<E>(Register::PMU_CMD_AGGR_SET, Ok(y)));
            let lead = seq![
                trace::read::<E>(Register::PMU_CMD, Ok(m)),
                trace::read::<E>(Register::PMU_CMD_AGGR_SET, Ok(n)),
            ];
            self_test_mode_decided(m, n, a, q, b, r);
            lemma_both(lead, (), a, q, lead, (), b, r);
        } else if !part(s, t) {
            assert(s =~= t);
        }
    } else if !part(s, t) {
        assert(s =~= t);
    }
}

} // verus!
