//! The SD card slot.
use crate::mmio::{Access, Mmio};
use crate::sdhci;
pub use crate::sdhci::CardInfo;
use crate::sdhci::{Cid, Host, HostError, HostResponse, InitStep, ResponseType, SdCommand};
use vstd::prelude::*;

verus! {

/// Address of the controller.
pub const SDHCI_PHYS: u64 = 0x10_7D51_0000;

/// Bytes of its registers.
pub const SDHCI_SIZE: usize = 4096;

/// The command that announces the next one as an application command.
pub open spec fn app_cmd() -> SdCommand {
    SdCommand { cmd: sdhci::cmd::APP_CMD, arg: 0, rsp: ResponseType::R1 }
}

/// The card's data register after a step that was answered with `long`: the answer to
/// the question for it is kept.
pub open spec fn kept_csd(step: InitStep, long: Seq<u32>, csd: Seq<u32>) -> Seq<u32> {
    if step is SendCsd {
        long
    } else {
        csd
    }
}

/// What is known of the card's identification after a step that was answered with
/// `long`: the answer to the question for it is kept.
pub open spec fn kept_cid(step: InitStep, long: Seq<u32>, cid: Option<Seq<u32>>) -> Option<
    Seq<u32>,
> {
    if step is AllSendCid {
        Some(long)
    } else {
        cid
    }
}

/// The words of an answer that was kept.
pub open spec fn words_of(a: Option<[u32; 4]>) -> Option<Seq<u32>> {
    match a {
        Some(w) => Some(w@),
        None => None,
    }
}

/// The long answer that a step goes by: when the card is selected, that is the data
/// register that was kept.
pub open spec fn long_answer(step: InitStep, long: Seq<u32>, csd: Seq<u32>) -> Seq<u32> {
    if step is SelectCard {
        csd
    } else {
        long
    }
}

/// From `t0` to `t1` the card was taken from `step` to its end, with result `r`. `csd`
/// is what is known of its data register, and `cid` of its identification, of which
/// `known` is what is known at the end.
pub open spec fn initialised_from(
    t0: Seq<Access>,
    t1: Seq<Access>,
    step: InitStep,
    csd: Seq<u32>,
    cid: Option<Seq<u32>>,
    budget: u32,
    r: Result<CardInfo, HostError>,
    known: Option<Seq<u32>>,
) -> bool
    decreases sdhci::init_steps_left(step), 1int, 0int,
{
    match step {
        InitStep::Done { rca, csd: data, .. } => t1 == t0 && known == cid && r == Ok::<
            CardInfo,
            HostError,
        >(CardInfo { rca, csd: data, blocks: data.capacity_bytes / 512 }),
        InitStep::Error(_) => t1 == t0 && known == cid && r == Err::<CardInfo, HostError>(
            HostError::BadResponse,
        ),
        InitStep::SendOpCond { .. } => exists|ta: Seq<Access>, ra: Result<HostResponse, HostError>|
            #[trigger] sdhci::issued(t0, ta, app_cmd(), false, budget, ra) && match ra {
                Err(e) => t1 == ta && known == cid && r == Err::<CardInfo, HostError>(e),
                Ok(_) => commanded(ta, t1, step, csd, cid, budget, r, known),
            },
        _ => commanded(t0, t1, step, csd, cid, budget, r, known),
    }
}

/// From `t0` to `t1` the command of `step` was issued, and the card was taken on
/// from its answer.
pub open spec fn commanded(
    t0: Seq<Access>,
    t1: Seq<Access>,
    step: InitStep,
    csd: Seq<u32>,
    cid: Option<Seq<u32>>,
    budget: u32,
    r: Result<CardInfo, HostError>,
    known: Option<Seq<u32>>,
) -> bool
    decreases sdhci::init_steps_left(step), 0int, 2int,
{
    &&& sdhci::command_of(step) is Some
    &&& exists|ta: Seq<Access>, ra: Result<HostResponse, HostError>|
        #[trigger] sdhci::issued(t0, ta, sdhci::command_of(step)->0, false, budget, ra) && answered(
            t1,
            step,
            csd,
            cid,
            budget,
            r,
            known,
            ta,
            ra,
        )
}

/// What followed when the command of `step` was answered with `ra`, at `ta`.
pub open spec fn answered(
    t1: Seq<Access>,
    step: InitStep,
    csd: Seq<u32>,
    cid: Option<Seq<u32>>,
    budget: u32,
    r: Result<CardInfo, HostError>,
    known: Option<Seq<u32>>,
    ta: Seq<Access>,
    ra: Result<HostResponse, HostError>,
) -> bool
    decreases sdhci::init_steps_left(step), 0int, 1int,
{
    match ra {
        Err(e) => t1 == ta && known == cid && r == Err::<CardInfo, HostError>(e),
        Ok(resp) => exists|after: InitStep|
            #[trigger] sdhci::step_follows(
                step,
                resp.r@[0],
                long_answer(step, resp.r@, csd),
                after,
            ) && goes_on(t1, step, csd, cid, budget, r, known, ta, resp, after),
    }
}

/// What followed from `after`, the step behind `step`.
pub open spec fn goes_on(
    t1: Seq<Access>,
    step: InitStep,
    csd: Seq<u32>,
    cid: Option<Seq<u32>>,
    budget: u32,
    r: Result<CardInfo, HostError>,
    known: Option<Seq<u32>>,
    ta: Seq<Access>,
    resp: HostResponse,
    after: InitStep,
) -> bool
    decreases sdhci::init_steps_left(step), 0int, 0int,
{
    &&& 0 <= sdhci::init_steps_left(after) < sdhci::init_steps_left(step)
    &&& initialised_from(
        ta,
        t1,
        after,
        kept_csd(step, resp.r@, csd),
        kept_cid(step, resp.r@, cid),
        budget,
        r,
        known,
    )
}

/// From `t0` to `t1` the controller was reset and the card brought into use; `known` is
/// how it identified itself, where it came so far.
pub open spec fn initialised(
    t0: Seq<Access>,
    t1: Seq<Access>,
    budget: u32,
    r: Result<CardInfo, HostError>,
    known: Option<Seq<u32>>,
) -> bool {
    exists|ta: Seq<Access>, ra: Result<(), HostError>|
        #[trigger] sdhci::reset_done(t0, ta, budget, ra) && match ra {
            Err(e) => t1 == ta && known is None && r == Err::<CardInfo, HostError>(e),
            Ok(()) => initialised_from(
                ta,
                t1,
                InitStep::GoIdle,
                seq![0u32, 0, 0, 0],
                None,
                budget,
                r,
                known,
            ),
        }
}

/// A card on its way, and how it identified itself, where it came so far.
type Outcome = (Result<CardInfo, HostError>, Option<[u32; 4]>);

/// Issues the command of a step and goes on from the answer.
fn command_from<M: Mmio>(
    host: &mut Host<M>,
    step: InitStep,
    csd: [u32; 4],
    cid: Option<[u32; 4]>,
    command: SdCommand,
) -> (r: Outcome)
    requires
        sdhci::command_of(step) == Some(command),
    ensures
        final(host).poll_budget == old(host).poll_budget,
        commanded(
            old(host).mmio.trace(),
            final(host).mmio.trace(),
            step,
            csd@,
            words_of(cid),
            old(host).poll_budget,
            r.0,
            words_of(r.1),
        ),
    decreases sdhci::init_steps_left(step), 0int,
{
    let ghost t0 = host.mmio.trace();
    let ra: Result<HostResponse, HostError> = host.issue_command(command, false);
    let ghost ta = host.mmio.trace();
    assert(sdhci::issued(t0, ta, sdhci::command_of(step)->0, false, old(host).poll_budget, ra));
    match ra {
        Err(e) => (Err(e), cid),
        Ok(resp) => {
            let long: [u32; 4] = match step {
                InitStep::SelectCard { rca: _ } => csd,
                _ => resp.long(),
            };
            let kept: [u32; 4] = match step {
                InitStep::SendCsd { rca: _ } => resp.long(),
                _ => csd,
            };
            let own: Option<[u32; 4]> = match step {
                InitStep::AllSendCid => Some(resp.long()),
                _ => cid,
            };
            let after: InitStep = sdhci::advance(step, resp.short(), long);
            proof {
                sdhci::law_init_ends(step, resp.r@[0], long@, after);
                lemma_steps_left(after);
                assert(long@ == long_answer(step, resp.r@, csd@));
                assert(kept@ == kept_csd(step, resp.r@, csd@));
                assert(words_of(own) == kept_cid(step, resp.r@, words_of(cid)));
            }
            assert(sdhci::step_follows(
                step,
                resp.r@[0],
                long_answer(step, resp.r@, csd@),
                after,
            ));
            run_from(host, after, kept, own)
        },
    }
}

/// The count of steps is never negative.
proof fn lemma_steps_left(step: InitStep)
    ensures
        sdhci::init_steps_left(step) >= 0,
        sdhci::init_steps_left(step) > 0 <==> sdhci::command_of(step) is Some,
{
}

/// Takes the card from a step to its end.
fn run_from<M: Mmio>(
    host: &mut Host<M>,
    step: InitStep,
    csd: [u32; 4],
    cid: Option<[u32; 4]>,
) -> (r: Outcome)
    ensures
        final(host).poll_budget == old(host).poll_budget,
        initialised_from(
            old(host).mmio.trace(),
            final(host).mmio.trace(),
            step,
            csd@,
            words_of(cid),
            old(host).poll_budget,
            r.0,
            words_of(r.1),
        ),
    decreases sdhci::init_steps_left(step), 1int,
{
    let ghost t0 = host.mmio.trace();
    match step {
        InitStep::Done { cid: _, rca, csd: data } => {
            return (Ok(CardInfo { rca, csd: data, blocks: data.blocks_512() }), cid);
        },
        InitStep::Error(_) => {
            return (Err(HostError::BadResponse), cid);
        },
        InitStep::SendOpCond { retries: _, sdhc_capable: _ } => {
            let app: SdCommand = SdCommand::new(sdhci::cmd::APP_CMD, 0, ResponseType::R1);
            let ra: Result<HostResponse, HostError> = host.issue_command(app, false);
            let ghost ta = host.mmio.trace();
            assert(sdhci::issued(t0, ta, app_cmd(), false, old(host).poll_budget, ra));
            match ra {
                Err(e) => {
                    return (Err(e), cid);
                },
                Ok(_) => {},
            }
        },
        _ => {},
    }
    match sdhci::next_command(step) {
        Some(c) => command_from(host, step, csd, cid, c),
        None => (Err(HostError::BadResponse), cid),
    }
}

/// The identification that was read from `known`.
pub open spec fn identified_as(cid: Option<Cid>, known: Option<Seq<u32>>) -> bool {
    match known {
        Some(w) => cid is Some && cid->0.is_read_from(w),
        None => cid is None,
    }
}

/// Resets the controller and brings the card into use. The negotiation of each
/// try is announced as an application command. What the card says of itself when it
/// is asked for its data register is what is returned. How it identifies itself goes
/// to `cid`, also where it cannot be brought into use after that.
pub fn init<M: Mmio>(host: &mut Host<M>, cid: &mut Option<Cid>) -> (r: Result<CardInfo, HostError>)
    ensures
        final(host).poll_budget == old(host).poll_budget,
        exists|known: Option<Seq<u32>>|
            {
                &&& #[trigger] initialised(
                    old(host).mmio.trace(),
                    final(host).mmio.trace(),
                    old(host).poll_budget,
                    r,
                    known,
                )
                &&& identified_as(*final(cid), known)
            },
{
    let ghost t0 = host.mmio.trace();
    let ra: Result<(), HostError> = host.reset_all();
    assert(sdhci::reset_done(t0, host.mmio.trace(), old(host).poll_budget, ra));
    let o: Outcome = match ra {
        Err(e) => (Err(e), None),
        Ok(()) => {
            let none: [u32; 4] = [0, 0, 0, 0];
            assert(none@ =~= seq![0u32, 0, 0, 0]);
            run_from(host, InitStep::GoIdle, none, None)
        },
    };
    *cid = match o.1 {
        Some(w) => Some(Cid::parse(w)),
        None => None,
    };
    assert(initialised(
        t0,
        host.mmio.trace(),
        old(host).poll_budget,
        o.0,
        words_of(o.1),
    ));
    o.0
}

/// From the step that asks for the card's address on, its identification stays what it
/// was.
proof fn lemma_cid_stays(
    t0: Seq<Access>,
    t1: Seq<Access>,
    step: InitStep,
    csd: Seq<u32>,
    cid: Option<Seq<u32>>,
    budget: u32,
    r: Result<CardInfo, HostError>,
    known: Option<Seq<u32>>,
)
    requires
        initialised_from(t0, t1, step, csd, cid, budget, r, known),
        step is SendRelativeAddr || step is SendCsd || step is SelectCard || step is Done
            || step is Error,
    ensures
        known == cid,
    decreases sdhci::init_steps_left(step),
{
    if !(step is Done) && !(step is Error) {
        let (ta, ra) = choose|ta: Seq<Access>, ra: Result<HostResponse, HostError>|
            #[trigger] sdhci::issued(t0, ta, sdhci::command_of(step)->0, false, budget, ra)
                && answered(t1, step, csd, cid, budget, r, known, ta, ra);
        if let Ok(resp) = ra {
            let after = choose|after: InitStep|
                #[trigger] sdhci::step_follows(
                    step,
                    resp.r@[0],
                    long_answer(step, resp.r@, csd),
                    after,
                ) && goes_on(t1, step, csd, cid, budget, r, known, ta, resp, after);
            assert(goes_on(t1, step, csd, cid, budget, r, known, ta, resp, after));
            lemma_cid_stays(
                ta,
                t1,
                after,
                kept_csd(step, resp.r@, csd),
                kept_cid(step, resp.r@, cid),
                budget,
                r,
                known,
            );
        }
    }
}

/// A card that was asked to identify itself is known by what it answered, whatever
/// becomes of it afterwards.
pub proof fn law_card_is_identified(
    t0: Seq<Access>,
    t1: Seq<Access>,
    csd: Seq<u32>,
    cid: Option<Seq<u32>>,
    budget: u32,
    r: Result<CardInfo, HostError>,
    known: Option<Seq<u32>>,
)
    requires
        initialised_from(t0, t1, InitStep::AllSendCid, csd, cid, budget, r, known),
    ensures
        exists|ta: Seq<Access>, ra: Result<HostResponse, HostError>|
            #[trigger] sdhci::issued(
                t0,
                ta,
                sdhci::command_of(InitStep::AllSendCid)->0,
                false,
                budget,
                ra,
            ) && known == (match ra {
                Ok(resp) => Some(resp.r@),
                Err(_) => cid,
            }),
{
    let step = InitStep::AllSendCid;
    assert(commanded(t0, t1, step, csd, cid, budget, r, known));
    let (ta, ra) = choose|ta: Seq<Access>, ra: Result<HostResponse, HostError>|
        #[trigger] sdhci::issued(t0, ta, sdhci::command_of(step)->0, false, budget, ra) && answered(
            t1,
            step,
            csd,
            cid,
            budget,
            r,
            known,
            ta,
            ra,
        );
    if let Ok(resp) = ra {
        let after = choose|after: InitStep|
            #[trigger] sdhci::step_follows(
                step,
                resp.r@[0],
                long_answer(step, resp.r@, csd),
                after,
            ) && goes_on(t1, step, csd, cid, budget, r, known, ta, resp, after);
        assert(goes_on(t1, step, csd, cid, budget, r, known, ta, resp, after));
        lemma_cid_stays(
            ta,
            t1,
            after,
            kept_csd(step, resp.r@, csd),
            Some(resp.r@),
            budget,
            r,
            known,
        );
    }
}

/// A card that is brought into use is described by what it answered when it was asked
/// for its data register, not by what the selection left in the registers.
pub proof fn law_card_describes_itself(
    t0: Seq<Access>,
    t1: Seq<Access>,
    rca: u16,
    csd: Seq<u32>,
    cid: Option<Seq<u32>>,
    budget: u32,
    r: Result<CardInfo, HostError>,
    known: Option<Seq<u32>>,
)
    requires
        initialised_from(t0, t1, InitStep::SelectCard { rca }, csd, cid, budget, r, known),
        r is Ok,
    ensures
        r->Ok_0.csd == sdhci::csd_of(csd),
        r->Ok_0.rca == rca,
        r->Ok_0.blocks == sdhci::csd_of(csd).capacity_bytes / 512,
        known == cid,
{
    let step = InitStep::SelectCard { rca };
    assert(commanded(t0, t1, step, csd, cid, budget, r, known));
    let (ta, ra) = choose|ta: Seq<Access>, ra: Result<HostResponse, HostError>|
        #[trigger] sdhci::issued(t0, ta, sdhci::command_of(step)->0, false, budget, ra) && answered(
            t1,
            step,
            csd,
            cid,
            budget,
            r,
            known,
            ta,
            ra,
        );
    let resp = ra->Ok_0;
    let after = choose|after: InitStep|
        #[trigger] sdhci::step_follows(
            step,
            resp.r@[0],
            long_answer(step, resp.r@, csd),
            after,
        ) && goes_on(t1, step, csd, cid, budget, r, known, ta, resp, after);
    assert(goes_on(t1, step, csd, cid, budget, r, known, ta, resp, after));
}

} // verus!
