//! Control loop: drives entries one at a time from the decoder through the
//! engine, enforces the optional entry limit, evaluates the stop condition,
//! and records the points at which an external consistency check would
//! observe a fully durable image.

use vstd::prelude::*;
use crate::codec::{decode_entry, decode_super, spec_step, spec_super, Step, SuperBlock, SUPER_SIZE};
use crate::engine::{apply_entry, spec_apply};
use crate::model::{
    should_stop, spec_stop_match, EntryModel, FormatError, LogWriteEntry, LOG_FUA_FLAG,
};

verus! {

/// Why a replay run ended.
#[derive(Clone, Copy, Debug, PartialEq, Eq, Structural)]
pub enum StopReason {
    /// The log stream was exhausted: normal completion.
    EndOfLog,
    /// The configured entry limit was reached.
    LimitReached,
    /// An entry satisfied the configured stop condition.
    StopMark,
    /// A malformed or inapplicable record halted the run.
    Failed(FormatError),
}

/// Mathematical view of a replay configuration.
pub ghost struct CfgModel {
    /// Maximum number of entries to apply; zero means unlimited.
    pub limit: u64,
    /// Flag set of the stop condition.
    pub stop_flags: u64,
    /// Target checkpoint name, when the stop condition is mark-based.
    pub end_mark: Option<Seq<char>>,
    /// Whether an external consistency check is configured.
    pub fsck: bool,
}

/// Mathematical view of a finished run: how many entries were applied, why it
/// ended, the final image, and for every external-check point the index of
/// the entry that triggered it together with the durable image the check
/// observes (the target is synced immediately before the check runs).
pub ghost struct RunModel {
    /// Number of entries applied.
    pub applied: nat,
    /// Why the run ended.
    pub reason: StopReason,
    /// The target image when the run ended.
    pub image: Seq<u8>,
    /// For each external-check invocation, the index of the entry after which
    /// it fired and the (synced, hence durable) image it observed.
    pub checks: Seq<(nat, Seq<u8>)>,
}

/// The run from position `pos` onwards, given the image, count and check
/// events accumulated so far.  Mirrors the control loop: decode one entry,
/// apply it, record a check point when the entry carries the
/// force-unit-access flag and a check is configured, then stop at the entry
/// limit, at the stop condition, or at end of log; a malformed or
/// inapplicable record ends the run with its error and an unchanged image.
#[verifier::opaque]
pub open spec fn spec_run_from(
    log: Seq<u8>,
    pos: int,
    ss: u32,
    img: Seq<u8>,
    applied: nat,
    checks: Seq<(nat, Seq<u8>)>,
    cfg: CfgModel,
) -> RunModel
    decreases log.len() - pos,
{
    match spec_step(log, pos) {
        Step::End => RunModel { applied, reason: StopReason::EndOfLog, image: img, checks },
        Step::Fail(e) => RunModel { applied, reason: StopReason::Failed(e), image: img, checks },
        Step::Next(e, pos2) => match spec_apply(img, e, ss) {
            Result::Err(er) => RunModel {
                applied,
                reason: StopReason::Failed(er),
                image: img,
                checks,
            },
            Result::Ok(img2) => {
                let applied2 = applied + 1;
                let checks2 = if cfg.fsck && (e.flags & LOG_FUA_FLAG) != 0 {
                    checks.push((applied, img2))
                } else {
                    checks
                };
                if cfg.limit > 0 && applied2 == cfg.limit {
                    RunModel {
                        applied: applied2,
                        reason: StopReason::LimitReached,
                        image: img2,
                        checks: checks2,
                    }
                } else if spec_stop_match(e, cfg.stop_flags, cfg.end_mark) {
                    RunModel {
                        applied: applied2,
                        reason: StopReason::StopMark,
                        image: img2,
                        checks: checks2,
                    }
                } else if pos < pos2 <= log.len() {
                    spec_run_from(log, pos2, ss, img2, applied2, checks2, cfg)
                } else {
                    RunModel {
                        applied: applied2,
                        reason: StopReason::EndOfLog,
                        image: img2,
                        checks: checks2,
                    }
                }
            },
        },
    }
}

/// What replaying `log` onto the initial image `img0` under `cfg` yields.
#[verifier::opaque]
pub open spec fn spec_replay(log: Seq<u8>, img0: Seq<u8>, cfg: CfgModel) -> RunModel {
    match spec_super(log) {
        Result::Err(e) => RunModel {
            applied: 0,
            reason: StopReason::Failed(e),
            image: img0,
            checks: Seq::empty(),
        },
        Result::Ok(sup) => spec_run_from(
            log,
            SUPER_SIZE as int,
            sup.sector_size,
            img0,
            0,
            Seq::empty(),
            cfg,
        ),
    }
}

/// The configuration model for the given exec-level arguments.
pub open spec fn spec_cfg(
    limit: u64,
    stop_flags: u64,
    end_mark: Option<&String>,
    fsck: bool,
) -> CfgModel {
    CfgModel {
        limit,
        stop_flags,
        end_mark: match end_mark {
            Option::Some(s) => Option::Some(s@),
            Option::None => Option::None,
        },
        fsck,
    }
}

/// The check events accumulated after applying `e` to the image: a new event
/// is recorded exactly when a check is configured and the entry carries the
/// force-unit-access flag.
pub open spec fn spec_checks_after(
    checks: Seq<(nat, Seq<u8>)>,
    e: EntryModel,
    img2: Seq<u8>,
    applied: nat,
    cfg: CfgModel,
) -> Seq<(nat, Seq<u8>)> {
    if cfg.fsck && (e.flags & LOG_FUA_FLAG) != 0 {
        checks.push((applied, img2))
    } else {
        checks
    }
}

/// A run whose first record is a clean end of stream reports normal
/// completion with its state unchanged.
pub proof fn lemma_run_end(
    log: Seq<u8>,
    pos: int,
    ss: u32,
    img: Seq<u8>,
    applied: nat,
    checks: Seq<(nat, Seq<u8>)>,
    cfg: CfgModel,
)
    requires
        spec_step(log, pos) == Step::End,
    ensures
        spec_run_from(log, pos, ss, img, applied, checks, cfg) == (RunModel {
            applied,
            reason: StopReason::EndOfLog,
            image: img,
            checks,
        }),
{
    reveal(spec_run_from);
}

/// A run whose first record is malformed fails with that error, leaving the
/// image untouched.
pub proof fn lemma_run_fail(
    log: Seq<u8>,
    pos: int,
    ss: u32,
    img: Seq<u8>,
    applied: nat,
    checks: Seq<(nat, Seq<u8>)>,
    cfg: CfgModel,
    er: FormatError,
)
    requires
        spec_step(log, pos) == Step::Fail(er),
    ensures
        spec_run_from(log, pos, ss, img, applied, checks, cfg) == (RunModel {
            applied,
            reason: StopReason::Failed(er),
            image: img,
            checks,
        }),
{
    reveal(spec_run_from);
}

/// A run whose first entry cannot be applied fails with the engine's error,
/// leaving the image untouched.
pub proof fn lemma_run_apply_fail(
    log: Seq<u8>,
    pos: int,
    ss: u32,
    img: Seq<u8>,
    applied: nat,
    checks: Seq<(nat, Seq<u8>)>,
    cfg: CfgModel,
    e: EntryModel,
    pos2: int,
    er: FormatError,
)
    requires
        spec_step(log, pos) == Step::Next(e, pos2),
        spec_apply(img, e, ss) == Result::Err::<Seq<u8>, FormatError>(er),
    ensures
        spec_run_from(log, pos, ss, img, applied, checks, cfg) == (RunModel {
            applied,
            reason: StopReason::Failed(er),
            image: img,
            checks,
        }),
{
    reveal(spec_run_from);
}

/// A run whose first entry applies cleanly either halts right after it — at
/// the entry limit or at the stop condition — or continues from the next
/// record with the updated image, count and check events.
pub proof fn lemma_run_step(
    log: Seq<u8>,
    pos: int,
    ss: u32,
    img: Seq<u8>,
    applied: nat,
    checks: Seq<(nat, Seq<u8>)>,
    cfg: CfgModel,
    e: EntryModel,
    pos2: int,
    img2: Seq<u8>,
)
    requires
        0 <= pos,
        pos < pos2 <= log.len(),
        spec_step(log, pos) == Step::Next(e, pos2),
        spec_apply(img, e, ss) == Result::Ok::<Seq<u8>, FormatError>(img2),
    ensures
        ({
            let checks2 = spec_checks_after(checks, e, img2, applied, cfg);
            spec_run_from(log, pos, ss, img, applied, checks, cfg) == (if cfg.limit > 0 && applied
                + 1 == cfg.limit {
                RunModel {
                    applied: applied + 1,
                    reason: StopReason::LimitReached,
                    image: img2,
                    checks: checks2,
                }
            } else if spec_stop_match(e, cfg.stop_flags, cfg.end_mark) {
                RunModel {
                    applied: applied + 1,
                    reason: StopReason::StopMark,
                    image: img2,
                    checks: checks2,
                }
            } else {
                spec_run_from(log, pos2, ss, img2, applied + 1, checks2, cfg)
            })
        }),
{
    reveal(spec_run_from);
}

/// What a finished replay run reports: the count of applied entries, the
/// terminal reason, the final target image, and the index of the entry after
/// which each external consistency check fired.
pub struct ReplayOutcome {
    /// Number of entries applied.
    pub entries_applied: u64,
    /// Why the run ended.
    pub reason: StopReason,
    /// Indices of the entries after which the external check fired.
    pub checks: Vec<u64>,
}

/// Replays `log` onto `image`: decodes the leading metadata record, then
/// applies entries in order until the stream ends, the entry limit is
/// reached, the stop condition fires, or a record proves malformed.  The
/// outcome and the final image match [`spec_replay`] exactly.
pub fn replay_log(
    log: &Vec<u8>,
    image: &mut Vec<u8>,
    limit: u64,
    stop_flags: u64,
    end_mark: Option<&String>,
    fsck: bool,
) -> (r: ReplayOutcome)
    ensures
        ({
            let gm = spec_replay(log@, old(image)@, spec_cfg(limit, stop_flags, end_mark, fsck));
            &&& r.entries_applied as nat == gm.applied
            &&& r.reason == gm.reason
            &&& final(image)@ == gm.image
            &&& r.checks@.len() == gm.checks.len()
            &&& forall|j: int|
                0 <= j < gm.checks.len() ==> r.checks@[j] as nat == gm.checks[j].0
        }),
{
    let ghost cfg = spec_cfg(limit, stop_flags, end_mark, fsck);
    let sup: SuperBlock = match decode_super(log) {
        Result::Err(e) => {
            proof {
                reveal(spec_replay);
            }
            return ReplayOutcome {
                entries_applied: 0,
                reason: StopReason::Failed(e),
                checks: Vec::new(),
            };
        },
        Result::Ok(s) => s,
    };
    let ss: u32 = sup.sector_size;
    let mut pos: usize = SUPER_SIZE;
    let mut applied: u64 = 0;
    let mut checks: Vec<u64> = Vec::new();
    let ghost mut checks_m: Seq<(nat, Seq<u8>)> = Seq::empty();
    proof {
        reveal(spec_replay);
    }
    loop
        invariant
            SUPER_SIZE <= pos <= log@.len(),
            applied as int * 32 + SUPER_SIZE <= pos as int,
            cfg == spec_cfg(limit, stop_flags, end_mark, fsck),
            checks@.len() == checks_m.len(),
            forall|j: int| 0 <= j < checks_m.len() ==> checks@[j] as nat == checks_m[j].0,
            spec_replay(log@, old(image)@, cfg) == spec_run_from(
                log@,
                pos as int,
                ss,
                image@,
                applied as nat,
                checks_m,
                cfg,
            ),
        decreases log@.len() - pos,
    {
        let step = replay_one(
            log,
            ss,
            pos,
            image,
            &mut applied,
            &mut checks,
            Ghost(checks_m),
            limit,
            stop_flags,
            end_mark,
            fsck,
        );
        proof {
            checks_m = step.2@;
        }
        match step.0 {
            Option::Some(reason) => {
                return ReplayOutcome { entries_applied: applied, reason, checks };
            },
            Option::None => {
                pos = step.1;
            },
        }
    }
}

/// One iteration of the control loop: decodes the record at `pos`, applies
/// it, updates the applied count and the check events, and decides whether
/// the run halts and why.  Returns the halt reason (or `None` to continue),
/// the position of the next record, and the updated check-event model.
#[verifier::rlimit(100)]
fn replay_one(
    log: &Vec<u8>,
    ss: u32,
    pos: usize,
    image: &mut Vec<u8>,
    applied: &mut u64,
    checks: &mut Vec<u64>,
    Ghost(checks_m): Ghost<Seq<(nat, Seq<u8>)>>,
    limit: u64,
    stop_flags: u64,
    end_mark: Option<&String>,
    fsck: bool,
) -> (r: (Option<StopReason>, usize, Ghost<Seq<(nat, Seq<u8>)>>))
    requires
        SUPER_SIZE <= pos <= log@.len(),
        *old(applied) as int * 32 + SUPER_SIZE <= pos as int,
        old(checks)@.len() == checks_m.len(),
        forall|j: int| 0 <= j < checks_m.len() ==> old(checks)@[j] as nat == checks_m[j].0,
    ensures
        ({
            let cfg = spec_cfg(limit, stop_flags, end_mark, fsck);
            let before = spec_run_from(
                log@,
                pos as int,
                ss,
                old(image)@,
                *old(applied) as nat,
                checks_m,
                cfg,
            );
            &&& final(checks)@.len() == r.2@.len()
            &&& (forall|j: int| 0 <= j < r.2@.len() ==> final(checks)@[j] as nat == r.2@[j].0)
            &&& match r.0 {
                Option::None => {
                    &&& pos < r.1 <= log@.len()
                    &&& *final(applied) as int * 32 + SUPER_SIZE <= r.1 as int
                    &&& before == spec_run_from(
                        log@,
                        r.1 as int,
                        ss,
                        final(image)@,
                        *final(applied) as nat,
                        r.2@,
                        cfg,
                    )
                },
                Option::Some(reason) => before == (RunModel {
                    applied: *final(applied) as nat,
                    reason,
                    image: final(image)@,
                    checks: r.2@,
                }),
            }
        }),
{
    let ghost cfg = spec_cfg(limit, stop_flags, end_mark, fsck);
    let ghost pos_pre = pos as int;
    let ghost img_pre = image@;
    let ghost applied_pre = *applied as nat;
    match decode_entry(log, pos) {
        Result::Err(e) => {
            proof {
                lemma_run_fail(log@, pos_pre, ss, img_pre, applied_pre, checks_m, cfg, e);
            }
            (Option::Some(StopReason::Failed(e)), pos, Ghost(checks_m))
        },
        Result::Ok(Option::None) => {
            proof {
                lemma_run_end(log@, pos_pre, ss, img_pre, applied_pre, checks_m, cfg);
            }
            (Option::Some(StopReason::EndOfLog), pos, Ghost(checks_m))
        },
        Result::Ok(Option::Some((entry, p2))) => {
            match apply_entry(image, &entry, ss) {
                Result::Err(er) => {
                    proof {
                        lemma_run_apply_fail(
                            log@,
                            pos_pre,
                            ss,
                            img_pre,
                            applied_pre,
                            checks_m,
                            cfg,
                            entry@,
                            p2 as int,
                            er,
                        );
                    }
                    (Option::Some(StopReason::Failed(er)), pos, Ghost(checks_m))
                },
                Result::Ok(_synced) => {
                    let ghost mut cm2: Seq<(nat, Seq<u8>)> = checks_m;
                    *applied = *applied + 1;
                    if fsck && (entry.flags & LOG_FUA_FLAG) != 0 {
                        checks.push(*applied - 1);
                        proof {
                            cm2 = checks_m.push(((*applied - 1) as nat, image@));
                        }
                    }
                    proof {
                        lemma_run_step(
                            log@,
                            pos_pre,
                            ss,
                            img_pre,
                            applied_pre,
                            checks_m,
                            cfg,
                            entry@,
                            p2 as int,
                            image@,
                        );
                        assert(cm2 == spec_checks_after(checks_m, entry@, image@, applied_pre, cfg));
                    }
                    if limit > 0 && *applied == limit {
                        (Option::Some(StopReason::LimitReached), p2, Ghost(cm2))
                    } else {
                        let stop: bool = match end_mark {
                            Option::Some(mk) => should_stop(&entry, stop_flags, mk.as_str()) == 1,
                            Option::None => (entry.flags & stop_flags) != 0,
                        };
                        if stop {
                            (Option::Some(StopReason::StopMark), p2, Ghost(cm2))
                        } else {
                            (Option::None, p2, Ghost(cm2))
                        }
                    }
                },
            }
        },
    }
}

} // verus!
