//! Laws of the replay engine and control loop: how the applied-entry count
//! relates to the entry limit, that a stop condition halts the run at its
//! first match, that a run never applies more than the prefix it reports, and
//! that every external-check point observes exactly the effects of the
//! entries at or before it.

use vstd::prelude::*;
use crate::codec::{lemma_step_bounds, spec_step, spec_super, Step, SUPER_SIZE};
use crate::engine::spec_apply;
use crate::model::{spec_stop_match, EntryModel, LOG_MARK_FLAG};
use crate::replay::{spec_run_from, spec_replay, CfgModel, StopReason};

verus! {

/// The entries decodable from `pos` onwards, up to the first malformed record
/// or the end of the stream.
pub open spec fn spec_entries(log: Seq<u8>, pos: int) -> Seq<EntryModel>
    decreases log.len() - pos,
{
    match spec_step(log, pos) {
        Step::Next(e, pos2) => if pos < pos2 <= log.len() {
            seq![e] + spec_entries(log, pos2)
        } else {
            seq![e]
        },
        _ => Seq::empty(),
    }
}

/// The image after applying the next `k` decodable entries from `pos`
/// onwards, ignoring limits, stop conditions and checks.  Stops early at a
/// malformed or inapplicable record.
pub open spec fn spec_fold_apply(log: Seq<u8>, pos: int, ss: u32, img: Seq<u8>, k: nat) -> Seq<u8>
    decreases k,
{
    if k == 0 {
        img
    } else {
        match spec_step(log, pos) {
            Step::Next(e, pos2) => match spec_apply(img, e, ss) {
                Result::Ok(img2) => spec_fold_apply(log, pos2, ss, img2, (k - 1) as nat),
                Result::Err(_) => img,
            },
            _ => img,
        }
    }
}

/// A run never reports fewer applied entries than it started with, and its
/// final image is exactly the fold of the entries it applied — in particular,
/// a run halted by a malformed record carries none of that record's effects.
pub proof fn lemma_run_image_is_fold(
    log: Seq<u8>,
    pos: int,
    ss: u32,
    img: Seq<u8>,
    applied: nat,
    checks: Seq<(nat, Seq<u8>)>,
    cfg: CfgModel,
)
    requires
        0 <= pos <= log.len(),
    ensures
        ({
            let r = spec_run_from(log, pos, ss, img, applied, checks, cfg);
            &&& r.applied >= applied
            &&& r.image == spec_fold_apply(log, pos, ss, img, (r.applied - applied) as nat)
        }),
    decreases log.len() - pos,
{
    reveal(spec_run_from);
    reveal_with_fuel(spec_fold_apply, 2);
    let r = spec_run_from(log, pos, ss, img, applied, checks, cfg);
    match spec_step(log, pos) {
        Step::End => {},
        Step::Fail(_) => {},
        Step::Next(e, pos2) => {
            lemma_step_bounds(log, pos);
            match spec_apply(img, e, ss) {
                Result::Err(_) => {},
                Result::Ok(img2) => {
                    let checks2 = if cfg.fsck && (e.flags & crate::model::LOG_FUA_FLAG) != 0 {
                        checks.push((applied, img2))
                    } else {
                        checks
                    };
                    if cfg.limit > 0 && applied + 1 == cfg.limit {
                        assert(spec_fold_apply(log, pos, ss, img, 1) == img2);
                    } else if spec_stop_match(e, cfg.stop_flags, cfg.end_mark) {
                        assert(spec_fold_apply(log, pos, ss, img, 1) == img2);
                    } else {
                        lemma_run_image_is_fold(log, pos2, ss, img2, applied + 1, checks2, cfg);
                        assert(spec_fold_apply(log, pos, ss, img, (r.applied - applied) as nat)
                            == spec_fold_apply(log, pos2, ss, img2, (r.applied - applied
                            - 1) as nat));
                    }
                },
            }
        },
    }
}

/// Entry-limit law: against the same log, image and stop condition, a run
/// with a positive entry limit applies exactly the smaller of the limit and
/// the count an unlimited run applies; when the unlimited run finishes under
/// the limit, the limited run ends the same way with the same image.
pub proof fn lemma_run_limit(
    log: Seq<u8>,
    pos: int,
    ss: u32,
    img: Seq<u8>,
    applied: nat,
    checks: Seq<(nat, Seq<u8>)>,
    cfg0: CfgModel,
    cfgn: CfgModel,
)
    requires
        0 <= pos <= log.len(),
        cfg0.limit == 0,
        cfgn.limit > 0,
        applied < cfgn.limit,
        cfg0.stop_flags == cfgn.stop_flags,
        cfg0.end_mark == cfgn.end_mark,
        cfg0.fsck == cfgn.fsck,
    ensures
        ({
            let r0 = spec_run_from(log, pos, ss, img, applied, checks, cfg0);
            let rn = spec_run_from(log, pos, ss, img, applied, checks, cfgn);
            &&& (r0.applied >= cfgn.limit ==> rn.applied == cfgn.limit && rn.reason
                == StopReason::LimitReached)
            &&& (r0.applied < cfgn.limit ==> rn == r0)
        }),
    decreases log.len() - pos,
{
    reveal(spec_run_from);
    let r0 = spec_run_from(log, pos, ss, img, applied, checks, cfg0);
    let rn = spec_run_from(log, pos, ss, img, applied, checks, cfgn);
    match spec_step(log, pos) {
        Step::End => {},
        Step::Fail(_) => {},
        Step::Next(e, pos2) => {
            lemma_step_bounds(log, pos);
            match spec_apply(img, e, ss) {
                Result::Err(_) => {},
                Result::Ok(img2) => {
                    let checks2 = if cfg0.fsck && (e.flags & crate::model::LOG_FUA_FLAG) != 0 {
                        checks.push((applied, img2))
                    } else {
                        checks
                    };
                    if applied + 1 == cfgn.limit {
                        if !spec_stop_match(e, cfg0.stop_flags, cfg0.end_mark) {
                            lemma_run_image_is_fold(log, pos2, ss, img2, applied + 1, checks2, cfg0);
                        }
                    } else {
                        if !spec_stop_match(e, cfg0.stop_flags, cfg0.end_mark) {
                            lemma_run_limit(log, pos2, ss, img2, applied + 1, checks2, cfg0, cfgn);
                        }
                    }
                },
            }
        },
    }
}

/// Stop-condition law for unlimited runs: no applied entry before the last
/// one satisfies the stop condition; the run reports a stop exactly when its
/// last applied entry satisfies it; and a run that reports a clean end of log
/// applied every decodable entry.
pub proof fn lemma_stop_first_match(
    log: Seq<u8>,
    pos: int,
    ss: u32,
    img: Seq<u8>,
    applied: nat,
    checks: Seq<(nat, Seq<u8>)>,
    cfg: CfgModel,
)
    requires
        0 <= pos <= log.len(),
        cfg.limit == 0,
    ensures
        ({
            let r = spec_run_from(log, pos, ss, img, applied, checks, cfg);
            let es = spec_entries(log, pos);
            let k = r.applied as int - applied as int;
            &&& r.applied >= applied
            &&& k <= es.len()
            &&& (forall|i: int|
                0 <= i < k - 1 ==> !spec_stop_match(es[i], cfg.stop_flags, cfg.end_mark))
            &&& (r.reason == StopReason::StopMark) == (k > 0 && spec_stop_match(
                es[k - 1],
                cfg.stop_flags,
                cfg.end_mark,
            ))
            &&& (r.reason == StopReason::EndOfLog ==> k == es.len())
        }),
    decreases log.len() - pos,
{
    reveal(spec_run_from);
    let r = spec_run_from(log, pos, ss, img, applied, checks, cfg);
    let es = spec_entries(log, pos);
    match spec_step(log, pos) {
        Step::End => {},
        Step::Fail(_) => {},
        Step::Next(e, pos2) => {
            lemma_step_bounds(log, pos);
            match spec_apply(img, e, ss) {
                Result::Err(_) => {},
                Result::Ok(img2) => {
                    let checks2 = if cfg.fsck && (e.flags & crate::model::LOG_FUA_FLAG) != 0 {
                        checks.push((applied, img2))
                    } else {
                        checks
                    };
                    assert(es[0] == e);
                    if spec_stop_match(e, cfg.stop_flags, cfg.end_mark) {
                    } else {
                        lemma_stop_first_match(log, pos2, ss, img2, applied + 1, checks2, cfg);
                        let es2 = spec_entries(log, pos2);
                        let k = r.applied as int - applied as int;
                        assert(es.len() == 1 + es2.len());
                        assert(forall|i: int| 0 <= i < es2.len() ==> es[i + 1] == es2[i]);
                        assert(forall|i: int|
                            1 <= i < k - 1 ==> !spec_stop_match(
                                es2[i - 1],
                                cfg.stop_flags,
                                cfg.end_mark,
                            ) && es[i] == es2[i - 1]);
                    }
                },
            }
        },
    }
}

/// Two runs that differ only in their stop configuration coincide whenever no
/// decodable entry satisfies either stop condition.
pub proof fn lemma_run_stop_irrelevant(
    log: Seq<u8>,
    pos: int,
    ss: u32,
    img: Seq<u8>,
    applied: nat,
    checks: Seq<(nat, Seq<u8>)>,
    cfga: CfgModel,
    cfgb: CfgModel,
)
    requires
        0 <= pos <= log.len(),
        cfga.limit == cfgb.limit,
        cfga.fsck == cfgb.fsck,
        forall|i: int|
            0 <= i < spec_entries(log, pos).len() ==> !spec_stop_match(
                #[trigger] spec_entries(log, pos)[i],
                cfga.stop_flags,
                cfga.end_mark,
            ) && !spec_stop_match(spec_entries(log, pos)[i], cfgb.stop_flags, cfgb.end_mark),
    ensures
        spec_run_from(log, pos, ss, img, applied, checks, cfga) == spec_run_from(
            log,
            pos,
            ss,
            img,
            applied,
            checks,
            cfgb,
        ),
    decreases log.len() - pos,
{
    reveal(spec_run_from);
    let es = spec_entries(log, pos);
    match spec_step(log, pos) {
        Step::End => {},
        Step::Fail(_) => {},
        Step::Next(e, pos2) => {
            lemma_step_bounds(log, pos);
            match spec_apply(img, e, ss) {
                Result::Err(_) => {},
                Result::Ok(img2) => {
                    let checks2 = if cfga.fsck && (e.flags & crate::model::LOG_FUA_FLAG) != 0 {
                        checks.push((applied, img2))
                    } else {
                        checks
                    };
                    assert(es[0] == e);
                    if !(cfga.limit > 0 && applied + 1 == cfga.limit) {
                        let es2 = spec_entries(log, pos2);
                        assert(forall|i: int| 0 <= i < es2.len() ==> es[i + 1] == es2[i]);
                        lemma_run_stop_irrelevant(log, pos2, ss, img2, applied + 1, checks2, cfga, cfgb);
                    }
                },
            }
        },
    }
}

/// Durability law for check points: every external-check event of a run
/// observes exactly the image produced by folding the entries up to and
/// including the one that triggered it — everything at or before that entry,
/// and nothing after it.
pub proof fn lemma_checks_observe_prefix(
    log: Seq<u8>,
    pos: int,
    ss: u32,
    img: Seq<u8>,
    applied: nat,
    checks: Seq<(nat, Seq<u8>)>,
    cfg: CfgModel,
)
    requires
        0 <= pos <= log.len(),
    ensures
        ({
            let r = spec_run_from(log, pos, ss, img, applied, checks, cfg);
            &&& r.checks.len() >= checks.len()
            &&& (forall|j: int| 0 <= j < checks.len() ==> r.checks[j] == checks[j])
            &&& (forall|j: int|
                checks.len() <= j < r.checks.len() ==> applied <= #[trigger] r.checks[j].0
                    < r.applied && r.checks[j].1 == spec_fold_apply(
                    log,
                    pos,
                    ss,
                    img,
                    (r.checks[j].0 - applied + 1) as nat,
                ))
        }),
    decreases log.len() - pos,
{
    reveal(spec_run_from);
    reveal_with_fuel(spec_fold_apply, 2);
    let r = spec_run_from(log, pos, ss, img, applied, checks, cfg);
    match spec_step(log, pos) {
        Step::End => {},
        Step::Fail(_) => {},
        Step::Next(e, pos2) => {
            lemma_step_bounds(log, pos);
            match spec_apply(img, e, ss) {
                Result::Err(_) => {},
                Result::Ok(img2) => {
                    let checks2 = if cfg.fsck && (e.flags & crate::model::LOG_FUA_FLAG) != 0 {
                        checks.push((applied, img2))
                    } else {
                        checks
                    };
                    assert(spec_fold_apply(log, pos, ss, img, 1) == img2);
                    assert(forall|j: int| 0 <= j < checks.len() ==> checks2[j] == checks[j]);
                    if cfg.limit > 0 && applied + 1 == cfg.limit {
                    } else if spec_stop_match(e, cfg.stop_flags, cfg.end_mark) {
                    } else {
                        lemma_checks_observe_prefix(log, pos2, ss, img2, applied + 1, checks2, cfg);
                        assert(r == spec_run_from(log, pos2, ss, img2, applied + 1, checks2, cfg));
                        assert forall|j: int| 0 <= j < checks.len() implies r.checks[j] == checks[j] by {
                            assert(r.checks[j] == checks2[j]);
                        };
                        lemma_run_image_is_fold(log, pos2, ss, img2, applied + 1, checks2, cfg);
                        assert(r == spec_run_from(log, pos2, ss, img2, applied + 1, checks2, cfg));
                        assert forall|j: int|
                            checks.len() <= j < r.checks.len() implies applied <= #[trigger] r.checks[j].0
                            < r.applied && r.checks[j].1 == spec_fold_apply(
                            log,
                            pos,
                            ss,
                            img,
                            (r.checks[j].0 - applied + 1) as nat,
                        ) by {
                            if j < checks2.len() {
                                assert(r.checks[j] == checks2[j]);
                                assert(checks2[j] == ((applied, img2)));
                            } else {
                                assert(applied + 1 <= r.checks[j].0 < r.applied);
                                assert(r.checks[j].1 == spec_fold_apply(
                                    log,
                                    pos2,
                                    ss,
                                    img2,
                                    (r.checks[j].0 - (applied + 1) + 1) as nat,
                                ));
                                assert(spec_fold_apply(
                                    log,
                                    pos,
                                    ss,
                                    img,
                                    (r.checks[j].0 - applied + 1) as nat,
                                ) == spec_fold_apply(
                                    log,
                                    pos2,
                                    ss,
                                    img2,
                                    (r.checks[j].0 - applied) as nat,
                                ));
                            }
                        };
                    }
                },
            }
        },
    }
}

/// Entry-limit law: a replay with a positive entry limit applies exactly the
/// smaller of the limit and the count an unlimited replay applies; when the
/// unlimited replay finishes under the limit, the limited one ends the same
/// way with the same image.
pub proof fn lemma_entry_limit(
    log: Seq<u8>,
    img0: Seq<u8>,
    limit: u64,
    stop_flags: u64,
    end_mark: Option<Seq<char>>,
    fsck: bool,
)
    requires
        limit > 0,
    ensures
        ({
            let r0 = spec_replay(log, img0, CfgModel { limit: 0, stop_flags, end_mark, fsck });
            let rn = spec_replay(log, img0, CfgModel { limit, stop_flags, end_mark, fsck });
            &&& (r0.applied >= limit ==> rn.applied == limit && rn.reason
                == StopReason::LimitReached)
            &&& (r0.applied < limit ==> rn == r0)
        }),
{
    reveal(spec_replay);
    match spec_super(log) {
        Result::Err(_) => {},
        Result::Ok(sup) => {
            lemma_run_limit(
                log,
                SUPER_SIZE as int,
                sup.sector_size,
                img0,
                0,
                Seq::empty(),
                CfgModel { limit: 0, stop_flags, end_mark, fsck },
                CfgModel { limit, stop_flags, end_mark, fsck },
            );
        },
    }
}

/// Mark-stop law: with an unlimited, mark-based stop condition naming `m`,
/// replay never applies an entry beyond the first mark named `m` — the run
/// halts immediately after applying that mark, whether `m` occurs once or
/// many times.
pub proof fn lemma_mark_stop(log: Seq<u8>, img0: Seq<u8>, m: Seq<char>, fsck: bool, i: int)
    requires
        spec_super(log) is Ok,
        ({
            let es = spec_entries(log, SUPER_SIZE as int);
            &&& 0 <= i < es.len()
            &&& (es[i].flags & LOG_MARK_FLAG) != 0 && es[i].cmd == m
            &&& forall|j: int|
                0 <= j < i ==> !((#[trigger] es[j].flags & LOG_MARK_FLAG) != 0 && es[j].cmd == m)
        }),
    ensures
        ({
            let r = spec_replay(
                log,
                img0,
                CfgModel {
                    limit: 0,
                    stop_flags: LOG_MARK_FLAG,
                    end_mark: Option::Some(m),
                    fsck,
                },
            );
            &&& r.applied <= i + 1
            &&& (r.applied == i + 1 ==> r.reason == StopReason::StopMark)
        }),
{
    reveal(spec_replay);
    let cfg = CfgModel { limit: 0, stop_flags: LOG_MARK_FLAG, end_mark: Option::Some(m), fsck };
    assert((LOG_MARK_FLAG & LOG_MARK_FLAG) == LOG_MARK_FLAG) by (bit_vector);
    match spec_super(log) {
        Result::Err(_) => {},
        Result::Ok(sup) => {
            lemma_stop_first_match(log, SUPER_SIZE as int, sup.sector_size, img0, 0, Seq::empty(), cfg);
            let es = spec_entries(log, SUPER_SIZE as int);
            let r = spec_run_from(log, SUPER_SIZE as int, sup.sector_size, img0, 0, Seq::empty(), cfg);
            if r.applied > i + 1 {
                assert(!spec_stop_match(es[i], cfg.stop_flags, cfg.end_mark));
                assert(false);
            }
        },
    }
}

/// Missing-mark law: a log with no mark entries, replayed with a mark-based
/// stop condition, runs exactly as it would with no stop condition at all —
/// to end of log when the log is well formed, never failing on the mark not
/// being found.
pub proof fn lemma_mark_never_found(
    log: Seq<u8>,
    img0: Seq<u8>,
    limit: u64,
    m: Option<Seq<char>>,
    fsck: bool,
)
    requires
        forall|j: int|
            0 <= j < spec_entries(log, SUPER_SIZE as int).len() ==> (#[trigger] spec_entries(
                log,
                SUPER_SIZE as int,
            )[j].flags & LOG_MARK_FLAG) == 0,
    ensures
        spec_replay(log, img0, CfgModel { limit, stop_flags: LOG_MARK_FLAG, end_mark: m, fsck })
            == spec_replay(
            log,
            img0,
            CfgModel { limit, stop_flags: 0, end_mark: Option::None, fsck },
        ),
{
    reveal(spec_replay);
    let cfga = CfgModel { limit, stop_flags: LOG_MARK_FLAG, end_mark: m, fsck };
    let cfgb = CfgModel { limit, stop_flags: 0, end_mark: Option::None, fsck };
    match spec_super(log) {
        Result::Err(_) => {},
        Result::Ok(sup) => {
            let es = spec_entries(log, SUPER_SIZE as int);
            assert forall|i: int| 0 <= i < es.len() implies !spec_stop_match(
                #[trigger] es[i],
                cfga.stop_flags,
                cfga.end_mark,
            ) && !spec_stop_match(es[i], cfgb.stop_flags, cfgb.end_mark) by {
                let f = es[i].flags;
                assert(f & 0 == 0) by (bit_vector);
            };
            lemma_run_stop_irrelevant(
                log,
                SUPER_SIZE as int,
                sup.sector_size,
                img0,
                0,
                Seq::empty(),
                cfga,
                cfgb,
            );
        },
    }
}

/// Idempotence: replaying the same log onto equal freshly prepared images
/// under the same configuration yields equal outcomes, byte for byte.
pub proof fn lemma_replay_idempotent(log: Seq<u8>, a: Seq<u8>, b: Seq<u8>, cfg: CfgModel)
    requires
        a == b,
    ensures
        spec_replay(log, a, cfg) == spec_replay(log, b, cfg),
{
}

/// Durability law: every external check of a replay observes exactly the
/// image obtained by folding the entries up to and including the one that
/// fired it — every byte written at or before that entry, and nothing from
/// any entry after it.  The control loop syncs the target immediately before
/// the check, so that image is durable when the check runs.
pub proof fn lemma_check_durability(log: Seq<u8>, img0: Seq<u8>, cfg: CfgModel)
    requires
        spec_super(log) is Ok,
    ensures
        ({
            let r = spec_replay(log, img0, cfg);
            let sup = spec_super(log)->Ok_0;
            forall|j: int|
                0 <= j < r.checks.len() ==> (#[trigger] r.checks[j]).0 < r.applied
                    && r.checks[j].1 == spec_fold_apply(
                    log,
                    SUPER_SIZE as int,
                    sup.sector_size,
                    img0,
                    (r.checks[j].0 + 1) as nat,
                )
        }),
{
    reveal(spec_replay);
    match spec_super(log) {
        Result::Err(_) => {},
        Result::Ok(sup) => {
            lemma_checks_observe_prefix(
                log,
                SUPER_SIZE as int,
                sup.sector_size,
                img0,
                0,
                Seq::empty(),
                cfg,
            );
        },
    }
}

/// Malformed-input law: however a replay ends, its image is exactly the fold
/// of the entries it reports applied — a run halted by a truncated or
/// otherwise malformed record carries none of that record's effects.
pub proof fn lemma_failure_applies_nothing(log: Seq<u8>, img0: Seq<u8>, cfg: CfgModel)
    requires
        spec_super(log) is Ok,
    ensures
        ({
            let r = spec_replay(log, img0, cfg);
            let sup = spec_super(log)->Ok_0;
            r.image == spec_fold_apply(log, SUPER_SIZE as int, sup.sector_size, img0, r.applied)
        }),
{
    reveal(spec_replay);
    match spec_super(log) {
        Result::Err(_) => {},
        Result::Ok(sup) => {
            lemma_run_image_is_fold(
                log,
                SUPER_SIZE as int,
                sup.sector_size,
                img0,
                0,
                Seq::empty(),
                cfg,
            );
        },
    }
}

} // verus!
