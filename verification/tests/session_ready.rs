use rch::remote_scan::worker::{
    session_ready_step, wake_cover_worker_for_source, CompensationReport, CoverWorkers, GapReport,
    ReadyAction, ReadyEvent, RemoteCoverReconcileDto,
};

const SESSION: u64 = 77;
const MAX_JOBS: usize = 64;

#[derive(Clone, PartialEq)]
struct Job {
    state: &'static str,
    attempt: i64,
    long_retry_due: bool,
    long_retry_consumed: i64,
}

fn overdue_failure() -> Job {
    Job {
        state: "failed",
        attempt: 0,
        long_retry_due: true,
        long_retry_consumed: 0,
    }
}

struct Source {
    id: &'static str,
    bound: u64,
    rebindable: bool,
    jobs: Vec<Job>,
    gaps: usize,
    profiles: Vec<String>,
    workers: CoverWorkers,
    claims: usize,
}

impl Source {
    fn new(id: &'static str, bound: u64, jobs: Vec<Job>) -> Source {
        Source {
            id,
            bound,
            rebindable: false,
            jobs,
            gaps: 0,
            profiles: Vec::new(),
            workers: CoverWorkers::new(),
            claims: 0,
        }
    }

    fn compensate(&mut self, max_jobs: usize) -> CompensationReport {
        let mut promoted = 0;
        for job in &mut self.jobs {
            let due = job.long_retry_due && job.long_retry_consumed == 0;
            if job.state == "failed" && due && promoted < max_jobs {
                job.state = "pending";
                promoted += 1;
            }
        }
        CompensationReport {
            compensation_promoted: promoted,
            blocker_cleared: 0,
            truncated: false,
            claimable_work: promoted > 0,
        }
    }

    fn fill(&mut self, max_jobs: usize, profile: String) -> GapReport {
        let created = self.gaps.min(max_jobs);
        self.gaps -= created;
        self.profiles.push(profile);
        for _ in 0..created {
            self.jobs.push(Job {
                state: "pending",
                attempt: 0,
                long_retry_due: false,
                long_retry_consumed: 0,
            });
        }
        GapReport {
            jobs_created: created,
            truncated: self.gaps > 0,
        }
    }

    fn wake(&mut self) {
        let woken = wake_cover_worker_for_source(self.id, true, Some(SESSION)).unwrap();
        let key = self.workers.wake_remote_cover_worker(&woken.0, woken.1).unwrap();
        assert!(self.workers.wake_remote_cover_worker(&woken.0, woken.1).is_none());
        for job in &mut self.jobs {
            if job.state == "pending" {
                job.state = "failed";
                job.attempt += 1;
                if job.long_retry_due {
                    job.long_retry_consumed = 1;
                }
                self.claims += 1;
            }
        }
        self.workers.finished(&key);
    }

    fn notify(&mut self) -> RemoteCoverReconcileDto {
        let mut event = ReadyEvent::Setting { enabled: true };
        let mut done = None;
        loop {
            event = match session_ready_step(event, MAX_JOBS) {
                ReadyAction::AskSource => ReadyEvent::Known { known: true },
                ReadyAction::Rebind => {
                    if self.rebindable {
                        self.bound = SESSION;
                    }
                    ReadyEvent::Rebound { session: SESSION }
                }
                ReadyAction::AskBinding { token } => ReadyEvent::Bound {
                    bound: self.bound == token as u64,
                },
                ReadyAction::Compensate { max_jobs } => {
                    let compensation = self.compensate(max_jobs);
                    done = Some(compensation.compensation_promoted);
                    ReadyEvent::Compensated {
                        compensation,
                        quality: Some("low".into()),
                    }
                }
                ReadyAction::FillGaps { max_jobs, profile } => {
                    let promoted = done.unwrap();
                    assert_eq!(max_jobs, MAX_JOBS - promoted);
                    let gap = self.fill(max_jobs, profile);
                    ReadyEvent::Filled {
                        compensation: CompensationReport {
                            compensation_promoted: promoted,
                            blocker_cleared: 0,
                            truncated: false,
                            claimable_work: promoted > 0,
                        },
                        gap,
                    }
                }
                ReadyAction::Finish { report, wake } => {
                    if wake {
                        self.wake();
                    }
                    return report;
                }
                ReadyAction::Refuse(text) => panic!("{text}"),
            };
        }
    }
}

#[test]
fn l1_session_creation_promotes_overdue_compensation_and_wakes_a_consumer() {
    let mut source = Source::new("ready-l1-source", SESSION, vec![overdue_failure()]);
    let report = source.notify();
    assert!(report.binding_available, "the session binding must be recognized");
    assert_eq!(report.compensation_promoted, 1);
    assert!(report.claimable, "promotion must report claimable work");
    assert_ne!(source.jobs[0].state, "pending");
    assert_eq!(source.jobs[0].attempt, 1, "claimed exactly once");
    assert_eq!(source.jobs[0].long_retry_consumed, 1);
    assert_eq!(source.profiles, vec!["170x240@1"]);
}

#[test]
fn l2_repeated_identical_notifications_do_not_duplicate_anything() {
    let mut source = Source::new("ready-l2-source", SESSION, vec![overdue_failure()]);
    source.gaps = 1;
    let first = source.notify();
    assert_eq!(first.compensation_promoted, 1);
    assert_eq!(first.jobs_created, 1);
    assert_ne!(source.jobs[0].state, "pending");
    for _ in 0..4 {
        let again = source.notify();
        assert_eq!(again.compensation_promoted, 0, "an open episode must not re-promote");
        assert_eq!(again.jobs_created, 0, "no duplicate job may be created");
        assert!(!again.claimable);
    }
    assert_eq!(source.jobs.len(), 2, "one promoted job + one replenished gap, never more");
    assert_eq!(source.jobs[0].attempt, 1, "no extra claim may happen");
    assert_eq!(source.claims, 2);
}

#[test]
fn l3_a_renewed_session_rebinds_a_completed_generation_and_recovers_compensation() {
    let mut source = Source::new("ready-l3-source", 0, vec![overdue_failure()]);
    source.rebindable = true;
    let report = source.notify();
    assert!(
        report.binding_available,
        "a completed generation must be rebindable to the renewed session"
    );
    assert_eq!(report.compensation_promoted, 1);
    assert_ne!(source.jobs[0].state, "pending");
    assert_eq!(source.jobs[0].long_retry_consumed, 1);
}

#[test]
fn l4_adjacent_events_consume_the_long_retry_budget_at_most_once() {
    let mut source = Source::new("ready-l4-source", SESSION, vec![overdue_failure()]);
    let first = source.notify();
    assert_eq!(first.compensation_promoted, 1);
    assert_eq!(source.jobs[0].attempt, 1);
    assert_eq!(source.jobs[0].long_retry_consumed, 1);
    assert!(source.jobs[0].long_retry_due, "the exhausted episode stays recorded");
    for _ in 0..3 {
        let again = source.notify();
        assert_eq!(again.compensation_promoted, 0);
    }
    assert_eq!(source.jobs[0].attempt, 1, "still exactly one claim");
}

#[test]
fn without_a_binding_nothing_is_done() {
    let mut source = Source::new("s", 0, vec![overdue_failure()]);
    source.gaps = 3;
    let report = source.notify();
    assert!(!report.binding_available && !report.claimable);
    assert_eq!((report.compensation_promoted, report.jobs_created), (0, 0));
    assert_eq!((source.gaps, source.claims), (3, 0));
    assert!(source.jobs == vec![overdue_failure()]);
}

#[test]
fn notifications_are_refused_or_ended_early() {
    let step = |event| session_ready_step(event, 2);
    match step(ReadyEvent::Setting { enabled: false }) {
        ReadyAction::Finish { report, wake } => assert!(!wake && !report.binding_available),
        _ => panic!("fetching is off"),
    }
    match step(ReadyEvent::Known { known: false }) {
        ReadyAction::Refuse(text) => assert_eq!(text, "书源不存在"),
        _ => panic!("the source is unknown"),
    }
    match step(ReadyEvent::Rebound { session: u64::MAX }) {
        ReadyAction::Refuse(text) => assert_eq!(text, "登录状态已失效"),
        _ => panic!("the session cannot be stored"),
    }
    let spent = ReadyEvent::Compensated {
        compensation: CompensationReport {
            compensation_promoted: 1,
            blocker_cleared: 1,
            truncated: true,
            claimable_work: true,
        },
        quality: None,
    };
    match step(spent) {
        ReadyAction::Finish { report, wake } => {
            assert!(wake && report.truncated && report.jobs_created == 0);
            assert_eq!((report.compensation_promoted, report.blocker_cleared), (1, 1));
        }
        _ => panic!("nothing is left of the allowance"),
    }
}
