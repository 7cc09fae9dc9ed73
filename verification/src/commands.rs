//! The guest's side of a command: which kernel interfaces it goes through,
//! what it falls back to, and what is told to the host.

use crate::elastic_reclaim::{PressureLevel, ReclamationAction};
use crate::protocol;
use crate::server;
use crate::text;
use crate::text::{decimal_text, push_decimal};
use std::collections::VecDeque;
use vstd::prelude::*;
use vstd::string::*;

verus! {

/// Asks the kernel to compact memory. It needs `CONFIG_COMPACTION`.
pub const COMPACT_MEMORY: &'static str = "/proc/sys/vm/compact_memory";

/// The kernel interfaces that are there.
#[derive(Debug, Clone)]
pub struct ReclaimCapabilities {
    /// Path of `memory.reclaim`, which needs cgroup v2, a kernel from 5.19 on
    /// and `CONFIG_MEMCG`.
    pub memory_reclaim: Option<String>,
    /// Whether there is `compact_memory`.
    pub compact: bool,
    /// Whether there is `drop_caches`.
    pub drop_caches: bool,
}

/// The kernel interfaces that are there.
pub struct Capabilities {
    pub memory_reclaim: Option<Seq<char>>,
    pub compact: bool,
    pub drop_caches: bool,
}

impl View for ReclaimCapabilities {
    type V = Capabilities;

    open spec fn view(&self) -> Capabilities {
        Capabilities {
            memory_reclaim: text::text_of(self.memory_reclaim),
            compact: self.compact,
            drop_caches: self.drop_caches,
        }
    }
}

/// A command of the host.
#[derive(Debug, Clone)]
pub struct GuestCommand {
    pub cmd_id: String,
    pub action: String,
    pub bytes: Option<u64>,
    pub level: Option<u8>,
}

/// What is told to the host.
#[derive(Debug, Clone)]
pub struct ResultMsg {
    pub msg_type: String,
    pub cmd_id: String,
    pub status: String,
    pub freed_bytes: Option<u64>,
    pub note: String,
}

/// What came of a command.
#[derive(Debug, Clone)]
pub struct Outcome {
    /// Whether it was carried out.
    pub ok: bool,
    /// About how many bytes it freed.
    pub freed: Option<u64>,
    pub note: String,
}

/// What came of a command.
pub struct Verdict {
    pub ok: bool,
    pub freed: Option<u64>,
    pub note: Seq<char>,
}

impl View for Outcome {
    type V = Verdict;

    open spec fn view(&self) -> Verdict {
        Verdict { ok: self.ok, freed: self.freed, note: self.note@ }
    }
}

/// Where the execution of a command stands.
#[derive(Debug, Clone)]
pub enum Phase {
    /// Measures the file cache before anything is reclaimed.
    Before { bytes: u64 },
    /// Writes to `memory.reclaim`.
    Reclaim { bytes: u64, before: u64, path: String },
    /// Writes to `compact_memory` in its place.
    FallBack { before: u64 },
    /// Gives the kernel time to reclaim.
    Settle { before: u64 },
    /// Measures the file cache after that.
    After { before: u64 },
    /// Writes to `compact_memory`.
    Compact,
    /// Gives the kernel time to compact.
    Rest,
    /// Drops the caches.
    Drop { level: u8 },
    /// Is done.
    Finished { outcome: Outcome },
}

/// Where the execution of a command stands.
pub enum Stage {
    Before { bytes: u64 },
    Reclaim { bytes: u64, before: u64, path: Seq<char> },
    FallBack { before: u64 },
    Settle { before: u64 },
    After { before: u64 },
    Compact,
    Rest,
    Drop { level: u8 },
    Finished { verdict: Verdict },
}

impl View for Phase {
    type V = Stage;

    open spec fn view(&self) -> Stage {
        match *self {
            Phase::Before { bytes } => Stage::Before { bytes },
            Phase::Reclaim { bytes, before, path } => Stage::Reclaim { bytes, before, path: path@ },
            Phase::FallBack { before } => Stage::FallBack { before },
            Phase::Settle { before } => Stage::Settle { before },
            Phase::After { before } => Stage::After { before },
            Phase::Compact => Stage::Compact,
            Phase::Rest => Stage::Rest,
            Phase::Drop { level } => Stage::Drop { level },
            Phase::Finished { outcome } => Stage::Finished { verdict: outcome@ },
        }
    }
}

/// What is to be done next.
#[derive(Debug, Clone)]
pub enum Step {
    /// Measure the guest's file cache.
    Measure,
    /// Write a file.
    Write { path: String, content: String },
    /// Wait for two seconds.
    Pause,
    /// Have the shell run a script.
    Shell { script: String },
    /// Nothing: the command is done.
    Done,
}

/// What is to be done next.
pub enum Move {
    Measure,
    Write { path: Seq<char>, content: Seq<char> },
    Pause,
    Shell { script: Seq<char> },
    Done,
}

impl View for Step {
    type V = Move;

    open spec fn view(&self) -> Move {
        match *self {
            Step::Measure => Move::Measure,
            Step::Write { path, content } => Move::Write { path: path@, content: content@ },
            Step::Pause => Move::Pause,
            Step::Shell { script } => Move::Shell { script: script@ },
            Step::Done => Move::Done,
        }
    }
}

/// What came of a step.
#[derive(Debug, Clone)]
pub enum Event {
    /// The size of the file cache, zero if it could not be read.
    Measured { cache: u64 },
    /// The step was taken.
    Taken,
    /// It failed.
    Failed { error: String },
}

/// What came of a step.
pub enum Report {
    Measured { cache: u64 },
    Taken,
    Failed { error: Seq<char> },
}

impl View for Event {
    type V = Report;

    open spec fn view(&self) -> Report {
        match *self {
            Event::Measured { cache } => Report::Measured { cache },
            Event::Taken => Report::Taken,
            Event::Failed { error } => Report::Failed { error: error@ },
        }
    }
}

/// What is said where no interface is there to reclaim through.
pub open spec fn no_interface() -> Seq<char> {
    "no reclamation interface available: memory.reclaim requires cgroup v2 + kernel >= 5.19; compact_memory requires CONFIG_COMPACTION=y"@
}

/// A command that could not be carried out.
pub open spec fn failure(note: Seq<char>) -> Stage {
    Stage::Finished { verdict: Verdict { ok: false, freed: None, note } }
}

/// A command that has been carried out.
pub open spec fn success(freed: Option<u64>, note: Seq<char>) -> Stage {
    Stage::Finished { verdict: Verdict { ok: true, freed, note } }
}

/// What is reclaimed through where `memory.reclaim` does not serve.
pub open spec fn second_choice(caps: Capabilities, before: u64) -> Stage {
    if caps.compact {
        Stage::FallBack { before }
    } else {
        failure(no_interface())
    }
}

/// How much less `after` is than `before`.
pub open spec fn freed(before: u64, after: u64) -> u64 {
    if before >= after {
        (before - after) as u64
    } else {
        0
    }
}

/// The script that drops the caches.
pub open spec fn drop_script(level: u8) -> Seq<char> {
    "sync && echo "@ + text::decimal(level as nat) + " > /proc/sys/vm/drop_caches"@
}

/// The measured size, zero where nothing was measured.
pub open spec fn size_of(event: Report) -> u64 {
    match event {
        Report::Measured { cache } => cache,
        _ => 0,
    }
}

impl Stage {
    /// What is to be done next.
    pub open spec fn step(self) -> Move {
        match self {
            Stage::Before { .. } | Stage::After { .. } => Move::Measure,
            Stage::Reclaim { bytes, path, .. } => Move::Write {
                path,
                content: text::decimal(bytes as nat),
            },
            Stage::FallBack { .. } | Stage::Compact => Move::Write {
                path: COMPACT_MEMORY@,
                content: "1"@,
            },
            Stage::Settle { .. } | Stage::Rest => Move::Pause,
            Stage::Drop { level } => Move::Shell { script: drop_script(level) },
            Stage::Finished { .. } => Move::Done,
        }
    }

    /// Where the execution stands once the step has been tried.
    pub open spec fn next(self, caps: Capabilities, event: Report) -> Stage {
        match self {
            Stage::Before { bytes } => match caps.memory_reclaim {
                Some(path) => Stage::Reclaim { bytes, before: size_of(event), path },
                None => second_choice(caps, size_of(event)),
            },
            Stage::Reclaim { before, .. } => match event {
                Report::Failed { .. } => second_choice(caps, before),
                _ => Stage::Settle { before },
            },
            Stage::FallBack { before } => Stage::Settle { before },
            Stage::Settle { before } => Stage::After { before },
            Stage::After { before } => success(
                Some(freed(before, size_of(event))),
                "reclaim executed"@,
            ),
            Stage::Compact => match event {
                Report::Failed { error } => failure("compact write failed: "@ + error),
                _ => Stage::Rest,
            },
            Stage::Rest => success(None, "compact executed"@),
            Stage::Drop { .. } => match event {
                Report::Failed { error } => failure("drop_caches failed: "@ + error),
                _ => success(None, "drop_caches executed"@),
            },
            Stage::Finished { .. } => self,
        }
    }
}

/// Where the execution of a command begins; some commands are not executed,
/// and not answered.
pub open spec fn beginning(
    action: Seq<char>,
    bytes: Option<u64>,
    level: Option<u8>,
    allow_drop: bool,
    caps: Capabilities,
) -> Option<Stage> {
    if action == "reclaim"@ {
        match bytes {
            Some(bytes) => Some(Stage::Before { bytes }),
            None => None,
        }
    } else if action == "compact"@ {
        if caps.compact {
            Some(Stage::Compact)
        } else {
            Some(failure("compact_memory unavailable (CONFIG_COMPACTION not enabled)"@))
        }
    } else if action == "drop_caches"@ {
        if !allow_drop {
            Some(failure("drop_caches not allowed (use --allow-drop)"@))
        } else if !caps.drop_caches {
            Some(failure("drop_caches unavailable on this kernel"@))
        } else {
            Some(
                Stage::Drop {
                    level: match level {
                        Some(l) => l,
                        None => 3,
                    },
                },
            )
        }
    } else {
        None
    }
}

/// A command that could not be carried out.
fn failed(note: String) -> (p: Phase)
    ensures
        p@ == failure(note@),
{
    Phase::Finished { outcome: Outcome { ok: false, freed: None, note } }
}

/// A command that has been carried out.
fn succeeded(freed: Option<u64>, note: &str) -> (p: Phase)
    ensures
        p@ == success(freed, note@),
{
    Phase::Finished { outcome: Outcome { ok: true, freed, note: note.to_owned() } }
}

/// What is reclaimed through where `memory.reclaim` does not serve.
fn fall_back(caps: &ReclaimCapabilities, before: u64) -> (p: Phase)
    ensures
        p@ == second_choice(caps@, before),
{
    if caps.compact {
        Phase::FallBack { before }
    } else {
        failed(
            "no reclamation interface available: memory.reclaim requires cgroup v2 + kernel >= 5.19; compact_memory requires CONFIG_COMPACTION=y".to_owned(),
        )
    }
}

fn measured(event: &Event) -> (n: u64)
    ensures
        n == size_of(event@),
{
    match event {
        Event::Measured { cache } => *cache,
        _ => 0,
    }
}

/// The beginning of a reclaim of about `bytes` bytes.
pub fn begin_reclaim(bytes: u64) -> (p: Phase)
    ensures
        p@ == (Stage::Before { bytes }),
{
    Phase::Before { bytes }
}

/// The beginning of a command; some are not executed, and not answered.
pub fn begin(cmd: &GuestCommand, allow_drop: bool, caps: &ReclaimCapabilities)
    -> (p: Option<Phase>)
    ensures
        (match p {
            Some(p) => Some(p@),
            None => None,
        }) == beginning(cmd.action@, cmd.bytes, cmd.level, allow_drop, caps@),
{
    if cmd.action == "reclaim".to_owned() {
        match cmd.bytes {
            Some(bytes) => Some(begin_reclaim(bytes)),
            None => None,
        }
    } else if cmd.action == "compact".to_owned() {
        if caps.compact {
            Some(Phase::Compact)
        } else {
            Some(
                failed("compact_memory unavailable (CONFIG_COMPACTION not enabled)".to_owned()),
            )
        }
    } else if cmd.action == "drop_caches".to_owned() {
        if !allow_drop {
            Some(failed("drop_caches not allowed (use --allow-drop)".to_owned()))
        } else if !caps.drop_caches {
            Some(failed("drop_caches unavailable on this kernel".to_owned()))
        } else {
            let level: u8 = match cmd.level {
                Some(l) => l,
                None => 3,
            };
            Some(Phase::Drop { level })
        }
    } else {
        None
    }
}

impl Phase {
    /// What is to be done next.
    pub fn step(&self) -> (s: Step)
        ensures
            s@ == self@.step(),
    {
        match self {
            Phase::Before { .. } | Phase::After { .. } => Step::Measure,
            Phase::Reclaim { bytes, path, .. } => Step::Write {
                path: path.clone(),
                content: decimal_text(*bytes as u128),
            },
            Phase::FallBack { .. } | Phase::Compact => Step::Write {
                path: COMPACT_MEMORY.to_owned(),
                content: "1".to_owned(),
            },
            Phase::Settle { .. } | Phase::Rest => Step::Pause,
            Phase::Drop { level } => {
                let mut script = "sync && echo ".to_owned();
                push_decimal(&mut script, *level as u128);
                script.append(" > /proc/sys/vm/drop_caches");
                Step::Shell { script }
            },
            Phase::Finished { .. } => Step::Done,
        }
    }

    /// Where the execution stands once the step has been tried.
    pub fn next(self, caps: &ReclaimCapabilities, event: &Event) -> (p: Phase)
        ensures
            p@ == self@.next(caps@, event@),
    {
        match self {
            Phase::Before { bytes } => match &caps.memory_reclaim {
                Some(path) => Phase::Reclaim {
                    bytes,
                    before: measured(event),
                    path: path.clone(),
                },
                None => fall_back(caps, measured(event)),
            },
            Phase::Reclaim { before, .. } => match event {
                Event::Failed { .. } => fall_back(caps, before),
                _ => Phase::Settle { before },
            },
            Phase::FallBack { before } => Phase::Settle { before },
            Phase::Settle { before } => Phase::After { before },
            Phase::After { before } => succeeded(
                Some(before.saturating_sub(measured(event))),
                "reclaim executed",
            ),
            Phase::Compact => match event {
                Event::Failed { error } => {
                    let mut note = "compact write failed: ".to_owned();
                    note.append(error.as_str());
                    failed(note)
                },
                _ => Phase::Rest,
            },
            Phase::Rest => succeeded(None, "compact executed"),
            Phase::Drop { .. } => match event {
                Event::Failed { error } => {
                    let mut note = "drop_caches failed: ".to_owned();
                    note.append(error.as_str());
                    failed(note)
                },
                _ => succeeded(None, "drop_caches executed"),
            },
            Phase::Finished { outcome } => Phase::Finished { outcome },
        }
    }

    /// What came of the command, once it is done.
    pub fn outcome(&self) -> (r: Option<&Outcome>)
        ensures
            r matches Some(o) ==> self@ == (Stage::Finished { verdict: o@ }),
            r is None ==> !(self@ is Finished),
    {
        match self {
            Phase::Finished { outcome } => Some(outcome),
            _ => None,
        }
    }
}

/// What is told to the host of the command `cmd_id`.
pub fn result_message(cmd_id: &str, outcome: &Outcome) -> (m: ResultMsg)
    ensures
        m.msg_type@ == "result"@,
        m.cmd_id@ == cmd_id@,
        m.status@ == (if outcome.ok {
            "ok"@
        } else {
            "error"@
        }),
        m.freed_bytes == outcome.freed,
        m.note@ == outcome.note@,
{
    ResultMsg {
        msg_type: "result".to_owned(),
        cmd_id: cmd_id.to_owned(),
        status: if outcome.ok {
            "ok".to_owned()
        } else {
            "error".to_owned()
        },
        freed_bytes: outcome.freed,
        note: outcome.note.clone(),
    }
}

/// How many answers the guest remembers.
pub const CACHED_ANSWERS: usize = 32;

/// The answers to the latest commands, oldest first. A command that comes
/// twice is executed once, and answered twice.
pub struct CommandCache {
    answers: VecDeque<(String, Vec<u8>)>,
}

impl View for CommandCache {
    type V = Seq<(Seq<char>, Seq<u8>)>;

    closed spec fn view(&self) -> Seq<(Seq<char>, Seq<u8>)> {
        self.answers@.map_values(|a: (String, Vec<u8>)| (a.0@, a.1@))
    }
}

/// The oldest answer that is remembered of a command.
pub open spec fn answer(answers: Seq<(Seq<char>, Seq<u8>)>, cmd_id: Seq<char>) -> Option<Seq<u8>>
    decreases answers.len(),
{
    if answers.len() == 0 {
        None
    } else if answers[0].0 == cmd_id {
        Some(answers[0].1)
    } else {
        answer(answers.skip(1), cmd_id)
    }
}

/// The answers once one more has been given, the oldest dropped where there
/// are too many.
pub open spec fn answered(
    answers: Seq<(Seq<char>, Seq<u8>)>,
    cmd_id: Seq<char>,
    response: Seq<u8>,
) -> Seq<(Seq<char>, Seq<u8>)> {
    let longer = answers.push((cmd_id, response));
    if longer.len() > CACHED_ANSWERS {
        longer.skip(1)
    } else {
        longer
    }
}

/// A copy of bytes.
fn copy_bytes(bytes: &Vec<u8>) -> (r: Vec<u8>)
    ensures
        r@ == bytes@,
{
    let mut r: Vec<u8> = Vec::new();
    let mut i: usize = 0;
    while i < bytes.len()
        invariant
            i <= bytes@.len(),
            r@ =~= bytes@.take(i as int),
        decreases bytes@.len() - i,
    {
        r.push(bytes[i]);
        i = i + 1;
    }
    assert(r@ =~= bytes@);
    r
}

impl CommandCache {
    /// No answer is remembered.
    pub fn new() -> (r: Self)
        ensures
            r@ == Seq::<(Seq<char>, Seq<u8>)>::empty(),
    {
        let r = CommandCache { answers: VecDeque::new() };
        assert(r@ =~= Seq::empty());
        r
    }

    /// The answer that was given to a command.
    pub fn lookup(&self, cmd_id: &String) -> (r: Option<Vec<u8>>)
        ensures
            (match r {
                Some(v) => Some(v@),
                None => None,
            }) == answer(self@, cmd_id@),
    {
        let mut i: usize = 0;
        assert(self@.skip(0) =~= self@);
        while i < self.answers.len()
            invariant
                i <= self.answers@.len(),
                self@.len() == self.answers@.len(),
                answer(self@, cmd_id@) == answer(self@.skip(i as int), cmd_id@),
            decreases self.answers@.len() - i,
        {
            let a = &self.answers[i];
            assert(self@.skip(i as int)[0] == (a.0@, a.1@));
            if a.0 == *cmd_id {
                return Some(copy_bytes(&a.1));
            }
            assert(self@.skip(i as int).skip(1) =~= self@.skip(i as int + 1));
            i = i + 1;
        }
        None
    }

    /// Remembers the answer to a command, and forgets the oldest where there
    /// are too many.
    pub fn store(&mut self, cmd_id: String, response: Vec<u8>)
        ensures
            final(self)@ == answered(old(self)@, cmd_id@, response@),
    {
        self.answers.push_back((cmd_id, response));
        assert(self@ =~= old(self)@.push((cmd_id@, response@)));
        if self.answers.len() > CACHED_ANSWERS {
            let ghost longer = self@;
            self.answers.pop_front();
            assert(self@ =~= longer.skip(1));
        }
    }
}

impl CommandCache {
    /// Takes note of the answer to a command that has been executed, and gives
    /// it back. A command that is not answered is not remembered.
    pub fn conclude(&mut self, cmd_id: &String, response: Option<Vec<u8>>)
        -> (r: Option<Vec<u8>>)
        ensures
            match response {
                Some(v) => final(self)@ == answered(old(self)@, cmd_id@, v@) && r is Some
                    && r->0@ == v@,
                None => final(self)@ == old(self)@ && r is None,
            },
    {
        match response {
            Some(v) => {
                self.store(cmd_id.clone(), copy_bytes(&v));
                Some(v)
            },
            None => None,
        }
    }
}

/// The steps that are left at most.
pub open spec fn steps_left(s: Stage) -> nat {
    match s {
        Stage::Before { .. } => 5,
        Stage::Reclaim { .. } => 4,
        Stage::FallBack { .. } => 3,
        Stage::Settle { .. } => 2,
        Stage::After { .. } => 1,
        Stage::Compact => 2,
        Stage::Rest => 1,
        Stage::Drop { .. } => 1,
        Stage::Finished { .. } => 0,
    }
}

/// Where the execution stands after a series of events.
pub open spec fn run(s: Stage, caps: Capabilities, events: Seq<Report>) -> Stage
    decreases events.len(),
{
    if events.len() == 0 {
        s
    } else {
        run(s.next(caps, events[0]), caps, events.skip(1))
    }
}

/// Whatever happens, a command is done after at most five steps.
pub proof fn every_command_finishes(s: Stage, caps: Capabilities, events: Seq<Report>)
    requires
        events.len() >= 5,
    ensures
        run(s, caps, events) is Finished,
{
    lemma_run_finishes(s, caps, events);
}

proof fn lemma_run_finishes(s: Stage, caps: Capabilities, events: Seq<Report>)
    requires
        events.len() >= steps_left(s),
    ensures
        run(s, caps, events) is Finished,
    decreases events.len(),
{
    if events.len() > 0 {
        lemma_run_finishes(s.next(caps, events[0]), caps, events.skip(1));
    }
}

/// Without permission the caches are never dropped, and no script is run,
/// whatever the host asks for and whatever happens.
pub proof fn caches_are_kept_without_permission(
    action: Seq<char>,
    bytes: Option<u64>,
    level: Option<u8>,
    caps: Capabilities,
    events: Seq<Report>,
)
    ensures
        beginning(action, bytes, level, false, caps) matches Some(s) ==> !(run(
            s,
            caps,
            events,
        ).step() is Shell),
{
    if let Some(s) = beginning(action, bytes, level, false, caps) {
        lemma_no_drop(s, caps, events);
    }
}

proof fn lemma_no_drop(s: Stage, caps: Capabilities, events: Seq<Report>)
    requires
        !(s is Drop),
    ensures
        !(run(s, caps, events) is Drop),
    decreases events.len(),
{
    if events.len() > 0 {
        lemma_no_drop(s.next(caps, events[0]), caps, events.skip(1));
    }
}

/// A reclaim goes through `memory.reclaim` where it is there and takes the
/// request, and then frees what the file cache has lost.
pub proof fn memory_reclaim_comes_first(
    bytes: u64,
    caps: Capabilities,
    before: u64,
    after: u64,
)
    requires
        caps.memory_reclaim is Some,
    ensures
        (Stage::Before { bytes }).next(caps, Report::Measured { cache: before }).step() == (
        Move::Write { path: caps.memory_reclaim->0, content: text::decimal(bytes as nat) }),
        run(
            Stage::Before { bytes },
            caps,
            seq![
                Report::Measured { cache: before },
                Report::Taken,
                Report::Taken,
                Report::Measured { cache: after },
            ],
        ) == success(Some(freed(before, after)), "reclaim executed"@),
{
    reveal_with_fuel(run, 5);
    let events = seq![
        Report::Measured { cache: before },
        Report::Taken,
        Report::Taken,
        Report::Measured { cache: after },
    ];
    assert(events.skip(1)[0] == events[1]);
    assert(events.skip(1).skip(1)[0] == events[2]);
    assert(events.skip(1).skip(1).skip(1)[0] == events[3]);
}

/// A reclaim falls back to `compact_memory` where `memory.reclaim` is missing
/// or does not take the request, and fails where that is missing too.
pub proof fn compaction_comes_second(caps: Capabilities, bytes: u64, before: u64, error: Seq<char>)
    ensures
        caps.memory_reclaim is None ==> (Stage::Before { bytes }).next(
            caps,
            Report::Measured { cache: before },
        ) == second_choice(caps, before),
        forall|path: Seq<char>| #[trigger]
            (Stage::Reclaim { bytes, before, path }).next(caps, Report::Failed { error })
                == second_choice(caps, before),
        caps.compact ==> second_choice(caps, before).step() == (Move::Write {
            path: COMPACT_MEMORY@,
            content: "1"@,
        }),
        !caps.compact ==> second_choice(caps, before) == failure(no_interface()),
{
}

/// No more answers are remembered than there is room for.
pub proof fn answers_stay_bounded(
    answers: Seq<(Seq<char>, Seq<u8>)>,
    cmd_id: Seq<char>,
    response: Seq<u8>,
)
    requires
        answers.len() <= CACHED_ANSWERS,
    ensures
        answered(answers, cmd_id, response).len() <= CACHED_ANSWERS,
{
}

/// A command that has been answered is answered the same when it comes again.
pub proof fn repeated_command_is_answered_the_same(
    answers: Seq<(Seq<char>, Seq<u8>)>,
    cmd_id: Seq<char>,
    response: Seq<u8>,
)
    requires
        answer(answers, cmd_id) is None,
    ensures
        answer(answered(answers, cmd_id, response), cmd_id) == Some(response),
{
    let longer = answers.push((cmd_id, response));
    lemma_answer_push(answers, cmd_id, response);
    if longer.len() > CACHED_ANSWERS {
        assert(answers[0].0 != cmd_id);
        assert(longer[0] == answers[0]);
    }
}

proof fn lemma_answer_push(
    answers: Seq<(Seq<char>, Seq<u8>)>,
    cmd_id: Seq<char>,
    response: Seq<u8>,
)
    requires
        answer(answers, cmd_id) is None,
    ensures
        answer(answers.push((cmd_id, response)), cmd_id) == Some(response),
    decreases answers.len(),
{
    let longer = answers.push((cmd_id, response));
    if answers.len() > 0 {
        assert(longer[0] == answers[0]);
        assert(longer.skip(1) =~= answers.skip(1).push((cmd_id, response)));
        lemma_answer_push(answers.skip(1), cmd_id, response);
    } else {
        assert(longer[0] == (cmd_id, response));
    }
}

/// The answers once all of `more` have been given.
pub open spec fn answered_all(
    answers: Seq<(Seq<char>, Seq<u8>)>,
    more: Seq<(Seq<char>, Seq<u8>)>,
) -> Seq<(Seq<char>, Seq<u8>)>
    decreases more.len(),
{
    if more.len() == 0 {
        answers
    } else {
        answered_all(answered(answers, more[0].0, more[0].1), more.skip(1))
    }
}

/// An answer is remembered over the next thirty-one other commands.
pub proof fn answer_outlasts_other_commands(
    answers: Seq<(Seq<char>, Seq<u8>)>,
    cmd_id: Seq<char>,
    response: Seq<u8>,
    more: Seq<(Seq<char>, Seq<u8>)>,
)
    requires
        answers.len() <= CACHED_ANSWERS,
        answer(answers, cmd_id) is None,
        more.len() < CACHED_ANSWERS,
        forall|i: int| 0 <= i < more.len() ==> (#[trigger] more[i]).0 != cmd_id,
    ensures
        answer(answered_all(answered(answers, cmd_id, response), more), cmd_id) == Some(response),
{
    let first = answered(answers, cmd_id, response);
    let p = first.len() - 1;
    lemma_answer_none(answers, cmd_id);
    assert forall|j: int| 0 <= j < p implies (#[trigger] first[j]).0 != cmd_id by {
        if answers.len() == CACHED_ANSWERS {
            assert(first[j] == answers[j + 1]);
        } else {
            assert(first[j] == answers[j]);
        }
    }
    lemma_answer_outlasts(first, p, cmd_id, more);
}

proof fn lemma_answer_none(answers: Seq<(Seq<char>, Seq<u8>)>, cmd_id: Seq<char>)
    requires
        answer(answers, cmd_id) is None,
    ensures
        forall|j: int| 0 <= j < answers.len() ==> (#[trigger] answers[j]).0 != cmd_id,
    decreases answers.len(),
{
    if answers.len() > 0 {
        lemma_answer_none(answers.skip(1), cmd_id);
        assert forall|j: int| 0 <= j < answers.len() implies (#[trigger] answers[j]).0
            != cmd_id by {
            if j > 0 {
                assert(answers.skip(1)[j - 1] == answers[j]);
            }
        }
    }
}

proof fn lemma_answer_at(answers: Seq<(Seq<char>, Seq<u8>)>, p: int, cmd_id: Seq<char>)
    requires
        0 <= p < answers.len(),
        answers[p].0 == cmd_id,
        forall|j: int| 0 <= j < p ==> (#[trigger] answers[j]).0 != cmd_id,
    ensures
        answer(answers, cmd_id) == Some(answers[p].1),
    decreases p,
{
    if p > 0 {
        assert(answers[0].0 != cmd_id);
        assert forall|j: int| 0 <= j < p - 1 implies (#[trigger] answers.skip(1)[j]).0
            != cmd_id by {
            assert(answers.skip(1)[j] == answers[j + 1]);
        }
        lemma_answer_at(answers.skip(1), p - 1, cmd_id);
    }
}

proof fn lemma_answer_outlasts(
    answers: Seq<(Seq<char>, Seq<u8>)>,
    p: int,
    cmd_id: Seq<char>,
    more: Seq<(Seq<char>, Seq<u8>)>,
)
    requires
        answers.len() <= CACHED_ANSWERS,
        0 <= p < answers.len(),
        more.len() <= p + CACHED_ANSWERS - answers.len(),
        answers[p].0 == cmd_id,
        forall|j: int| 0 <= j < p ==> (#[trigger] answers[j]).0 != cmd_id,
        forall|i: int| 0 <= i < more.len() ==> (#[trigger] more[i]).0 != cmd_id,
    ensures
        answer(answered_all(answers, more), cmd_id) == Some(answers[p].1),
    decreases more.len(),
{
    if more.len() == 0 {
        lemma_answer_at(answers, p, cmd_id);
    } else {
        let next = answered(answers, more[0].0, more[0].1);
        let rest = more.skip(1);
        assert forall|i: int| 0 <= i < rest.len() implies (#[trigger] rest[i]).0 != cmd_id by {
            assert(rest[i] == more[i + 1]);
        }
        let q = if answers.len() == CACHED_ANSWERS {
            p - 1
        } else {
            p
        };
        assert forall|j: int| 0 <= j <= q implies #[trigger] next[j] == answers[j + p - q] by {
        }
        lemma_answer_outlasts(next, q, cmd_id, rest);
    }
}

/// The guest executes and answers every command that the host sends.
pub proof fn guest_understands_every_command(
    action: ReclamationAction,
    diagnostics: Seq<char>,
    pressure: PressureLevel,
    nanos: u128,
    allow_drop: bool,
    caps: Capabilities,
)
    ensures
        protocol::command_for(action, diagnostics, pressure, nanos) matches Some(c) ==> beginning(
            c.action,
            c.bytes,
            c.level,
            allow_drop,
            caps,
        ) is Some,
{
    reveal_strlit("reclaim");
    reveal_strlit("compact");
    reveal_strlit("drop_caches");
    assert("reclaim"@[0] == 'r');
    assert("compact"@[0] == 'c');
    assert("drop_caches"@[0] == 'd');
}

/// What has been freed and what is left of the cache make up what there was;
/// a cache that has grown has freed nothing.
pub proof fn freed_and_left_make_up_the_cache(
    caps: Capabilities,
    before: u64,
    after: u64,
    bytes: u64,
    path: Seq<char>,
)
    ensures
        ({
            let done = (Stage::After { before }).next(caps, Report::Measured { cache: after });
            &&& done is Finished && done->verdict.ok
            &&& done->verdict.freed matches Some(n) && (after <= before ==> n + after == before)
                && (after > before ==> n == 0)
        }),
        // what was there is measured first, and kept until then
        (Stage::Before { bytes }).next(caps, Report::Measured { cache: before }) matches (
        Stage::Reclaim { before: b, .. }) ==> b == before,
        (Stage::Reclaim { bytes, before, path }).next(caps, Report::Taken) == (Stage::Settle {
            before,
        }),
        (Stage::Settle { before }).next(caps, Report::Taken) == (Stage::After { before }),
        (Stage::FallBack { before }).next(caps, Report::Taken) == (Stage::Settle { before }),
{
}

/// The number that is written to `memory.reclaim` is the number of bytes that
/// was asked for.
pub proof fn request_reads_back(bytes: u64, before: u64, path: Seq<char>)
    ensures
        (Stage::Reclaim { bytes, before, path }).step() matches Move::Write { path: p, content }
            && p == path && text::number(content, u64::MAX as nat) == Some(bytes as nat),
{
    text::number_of_decimal(bytes as nat, u64::MAX as nat);
}

/// The permission to drop caches matters to no other command, and a level to no
/// other either; without a level it is the third.
pub proof fn permission_matters_to_dropping_alone(
    action: Seq<char>,
    bytes: Option<u64>,
    level: Option<u8>,
    other: Option<u8>,
    caps: Capabilities,
)
    ensures
        action != "drop_caches"@ ==> beginning(action, bytes, level, true, caps) == beginning(
            action,
            bytes,
            other,
            false,
            caps,
        ),
        action == "drop_caches"@ && caps.drop_caches ==> beginning(
            action,
            bytes,
            level,
            true,
            caps,
        ) == Some(
            Stage::Drop {
                level: if level is Some {
                    level->0
                } else {
                    3
                },
            },
        ),
        action == "drop_caches"@ && level is None ==> beginning(action, bytes, level, true, caps)
            == beginning(action, bytes, Some(3), true, caps),
{
    reveal_strlit("reclaim");
    reveal_strlit("compact");
    reveal_strlit("drop_caches");
    assert("reclaim"@.len() == 7);
    assert("compact"@.len() == 7);
    assert("drop_caches"@.len() == 11);
}

/// A failure is told with its reason, and nothing that failed counts as freed.
pub proof fn failures_are_told(caps: Capabilities, error: Seq<char>, level: u8)
    ensures
        (Stage::Compact).next(caps, Report::Failed { error }) matches Stage::Finished { verdict }
            && !verdict.ok && verdict.freed is None && text::ends(verdict.note, error),
        (Stage::Drop { level }).next(caps, Report::Failed { error }) matches Stage::Finished {
            verdict,
        } && !verdict.ok && verdict.freed is None && text::ends(verdict.note, error),
{
    let a = "compact write failed: "@ + error;
    let b = "drop_caches failed: "@ + error;
    assert(a.skip(a.len() - error.len()) =~= error);
    assert(b.skip(b.len() - error.len()) =~= error);
}

/// The host takes the guest's answer for the result of the command of that
/// name, and the answer says whether it was carried out.
pub proof fn answer_is_taken_for_a_result(
    cmd_id: &str,
    outcome: &Outcome,
    m: ResultMsg,
    trusted: bool,
)
    requires
        call_ensures(result_message, (cmd_id, outcome), m),
    ensures
        server::kind(Some(m.msg_type@), trusted) == server::Incoming::Outcome,
        m.cmd_id@ == cmd_id@,
        m.status@ == "ok"@ <==> outcome.ok,
        m.status@ == "error"@ <==> !outcome.ok,
        m.freed_bytes == outcome.freed,
        m.note@ == outcome.note@,
{
    server::pings_and_results_need_no_token("result"@, trusted);
    reveal_strlit("ok");
    reveal_strlit("error");
    assert("ok"@.len() == 2);
    assert("error"@.len() == 5);
}

/// Only the write that carries a request can fail it. A compaction that stands
/// in, the pauses and the end of a command do not depend on what happens, and a
/// size that could not be measured counts as none.
pub proof fn only_the_request_may_fail(
    caps: Capabilities,
    bytes: u64,
    before: u64,
    path: Seq<char>,
    level: u8,
    verdict: Verdict,
    event: Report,
)
    ensures
        (Stage::FallBack { before }).next(caps, event) == (Stage::Settle { before }),
        (Stage::Settle { before }).next(caps, event) == (Stage::After { before }),
        (Stage::Rest).next(caps, event) matches Stage::Finished { verdict } && verdict.ok
            && verdict.freed is None,
        (Stage::Finished { verdict }).next(caps, event) == (Stage::Finished { verdict }),
        !(event is Failed) ==> {
            &&& (Stage::Reclaim { bytes, before, path }).next(caps, event) == (Stage::Settle {
                before,
            })
            &&& (Stage::Compact).next(caps, event) == Stage::Rest
            &&& (Stage::Drop { level }).next(caps, event) matches Stage::Finished { verdict }
                && verdict.ok && verdict.freed is None
        },
        !(event is Measured) ==> {
            &&& (Stage::Before { bytes }).next(caps, event) == (Stage::Before { bytes }).next(
                caps,
                Report::Measured { cache: 0 },
            )
            &&& (Stage::After { before }).next(caps, event) == (Stage::After { before }).next(
                caps,
                Report::Measured { cache: 0 },
            )
        },
{
}

/// What is no command, and a reclaim of no given size, is not begun. A command
/// that the kernel does not offer fails at once.
pub proof fn unknown_commands_are_not_begun(
    action: Seq<char>,
    bytes: Option<u64>,
    level: Option<u8>,
    allow_drop: bool,
    caps: Capabilities,
)
    ensures
        beginning(action, bytes, level, allow_drop, caps) is Some <==> {
            ||| action == "reclaim"@ && bytes is Some
            ||| action == "compact"@
            ||| action == "drop_caches"@
        },
        beginning(action, bytes, level, allow_drop, caps) matches Some(s) ==> {
            s is Finished <==> {
                ||| action == "compact"@ && !caps.compact
                ||| action == "drop_caches"@ && !(allow_drop && caps.drop_caches)
            }
        },
        beginning(action, bytes, level, allow_drop, caps) matches Some(s) ==> (s is Finished ==>
            !s->verdict.ok && s->verdict.freed is None),
{
    reveal_strlit("reclaim");
    reveal_strlit("compact");
    reveal_strlit("drop_caches");
    assert("reclaim"@[0] == 'r');
    assert("compact"@[0] == 'c');
    assert("drop_caches"@[0] == 'd');
}

} // verus!
