//! When hosts fall due, and which of the due hosts get a task: at most one
//! task is in flight for a host at any time.

use vstd::prelude::*;
use vstd::string::*;
use std::collections::VecDeque;
use crate::backup::{records_dir_of, Sftp};
use crate::config::{default_cron, GlobalConfig, Host, HostView, Settings};
use crate::logging::Trap;
use crate::path::{chars_of, parse_path, pushed, string_of, FilePath};
use crate::record::Record;

verus! {

/// Tasks in the order they came in.
#[derive(Debug)]
pub struct TaskQueue<T> {
    pub tasks: VecDeque<T>,
}

impl<T> TaskQueue<T> {
    /// The empty queue.
    pub fn new() -> (r: Self)
        ensures
            r.tasks@ == Seq::<T>::empty(),
    {
        TaskQueue { tasks: VecDeque::new() }
    }

    /// Puts `val` at the back.
    pub fn pushb(&mut self, val: T)
        ensures
            final(self).tasks@ == old(self).tasks@.push(val),
    {
        self.tasks.push_back(val);
    }

    /// Takes the task at the front, if there is one.
    pub fn popf(&mut self) -> (r: Option<T>)
        ensures
            old(self).tasks@.len() == 0 ==> r is None && final(self).tasks@ == old(self).tasks@,
            old(self).tasks@.len() > 0 ==> r == Some(old(self).tasks@[0]) && final(self).tasks@
                == old(self).tasks@.skip(1),
    {
        let r = self.tasks.pop_front();
        proof {
            if old(self).tasks@.len() > 0 {
                assert(self.tasks@ =~= old(self).tasks@.skip(1));
            }
        }
        r
    }

    /// Whether no task waits.
    pub fn is_empty(&self) -> (r: bool)
        ensures
            r == (self.tasks@.len() == 0),
    {
        self.tasks.len() == 0
    }

    /// Number of tasks that wait.
    pub fn len(&self) -> (r: usize)
        ensures
            r == self.tasks@.len(),
    {
        self.tasks.len()
    }

    /// The task at the front, if there is one.
    pub fn peek(&self) -> (r: Option<&T>)
        ensures
            self.tasks@.len() == 0 ==> r is None,
            self.tasks@.len() > 0 ==> r == Some(&self.tasks@[0]),
    {
        if self.tasks.len() == 0 {
            None
        } else {
            Some(&self.tasks[0])
        }
    }
}

/// Whether `cron::Schedule::from_str` accepts the expression.
pub uninterp spec fn cron_accepts(expression: Seq<char>) -> bool;

/// The first time strictly after `after` at which the schedule that
/// `cron::Schedule::from_str` reads from the expression fires, as the
/// iterator of `cron::Schedule::after` gives it; times are seconds since the
/// epoch, taken as UTC. Nothing where the expression is not accepted or the
/// schedule never fires again.
pub uninterp spec fn cron_next(expression: Seq<char>, after: int) -> Option<int>;

/// The latest time that a schedule is asked about: the last second of the
/// year 9999.
pub open spec fn last_time() -> int {
    253_402_300_799
}

/// `cron::Schedule::from_str`: whether the expression is one.
#[verifier::external_body]
fn schedule_accepts(expression: &str) -> (r: bool)
    ensures
        r == cron_accepts(expression@),
{
    expression.parse::<cron::Schedule>().is_ok()
}

/// `cron::Schedule::after`, asked for its first item: the first time after
/// `after` at which the schedule of the expression fires.
#[verifier::external_body]
fn next_occurrence(expression: &str, after: i64) -> (r: Option<i64>)
    requires
        -1 <= after <= last_time(),
    ensures
        r is Some == cron_next(expression@, after as int) is Some,
        r is Some ==> r->0 as int == cron_next(expression@, after as int)->0,
{
    let schedule = expression.parse::<cron::Schedule>().ok()?;
    let start = chrono::DateTime::<chrono::Utc>::from_timestamp(after, 0)?;
    schedule.after(&start).next().map(|time| time.timestamp())
}

/// Whether `c` separates the fields of a cron expression.
pub open spec fn is_blank(c: char) -> bool {
    c == ' ' || c == '\t' || c == '\n' || c == '\r'
}

/// Number of fields in a cron expression: the runs of characters between
/// blanks.
pub open spec fn field_count(s: Seq<char>) -> nat
    decreases s.len(),
{
    if s.len() == 0 {
        0
    } else if !is_blank(s.last()) && (s.len() == 1 || is_blank(s[s.len() - 2])) {
        field_count(s.drop_last()) + 1
    } else {
        field_count(s.drop_last())
    }
}

/// The expression as the schedule reads it, with seconds in first place: an
/// expression of five fields, which starts at the minutes, gets the seconds
/// `0` put before it.
pub open spec fn cron_form(expression: Seq<char>) -> Seq<char> {
    if field_count(expression) == 5 {
        seq!['0', ' '] + expression
    } else {
        expression
    }
}

/// The expression with seconds in first place.
pub fn with_seconds(expression: &str) -> (r: String)
    ensures
        r@ == cron_form(expression@),
{
    let chars = chars_of(expression);
    let mut fields: usize = 0;
    let mut i: usize = 0;
    assert(chars@.take(0) =~= Seq::<char>::empty());
    while i < chars.len()
        invariant
            i <= chars.len(),
            fields == field_count(chars@.take(i as int)),
            fields <= i,
        decreases chars.len() - i,
    {
        let c = chars[i];
        let blank = c == ' ' || c == '\t' || c == '\n' || c == '\r';
        let after_blank = i == 0 || chars[i - 1] == ' ' || chars[i - 1] == '\t' || chars[i - 1]
            == '\n' || chars[i - 1] == '\r';
        proof {
            let s = chars@.take(i + 1);
            assert(s.drop_last() =~= chars@.take(i as int));
            assert(s.last() == c);
            if i > 0 {
                assert(s[s.len() - 2] == chars@[i - 1]);
            }
        }
        if !blank && after_blank {
            fields += 1;
        }
        i += 1;
    }
    assert(chars@.take(chars.len() as int) =~= chars@);
    if fields == 5 {
        let mut out: Vec<char> = Vec::new();
        out.push('0');
        out.push(' ');
        let mut j: usize = 0;
        while j < chars.len()
            invariant
                j <= chars.len(),
                out@ == seq!['0', ' '] + chars@.take(j as int),
            decreases chars.len() - j,
        {
            out.push(chars[j]);
            assert(out@ =~= seq!['0', ' '] + chars@.take(j + 1));
            j += 1;
        }
        assert(chars@.take(chars.len() as int) =~= chars@);
        string_of(&out)
    } else {
        String::from_str(expression)
    }
}

/// The start of the minute that `seconds` falls in.
pub open spec fn minute_floor(seconds: int) -> int {
    seconds - seconds % 60
}

/// Drops the seconds of a time, keeping minute precision.
pub fn truncate_to_minute(seconds: u64) -> (minute: u64)
    ensures
        minute == minute_floor(seconds as int),
{
    seconds - seconds % 60
}

/// A host is due at `now` when the next time its schedule fires, from the
/// start of the current minute on, is the start of the current minute.
pub open spec fn due(next: Option<int>, now: int) -> bool {
    next == Some(minute_floor(now))
}

/// Whether a host is due at `now`, given the first time from the start of
/// the current minute on at which its schedule fires.
pub fn should_run(next: Option<i64>, now: u64) -> (r: bool)
    ensures
        r == (next is Some && due(Some(next->0 as int), now as int)),
{
    let minute = truncate_to_minute(now);
    match next {
        Some(time) => time >= 0 && time as u64 == minute,
        None => false,
    }
}

/// Whether the schedule of `expression` makes a host due at `now`.
pub open spec fn due_at(expression: Seq<char>, now: int) -> bool {
    minute_floor(now) - 1 <= last_time() && due(
        cron_next(cron_form(expression), minute_floor(now) - 1),
        now,
    )
}

/// Whether the schedule of `expression` makes a host due at `now`, a time in
/// seconds since the epoch. Times after the year 9999 make no host due.
pub fn is_due(expression: &str, now: u64) -> (r: bool)
    ensures
        r == due_at(expression@, now as int),
{
    let minute = truncate_to_minute(now);
    if minute > 253_402_300_800 {
        return false;
    }
    let form = with_seconds(expression);
    let next = next_occurrence(form.as_str(), minute as i64 - 1);
    should_run(next, now)
}

/// Whether the schedule reads the expression, with the seconds put before
/// an expression of five fields.
pub fn is_valid_schedule(expression: &str) -> (r: bool)
    ensures
        r == cron_accepts(cron_form(expression@)),
{
    let form = with_seconds(expression);
    schedule_accepts(form.as_str())
}

/// A host with the cron expression by which it falls due.
#[derive(Debug)]
pub struct HostSchedule {
    pub host: Host,
    pub schedule: String,
}

/// The cron expression of a host: its own, or the default where it has none.
pub open spec fn expression_of(host: HostView) -> Seq<char> {
    match host.config.cron_schedule {
        Some(expression) => expression,
        None => default_cron(),
    }
}

/// Whether the schedule reads the expression of each host, in table order.
pub open spec fn expressions_read(hosts: Seq<HostView>) -> Seq<bool> {
    Seq::new(hosts.len(), |i: int| cron_accepts(cron_form(expression_of(hosts[i]))))
}

/// The hosts that are scheduled, in table order: those whose expression is
/// read, as `valid` says.
pub open spec fn scheduled_hosts(hosts: Seq<HostView>, valid: Seq<bool>) -> Seq<HostView>
    decreases hosts.len(),
{
    if hosts.len() == 0 || valid.len() != hosts.len() {
        Seq::empty()
    } else if valid.last() {
        scheduled_hosts(hosts.drop_last(), valid.drop_last()).push(hosts.last())
    } else {
        scheduled_hosts(hosts.drop_last(), valid.drop_last())
    }
}

/// A note that the bootstrap leaves in the log.
pub struct BootstrapNote {
    /// Whether the host has no expression; else its expression is not read.
    pub missing: bool,
    pub hostname: Seq<char>,
}

/// The notes for one host: first one if it has no expression, then one if
/// its expression is not read.
pub open spec fn notes_for(host: HostView, valid: bool) -> Seq<BootstrapNote> {
    let missing = if host.config.cron_schedule is None {
        seq![BootstrapNote { missing: true, hostname: host.hostname }]
    } else {
        Seq::empty()
    };
    let unread = if valid {
        Seq::empty()
    } else {
        seq![BootstrapNote { missing: false, hostname: host.hostname }]
    };
    missing + unread
}

/// The notes that the bootstrap leaves in the log, host by host in table
/// order.
pub open spec fn bootstrap_notes(hosts: Seq<HostView>, valid: Seq<bool>) -> Seq<BootstrapNote>
    decreases hosts.len(),
{
    if hosts.len() == 0 || valid.len() != hosts.len() {
        Seq::empty()
    } else {
        bootstrap_notes(hosts.drop_last(), valid.drop_last()) + notes_for(
            hosts.last(),
            valid.last(),
        )
    }
}

/// The text of a note.
pub open spec fn note_text(note: BootstrapNote) -> Seq<char> {
    if note.missing {
        "Missing cron_schedule for `"@ + note.hostname + "`: Defaulting to `0 0 * * *`"@
    } else {
        "Invalid Cron Expression for `"@ + note.hostname + "`"@
    }
}

/// The failure says what the note says: `Missing` for a host without an
/// expression, `Scheduler` for an expression that is not read, each with
/// the note's text.
pub open spec fn trap_says(trap: Trap, note: BootstrapNote) -> bool {
    &&& trap is Missing <==> note.missing
    &&& trap is Scheduler <==> !note.missing
    &&& trap.message() == note_text(note)
}

/// The task of backing one host up.
#[derive(Debug)]
pub struct BackupTask {
    pub global_config: GlobalConfig,
    pub host: Host,
}

impl BackupTask {
    /// The host's current record, which the task starts from.
    pub fn record_path(&self) -> (r: FilePath)
        ensures
            r@ == pushed(
                records_dir_of(self.global_config.backups@, self.host.config.identifier@),
                parse_path("record.json"@),
            ),
    {
        self.global_config.backups.join_str(self.host.config.identifier.as_str()).join_str(
            ".records",
        ).join_str("record.json")
    }

    /// The run that the task makes of its host, from the host's current
    /// record as it was read from `record_path`: an incremental run, which
    /// reports what it does and has not started.
    pub fn run_backup_task(&self, record: Record) -> (r: Sftp)
        ensures
            r.incremental,
            r.debug,
            r.host_config@ == self.host.config@,
            r.global_config.hosts@ == self.global_config.hosts@,
            r.global_config.backups@ == self.global_config.backups@,
            r.global_config.snapshots@ == self.global_config.snapshots@,
            r.global_config.log@ == self.global_config.log@,
            r.record == record,
            r.host_root_path is None,
            r.snapshot_root_path is None,
            r.complete_destination is None,
    {
        let mut run = Sftp::new(&self.host.config, &self.global_config, record, true);
        run.incremental = true;
        run
    }
}

/// The hostnames of the schedules, in order.
pub open spec fn schedule_names(schedules: Seq<HostSchedule>) -> Seq<Seq<char>> {
    Seq::new(schedules.len(), |i: int| schedules[i].host.hostname@)
}

/// Whether `name` is one of the names.
pub open spec fn is_active(active: Seq<String>, name: Seq<char>) -> bool {
    exists|i: int| 0 <= i < active.len() && (#[trigger] active[i])@ == name
}

/// Whether a tick starts a task for the schedule at index `i`: it is due,
/// no task is in flight for its host, and no schedule before it that is due
/// names the same host.
pub open spec fn starts(names: Seq<Seq<char>>, due: Seq<bool>, active: Seq<String>, i: int) -> bool {
    &&& 0 <= i < names.len()
    &&& i < due.len()
    &&& due[i]
    &&& !is_active(active, names[i])
    &&& forall|j: int| 0 <= j < i ==> !(#[trigger] due[j] && names[j] == names[i])
}

/// The hosts with their schedules, and the hosts for which a task is in
/// flight.
#[derive(Debug)]
pub struct BackupScheduler {
    pub global_config: GlobalConfig,
    pub settings: Settings,
    pub schedules: Vec<HostSchedule>,
    /// The hostnames for which a task is in flight.
    pub active: Vec<String>,
}

/// Whether `name` is one of the names.
fn holds_name(names: &Vec<String>, name: &String) -> (r: bool)
    ensures
        r == is_active(names@, name@),
{
    let mut i: usize = 0;
    while i < names.len()
        invariant
            i <= names.len(),
            forall|j: int| 0 <= j < i ==> (#[trigger] names@[j])@ != name@,
        decreases names.len() - i,
    {
        if names[i] == *name {
            return true;
        }
        i += 1;
    }
    false
}

impl BackupScheduler {
    /// Whether the schedule reads the expression of each host of the table,
    /// the default standing in where a host has none.
    pub fn read_expressions(settings: &Settings) -> (r: Vec<bool>)
        ensures
            r@ == expressions_read(settings@),
    {
        let mut r: Vec<bool> = Vec::new();
        let mut i: usize = 0;
        while i < settings.hosts.len()
            invariant
                i <= settings.hosts.len(),
                r@ == expressions_read(settings@).take(i as int),
            decreases settings.hosts.len() - i,
        {
            let expression = settings.hosts[i].config.cron_or_default();
            r.push(is_valid_schedule(expression.as_str()));
            assert(r@ =~= expressions_read(settings@).take(i + 1));
            i += 1;
        }
        assert(expressions_read(settings@).take(settings.hosts.len() as int) =~= expressions_read(
            settings@,
        ));
        r
    }

    /// The scheduler of the hosts of `settings`, given for each host whether
    /// its expression is read. A host without an expression gets the
    /// default one, with a `Missing` note; a host whose expression is not
    /// read is left out, with a `Scheduler` note. The notes come back for
    /// the log.
    pub fn assemble(global_config: GlobalConfig, settings: Settings, valid: &Vec<bool>) -> (r: (
        Self,
        Vec<Trap>,
    ))
        requires
            valid@.len() == settings@.len(),
        ensures
            r.0.settings == settings,
            r.0.global_config == global_config,
            r.0.active@.len() == 0,
            r.0.schedules@.len() == scheduled_hosts(settings@, valid@).len(),
            forall|i: int|
                0 <= i < r.0.schedules@.len() ==> (#[trigger] r.0.schedules@[i]).host@
                    == scheduled_hosts(settings@, valid@)[i] && r.0.schedules@[i].schedule@
                    == expression_of(scheduled_hosts(settings@, valid@)[i]),
            r.1@.len() == bootstrap_notes(settings@, valid@).len(),
            forall|i: int|
                0 <= i < r.1@.len() ==> trap_says(
                    #[trigger] r.1@[i],
                    bootstrap_notes(settings@, valid@)[i],
                ),
    {
        let mut schedules: Vec<HostSchedule> = Vec::new();
        let mut notes: Vec<Trap> = Vec::new();
        let mut i: usize = 0;
        assert(settings@.take(0) =~= Seq::<HostView>::empty());
        assert(valid@.take(0) =~= Seq::<bool>::empty());
        while i < settings.hosts.len()
            invariant
                i <= settings.hosts.len(),
                valid@.len() == settings@.len(),
                schedules@.len() == scheduled_hosts(
                    settings@.take(i as int),
                    valid@.take(i as int),
                ).len(),
                forall|j: int|
                    0 <= j < schedules@.len() ==> (#[trigger] schedules@[j]).host@
                        == scheduled_hosts(settings@.take(i as int), valid@.take(i as int))[j]
                        && schedules@[j].schedule@ == expression_of(
                        scheduled_hosts(settings@.take(i as int), valid@.take(i as int))[j],
                    ),
                notes@.len() == bootstrap_notes(
                    settings@.take(i as int),
                    valid@.take(i as int),
                ).len(),
                forall|j: int|
                    0 <= j < notes@.len() ==> trap_says(
                        #[trigger] notes@[j],
                        bootstrap_notes(settings@.take(i as int), valid@.take(i as int))[j],
                    ),
            decreases settings.hosts.len() - i,
        {
            let host = &settings.hosts[i];
            proof {
                assert(settings@.take(i + 1).drop_last() =~= settings@.take(i as int));
                assert(settings@.take(i + 1).last() == host@);
                assert(valid@.take(i + 1).drop_last() =~= valid@.take(i as int));
                assert(valid@.take(i + 1).last() == valid@[i as int]);
            }
            let ghost before = notes@;
            let ghost so_far = bootstrap_notes(settings@.take(i as int), valid@.take(i as int));
            if host.config.cron_schedule.is_none() {
                let mut text = String::from_str("Missing cron_schedule for `");
                text.append(host.hostname.as_str());
                text.append("`: Defaulting to `0 0 * * *`");
                notes.push(Trap::Missing(text));
            }
            if valid[i] {
                schedules.push(
                    HostSchedule { host: host.clone(), schedule: host.config.cron_or_default() },
                );
            } else {
                let mut text = String::from_str("Invalid Cron Expression for `");
                text.append(host.hostname.as_str());
                text.append("`");
                notes.push(Trap::Scheduler(text));
            }
            proof {
                let now = bootstrap_notes(settings@.take(i + 1), valid@.take(i + 1));
                assert(now == so_far + notes_for(host@, valid@[i as int]));
                assert(notes@.len() == now.len());
                assert forall|j: int| 0 <= j < notes@.len() implies trap_says(
                    #[trigger] notes@[j],
                    now[j],
                ) by {
                    if j < before.len() {
                        assert(notes@[j] == before[j]);
                        assert(now[j] == so_far[j]);
                    } else {
                        assert(now[j] == notes_for(host@, valid@[i as int])[j - so_far.len()]);
                    }
                }
            }
            i += 1;
        }
        proof {
            assert(settings@.take(settings.hosts.len() as int) =~= settings@);
            assert(valid@.take(settings.hosts.len() as int) =~= valid@);
        }
        (BackupScheduler { global_config, settings, schedules, active: Vec::new() }, notes)
    }

    /// The scheduler of the hosts of `settings`: each host whose expression
    /// the schedule reads, with the notes for the others and for the hosts
    /// that get the default expression.
    pub fn from(global_config: GlobalConfig, settings: Settings) -> (r: (Self, Vec<Trap>))
        ensures
            r.0.settings == settings,
            r.0.global_config == global_config,
            r.0.active@.len() == 0,
            r.0.schedules@.len() == scheduled_hosts(settings@, expressions_read(settings@)).len(),
            forall|i: int|
                0 <= i < r.0.schedules@.len() ==> (#[trigger] r.0.schedules@[i]).host@
                    == scheduled_hosts(settings@, expressions_read(settings@))[i]
                    && r.0.schedules@[i].schedule@ == expression_of(
                    scheduled_hosts(settings@, expressions_read(settings@))[i],
                ),
            r.1@.len() == bootstrap_notes(settings@, expressions_read(settings@)).len(),
            forall|i: int|
                0 <= i < r.1@.len() ==> trap_says(
                    #[trigger] r.1@[i],
                    bootstrap_notes(settings@, expressions_read(settings@))[i],
                ),
    {
        let valid = Self::read_expressions(&settings);
        Self::assemble(global_config, settings, &valid)
    }

    /// Which schedules are due at `now`, a time in seconds since the epoch.
    pub fn due_now(&self, now: u64) -> (r: Vec<bool>)
        ensures
            r@.len() == self.schedules@.len(),
            forall|i: int|
                0 <= i < r@.len() ==> #[trigger] r@[i] == due_at(
                    self.schedules@[i].schedule@,
                    now as int,
                ),
    {
        let mut r: Vec<bool> = Vec::new();
        let mut i: usize = 0;
        while i < self.schedules.len()
            invariant
                i <= self.schedules.len(),
                r@.len() == i,
                forall|j: int|
                    0 <= j < i ==> #[trigger] r@[j] == due_at(
                        self.schedules@[j].schedule@,
                        now as int,
                    ),
            decreases self.schedules.len() - i,
        {
            r.push(is_due(self.schedules[i].schedule.as_str(), now));
            i += 1;
        }
        r
    }

    /// Starts the tasks of one tick: for each schedule that is due, unless a
    /// task is in flight for its host or an earlier schedule of this tick
    /// took the host. Returns the indices of the schedules to start a task
    /// for, in order; their hosts are in flight from now on.
    pub fn dispatch(&mut self, due: &Vec<bool>) -> (r: Vec<usize>)
        requires
            due@.len() == old(self).schedules@.len(),
        ensures
            final(self).schedules == old(self).schedules,
            final(self).settings == old(self).settings,
            final(self).global_config == old(self).global_config,
            forall|i: int|
                0 <= i < old(self).schedules@.len() ==> (starts(
                    schedule_names(old(self).schedules@),
                    due@,
                    old(self).active@,
                    i,
                ) <==> exists|n: int| 0 <= n < r@.len() && #[trigger] r@[n] == i),
            forall|n: int, m: int| 0 <= n < m < r@.len() ==> r@[n] < r@[m],
            forall|n: int|
                0 <= n < r@.len() ==> starts(
                    schedule_names(old(self).schedules@),
                    due@,
                    old(self).active@,
                    #[trigger] r@[n] as int,
                ),
            forall|name: Seq<char>|
                is_active(final(self).active@, name) <==> (is_active(old(self).active@, name)
                    || exists|n: int|
                    0 <= n < r@.len() && schedule_names(old(self).schedules@)[#[trigger] r@[n] as int]
                        == name),
    {
        let ghost names = schedule_names(self.schedules@);
        let ghost was = self.active@;
        let mut r: Vec<usize> = Vec::new();
        let mut i: usize = 0;
        while i < self.schedules.len()
            invariant
                i <= self.schedules.len(),
                due@.len() == self.schedules@.len(),
                self.schedules == old(self).schedules,
                self.settings == old(self).settings,
                self.global_config == old(self).global_config,
                names == schedule_names(self.schedules@),
                was == old(self).active@,
                forall|k: int|
                    0 <= k < i ==> (starts(names, due@, was, k) <==> exists|n: int|
                        0 <= n < r@.len() && #[trigger] r@[n] == k),
                forall|n: int, m: int| 0 <= n < m < r@.len() ==> r@[n] < r@[m],
                forall|n: int| 0 <= n < r@.len() ==> #[trigger] r@[n] < i,
                forall|n: int|
                    0 <= n < r@.len() ==> starts(names, due@, was, #[trigger] r@[n] as int),
                forall|name: Seq<char>|
                    is_active(self.active@, name) <==> (is_active(was, name) || exists|n: int|
                        0 <= n < r@.len() && names[#[trigger] r@[n] as int] == name),
            decreases self.schedules.len() - i,
        {
            let name = &self.schedules[i].host.hostname;
            let ghost k = name@;
            assert(names[i as int] == k);
            let taken = holds_name(&self.active, name);
            let ghost before = r@;
            let ghost active_before = self.active@;
            proof {
                // a host is taken in this tick exactly by an earlier schedule
                // that is due and names it
                if exists|n: int| 0 <= n < before.len() && names[#[trigger] before[n] as int] == k {
                    let n = choose|n: int|
                        0 <= n < before.len() && names[#[trigger] before[n] as int] == k;
                    let j = before[n] as int;
                    assert(starts(names, due@, was, j));
                    assert(due@[j] && names[j] == names[i as int]);
                }
                if exists|j: int| 0 <= j < i && #[trigger] due@[j] && names[j] == k {
                    let j = choose|j: int| 0 <= j < i && #[trigger] due@[j] && names[j] == k;
                    if !is_active(was, k) {
                        lemma_first_due(names, due@, was, j);
                        let f = first_due(names, due@, j);
                        assert(starts(names, due@, was, f));
                        let n = choose|n: int| 0 <= n < before.len() && #[trigger] before[n] == f;
                        assert(names[before[n] as int] == k);
                    }
                }
            }
            if due[i] && !taken {
                r.push(i);
                self.active.push(name.clone());
                proof {
                    let now = r@;
                    assert(starts(names, due@, was, i as int));
                    assert(now[before.len() as int] == i);
                    assert forall|q: int| 0 <= q < i + 1 implies (starts(names, due@, was, q)
                        <==> exists|n: int| 0 <= n < now.len() && #[trigger] now[n] == q) by {
                        if q < i {
                            if starts(names, due@, was, q) {
                                let n = choose|n: int|
                                    0 <= n < before.len() && #[trigger] before[n] == q;
                                assert(now[n] == q);
                            }
                            if exists|n: int| 0 <= n < now.len() && #[trigger] now[n] == q {
                                let n = choose|n: int| 0 <= n < now.len() && #[trigger] now[n] == q;
                                assert(n < before.len());
                                assert(before[n] == q);
                            }
                        }
                    }
                    assert forall|name: Seq<char>|
                        is_active(self.active@, name) <==> (is_active(was, name) || exists|n: int|
                            0 <= n < now.len() && names[#[trigger] now[n] as int] == name) by {
                        if is_active(self.active@, name) {
                            let a = choose|a: int|
                                0 <= a < self.active@.len() && (#[trigger] self.active@[a])@
                                    == name;
                            if a < active_before.len() {
                                assert(active_before[a]@ == name);
                                assert(is_active(active_before, name));
                                if !is_active(was, name) {
                                    let n = choose|n: int|
                                        0 <= n < before.len() && names[#[trigger] before[n] as int]
                                            == name;
                                    assert(now[n] == before[n]);
                                }
                            } else {
                                assert(names[now[before.len() as int] as int] == name);
                            }
                        }
                        if is_active(was, name) {
                            assert(is_active(active_before, name));
                            let a = choose|a: int|
                                0 <= a < active_before.len() && (#[trigger] active_before[a])@
                                    == name;
                            assert(self.active@[a]@ == name);
                        }
                        if exists|n: int|
                            0 <= n < now.len() && names[#[trigger] now[n] as int] == name {
                            let n = choose|n: int|
                                0 <= n < now.len() && names[#[trigger] now[n] as int] == name;
                            if n < before.len() {
                                assert(before[n] == now[n]);
                                assert(is_active(active_before, name));
                                let a = choose|a: int|
                                    0 <= a < active_before.len() && (#[trigger] active_before[a])@
                                        == name;
                                assert(self.active@[a]@ == name);
                            } else {
                                assert(self.active@[active_before.len() as int]@ == name);
                            }
                        }
                    }
                }
            } else {
                proof {
                    assert(!starts(names, due@, was, i as int)) by {
                        if due@[i as int] {
                            assert(is_active(active_before, k));
                            if !is_active(was, k) {
                                let n = choose|n: int|
                                    0 <= n < before.len() && names[#[trigger] before[n] as int]
                                        == k;
                                let j = before[n] as int;
                                assert(starts(names, due@, was, j));
                                assert(due@[j] && names[j] == names[i as int]);
                            }
                        }
                    }
                }
            }
            i += 1;
        }
        r
    }

    /// Notes that the task of the host named `hostname` is over: the host
    /// is in flight no longer.
    pub fn finish(&mut self, hostname: &String)
        ensures
            final(self).schedules == old(self).schedules,
            final(self).settings == old(self).settings,
            final(self).global_config == old(self).global_config,
            forall|name: Seq<char>|
                is_active(final(self).active@, name) <==> (is_active(old(self).active@, name)
                    && name != hostname@),
    {
        let mut kept: Vec<String> = Vec::new();
        let mut i: usize = 0;
        while i < self.active.len()
            invariant
                i <= self.active.len(),
                self.active == old(self).active,
                forall|name: Seq<char>|
                    is_active(kept@, name) <==> (is_active(self.active@.take(i as int), name)
                        && name != hostname@),
            decreases self.active.len() - i,
        {
            let ghost before = kept@;
            let ghost seen = self.active@.take(i as int);
            let ghost seen_now = self.active@.take(i + 1);
            let ghost current = self.active@[i as int]@;
            let keep = !(self.active[i] == *hostname);
            if keep {
                kept.push(self.active[i].clone());
            }
            proof {
                assert forall|name: Seq<char>|
                    is_active(kept@, name) <==> (is_active(seen_now, name) && name
                        != hostname@) by {
                    assert(is_active(before, name) <==> (is_active(seen, name) && name
                        != hostname@));
                    if is_active(kept@, name) {
                        let a = choose|a: int|
                            0 <= a < kept@.len() && (#[trigger] kept@[a])@ == name;
                        if a < before.len() {
                            assert(before[a]@ == name);
                            assert(is_active(before, name));
                            let b = choose|b: int|
                                0 <= b < seen.len() && (#[trigger] seen[b])@ == name;
                            assert(seen_now[b]@ == name);
                        } else {
                            assert(seen_now[i as int]@ == name);
                        }
                    }
                    if is_active(seen_now, name) && name != hostname@ {
                        let b = choose|b: int|
                            0 <= b < seen_now.len() && (#[trigger] seen_now[b])@ == name;
                        if b < i {
                            assert(seen[b]@ == name);
                            assert(is_active(seen, name));
                            let a = choose|a: int|
                                0 <= a < before.len() && (#[trigger] before[a])@ == name;
                            assert(kept@[a]@ == name);
                        } else {
                            assert(kept@[before.len() as int]@ == name);
                        }
                    }
                }
            }
            i += 1;
        }
        assert(self.active@.take(self.active.len() as int) =~= self.active@);
        self.active = kept;
    }
}

/// The first schedule up to index `j` that is due and names the host of
/// the schedule at `j`.
pub open spec fn first_due(names: Seq<Seq<char>>, due: Seq<bool>, j: int) -> int
    decreases j,
{
    if j <= 0 {
        0
    } else if exists|q: int| 0 <= q < j && #[trigger] due[q] && names[q] == names[j] {
        first_due(names, due, choose|q: int| 0 <= q < j && #[trigger] due[q] && names[q] == names[j])
    } else {
        j
    }
}

/// Among the schedules that are due and name one host that is not in
/// flight, the first one starts a task.
pub proof fn lemma_first_due(names: Seq<Seq<char>>, due: Seq<bool>, active: Seq<String>, j: int)
    requires
        0 <= j < names.len(),
        j < due.len(),
        due[j],
        !is_active(active, names[j]),
    ensures
        0 <= first_due(names, due, j) <= j,
        names[first_due(names, due, j)] == names[j],
        starts(names, due, active, first_due(names, due, j)),
    decreases j,
{
    if j > 0 && exists|q: int| 0 <= q < j && #[trigger] due[q] && names[q] == names[j] {
        let q = choose|q: int| 0 <= q < j && #[trigger] due[q] && names[q] == names[j];
        lemma_first_due(names, due, active, q);
    }
}

/// In one tick no host gets two tasks, and no host that is in flight gets
/// one.
pub proof fn lemma_one_task_per_host(
    names: Seq<Seq<char>>,
    due: Seq<bool>,
    active: Seq<String>,
    i: int,
    j: int,
)
    requires
        starts(names, due, active, i),
        starts(names, due, active, j),
        names[i] == names[j],
    ensures
        i == j,
        !is_active(active, names[i]),
{
    if i < j {
        assert(due[i] && names[i] == names[j]);
    }
    if j < i {
        assert(due[j] && names[j] == names[i]);
    }
}

} // verus!
