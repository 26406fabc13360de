//! The operator's commands: what a line of input asks for, and what each
//! command needs before it can be carried out.

use vstd::prelude::*;
use vstd::string::*;
use crate::backup::{records_dir_of, Sftp};
use crate::compiler::{record_path_of, snapshot_record_path};
use crate::config::{first_named, has_host, GlobalConfig, HostConfig, HostConfigView, Settings};
use crate::logging::Trap;
use crate::path::{chars_of, parse_path, pushed, stem_of_path, string_of, FilePath};
use crate::record::Record;

verus! {

/// How much a backup run fetches.
#[derive(Debug, Clone, Copy, PartialEq, Eq, Structural)]
pub enum BackupMethod {
    /// Every file.
    Full,
    /// The files that changed since they were recorded.
    Incremental,
}

/// What `list` shows of a host.
#[derive(Debug, Clone, Copy, PartialEq, Eq, Structural)]
pub enum ListMethod {
    Snapshots,
    Config,
}

/// The commands.
#[derive(Debug, Clone, Copy, PartialEq, Eq, Structural)]
pub enum ActionType {
    AddHost,
    DeleteHost,
    ModifyHost,
    RunBackup,
    Compile,
    List,
    Clear,
    Help,
    Exit,
}

/// A command with its operands.
#[derive(Debug)]
pub struct Action {
    pub action_type: ActionType,
    pub operands: Vec<String>,
    pub global_config: GlobalConfig,
}

/// The lower-case form of an upper-case letter of the basic alphabet; any
/// other character as it is.
pub open spec fn lower(c: char) -> char {
    if 'A' <= c && c <= 'Z' {
        ((c as u8 + 32) as u8) as char
    } else {
        c
    }
}

/// The text with each letter of the basic alphabet in lower case.
pub open spec fn lowered(s: Seq<char>) -> Seq<char> {
    Seq::new(s.len(), |i: int| lower(s[i]))
}

/// The text in lower case.
pub fn to_lower(s: &str) -> (r: String)
    ensures
        r@ == lowered(s@),
{
    let chars = chars_of(s);
    let mut out: Vec<char> = Vec::new();
    let mut i: usize = 0;
    while i < chars.len()
        invariant
            i <= chars.len(),
            chars@ == s@,
            out@ == lowered(s@).take(i as int),
        decreases chars.len() - i,
    {
        let c = chars[i];
        let l = if c >= 'A' && c <= 'Z' {
            (c as u8 + 32) as char
        } else {
            c
        };
        out.push(l);
        assert(out@ =~= lowered(s@).take(i + 1));
        i += 1;
    }
    assert(lowered(s@).take(chars.len() as int) =~= lowered(s@));
    string_of(&out)
}

/// Whether the text is the word.
fn is_word(text: &String, word: &str) -> (r: bool)
    ensures
        r == (text@ == word@),
{
    *text == String::from_str(word)
}

/// The command that a word names, whatever its case.
pub open spec fn action_type_of(word: Seq<char>) -> Option<ActionType> {
    let w = lowered(word);
    if w == "a"@ || w == "add"@ {
        Some(ActionType::AddHost)
    } else if w == "d"@ || w == "del"@ {
        Some(ActionType::DeleteHost)
    } else if w == "m"@ || w == "mod"@ {
        Some(ActionType::ModifyHost)
    } else if w == "l"@ || w == "list"@ {
        Some(ActionType::List)
    } else if w == "r"@ || w == "run"@ {
        Some(ActionType::RunBackup)
    } else if w == "c"@ || w == "compile"@ {
        Some(ActionType::Compile)
    } else if w == "h"@ || w == "?"@ || w == "help"@ {
        Some(ActionType::Help)
    } else if w == "q"@ || w == "quit"@ || w == "exit"@ {
        Some(ActionType::Exit)
    } else if w == "clear"@ {
        Some(ActionType::Clear)
    } else {
        None
    }
}

/// The method of a backup run that a word names, whatever its case.
pub open spec fn backup_method_of(word: Seq<char>) -> Option<BackupMethod> {
    let w = lowered(word);
    if w == "incremental"@ || w == "inc"@ || w == "i"@ {
        Some(BackupMethod::Incremental)
    } else if w == "full"@ || w == "f"@ {
        Some(BackupMethod::Full)
    } else {
        None
    }
}

/// What to list that a word names, whatever its case.
pub open spec fn list_method_of(word: Seq<char>) -> Option<ListMethod> {
    let w = lowered(word);
    if w == "snapshots"@ || w == "s"@ || w == "snap"@ {
        Some(ListMethod::Snapshots)
    } else if w == "config"@ || w == "c"@ || w == "conf"@ {
        Some(ListMethod::Config)
    } else {
        None
    }
}

/// The command that the word names.
pub fn parse_action_word(word: &str) -> (r: Option<ActionType>)
    ensures
        r == action_type_of(word@),
{
    let w = to_lower(word);
    if is_word(&w, "a") || is_word(&w, "add") {
        Some(ActionType::AddHost)
    } else if is_word(&w, "d") || is_word(&w, "del") {
        Some(ActionType::DeleteHost)
    } else if is_word(&w, "m") || is_word(&w, "mod") {
        Some(ActionType::ModifyHost)
    } else if is_word(&w, "l") || is_word(&w, "list") {
        Some(ActionType::List)
    } else if is_word(&w, "r") || is_word(&w, "run") {
        Some(ActionType::RunBackup)
    } else if is_word(&w, "c") || is_word(&w, "compile") {
        Some(ActionType::Compile)
    } else if is_word(&w, "h") || is_word(&w, "?") || is_word(&w, "help") {
        Some(ActionType::Help)
    } else if is_word(&w, "q") || is_word(&w, "quit") || is_word(&w, "exit") {
        Some(ActionType::Exit)
    } else if is_word(&w, "clear") {
        Some(ActionType::Clear)
    } else {
        None
    }
}

/// The method of a backup run that the word names.
pub fn parse_backup_method(word: &str) -> (r: Option<BackupMethod>)
    ensures
        r == backup_method_of(word@),
{
    let w = to_lower(word);
    if is_word(&w, "incremental") || is_word(&w, "inc") || is_word(&w, "i") {
        Some(BackupMethod::Incremental)
    } else if is_word(&w, "full") || is_word(&w, "f") {
        Some(BackupMethod::Full)
    } else {
        None
    }
}

/// What to list that the word names.
pub fn parse_list_method(word: &str) -> (r: Option<ListMethod>)
    ensures
        r == list_method_of(word@),
{
    let w = to_lower(word);
    if is_word(&w, "snapshots") || is_word(&w, "s") || is_word(&w, "snap") {
        Some(ListMethod::Snapshots)
    } else if is_word(&w, "config") || is_word(&w, "c") || is_word(&w, "conf") {
        Some(ListMethod::Config)
    } else {
        None
    }
}

/// The commands that the help has a page for.
#[derive(Debug, Clone, Copy, PartialEq, Eq, Structural)]
pub enum HelpTopic {
    Add,
    Del,
    Mod,
    Run,
    List,
    Compile,
}

/// The help page that a word names, whatever its case.
pub open spec fn help_topic_of(word: Seq<char>) -> Option<HelpTopic> {
    let w = lowered(word);
    if w == "add"@ {
        Some(HelpTopic::Add)
    } else if w == "del"@ {
        Some(HelpTopic::Del)
    } else if w == "mod"@ {
        Some(HelpTopic::Mod)
    } else if w == "run"@ {
        Some(HelpTopic::Run)
    } else if w == "list"@ {
        Some(HelpTopic::List)
    } else if w == "compile"@ {
        Some(HelpTopic::Compile)
    } else {
        None
    }
}

/// The help page that the word names.
pub fn parse_help_topic(word: &str) -> (r: Option<HelpTopic>)
    ensures
        r == help_topic_of(word@),
{
    let w = to_lower(word);
    if is_word(&w, "add") {
        Some(HelpTopic::Add)
    } else if is_word(&w, "del") {
        Some(HelpTopic::Del)
    } else if is_word(&w, "mod") {
        Some(HelpTopic::Mod)
    } else if is_word(&w, "run") {
        Some(HelpTopic::Run)
    } else if is_word(&w, "list") {
        Some(HelpTopic::List)
    } else if is_word(&w, "compile") {
        Some(HelpTopic::Compile)
    } else {
        None
    }
}

/// What a command asks for, once its operands are seen to fit.
#[derive(Debug)]
pub enum Command {
    AddHost { hostname: String },
    DeleteHost { hostname: String },
    ModifyHost { hostname: String },
    RunBackup { hostname: String, method: BackupMethod },
    Compile { hostname: String },
    /// List the hostnames.
    ListHosts,
    List { hostname: String, what: ListMethod },
    /// Show the help, on one topic or on all.
    Help { topic: Option<String> },
    Clear,
    Exit,
}

/// Whether the operands fit the command: one hostname for `add`, `del`,
/// `mod` and `compile`; a hostname and a method for `run`; nothing, or a
/// hostname and what to list, for `list`; anything for the others.
pub open spec fn operands_fit(action_type: ActionType, operands: Seq<String>) -> bool {
    match action_type {
        ActionType::AddHost | ActionType::DeleteHost | ActionType::ModifyHost | ActionType::Compile => {
            operands.len() == 1
        },
        ActionType::RunBackup => operands.len() == 2 && backup_method_of(operands[1]@) is Some,
        ActionType::List => operands.len() == 0 || (operands.len() == 2 && list_method_of(
            operands[1]@,
        ) is Some),
        _ => true,
    }
}

/// Whether `command` is what the command of the given type asks for with
/// the given operands.
pub open spec fn is_command_of(
    command: Command,
    action_type: ActionType,
    operands: Seq<String>,
) -> bool {
    match action_type {
        ActionType::AddHost => command is AddHost && command->AddHost_hostname@ == operands[0]@,
        ActionType::DeleteHost => command is DeleteHost && command->DeleteHost_hostname@
            == operands[0]@,
        ActionType::ModifyHost => command is ModifyHost && command->ModifyHost_hostname@
            == operands[0]@,
        ActionType::Compile => command is Compile && command->Compile_hostname@ == operands[0]@,
        ActionType::RunBackup => command is RunBackup && command->RunBackup_hostname@
            == operands[0]@ && Some(command->RunBackup_method) == backup_method_of(operands[1]@),
        ActionType::List => if operands.len() == 0 {
            command is ListHosts
        } else {
            command is List && command->List_hostname@ == operands[0]@ && Some(
                command->List_what,
            ) == list_method_of(operands[1]@)
        },
        ActionType::Help => command is Help && if operands.len() == 0 {
            command->Help_topic is None
        } else {
            command->Help_topic is Some && command->Help_topic->0@ == operands[0]@
        },
        ActionType::Clear => command is Clear,
        ActionType::Exit => command is Exit,
    }
}

/// The directory of the host's records and the host's current record.
pub struct HostRecords {
    pub host_config: HostConfig,
    pub records_dir: FilePath,
    pub record_path: FilePath,
}

impl Action {
    /// The action that a line of input asks for: its first word names the
    /// command, the others are its operands. Nothing where the line is empty
    /// or its first word names no command.
    pub fn parse(input: &Vec<String>, global_config: &GlobalConfig) -> (r: Option<Action>)
        ensures
            r is Some == (input@.len() > 0 && action_type_of(input@[0]@) is Some),
            r is Some ==> Some(r->0.action_type) == action_type_of(input@[0]@),
            r is Some ==> r->0.operands@.len() == input@.len() - 1,
            r is Some ==> forall|i: int|
                0 <= i < r->0.operands@.len() ==> (#[trigger] r->0.operands@[i])@ == input@[i + 1]@,
            r is Some ==> r->0.global_config.backups@ == global_config.backups@
                && r->0.global_config.hosts@ == global_config.hosts@
                && r->0.global_config.snapshots@ == global_config.snapshots@
                && r->0.global_config.log@ == global_config.log@,
    {
        if input.len() == 0 {
            return None;
        }
        let action_type = match parse_action_word(input[0].as_str()) {
            Some(action_type) => action_type,
            None => {
                return None;
            },
        };
        let mut operands: Vec<String> = Vec::new();
        let mut i: usize = 1;
        while i < input.len()
            invariant
                1 <= i <= input.len(),
                operands@.len() == i - 1,
                forall|j: int| 0 <= j < operands@.len() ==> (#[trigger] operands@[j])@ == input@[j
                    + 1]@,
            decreases input.len() - i,
        {
            operands.push(input[i].clone());
            i += 1;
        }
        Some(Action { action_type, operands, global_config: global_config.clone() })
    }

    /// What the action asks for. Operands that do not fit the command are
    /// refused with `InvalidInput`.
    pub fn execute(&self) -> (r: Result<Command, Trap>)
        ensures
            r is Ok == operands_fit(self.action_type, self.operands@),
            r is Ok ==> is_command_of(r->Ok_0, self.action_type, self.operands@),
            r is Err ==> r->Err_0 is InvalidInput,
    {
        let n = self.operands.len();
        match self.action_type {
            ActionType::AddHost => {
                if n != 1 {
                    return Err(Self::misuse());
                }
                Ok(Command::AddHost { hostname: self.operands[0].clone() })
            },
            ActionType::DeleteHost => {
                if n != 1 {
                    return Err(Self::misuse());
                }
                Ok(Command::DeleteHost { hostname: self.operands[0].clone() })
            },
            ActionType::ModifyHost => {
                if n != 1 {
                    return Err(Self::misuse());
                }
                Ok(Command::ModifyHost { hostname: self.operands[0].clone() })
            },
            ActionType::Compile => {
                if n != 1 {
                    return Err(Self::misuse());
                }
                Ok(Command::Compile { hostname: self.operands[0].clone() })
            },
            ActionType::RunBackup => {
                if n != 2 {
                    return Err(Self::misuse());
                }
                match parse_backup_method(self.operands[1].as_str()) {
                    Some(method) => Ok(
                        Command::RunBackup { hostname: self.operands[0].clone(), method },
                    ),
                    None => Err(Trap::InvalidInput(String::from_str("Invalid input"))),
                }
            },
            ActionType::List => {
                if n == 0 {
                    return Ok(Command::ListHosts);
                }
                if n != 2 {
                    return Err(Self::misuse());
                }
                match parse_list_method(self.operands[1].as_str()) {
                    Some(what) => Ok(Command::List { hostname: self.operands[0].clone(), what }),
                    None => Err(
                        Trap::InvalidInput(
                            String::from_str("List Method is not recognized in this action"),
                        ),
                    ),
                }
            },
            ActionType::Help => {
                if n == 0 {
                    Ok(Command::Help { topic: None })
                } else {
                    Ok(Command::Help { topic: Some(self.operands[0].clone()) })
                }
            },
            ActionType::Clear => Ok(Command::Clear),
            ActionType::Exit => Ok(Command::Exit),
        }
    }

    /// The failure for operands that do not fit.
    fn misuse() -> (r: Trap)
        ensures
            r is InvalidInput,
    {
        Trap::InvalidInput(
            String::from_str("Invalid arguments for action. Use `help` for more details"),
        )
    }

    /// The host that the action names, with the directory of its records and
    /// its current record. Refused with `InvalidInput` where the action has
    /// no operand or the table has no such host.
    pub fn host_records(&self, settings: &Settings) -> (r: Result<HostRecords, Trap>)
        ensures
            r is Ok == (self.operands@.len() > 0 && has_host(settings@, self.operands@[0]@)),
            r is Ok ==> r->Ok_0.host_config@ == self.named_config(settings)
                && r->Ok_0.records_dir@ == records_dir_of(
                self.global_config.backups@,
                self.named_config(settings).identifier,
            ) && r->Ok_0.record_path@ == pushed(
                records_dir_of(self.global_config.backups@, self.named_config(settings).identifier),
                parse_path("record.json"@),
            ),
            r is Err ==> r->Err_0 is InvalidInput,
    {
        if self.operands.len() == 0 {
            return Err(Self::misuse());
        }
        let host_config = match settings.associated_config(&self.operands[0]) {
            Some(config) => config,
            None => {
                return Err(Trap::InvalidInput(String::from_str("hostname is not found")));
            },
        };
        let records_dir = self.global_config.backups.join_str(
            host_config.identifier.as_str(),
        ).join_str(".records");
        let record_path = records_dir.join_str("record.json");
        Ok(HostRecords { host_config, records_dir, record_path })
    }

    /// The run that `run` asks for: a run of the given host from its current
    /// record, incremental or full as the method says, which reports what it
    /// does and has not started.
    pub fn run_backup(&self, host_config: &HostConfig, record: Record, method: BackupMethod) -> (r:
        Sftp)
        ensures
            r.incremental == (method == BackupMethod::Incremental),
            r.debug,
            r.host_config@ == host_config@,
            r.global_config.hosts@ == self.global_config.hosts@,
            r.global_config.backups@ == self.global_config.backups@,
            r.global_config.snapshots@ == self.global_config.snapshots@,
            r.global_config.log@ == self.global_config.log@,
            r.record == record,
            r.host_root_path is None,
            r.snapshot_root_path is None,
            r.complete_destination is None,
    {
        let mut run = Sftp::new(host_config, &self.global_config, record, true);
        match method {
            BackupMethod::Incremental => {
                run.incremental = true;
            },
            BackupMethod::Full => {},
        }
        run
    }

    /// The configuration of the host that the first operand names.
    pub open spec fn named_config(&self, settings: &Settings) -> HostConfigView {
        settings@[first_named(settings@, self.operands@[0]@)].config
    }

    /// The record of the snapshot to compile: that of the snapshot that the
    /// operator chose by name for the host that the action names, `latest`
    /// standing for the host's current record. Refused with `InvalidInput`
    /// where the action has not exactly one operand or the table has no such
    /// host.
    pub fn compile_snapshot(&self, settings: &Settings, snapshot: &str) -> (r: Result<
        FilePath,
        Trap,
    >)
        ensures
            r is Ok == (self.operands@.len() == 1 && has_host(settings@, self.operands@[0]@)),
            r is Ok ==> r->Ok_0@ == record_path_of(
                self.global_config.backups@,
                self.named_config(settings).identifier,
                snapshot@,
            ),
            r is Err ==> r->Err_0 is InvalidInput,
    {
        if self.operands.len() != 1 {
            return Err(Self::misuse());
        }
        let host_config = match settings.associated_config(&self.operands[0]) {
            Some(config) => config,
            None => {
                return Err(Trap::InvalidInput(String::from_str("hostname is not found")));
            },
        };
        Ok(
            snapshot_record_path(
                &self.global_config.backups,
                host_config.identifier.as_str(),
                snapshot,
            ),
        )
    }
}

/// The units in which a size is shown.
#[derive(Debug, Clone, Copy, PartialEq, Eq, Structural)]
pub enum ByteUnit {
    B,
    Kib,
    Mib,
    Gib,
    Tib,
}

impl ByteUnit {
    /// The unit that stands `value` steps of 1024 above the byte; the byte
    /// itself where there is no such unit.
    pub open spec fn of(value: u32) -> ByteUnit {
        if value == 1 {
            ByteUnit::Kib
        } else if value == 2 {
            ByteUnit::Mib
        } else if value == 3 {
            ByteUnit::Gib
        } else if value == 4 {
            ByteUnit::Tib
        } else {
            ByteUnit::B
        }
    }

    /// The unit that stands `value` steps of 1024 above the byte.
    pub fn from_u32(value: u32) -> (r: ByteUnit)
        ensures
            r == ByteUnit::of(value),
    {
        match value {
            0 => ByteUnit::B,
            1 => ByteUnit::Kib,
            2 => ByteUnit::Mib,
            3 => ByteUnit::Gib,
            4 => ByteUnit::Tib,
            _ => ByteUnit::B,
        }
    }

    /// The unit's name.
    pub fn name(&self) -> (r: &'static str)
        ensures
            r@ == match self {
                ByteUnit::B => "bytes"@,
                ByteUnit::Kib => "Kib"@,
                ByteUnit::Mib => "MiB"@,
                ByteUnit::Gib => "Gib"@,
                ByteUnit::Tib => "Tib"@,
            },
    {
        match self {
            ByteUnit::B => "bytes",
            ByteUnit::Kib => "Kib",
            ByteUnit::Mib => "MiB",
            ByteUnit::Gib => "Gib",
            ByteUnit::Tib => "Tib",
        }
    }
}

/// How often a size is divided by 1024 before it is shown: until it is at
/// most 1024.
pub open spec fn scale_steps(amount: nat) -> nat
    decreases amount,
{
    if amount > 1024 {
        1 + scale_steps(amount / 1024)
    } else {
        0
    }
}

/// The amount that is shown for a size: the size divided by 1024, rounding
/// down each time, until it is at most 1024.
pub open spec fn scaled_amount(amount: nat) -> nat
    decreases amount,
{
    if amount > 1024 {
        scaled_amount(amount / 1024)
    } else {
        amount
    }
}

/// A size as it is shown: the amount in whole units and the unit.
pub fn scale_bytes(bytes: u64) -> (r: (u64, ByteUnit))
    ensures
        r.0 == scaled_amount(bytes as nat),
        r.1 == ByteUnit::of(scale_steps(bytes as nat) as u32),
        scale_steps(bytes as nat) <= 6,
{
    let mut current_amount: u64 = bytes;
    let mut unit: u32 = 0;
    assert(pow1024(0) == 1);
    assert(current_amount as nat * pow1024(0) == current_amount as nat) by (nonlinear_arith)
        requires
            pow1024(0) == 1,
    ;
    while current_amount > 1024
        invariant
            scaled_amount(bytes as nat) == scaled_amount(current_amount as nat),
            scale_steps(bytes as nat) == unit + scale_steps(current_amount as nat),
            unit <= 6,
            current_amount as nat * pow1024(unit as nat) <= u64::MAX,
        decreases current_amount,
    {
        proof {
            lemma_pow1024_step(current_amount as nat, unit as nat);
        }
        current_amount = current_amount / 1024;
        unit += 1;
    }
    (current_amount, ByteUnit::from_u32(unit))
}

/// 1024 to the power of `n`.
pub open spec fn pow1024(n: nat) -> nat
    decreases n,
{
    if n == 0 {
        1
    } else {
        1024 * pow1024((n - 1) as nat)
    }
}

/// An amount above 1024 that fits in 64 bits together with the steps taken so
/// far has taken fewer than six steps, and fits still after one more.
pub proof fn lemma_pow1024_step(amount: nat, steps: nat)
    requires
        amount > 1024,
        amount * pow1024(steps) <= u64::MAX,
        steps <= 6,
    ensures
        steps < 6,
        (amount / 1024) * pow1024(steps + 1) <= u64::MAX,
{
    reveal_with_fuel(pow1024, 8);
    assert((amount / 1024) * 1024 <= amount);
    assert((amount / 1024) * pow1024(steps + 1) == ((amount / 1024) * 1024) * pow1024(steps))
        by (nonlinear_arith)
        requires
            pow1024(steps + 1) == 1024 * pow1024(steps),
    ;
    assert(((amount / 1024) * 1024) * pow1024(steps) <= amount * pow1024(steps))
        by (nonlinear_arith)
        requires
            (amount / 1024) * 1024 <= amount,
    ;
    if steps == 6 {
        assert(pow1024(6) == 1152921504606846976);
        assert(amount * pow1024(6) > u64::MAX) by (nonlinear_arith)
            requires
                amount > 1024,
                pow1024(6) == 1152921504606846976,
        ;
    }
}

/// A file of a host's records directory: its path, when it was last
/// modified (seconds since the epoch), and the size that its record gives.
#[derive(Debug)]
pub struct RecordFile {
    pub path: FilePath,
    pub modified: u64,
    pub size: u64,
}

/// The files stand oldest first.
pub open spec fn in_date_order(files: Seq<RecordFile>) -> bool {
    forall|i: int, j: int|
        0 <= i <= j < files.len() ==> (#[trigger] files[i]).modified <= (#[trigger] files[j]).modified
}

/// A sequence with one more item holds what it held before, and the item.
pub proof fn lemma_insert_to_multiset(files: Seq<RecordFile>, at: int, file: RecordFile)
    requires
        0 <= at <= files.len(),
    ensures
        files.insert(at, file).to_multiset() == files.to_multiset().insert(file),
{
    broadcast use vstd::seq_lib::group_to_multiset_ensures;

    let more = files.insert(at, file);
    assert(more.remove(at) =~= files);
    assert(more[at] == file);
    assert(more.contains(file));
    assert(more.to_multiset().remove(file) =~= files.to_multiset());
    assert(more.to_multiset() =~= files.to_multiset().insert(file));
}

/// Puts the files in the order of their times of last modification, the
/// oldest first.
pub fn sort_dates(dates: &mut Vec<RecordFile>)
    ensures
        in_date_order(final(dates)@),
        final(dates)@.to_multiset() == old(dates)@.to_multiset(),
{
    broadcast use vstd::seq_lib::group_to_multiset_ensures;

    let mut sorted: Vec<RecordFile> = Vec::new();
    assert(sorted@.to_multiset().add(dates@.to_multiset()) =~= old(dates)@.to_multiset());
    while dates.len() > 0
        invariant
            in_date_order(sorted@),
            sorted@.to_multiset().add(dates@.to_multiset()) == old(dates)@.to_multiset(),
        decreases dates.len(),
    {
        let ghost rest = dates@;
        let file = dates.pop().unwrap();
        assert(rest =~= dates@.push(file));
        proof {
            vstd::seq_lib::to_multiset_build(dates@, file);
        }
        let mut at: usize = 0;
        while at < sorted.len() && sorted[at].modified <= file.modified
            invariant
                at <= sorted.len(),
                forall|i: int| 0 <= i < at ==> (#[trigger] sorted@[i]).modified <= file.modified,
            decreases sorted.len() - at,
        {
            at += 1;
        }
        proof {
            let was = sorted@;
            let now = was.insert(at as int, file);
            lemma_insert_to_multiset(was, at as int, file);
            assert forall|i: int, j: int| 0 <= i <= j < now.len() implies (#[trigger] now[i]).modified
                <= (#[trigger] now[j]).modified by {
                let a = if i < at { i } else { i - 1 };
                let b = if j < at { j } else { j - 1 };
                if i != at && j != at {
                    assert(was[a].modified <= was[b].modified);
                } else if i == at && j != at {
                    assert(was[at as int].modified <= was[b].modified);
                }
            }
            assert(now.to_multiset().add(dates@.to_multiset()) =~= was.to_multiset().add(
                rest.to_multiset(),
            ));
        }
        sorted.insert(at, file);
    }
    assert(dates@ =~= Seq::<RecordFile>::empty());
    assert(sorted@.to_multiset().add(dates@.to_multiset()) =~= sorted@.to_multiset());
    *dates = sorted;
}

/// One line of the list of a host's snapshots: the snapshot's name and the
/// size of what it holds.
#[derive(Debug)]
pub struct SnapshotLine {
    pub name: String,
    pub amount: u64,
    pub unit: ByteUnit,
}

/// Whether a file of the records directory is listed as a snapshot: it has
/// a name, and is not the host's current record.
pub open spec fn is_listed(file: RecordFile) -> bool {
    stem_of_path(file.path@) is Some && stem_of_path(file.path@)->0 != "record"@
}

/// The files that are listed, in order.
pub open spec fn listed(files: Seq<RecordFile>) -> Seq<RecordFile>
    decreases files.len(),
{
    if files.len() == 0 {
        Seq::empty()
    } else if is_listed(files.last()) {
        listed(files.drop_last()).push(files.last())
    } else {
        listed(files.drop_last())
    }
}

/// The line shows the file: its name without extension, and its size in
/// the unit that fits.
pub open spec fn line_shows(line: SnapshotLine, file: RecordFile) -> bool {
    &&& Some(line.name@) == stem_of_path(file.path@)
    &&& line.amount == scaled_amount(file.size as nat)
    &&& line.unit == ByteUnit::of(scale_steps(file.size as nat) as u32)
}

/// The lines show the listed files, one each and in order.
pub open spec fn lines_show(lines: Seq<SnapshotLine>, files: Seq<RecordFile>) -> bool {
    &&& lines.len() == listed(files).len()
    &&& forall|i: int| 0 <= i < lines.len() ==> line_shows(#[trigger] lines[i], listed(files)[i])
}

impl Action {
    /// The list of a host's snapshots, made from the files of its records
    /// directory: oldest first, without the host's current record, each with
    /// the size that its record gives.
    pub fn list_snapshots(files: Vec<RecordFile>) -> (r: Vec<SnapshotLine>)
        ensures
            exists|sorted: Seq<RecordFile>|
                in_date_order(sorted) && sorted.to_multiset() == files@.to_multiset() && lines_show(
                    r@,
                    sorted,
                ),
    {
        let mut files = files;
        let ghost given = files@;
        sort_dates(&mut files);
        let mut lines: Vec<SnapshotLine> = Vec::new();
        let mut i: usize = 0;
        assert(files@.take(0) =~= Seq::<RecordFile>::empty());
        while i < files.len()
            invariant
                i <= files.len(),
                lines_show(lines@, files@.take(i as int)),
            decreases files.len() - i,
        {
            let file = &files[i];
            proof {
                assert(files@.take(i + 1).drop_last() =~= files@.take(i as int));
                assert(files@.take(i + 1).last() == files@[i as int]);
            }
            match file.path.file_stem() {
                Some(stem) => {
                    let name = string_of(&stem);
                    if !is_word(&name, "record") {
                        let (amount, unit) = scale_bytes(file.size);
                        lines.push(SnapshotLine { name, amount, unit });
                    }
                },
                None => {},
            }
            i += 1;
        }
        assert(files@.take(files.len() as int) =~= files@);
        assert(in_date_order(files@) && files@.to_multiset() == given.to_multiset() && lines_show(
            lines@,
            files@,
        ));
        lines
    }
}

} // verus!
